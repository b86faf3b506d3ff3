use sclang::load_test::load_test;
use sclang::sclang::sclcelldata::{
    create_cell_with_links, create_cell_with_text_only, enable_feature, get_drop_cell_count,
    is_debug_enabled, reset_drop_cell_count,
};
use sclang::sclang::{
    command_is_accepted, execute_command, execute_command_with_console, parse_command_line,
    CommandKind, SCLDataMap,
};

#[test]
fn parse_error_on_leading_space() {
    let mut m = SCLDataMap::new();
    assert_eq!(execute_command(&mut m, " (show-data a)"), "COMMAND PARSE ERROR");
}

#[test]
fn parse_error_on_unknown_command() {
    let mut m = SCLDataMap::new();
    assert_eq!(execute_command(&mut m, "(list-data a)"), "COMMAND PARSE ERROR");
    assert_eq!(execute_command(&mut m, "(show-data 1a)"), "COMMAND PARSE ERROR");
    assert_eq!(execute_command(&mut m, "(show-data a"), "COMMAND PARSE ERROR");
    assert_eq!(execute_command(&mut m, ""), "COMMAND PARSE ERROR");
}

#[test]
fn parse_error_on_backslash_in_text() {
    let mut m = SCLDataMap::new();
    assert_eq!(
        execute_command(&mut m, r#"(store-data a ("x\y" "z"))"#),
        "COMMAND PARSE ERROR"
    );
    assert_eq!(get_drop_cell_count(&m), 0);
    assert_eq!(execute_command(&mut m, "(show-data a)"), "SYMBOL NOT FOUND: a\n");
}

#[test]
fn trailing_text_is_ignored() {
    let mut m = SCLDataMap::new();
    assert_eq!(execute_command(&mut m, "(show-data a) rest"), "SYMBOL NOT FOUND: a\n");
}

#[test]
fn spaces_between_items_are_optional() {
    let mut m = SCLDataMap::new();
    assert_eq!(execute_command(&mut m, "(show-dataabc)"), "SYMBOL NOT FOUND: abc\n");
    assert_eq!(
        execute_command(&mut m, r#"(  store-data   x-1("a""b")  )"#),
        "STORED DATA FOR SYMBOL - x-1\n"
    );
    assert_eq!(
        execute_command(&mut m, "(show-data x-1)"),
        "DATA FOR SYMBOL - x-1\n- text 1: \"a\"\n- text 2: \"b\"\n- link 1 - empty\n- link 2 - empty\n"
    );
}

#[test]
fn parse_command_line_keeps_quotes() {
    let c = parse_command_line(r#"(update-data k ("t1" "t2" (p q)))"#).unwrap();
    assert!(matches!(c.kind, CommandKind::UpdateData));
    assert_eq!(c.arg, "k");
    let v = c.value.unwrap();
    assert_eq!(v.text1, "\"t1\"");
    assert_eq!(v.text2, "\"t2\"");
    let (a, b) = v.refs.unwrap();
    assert_eq!(a, "p");
    assert_eq!(b, "q");
    let d = parse_command_line("(drop-symbol k)").unwrap();
    assert!(matches!(d.kind, CommandKind::DropSymbol));
    assert!(d.value.is_none());
    assert!(parse_command_line("(drop-symbol)").is_none());
}

#[test]
fn not_found_messages() {
    let mut m = SCLDataMap::new();
    assert_eq!(
        execute_command(&mut m, r#"(update-data u ("a" "b"))"#),
        "UPDATE - SYMBOL NOT FOUND: u\n"
    );
    assert_eq!(
        execute_command(&mut m, "(drop-symbol u)"),
        "DROP FAILURE - SYMBOL NOT FOUND: u\n"
    );
    assert_eq!(execute_command(&mut m, "(show-data u)"), "SYMBOL NOT FOUND: u\n");
}

#[test]
fn store_without_debug_answers_one_line() {
    let mut m = SCLDataMap::new();
    assert!(!is_debug_enabled(&m));
    assert_eq!(
        execute_command(&mut m, r#"(store-data a ("x" "y"))"#),
        "STORED DATA FOR SYMBOL - a\n"
    );
    assert_eq!(
        execute_command(&mut m, r#"(update-data a ("z" "w"))"#),
        "UPDATED DATA FOR SYMBOL - a\n"
    );
    assert_eq!(
        execute_command(&mut m, "(show-data a)"),
        "DATA FOR SYMBOL - a\n- text 1: \"z\"\n- text 2: \"w\"\n- link 1 - empty\n- link 2 - empty\n"
    );
}

#[test]
fn update_with_debug_dumps_the_cell() {
    let mut m = SCLDataMap::new();
    execute_command(&mut m, "(enable-feature debug)");
    execute_command(&mut m, r#"(store-data a ("x" "y"))"#);
    assert_eq!(
        execute_command(&mut m, r#"(update-data a ("x2" "y2" (a a)))"#),
        [
            "UPDATED DATA FOR SYMBOL - a\n",
            "- text 1: \"x2\"\n",
            "- text 2: \"y2\"\n",
            "- link 1 info:\n",
            "  link 1 info - text 1: \"x2\"\n",
            "  link 1 info - text 2: \"y2\"\n",
            "  - link 1 -> link 1 info - text only:\n",
            "    link 1 -> link 1 info - text 1: \"x2\"\n",
            "    link 1 -> link 1 info - text 2: \"y2\"\n",
            "  - link 1 -> link 2 info - text only:\n",
            "    link 1 -> link 2 info - text 1: \"x2\"\n",
            "    link 1 -> link 2 info - text 2: \"y2\"\n",
            "- link 2 info:\n",
            "  link 2 info - text 1: \"x2\"\n",
            "  link 2 info - text 2: \"y2\"\n",
            "  - link 2 -> link 1 info - text only:\n",
            "    link 2 -> link 1 info - text 1: \"x2\"\n",
            "    link 2 -> link 1 info - text 2: \"y2\"\n",
            "  - link 2 -> link 2 info - text only:\n",
            "    link 2 -> link 2 info - text 1: \"x2\"\n",
            "    link 2 -> link 2 info - text 2: \"y2\"\n",
        ]
        .concat()
    );
}

#[test]
fn enable_feature_reports_on_console() {
    let mut m = SCLDataMap::new();
    let (answer, console) = execute_command_with_console(&mut m, "(enable-feature colour)");
    assert_eq!(answer, "ENABLE FEATURE: colour\n");
    assert_eq!(console, "UNKNOWN FEATURE - IGNORED: colour\n");
    assert!(!is_debug_enabled(&m));
    let (answer, console) = execute_command_with_console(&mut m, "(enable-feature debug)");
    assert_eq!(answer, "ENABLE FEATURE: debug\n");
    assert_eq!(console, "DEBUG ENABLED\n");
    assert!(is_debug_enabled(&m));
    let (_, console) = execute_command_with_console(&mut m, "(show-data a)");
    assert_eq!(console, "");
}

#[test]
fn enable_feature_directly() {
    let mut m = SCLDataMap::new();
    assert_eq!(enable_feature(&mut m, "verbose"), "UNKNOWN FEATURE - IGNORED: verbose\n");
    assert!(!is_debug_enabled(&m));
    assert_eq!(enable_feature(&mut m, "debug"), "DEBUG ENABLED\n");
    assert!(is_debug_enabled(&m));
    assert_eq!(enable_feature(&mut m, "other"), "UNKNOWN FEATURE - IGNORED: other\n");
    assert!(is_debug_enabled(&m));
}

#[test]
fn rebinding_a_symbol_drops_its_old_cell() {
    let mut m = SCLDataMap::new();
    execute_command(&mut m, r#"(store-data a ("1" "2"))"#);
    assert_eq!(get_drop_cell_count(&m), 0);
    execute_command(&mut m, r#"(store-data a ("3" "4"))"#);
    assert_eq!(get_drop_cell_count(&m), 1);
    assert_eq!(
        execute_command(&mut m, "(show-data a)"),
        "DATA FOR SYMBOL - a\n- text 1: \"3\"\n- text 2: \"4\"\n- link 1 - empty\n- link 2 - empty\n"
    );
}

#[test]
fn update_unlinks_and_drops_the_unreached_cell() {
    let mut m = SCLDataMap::new();
    execute_command(&mut m, r#"(store-data a ("1" "2"))"#);
    execute_command(&mut m, r#"(store-data b ("3" "4" (a a)))"#);
    execute_command(&mut m, "(drop-symbol a)");
    assert_eq!(get_drop_cell_count(&m), 0);
    execute_command(&mut m, r#"(update-data b ("5" "6"))"#);
    assert_eq!(get_drop_cell_count(&m), 1);
}

#[test]
fn drop_symbol_twice_fails_the_second_time() {
    let mut m = SCLDataMap::new();
    execute_command(&mut m, r#"(store-data a ("1" "2"))"#);
    assert_eq!(execute_command(&mut m, "(drop-symbol a)"), "DROPPED SYMBOL: a\n");
    assert_eq!(
        execute_command(&mut m, "(drop-symbol a)"),
        "DROP FAILURE - SYMBOL NOT FOUND: a\n"
    );
    assert_eq!(get_drop_cell_count(&m), 1);
}

#[test]
fn dropping_the_last_symbol_frees_a_cycle() {
    let mut m = SCLDataMap::new();
    execute_command(&mut m, r#"(store-data a ("1" "2"))"#);
    execute_command(&mut m, r#"(store-data b ("3" "4" (a a)))"#);
    execute_command(&mut m, r#"(update-data a ("1" "2" (b b)))"#);
    execute_command(&mut m, r#"(store-data c ("5" "6" (a b)))"#);
    execute_command(&mut m, "(drop-symbol a)");
    execute_command(&mut m, "(drop-symbol b)");
    assert_eq!(get_drop_cell_count(&m), 0);
    execute_command(&mut m, "(drop-symbol c)");
    assert_eq!(get_drop_cell_count(&m), 3);
    assert_eq!(m.collect_unreachable(), 0);
}

#[test]
fn collecting_after_a_command_drops_nothing() {
    let mut m = SCLDataMap::new();
    execute_command(&mut m, r#"(store-data a ("1" "2"))"#);
    execute_command(&mut m, r#"(store-data b ("3" "4" (a a)))"#);
    execute_command(&mut m, "(drop-symbol a)");
    assert_eq!(m.collect_unreachable(), 0);
    assert_eq!(get_drop_cell_count(&m), 0);
}

#[test]
fn reset_sets_the_counter_to_zero() {
    let mut m = SCLDataMap::new();
    execute_command(&mut m, r#"(store-data a ("1" "2"))"#);
    execute_command(&mut m, "(drop-symbol a)");
    assert_eq!(get_drop_cell_count(&m), 1);
    reset_drop_cell_count(&mut m);
    assert_eq!(get_drop_cell_count(&m), 0);
}

#[test]
fn acceptance_of_lines() {
    let mut m = SCLDataMap::new();
    assert!(command_is_accepted(&m, "not a command"));
    assert!(command_is_accepted(&m, r#"(store-data a ("1" "2"))"#));
    assert!(!command_is_accepted(&m, r#"(store-data a ("1" "2" (x y)))"#));
    assert!(!command_is_accepted(&m, "(store-data a)"));
    assert!(!command_is_accepted(&m, r#"(show-data a ("1" "2"))"#));
    assert!(!command_is_accepted(&m, r#"(drop-symbol a ("1" "2"))"#));
    assert!(!command_is_accepted(&m, r#"(enable-feature debug ("1" "2"))"#));
    assert!(!command_is_accepted(&m, "(update-data a)"));
    assert!(command_is_accepted(&m, r#"(update-data a ("1" "2" (x y)))"#));
    execute_command(&mut m, r#"(store-data a ("1" "2"))"#);
    assert!(!command_is_accepted(&m, r#"(update-data a ("1" "2" (x y)))"#));
    assert!(command_is_accepted(&m, r#"(update-data a ("1" "2" (a a)))"#));
}

#[test]
fn cells_through_the_handles() {
    let mut m = SCLDataMap::new();
    let a = create_cell_with_text_only(&mut m, "a1", "a2");
    let b = create_cell_with_links(&mut m, "b1", "b2", a, a);
    assert_eq!(a.get_text1(&m), "a1");
    assert_eq!(a.get_text2(&m), "a2");
    assert_eq!(b.get_text1(&m), "b1");
    assert_eq!(b.get_text2(&m), "b2");
    assert!(a.get_link1(&m).is_none());
    assert!(a.get_link2(&m).is_none());
    let l1 = b.get_link1(&m).unwrap();
    assert_eq!(l1.get_text1(&m), "a1");
    let l2 = b.get_link2(&m).unwrap();
    assert_eq!(l2.get_text2(&m), "a2");
    a.update_data(&mut m, "a3", "a4", Some(b), None);
    assert_eq!(a.get_text1(&m), "a3");
    assert_eq!(a.get_link1(&m).unwrap().get_text1(&m), "b1");
    assert!(a.get_link2(&m).is_none());
    assert_eq!(
        a.get_dump(&m),
        [
            "- text 1: a3\n",
            "- text 2: a4\n",
            "- link 1 info:\n",
            "  link 1 info - text 1: b1\n",
            "  link 1 info - text 2: b2\n",
            "  - link 1 -> link 1 info - text only:\n",
            "    link 1 -> link 1 info - text 1: a3\n",
            "    link 1 -> link 1 info - text 2: a4\n",
            "  - link 1 -> link 2 info - text only:\n",
            "    link 1 -> link 2 info - text 1: a3\n",
            "    link 1 -> link 2 info - text 2: a4\n",
            "- link 2 - empty\n",
        ]
        .concat()
    );
}

#[test]
fn symbols_and_collection_through_the_map() {
    let mut m = SCLDataMap::new();
    let a = create_cell_with_text_only(&mut m, "a1", "a2");
    let b = create_cell_with_links(&mut m, "b1", "b2", a, a);
    a.update_data(&mut m, "a1", "a2", Some(b), Some(b));
    let c = create_cell_with_text_only(&mut m, "c1", "c2");
    assert!(m.insert("a", a).is_none());
    assert!(m.get("a").is_some());
    assert!(m.get("b").is_none());
    assert!(m.contains(c));
    assert_eq!(m.collect_unreachable(), 1);
    assert!(!m.contains(c));
    assert!(m.contains(b));
    assert_eq!(get_drop_cell_count(&m), 1);
    assert!(m.insert("a", b).is_some());
    assert_eq!(m.get("a").unwrap().get_text1(&m), "b1");
    assert!(m.remove("a").is_some());
    assert!(m.remove("a").is_none());
    assert!(m.contains(a));
    assert_eq!(m.collect_unreachable(), 2);
    assert_eq!(get_drop_cell_count(&m), 3);
    assert!(m.cell_capacity_left());
}

#[test]
fn load_test_drops_its_three_cells() {
    let mut m = SCLDataMap::new();
    assert_eq!(load_test(&mut m, 3, 3), "");
    assert_eq!(get_drop_cell_count(&m), 3);
    assert_eq!(load_test(&mut m, 0, 0), "");
    assert_eq!(get_drop_cell_count(&m), 6);
    assert_eq!(execute_command(&mut m, "(show-data a)"), "SYMBOL NOT FOUND: a\n");
}

#[test]
fn load_test_reports_its_drops_with_debug_on() {
    let mut m = SCLDataMap::new();
    enable_feature(&mut m, "debug");
    let report = load_test(&mut m, 10, 2);
    assert_eq!(
        report,
        [
            drop_block("\"a-text-1\"", "\"a-text-2\"", 1),
            drop_block("\"b-text-1\"", "\"b-text-2\"", 2),
            drop_block("\"c-text-1\"", "\"c-text-2\"", 3),
        ]
        .concat()
    );
    assert_eq!(get_drop_cell_count(&m), 3);
}

fn drop_block(t1: &str, t2: &str, n: u32) -> String {
    format!(
        "DROP CELL DATA with info:\n- text 1: {}\n- text 2: {}\nDROP CELL COUNT: {}\n--- --- ---\n",
        t1, t2, n
    )
}

#[test]
fn debug_reports_each_dropped_cell_in_order() {
    let mut m = SCLDataMap::new();
    execute_command(&mut m, "(enable-feature debug)");
    execute_command(&mut m, r#"(store-data a ("a1" "a2"))"#);
    execute_command(&mut m, r#"(store-data b ("b1" "b2" (a a)))"#);
    execute_command(&mut m, r#"(update-data a ("a1" "a2" (b b)))"#);
    execute_command(&mut m, r#"(store-data c ("c1" "c2" (a b)))"#);
    let (answer, console) = execute_command_with_console(&mut m, "(drop-symbol a)");
    assert_eq!(answer, "DROPPED SYMBOL: a\n");
    assert_eq!(console, "");
    execute_command(&mut m, "(drop-symbol b)");
    let (answer, console) = execute_command_with_console(&mut m, "(drop-symbol c)");
    assert_eq!(answer, "DROPPED SYMBOL: c\n");
    assert_eq!(
        console,
        [
            drop_block("\"a1\"", "\"a2\"", 1),
            drop_block("\"b1\"", "\"b2\"", 2),
            drop_block("\"c1\"", "\"c2\"", 3),
        ]
        .concat()
    );
}

#[test]
fn debug_reports_a_replaced_cell() {
    let mut m = SCLDataMap::new();
    execute_command(&mut m, "(enable-feature debug)");
    execute_command(&mut m, r#"(store-data a ("1" "2"))"#);
    let (_, console) = execute_command_with_console(&mut m, r#"(store-data a ("3" "4"))"#);
    assert_eq!(console, drop_block("\"1\"", "\"2\"", 1));
    execute_command(&mut m, r#"(store-data b ("5" "6"))"#);
    let (_, console) = execute_command_with_console(&mut m, r#"(update-data a ("7" "8" (a a)))"#);
    assert_eq!(console, "");
    let (_, console) = execute_command_with_console(&mut m, r#"(update-data b ("9" "0" (a a)))"#);
    assert_eq!(console, "");
}

#[test]
fn drop_report_counts_past_nine() {
    let mut m = SCLDataMap::new();
    for k in 0..11 {
        let store = format!("(store-data x{} (\"t\" \"u\"))", k);
        execute_command(&mut m, &store);
        execute_command(&mut m, &format!("(drop-symbol x{})", k));
    }
    assert_eq!(get_drop_cell_count(&m), 11);
    let (_, console) = execute_command_with_console(&mut m, "(drop-symbol x0)");
    assert_eq!(console, "");
    execute_command(&mut m, "(enable-feature debug)");
    execute_command(&mut m, r#"(store-data y ("v" "w"))"#);
    let (_, console) = execute_command_with_console(&mut m, "(drop-symbol y)");
    assert_eq!(console, drop_block("\"v\"", "\"w\"", 12));
}

#[test]
fn without_debug_nothing_is_reported() {
    let mut m = SCLDataMap::new();
    execute_command(&mut m, r#"(store-data a ("1" "2"))"#);
    let (_, console) = execute_command_with_console(&mut m, "(drop-symbol a)");
    assert_eq!(console, "");
    assert_eq!(get_drop_cell_count(&m), 1);
}

#[test]
fn report_of_the_map_before_collection() {
    let mut m = SCLDataMap::new();
    let a = create_cell_with_text_only(&mut m, "p", "q");
    let b = create_cell_with_text_only(&mut m, "r", "s");
    m.insert("b", b);
    assert!(m.contains(a));
    assert_eq!(m.dropped_cells_report(), drop_block("p", "q", 1));
    assert_eq!(m.collect_unreachable(), 1);
    assert_eq!(m.dropped_cells_report(), "");
}

#[test]
fn capacity_stays_after_many_drops() {
    let mut m = SCLDataMap::new();
    for k in 0..5 {
        execute_command(&mut m, &format!("(store-data s{} (\"t\" \"u\"))", k));
        execute_command(&mut m, &format!("(drop-symbol s{})", k));
    }
    assert_eq!(get_drop_cell_count(&m), 5);
    assert!(m.cell_capacity_left());
    reset_drop_cell_count(&mut m);
    assert!(m.cell_capacity_left());
    assert!(command_is_accepted(&m, r#"(store-data z ("t" "u"))"#));
}

#[test]
fn symbol_and_cell_counts() {
    let mut m = SCLDataMap::new();
    assert!(m.is_empty());
    assert_eq!(m.len(), 0);
    assert_eq!(m.live_cell_count(), 0);
    execute_command(&mut m, r#"(store-data a ("1" "2"))"#);
    execute_command(&mut m, r#"(store-data b ("3" "4" (a a)))"#);
    assert!(!m.is_empty());
    assert_eq!(m.len(), 2);
    assert_eq!(m.live_cell_count(), 2);
    execute_command(&mut m, r#"(store-data a ("5" "6"))"#);
    assert_eq!(m.len(), 2);
    assert_eq!(m.live_cell_count(), 3);
    execute_command(&mut m, "(drop-symbol b)");
    assert_eq!(m.len(), 1);
    assert_eq!(m.live_cell_count(), 1);
}

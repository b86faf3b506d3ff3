use sclang::sclang::sclcelldata::{get_drop_cell_count, reset_drop_cell_count};
use sclang::sclang::{execute_command, SCLDataMap};

#[test]
fn test_circular_2_records() {
    let mut map = SCLDataMap::new();
    let m = &mut map;
    reset_drop_cell_count(m);
    assert_eq!(get_drop_cell_count(m), 0);
    assert_eq!(
        execute_command(m, r#"(enable-feature debug)"#),
        r#"ENABLE FEATURE: debug
"#
    );
    assert_eq!(
        execute_command(m, r#"(store-data data-1 ("first text" "second text"))"#),
        r#"STORED DATA FOR SYMBOL - data-1
- text 1: "first text"
- text 2: "second text"
- link 1 - empty
- link 2 - empty
"#
    );
    assert_eq!(
        execute_command(m, r#"(show-data data-1)"#),
        r#"DATA FOR SYMBOL - data-1
- text 1: "first text"
- text 2: "second text"
- link 1 - empty
- link 2 - empty
"#
    );
    assert_eq!(
        execute_command(m, r#"(store-data data-2 ("text 1" "text 2" (data-1 data-1)))"#),
        r#"STORED DATA FOR SYMBOL - data-2
- text 1: "text 1"
- text 2: "text 2"
- link 1 info:
  link 1 info - text 1: "first text"
  link 1 info - text 2: "second text"
  - link 1 -> link 1 - empty
  - link 1 -> link 2 - empty
- link 2 info:
  link 2 info - text 1: "first text"
  link 2 info - text 2: "second text"
  - link 2 -> link 1 - empty
  - link 2 -> link 2 - empty
"#
    );
    assert_eq!(
        execute_command(m, r#"(show-data data-2)"#),
        r#"DATA FOR SYMBOL - data-2
- text 1: "text 1"
- text 2: "text 2"
- link 1 info:
  link 1 info - text 1: "first text"
  link 1 info - text 2: "second text"
  - link 1 -> link 1 - empty
  - link 1 -> link 2 - empty
- link 2 info:
  link 2 info - text 1: "first text"
  link 2 info - text 2: "second text"
  - link 2 -> link 1 - empty
  - link 2 -> link 2 - empty
"#
    );
    assert_eq!(
        execute_command(m, r#"(update-data data-1 ("first text - updated" "second text - updated" (data-2 data-2)))"#),
        r#"UPDATED DATA FOR SYMBOL - data-1
- text 1: "first text - updated"
- text 2: "second text - updated"
- link 1 info:
  link 1 info - text 1: "text 1"
  link 1 info - text 2: "text 2"
  - link 1 -> link 1 info - text only:
    link 1 -> link 1 info - text 1: "first text - updated"
    link 1 -> link 1 info - text 2: "second text - updated"
  - link 1 -> link 2 info - text only:
    link 1 -> link 2 info - text 1: "first text - updated"
    link 1 -> link 2 info - text 2: "second text - updated"
- link 2 info:
  link 2 info - text 1: "text 1"
  link 2 info - text 2: "text 2"
  - link 2 -> link 1 info - text only:
    link 2 -> link 1 info - text 1: "first text - updated"
    link 2 -> link 1 info - text 2: "second text - updated"
  - link 2 -> link 2 info - text only:
    link 2 -> link 2 info - text 1: "first text - updated"
    link 2 -> link 2 info - text 2: "second text - updated"
"#
    );
    assert_eq!(
        execute_command(m, r#"(show-data data-1)"#),
        r#"DATA FOR SYMBOL - data-1
- text 1: "first text - updated"
- text 2: "second text - updated"
- link 1 info:
  link 1 info - text 1: "text 1"
  link 1 info - text 2: "text 2"
  - link 1 -> link 1 info - text only:
    link 1 -> link 1 info - text 1: "first text - updated"
    link 1 -> link 1 info - text 2: "second text - updated"
  - link 1 -> link 2 info - text only:
    link 1 -> link 2 info - text 1: "first text - updated"
    link 1 -> link 2 info - text 2: "second text - updated"
- link 2 info:
  link 2 info - text 1: "text 1"
  link 2 info - text 2: "text 2"
  - link 2 -> link 1 info - text only:
    link 2 -> link 1 info - text 1: "first text - updated"
    link 2 -> link 1 info - text 2: "second text - updated"
  - link 2 -> link 2 info - text only:
    link 2 -> link 2 info - text 1: "first text - updated"
    link 2 -> link 2 info - text 2: "second text - updated"
"#
    );
    assert_eq!(
        execute_command(m, r#"(show-data data-2)"#),
        r#"DATA FOR SYMBOL - data-2
- text 1: "text 1"
- text 2: "text 2"
- link 1 info:
  link 1 info - text 1: "first text - updated"
  link 1 info - text 2: "second text - updated"
  - link 1 -> link 1 info - text only:
    link 1 -> link 1 info - text 1: "text 1"
    link 1 -> link 1 info - text 2: "text 2"
  - link 1 -> link 2 info - text only:
    link 1 -> link 2 info - text 1: "text 1"
    link 1 -> link 2 info - text 2: "text 2"
- link 2 info:
  link 2 info - text 1: "first text - updated"
  link 2 info - text 2: "second text - updated"
  - link 2 -> link 1 info - text only:
    link 2 -> link 1 info - text 1: "text 1"
    link 2 -> link 1 info - text 2: "text 2"
  - link 2 -> link 2 info - text only:
    link 2 -> link 2 info - text 1: "text 1"
    link 2 -> link 2 info - text 2: "text 2"
"#
    );
    assert_eq!(
        execute_command(m, r#"(drop-symbol data-2)"#),
        r#"DROPPED SYMBOL: data-2
"#
    );
    assert_eq!(get_drop_cell_count(m), 0);
    assert_eq!(
        execute_command(m, r#"(enable-feature debug)"#),
        r#"ENABLE FEATURE: debug
"#
    );
    assert_eq!(
        execute_command(m, r#"(show-data data-1)"#),
        r#"DATA FOR SYMBOL - data-1
- text 1: "first text - updated"
- text 2: "second text - updated"
- link 1 info:
  link 1 info - text 1: "text 1"
  link 1 info - text 2: "text 2"
  - link 1 -> link 1 info - text only:
    link 1 -> link 1 info - text 1: "first text - updated"
    link 1 -> link 1 info - text 2: "second text - updated"
  - link 1 -> link 2 info - text only:
    link 1 -> link 2 info - text 1: "first text - updated"
    link 1 -> link 2 info - text 2: "second text - updated"
- link 2 info:
  link 2 info - text 1: "text 1"
  link 2 info - text 2: "text 2"
  - link 2 -> link 1 info - text only:
    link 2 -> link 1 info - text 1: "first text - updated"
    link 2 -> link 1 info - text 2: "second text - updated"
  - link 2 -> link 2 info - text only:
    link 2 -> link 2 info - text 1: "first text - updated"
    link 2 -> link 2 info - text 2: "second text - updated"
"#
    );
    assert_eq!(
        execute_command(m, r#"(show-data data-2)"#),
        r#"SYMBOL NOT FOUND: data-2
"#
    );
    assert_eq!(
        execute_command(m, r#"(drop-symbol data-1)"#),
        r#"DROPPED SYMBOL: data-1
"#
    );
    assert_eq!(
        execute_command(m, r#"(show-data data-2)"#),
        r#"SYMBOL NOT FOUND: data-2
"#
    );
    assert_eq!(get_drop_cell_count(m), 2);
}

#[test]
fn test_circular_5_records() {
    let mut map = SCLDataMap::new();
    let m = &mut map;
    reset_drop_cell_count(m);
    assert_eq!(get_drop_cell_count(m), 0);
    assert_eq!(
        execute_command(m, r#"(enable-feature debug)"#),
        r#"ENABLE FEATURE: debug
"#
    );
    assert_eq!(
        execute_command(m, r#"(store-data data-node-a ("a-text-1" "a-text-2"))"#),
        r#"STORED DATA FOR SYMBOL - data-node-a
- text 1: "a-text-1"
- text 2: "a-text-2"
- link 1 - empty
- link 2 - empty
"#
    );
    assert_eq!(
        execute_command(m, r#"(store-data data-node-b ("b-text-1" "b-text-2" (data-node-a data-node-a)))"#),
        r#"STORED DATA FOR SYMBOL - data-node-b
- text 1: "b-text-1"
- text 2: "b-text-2"
- link 1 info:
  link 1 info - text 1: "a-text-1"
  link 1 info - text 2: "a-text-2"
  - link 1 -> link 1 - empty
  - link 1 -> link 2 - empty
- link 2 info:
  link 2 info - text 1: "a-text-1"
  link 2 info - text 2: "a-text-2"
  - link 2 -> link 1 - empty
  - link 2 -> link 2 - empty
"#
    );
    assert_eq!(
        execute_command(m, r#"(update-data data-node-a ("a-text-1" "a-text-2" (data-node-b data-node-b)))"#),
        r#"UPDATED DATA FOR SYMBOL - data-node-a
- text 1: "a-text-1"
- text 2: "a-text-2"
- link 1 info:
  link 1 info - text 1: "b-text-1"
  link 1 info - text 2: "b-text-2"
  - link 1 -> link 1 info - text only:
    link 1 -> link 1 info - text 1: "a-text-1"
    link 1 -> link 1 info - text 2: "a-text-2"
  - link 1 -> link 2 info - text only:
    link 1 -> link 2 info - text 1: "a-text-1"
    link 1 -> link 2 info - text 2: "a-text-2"
- link 2 info:
  link 2 info - text 1: "b-text-1"
  link 2 info - text 2: "b-text-2"
  - link 2 -> link 1 info - text only:
    link 2 -> link 1 info - text 1: "a-text-1"
    link 2 -> link 1 info - text 2: "a-text-2"
  - link 2 -> link 2 info - text only:
    link 2 -> link 2 info - text 1: "a-text-1"
    link 2 -> link 2 info - text 2: "a-text-2"
"#
    );
    assert_eq!(
        execute_command(m, r#"(store-data data-node-c ("c-text-1" "c-text-2" (data-node-a data-node-b)))"#),
        r#"STORED DATA FOR SYMBOL - data-node-c
- text 1: "c-text-1"
- text 2: "c-text-2"
- link 1 info:
  link 1 info - text 1: "a-text-1"
  link 1 info - text 2: "a-text-2"
  - link 1 -> link 1 info - text only:
    link 1 -> link 1 info - text 1: "b-text-1"
    link 1 -> link 1 info - text 2: "b-text-2"
  - link 1 -> link 2 info - text only:
    link 1 -> link 2 info - text 1: "b-text-1"
    link 1 -> link 2 info - text 2: "b-text-2"
- link 2 info:
  link 2 info - text 1: "b-text-1"
  link 2 info - text 2: "b-text-2"
  - link 2 -> link 1 info - text only:
    link 2 -> link 1 info - text 1: "a-text-1"
    link 2 -> link 1 info - text 2: "a-text-2"
  - link 2 -> link 2 info - text only:
    link 2 -> link 2 info - text 1: "a-text-1"
    link 2 -> link 2 info - text 2: "a-text-2"
"#
    );
    assert_eq!(
        execute_command(m, r#"(update-data data-node-b ("b-text-1" "b-text-2" (data-node-a data-node-c)))"#),
        r#"UPDATED DATA FOR SYMBOL - data-node-b
- text 1: "b-text-1"
- text 2: "b-text-2"
- link 1 info:
  link 1 info - text 1: "a-text-1"
  link 1 info - text 2: "a-text-2"
  - link 1 -> link 1 info - text only:
    link 1 -> link 1 info - text 1: "b-text-1"
    link 1 -> link 1 info - text 2: "b-text-2"
  - link 1 -> link 2 info - text only:
    link 1 -> link 2 info - text 1: "b-text-1"
    link 1 -> link 2 info - text 2: "b-text-2"
- link 2 info:
  link 2 info - text 1: "c-text-1"
  link 2 info - text 2: "c-text-2"
  - link 2 -> link 1 info - text only:
    link 2 -> link 1 info - text 1: "a-text-1"
    link 2 -> link 1 info - text 2: "a-text-2"
  - link 2 -> link 2 info - text only:
    link 2 -> link 2 info - text 1: "b-text-1"
    link 2 -> link 2 info - text 2: "b-text-2"
"#
    );
    assert_eq!(
        execute_command(m, r#"(store-data data-node-d ("d-text-1" "d-text-2" (data-node-a data-node-c)))"#),
        r#"STORED DATA FOR SYMBOL - data-node-d
- text 1: "d-text-1"
- text 2: "d-text-2"
- link 1 info:
  link 1 info - text 1: "a-text-1"
  link 1 info - text 2: "a-text-2"
  - link 1 -> link 1 info - text only:
    link 1 -> link 1 info - text 1: "b-text-1"
    link 1 -> link 1 info - text 2: "b-text-2"
  - link 1 -> link 2 info - text only:
    link 1 -> link 2 info - text 1: "b-text-1"
    link 1 -> link 2 info - text 2: "b-text-2"
- link 2 info:
  link 2 info - text 1: "c-text-1"
  link 2 info - text 2: "c-text-2"
  - link 2 -> link 1 info - text only:
    link 2 -> link 1 info - text 1: "a-text-1"
    link 2 -> link 1 info - text 2: "a-text-2"
  - link 2 -> link 2 info - text only:
    link 2 -> link 2 info - text 1: "b-text-1"
    link 2 -> link 2 info - text 2: "b-text-2"
"#
    );
    assert_eq!(
        execute_command(m, r#"(store-data data-node-e ("e-text-1" "e-text-2" (data-node-a data-node-d)))"#),
        r#"STORED DATA FOR SYMBOL - data-node-e
- text 1: "e-text-1"
- text 2: "e-text-2"
- link 1 info:
  link 1 info - text 1: "a-text-1"
  link 1 info - text 2: "a-text-2"
  - link 1 -> link 1 info - text only:
    link 1 -> link 1 info - text 1: "b-text-1"
    link 1 -> link 1 info - text 2: "b-text-2"
  - link 1 -> link 2 info - text only:
    link 1 -> link 2 info - text 1: "b-text-1"
    link 1 -> link 2 info - text 2: "b-text-2"
- link 2 info:
  link 2 info - text 1: "d-text-1"
  link 2 info - text 2: "d-text-2"
  - link 2 -> link 1 info - text only:
    link 2 -> link 1 info - text 1: "a-text-1"
    link 2 -> link 1 info - text 2: "a-text-2"
  - link 2 -> link 2 info - text only:
    link 2 -> link 2 info - text 1: "c-text-1"
    link 2 -> link 2 info - text 2: "c-text-2"
"#
    );
    assert_eq!(
        execute_command(m, r#"(update-data data-node-a ("a-text-1" "a-text-2" (data-node-b data-node-e)))"#),
        r#"UPDATED DATA FOR SYMBOL - data-node-a
- text 1: "a-text-1"
- text 2: "a-text-2"
- link 1 info:
  link 1 info - text 1: "b-text-1"
  link 1 info - text 2: "b-text-2"
  - link 1 -> link 1 info - text only:
    link 1 -> link 1 info - text 1: "a-text-1"
    link 1 -> link 1 info - text 2: "a-text-2"
  - link 1 -> link 2 info - text only:
    link 1 -> link 2 info - text 1: "c-text-1"
    link 1 -> link 2 info - text 2: "c-text-2"
- link 2 info:
  link 2 info - text 1: "e-text-1"
  link 2 info - text 2: "e-text-2"
  - link 2 -> link 1 info - text only:
    link 2 -> link 1 info - text 1: "a-text-1"
    link 2 -> link 1 info - text 2: "a-text-2"
  - link 2 -> link 2 info - text only:
    link 2 -> link 2 info - text 1: "d-text-1"
    link 2 -> link 2 info - text 2: "d-text-2"
"#
    );
    assert_eq!(get_drop_cell_count(m), 0);
    assert_eq!(
        execute_command(m, r#"(drop-symbol data-node-b)"#),
        r#"DROPPED SYMBOL: data-node-b
"#
    );
    assert_eq!(
        execute_command(m, r#"(show-data data-node-a)"#),
        r#"DATA FOR SYMBOL - data-node-a
- text 1: "a-text-1"
- text 2: "a-text-2"
- link 1 info:
  link 1 info - text 1: "b-text-1"
  link 1 info - text 2: "b-text-2"
  - link 1 -> link 1 info - text only:
    link 1 -> link 1 info - text 1: "a-text-1"
    link 1 -> link 1 info - text 2: "a-text-2"
  - link 1 -> link 2 info - text only:
    link 1 -> link 2 info - text 1: "c-text-1"
    link 1 -> link 2 info - text 2: "c-text-2"
- link 2 info:
  link 2 info - text 1: "e-text-1"
  link 2 info - text 2: "e-text-2"
  - link 2 -> link 1 info - text only:
    link 2 -> link 1 info - text 1: "a-text-1"
    link 2 -> link 1 info - text 2: "a-text-2"
  - link 2 -> link 2 info - text only:
    link 2 -> link 2 info - text 1: "d-text-1"
    link 2 -> link 2 info - text 2: "d-text-2"
"#
    );
    assert_eq!(get_drop_cell_count(m), 0);
    assert_eq!(
        execute_command(m, r#"(show-data data-node-c)"#),
        r#"DATA FOR SYMBOL - data-node-c
- text 1: "c-text-1"
- text 2: "c-text-2"
- link 1 info:
  link 1 info - text 1: "a-text-1"
  link 1 info - text 2: "a-text-2"
  - link 1 -> link 1 info - text only:
    link 1 -> link 1 info - text 1: "b-text-1"
    link 1 -> link 1 info - text 2: "b-text-2"
  - link 1 -> link 2 info - text only:
    link 1 -> link 2 info - text 1: "e-text-1"
    link 1 -> link 2 info - text 2: "e-text-2"
- link 2 info:
  link 2 info - text 1: "b-text-1"
  link 2 info - text 2: "b-text-2"
  - link 2 -> link 1 info - text only:
    link 2 -> link 1 info - text 1: "a-text-1"
    link 2 -> link 1 info - text 2: "a-text-2"
  - link 2 -> link 2 info - text only:
    link 2 -> link 2 info - text 1: "c-text-1"
    link 2 -> link 2 info - text 2: "c-text-2"
"#
    );
    assert_eq!(
        execute_command(m, r#"(show-data data-node-e)"#),
        r#"DATA FOR SYMBOL - data-node-e
- text 1: "e-text-1"
- text 2: "e-text-2"
- link 1 info:
  link 1 info - text 1: "a-text-1"
  link 1 info - text 2: "a-text-2"
  - link 1 -> link 1 info - text only:
    link 1 -> link 1 info - text 1: "b-text-1"
    link 1 -> link 1 info - text 2: "b-text-2"
  - link 1 -> link 2 info - text only:
    link 1 -> link 2 info - text 1: "e-text-1"
    link 1 -> link 2 info - text 2: "e-text-2"
- link 2 info:
  link 2 info - text 1: "d-text-1"
  link 2 info - text 2: "d-text-2"
  - link 2 -> link 1 info - text only:
    link 2 -> link 1 info - text 1: "a-text-1"
    link 2 -> link 1 info - text 2: "a-text-2"
  - link 2 -> link 2 info - text only:
    link 2 -> link 2 info - text 1: "c-text-1"
    link 2 -> link 2 info - text 2: "c-text-2"
"#
    );
    assert_eq!(
        execute_command(m, r#"(drop-symbol data-node-a)"#),
        r#"DROPPED SYMBOL: data-node-a
"#
    );
    assert_eq!(
        execute_command(m, r#"(show-data data-node-d)"#),
        r#"DATA FOR SYMBOL - data-node-d
- text 1: "d-text-1"
- text 2: "d-text-2"
- link 1 info:
  link 1 info - text 1: "a-text-1"
  link 1 info - text 2: "a-text-2"
  - link 1 -> link 1 info - text only:
    link 1 -> link 1 info - text 1: "b-text-1"
    link 1 -> link 1 info - text 2: "b-text-2"
  - link 1 -> link 2 info - text only:
    link 1 -> link 2 info - text 1: "e-text-1"
    link 1 -> link 2 info - text 2: "e-text-2"
- link 2 info:
  link 2 info - text 1: "c-text-1"
  link 2 info - text 2: "c-text-2"
  - link 2 -> link 1 info - text only:
    link 2 -> link 1 info - text 1: "a-text-1"
    link 2 -> link 1 info - text 2: "a-text-2"
  - link 2 -> link 2 info - text only:
    link 2 -> link 2 info - text 1: "b-text-1"
    link 2 -> link 2 info - text 2: "b-text-2"
"#
    );
    // DROP FAILURE MESSAGE EXPECTED - ALREADY DROPPED THIS SYMBOL BEFORE
    assert_eq!(
        execute_command(m, r#"(drop-symbol data-node-b)"#),
        r#"DROP FAILURE - SYMBOL NOT FOUND: data-node-b
"#
    );
    assert_eq!(
        execute_command(m, r#"(drop-symbol data-node-c)"#),
        r#"DROPPED SYMBOL: data-node-c
"#
    );
    assert_eq!(
        execute_command(m, r#"(show-data data-node-d)"#),
        r#"DATA FOR SYMBOL - data-node-d
- text 1: "d-text-1"
- text 2: "d-text-2"
- link 1 info:
  link 1 info - text 1: "a-text-1"
  link 1 info - text 2: "a-text-2"
  - link 1 -> link 1 info - text only:
    link 1 -> link 1 info - text 1: "b-text-1"
    link 1 -> link 1 info - text 2: "b-text-2"
  - link 1 -> link 2 info - text only:
    link 1 -> link 2 info - text 1: "e-text-1"
    link 1 -> link 2 info - text 2: "e-text-2"
- link 2 info:
  link 2 info - text 1: "c-text-1"
  link 2 info - text 2: "c-text-2"
  - link 2 -> link 1 info - text only:
    link 2 -> link 1 info - text 1: "a-text-1"
    link 2 -> link 1 info - text 2: "a-text-2"
  - link 2 -> link 2 info - text only:
    link 2 -> link 2 info - text 1: "b-text-1"
    link 2 -> link 2 info - text 2: "b-text-2"
"#
    );
    assert_eq!(
        execute_command(m, r#"(drop-symbol data-node-d)"#),
        r#"DROPPED SYMBOL: data-node-d
"#
    );
    assert_eq!(get_drop_cell_count(m), 0);
    assert_eq!(
        execute_command(m, r#"(show-data data-node-e)"#),
        r#"DATA FOR SYMBOL - data-node-e
- text 1: "e-text-1"
- text 2: "e-text-2"
- link 1 info:
  link 1 info - text 1: "a-text-1"
  link 1 info - text 2: "a-text-2"
  - link 1 -> link 1 info - text only:
    link 1 -> link 1 info - text 1: "b-text-1"
    link 1 -> link 1 info - text 2: "b-text-2"
  - link 1 -> link 2 info - text only:
    link 1 -> link 2 info - text 1: "e-text-1"
    link 1 -> link 2 info - text 2: "e-text-2"
- link 2 info:
  link 2 info - text 1: "d-text-1"
  link 2 info - text 2: "d-text-2"
  - link 2 -> link 1 info - text only:
    link 2 -> link 1 info - text 1: "a-text-1"
    link 2 -> link 1 info - text 2: "a-text-2"
  - link 2 -> link 2 info - text only:
    link 2 -> link 2 info - text 1: "c-text-1"
    link 2 -> link 2 info - text 2: "c-text-2"
"#
    );
    assert_eq!(
        execute_command(m, r#"(drop-symbol data-node-e)"#),
        r#"DROPPED SYMBOL: data-node-e
"#
    );
    assert_eq!(get_drop_cell_count(m), 5);
}

#[test]
fn test_non_circular_2_records() {
    let mut map = SCLDataMap::new();
    let m = &mut map;
    reset_drop_cell_count(m);
    assert_eq!(get_drop_cell_count(m), 0);
    assert_eq!(
        execute_command(m, r#"(enable-feature debug)"#),
        r#"ENABLE FEATURE: debug
"#
    );
    assert_eq!(
        execute_command(m, r#"(store-data data-1 ("first text" "second text"))"#),
        r#"STORED DATA FOR SYMBOL - data-1
- text 1: "first text"
- text 2: "second text"
- link 1 - empty
- link 2 - empty
"#
    );
    assert_eq!(
        execute_command(m, r#"(show-data data-1)"#),
        r#"DATA FOR SYMBOL - data-1
- text 1: "first text"
- text 2: "second text"
- link 1 - empty
- link 2 - empty
"#
    );
    assert_eq!(
        execute_command(m, r#"(store-data data-2 ("text 1" "text 2" (data-1 data-1)))"#),
        r#"STORED DATA FOR SYMBOL - data-2
- text 1: "text 1"
- text 2: "text 2"
- link 1 info:
  link 1 info - text 1: "first text"
  link 1 info - text 2: "second text"
  - link 1 -> link 1 - empty
  - link 1 -> link 2 - empty
- link 2 info:
  link 2 info - text 1: "first text"
  link 2 info - text 2: "second text"
  - link 2 -> link 1 - empty
  - link 2 -> link 2 - empty
"#
    );
    assert_eq!(
        execute_command(m, r#"(show-data data-2)"#),
        r#"DATA FOR SYMBOL - data-2
- text 1: "text 1"
- text 2: "text 2"
- link 1 info:
  link 1 info - text 1: "first text"
  link 1 info - text 2: "second text"
  - link 1 -> link 1 - empty
  - link 1 -> link 2 - empty
- link 2 info:
  link 2 info - text 1: "first text"
  link 2 info - text 2: "second text"
  - link 2 -> link 1 - empty
  - link 2 -> link 2 - empty
"#
    );
    assert_eq!(
        execute_command(m, r#"(show-data data-1)"#),
        r#"DATA FOR SYMBOL - data-1
- text 1: "first text"
- text 2: "second text"
- link 1 - empty
- link 2 - empty
"#
    );
    assert_eq!(
        execute_command(m, r#"(show-data data-2)"#),
        r#"DATA FOR SYMBOL - data-2
- text 1: "text 1"
- text 2: "text 2"
- link 1 info:
  link 1 info - text 1: "first text"
  link 1 info - text 2: "second text"
  - link 1 -> link 1 - empty
  - link 1 -> link 2 - empty
- link 2 info:
  link 2 info - text 1: "first text"
  link 2 info - text 2: "second text"
  - link 2 -> link 1 - empty
  - link 2 -> link 2 - empty
"#
    );
    assert_eq!(get_drop_cell_count(m), 0);
    assert_eq!(
        execute_command(m, r#"(drop-symbol data-1)"#),
        r#"DROPPED SYMBOL: data-1
"#
    );
    // NOTE: EXPECT ZERO (0) drop cell count - data-1 cell is still referenced by data-2 cell
    assert_eq!(get_drop_cell_count(m), 0);
    assert_eq!(
        execute_command(m, r#"(drop-symbol data-2)"#),
        r#"DROPPED SYMBOL: data-2
"#
    );
    // EXPECT BOTH CELLS TO BE DROPPED AT THIS POINT
    assert_eq!(get_drop_cell_count(m), 2);
}

#[test]
fn test_circular_3_records_with_many_many_updates() {
    let mut map = SCLDataMap::new();
    let m = &mut map;
    let update_iteration_count = 10 * 1000;
    reset_drop_cell_count(m);
    assert_eq!(get_drop_cell_count(m), 0);
    execute_command(m, r#"(store-data data-node-a ("a-text-1" "a-text-2"))"#);
    execute_command(m, r#"(store-data data-node-b ("b-text-1" "b-text-2" (data-node-a data-node-a)))"#);
    execute_command(m, r#"(update-data data-node-a ("a-text-1" "a-text-2" (data-node-b data-node-b)))"#);
    execute_command(m, r#"(store-data data-node-c ("c-text-1" "c-text-2" (data-node-a data-node-b)))"#);
    execute_command(m, r#"(update-data data-node-a ("a-text-1" "a-text-2" (data-node-b data-node-b)))"#);
    execute_command(m, r#"(update-data data-node-b ("b-text-1" "b-text-2" (data-node-a data-node-c)))"#);
    for _ in 1..update_iteration_count {
        // reverse links in data-node-a
        execute_command(m, r#"(update-data data-node-a ("a-text-1" "a-text-2" (data-node-c data-node-b)))"#);
        // reverse links in data-node-b
        execute_command(m, r#"(update-data data-node-b ("b-text-1" "b-text-2" (data-node-c data-node-a)))"#);
        // reverse links in data-node-c
        execute_command(m, r#"(update-data data-node-c ("c-text-1" "c-text-2" (data-node-b data-node-a)))"#);
        // restore links in data-node-a
        execute_command(m, r#"(update-data data-node-a ("a-text-1" "a-text-2" (data-node-b data-node-c)))"#);
        // restore links in data-node-b
        execute_command(m, r#"(update-data data-node-b ("b-text-1" "b-text-2" (data-node-a data-node-c)))"#);
        // restore links in data-node-c
        execute_command(m, r#"(update-data data-node-c ("c-text-1" "c-text-2" (data-node-a data-node-b)))"#);
    }
    assert_eq!(get_drop_cell_count(m), 0);
    execute_command(m, r#"(drop-symbol data-node-a)"#);
    assert_eq!(get_drop_cell_count(m), 0);
    execute_command(m, r#"(drop-symbol data-node-b)"#);
    assert_eq!(get_drop_cell_count(m), 0);
    execute_command(m, r#"(drop-symbol data-node-c)"#);
    assert_eq!(get_drop_cell_count(m), 3);
}

pub mod command_text;
pub mod grammar;
pub mod properties;
pub mod sclcelldata;

use vstd::prelude::*;

pub use crate::sclang::grammar::{parse_command, parse_command_line, CellValue, CellValueView, Command, CommandKind, CommandView};
pub use crate::sclang::sclcelldata::SCLDataMap;
use crate::sclang::sclcelldata::{
    collected, create_cell_with_links, drop_report, create_cell_with_text_only, debug_after_enable, dump_view,
    enable_feature, enable_feature_message, new_cell, with_cell, with_new_cell, CellView, StoreView,
    has_room,
};

verus! {

/// Both symbols of a cell value name cells.
pub open spec fn refs_resolve(v: StoreView, val: CellValueView) -> bool {
    val.refs matches Some((a, b)) ==> v.symbols.contains_key(a) && v.symbols.contains_key(b)
}

/// The cell that a cell value describes, its symbols resolved in `v`.
pub open spec fn cell_of(v: StoreView, val: CellValueView) -> CellView {
    match val.refs {
        Some((a, b)) => new_cell(val.text1, val.text2, Some(v.symbols[a]), Some(v.symbols[b])),
        None => new_cell(val.text1, val.text2, None, None),
    }
}

/// The command runs to its end: it carries the argument it needs, every
/// symbol it links to is bound, and a new cell still fits.
pub open spec fn command_ok(v: StoreView, c: CommandView) -> bool {
    match c.kind {
        CommandKind::StoreData => c.value matches Some(val) && refs_resolve(v, val)
            && has_room(v),
        CommandKind::UpdateData => c.value matches Some(val) && (v.symbols.contains_key(c.arg)
            ==> refs_resolve(v, val)),
        _ => c.value is None,
    }
}

/// The line either fails to parse or holds a command that runs to its end.
pub open spec fn command_accepted(v: StoreView, line: Seq<char>) -> bool {
    match parse_command(line) {
        Some(c) => command_ok(v, c),
        None => true,
    }
}

/// The state after a command.
pub open spec fn command_next(v: StoreView, c: CommandView) -> StoreView {
    match c.kind {
        CommandKind::StoreData => match c.value {
            Some(val) => {
                let w = with_new_cell(v, cell_of(v, val));
                collected(StoreView { symbols: w.symbols.insert(c.arg, v.next_id), ..w })
            },
            None => v,
        },
        CommandKind::UpdateData => match c.value {
            Some(val) => if v.symbols.contains_key(c.arg) {
                collected(with_cell(v, v.symbols[c.arg], cell_of(v, val)))
            } else {
                v
            },
            None => v,
        },
        CommandKind::ShowData => v,
        CommandKind::DropSymbol => if v.symbols.contains_key(c.arg) {
            collected(StoreView { symbols: v.symbols.remove(c.arg), ..v })
        } else {
            v
        },
        CommandKind::EnableFeature => StoreView { debug: debug_after_enable(v.debug, c.arg), ..v },
    }
}

/// The text a command answers with.
pub open spec fn command_result(v: StoreView, c: CommandView) -> Seq<char> {
    let nl = "\n"@;
    match c.kind {
        CommandKind::StoreData => "STORED DATA FOR SYMBOL - "@ + c.arg + nl + if v.debug {
            dump_view(command_next(v, c), v.next_id)
        } else {
            Seq::empty()
        },
        CommandKind::UpdateData => if v.symbols.contains_key(c.arg) {
            "UPDATED DATA FOR SYMBOL - "@ + c.arg + nl + if v.debug {
                dump_view(command_next(v, c), v.symbols[c.arg])
            } else {
                Seq::empty()
            }
        } else {
            "UPDATE - SYMBOL NOT FOUND: "@ + c.arg + nl
        },
        CommandKind::ShowData => if v.symbols.contains_key(c.arg) {
            "DATA FOR SYMBOL - "@ + c.arg + nl + dump_view(v, v.symbols[c.arg])
        } else {
            "SYMBOL NOT FOUND: "@ + c.arg + nl
        },
        CommandKind::DropSymbol => if v.symbols.contains_key(c.arg) {
            "DROPPED SYMBOL: "@ + c.arg + nl
        } else {
            "DROP FAILURE - SYMBOL NOT FOUND: "@ + c.arg + nl
        },
        CommandKind::EnableFeature => "ENABLE FEATURE: "@ + c.arg + nl,
    }
}

/// The report of the cells that collecting `v` drops, when debug output is
/// on; nothing otherwise.
pub open spec fn collection_report(v: StoreView) -> Seq<char> {
    if v.debug {
        drop_report(v)
    } else {
        Seq::empty()
    }
}

/// The text a command reports on the console besides its answer: the
/// feature message of `enable-feature`, and for a command that changes the
/// cells or symbols, the report of the cells it drops.
pub open spec fn command_console(v: StoreView, c: CommandView) -> Seq<char> {
    match c.kind {
        CommandKind::StoreData => match c.value {
            Some(val) => {
                let w = with_new_cell(v, cell_of(v, val));
                collection_report(StoreView { symbols: w.symbols.insert(c.arg, v.next_id), ..w })
            },
            None => Seq::empty(),
        },
        CommandKind::UpdateData => match c.value {
            Some(val) => if v.symbols.contains_key(c.arg) {
                collection_report(with_cell(v, v.symbols[c.arg], cell_of(v, val)))
            } else {
                Seq::empty()
            },
            None => Seq::empty(),
        },
        CommandKind::ShowData => Seq::empty(),
        CommandKind::DropSymbol => if v.symbols.contains_key(c.arg) {
            collection_report(StoreView { symbols: v.symbols.remove(c.arg), ..v })
        } else {
            Seq::empty()
        },
        CommandKind::EnableFeature => enable_feature_message(c.arg),
    }
}

/// The answer to a line that does not parse.
pub open spec fn parse_error_text() -> Seq<char> {
    "COMMAND PARSE ERROR"@
}

/// The state after executing a line.
pub open spec fn execute_next(v: StoreView, line: Seq<char>) -> StoreView {
    match parse_command(line) {
        Some(c) => command_next(v, c),
        None => v,
    }
}

/// The answer to a line.
pub open spec fn execute_result(v: StoreView, line: Seq<char>) -> Seq<char> {
    match parse_command(line) {
        Some(c) => command_result(v, c),
        None => parse_error_text(),
    }
}

/// The console report of a line.
pub open spec fn execute_console(v: StoreView, line: Seq<char>) -> Seq<char> {
    match parse_command(line) {
        Some(c) => command_console(v, c),
        None => Seq::empty(),
    }
}

fn str_of(s: &String) -> (r: &str)
    ensures
        r@ == s@,
{
    s.as_str()
}

/// The report of the cells that collecting the store drops, when debug
/// output is on.
fn collection_report_of(m: &SCLDataMap) -> (r: String)
    requires
        m.wf(),
    ensures
        r@ == collection_report(m@),
{
    if sclcelldata::is_debug_enabled(m) {
        m.dropped_cells_report()
    } else {
        String::new()
    }
}

fn store_data(m: &mut SCLDataMap, name: &str, val: &CellValue) -> (out: (String, String))
    requires
        old(m).wf(),
        has_room(old(m)@),
        refs_resolve(old(m)@, val@),
    ensures
        final(m).wf(),
        final(m)@ == command_next(old(m)@, CommandView { kind: CommandKind::StoreData, arg: name@, value: Some(val@) }),
        out.0@ == command_result(old(m)@, CommandView { kind: CommandKind::StoreData, arg: name@, value: Some(val@) }),
        out.1@ == command_console(old(m)@, CommandView { kind: CommandKind::StoreData, arg: name@, value: Some(val@) }),
{
    let ghost v = m@;
    let ghost c = CommandView { kind: CommandKind::StoreData, arg: name@, value: Some(val@) };
    proof {
        m.lemma_wf_closed();
    }
    let links = match &val.refs {
        Some((a, b)) => Some((m.get(str_of(a)).unwrap(), m.get(str_of(b)).unwrap())),
        None => None,
    };
    let r = match links {
        Some((la, lb)) => create_cell_with_links(m, str_of(&val.text1), str_of(&val.text2), la, lb),
        None => create_cell_with_text_only(m, str_of(&val.text1), str_of(&val.text2)),
    };
    let ghost w = m@;
    assert(w == with_new_cell(v, cell_of(v, val@)));
    m.insert(name, r);
    let ghost w2 = m@;
    proof {
        assert(w2 == (StoreView { symbols: w.symbols.insert(name@, v.next_id), ..w }));
        m.lemma_wf_closed();
        sclcelldata::lemma_collected_keeps_symbol_cells(w2);
        assert(w2.symbols.contains_key(name@));
    }
    let report = collection_report_of(m);
    m.collect_unreachable();
    let mut out = String::from_str("STORED DATA FOR SYMBOL - ");
    out.append(name);
    out.append("\n");
    if sclcelldata::is_debug_enabled(m) {
        let d = r.get_dump(m);
        out.append(str_of(&d));
    }
    proof {
        assert(out@ =~= command_result(v, c));
    }
    (out, report)
}

/// Carries out a parsed command; returns its answer and its console report.
pub fn handle_command_line(m: &mut SCLDataMap, c: &Command) -> (out: (String, String))
    requires
        old(m).wf(),
        command_ok(old(m)@, c@),
    ensures
        final(m).wf(),
        final(m)@ == command_next(old(m)@, c@),
        out.0@ == command_result(old(m)@, c@),
        out.1@ == command_console(old(m)@, c@),
{
    let ghost v = m@;
    proof {
        m.lemma_wf_closed();
    }
    let name = str_of(&c.arg);
    match c.kind {
        CommandKind::StoreData => {
            let val = c.value.as_ref().unwrap();
            assert(c@ == CommandView { kind: CommandKind::StoreData, arg: name@, value: Some(val@) });
            store_data(m, name, val)
        },
        CommandKind::UpdateData => {
            let val = c.value.as_ref().unwrap();
            match m.get(name) {
                None => {
                    let mut out = String::from_str("UPDATE - SYMBOL NOT FOUND: ");
                    out.append(name);
                    out.append("\n");
                    proof {
                        assert(out@ =~= command_result(v, c@));
                    }
                    (out, String::new())
                },
                Some(r) => {
                    let (l1, l2) = match &val.refs {
                        Some((a, b)) => (m.get(str_of(a)), m.get(str_of(b))),
                        None => (None, None),
                    };
                    r.update_data(m, str_of(&val.text1), str_of(&val.text2), l1, l2);
                    let ghost w = m@;
                    assert(w == with_cell(v, v.symbols[c.arg@], cell_of(v, val@)));
                    proof {
                        m.lemma_wf_closed();
                        sclcelldata::lemma_collected_keeps_symbol_cells(w);
                    }
                    let report = collection_report_of(m);
                    m.collect_unreachable();
                    let mut out = String::from_str("UPDATED DATA FOR SYMBOL - ");
                    out.append(name);
                    out.append("\n");
                    if sclcelldata::is_debug_enabled(m) {
                        let d = r.get_dump(m);
                        out.append(str_of(&d));
                    }
                    proof {
                        assert(out@ =~= command_result(v, c@));
                    }
                    (out, report)
                },
            }
        },
        CommandKind::ShowData => {
            match m.get(name) {
                None => {
                    let mut out = String::from_str("SYMBOL NOT FOUND: ");
                    out.append(name);
                    out.append("\n");
                    proof {
                        assert(out@ =~= command_result(v, c@));
                    }
                    (out, String::new())
                },
                Some(r) => {
                    let mut out = String::from_str("DATA FOR SYMBOL - ");
                    out.append(name);
                    out.append("\n");
                    let d = r.get_dump(m);
                    out.append(str_of(&d));
                    proof {
                        assert(out@ =~= command_result(v, c@));
                    }
                    (out, String::new())
                },
            }
        },
        CommandKind::DropSymbol => {
            match m.remove(name) {
                None => {
                    let mut out = String::from_str("DROP FAILURE - SYMBOL NOT FOUND: ");
                    out.append(name);
                    out.append("\n");
                    proof {
                        assert(out@ =~= command_result(v, c@));
                    }
                    (out, String::new())
                },
                Some(_) => {
                    let report = collection_report_of(m);
                    m.collect_unreachable();
                    let mut out = String::from_str("DROPPED SYMBOL: ");
                    out.append(name);
                    out.append("\n");
                    proof {
                        assert(out@ =~= command_result(v, c@));
                    }
                    (out, report)
                },
            }
        },
        CommandKind::EnableFeature => {
            let mut out = String::from_str("ENABLE FEATURE: ");
            out.append(name);
            out.append("\n");
            let console = enable_feature(m, name);
            proof {
                assert(out@ =~= command_result(v, c@));
            }
            (out, console)
        },
    }
}

/// Executes one command line; returns its answer and its console report.
pub fn execute_command_with_console(m: &mut SCLDataMap, command_line: &str) -> (out: (String, String))
    requires
        old(m).wf(),
        command_accepted(old(m)@, command_line@),
    ensures
        final(m).wf(),
        final(m)@ == execute_next(old(m)@, command_line@),
        out.0@ == execute_result(old(m)@, command_line@),
        out.1@ == execute_console(old(m)@, command_line@),
{
    match parse_command_line(command_line) {
        Some(c) => handle_command_line(m, &c),
        None => (String::from_str("COMMAND PARSE ERROR"), String::new()),
    }
}

/// Executes one command line and returns its answer.
pub fn execute_command(m: &mut SCLDataMap, command_line: &str) -> (r: String)
    requires
        old(m).wf(),
        command_accepted(old(m)@, command_line@),
    ensures
        final(m).wf(),
        final(m)@ == execute_next(old(m)@, command_line@),
        r@ == execute_result(old(m)@, command_line@),
{
    execute_command_with_console(m, command_line).0
}

/// Whether `execute_command` runs the line to its end in this store.
pub fn command_is_accepted(m: &SCLDataMap, command_line: &str) -> (b: bool)
    requires
        m.wf(),
    ensures
        b == command_accepted(m@, command_line@),
{
    proof {
        m.lemma_wf_closed();
    }
    match parse_command_line(command_line) {
        None => true,
        Some(c) => {
            let refs_ok = match &c.value {
                Some(val) => match &val.refs {
                    Some((a, b)) => m.get(str_of(a)).is_some() && m.get(str_of(b)).is_some(),
                    None => true,
                },
                None => true,
            };
            match c.kind {
                CommandKind::StoreData => c.value.is_some() && refs_ok && m.cell_capacity_left(),
                CommandKind::UpdateData => c.value.is_some() && (m.get(str_of(&c.arg)).is_none()
                    || refs_ok),
                _ => c.value.is_none(),
            }
        },
    }
}

} // verus!

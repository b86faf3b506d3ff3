use vstd::prelude::*;

mod lines;

use crate::sclang::grammar::{parse_command, CommandView};
use crate::sclang::properties::lemma_collect_idempotent;
use crate::sclang::sclcelldata::{
    all_reachable, collected, drop_block, drop_report_from, is_root, lemma_reachable_step,
    lemma_root_reachable, links_to, new_cell, reachable, reaches, store_valid, with_cell,
    CellView, StoreView, MAX_CELLS,
};
use crate::sclang::properties::lemma_drop_last_symbol_frees_all;
use crate::sclang::{
    cell_of, collection_report, command_console, command_next, command_ok,
    execute_command_with_console, SCLDataMap,
};

verus! {

// ---------------------------------------------------------------------------
// What the load test builds
// ---------------------------------------------------------------------------

/// The cell of `a`, linked to `l1` and `l2`.
spec fn cell_a(l1: nat, l2: nat) -> CellView {
    new_cell("\"a-text-1\""@, "\"a-text-2\""@, Some(l1), Some(l2))
}

/// The cell of `b`, linked to `l1` and `l2`.
spec fn cell_b(l1: nat, l2: nat) -> CellView {
    new_cell("\"b-text-1\""@, "\"b-text-2\""@, Some(l1), Some(l2))
}

/// The cell of `c`, linked to `l1` and `l2`.
spec fn cell_c(l1: nat, l2: nat) -> CellView {
    new_cell("\"c-text-1\""@, "\"c-text-2\""@, Some(l1), Some(l2))
}

/// The symbols `a`, `b` and `c`, bound to the cells `n0`, `n0 + 1` and
/// `n0 + 2`.
spec fn three_symbols(n0: nat) -> Map<Seq<char>, nat> {
    map!["a"@ => n0, "b"@ => n0 + 1, "c"@ => n0 + 2]
}

/// The store at the end of a round: `a` linked to `b` and `c`, `b` to `a`
/// and `c`, `c` to `a` and `b`.
spec fn round_state(n0: nat, d: int, debug: bool) -> StoreView {
    StoreView {
        cells: map![
            n0 => cell_a(n0 + 1, n0 + 2),
            n0 + 1 => cell_b(n0, n0 + 2),
            n0 + 2 => cell_c(n0, n0 + 1),
        ],
        symbols: three_symbols(n0),
        next_id: n0 + 3,
        debug,
        drop_count: d,
    }
}

/// The report of the drop of the load test's three cells, the drop counter
/// standing at `d` before.
pub open spec fn load_test_report(d: int) -> Seq<char> {
    drop_block(new_cell("\"a-text-1\""@, "\"a-text-2\""@, None, None), (d + 1) as nat)
        + drop_block(new_cell("\"b-text-1\""@, "\"b-text-2\""@, None, None), (d + 2) as nat)
        + drop_block(new_cell("\"c-text-1\""@, "\"c-text-2\""@, None, None), (d + 3) as nat)
}

proof fn lemma_names_distinct()
    ensures
        "a"@ != "b"@,
        "a"@ != "c"@,
        "b"@ != "c"@,
{
    reveal_strlit("a");
    reveal_strlit("b");
    reveal_strlit("c");
    assert("a"@[0] == 'a' && "b"@[0] == 'b' && "c"@[0] == 'c');
}

// ---------------------------------------------------------------------------
// Steps
// ---------------------------------------------------------------------------

/// Every live cell is a symbol's cell.
spec fn all_named(v: StoreView) -> bool {
    forall|id: nat| v.cells.contains_key(id) ==> is_root(v.symbols, id)
}

/// When every live cell is a symbol's cell, collection keeps all of them and
/// reports nothing.
proof fn lemma_named_cells_kept(v: StoreView)
    requires
        all_named(v),
    ensures
        all_reachable(v),
        collected(v) == v,
        collection_report(v) == Seq::<char>::empty(),
{
    assert forall|id: nat| v.cells.contains_key(id) implies reachable(v, id) by {
        lemma_root_reachable(v, id);
    }
    lemma_collect_idempotent(v);
    lemma_report_empty(v, 0, v.drop_count as nat);
}

proof fn lemma_report_empty(v: StoreView, i: nat, count: nat)
    requires
        all_reachable(v),
    ensures
        drop_report_from(v, i, count) == Seq::<char>::empty(),
    decreases v.next_id - i,
{
    if i < v.next_id {
        lemma_report_empty(v, i + 1, count);
    }
}

proof fn lemma_report_skip(v: StoreView, i: nat, k: nat, count: nat)
    requires
        i <= k <= v.next_id,
        forall|j: nat| i <= j < k ==> !v.cells.contains_key(j),
    ensures
        drop_report_from(v, i, count) == drop_report_from(v, k, count),
    decreases k - i,
{
    if i < k {
        lemma_report_skip(v, i + 1, k, count);
    }
}

/// `store-data` of a fresh symbol in a store whose cells all have names adds
/// its cell and drops nothing.
proof fn lemma_store_step(v: StoreView, c: CommandView)
    requires
        store_valid(v),
        all_named(v),
        c.kind is StoreData,
        c.value is Some,
        !v.symbols.contains_key(c.arg),
    ensures
        command_next(v, c) == (StoreView {
            cells: v.cells.insert(v.next_id, cell_of(v, c.value->0)),
            symbols: v.symbols.insert(c.arg, v.next_id),
            next_id: v.next_id + 1,
            ..v
        }),
        command_console(v, c) == Seq::<char>::empty(),
{
    let w = StoreView {
        cells: v.cells.insert(v.next_id, cell_of(v, c.value->0)),
        symbols: v.symbols.insert(c.arg, v.next_id),
        next_id: v.next_id + 1,
        ..v
    };
    assert forall|id: nat| w.cells.contains_key(id) implies is_root(w.symbols, id) by {
        if id == v.next_id {
            assert(w.symbols.contains_key(c.arg));
        } else {
            assert(v.cells.contains_key(id));
            assert(is_root(v.symbols, id));
            let k = choose|k: Seq<char>| #[trigger] v.symbols.contains_key(k) && v.symbols[k] == id;
            assert(k != c.arg);
            assert(w.symbols.contains_key(k) && w.symbols[k] == id);
        }
    }
    lemma_named_cells_kept(w);
}

/// `update-data` of a bound symbol in a store whose cells all have names
/// replaces its cell and drops nothing.
proof fn lemma_update_step(v: StoreView, c: CommandView)
    requires
        store_valid(v),
        all_named(v),
        c.kind is UpdateData,
        c.value is Some,
        v.symbols.contains_key(c.arg),
    ensures
        command_next(v, c) == with_cell(v, v.symbols[c.arg], cell_of(v, c.value->0)),
        command_console(v, c) == Seq::<char>::empty(),
{
    let w = with_cell(v, v.symbols[c.arg], cell_of(v, c.value->0));
    assert(w.cells.dom() =~= v.cells.dom());
    lemma_named_cells_kept(w);
}

/// The three symbols name every live cell.
proof fn lemma_three_named(v: StoreView, n0: nat)
    requires
        v.symbols == three_symbols(n0),
        forall|id: nat| v.cells.contains_key(id) ==> id == n0 || id == n0 + 1 || id == n0 + 2,
    ensures
        all_named(v),
{
    lemma_names_distinct();
    assert(v.symbols.contains_key("a"@) && v.symbols["a"@] == n0);
    assert(v.symbols.contains_key("b"@) && v.symbols["b"@] == n0 + 1);
    assert(v.symbols.contains_key("c"@) && v.symbols["c"@] == n0 + 2);
}

// ---------------------------------------------------------------------------
// The load test
// ---------------------------------------------------------------------------

/// Executes a line that spells the command `c`, which the store runs to its
/// end; returns the console report.
fn run(m: &mut SCLDataMap, line: &str, c: Ghost<CommandView>) -> (console: String)
    requires
        old(m).wf(),
        parse_command(line@) == Some(c@),
        command_ok(old(m)@, c@),
    ensures
        final(m).wf(),
        final(m)@ == command_next(old(m)@, c@),
        console@ == command_console(old(m)@, c@),
{
    let (_, console) = execute_command_with_console(m, line);
    console
}

/// Executes a line that stores a fresh symbol in a store whose cells all
/// have names.
fn store_fresh(m: &mut SCLDataMap, line: &str, c: Ghost<CommandView>)
    requires
        old(m).wf(),
        parse_command(line@) == Some(c@),
        command_ok(old(m)@, c@),
        c@.kind is StoreData,
        all_named(old(m)@),
        !old(m)@.symbols.contains_key(c@.arg),
    ensures
        final(m).wf(),
        final(m)@ == (StoreView {
            cells: old(m)@.cells.insert(old(m)@.next_id, cell_of(old(m)@, c@.value->0)),
            symbols: old(m)@.symbols.insert(c@.arg, old(m)@.next_id),
            next_id: old(m)@.next_id + 1,
            ..old(m)@
        }),
{
    proof {
        m.lemma_wf_closed();
        lemma_store_step(m@, c@);
    }
    run(m, line, c);
}

/// Executes a line that updates a bound symbol in a store whose cells all
/// have names.
fn update_named(m: &mut SCLDataMap, line: &str, c: Ghost<CommandView>)
    requires
        old(m).wf(),
        parse_command(line@) == Some(c@),
        command_ok(old(m)@, c@),
        c@.kind is UpdateData,
        all_named(old(m)@),
        old(m)@.symbols.contains_key(c@.arg),
    ensures
        final(m).wf(),
        final(m)@ == with_cell(old(m)@, old(m)@.symbols[c@.arg], cell_of(old(m)@, c@.value->0)),
{
    proof {
        m.lemma_wf_closed();
        lemma_update_step(m@, c@);
    }
    run(m, line, c);
}

/// Stores the three cells and links them circularly.
fn build(m: &mut SCLDataMap)
    requires
        old(m).wf(),
        old(m)@.symbols.dom().is_empty(),
        old(m)@.cells.dom().is_empty(),
        old(m)@.drop_count + 3 <= MAX_CELLS,
    ensures
        final(m).wf(),
        final(m)@ == round_state(old(m)@.next_id, old(m)@.drop_count, old(m)@.debug),
{
    let ghost v0 = m@;
    let ghost n0 = m@.next_id;
    proof {
        lemma_names_distinct();
        lines::lemma_setup_store_a_line();
        assert(all_named(m@));
        assert(m@.cells.dom().len() == 0);
    }
    store_fresh(m, "(store-data a (\"a-text-1\" \"a-text-2\"))", Ghost(lines::setup_store_a_command()));
    proof {
        lemma_names_distinct();
        lines::lemma_setup_store_b_line();
        assert(m@.cells.dom() =~= set![n0]);
        assert(m@.symbols.contains_key("a"@) && m@.symbols["a"@] == n0);
        assert(all_named(m@));
    }
    store_fresh(m, "(store-data b (\"b-text-1\" \"b-text-2\" (a a)))", Ghost(lines::setup_store_b_command()));
    proof {
        lemma_names_distinct();
        lines::lemma_setup_update_a_line();
        assert(m@.symbols.contains_key("a"@) && m@.symbols["a"@] == n0);
        assert(m@.symbols.contains_key("b"@) && m@.symbols["b"@] == n0 + 1);
        assert(all_named(m@));
    }
    update_named(m, "(update-data a (\"a-text-1\" \"a-text-2\" (b b)))", Ghost(lines::setup_update_a_command()));
    proof {
        lemma_names_distinct();
        lines::lemma_setup_store_c_line();
        assert(m@.symbols.contains_key("a"@) && m@.symbols["a"@] == n0);
        assert(m@.symbols.contains_key("b"@) && m@.symbols["b"@] == n0 + 1);
        assert(m@.cells.dom() =~= set![n0, (n0 + 1) as nat]);
        assert(all_named(m@));
    }
    store_fresh(m, "(store-data c (\"c-text-1\" \"c-text-2\" (a b)))", Ghost(lines::setup_store_c_command()));
    proof {
        lemma_names_distinct();
        assert(m@.symbols =~= three_symbols(n0));
        lemma_three_named(m@, n0);
        lines::lemma_link_a_b_c_line();
    }
    update_named(m, "(update-data a (\"a-text-1\" \"a-text-2\" (b c)))", Ghost(lines::link_a_b_c_command()));
    proof {
        lemma_names_distinct();
        lemma_three_named(m@, n0);
        lines::lemma_link_b_a_c_line();
    }
    update_named(m, "(update-data b (\"b-text-1\" \"b-text-2\" (a c)))", Ghost(lines::link_b_a_c_command()));
    proof {
        lemma_names_distinct();
        assert(m@.cells =~= round_state(n0, v0.drop_count, v0.debug).cells);
    }
}

/// Updates, in a store whose symbols are `a`, `b`, `c` naming the cells
/// `n0` to `n0 + 2`, the cell of the symbol of `c`.
fn rewire_one(m: &mut SCLDataMap, line: &str, c: Ghost<CommandView>, n0: Ghost<nat>)
    requires
        old(m).wf(),
        parse_command(line@) == Some(c@),
        c@.kind is UpdateData,
        c@.value matches Some(val) && val.refs matches Some((x, y)) && three_symbols(n0@).contains_key(x)
            && three_symbols(n0@).contains_key(y),
        three_symbols(n0@).contains_key(c@.arg),
        old(m)@.symbols == three_symbols(n0@),
        old(m)@.cells.dom() == set![n0@, n0@ + 1, n0@ + 2],
    ensures
        final(m).wf(),
        final(m)@ == with_cell(old(m)@, old(m)@.symbols[c@.arg], cell_of(old(m)@, c@.value->0)),
        final(m)@.cells.dom() == old(m)@.cells.dom(),
{
    proof {
        lemma_three_named(m@, n0@);
    }
    update_named(m, line, c);
    proof {
        assert(m@.cells.dom() =~= old(m)@.cells.dom());
    }
}

/// Reverses the links of the three cells, then restores them.
fn rewire(m: &mut SCLDataMap, n0: Ghost<nat>, d: Ghost<int>, debug: Ghost<bool>)
    requires
        old(m).wf(),
        old(m)@ == round_state(n0@, d@, debug@),
    ensures
        final(m).wf(),
        final(m)@ == round_state(n0@, d@, debug@),
{
    let ghost n = n0@;
    proof {
        lemma_names_distinct();
        assert(m@.cells.dom() =~= set![n, n + 1, n + 2]);
        lines::lemma_link_a_c_b_line();
    }
    rewire_one(m, "(update-data a (\"a-text-1\" \"a-text-2\" (c b)))", Ghost(lines::link_a_c_b_command()), n0);
    proof {
        lemma_names_distinct();
        lines::lemma_link_b_c_a_line();
    }
    rewire_one(m, "(update-data b (\"b-text-1\" \"b-text-2\" (c a)))", Ghost(lines::link_b_c_a_command()), n0);
    proof {
        lemma_names_distinct();
        lines::lemma_link_c_b_a_line();
    }
    rewire_one(m, "(update-data c (\"c-text-1\" \"c-text-2\" (b a)))", Ghost(lines::link_c_b_a_command()), n0);
    proof {
        lemma_names_distinct();
        lines::lemma_link_a_b_c_line();
    }
    rewire_one(m, "(update-data a (\"a-text-1\" \"a-text-2\" (b c)))", Ghost(lines::link_a_b_c_command()), n0);
    proof {
        lemma_names_distinct();
        lines::lemma_link_b_a_c_line();
    }
    rewire_one(m, "(update-data b (\"b-text-1\" \"b-text-2\" (a c)))", Ghost(lines::link_b_a_c_command()), n0);
    proof {
        lemma_names_distinct();
        lines::lemma_link_c_a_b_line();
    }
    rewire_one(m, "(update-data c (\"c-text-1\" \"c-text-2\" (a b)))", Ghost(lines::link_c_a_b_command()), n0);
    proof {
        lemma_names_distinct();
        assert(m@.cells =~= round_state(n, d@, debug@).cells);
    }
}

/// Shows the three cells.
fn show_all(m: &mut SCLDataMap, n0: Ghost<nat>, d: Ghost<int>, debug: Ghost<bool>)
    requires
        old(m).wf(),
        old(m)@ == round_state(n0@, d@, debug@),
    ensures
        final(m).wf(),
        final(m)@ == old(m)@,
{
    proof {
        lemma_names_distinct();
        lines::lemma_show_a_line();
        lines::lemma_show_b_line();
        lines::lemma_show_c_line();
    }
    run(m, "(show-data a)", Ghost(lines::show_a_command()));
    run(m, "(show-data b)", Ghost(lines::show_b_command()));
    run(m, "(show-data c)", Ghost(lines::show_c_command()));
}

/// Dropping `a` from the end of a round keeps every cell: `c` still reaches
/// the cell of `a`.
proof fn lemma_drop_a(n: nat, d: int, debug: bool)
    ensures
        command_next(round_state(n, d, debug), lines::drop_a_command())
            == (StoreView { symbols: map!["b"@ => n + 1, "c"@ => n + 2], ..round_state(n, d, debug) }),
        command_console(round_state(n, d, debug), lines::drop_a_command()) == Seq::<char>::empty(),
        command_ok(round_state(n, d, debug), lines::drop_a_command()),
{
    lemma_names_distinct();
    let v = round_state(n, d, debug);
    let w = StoreView { symbols: v.symbols.remove("a"@), ..v };
    assert(w.symbols =~= map!["b"@ => n + 1, "c"@ => n + 2]);
    assert(w.symbols.contains_key("b"@) && w.symbols["b"@] == n + 1);
    assert(w.symbols.contains_key("c"@) && w.symbols["c"@] == n + 2);
    lemma_root_reachable(w, (n + 1) as nat);
    lemma_root_reachable(w, (n + 2) as nat);
    assert(links_to(w.cells[(n + 2) as nat], n));
    lemma_reachable_step(w, (n + 2) as nat, n);
    assert forall|id: nat| w.cells.contains_key(id) implies reachable(w, id) by {}
    lemma_collect_idempotent(w);
    lemma_report_empty(w, 0, w.drop_count as nat);
}

/// Dropping `b` next keeps every cell: `c` still reaches the other two.
proof fn lemma_drop_b(n: nat, d: int, debug: bool)
    ensures
        command_next(
            StoreView { symbols: map!["b"@ => n + 1, "c"@ => n + 2], ..round_state(n, d, debug) },
            lines::drop_b_command(),
        ) == (StoreView { symbols: map!["c"@ => n + 2], ..round_state(n, d, debug) }),
        command_console(
            StoreView { symbols: map!["b"@ => n + 1, "c"@ => n + 2], ..round_state(n, d, debug) },
            lines::drop_b_command(),
        ) == Seq::<char>::empty(),
{
    lemma_names_distinct();
    let v = StoreView { symbols: map!["b"@ => n + 1, "c"@ => n + 2], ..round_state(n, d, debug) };
    let w = StoreView { symbols: v.symbols.remove("b"@), ..v };
    assert(w.symbols =~= map!["c"@ => n + 2]);
    assert(w.symbols.contains_key("c"@) && w.symbols["c"@] == n + 2);
    lemma_root_reachable(w, (n + 2) as nat);
    assert(links_to(w.cells[(n + 2) as nat], n));
    assert(links_to(w.cells[(n + 2) as nat], (n + 1) as nat));
    lemma_reachable_step(w, (n + 2) as nat, n);
    lemma_reachable_step(w, (n + 2) as nat, (n + 1) as nat);
    assert forall|id: nat| w.cells.contains_key(id) implies reachable(w, id) by {}
    lemma_collect_idempotent(w);
    lemma_report_empty(w, 0, w.drop_count as nat);
}

/// Drops `a` and `b`; the cell of `c` still reaches all three cells, so
/// nothing is dropped.
fn let_go_of_two(m: &mut SCLDataMap, n0: Ghost<nat>, d: Ghost<int>, debug: Ghost<bool>) -> (report: String)
    requires
        old(m).wf(),
        old(m)@ == round_state(n0@, d@, debug@),
    ensures
        final(m).wf(),
        final(m)@ == (StoreView { symbols: map!["c"@ => n0@ + 2], ..old(m)@ }),
        report@ == Seq::<char>::empty(),
{
    proof {
        lines::lemma_drop_a_line();
        lemma_drop_a(n0@, d@, debug@);
    }
    let r1 = run(m, "(drop-symbol a)", Ghost(lines::drop_a_command()));
    proof {
        lines::lemma_drop_b_line();
        lemma_drop_b(n0@, d@, debug@);
    }
    let r2 = run(m, "(drop-symbol b)", Ghost(lines::drop_b_command()));
    let mut report = r1;
    report.append(r2.as_str());
    proof {
        assert(report@ =~= Seq::<char>::empty());
    }
    report
}

/// Drops `c`, the last symbol: all three cells go.
fn let_go_of_last(m: &mut SCLDataMap, n0: Ghost<nat>, d: Ghost<int>, debug: Ghost<bool>) -> (report: String)
    requires
        old(m).wf(),
        old(m)@ == (StoreView { symbols: map!["c"@ => n0@ + 2], ..round_state(n0@, d@, debug@) }),
    ensures
        final(m).wf(),
        final(m)@ == (StoreView {
            cells: Map::empty(),
            symbols: Map::empty(),
            drop_count: d@ + 3,
            ..old(m)@
        }),
        report@ == if debug@ {
            load_test_report(d@)
        } else {
            Seq::empty()
        },
{
    let ghost n = n0@;
    let ghost d0 = d@;
    let ghost v = m@;
    proof {
        m.lemma_wf_closed();
        lines::lemma_drop_c_line();
        assert(v.symbols.dom() =~= set!["c"@]);
        lemma_drop_last_symbol_frees_all(v, lines::drop_c_command());
        assert(v.cells.dom() =~= set![n, (n + 1) as nat, (n + 2) as nat]);
        let w = StoreView { symbols: v.symbols.remove("c"@), ..v };
        assert(w.symbols.dom() =~= Set::<Seq<char>>::empty());
        assert forall|id: nat| !#[trigger] reachable(w, id) by {
            if reachable(w, id) {
                let p = choose|p: Seq<nat>| #[trigger] reaches(w, p, id);
                let k = choose|k: Seq<char>| #[trigger] w.symbols.contains_key(k) && w.symbols[k] == p[0];
                assert(w.symbols.dom().contains(k));
            }
        }
        lemma_report_skip(w, 0, n, d0 as nat);
        let e = Seq::<char>::empty();
        assert(drop_report_from(w, (n + 3) as nat, (d0 + 3) as nat) == e);
        assert(drop_report_from(w, (n + 2) as nat, (d0 + 2) as nat)
            == drop_block(w.cells[(n + 2) as nat], (d0 + 3) as nat) + e);
        assert(drop_report_from(w, (n + 1) as nat, (d0 + 1) as nat)
            == drop_block(w.cells[(n + 1) as nat], (d0 + 2) as nat) + drop_report_from(w, (n + 2) as nat, (d0 + 2) as nat));
        assert(drop_report_from(w, n, d0 as nat)
            == drop_block(w.cells[n], (d0 + 1) as nat) + drop_report_from(w, (n + 1) as nat, (d0 + 1) as nat));
    }
    let report = run(m, "(drop-symbol c)", Ghost(lines::drop_c_command()));
    proof {
        assert(m@.symbols =~= Map::empty());
        assert(m@.cells =~= Map::empty());
        assert(report@ =~= if debug@ { load_test_report(d0) } else { Seq::empty() });
    }
    report
}

/// Runs the load test in the store `m`, which stands for the state the whole
/// process shares: the debug flag and the drop counter. Builds three
/// circularly linked cells, rewires their links back and forth
/// `update_iteration_count - 1` times, shows all three
/// `read_iteration_count - 1` times, and finally lets go of the three
/// symbols, which drops the three cells. Returns the console report: with
/// debug output on, the report of the three dropped cells.
pub fn load_test(m: &mut SCLDataMap, update_iteration_count: i32, read_iteration_count: i32) -> (report: String)
    requires
        old(m).wf(),
        old(m)@.symbols.dom().is_empty(),
        old(m)@.cells.dom().is_empty(),
        old(m)@.drop_count + 3 <= MAX_CELLS,
    ensures
        final(m).wf(),
        final(m)@ == (StoreView {
            drop_count: old(m)@.drop_count + 3,
            next_id: old(m)@.next_id + 3,
            ..old(m)@
        }),
        report@ == if old(m)@.debug {
            load_test_report(old(m)@.drop_count)
        } else {
            Seq::empty()
        },
{
    let ghost v0 = m@;
    let ghost n0 = m@.next_id;
    build(m);
    let mut i: i32 = 1;
    while i < update_iteration_count
        invariant
            m.wf(),
            m@ == round_state(n0, v0.drop_count, v0.debug),
        decreases update_iteration_count - i,
    {
        rewire(m, Ghost(n0), Ghost(v0.drop_count), Ghost(v0.debug));
        i = i + 1;
    }
    let mut j: i32 = 1;
    while j < read_iteration_count
        invariant
            m.wf(),
            m@ == round_state(n0, v0.drop_count, v0.debug),
        decreases read_iteration_count - j,
    {
        show_all(m, Ghost(n0), Ghost(v0.drop_count), Ghost(v0.debug));
        j = j + 1;
    }
    let r1 = let_go_of_two(m, Ghost(n0), Ghost(v0.drop_count), Ghost(v0.debug));
    let r2 = let_go_of_last(m, Ghost(n0), Ghost(v0.drop_count), Ghost(v0.debug));
    let mut report = r1;
    report.append(r2.as_str());
    proof {
        assert(report@ =~= r2@);
        assert(m@.symbols =~= v0.symbols);
        assert(m@.cells =~= v0.cells);
    }
    report
}

} // verus!

use vstd::prelude::*;

use crate::sclang::grammar::{parse_command, CommandKind, CommandView};
use crate::sclang::sclcelldata::{
    all_reachable, collected, empty_store, is_root, lemma_collected_all_reachable,
    lemma_root_reachable, reachable, reachable_set, reaches, store_valid, unreachable_cells,
    with_cell, with_new_cell, CellView, StoreView,
};
use vstd::set_lib::lemma_set_difference_len;
use crate::sclang::{
    cell_of, command_console, command_next, command_ok, command_result, execute_console,
    execute_next, execute_result,
};

verus! {

/// A new store holds no cell, so every cell it holds is reachable, and its
/// references are consistent.
pub proof fn lemma_empty_store_all_reachable()
    ensures
        all_reachable(empty_store()),
        store_valid(empty_store()),
{
}

/// Changing only the debug flag keeps every reachable cell reachable.
proof fn lemma_debug_keeps_reachable(v: StoreView, debug: bool)
    requires
        all_reachable(v),
    ensures
        all_reachable(StoreView { debug, ..v }),
{
    let w = StoreView { debug, ..v };
    assert forall|id: nat| w.cells.contains_key(id) implies reachable(w, id) by {
        assert(v.cells.contains_key(id));
        assert(reachable(v, id));
        let p = choose|p: Seq<nat>| #[trigger] reaches(v, p, id);
        assert(reaches(w, p, id));
    }
}

/// After any command line, every live cell is reachable from some symbol:
/// the store never keeps a cell that no symbol reaches, circular links
/// included.
pub proof fn lemma_execute_keeps_all_reachable(v: StoreView, line: Seq<char>)
    requires
        all_reachable(v),
    ensures
        all_reachable(execute_next(v, line)),
{
    match parse_command(line) {
        None => {},
        Some(c) => match c.kind {
            CommandKind::StoreData => match c.value {
                Some(val) => {
                    let w = with_new_cell(v, cell_of(v, val));
                    lemma_collected_all_reachable(
                        StoreView { symbols: w.symbols.insert(c.arg, v.next_id), ..w },
                    );
                },
                None => {},
            },
            CommandKind::UpdateData => match c.value {
                Some(val) => if v.symbols.contains_key(c.arg) {
                    lemma_collected_all_reachable(
                        StoreView { cells: v.cells.insert(v.symbols[c.arg], cell_of(v, val)), ..v },
                    );
                },
                None => {},
            },
            CommandKind::ShowData => {},
            CommandKind::DropSymbol => if v.symbols.contains_key(c.arg) {
                lemma_collected_all_reachable(StoreView { symbols: v.symbols.remove(c.arg), ..v });
            },
            CommandKind::EnableFeature => {
                lemma_debug_keeps_reachable(v, command_next(v, c).debug);
            },
        },
    }
}

/// Collecting a store whose cells are all reachable changes nothing and drops
/// no cell.
pub proof fn lemma_collect_idempotent(v: StoreView)
    requires
        all_reachable(v),
    ensures
        unreachable_cells(v).len() == 0,
        collected(v) == v,
{
    assert(unreachable_cells(v) =~= Set::empty());
    assert(v.cells.restrict(reachable_set(v)) =~= v.cells);
}

/// No command line lowers the drop counter.
pub proof fn lemma_execute_drop_count_grows(v: StoreView, line: Seq<char>)
    ensures
        v.drop_count <= execute_next(v, line).drop_count,
{
}

/// A line that does not parse, a `show-data`, and an `update-data` or
/// `drop-symbol` of an unbound symbol leave the store as it was.
pub proof fn lemma_read_only_lines(v: StoreView, line: Seq<char>)
    requires
        parse_command(line) matches Some(c) ==> {
            ||| c.kind is ShowData
            ||| (c.kind is UpdateData || c.kind is DropSymbol) && !v.symbols.contains_key(c.arg)
        },
    ensures
        execute_next(v, line) == v,
{
}

/// `store-data` binds its symbol to a new cell that holds the given texts
/// and links, and keeps every other surviving cell as it was.
pub proof fn lemma_store_reads_back(v: StoreView, c: CommandView)
    requires
        c.kind is StoreData,
        command_ok(v, c),
    ensures
        command_next(v, c).symbols == v.symbols.insert(c.arg, v.next_id),
        command_next(v, c).cells.contains_key(v.next_id),
        command_next(v, c).cells[v.next_id] == cell_of(v, c.value->0),
        command_next(v, c).next_id == v.next_id + 1,
        forall|id: nat|
            #[trigger] command_next(v, c).cells.contains_key(id) && id != v.next_id
                ==> v.cells.contains_key(id) && command_next(v, c).cells[id] == v.cells[id],
{
    let val = c.value->0;
    let w = with_new_cell(v, cell_of(v, val));
    let w1 = StoreView { symbols: w.symbols.insert(c.arg, v.next_id), ..w };
    assert(w1.symbols.contains_key(c.arg));
    assert(is_root(w1.symbols, v.next_id));
    lemma_root_reachable(w1, v.next_id);
}

/// `update-data` of a bound symbol replaces the texts and links of its cell,
/// keeps the symbols, and keeps every other surviving cell as it was.
pub proof fn lemma_update_reads_back(v: StoreView, c: CommandView)
    requires
        c.kind is UpdateData,
        command_ok(v, c),
        v.symbols.contains_key(c.arg),
    ensures
        command_next(v, c).symbols == v.symbols,
        command_next(v, c).cells.contains_key(v.symbols[c.arg]),
        command_next(v, c).cells[v.symbols[c.arg]] == cell_of(v, c.value->0),
        forall|id: nat|
            #[trigger] command_next(v, c).cells.contains_key(id) && id != v.symbols[c.arg]
                ==> v.cells.contains_key(id) && command_next(v, c).cells[id] == v.cells[id],
{
    let id = v.symbols[c.arg];
    let w = StoreView { cells: v.cells.insert(id, cell_of(v, c.value->0)), ..v };
    assert(is_root(w.symbols, id));
    lemma_root_reachable(w, id);
}

/// `drop-symbol` unbinds its symbol, keeps every surviving cell as it was,
/// and keeps the cell of every other bound symbol.
pub proof fn lemma_drop_forgets_symbol(v: StoreView, c: CommandView)
    requires
        c.kind is DropSymbol,
        store_valid(v),
    ensures
        command_next(v, c).symbols == v.symbols.remove(c.arg),
        forall|id: nat|
            #[trigger] command_next(v, c).cells.contains_key(id) ==> v.cells.contains_key(id)
                && command_next(v, c).cells[id] == v.cells[id],
        forall|k: Seq<char>|
            #[trigger] v.symbols.contains_key(k) && k != c.arg ==> command_next(v, c).cells.contains_key(
                v.symbols[k],
            ),
{
    if v.symbols.contains_key(c.arg) {
        let w = StoreView { symbols: v.symbols.remove(c.arg), ..v };
        assert(w.symbols =~= v.symbols.remove(c.arg));
        assert forall|k: Seq<char>| #[trigger]
            v.symbols.contains_key(k) && k != c.arg implies command_next(v, c).cells.contains_key(
            v.symbols[k],
        ) by {
            assert(w.symbols.contains_key(k));
            assert(is_root(w.symbols, v.symbols[k]));
            lemma_root_reachable(w, v.symbols[k]);
        }
    } else {
        assert(v.symbols.remove(c.arg) =~= v.symbols);
    }
}

/// Dropping the last bound symbol frees every cell, circularly linked ones
/// included, and counts each of them as dropped.
pub proof fn lemma_drop_last_symbol_frees_all(v: StoreView, c: CommandView)
    requires
        c.kind is DropSymbol,
        store_valid(v),
        v.symbols.dom() == set![c.arg],
    ensures
        command_next(v, c).symbols.dom().is_empty(),
        command_next(v, c).cells.dom().is_empty(),
        command_next(v, c).drop_count == v.drop_count + v.cells.dom().len(),
{
    assert(v.symbols.contains_key(c.arg));
    let w = StoreView { symbols: v.symbols.remove(c.arg), ..v };
    assert(w.symbols.dom() =~= Set::empty());
    assert forall|id: nat| !#[trigger] reachable(w, id) by {
        if reachable(w, id) {
            let p = choose|p: Seq<nat>| #[trigger] reaches(w, p, id);
            let k = choose|k: Seq<char>| #[trigger] w.symbols.contains_key(k) && w.symbols[k] == p[0];
            assert(w.symbols.dom().contains(k));
        }
    }
    assert(reachable_set(w) =~= Set::empty());
    assert(unreachable_cells(w) =~= v.cells.dom());
    assert(collected(w).cells.dom() =~= Set::empty());
    assert(collected(w).symbols.dom() =~= Set::empty());
}

/// The live cells of a store plus the cells it dropped since its drop
/// counter was last reset.
pub open spec fn cells_accounted(v: StoreView) -> int {
    v.drop_count + v.cells.dom().len()
}

/// Collection moves cells from the live ones to the dropped ones: the live
/// cells plus the drop counter stay the same.
pub proof fn lemma_collected_keeps_accounted(v: StoreView)
    requires
        v.cells.dom().finite(),
    ensures
        cells_accounted(collected(v)) == cells_accounted(v),
{
    let dom = v.cells.dom();
    let kept = dom.intersect(reachable_set(v));
    assert(collected(v).cells.dom() =~= kept);
    assert(kept.finite());
    assert(unreachable_cells(v) =~= dom.difference(kept));
    assert(dom.intersect(kept) =~= kept);
    lemma_set_difference_len(dom, kept);
}

/// Only `store-data` adds to the live cells plus the dropped ones, and by
/// one cell; every other line leaves that number as it was.
pub proof fn lemma_execute_accounted(v: StoreView, line: Seq<char>)
    requires
        store_valid(v),
    ensures
        cells_accounted(execute_next(v, line)) <= cells_accounted(v) + 1,
        (parse_command(line) matches Some(c) ==> !(c.kind is StoreData)) ==> cells_accounted(
            execute_next(v, line),
        ) == cells_accounted(v),
{
    match parse_command(line) {
        None => {},
        Some(c) => match c.kind {
            CommandKind::StoreData => match c.value {
                Some(val) => {
                    let w = with_new_cell(v, cell_of(v, val));
                    assert(!v.cells.dom().contains(v.next_id));
                    assert(w.cells.dom() =~= v.cells.dom().insert(v.next_id));
                    lemma_collected_keeps_accounted(
                        StoreView { symbols: w.symbols.insert(c.arg, v.next_id), ..w },
                    );
                },
                None => {},
            },
            CommandKind::UpdateData => match c.value {
                Some(val) => if v.symbols.contains_key(c.arg) {
                    let w = with_cell(v, v.symbols[c.arg], cell_of(v, val));
                    assert(w.cells.dom() =~= v.cells.dom());
                    lemma_collected_keeps_accounted(w);
                },
                None => {},
            },
            CommandKind::ShowData => {},
            CommandKind::DropSymbol => if v.symbols.contains_key(c.arg) {
                lemma_collected_keeps_accounted(StoreView { symbols: v.symbols.remove(c.arg), ..v });
            },
            CommandKind::EnableFeature => {},
        },
    }
}

/// A line that parses runs the command it spells: its state, answer and
/// console report are those of that command.
pub proof fn lemma_line_runs_its_command(v: StoreView, line: Seq<char>, c: CommandView)
    requires
        parse_command(line) == Some(c),
    ensures
        execute_next(v, line) == command_next(v, c),
        execute_result(v, line) == command_result(v, c),
        execute_console(v, line) == command_console(v, c),
{
}

/// A cell created in a consistent store gets an identity no live cell has,
/// holds what it was created with, and leaves every other cell as it was.
pub proof fn lemma_created_cell_is_fresh(v: StoreView, c: CellView)
    requires
        store_valid(v),
    ensures
        !v.cells.contains_key(v.next_id),
        with_new_cell(v, c).cells[v.next_id] == c,
        forall|id: nat|
            #[trigger] v.cells.contains_key(id) ==> with_new_cell(v, c).cells.contains_key(id)
                && with_new_cell(v, c).cells[id] == v.cells[id],
{
}

/// After an update of the cell `id`, every handle of that cell reads the new
/// texts and links, and every other cell reads as before.
pub proof fn lemma_updated_cell_reads_back(v: StoreView, id: nat, c: CellView)
    requires
        v.cells.contains_key(id),
    ensures
        with_cell(v, id, c).cells[id] == c,
        with_cell(v, id, c).cells.dom() == v.cells.dom(),
        forall|j: nat|
            #[trigger] v.cells.contains_key(j) && j != id ==> with_cell(v, id, c).cells[j] == v.cells[j],
{
    assert(with_cell(v, id, c).cells.dom() =~= v.cells.dom());
}

/// The state after running the lines in order.
pub open spec fn execute_all(v: StoreView, lines: Seq<Seq<char>>) -> StoreView
    decreases lines.len(),
{
    if lines.len() == 0 {
        v
    } else {
        execute_all(execute_next(v, lines[0]), lines.drop_first())
    }
}

/// Between two resets, the drop counter never goes down, whatever lines run.
pub proof fn lemma_drop_count_never_falls(v: StoreView, lines: Seq<Seq<char>>)
    ensures
        v.drop_count <= execute_all(v, lines).drop_count,
    decreases lines.len(),
{
    if lines.len() > 0 {
        lemma_execute_drop_count_grows(v, lines[0]);
        lemma_drop_count_never_falls(execute_next(v, lines[0]), lines.drop_first());
    }
}

} // verus!

use vstd::prelude::*;
use vstd::set_lib::lemma_len_subset;
use vstd::set_lib::lemma_set_difference_len;

verus! {

/// Bound on the live cells of a store plus the cells it dropped since its
/// drop counter was last reset. The drop counter is an `i32`; keeping this
/// sum within `i32::MAX` keeps every count of dropped cells representable.
pub const MAX_CELLS: usize = 2147483647;

/// One data cell as the contracts see it: two texts and up to two links, each
/// link naming the identity of the linked cell.
pub struct CellView {
    pub text1: Seq<char>,
    pub text2: Seq<char>,
    pub link1: Option<nat>,
    pub link2: Option<nat>,
}

/// The abstract state of a store of data cells.
pub struct StoreView {
    /// The live cells, by identity.
    pub cells: Map<nat, CellView>,
    /// The symbol table: each name bound to the identity of a cell.
    pub symbols: Map<Seq<char>, nat>,
    /// The identity that the next created cell receives.
    pub next_id: nat,
    /// Whether the `debug` feature is enabled.
    pub debug: bool,
    /// How many cells were dropped since the counter was last reset.
    pub drop_count: int,
}

// ---------------------------------------------------------------------------
// Reachability
// ---------------------------------------------------------------------------

/// Cell `c` links to the cell with identity `j`.
pub open spec fn links_to(c: CellView, j: nat) -> bool {
    c.link1 == Some(j) || c.link2 == Some(j)
}

/// Some symbol is bound to `id`.
pub open spec fn is_root(symbols: Map<Seq<char>, nat>, id: nat) -> bool {
    exists|k: Seq<char>| #[trigger] symbols.contains_key(k) && symbols[k] == id
}

/// Step `k` of path `p` follows a link.
pub open spec fn path_step(cells: Map<nat, CellView>, p: Seq<nat>, k: int) -> bool {
    links_to(cells[p[k]], p[k + 1])
}

/// `p` is a walk through live cells along their links.
pub open spec fn is_path(cells: Map<nat, CellView>, p: Seq<nat>) -> bool {
    &&& forall|k: int| 0 <= k < p.len() ==> cells.contains_key(#[trigger] p[k])
    &&& forall|k: int| 0 <= k < p.len() - 1 ==> #[trigger] path_step(cells, p, k)
}

/// `p` is a walk from a symbol's cell to the cell `id`.
pub open spec fn reaches(v: StoreView, p: Seq<nat>, id: nat) -> bool {
    &&& p.len() > 0
    &&& is_root(v.symbols, p[0])
    &&& is_path(v.cells, p)
    &&& p.last() == id
}

/// The cell `id` can be reached from some symbol by following links.
pub open spec fn reachable(v: StoreView, id: nat) -> bool {
    exists|p: Seq<nat>| #[trigger] reaches(v, p, id)
}

/// All cells reachable from the symbols.
pub open spec fn reachable_set(v: StoreView) -> Set<nat> {
    Set::new(|id: nat| reachable(v, id))
}

/// The live cells that no symbol reaches any more.
pub open spec fn unreachable_cells(v: StoreView) -> Set<nat> {
    v.cells.dom().difference(reachable_set(v))
}

/// The state after every unreachable cell is dropped and counted.
pub open spec fn collected(v: StoreView) -> StoreView {
    StoreView {
        cells: v.cells.restrict(reachable_set(v)),
        symbols: v.symbols,
        next_id: v.next_id,
        debug: v.debug,
        drop_count: v.drop_count + unreachable_cells(v).len(),
    }
}

/// The references of a store are consistent: its cells are finitely many and
/// below the next fresh identity, and every link and every symbol names a
/// live cell.
pub open spec fn store_valid(v: StoreView) -> bool {
    &&& v.cells.dom().finite()
    &&& forall|id: nat| #[trigger] v.cells.contains_key(id) ==> id < v.next_id
    &&& forall|id: nat, j: nat|
        v.cells.contains_key(id) && #[trigger] links_to(v.cells[id], j) ==> v.cells.contains_key(j)
    &&& forall|k: Seq<char>| #[trigger]
        v.symbols.contains_key(k) ==> v.cells.contains_key(v.symbols[k])
}

/// Every live cell is reachable from some symbol.
pub open spec fn all_reachable(v: StoreView) -> bool {
    forall|id: nat| v.cells.contains_key(id) ==> reachable(v, id)
}

// ---------------------------------------------------------------------------
// Concrete representation
// ---------------------------------------------------------------------------

struct Cell {
    text1: String,
    text2: String,
    link1: Option<usize>,
    link2: Option<usize>,
}

struct SymbolEntry {
    name: String,
    target: usize,
}

/// A handle to one data cell of an [`SCLDataMap`].
#[derive(Clone, Copy)]
pub struct SCLRef {
    id: usize,
}

impl View for SCLRef {
    type V = nat;

    closed spec fn view(&self) -> nat {
        self.id as nat
    }
}

/// The identity an optional handle refers to.
pub open spec fn ref_id(r: Option<SCLRef>) -> Option<nat> {
    match r {
        Some(x) => Some(x@),
        None => None,
    }
}

/// A store of data cells together with the symbol table that names them.
///
/// Cells are kept in an arena and addressed by identity; a cell may link to
/// any cells, cycles included. Cells that no symbol reaches any more are
/// dropped by [`SCLDataMap::collect_unreachable`], which also counts them.
pub struct SCLDataMap {
    cells: Vec<Option<Cell>>,
    symbols: Vec<SymbolEntry>,
    debug: bool,
    drop_count: i32,
    live: usize,
}

spec fn opt_nat(o: Option<usize>) -> Option<nat> {
    match o {
        Some(x) => Some(x as nat),
        None => None,
    }
}

spec fn cell_view(c: Cell) -> CellView {
    CellView { text1: c.text1@, text2: c.text2@, link1: opt_nat(c.link1), link2: opt_nat(c.link2) }
}

spec fn cells_view(cells: Seq<Option<Cell>>) -> Map<nat, CellView> {
    Map::new(
        |i: nat| i < cells.len() && cells[i as int] is Some,
        |i: nat| cell_view(cells[i as int]->0),
    )
}

spec fn has_name(s: Seq<SymbolEntry>, i: int, k: Seq<char>) -> bool {
    0 <= i < s.len() && s[i].name@ == k
}

spec fn symbols_view(s: Seq<SymbolEntry>) -> Map<Seq<char>, nat> {
    Map::new(
        |k: Seq<char>| exists|i: int| #[trigger] has_name(s, i, k),
        |k: Seq<char>| s[choose|i: int| #[trigger] has_name(s, i, k)].target as nat,
    )
}

spec fn names_distinct(s: Seq<SymbolEntry>) -> bool {
    forall|i: int, j: int|
        0 <= i < s.len() && 0 <= j < s.len() && i != j ==> #[trigger] s[i].name@ != #[trigger] s[j].name@
}

impl View for SCLDataMap {
    type V = StoreView;

    closed spec fn view(&self) -> StoreView {
        StoreView {
            cells: cells_view(self.cells@),
            symbols: symbols_view(self.symbols@),
            next_id: self.cells@.len(),
            debug: self.debug,
            drop_count: self.drop_count as int,
        }
    }
}

proof fn lemma_prefix_set_finite(cells: Seq<Option<Cell>>, n: nat)
    requires
        n <= cells.len(),
    ensures
        Set::new(|i: nat| i < n && cells[i as int] is Some).finite(),
        Set::new(|i: nat| i < n && cells[i as int] is Some).len() <= n,
    decreases n,
{
    let s1 = Set::new(|i: nat| i < n && cells[i as int] is Some);
    if n == 0 {
        assert(s1 =~= Set::empty());
    } else {
        let m = (n - 1) as nat;
        lemma_prefix_set_finite(cells, m);
        let s0 = Set::new(|i: nat| i < m && cells[i as int] is Some);
        if cells[m as int] is Some {
            assert(s1 =~= s0.insert(m));
        } else {
            assert(s1 =~= s0);
        }
    }
}

proof fn lemma_cells_dom_finite(cells: Seq<Option<Cell>>)
    ensures
        cells_view(cells).dom().finite(),
        cells_view(cells).dom().len() <= cells.len(),
{
    lemma_prefix_set_finite(cells, cells.len());
    assert(cells_view(cells).dom() =~= Set::new(|i: nat| i < cells.len() && cells[i as int] is Some));
}

proof fn lemma_symbols_view_at(s: Seq<SymbolEntry>, i: int)
    requires
        names_distinct(s),
        0 <= i < s.len(),
    ensures
        symbols_view(s).contains_key(s[i].name@),
        symbols_view(s)[s[i].name@] == s[i].target as nat,
{
    let k = s[i].name@;
    assert(has_name(s, i, k));
    let j = choose|j: int| #[trigger] has_name(s, j, k);
    assert(has_name(s, j, k));
    assert(j == i);
}

proof fn lemma_symbols_view_absent(s: Seq<SymbolEntry>, k: Seq<char>)
    requires
        forall|i: int| 0 <= i < s.len() ==> s[i].name@ != k,
    ensures
        !symbols_view(s).contains_key(k),
{
    if exists|i: int| #[trigger] has_name(s, i, k) {
        let i = choose|i: int| #[trigger] has_name(s, i, k);
        assert(s[i].name@ == k);
    }
}

proof fn lemma_root_is_target(s: Seq<SymbolEntry>, id: nat)
    requires
        names_distinct(s),
        is_root(symbols_view(s), id),
    ensures
        exists|t: int| 0 <= t < s.len() && s[t].target == id,
{
    let k = choose|k: Seq<char>| #[trigger] symbols_view(s).contains_key(k) && symbols_view(s)[k] == id;
    let t = choose|t: int| #[trigger] has_name(s, t, k);
    lemma_symbols_view_at(s, t);
}

impl SCLDataMap {
    spec fn live_index(&self, i: int) -> bool {
        0 <= i < self.cells@.len() && self.cells@[i] is Some
    }

    spec fn link_ok(&self, l: Option<usize>) -> bool {
        l matches Some(j) ==> self.live_index(j as int)
    }

    /// The store is well formed: links and symbols name live cells, symbol
    /// names are distinct, and the counters stay in range.
    pub closed spec fn wf(&self) -> bool {
        &&& forall|i: int|
            0 <= i < self.cells@.len() && #[trigger] self.cells@[i] is Some ==> {
                &&& self.link_ok(self.cells@[i]->0.link1)
                &&& self.link_ok(self.cells@[i]->0.link2)
            }
        &&& forall|i: int|
            0 <= i < self.symbols@.len() ==> self.live_index(#[trigger] self.symbols@[i].target as int)
        &&& names_distinct(self.symbols@)
        &&& self@.symbols.dom().finite()
        &&& self@.symbols.dom().len() == self.symbols@.len()
        &&& 0 <= self.drop_count
        &&& self.live as nat == self@.cells.dom().len()
        &&& self.drop_count + self.live <= MAX_CELLS
    }

    /// In a well-formed store, links and symbols name live cells.
    pub proof fn lemma_wf_closed(&self)
        requires
            self.wf(),
        ensures
            self@.cells.dom().finite(),
            0 <= self@.drop_count,
            self@.drop_count + self@.cells.dom().len() <= MAX_CELLS,
            forall|id: nat| #[trigger]
                self@.cells.contains_key(id) ==> id < self@.next_id,
            forall|id: nat, j: nat|
                self@.cells.contains_key(id) && #[trigger] links_to(self@.cells[id], j)
                    ==> self@.cells.contains_key(j),
            forall|k: Seq<char>| #[trigger]
                self@.symbols.contains_key(k) ==> self@.cells.contains_key(self@.symbols[k]),
            store_valid(self@),
    {
        lemma_cells_dom_finite(self.cells@);
        assert forall|k: Seq<char>| #[trigger]
            self@.symbols.contains_key(k) implies self@.cells.contains_key(self@.symbols[k]) by {
            let t = choose|t: int| #[trigger] has_name(self.symbols@, t, k);
            lemma_symbols_view_at(self.symbols@, t);
        }
        assert forall|id: nat, j: nat|
            self@.cells.contains_key(id) && #[trigger] links_to(self@.cells[id], j)
                implies self@.cells.contains_key(j) by {
            assert(self.cells@[id as int] is Some);
        }
    }
}


spec fn count_false(s: Seq<bool>) -> nat
    decreases s.len(),
{
    if s.len() == 0 {
        0
    } else {
        count_false(s.drop_last()) + if s.last() {
            0nat
        } else {
            1nat
        }
    }
}

proof fn lemma_count_false_update(s: Seq<bool>, j: int)
    requires
        0 <= j < s.len(),
        !s[j],
    ensures
        count_false(s.update(j, true)) + 1 == count_false(s),
    decreases s.len(),
{
    let t = s.update(j, true);
    if j == s.len() - 1 {
        assert(t.drop_last() =~= s.drop_last());
    } else {
        assert(t.drop_last() =~= s.drop_last().update(j, true));
        lemma_count_false_update(s.drop_last(), j);
    }
}

/// Every link of the live cell `i` leads to a marked cell.
spec fn links_marked(v: StoreView, marked: Seq<bool>, i: nat) -> bool {
    &&& (v.cells[i].link1 matches Some(j) ==> j < marked.len() && marked[j as int])
    &&& (v.cells[i].link2 matches Some(j) ==> j < marked.len() && marked[j as int])
}

/// A one-cell path starts at a symbol's cell.
pub(crate) proof fn lemma_root_reachable(v: StoreView, id: nat)
    requires
        is_root(v.symbols, id),
        v.cells.contains_key(id),
    ensures
        reachable(v, id),
{
    let p = seq![id];
    assert(is_path(v.cells, p));
    assert(reaches(v, p, id));
}

/// Following a link from a reachable cell reaches the linked cell.
pub(crate) proof fn lemma_reachable_step(v: StoreView, i: nat, j: nat)
    requires
        reachable(v, i),
        links_to(v.cells[i], j),
        v.cells.contains_key(j),
    ensures
        reachable(v, j),
{
    let p = choose|p: Seq<nat>| #[trigger] reaches(v, p, i);
    let q = p.push(j);
    assert forall|k: int| 0 <= k < q.len() implies v.cells.contains_key(#[trigger] q[k]) by {
        if k < p.len() {
            assert(q[k] == p[k]);
        }
    }
    assert forall|k: int| 0 <= k < q.len() - 1 implies #[trigger] path_step(v.cells, q, k) by {
        if k < p.len() - 1 {
            assert(path_step(v.cells, p, k));
            assert(q[k] == p[k] && q[k + 1] == p[k + 1]);
        } else {
            assert(q[k] == i && q[k + 1] == j);
        }
    }
    assert(reaches(v, q, j));
}

/// A reachable cell is live.
proof fn lemma_reachable_live(v: StoreView, id: nat)
    requires
        reachable(v, id),
    ensures
        v.cells.contains_key(id),
{
    let p = choose|p: Seq<nat>| #[trigger] reaches(v, p, id);
    assert(v.cells.contains_key(p[p.len() - 1]));
}

/// A set of cells that holds every symbol's cell and is closed under links
/// holds every reachable cell.
proof fn lemma_closed_holds_reachable(v: StoreView, marked: Seq<bool>, p: Seq<nat>)
    requires
        forall|id: nat| #[trigger] is_root(v.symbols, id) ==> id < marked.len() && marked[id as int],
        forall|i: nat|
            i < marked.len() && marked[i as int] && v.cells.contains_key(i) ==> #[trigger] links_marked(
                v,
                marked,
                i,
            ),
        p.len() > 0,
        is_root(v.symbols, p[0]),
        is_path(v.cells, p),
    ensures
        p.last() < marked.len() && marked[p.last() as int],
    decreases p.len(),
{
    if p.len() > 1 {
        let q = p.drop_last();
        assert(q[0] == p[0]);
        assert forall|k: int| 0 <= k < q.len() implies v.cells.contains_key(#[trigger] q[k]) by {
            assert(q[k] == p[k]);
        }
        assert forall|k: int| 0 <= k < q.len() - 1 implies #[trigger] path_step(v.cells, q, k) by {
            assert(path_step(v.cells, p, k));
        }
        lemma_closed_holds_reachable(v, marked, q);
        let k = p.len() - 2;
        assert(path_step(v.cells, p, k));
        assert(q.last() == p[k]);
        assert(v.cells.contains_key(p[k]));
        assert(links_marked(v, marked, p[k]));
    } else {
        assert(p.last() == p[0]);
        assert(is_root(v.symbols, p[0]));
    }
}

impl SCLDataMap {
    /// Marks exactly the cells that some symbol reaches.
    fn mark_reachable(&self) -> (marked: Vec<bool>)
        requires
            self.wf(),
        ensures
            marked@.len() == self.cells@.len(),
            forall|i: int| 0 <= i < marked@.len() ==> (marked@[i] <==> reachable(self@, i as nat)),
    {
        proof {
            self.lemma_wf_closed();
        }
        let ghost v = self@;
        let n = self.cells.len();
        let mut marked: Vec<bool> = Vec::new();
        let mut k: usize = 0;
        while k < n
            invariant
                k <= n,
                marked@.len() == k,
                forall|i: int| 0 <= i < k ==> !marked@[i],
            decreases n - k,
        {
            marked.push(false);
            k = k + 1;
        }
        let mut work: Vec<usize> = Vec::new();
        let mut s: usize = 0;
        while s < self.symbols.len()
            invariant
                self.wf(),
                v == self@,
                n == self.cells@.len(),
                marked@.len() == n,
                s <= self.symbols@.len(),
                forall|i: int|
                    0 <= i < n && #[trigger] marked@[i] ==> v.cells.contains_key(i as nat)
                        && reachable(v, i as nat),
                forall|w: int| 0 <= w < work@.len() ==> #[trigger] work@[w] < n && marked@[work@[w] as int],
                forall|i: int|
                    0 <= i < n && #[trigger] marked@[i] ==> links_marked(v, marked@, i as nat)
                        || work@.contains(i as usize),
                forall|t: int| 0 <= t < s ==> marked@[#[trigger] self.symbols@[t].target as int],
            decreases self.symbols@.len() - s,
        {
            let t = self.symbols[s].target;
            if !marked[t] {
                proof {
                    lemma_symbols_view_at(self.symbols@, s as int);
                    assert(v.symbols.contains_key(self.symbols@[s as int].name@));
                    assert(is_root(v.symbols, t as nat));
                    lemma_root_reachable(v, t as nat);
                }
                let ghost old_work = work@;
                let ghost old_marked = marked@;
                marked.set(t, true);
                work.push(t);
                proof {
                    assert forall|i: int|
                        0 <= i < n && #[trigger] marked@[i] implies links_marked(v, marked@, i as nat)
                            || work@.contains(i as usize) by {
                        if i == t {
                            assert(work@[work@.len() - 1] == t);
                        } else if !links_marked(v, old_marked, i as nat) {
                            let w = choose|w: int| 0 <= w < old_work.len() && old_work[w] == i as usize;
                            assert(work@[w] == i as usize);
                        }
                    }
                }
            }
            s = s + 1;
        }
        while work.len() > 0
            invariant
                self.wf(),
                v == self@,
                n == self.cells@.len(),
                marked@.len() == n,
                forall|i: int|
                    0 <= i < n && #[trigger] marked@[i] ==> v.cells.contains_key(i as nat)
                        && reachable(v, i as nat),
                forall|w: int| 0 <= w < work@.len() ==> #[trigger] work@[w] < n && marked@[work@[w] as int],
                forall|i: int|
                    0 <= i < n && #[trigger] marked@[i] ==> links_marked(v, marked@, i as nat)
                        || work@.contains(i as usize),
                forall|t: int|
                    0 <= t < self.symbols@.len() ==> marked@[#[trigger] self.symbols@[t].target as int],
            decreases 2 * count_false(marked@) + work@.len(),
        {
            let ghost before = work@;
            let ghost marked0 = marked@;
            let i = work.pop().unwrap();
            let ghost popped = work@;
            proof {
                assert(before[before.len() - 1] == i);
                assert forall|x: int|
                    0 <= x < n && #[trigger] marked@[x] && x != i as int implies links_marked(
                        v,
                        marked@,
                        x as nat,
                    ) || work@.contains(x as usize) by {
                    if !links_marked(v, marked@, x as nat) {
                        let w = choose|w: int| 0 <= w < before.len() && before[w] == x as usize;
                        assert(w != before.len() - 1);
                        assert(work@[w] == x as usize);
                    }
                }
            }
            let (l1, l2) = match &self.cells[i] {
                Some(cell) => (cell.link1, cell.link2),
                None => (None, None),
            };
            proof {
                assert(self.cells@[i as int] is Some);
                assert(v.cells[i as nat] == cell_view(self.cells@[i as int]->0));
                assert(opt_nat(l1) == v.cells[i as nat].link1);
                assert(opt_nat(l2) == v.cells[i as nat].link2);
            }
            let ghost after_pop = work@;
            if let Some(j) = l1 {
                if !marked[j] {
                    proof {
                        assert(links_to(v.cells[i as nat], j as nat));
                        lemma_reachable_step(v, i as nat, j as nat);
                        lemma_count_false_update(marked@, j as int);
                    }
                    let ghost w0 = work@;
                    let ghost m0 = marked@;
                    marked.set(j, true);
                    work.push(j);
                    proof {
                        assert forall|x: int|
                            0 <= x < n && #[trigger] marked@[x] && x != i as int implies links_marked(
                                v,
                                marked@,
                                x as nat,
                            ) || work@.contains(x as usize) by {
                            if x == j as int {
                                assert(work@[work@.len() - 1] == j);
                            } else if !links_marked(v, m0, x as nat) {
                                let w = choose|w: int| 0 <= w < w0.len() && w0[w] == x as usize;
                                assert(work@[w] == x as usize);
                            }
                        }
                    }
                }
            }
            if let Some(j) = l2 {
                if !marked[j] {
                    proof {
                        assert(links_to(v.cells[i as nat], j as nat));
                        lemma_reachable_step(v, i as nat, j as nat);
                        lemma_count_false_update(marked@, j as int);
                    }
                    let ghost w0 = work@;
                    let ghost m0 = marked@;
                    marked.set(j, true);
                    work.push(j);
                    proof {
                        assert forall|x: int|
                            0 <= x < n && #[trigger] marked@[x] && x != i as int implies links_marked(
                                v,
                                marked@,
                                x as nat,
                            ) || work@.contains(x as usize) by {
                            if x == j as int {
                                assert(work@[work@.len() - 1] == j);
                            } else if !links_marked(v, m0, x as nat) {
                                let w = choose|w: int| 0 <= w < w0.len() && w0[w] == x as usize;
                                assert(work@[w] == x as usize);
                            }
                        }
                    }
                }
            }
            proof {
                assert(links_marked(v, marked@, i as nat));
            }
        }
        proof {
            assert forall|id: nat| #[trigger] is_root(v.symbols, id) implies id < marked@.len()
                && marked@[id as int] by {
                lemma_root_is_target(self.symbols@, id);
                let t = choose|t: int| 0 <= t < self.symbols@.len() && self.symbols@[t].target == id;
                assert(marked@[self.symbols@[t].target as int]);
            }
            assert forall|i: int| 0 <= i < marked@.len() implies (marked@[i] <==> reachable(
                v,
                i as nat,
            )) by {
                if reachable(v, i as nat) {
                    let p = choose|p: Seq<nat>| #[trigger] reaches(v, p, i as nat);
                    lemma_closed_holds_reachable(v, marked@, p);
                }
            }
        }
        marked
    }
}


impl SCLDataMap {
    /// Drops every cell that no symbol reaches any more and adds their
    /// number to the drop counter; returns that number.
    pub fn collect_unreachable(&mut self) -> (dropped: usize)
        requires
            old(self).wf(),
        ensures
            final(self).wf(),
            final(self)@ == collected(old(self)@),
            dropped == unreachable_cells(old(self)@).len(),
    {
        proof {
            self.lemma_wf_closed();
        }
        let marked = self.mark_reachable();
        let ghost v = self@;
        let ghost old_cells = self.cells@;
        let ghost reach = reachable_set(v);
        let n = self.cells.len();
        let mut count: usize = 0;
        let ghost mut gone: Set<nat> = Set::empty();
        let mut i: usize = 0;
        while i < n
            invariant
                i <= n,
                n == self.cells@.len(),
                n == old_cells.len(),
                marked@.len() == n,
                forall|j: int| 0 <= j < n ==> (marked@[j] <==> reachable(v, j as nat)),
                self.symbols == old(self).symbols,
                self.debug == old(self).debug,
                self.drop_count == old(self).drop_count,
                self.live == old(self).live,
                forall|j: int|
                    0 <= j < i ==> #[trigger] self.cells@[j] == if marked@[j] {
                        old_cells[j]
                    } else {
                        None
                    },
                forall|j: int| i <= j < n ==> #[trigger] self.cells@[j] == old_cells[j],
                gone == Set::new(|j: nat| j < i && old_cells[j as int] is Some && !marked@[j as int]),
                gone.finite(),
                gone.len() == count,
                count <= i,
            decreases n - i,
        {
            let live = match &self.cells[i] {
                Some(_) => true,
                None => false,
            };
            if live && !marked[i] {
                self.cells.set(i, None);
                proof {
                    let g0 = gone;
                    gone = gone.insert(i as nat);
                    assert(!g0.contains(i as nat));
                    assert(gone =~= Set::new(
                        |j: nat| j < i + 1 && old_cells[j as int] is Some && !marked@[j as int],
                    ));
                }
                count = count + 1;
            } else {
                proof {
                    assert(gone =~= Set::new(
                        |j: nat| j < i + 1 && old_cells[j as int] is Some && !marked@[j as int],
                    ));
                }
            }
            i = i + 1;
        }
        proof {
            lemma_cells_dom_finite(old_cells);
            assert forall|id: nat| #[trigger] reach.contains(id) implies v.cells.contains_key(id) by {
                lemma_reachable_live(v, id);
            }
            assert(reach.subset_of(v.cells.dom()));
            lemma_len_subset(reach, v.cells.dom());
            assert(gone =~= unreachable_cells(v));
            lemma_set_difference_len(v.cells.dom(), reach);
            assert(v.cells.dom().intersect(reach) =~= reach);
            assert(self@.cells =~= v.cells.restrict(reach));
            assert(self@.cells.dom() =~= reach);
        }
        self.drop_count = self.drop_count + count as i32;
        self.live = self.live - count;
        proof {
            assert(self@.cells =~= v.cells.restrict(reach));
            self.lemma_collected_wf(v, marked@);
        }
        count
    }

    proof fn lemma_collected_wf(&self, v: StoreView, marked: Seq<bool>)
        requires
            self@.cells == v.cells.restrict(reachable_set(v)),
            self@.symbols == v.symbols,
            self.cells@.len() == v.next_id,
            names_distinct(self.symbols@),
            self@.symbols.dom().finite(),
            self@.symbols.dom().len() == self.symbols@.len(),
            0 <= self.drop_count,
            self.live as nat == self@.cells.dom().len(),
            self.drop_count + self.live <= MAX_CELLS,
            forall|id: nat, j: nat|
                v.cells.contains_key(id) && #[trigger] links_to(v.cells[id], j) ==> v.cells.contains_key(j),
            forall|k: Seq<char>| #[trigger] v.symbols.contains_key(k) ==> v.cells.contains_key(v.symbols[k]),
        ensures
            self.wf(),
    {
        let reach = reachable_set(v);
        assert forall|i: int|
            0 <= i < self.cells@.len() && #[trigger] self.cells@[i] is Some implies {
                &&& self.link_ok(self.cells@[i]->0.link1)
                &&& self.link_ok(self.cells@[i]->0.link2)
            } by {
            let id = i as nat;
            assert(self@.cells.contains_key(id));
            assert(reach.contains(id));
            let c = self.cells@[i]->0;
            assert(self@.cells[id] == cell_view(c));
            assert(v.cells[id] == cell_view(c));
            if let Some(j) = c.link1 {
                assert(links_to(v.cells[id], j as nat));
                lemma_reachable_step(v, id, j as nat);
                assert(self@.cells.contains_key(j as nat));
            }
            if let Some(j) = c.link2 {
                assert(links_to(v.cells[id], j as nat));
                lemma_reachable_step(v, id, j as nat);
                assert(self@.cells.contains_key(j as nat));
            }
        }
        assert forall|i: int|
            0 <= i < self.symbols@.len() implies self.live_index(#[trigger] self.symbols@[i].target as int) by {
            lemma_symbols_view_at(self.symbols@, i);
            let k = self.symbols@[i].name@;
            let t = self.symbols@[i].target as nat;
            assert(v.symbols.contains_key(k));
            assert(is_root(v.symbols, t));
            lemma_root_reachable(v, t);
            assert(self@.cells.contains_key(t));
        }
    }
}


proof fn lemma_symbols_key(s: Seq<SymbolEntry>, k: Seq<char>) -> (j: int)
    requires
        names_distinct(s),
        symbols_view(s).contains_key(k),
    ensures
        0 <= j < s.len(),
        s[j].name@ == k,
        symbols_view(s)[k] == s[j].target as nat,
{
    let j = choose|j: int| #[trigger] has_name(s, j, k);
    lemma_symbols_view_at(s, j);
    j
}

proof fn lemma_symbols_replace(s: Seq<SymbolEntry>, i: int, e: SymbolEntry)
    requires
        names_distinct(s),
        0 <= i < s.len(),
        e.name@ == s[i].name@,
    ensures
        names_distinct(s.update(i, e)),
        symbols_view(s.update(i, e)) == symbols_view(s).insert(e.name@, e.target as nat),
{
    let t = s.update(i, e);
    assert forall|a: int, b: int|
        0 <= a < t.len() && 0 <= b < t.len() && a != b implies #[trigger] t[a].name@ != #[trigger] t[b].name@ by {
        assert(s[a].name@ != s[b].name@);
    }
    let m1 = symbols_view(t);
    let m2 = symbols_view(s).insert(e.name@, e.target as nat);
    assert forall|k: Seq<char>| m1.contains_key(k) <==> m2.contains_key(k) by {
        if k == e.name@ {
            lemma_symbols_view_at(t, i);
        } else {
            if m1.contains_key(k) {
                let j = lemma_symbols_key(t, k);
                lemma_symbols_view_at(s, j);
            }
            if m2.contains_key(k) {
                let j = lemma_symbols_key(s, k);
                lemma_symbols_view_at(t, j);
            }
        }
    }
    assert forall|k: Seq<char>| #[trigger] m1.contains_key(k) implies m1[k] == m2[k] by {
        let j = lemma_symbols_key(t, k);
        if j != i {
            lemma_symbols_view_at(s, j);
        }
    }
    assert(m1 =~= m2);
}

proof fn lemma_symbols_push(s: Seq<SymbolEntry>, e: SymbolEntry)
    requires
        names_distinct(s),
        !symbols_view(s).contains_key(e.name@),
    ensures
        names_distinct(s.push(e)),
        symbols_view(s.push(e)) == symbols_view(s).insert(e.name@, e.target as nat),
{
    let t = s.push(e);
    let n = s.len() as int;
    assert forall|a: int| 0 <= a < n implies s[a].name@ != e.name@ by {
        lemma_symbols_view_at(s, a);
    }
    assert forall|a: int, b: int|
        0 <= a < t.len() && 0 <= b < t.len() && a != b implies #[trigger] t[a].name@ != #[trigger] t[b].name@ by {
        if a < n && b < n {
            assert(s[a].name@ != s[b].name@);
        }
    }
    let m1 = symbols_view(t);
    let m2 = symbols_view(s).insert(e.name@, e.target as nat);
    assert forall|k: Seq<char>| m1.contains_key(k) <==> m2.contains_key(k) by {
        if k == e.name@ {
            lemma_symbols_view_at(t, n);
        } else {
            if m1.contains_key(k) {
                let j = lemma_symbols_key(t, k);
                lemma_symbols_view_at(s, j);
            }
            if m2.contains_key(k) {
                let j = lemma_symbols_key(s, k);
                lemma_symbols_view_at(t, j);
            }
        }
    }
    assert forall|k: Seq<char>| #[trigger] m1.contains_key(k) implies m1[k] == m2[k] by {
        let j = lemma_symbols_key(t, k);
        if j != n {
            lemma_symbols_view_at(s, j);
        }
    }
    assert(m1 =~= m2);
}

proof fn lemma_symbols_remove(s: Seq<SymbolEntry>, i: int)
    requires
        names_distinct(s),
        0 <= i < s.len(),
    ensures
        names_distinct(s.remove(i)),
        symbols_view(s.remove(i)) == symbols_view(s).remove(s[i].name@),
{
    let t = s.remove(i);
    let name = s[i].name@;
    assert forall|a: int, b: int|
        0 <= a < t.len() && 0 <= b < t.len() && a != b implies #[trigger] t[a].name@ != #[trigger] t[b].name@ by {
        let a2 = if a < i { a } else { a + 1 };
        let b2 = if b < i { b } else { b + 1 };
        assert(t[a] == s[a2] && t[b] == s[b2]);
        assert(s[a2].name@ != s[b2].name@);
    }
    let m1 = symbols_view(t);
    let m2 = symbols_view(s).remove(name);
    assert forall|k: Seq<char>| m1.contains_key(k) <==> m2.contains_key(k) by {
        if m1.contains_key(k) {
            let j = lemma_symbols_key(t, k);
            let j2 = if j < i { j } else { j + 1 };
            assert(t[j] == s[j2]);
            assert(j2 != i);
            lemma_symbols_view_at(s, j2);
        }
        if m2.contains_key(k) {
            let j = lemma_symbols_key(s, k);
            assert(j != i);
            let j2 = if j < i { j } else { j - 1 };
            assert(t[j2] == s[j]);
            lemma_symbols_view_at(t, j2);
        }
    }
    assert forall|k: Seq<char>| #[trigger] m1.contains_key(k) implies m1[k] == m2[k] by {
        let j = lemma_symbols_key(t, k);
        let j2 = if j < i { j } else { j + 1 };
        assert(t[j] == s[j2]);
        lemma_symbols_view_at(s, j2);
    }
    assert(m1 =~= m2);
}

impl SCLDataMap {
    /// Index of the symbol-table entry named `name`, if any.
    fn find_symbol(&self, name: &String) -> (r: Option<usize>)
        requires
            self.wf(),
        ensures
            r matches Some(i) ==> i < self.symbols@.len() && self.symbols@[i as int].name@ == name@,
            r is None ==> !self@.symbols.contains_key(name@),
            r is Some <==> self@.symbols.contains_key(name@),
    {
        let mut i: usize = 0;
        while i < self.symbols.len()
            invariant
                self.wf(),
                i <= self.symbols@.len(),
                forall|j: int| 0 <= j < i ==> self.symbols@[j].name@ != name@,
            decreases self.symbols@.len() - i,
        {
            if self.symbols[i].name == *name {
                proof {
                    lemma_symbols_view_at(self.symbols@, i as int);
                }
                return Some(i);
            }
            i = i + 1;
        }
        proof {
            lemma_symbols_view_absent(self.symbols@, name@);
        }
        None
    }

    /// The cell a name is bound to, if any.
    fn lookup(&self, name: &String) -> (r: Option<usize>)
        requires
            self.wf(),
        ensures
            r is Some <==> self@.symbols.contains_key(name@),
            r matches Some(id) ==> id as nat == self@.symbols[name@] && self@.cells.contains_key(id as nat),
    {
        match self.find_symbol(name) {
            Some(i) => {
                proof {
                    lemma_symbols_view_at(self.symbols@, i as int);
                }
                Some(self.symbols[i].target)
            },
            None => None,
        }
    }

    /// Binds `name` to the live cell `target`, replacing any earlier binding.
    fn bind(&mut self, name: String, target: usize)
        requires
            old(self).wf(),
            old(self)@.cells.contains_key(target as nat),
        ensures
            final(self).wf(),
            final(self)@ == (StoreView {
                symbols: old(self)@.symbols.insert(name@, target as nat),
                ..old(self)@
            }),
    {
        match self.find_symbol(&name) {
            Some(i) => {
                let ghost s0 = self.symbols@;
                let e = SymbolEntry { name, target };
                proof {
                    lemma_symbols_replace(s0, i as int, e);
                }
                self.symbols.set(i, e);
            },
            None => {
                let ghost s0 = self.symbols@;
                let e = SymbolEntry { name, target };
                proof {
                    lemma_symbols_push(s0, e);
                }
                self.symbols.push(e);
            },
        }
        proof {
            assert(self@.cells == old(self)@.cells);
        }
    }

    /// Removes the binding of `name`; returns the cell it was bound to.
    fn unbind(&mut self, name: &String) -> (r: Option<usize>)
        requires
            old(self).wf(),
        ensures
            final(self).wf(),
            r is Some <==> old(self)@.symbols.contains_key(name@),
            r matches Some(id) ==> id as nat == old(self)@.symbols[name@],
            final(self)@ == (StoreView { symbols: old(self)@.symbols.remove(name@), ..old(self)@ }),
            r is None ==> final(self)@ == old(self)@,
    {
        match self.find_symbol(name) {
            Some(i) => {
                let ghost s0 = self.symbols@;
                proof {
                    lemma_symbols_remove(s0, i as int);
                    lemma_symbols_view_at(s0, i as int);
                }
                let e = self.symbols.remove(i);
                proof {
                    assert forall|j: int|
                        0 <= j < self.symbols@.len() implies self.live_index(
                        #[trigger] self.symbols@[j].target as int,
                    ) by {
                        let j2 = if j < i { j } else { j + 1 };
                        assert(self.symbols@[j] == s0[j2]);
                    }
                    assert(self@.cells == old(self)@.cells);
                }
                Some(e.target)
            },
            None => {
                proof {
                    assert(old(self)@.symbols.remove(name@) =~= old(self)@.symbols);
                }
                None
            },
        }
    }
}


// ---------------------------------------------------------------------------
// State transitions
// ---------------------------------------------------------------------------

/// A cell with the given texts and links.
pub open spec fn new_cell(text1: Seq<char>, text2: Seq<char>, link1: Option<nat>, link2: Option<nat>) -> CellView {
    CellView { text1, text2, link1, link2 }
}

/// The state with the cell `id` replaced by `c`.
pub open spec fn with_cell(v: StoreView, id: nat, c: CellView) -> StoreView {
    StoreView { cells: v.cells.insert(id, c), ..v }
}

/// The state with `c` added under the next fresh identity.
pub open spec fn with_new_cell(v: StoreView, c: CellView) -> StoreView {
    StoreView { cells: v.cells.insert(v.next_id, c), next_id: v.next_id + 1, ..v }
}

/// One more cell fits: the live cells plus the cells dropped since the
/// drop counter was last reset stay within [`MAX_CELLS`].
pub open spec fn has_room(v: StoreView) -> bool {
    v.drop_count + v.cells.dom().len() < MAX_CELLS
}

/// The state of a new, empty store.
pub open spec fn empty_store() -> StoreView {
    StoreView {
        cells: Map::empty(),
        symbols: Map::empty(),
        next_id: 0,
        debug: false,
        drop_count: 0,
    }
}

/// What `enable_feature` reports for a feature name.
pub open spec fn enable_feature_message(name: Seq<char>) -> Seq<char> {
    if name == "debug"@ {
        "DEBUG ENABLED\n"@
    } else {
        "UNKNOWN FEATURE - IGNORED: "@ + name + "\n"@
    }
}

/// The debug flag after enabling the feature `name`.
pub open spec fn debug_after_enable(debug: bool, name: Seq<char>) -> bool {
    debug || name == "debug"@
}

impl SCLDataMap {
    /// Adds a cell under the next fresh identity.
    fn alloc_cell(
        &mut self,
        text1: String,
        text2: String,
        link1: Option<usize>,
        link2: Option<usize>,
    ) -> (id: usize)
        requires
            old(self).wf(),
            has_room(old(self)@),
            link1 matches Some(j) ==> old(self)@.cells.contains_key(j as nat),
            link2 matches Some(j) ==> old(self)@.cells.contains_key(j as nat),
        ensures
            final(self).wf(),
            id as nat == old(self)@.next_id,
            final(self)@ == with_new_cell(
                old(self)@,
                new_cell(text1@, text2@, opt_nat(link1), opt_nat(link2)),
            ),
    {
        proof {
            self.lemma_wf_closed();
        }
        let ghost v = self@;
        let id = self.cells.len();
        let cell = Cell { text1, text2, link1, link2 };
        self.cells.push(Some(cell));
        self.live = self.live + 1;
        proof {
            let c = new_cell(text1@, text2@, opt_nat(link1), opt_nat(link2));
            assert(self@.cells =~= v.cells.insert(id as nat, c));
            lemma_cells_dom_finite(self.cells@);
            assert(!v.cells.dom().contains(id as nat));
            assert(self@.cells.dom() =~= v.cells.dom().insert(id as nat));
            assert forall|i: int|
                0 <= i < self.cells@.len() && #[trigger] self.cells@[i] is Some implies {
                    &&& self.link_ok(self.cells@[i]->0.link1)
                    &&& self.link_ok(self.cells@[i]->0.link2)
                } by {
                if i < id {
                    assert(old(self).cells@[i] == self.cells@[i]);
                    assert(old(self).link_ok(self.cells@[i]->0.link1));
                    assert(old(self).link_ok(self.cells@[i]->0.link2));
                }
            }
            assert forall|i: int|
                0 <= i < self.symbols@.len() implies self.live_index(#[trigger] self.symbols@[i].target as int) by {
                assert(old(self).live_index(self.symbols@[i].target as int));
            }
        }
        id
    }

    /// Replaces the live cell `id`.
    fn replace_cell(
        &mut self,
        id: usize,
        text1: String,
        text2: String,
        link1: Option<usize>,
        link2: Option<usize>,
    )
        requires
            old(self).wf(),
            old(self)@.cells.contains_key(id as nat),
            link1 matches Some(j) ==> old(self)@.cells.contains_key(j as nat),
            link2 matches Some(j) ==> old(self)@.cells.contains_key(j as nat),
        ensures
            final(self).wf(),
            final(self)@ == with_cell(
                old(self)@,
                id as nat,
                new_cell(text1@, text2@, opt_nat(link1), opt_nat(link2)),
            ),
    {
        let ghost v = self@;
        let cell = Cell { text1, text2, link1, link2 };
        self.cells.set(id, Some(cell));
        proof {
            let c = new_cell(text1@, text2@, opt_nat(link1), opt_nat(link2));
            assert(self@.cells =~= v.cells.insert(id as nat, c));
            assert(self@.cells.dom() =~= v.cells.dom());
            assert forall|i: int|
                0 <= i < self.cells@.len() && #[trigger] self.cells@[i] is Some implies {
                    &&& self.link_ok(self.cells@[i]->0.link1)
                    &&& self.link_ok(self.cells@[i]->0.link2)
                } by {
                if i != id {
                    assert(old(self).cells@[i] == self.cells@[i]);
                    assert(old(self).link_ok(self.cells@[i]->0.link1));
                    assert(old(self).link_ok(self.cells@[i]->0.link2));
                }
            }
            assert forall|i: int|
                0 <= i < self.symbols@.len() implies self.live_index(#[trigger] self.symbols@[i].target as int) by {
                assert(old(self).live_index(self.symbols@[i].target as int));
            }
        }
    }

    /// Creates an empty store.
    pub fn new() -> (m: Self)
        ensures
            m.wf(),
            m@ == empty_store(),
    {
        let m = SCLDataMap {
            cells: Vec::new(),
            symbols: Vec::new(),
            debug: false,
            drop_count: 0,
            live: 0,
        };
        proof {
            assert(m@.cells =~= Map::empty());
            assert(m@.symbols =~= Map::empty());
            lemma_cells_dom_finite(m.cells@);
        }
        m
    }

    /// Whether `r` names a live cell of this store.
    pub fn contains(&self, r: SCLRef) -> (b: bool)
        requires
            self.wf(),
        ensures
            b == self@.cells.contains_key(r@),
    {
        if r.id < self.cells.len() {
            match &self.cells[r.id] {
                Some(_) => true,
                None => false,
            }
        } else {
            false
        }
    }

    /// The cell bound to `name`, if any.
    pub fn get(&self, name: &str) -> (r: Option<SCLRef>)
        requires
            self.wf(),
        ensures
            r is Some <==> self@.symbols.contains_key(name@),
            r matches Some(x) ==> x@ == self@.symbols[name@],
    {
        let key = String::from_str(name);
        match self.lookup(&key) {
            Some(id) => Some(SCLRef { id }),
            None => None,
        }
    }

    /// Binds `name` to the cell `r`; returns the cell it was bound to before.
    /// No cell is dropped here: see [`SCLDataMap::collect_unreachable`].
    pub fn insert(&mut self, name: &str, r: SCLRef) -> (prev: Option<SCLRef>)
        requires
            old(self).wf(),
            old(self)@.cells.contains_key(r@),
        ensures
            final(self).wf(),
            prev is Some <==> old(self)@.symbols.contains_key(name@),
            prev matches Some(x) ==> x@ == old(self)@.symbols[name@],
            final(self)@ == (StoreView { symbols: old(self)@.symbols.insert(name@, r@), ..old(self)@ }),
    {
        let key = String::from_str(name);
        let prev = match self.lookup(&key) {
            Some(id) => Some(SCLRef { id }),
            None => None,
        };
        self.bind(key, r.id);
        prev
    }

    /// Removes the binding of `name`; returns the cell it was bound to.
    /// No cell is dropped here: see [`SCLDataMap::collect_unreachable`].
    pub fn remove(&mut self, name: &str) -> (prev: Option<SCLRef>)
        requires
            old(self).wf(),
        ensures
            final(self).wf(),
            prev is Some <==> old(self)@.symbols.contains_key(name@),
            prev matches Some(x) ==> x@ == old(self)@.symbols[name@],
            final(self)@ == (StoreView { symbols: old(self)@.symbols.remove(name@), ..old(self)@ }),
            prev is None ==> final(self)@ == old(self)@,
    {
        let key = String::from_str(name);
        match self.unbind(&key) {
            Some(id) => Some(SCLRef { id }),
            None => None,
        }
    }
}

/// Whether the `debug` feature is enabled.
pub fn is_debug_enabled(m: &SCLDataMap) -> (b: bool)
    ensures
        b == m@.debug,
{
    m.debug
}

/// How many cells were dropped since the counter was last reset.
pub fn get_drop_cell_count(m: &SCLDataMap) -> (n: i32)
    ensures
        n as int == m@.drop_count,
{
    m.drop_count
}

/// Sets the drop counter back to zero.
pub fn reset_drop_cell_count(m: &mut SCLDataMap)
    requires
        old(m).wf(),
    ensures
        final(m).wf(),
        final(m)@ == (StoreView { drop_count: 0, ..old(m)@ }),
{
    m.drop_count = 0;
}

/// Enables the named feature; only `debug` is known, any other name is
/// ignored. Returns the message to report.
pub fn enable_feature(m: &mut SCLDataMap, feature_name: &str) -> (msg: String)
    requires
        old(m).wf(),
    ensures
        final(m).wf(),
        final(m)@ == (StoreView { debug: debug_after_enable(old(m)@.debug, feature_name@), ..old(m)@ }),
        msg@ == enable_feature_message(feature_name@),
{
    let name = String::from_str(feature_name);
    let known = String::from_str("debug");
    if name == known {
        m.debug = true;
        String::from_str("DEBUG ENABLED\n")
    } else {
        let mut msg = String::from_str("UNKNOWN FEATURE - IGNORED: ");
        msg.append(feature_name);
        msg.append("\n");
        msg
    }
}

/// Creates a cell with two texts and no links; returns its handle.
pub fn create_cell_with_text_only(m: &mut SCLDataMap, text1: &str, text2: &str) -> (r: SCLRef)
    requires
        old(m).wf(),
        has_room(old(m)@),
    ensures
        final(m).wf(),
        r@ == old(m)@.next_id,
        final(m)@ == with_new_cell(old(m)@, new_cell(text1@, text2@, None, None)),
{
    let id = m.alloc_cell(String::from_str(text1), String::from_str(text2), None, None);
    SCLRef { id }
}

/// Creates a cell with two texts and two links; returns its handle.
pub fn create_cell_with_links(
    m: &mut SCLDataMap,
    text1: &str,
    text2: &str,
    link1: SCLRef,
    link2: SCLRef,
) -> (r: SCLRef)
    requires
        old(m).wf(),
        has_room(old(m)@),
        old(m)@.cells.contains_key(link1@),
        old(m)@.cells.contains_key(link2@),
    ensures
        final(m).wf(),
        r@ == old(m)@.next_id,
        final(m)@ == with_new_cell(old(m)@, new_cell(text1@, text2@, Some(link1@), Some(link2@))),
{
    let id = m.alloc_cell(
        String::from_str(text1),
        String::from_str(text2),
        Some(link1.id),
        Some(link2.id),
    );
    SCLRef { id }
}


// ---------------------------------------------------------------------------
// Dumps
// ---------------------------------------------------------------------------

/// Two labelled text lines of a cell.
pub open spec fn text_lines(c: CellView, label1: Seq<char>, label2: Seq<char>) -> Seq<char> {
    label1 + c.text1 + "\n"@ + label2 + c.text2 + "\n"@
}

/// The lines for a link of a linked cell: its texts only.
pub open spec fn inner_link_lines(
    v: StoreView,
    link: Option<nat>,
    head: Seq<char>,
    label1: Seq<char>,
    label2: Seq<char>,
    empty: Seq<char>,
) -> Seq<char> {
    match link {
        Some(id) => head + text_lines(v.cells[id], label1, label2),
        None => empty,
    }
}

/// The lines for the first link of a cell.
pub open spec fn link1_lines(v: StoreView, link: Option<nat>) -> Seq<char> {
    match link {
        Some(id) => "- link 1 info:\n"@ + text_lines(
            v.cells[id],
            "  link 1 info - text 1: "@,
            "  link 1 info - text 2: "@,
        ) + inner_link_lines(
            v,
            v.cells[id].link1,
            "  - link 1 -> link 1 info - text only:\n"@,
            "    link 1 -> link 1 info - text 1: "@,
            "    link 1 -> link 1 info - text 2: "@,
            "  - link 1 -> link 1 - empty\n"@,
        ) + inner_link_lines(
            v,
            v.cells[id].link2,
            "  - link 1 -> link 2 info - text only:\n"@,
            "    link 1 -> link 2 info - text 1: "@,
            "    link 1 -> link 2 info - text 2: "@,
            "  - link 1 -> link 2 - empty\n"@,
        ),
        None => "- link 1 - empty\n"@,
    }
}

/// The lines for the second link of a cell.
pub open spec fn link2_lines(v: StoreView, link: Option<nat>) -> Seq<char> {
    match link {
        Some(id) => "- link 2 info:\n"@ + text_lines(
            v.cells[id],
            "  link 2 info - text 1: "@,
            "  link 2 info - text 2: "@,
        ) + inner_link_lines(
            v,
            v.cells[id].link1,
            "  - link 2 -> link 1 info - text only:\n"@,
            "    link 2 -> link 1 info - text 1: "@,
            "    link 2 -> link 1 info - text 2: "@,
            "  - link 2 -> link 1 - empty\n"@,
        ) + inner_link_lines(
            v,
            v.cells[id].link2,
            "  - link 2 -> link 2 info - text only:\n"@,
            "    link 2 -> link 2 info - text 1: "@,
            "    link 2 -> link 2 info - text 2: "@,
            "  - link 2 -> link 2 - empty\n"@,
        ),
        None => "- link 2 - empty\n"@,
    }
}

/// The dump of the cell `id`: its texts, then for each link the linked
/// cell's texts and the texts of the cells that one links to.
pub open spec fn dump_view(v: StoreView, id: nat) -> Seq<char> {
    text_lines(v.cells[id], "- text 1: "@, "- text 2: "@) + link1_lines(v, v.cells[id].link1)
        + link2_lines(v, v.cells[id].link2)
}

impl SCLDataMap {
    /// The live cell `id`.
    fn cell(&self, id: usize) -> (c: &Cell)
        requires
            self.wf(),
            self@.cells.contains_key(id as nat),
        ensures
            cell_view(*c) == self@.cells[id as nat],
            c.link1 matches Some(j) ==> self@.cells.contains_key(j as nat),
            c.link2 matches Some(j) ==> self@.cells.contains_key(j as nat),
    {
        self.cells[id].as_ref().unwrap()
    }

    fn append_text_lines(&self, out: &mut String, id: usize, label1: &str, label2: &str)
        requires
            self.wf(),
            self@.cells.contains_key(id as nat),
        ensures
            final(out)@ == old(out)@ + text_lines(self@.cells[id as nat], label1@, label2@),
    {
        let c = self.cell(id);
        out.append(label1);
        out.append(c.text1.as_str());
        out.append("\n");
        out.append(label2);
        out.append(c.text2.as_str());
        out.append("\n");
        proof {
            assert(final(out)@ =~= old(out)@ + text_lines(self@.cells[id as nat], label1@, label2@));
        }
    }

    fn append_inner_link_lines(
        &self,
        out: &mut String,
        link: Option<usize>,
        head: &str,
        label1: &str,
        label2: &str,
        empty: &str,
    )
        requires
            self.wf(),
            link matches Some(j) ==> self@.cells.contains_key(j as nat),
        ensures
            final(out)@ == old(out)@ + inner_link_lines(
                self@,
                opt_nat(link),
                head@,
                label1@,
                label2@,
                empty@,
            ),
    {
        match link {
            Some(j) => {
                out.append(head);
                self.append_text_lines(out, j, label1, label2);
                proof {
                    assert(final(out)@ =~= old(out)@ + inner_link_lines(
                        self@,
                        opt_nat(link),
                        head@,
                        label1@,
                        label2@,
                        empty@,
                    ));
                }
            },
            None => {
                out.append(empty);
            },
        }
    }

    fn append_link1_lines(&self, out: &mut String, link: Option<usize>)
        requires
            self.wf(),
            link matches Some(j) ==> self@.cells.contains_key(j as nat),
        ensures
            final(out)@ == old(out)@ + link1_lines(self@, opt_nat(link)),
    {
        match link {
            Some(j) => {
                let c = self.cell(j);
                out.append("- link 1 info:\n");
                self.append_text_lines(out, j, "  link 1 info - text 1: ", "  link 1 info - text 2: ");
                self.append_inner_link_lines(
                    out,
                    c.link1,
                    "  - link 1 -> link 1 info - text only:\n",
                    "    link 1 -> link 1 info - text 1: ",
                    "    link 1 -> link 1 info - text 2: ",
                    "  - link 1 -> link 1 - empty\n",
                );
                self.append_inner_link_lines(
                    out,
                    c.link2,
                    "  - link 1 -> link 2 info - text only:\n",
                    "    link 1 -> link 2 info - text 1: ",
                    "    link 1 -> link 2 info - text 2: ",
                    "  - link 1 -> link 2 - empty\n",
                );
                proof {
                    assert(final(out)@ =~= old(out)@ + link1_lines(self@, opt_nat(link)));
                }
            },
            None => {
                out.append("- link 1 - empty\n");
            },
        }
    }

    fn append_link2_lines(&self, out: &mut String, link: Option<usize>)
        requires
            self.wf(),
            link matches Some(j) ==> self@.cells.contains_key(j as nat),
        ensures
            final(out)@ == old(out)@ + link2_lines(self@, opt_nat(link)),
    {
        match link {
            Some(j) => {
                let c = self.cell(j);
                out.append("- link 2 info:\n");
                self.append_text_lines(out, j, "  link 2 info - text 1: ", "  link 2 info - text 2: ");
                self.append_inner_link_lines(
                    out,
                    c.link1,
                    "  - link 2 -> link 1 info - text only:\n",
                    "    link 2 -> link 1 info - text 1: ",
                    "    link 2 -> link 1 info - text 2: ",
                    "  - link 2 -> link 1 - empty\n",
                );
                self.append_inner_link_lines(
                    out,
                    c.link2,
                    "  - link 2 -> link 2 info - text only:\n",
                    "    link 2 -> link 2 info - text 1: ",
                    "    link 2 -> link 2 info - text 2: ",
                    "  - link 2 -> link 2 - empty\n",
                );
                proof {
                    assert(final(out)@ =~= old(out)@ + link2_lines(self@, opt_nat(link)));
                }
            },
            None => {
                out.append("- link 2 - empty\n");
            },
        }
    }

    /// Appends the dump of the live cell `id`.
    fn append_dump(&self, out: &mut String, id: usize)
        requires
            self.wf(),
            self@.cells.contains_key(id as nat),
        ensures
            final(out)@ == old(out)@ + dump_view(self@, id as nat),
    {
        let c = self.cell(id);
        self.append_text_lines(out, id, "- text 1: ", "- text 2: ");
        self.append_link1_lines(out, c.link1);
        self.append_link2_lines(out, c.link2);
        proof {
            assert(final(out)@ =~= old(out)@ + dump_view(self@, id as nat));
        }
    }
}

impl SCLRef {
    /// The first text of the cell.
    pub fn get_text1(&self, m: &SCLDataMap) -> (t: String)
        requires
            m.wf(),
            m@.cells.contains_key(self@),
        ensures
            t@ == m@.cells[self@].text1,
    {
        m.cell(self.id).text1.clone()
    }

    /// The second text of the cell.
    pub fn get_text2(&self, m: &SCLDataMap) -> (t: String)
        requires
            m.wf(),
            m@.cells.contains_key(self@),
        ensures
            t@ == m@.cells[self@].text2,
    {
        m.cell(self.id).text2.clone()
    }

    /// The cell the first link leads to, if any.
    pub fn get_link1(&self, m: &SCLDataMap) -> (r: Option<SCLRef>)
        requires
            m.wf(),
            m@.cells.contains_key(self@),
        ensures
            ref_id(r) == m@.cells[self@].link1,
            r matches Some(x) ==> m@.cells.contains_key(x@),
    {
        match m.cell(self.id).link1 {
            Some(id) => Some(SCLRef { id }),
            None => None,
        }
    }

    /// The cell the second link leads to, if any.
    pub fn get_link2(&self, m: &SCLDataMap) -> (r: Option<SCLRef>)
        requires
            m.wf(),
            m@.cells.contains_key(self@),
        ensures
            ref_id(r) == m@.cells[self@].link2,
            r matches Some(x) ==> m@.cells.contains_key(x@),
    {
        match m.cell(self.id).link2 {
            Some(id) => Some(SCLRef { id }),
            None => None,
        }
    }

    /// Replaces the texts and links of the cell. No cell is dropped here:
    /// see [`SCLDataMap::collect_unreachable`].
    pub fn update_data(
        &self,
        m: &mut SCLDataMap,
        text1: &str,
        text2: &str,
        link1: Option<SCLRef>,
        link2: Option<SCLRef>,
    )
        requires
            old(m).wf(),
            old(m)@.cells.contains_key(self@),
            link1 matches Some(x) ==> old(m)@.cells.contains_key(x@),
            link2 matches Some(x) ==> old(m)@.cells.contains_key(x@),
        ensures
            final(m).wf(),
            final(m)@ == with_cell(
                old(m)@,
                self@,
                new_cell(text1@, text2@, ref_id(link1), ref_id(link2)),
            ),
    {
        let l1 = match link1 {
            Some(x) => Some(x.id),
            None => None,
        };
        let l2 = match link2 {
            Some(x) => Some(x.id),
            None => None,
        };
        m.replace_cell(self.id, String::from_str(text1), String::from_str(text2), l1, l2);
    }

    /// A text dump of the cell, its linked cells and their links' texts.
    pub fn get_dump(&self, m: &SCLDataMap) -> (d: String)
        requires
            m.wf(),
            m@.cells.contains_key(self@),
        ensures
            d@ == dump_view(m@, self@),
    {
        let mut out = String::new();
        m.append_dump(&mut out, self.id);
        proof {
            assert(out@ =~= dump_view(m@, self@));
        }
        out
    }
}


// ---------------------------------------------------------------------------
// Report of dropped cells
// ---------------------------------------------------------------------------

/// The decimal digit `d`.
pub open spec fn digit_text(d: nat) -> Seq<char> {
    if d == 0 {
        "0"@
    } else if d == 1 {
        "1"@
    } else if d == 2 {
        "2"@
    } else if d == 3 {
        "3"@
    } else if d == 4 {
        "4"@
    } else if d == 5 {
        "5"@
    } else if d == 6 {
        "6"@
    } else if d == 7 {
        "7"@
    } else if d == 8 {
        "8"@
    } else {
        "9"@
    }
}

/// The decimal notation of `n`, without leading zeros.
pub open spec fn decimal(n: nat) -> Seq<char>
    decreases n,
{
    if n < 10 {
        digit_text(n)
    } else {
        decimal(n / 10) + digit_text(n % 10)
    }
}

/// The lines that report the drop of cell `c` as the `count`-th dropped cell.
pub open spec fn drop_block(c: CellView, count: nat) -> Seq<char> {
    "DROP CELL DATA with info:\n- text 1: "@ + c.text1 + "\n- text 2: "@ + c.text2
        + "\nDROP CELL COUNT: "@ + decimal(count) + "\n--- --- ---\n"@
}

/// The report of the cells with identity `i` or more that collection drops,
/// in the order of their identities, counting on from `count`.
pub open spec fn drop_report_from(v: StoreView, i: nat, count: nat) -> Seq<char>
    decreases v.next_id - i,
{
    if i < v.next_id {
        if v.cells.contains_key(i) && !reachable(v, i) {
            drop_block(v.cells[i], count + 1) + drop_report_from(v, i + 1, count + 1)
        } else {
            drop_report_from(v, i + 1, count)
        }
    } else {
        Seq::empty()
    }
}

/// The report of every cell that collection drops, in the order of their
/// identities, each with the value the drop counter takes at its drop.
pub open spec fn drop_report(v: StoreView) -> Seq<char> {
    drop_report_from(v, 0, v.drop_count as nat)
}

fn append_digit(out: &mut String, d: u128)
    requires
        d < 10,
    ensures
        final(out)@ == old(out)@ + digit_text(d as nat),
{
    if d == 0 {
        out.append("0");
    } else if d == 1 {
        out.append("1");
    } else if d == 2 {
        out.append("2");
    } else if d == 3 {
        out.append("3");
    } else if d == 4 {
        out.append("4");
    } else if d == 5 {
        out.append("5");
    } else if d == 6 {
        out.append("6");
    } else if d == 7 {
        out.append("7");
    } else if d == 8 {
        out.append("8");
    } else {
        out.append("9");
    }
}

fn append_decimal(out: &mut String, n: u128)
    ensures
        final(out)@ == old(out)@ + decimal(n as nat),
    decreases n,
{
    if n >= 10 {
        append_decimal(out, n / 10);
    }
    append_digit(out, n % 10);
    proof {
        assert(final(out)@ =~= old(out)@ + decimal(n as nat));
    }
}

impl SCLDataMap {
    /// The report of the cells that [`SCLDataMap::collect_unreachable`]
    /// would drop now: for each, in the order of identities, its texts and
    /// the value of the drop counter after its drop.
    pub fn dropped_cells_report(&self) -> (r: String)
        requires
            self.wf(),
        ensures
            r@ == drop_report(self@),
    {
        proof {
            self.lemma_wf_closed();
        }
        let ghost v = self@;
        let marked = self.mark_reachable();
        let n = self.cells.len();
        let mut count: u128 = self.drop_count as u128;
        let mut out = String::new();
        let mut i: usize = 0;
        while i < n
            invariant
                self.wf(),
                v == self@,
                i <= n,
                n == self.cells@.len(),
                marked@.len() == n,
                forall|j: int| 0 <= j < n ==> (marked@[j] <==> reachable(v, j as nat)),
                count <= self.drop_count + i,
                drop_report(v) == out@ + drop_report_from(v, i as nat, count as nat),
            decreases n - i,
        {
            let live = match &self.cells[i] {
                Some(_) => true,
                None => false,
            };
            assert(live <==> v.cells.contains_key(i as nat));
            if live && !marked[i] {
                let c = self.cell(i);
                let ghost before = out@;
                count = count + 1;
                out.append("DROP CELL DATA with info:\n- text 1: ");
                out.append(c.text1.as_str());
                out.append("\n- text 2: ");
                out.append(c.text2.as_str());
                out.append("\nDROP CELL COUNT: ");
                append_decimal(&mut out, count);
                out.append("\n--- --- ---\n");
                proof {
                    let rest = drop_report_from(v, (i + 1) as nat, count as nat);
                    assert(out@ =~= before + drop_block(v.cells[i as nat], count as nat));
                    assert(out@ + rest =~= before + (drop_block(v.cells[i as nat], count as nat)
                        + rest));
                }
            }
            i = i + 1;
        }
        out
    }
}

// ---------------------------------------------------------------------------
// Facts about collection
// ---------------------------------------------------------------------------

/// Collection keeps every cell that a symbol is bound to.
pub proof fn lemma_collected_keeps_symbol_cells(v: StoreView)
    requires
        forall|k: Seq<char>| #[trigger] v.symbols.contains_key(k) ==> v.cells.contains_key(v.symbols[k]),
    ensures
        forall|k: Seq<char>| #[trigger]
            v.symbols.contains_key(k) ==> collected(v).cells.contains_key(v.symbols[k]),
{
    assert forall|k: Seq<char>| #[trigger] v.symbols.contains_key(k) implies collected(
        v,
    ).cells.contains_key(v.symbols[k]) by {
        assert(is_root(v.symbols, v.symbols[k]));
        lemma_root_reachable(v, v.symbols[k]);
    }
}

/// Every prefix of a walk from a symbol is itself such a walk.
proof fn lemma_path_prefix(v: StoreView, p: Seq<nat>, n: int)
    requires
        p.len() > 0,
        is_root(v.symbols, p[0]),
        is_path(v.cells, p),
        0 < n <= p.len(),
    ensures
        reaches(v, p.subrange(0, n), p[n - 1]),
{
    let q = p.subrange(0, n);
    assert(q[0] == p[0]);
    assert forall|k: int| 0 <= k < q.len() implies v.cells.contains_key(#[trigger] q[k]) by {
        assert(q[k] == p[k]);
    }
    assert forall|k: int| 0 <= k < q.len() - 1 implies #[trigger] path_step(v.cells, q, k) by {
        assert(path_step(v.cells, p, k));
        assert(q[k] == p[k] && q[k + 1] == p[k + 1]);
    }
}

/// After collection, every live cell is reachable from some symbol.
pub proof fn lemma_collected_all_reachable(v: StoreView)
    ensures
        all_reachable(collected(v)),
{
    let w = collected(v);
    let reach = reachable_set(v);
    assert forall|id: nat| w.cells.contains_key(id) implies reachable(w, id) by {
        let p = choose|p: Seq<nat>| #[trigger] reaches(v, p, id);
        assert forall|k: int| 0 <= k < p.len() implies w.cells.contains_key(#[trigger] p[k]) by {
            lemma_path_prefix(v, p, k + 1);
            assert(reaches(v, p.subrange(0, k + 1), p[k]));
            assert(reachable(v, p[k]));
        }
        assert forall|k: int| 0 <= k < p.len() - 1 implies #[trigger] path_step(w.cells, p, k) by {
            assert(path_step(v.cells, p, k));
            assert(w.cells.contains_key(p[k]));
        }
        assert(reaches(w, p, id));
    }
}


impl SCLDataMap {
    /// Whether one more cell can be created.
    pub fn cell_capacity_left(&self) -> (b: bool)
        requires
            self.wf(),
        ensures
            b == has_room(self@),
    {
        (self.drop_count as usize) + self.live < MAX_CELLS
    }

    /// The number of bound symbols.
    pub fn len(&self) -> (n: usize)
        requires
            self.wf(),
        ensures
            n == self@.symbols.dom().len(),
    {
        self.symbols.len()
    }

    /// Whether no symbol is bound.
    pub fn is_empty(&self) -> (b: bool)
        requires
            self.wf(),
        ensures
            b <==> self@.symbols.dom().is_empty(),
    {
        proof {
            if self@.symbols.dom().len() == 0 {
                self@.symbols.dom().lemma_len0_is_empty();
            }
        }
        self.symbols.len() == 0
    }

    /// The number of live cells.
    pub fn live_cell_count(&self) -> (n: usize)
        requires
            self.wf(),
        ensures
            n == self@.cells.dom().len(),
    {
        self.live
    }
}

} // verus!

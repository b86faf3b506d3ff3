use vstd::prelude::*;

use crate::sclang::grammar::{
    command_name_at, is_alpha, is_string_char, matches_at, is_symbol_char, parse_cell_value, parse_command, parse_refs,
    skip_spaces, string_body_end, string_end, symbol_end, symbol_tail_end, CellValue,
    CellValueView, Command, CommandKind, CommandView,
};

verus! {

// ---------------------------------------------------------------------------
// Writing commands as text
// ---------------------------------------------------------------------------

/// The name of a command as a line spells it.
pub open spec fn command_name_text(k: CommandKind) -> Seq<char> {
    match k {
        CommandKind::StoreData => "store-data"@,
        CommandKind::ShowData => "show-data"@,
        CommandKind::UpdateData => "update-data"@,
        CommandKind::DropSymbol => "drop-symbol"@,
        CommandKind::EnableFeature => "enable-feature"@,
    }
}

/// `a` is a symbol: a letter, then letters, digits and hyphens.
pub open spec fn is_symbol(a: Seq<char>) -> bool {
    &&& a.len() > 0
    &&& is_alpha(a[0])
    &&& forall|k: int| 0 <= k < a.len() ==> is_symbol_char(#[trigger] a[k])
}

/// `t` is a string value: quotes around characters other than quotes and
/// backslashes.
pub open spec fn is_quoted(t: Seq<char>) -> bool {
    &&& t.len() >= 2
    &&& t[0] == '"'
    &&& t[t.len() - 1] == '"'
    &&& forall|k: int| 0 < k < t.len() - 1 ==> is_string_char(#[trigger] t[k])
}

/// The parts of a cell value are a symbol pair and string values.
pub open spec fn value_well_formed(v: CellValueView) -> bool {
    &&& is_quoted(v.text1)
    &&& is_quoted(v.text2)
    &&& (v.refs matches Some((a, b)) ==> is_symbol(a) && is_symbol(b))
}

/// The parts of a command can be written in a line.
pub open spec fn command_well_formed(c: CommandView) -> bool {
    &&& is_symbol(c.arg)
    &&& (c.value matches Some(v) ==> value_well_formed(v))
}

/// The text of the symbol pair of a cell value.
pub open spec fn refs_text(r: Option<(Seq<char>, Seq<char>)>) -> Seq<char> {
    match r {
        Some((a, b)) => " ("@ + a + " "@ + b + ")"@,
        None => Seq::empty(),
    }
}

/// The text of a cell value.
pub open spec fn value_text(v: CellValueView) -> Seq<char> {
    "("@ + v.text1 + " "@ + v.text2 + refs_text(v.refs) + ")"@
}

/// A command written as a line, one space between its items.
pub open spec fn command_text(c: CommandView) -> Seq<char> {
    match c.value {
        Some(v) => "("@ + command_name_text(c.kind) + " "@ + c.arg + " "@ + value_text(v) + ")"@,
        None => "("@ + command_name_text(c.kind) + " "@ + c.arg + ")"@,
    }
}

// ---------------------------------------------------------------------------
// Reading the pieces back
// ---------------------------------------------------------------------------

/// `piece` stands in `s` from position `i` on.
pub open spec fn stands_at(s: Seq<char>, i: int, piece: Seq<char>) -> bool {
    0 <= i && i + piece.len() <= s.len() && forall|k: int|
        0 <= k < piece.len() ==> s[i + k] == #[trigger] piece[k]
}

proof fn lemma_symbol_tail(s: Seq<char>, i: int, e: int)
    requires
        0 <= i <= e <= s.len(),
        forall|k: int| i <= k < e ==> is_symbol_char(#[trigger] s[k]),
        e == s.len() || !is_symbol_char(s[e]),
    ensures
        symbol_tail_end(s, i) == e,
    decreases e - i,
{
    if i < e {
        assert(is_symbol_char(s[i]));
        lemma_symbol_tail(s, i + 1, e);
    }
}

proof fn lemma_string_body(s: Seq<char>, i: int, e: int)
    requires
        0 <= i <= e < s.len(),
        forall|k: int| i <= k < e ==> is_string_char(#[trigger] s[k]),
        s[e] == '"',
    ensures
        string_body_end(s, i) == e,
    decreases e - i,
{
    if i < e {
        assert(is_string_char(s[i]));
        lemma_string_body(s, i + 1, e);
    }
}

/// A symbol that stands at `i`, followed by a character that cannot
/// continue it, is read back whole.
proof fn lemma_symbol_at(s: Seq<char>, i: int, a: Seq<char>)
    requires
        is_symbol(a),
        stands_at(s, i, a),
        i + a.len() < s.len(),
        !is_symbol_char(s[i + a.len()]),
    ensures
        symbol_end(s, i) == Some(i + a.len()),
        s.subrange(i, i + a.len()) == a,
{
    assert(s[i + 0] == a[0]);
    assert forall|k: int| i + 1 <= k < i + a.len() implies is_symbol_char(#[trigger] s[k]) by {
        assert(s[i + (k - i)] == a[k - i]);
    }
    lemma_symbol_tail(s, i + 1, i + a.len());
    assert(s.subrange(i, i + a.len()) =~= a) by {
        assert forall|k: int| 0 <= k < a.len() implies s.subrange(i, i + a.len())[k] == a[k] by {
            assert(s[i + k] == a[k]);
        }
    }
}

/// A string value that stands at `i` is read back whole.
proof fn lemma_string_at(s: Seq<char>, i: int, t: Seq<char>)
    requires
        is_quoted(t),
        stands_at(s, i, t),
    ensures
        string_end(s, i) == Some(i + t.len()),
        s.subrange(i, i + t.len()) == t,
{
    assert(s[i + 0] == t[0]);
    assert(s[i + (t.len() - 1)] == t[t.len() - 1]);
    assert forall|k: int| i + 1 <= k < i + t.len() - 1 implies is_string_char(#[trigger] s[k]) by {
        assert(s[i + (k - i)] == t[k - i]);
    }
    lemma_string_body(s, i + 1, i + t.len() - 1);
    assert(s.subrange(i, i + t.len()) =~= t) by {
        assert forall|k: int| 0 <= k < t.len() implies s.subrange(i, i + t.len())[k] == t[k] by {
            assert(s[i + k] == t[k]);
        }
    }
}


proof fn lemma_skip_none(s: Seq<char>, i: int)
    requires
        0 <= i < s.len(),
        s[i] != ' ',
    ensures
        skip_spaces(s, i) == i,
{
}

proof fn lemma_skip_one(s: Seq<char>, i: int)
    requires
        0 <= i,
        i + 1 < s.len(),
        s[i] == ' ',
        s[i + 1] != ' ',
    ensures
        skip_spaces(s, i) == i + 1,
{
    lemma_skip_none(s, i + 1);
}

proof fn lemma_stands_extend(x: Seq<char>, y: Seq<char>, i: int, q: Seq<char>)
    requires
        stands_at(x, i, q),
    ensures
        stands_at(x + y, i, q),
{
    assert forall|k: int| 0 <= k < q.len() implies (x + y)[i + k] == #[trigger] q[k] by {
        assert(x[i + k] == q[k]);
    }
}

proof fn lemma_stands_end(x: Seq<char>, q: Seq<char>)
    ensures
        stands_at(x + q, x.len() as int, q),
{
    assert forall|k: int| 0 <= k < q.len() implies (x + q)[x.len() + k] == #[trigger] q[k] by {}
}

proof fn lemma_stands_inner(s: Seq<char>, i: int, p: Seq<char>, j: int, q: Seq<char>)
    requires
        stands_at(s, i, p),
        stands_at(p, j, q),
    ensures
        stands_at(s, i + j, q),
{
    assert forall|k: int| 0 <= k < q.len() implies s[i + j + k] == #[trigger] q[k] by {
        assert(p[j + k] == q[k]);
        assert(s[i + (j + k)] == p[j + k]);
    }
}

/// The symbol pair `(a b)` that stands at `i` is read back.
proof fn lemma_refs_at(s: Seq<char>, i: int, a: Seq<char>, b: Seq<char>)
    requires
        is_symbol(a),
        is_symbol(b),
        stands_at(s, i, "("@ + a + " "@ + b + ")"@),
    ensures
        parse_refs(s, i) == Some(((a, b), i + a.len() + b.len() + 3)),
{
    reveal_strlit("(");
    reveal_strlit(" ");
    reveal_strlit(")");
    let r = "("@ + a + " "@ + b + ")"@;
    let la = a.len() as int;
    let lb = b.len() as int;
    assert(r.len() == la + lb + 3);
    assert(s[i + 0] == r[0]);
    lemma_stands_end("("@, a);
    lemma_stands_extend("("@ + a, " "@ + b + ")"@, 1, a);
    assert(("("@ + a) + (" "@ + b + ")"@) =~= r);
    lemma_stands_inner(s, i, r, 1, a);
    assert(s[i + (1 + la)] == r[1 + la]);
    assert(r[1 + la] == ' ');
    lemma_stands_end("("@ + a + " "@, b);
    lemma_stands_extend("("@ + a + " "@ + b, ")"@, 2 + la, b);
    lemma_stands_inner(s, i, r, 2 + la, b);
    assert(s[i + (2 + la + lb)] == r[2 + la + lb]);
    assert(r[2 + la + lb] == ')');
    assert(s[i + 1] == a[0]);
    lemma_skip_none(s, i + 1);
    lemma_symbol_at(s, i + 1, a);
    assert(s[i + 2 + la] == b[0]);
    lemma_skip_one(s, i + 1 + la);
    lemma_symbol_at(s, i + 2 + la, b);
    lemma_skip_none(s, i + 2 + la + lb);
}


/// A cell value written as text that stands at `i` is read back.
proof fn lemma_value_at(s: Seq<char>, i: int, v: CellValueView)
    requires
        value_well_formed(v),
        stands_at(s, i, value_text(v)),
    ensures
        parse_cell_value(s, i) == Some((v, i + value_text(v).len())),
{
    reveal_strlit("(");
    reveal_strlit(" ");
    reveal_strlit(")");
    reveal_strlit(" (");
    let t = value_text(v);
    let rt = refs_text(v.refs);
    let l1 = v.text1.len() as int;
    let l2 = v.text2.len() as int;
    let f = 2 + l1 + l2;
    assert(t.len() == f + rt.len() + 1);
    assert(s[i + 0] == t[0]);
    // the first text
    lemma_stands_end("("@, v.text1);
    lemma_stands_extend("("@ + v.text1, " "@ + v.text2 + rt + ")"@, 1, v.text1);
    assert(("("@ + v.text1) + (" "@ + v.text2 + rt + ")"@) =~= t);
    lemma_stands_inner(s, i, t, 1, v.text1);
    assert(s[i + 1] == v.text1[0]);
    lemma_skip_none(s, i + 1);
    lemma_string_at(s, i + 1, v.text1);
    // the second text
    assert(s[i + (1 + l1)] == t[1 + l1]);
    assert(t[1 + l1] == ' ');
    lemma_stands_end("("@ + v.text1 + " "@, v.text2);
    lemma_stands_extend("("@ + v.text1 + " "@ + v.text2, rt + ")"@, 2 + l1, v.text2);
    assert(("("@ + v.text1 + " "@ + v.text2) + (rt + ")"@) =~= t);
    lemma_stands_inner(s, i, t, 2 + l1, v.text2);
    assert(s[i + (2 + l1)] == v.text2[0]);
    lemma_skip_one(s, i + 1 + l1);
    lemma_string_at(s, i + 2 + l1, v.text2);
    // the closing parenthesis
    assert(s[i + (f + rt.len())] == t[f + rt.len()]);
    assert(t[f + rt.len()] == ')');
    match v.refs {
        Some((a, b)) => {
            let r = "("@ + a + " "@ + b + ")"@;
            assert(rt =~= " "@ + r);
            lemma_stands_end("("@ + v.text1 + " "@ + v.text2 + " "@, r);
            lemma_stands_extend("("@ + v.text1 + " "@ + v.text2 + " "@ + r, ")"@, f + 1, r);
            assert("("@ + v.text1 + " "@ + v.text2 + " "@ + r + ")"@ =~= t);
            lemma_stands_inner(s, i, t, f + 1, r);
            assert(s[i + f] == t[f]);
            assert(t[f] == ' ');
            assert(s[i + (f + 1)] == r[0]);
            assert(r[0] == '(');
            lemma_skip_one(s, i + f);
            lemma_refs_at(s, i + f + 1, a, b);
            lemma_skip_none(s, i + f + rt.len());
        },
        None => {
            assert(rt.len() == 0);
            lemma_skip_none(s, i + f);
        },
    }
}

/// The name of a command that stands at `i` is read back.
proof fn lemma_name_at(s: Seq<char>, i: int, k: CommandKind)
    requires
        stands_at(s, i, command_name_text(k)),
    ensures
        command_name_at(s, i) == Some((k, i + command_name_text(k).len())),
{
    reveal_strlit("store-data");
    reveal_strlit("show-data");
    reveal_strlit("update-data");
    reveal_strlit("drop-symbol");
    reveal_strlit("enable-feature");
    let n = command_name_text(k);
    assert(s.subrange(i, i + n.len()) =~= n) by {
        assert forall|j: int| 0 <= j < n.len() implies s.subrange(i, i + n.len())[j] == n[j] by {
            assert(s[i + j] == n[j]);
        }
    }
    assert(s[i + 0] == n[0]);
    let st = "store-data"@;
    let sh = "show-data"@;
    let up = "update-data"@;
    let dr = "drop-symbol"@;
    assert(matches_at(s, i, n));
    assert(s[i + 1] == n[1]);
    match k {
        CommandKind::StoreData => {},
        CommandKind::ShowData => {
            assert(!matches_at(s, i, st)) by {
                if matches_at(s, i, st) {
                    assert(s.subrange(i, i + st.len())[1] == st[1]);
                }
            }
        },
        CommandKind::UpdateData => {
            assert(!matches_at(s, i, st)) by {
                if matches_at(s, i, st) {
                    assert(s.subrange(i, i + st.len())[0] == st[0]);
                }
            }
            assert(!matches_at(s, i, sh)) by {
                if matches_at(s, i, sh) {
                    assert(s.subrange(i, i + sh.len())[0] == sh[0]);
                }
            }
        },
        CommandKind::DropSymbol => {
            assert(!matches_at(s, i, st)) by {
                if matches_at(s, i, st) {
                    assert(s.subrange(i, i + st.len())[0] == st[0]);
                }
            }
            assert(!matches_at(s, i, sh)) by {
                if matches_at(s, i, sh) {
                    assert(s.subrange(i, i + sh.len())[0] == sh[0]);
                }
            }
            assert(!matches_at(s, i, up)) by {
                if matches_at(s, i, up) {
                    assert(s.subrange(i, i + up.len())[0] == up[0]);
                }
            }
        },
        CommandKind::EnableFeature => {
            assert(!matches_at(s, i, st)) by {
                if matches_at(s, i, st) {
                    assert(s.subrange(i, i + st.len())[0] == st[0]);
                }
            }
            assert(!matches_at(s, i, sh)) by {
                if matches_at(s, i, sh) {
                    assert(s.subrange(i, i + sh.len())[0] == sh[0]);
                }
            }
            assert(!matches_at(s, i, up)) by {
                if matches_at(s, i, up) {
                    assert(s.subrange(i, i + up.len())[0] == up[0]);
                }
            }
            assert(!matches_at(s, i, dr)) by {
                if matches_at(s, i, dr) {
                    assert(s.subrange(i, i + dr.len())[0] == dr[0]);
                }
            }
        },
    }
}



proof fn lemma_name_text(k: CommandKind)
    ensures
        command_name_text(k).len() > 0,
        command_name_text(k)[0] != ' ',
{
    reveal_strlit("store-data");
    reveal_strlit("show-data");
    reveal_strlit("update-data");
    reveal_strlit("drop-symbol");
    reveal_strlit("enable-feature");
    match k {
        CommandKind::StoreData => {},
        CommandKind::ShowData => {},
        CommandKind::UpdateData => {},
        CommandKind::DropSymbol => {},
        CommandKind::EnableFeature => {},
    }
}

/// The opening parenthesis, the name and the argument of a command line
/// `head + tail` are read back.
proof fn lemma_head_at(s: Seq<char>, c: CommandView, tail: Seq<char>)
    requires
        is_symbol(c.arg),
        tail.len() > 0,
        !is_symbol_char(tail[0]),
        s == "("@ + command_name_text(c.kind) + " "@ + c.arg + tail,
    ensures
        s[0] == '(',
        skip_spaces(s, 1) == 1,
        command_name_at(s, 1) == Some((c.kind, 1int + command_name_text(c.kind).len())),
        skip_spaces(s, 1int + command_name_text(c.kind).len()) == 2 + command_name_text(c.kind).len(),
        symbol_end(s, 2int + command_name_text(c.kind).len()) == Some(
            2int + command_name_text(c.kind).len() + c.arg.len(),
        ),
        s.subrange(
            2int + command_name_text(c.kind).len(),
            2int + command_name_text(c.kind).len() + c.arg.len(),
        ) == c.arg,
        stands_at(s, 2int + command_name_text(c.kind).len() + c.arg.len(), tail),
{
    reveal_strlit("(");
    reveal_strlit(" ");
    let n = command_name_text(c.kind);
    let nl = n.len() as int;
    let al = c.arg.len() as int;
    let head = "("@ + n + " "@ + c.arg;
    lemma_name_text(c.kind);
    assert(head.len() == 2 + nl + al);
    assert(s[0] == head[0]);
    lemma_stands_end("("@, n);
    lemma_stands_extend("("@ + n, " "@ + c.arg, 1, n);
    assert(("("@ + n) + (" "@ + c.arg) =~= head);
    lemma_stands_extend(head, tail, 1, n);
    assert(s[1] == n[0]);
    lemma_skip_none(s, 1);
    lemma_name_at(s, 1, c.kind);
    assert(s[1 + nl] == head[1 + nl]);
    lemma_stands_end("("@ + n + " "@, c.arg);
    lemma_stands_extend(head, tail, 2 + nl, c.arg);
    assert(s[2 + nl] == c.arg[0]);
    lemma_skip_one(s, 1 + nl);
    lemma_stands_end(head, tail);
    assert(s[2 + nl + al] == tail[0]);
    lemma_symbol_at(s, 2 + nl, c.arg);
}

/// A well-formed command written as a line is read back as itself.
pub proof fn lemma_command_text_parses(c: CommandView)
    requires
        command_well_formed(c),
    ensures
        parse_command(command_text(c)) == Some(c),
{
    reveal_strlit("(");
    reveal_strlit(" ");
    reveal_strlit(")");
    let s = command_text(c);
    let n = command_name_text(c.kind);
    let e: int = 2int + n.len() + c.arg.len();
    match c.value {
        Some(v) => {
            let t = value_text(v);
            let tail = " "@ + t + ")"@;
            assert(s =~= "("@ + n + " "@ + c.arg + tail);
            lemma_head_at(s, c, tail);
            lemma_stands_end(" "@, t);
            lemma_stands_extend(" "@ + t, ")"@, 1, t);
            lemma_stands_inner(s, e, tail, 1, t);
            assert(s[e + 0] == tail[0]);
            assert(s[e + 1] == t[0]);
            assert(t[0] == '(');
            lemma_skip_one(s, e);
            lemma_value_at(s, e + 1, v);
            assert(s[e + (1 + t.len())] == tail[1int + t.len()]);
            lemma_skip_none(s, e + 1 + t.len());
        },
        None => {
            let tail = ")"@;
            assert(s =~= "("@ + n + " "@ + c.arg + tail);
            lemma_head_at(s, c, tail);
            assert(s[e + 0] == tail[0]);
            lemma_skip_none(s, e);
        },
    }
}

} // verus!

use vstd::prelude::*;

verus! {

// ---------------------------------------------------------------------------
// The command language
//
//   command_line     = "(" command_name command_arg cell_value? ")"
//   command_name     = "store-data" | "show-data" | "update-data"
//                    | "drop-symbol" | "enable-feature"
//   command_arg      = symbol_name
//   symbol_name      = ASCII_ALPHA (ASCII_ALPHANUMERIC | "-")*
//   cell_value       = "(" string_value string_value cell_symbol_refs? ")"
//   cell_symbol_refs = "(" symbol_name symbol_name ")"
//   string_value     = '"' (any char but '"' and '\')* '"'
//
// Spaces may stand between any two items, none before the opening
// parenthesis. Whatever follows the closing parenthesis is ignored.
// A string value keeps its quotes.
// ---------------------------------------------------------------------------

/// The five commands of the language.
#[derive(Clone, Copy)]
pub enum CommandKind {
    StoreData,
    ShowData,
    UpdateData,
    DropSymbol,
    EnableFeature,
}

/// A cell value as the contracts see it.
pub struct CellValueView {
    pub text1: Seq<char>,
    pub text2: Seq<char>,
    pub refs: Option<(Seq<char>, Seq<char>)>,
}

/// A parsed command line as the contracts see it.
pub struct CommandView {
    pub kind: CommandKind,
    pub arg: Seq<char>,
    pub value: Option<CellValueView>,
}

/// A cell value: two texts (quotes included) and optionally two symbols
/// naming the cells to link to.
pub struct CellValue {
    pub text1: String,
    pub text2: String,
    pub refs: Option<(String, String)>,
}

/// A parsed command line.
pub struct Command {
    pub kind: CommandKind,
    pub arg: String,
    pub value: Option<CellValue>,
}

impl View for CellValue {
    type V = CellValueView;

    open spec fn view(&self) -> CellValueView {
        CellValueView {
            text1: self.text1@,
            text2: self.text2@,
            refs: match self.refs {
                Some((a, b)) => Some((a@, b@)),
                None => None,
            },
        }
    }
}

impl View for Command {
    type V = CommandView;

    open spec fn view(&self) -> CommandView {
        CommandView {
            kind: self.kind,
            arg: self.arg@,
            value: match self.value {
                Some(v) => Some(v@),
                None => None,
            },
        }
    }
}

/// The view of an optional parsed command.
pub open spec fn opt_command_view(c: Option<Command>) -> Option<CommandView> {
    match c {
        Some(x) => Some(x@),
        None => None,
    }
}

pub open spec fn is_alpha(c: char) -> bool {
    ('a' <= c && c <= 'z') || ('A' <= c && c <= 'Z')
}

pub open spec fn is_symbol_char(c: char) -> bool {
    is_alpha(c) || ('0' <= c && c <= '9') || c == '-'
}

pub open spec fn is_string_char(c: char) -> bool {
    c != '"' && c != '\\'
}

/// The first position at or after `i` that is not a space.
pub open spec fn skip_spaces(s: Seq<char>, i: int) -> int
    decreases s.len() - i,
{
    if 0 <= i < s.len() && s[i] == ' ' {
        skip_spaces(s, i + 1)
    } else {
        i
    }
}

/// The first position at or after `i` that cannot continue a symbol.
pub open spec fn symbol_tail_end(s: Seq<char>, i: int) -> int
    decreases s.len() - i,
{
    if 0 <= i < s.len() && is_symbol_char(s[i]) {
        symbol_tail_end(s, i + 1)
    } else {
        i
    }
}

/// The end of the symbol that starts at `i`, if one does.
pub open spec fn symbol_end(s: Seq<char>, i: int) -> Option<int> {
    if 0 <= i < s.len() && is_alpha(s[i]) {
        Some(symbol_tail_end(s, i + 1))
    } else {
        None
    }
}

/// The first position at or after `i` that cannot continue a string's body.
pub open spec fn string_body_end(s: Seq<char>, i: int) -> int
    decreases s.len() - i,
{
    if 0 <= i < s.len() && is_string_char(s[i]) {
        string_body_end(s, i + 1)
    } else {
        i
    }
}

/// The end of the quoted string that starts at `i`, if one does.
pub open spec fn string_end(s: Seq<char>, i: int) -> Option<int> {
    if 0 <= i < s.len() && s[i] == '"' {
        let j = string_body_end(s, i + 1);
        if j < s.len() && s[j] == '"' {
            Some(j + 1)
        } else {
            None
        }
    } else {
        None
    }
}

/// The text `lit` stands at position `i` of `s`.
pub open spec fn matches_at(s: Seq<char>, i: int, lit: Seq<char>) -> bool {
    0 <= i && i + lit.len() <= s.len() && s.subrange(i, i + lit.len()) == lit
}

/// The character `c` stands at position `i` of `s`.
pub open spec fn char_at(s: Seq<char>, i: int, c: char) -> bool {
    0 <= i < s.len() && s[i] == c
}

/// The command name at `i` and the position after it.
pub open spec fn command_name_at(s: Seq<char>, i: int) -> Option<(CommandKind, int)> {
    if matches_at(s, i, "store-data"@) {
        Some((CommandKind::StoreData, i + "store-data"@.len()))
    } else if matches_at(s, i, "show-data"@) {
        Some((CommandKind::ShowData, i + "show-data"@.len()))
    } else if matches_at(s, i, "update-data"@) {
        Some((CommandKind::UpdateData, i + "update-data"@.len()))
    } else if matches_at(s, i, "drop-symbol"@) {
        Some((CommandKind::DropSymbol, i + "drop-symbol"@.len()))
    } else if matches_at(s, i, "enable-feature"@) {
        Some((CommandKind::EnableFeature, i + "enable-feature"@.len()))
    } else {
        None
    }
}

/// The two symbols of `( a b )` at `i`, and the position after it.
pub open spec fn parse_refs(s: Seq<char>, i: int) -> Option<((Seq<char>, Seq<char>), int)> {
    if !char_at(s, i, '(') {
        None
    } else {
        let a0 = skip_spaces(s, i + 1);
        match symbol_end(s, a0) {
            None => None,
            Some(a1) => {
                let b0 = skip_spaces(s, a1);
                match symbol_end(s, b0) {
                    None => None,
                    Some(b1) => {
                        let c = skip_spaces(s, b1);
                        if char_at(s, c, ')') {
                            Some(((s.subrange(a0, a1), s.subrange(b0, b1)), c + 1))
                        } else {
                            None
                        }
                    },
                }
            },
        }
    }
}

/// The cell value at `i`, and the position after it.
pub open spec fn parse_cell_value(s: Seq<char>, i: int) -> Option<(CellValueView, int)> {
    if !char_at(s, i, '(') {
        None
    } else {
        let a0 = skip_spaces(s, i + 1);
        match string_end(s, a0) {
            None => None,
            Some(a1) => {
                let b0 = skip_spaces(s, a1);
                match string_end(s, b0) {
                    None => None,
                    Some(b1) => {
                        let c = skip_spaces(s, b1);
                        if char_at(s, c, '(') {
                            match parse_refs(s, c) {
                                None => None,
                                Some((refs, d)) => {
                                    let e = skip_spaces(s, d);
                                    if char_at(s, e, ')') {
                                        Some(
                                            (
                                                CellValueView {
                                                    text1: s.subrange(a0, a1),
                                                    text2: s.subrange(b0, b1),
                                                    refs: Some(refs),
                                                },
                                                e + 1,
                                            ),
                                        )
                                    } else {
                                        None
                                    }
                                },
                            }
                        } else if char_at(s, c, ')') {
                            Some(
                                (
                                    CellValueView {
                                        text1: s.subrange(a0, a1),
                                        text2: s.subrange(b0, b1),
                                        refs: None,
                                    },
                                    c + 1,
                                ),
                            )
                        } else {
                            None
                        }
                    },
                }
            },
        }
    }
}

/// The command that the line `s` begins with, if it begins with one.
pub open spec fn parse_command(s: Seq<char>) -> Option<CommandView> {
    if !char_at(s, 0, '(') {
        None
    } else {
        let a0 = skip_spaces(s, 1);
        match command_name_at(s, a0) {
            None => None,
            Some((kind, a1)) => {
                let b0 = skip_spaces(s, a1);
                match symbol_end(s, b0) {
                    None => None,
                    Some(b1) => {
                        let arg = s.subrange(b0, b1);
                        let c = skip_spaces(s, b1);
                        if char_at(s, c, '(') {
                            match parse_cell_value(s, c) {
                                None => None,
                                Some((value, d)) => {
                                    let e = skip_spaces(s, d);
                                    if char_at(s, e, ')') {
                                        Some(CommandView { kind, arg, value: Some(value) })
                                    } else {
                                        None
                                    }
                                },
                            }
                        } else if char_at(s, c, ')') {
                            Some(CommandView { kind, arg, value: None })
                        } else {
                            None
                        }
                    },
                }
            },
        }
    }
}


// ---------------------------------------------------------------------------
// The parser
// ---------------------------------------------------------------------------

spec fn opt_pos(o: Option<usize>) -> Option<int> {
    match o {
        Some(x) => Some(x as int),
        None => None,
    }
}

fn is_alpha_char(c: char) -> (b: bool)
    ensures
        b == is_alpha(c),
{
    ('a' <= c && c <= 'z') || ('A' <= c && c <= 'Z')
}

fn is_symbol_char_exec(c: char) -> (b: bool)
    ensures
        b == is_symbol_char(c),
{
    is_alpha_char(c) || ('0' <= c && c <= '9') || c == '-'
}

fn has_char_at(s: &Vec<char>, i: usize, c: char) -> (b: bool)
    ensures
        b == char_at(s@, i as int, c),
        s@.len() <= usize::MAX,
{
    i < s.len() && s[i] == c
}

fn skip_spaces_exec(s: &Vec<char>, i: usize) -> (j: usize)
    requires
        i <= s@.len(),
    ensures
        j as int == skip_spaces(s@, i as int),
        i <= j <= s@.len(),
{
    let mut j = i;
    while j < s.len() && s[j] == ' '
        invariant
            i <= j <= s@.len(),
            skip_spaces(s@, i as int) == skip_spaces(s@, j as int),
        decreases s@.len() - j,
    {
        j = j + 1;
    }
    j
}

fn symbol_end_exec(s: &Vec<char>, i: usize) -> (r: Option<usize>)
    requires
        i <= s@.len(),
    ensures
        opt_pos(r) == symbol_end(s@, i as int),
        r matches Some(j) ==> i < j <= s@.len(),
{
    if i < s.len() && is_alpha_char(s[i]) {
        let mut j = i + 1;
        while j < s.len() && is_symbol_char_exec(s[j])
            invariant
                i < j <= s@.len(),
                symbol_tail_end(s@, i + 1) == symbol_tail_end(s@, j as int),
            decreases s@.len() - j,
        {
            j = j + 1;
        }
        Some(j)
    } else {
        None
    }
}

fn string_end_exec(s: &Vec<char>, i: usize) -> (r: Option<usize>)
    requires
        i <= s@.len(),
    ensures
        opt_pos(r) == string_end(s@, i as int),
        r matches Some(j) ==> i < j <= s@.len(),
{
    if i < s.len() && s[i] == '"' {
        let mut j = i + 1;
        while j < s.len() && s[j] != '"' && s[j] != '\\'
            invariant
                i < j <= s@.len(),
                string_body_end(s@, i + 1) == string_body_end(s@, j as int),
            decreases s@.len() - j,
        {
            j = j + 1;
        }
        if j < s.len() && s[j] == '"' {
            Some(j + 1)
        } else {
            None
        }
    } else {
        None
    }
}

fn matches_literal_at(s: &Vec<char>, i: usize, lit: &str) -> (b: bool)
    requires
        i <= s@.len(),
    ensures
        b == matches_at(s@, i as int, lit@),
        s@.len() <= usize::MAX,
{
    let n = lit.unicode_len();
    if n > s.len() - i {
        return false;
    }
    let mut k: usize = 0;
    while k < n
        invariant
            n == lit@.len(),
            i + n <= s.len(),
            k <= n,
            forall|j: int| 0 <= j < k ==> s@[i + j] == lit@[j],
        decreases n - k,
    {
        if s[i + k] != lit.get_char(k) {
            assert(s@.subrange(i as int, i + n)[k as int] != lit@[k as int]);
            return false;
        }
        k = k + 1;
    }
    assert(s@.subrange(i as int, i + n) =~= lit@);
    true
}

fn command_name_exec(s: &Vec<char>, i: usize) -> (r: Option<(CommandKind, usize)>)
    requires
        i <= s@.len(),
    ensures
        match (r, command_name_at(s@, i as int)) {
            (Some((k1, j1)), Some((k2, j2))) => k1 == k2 && j1 as int == j2,
            (None, None) => true,
            _ => false,
        },
        r matches Some((_, j)) ==> i <= j <= s@.len(),
{
    if matches_literal_at(s, i, "store-data") {
        Some((CommandKind::StoreData, i + "store-data".unicode_len()))
    } else if matches_literal_at(s, i, "show-data") {
        Some((CommandKind::ShowData, i + "show-data".unicode_len()))
    } else if matches_literal_at(s, i, "update-data") {
        Some((CommandKind::UpdateData, i + "update-data".unicode_len()))
    } else if matches_literal_at(s, i, "drop-symbol") {
        Some((CommandKind::DropSymbol, i + "drop-symbol".unicode_len()))
    } else if matches_literal_at(s, i, "enable-feature") {
        Some((CommandKind::EnableFeature, i + "enable-feature".unicode_len()))
    } else {
        None
    }
}

fn substring(line: &str, from: usize, to: usize) -> (r: String)
    requires
        from <= to <= line@.len(),
    ensures
        r@ == line@.subrange(from as int, to as int),
{
    String::from_str(line.substring_char(from, to))
}

fn parse_refs_exec(line: &str, s: &Vec<char>, i: usize) -> (r: Option<((String, String), usize)>)
    requires
        s@ == line@,
        i <= s@.len(),
    ensures
        match (r, parse_refs(s@, i as int)) {
            (Some(((a, b), j1)), Some(((a2, b2), j2))) => a@ == a2 && b@ == b2 && j1 as int == j2,
            (None, None) => true,
            _ => false,
        },
        r matches Some((_, j)) ==> i < j <= s@.len(),
{
    if !has_char_at(s, i, '(') {
        return None;
    }
    let a0 = skip_spaces_exec(s, i + 1);
    let a1 = match symbol_end_exec(s, a0) {
        Some(x) => x,
        None => return None,
    };
    let b0 = skip_spaces_exec(s, a1);
    let b1 = match symbol_end_exec(s, b0) {
        Some(x) => x,
        None => return None,
    };
    let c = skip_spaces_exec(s, b1);
    if has_char_at(s, c, ')') {
        Some(((substring(line, a0, a1), substring(line, b0, b1)), c + 1))
    } else {
        None
    }
}

fn parse_cell_value_exec(line: &str, s: &Vec<char>, i: usize) -> (r: Option<(CellValue, usize)>)
    requires
        s@ == line@,
        i <= s@.len(),
    ensures
        match (r, parse_cell_value(s@, i as int)) {
            (Some((v1, j1)), Some((v2, j2))) => v1@ == v2 && j1 as int == j2,
            (None, None) => true,
            _ => false,
        },
        r matches Some((_, j)) ==> i < j <= s@.len(),
{
    if !has_char_at(s, i, '(') {
        return None;
    }
    let a0 = skip_spaces_exec(s, i + 1);
    let a1 = match string_end_exec(s, a0) {
        Some(x) => x,
        None => return None,
    };
    let b0 = skip_spaces_exec(s, a1);
    let b1 = match string_end_exec(s, b0) {
        Some(x) => x,
        None => return None,
    };
    let c = skip_spaces_exec(s, b1);
    if has_char_at(s, c, '(') {
        match parse_refs_exec(line, s, c) {
            None => None,
            Some((refs, d)) => {
                let e = skip_spaces_exec(s, d);
                if has_char_at(s, e, ')') {
                    let v = CellValue {
                        text1: substring(line, a0, a1),
                        text2: substring(line, b0, b1),
                        refs: Some(refs),
                    };
                    Some((v, e + 1))
                } else {
                    None
                }
            },
        }
    } else if has_char_at(s, c, ')') {
        let v = CellValue {
            text1: substring(line, a0, a1),
            text2: substring(line, b0, b1),
            refs: None,
        };
        Some((v, c + 1))
    } else {
        None
    }
}

/// The characters of a text.
fn chars_of(line: &str) -> (v: Vec<char>)
    ensures
        v@ == line@,
{
    let mut v: Vec<char> = Vec::new();
    for c in it: line.chars()
        invariant
            v@ == it.seq().take(it.index() as int),
            it.seq() == line@,
    {
        v.push(c);
    }
    v
}

/// Parses the command that `line` begins with; `None` when it begins with
/// none.
pub fn parse_command_line(line: &str) -> (r: Option<Command>)
    ensures
        opt_command_view(r) == parse_command(line@),
{
    let s = chars_of(line);
    if !has_char_at(&s, 0, '(') {
        return None;
    }
    let a0 = skip_spaces_exec(&s, 1);
    let (kind, a1) = match command_name_exec(&s, a0) {
        Some(x) => x,
        None => return None,
    };
    let b0 = skip_spaces_exec(&s, a1);
    let b1 = match symbol_end_exec(&s, b0) {
        Some(x) => x,
        None => return None,
    };
    let arg = substring(line, b0, b1);
    let c = skip_spaces_exec(&s, b1);
    if has_char_at(&s, c, '(') {
        match parse_cell_value_exec(line, &s, c) {
            None => None,
            Some((value, d)) => {
                let e = skip_spaces_exec(&s, d);
                if has_char_at(&s, e, ')') {
                    Some(Command { kind, arg, value: Some(value) })
                } else {
                    None
                }
            },
        }
    } else if has_char_at(&s, c, ')') {
        Some(Command { kind, arg, value: None })
    } else {
        None
    }
}

} // verus!

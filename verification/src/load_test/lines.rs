use vstd::prelude::*;

use crate::sclang::command_text::{command_text, command_well_formed, lemma_command_text_parses};
use crate::sclang::grammar::{parse_command, CellValueView, CommandKind, CommandView};

verus! {

// The lines of the load test, each with the command it spells. Verus learns
// the characters of a string literal only from `reveal_strlit` on that very
// literal, so each line has a short lemma of its own that reveals it and
// applies `lemma_command_text_parses`.

/// A command with an argument and, optionally, a cell value.
pub open spec fn command(kind: CommandKind, arg: Seq<char>, value: Option<CellValueView>) -> CommandView {
    CommandView { kind, arg, value }
}

/// A cell value with two texts and, optionally, two link symbols.
pub open spec fn cell_value(
    text1: Seq<char>,
    text2: Seq<char>,
    refs: Option<(Seq<char>, Seq<char>)>,
) -> Option<CellValueView> {
    Some(CellValueView { text1, text2, refs })
}

/// The command of the line `(store-data a ("a-text-1" "a-text-2"))`.
pub open spec fn setup_store_a_command() -> CommandView {
    command(CommandKind::StoreData, "a"@, cell_value("\"a-text-1\""@, "\"a-text-2\""@, None))
}

pub proof fn lemma_setup_store_a_line()
    ensures
        parse_command("(store-data a (\"a-text-1\" \"a-text-2\"))"@) == Some(setup_store_a_command()),
{
    reveal_strlit("(store-data a (\"a-text-1\" \"a-text-2\"))");
    reveal_strlit("store-data");
    reveal_strlit("a");
    reveal_strlit("(");
    reveal_strlit(" ");
    reveal_strlit(")");
    reveal_strlit("\"a-text-1\"");
    reveal_strlit("\"a-text-2\"");
    assert("(store-data a (\"a-text-1\" \"a-text-2\"))"@ =~= command_text(setup_store_a_command()));
    assert(command_well_formed(setup_store_a_command()));
    lemma_command_text_parses(setup_store_a_command());
}

/// The command of the line `(store-data b ("b-text-1" "b-text-2" (a a)))`.
pub open spec fn setup_store_b_command() -> CommandView {
    command(CommandKind::StoreData, "b"@, cell_value("\"b-text-1\""@, "\"b-text-2\""@, Some(("a"@, "a"@))))
}

pub proof fn lemma_setup_store_b_line()
    ensures
        parse_command("(store-data b (\"b-text-1\" \"b-text-2\" (a a)))"@) == Some(setup_store_b_command()),
{
    reveal_strlit("(store-data b (\"b-text-1\" \"b-text-2\" (a a)))");
    reveal_strlit("store-data");
    reveal_strlit("b");
    reveal_strlit("(");
    reveal_strlit(" ");
    reveal_strlit(")");
    reveal_strlit("\"b-text-1\"");
    reveal_strlit("\"b-text-2\"");
    reveal_strlit(" (");
    reveal_strlit("a");
    assert("(store-data b (\"b-text-1\" \"b-text-2\" (a a)))"@ =~= command_text(setup_store_b_command()));
    assert(command_well_formed(setup_store_b_command()));
    lemma_command_text_parses(setup_store_b_command());
}

/// The command of the line `(update-data a ("a-text-1" "a-text-2" (b b)))`.
pub open spec fn setup_update_a_command() -> CommandView {
    command(CommandKind::UpdateData, "a"@, cell_value("\"a-text-1\""@, "\"a-text-2\""@, Some(("b"@, "b"@))))
}

pub proof fn lemma_setup_update_a_line()
    ensures
        parse_command("(update-data a (\"a-text-1\" \"a-text-2\" (b b)))"@) == Some(setup_update_a_command()),
{
    reveal_strlit("(update-data a (\"a-text-1\" \"a-text-2\" (b b)))");
    reveal_strlit("update-data");
    reveal_strlit("a");
    reveal_strlit("(");
    reveal_strlit(" ");
    reveal_strlit(")");
    reveal_strlit("\"a-text-1\"");
    reveal_strlit("\"a-text-2\"");
    reveal_strlit(" (");
    reveal_strlit("b");
    assert("(update-data a (\"a-text-1\" \"a-text-2\" (b b)))"@ =~= command_text(setup_update_a_command()));
    assert(command_well_formed(setup_update_a_command()));
    lemma_command_text_parses(setup_update_a_command());
}

/// The command of the line `(store-data c ("c-text-1" "c-text-2" (a b)))`.
pub open spec fn setup_store_c_command() -> CommandView {
    command(CommandKind::StoreData, "c"@, cell_value("\"c-text-1\""@, "\"c-text-2\""@, Some(("a"@, "b"@))))
}

pub proof fn lemma_setup_store_c_line()
    ensures
        parse_command("(store-data c (\"c-text-1\" \"c-text-2\" (a b)))"@) == Some(setup_store_c_command()),
{
    reveal_strlit("(store-data c (\"c-text-1\" \"c-text-2\" (a b)))");
    reveal_strlit("store-data");
    reveal_strlit("c");
    reveal_strlit("(");
    reveal_strlit(" ");
    reveal_strlit(")");
    reveal_strlit("\"c-text-1\"");
    reveal_strlit("\"c-text-2\"");
    reveal_strlit(" (");
    reveal_strlit("a");
    reveal_strlit("b");
    assert("(store-data c (\"c-text-1\" \"c-text-2\" (a b)))"@ =~= command_text(setup_store_c_command()));
    assert(command_well_formed(setup_store_c_command()));
    lemma_command_text_parses(setup_store_c_command());
}

/// The command of the line `(update-data a ("a-text-1" "a-text-2" (b c)))`.
pub open spec fn link_a_b_c_command() -> CommandView {
    command(CommandKind::UpdateData, "a"@, cell_value("\"a-text-1\""@, "\"a-text-2\""@, Some(("b"@, "c"@))))
}

pub proof fn lemma_link_a_b_c_line()
    ensures
        parse_command("(update-data a (\"a-text-1\" \"a-text-2\" (b c)))"@) == Some(link_a_b_c_command()),
{
    reveal_strlit("(update-data a (\"a-text-1\" \"a-text-2\" (b c)))");
    reveal_strlit("update-data");
    reveal_strlit("a");
    reveal_strlit("(");
    reveal_strlit(" ");
    reveal_strlit(")");
    reveal_strlit("\"a-text-1\"");
    reveal_strlit("\"a-text-2\"");
    reveal_strlit(" (");
    reveal_strlit("b");
    reveal_strlit("c");
    assert("(update-data a (\"a-text-1\" \"a-text-2\" (b c)))"@ =~= command_text(link_a_b_c_command()));
    assert(command_well_formed(link_a_b_c_command()));
    lemma_command_text_parses(link_a_b_c_command());
}

/// The command of the line `(update-data b ("b-text-1" "b-text-2" (a c)))`.
pub open spec fn link_b_a_c_command() -> CommandView {
    command(CommandKind::UpdateData, "b"@, cell_value("\"b-text-1\""@, "\"b-text-2\""@, Some(("a"@, "c"@))))
}

pub proof fn lemma_link_b_a_c_line()
    ensures
        parse_command("(update-data b (\"b-text-1\" \"b-text-2\" (a c)))"@) == Some(link_b_a_c_command()),
{
    reveal_strlit("(update-data b (\"b-text-1\" \"b-text-2\" (a c)))");
    reveal_strlit("update-data");
    reveal_strlit("b");
    reveal_strlit("(");
    reveal_strlit(" ");
    reveal_strlit(")");
    reveal_strlit("\"b-text-1\"");
    reveal_strlit("\"b-text-2\"");
    reveal_strlit(" (");
    reveal_strlit("a");
    reveal_strlit("c");
    assert("(update-data b (\"b-text-1\" \"b-text-2\" (a c)))"@ =~= command_text(link_b_a_c_command()));
    assert(command_well_formed(link_b_a_c_command()));
    lemma_command_text_parses(link_b_a_c_command());
}

/// The command of the line `(update-data a ("a-text-1" "a-text-2" (c b)))`.
pub open spec fn link_a_c_b_command() -> CommandView {
    command(CommandKind::UpdateData, "a"@, cell_value("\"a-text-1\""@, "\"a-text-2\""@, Some(("c"@, "b"@))))
}

pub proof fn lemma_link_a_c_b_line()
    ensures
        parse_command("(update-data a (\"a-text-1\" \"a-text-2\" (c b)))"@) == Some(link_a_c_b_command()),
{
    reveal_strlit("(update-data a (\"a-text-1\" \"a-text-2\" (c b)))");
    reveal_strlit("update-data");
    reveal_strlit("a");
    reveal_strlit("(");
    reveal_strlit(" ");
    reveal_strlit(")");
    reveal_strlit("\"a-text-1\"");
    reveal_strlit("\"a-text-2\"");
    reveal_strlit(" (");
    reveal_strlit("c");
    reveal_strlit("b");
    assert("(update-data a (\"a-text-1\" \"a-text-2\" (c b)))"@ =~= command_text(link_a_c_b_command()));
    assert(command_well_formed(link_a_c_b_command()));
    lemma_command_text_parses(link_a_c_b_command());
}

/// The command of the line `(update-data b ("b-text-1" "b-text-2" (c a)))`.
pub open spec fn link_b_c_a_command() -> CommandView {
    command(CommandKind::UpdateData, "b"@, cell_value("\"b-text-1\""@, "\"b-text-2\""@, Some(("c"@, "a"@))))
}

pub proof fn lemma_link_b_c_a_line()
    ensures
        parse_command("(update-data b (\"b-text-1\" \"b-text-2\" (c a)))"@) == Some(link_b_c_a_command()),
{
    reveal_strlit("(update-data b (\"b-text-1\" \"b-text-2\" (c a)))");
    reveal_strlit("update-data");
    reveal_strlit("b");
    reveal_strlit("(");
    reveal_strlit(" ");
    reveal_strlit(")");
    reveal_strlit("\"b-text-1\"");
    reveal_strlit("\"b-text-2\"");
    reveal_strlit(" (");
    reveal_strlit("c");
    reveal_strlit("a");
    assert("(update-data b (\"b-text-1\" \"b-text-2\" (c a)))"@ =~= command_text(link_b_c_a_command()));
    assert(command_well_formed(link_b_c_a_command()));
    lemma_command_text_parses(link_b_c_a_command());
}

/// The command of the line `(update-data c ("c-text-1" "c-text-2" (b a)))`.
pub open spec fn link_c_b_a_command() -> CommandView {
    command(CommandKind::UpdateData, "c"@, cell_value("\"c-text-1\""@, "\"c-text-2\""@, Some(("b"@, "a"@))))
}

pub proof fn lemma_link_c_b_a_line()
    ensures
        parse_command("(update-data c (\"c-text-1\" \"c-text-2\" (b a)))"@) == Some(link_c_b_a_command()),
{
    reveal_strlit("(update-data c (\"c-text-1\" \"c-text-2\" (b a)))");
    reveal_strlit("update-data");
    reveal_strlit("c");
    reveal_strlit("(");
    reveal_strlit(" ");
    reveal_strlit(")");
    reveal_strlit("\"c-text-1\"");
    reveal_strlit("\"c-text-2\"");
    reveal_strlit(" (");
    reveal_strlit("b");
    reveal_strlit("a");
    assert("(update-data c (\"c-text-1\" \"c-text-2\" (b a)))"@ =~= command_text(link_c_b_a_command()));
    assert(command_well_formed(link_c_b_a_command()));
    lemma_command_text_parses(link_c_b_a_command());
}

/// The command of the line `(update-data c ("c-text-1" "c-text-2" (a b)))`.
pub open spec fn link_c_a_b_command() -> CommandView {
    command(CommandKind::UpdateData, "c"@, cell_value("\"c-text-1\""@, "\"c-text-2\""@, Some(("a"@, "b"@))))
}

pub proof fn lemma_link_c_a_b_line()
    ensures
        parse_command("(update-data c (\"c-text-1\" \"c-text-2\" (a b)))"@) == Some(link_c_a_b_command()),
{
    reveal_strlit("(update-data c (\"c-text-1\" \"c-text-2\" (a b)))");
    reveal_strlit("update-data");
    reveal_strlit("c");
    reveal_strlit("(");
    reveal_strlit(" ");
    reveal_strlit(")");
    reveal_strlit("\"c-text-1\"");
    reveal_strlit("\"c-text-2\"");
    reveal_strlit(" (");
    reveal_strlit("a");
    reveal_strlit("b");
    assert("(update-data c (\"c-text-1\" \"c-text-2\" (a b)))"@ =~= command_text(link_c_a_b_command()));
    assert(command_well_formed(link_c_a_b_command()));
    lemma_command_text_parses(link_c_a_b_command());
}

/// The command of the line `(show-data a)`.
pub open spec fn show_a_command() -> CommandView {
    command(CommandKind::ShowData, "a"@, None)
}

pub proof fn lemma_show_a_line()
    ensures
        parse_command("(show-data a)"@) == Some(show_a_command()),
{
    reveal_strlit("(show-data a)");
    reveal_strlit("show-data");
    reveal_strlit("a");
    reveal_strlit("(");
    reveal_strlit(" ");
    reveal_strlit(")");
    assert("(show-data a)"@ =~= command_text(show_a_command()));
    assert(command_well_formed(show_a_command()));
    lemma_command_text_parses(show_a_command());
}

/// The command of the line `(show-data b)`.
pub open spec fn show_b_command() -> CommandView {
    command(CommandKind::ShowData, "b"@, None)
}

pub proof fn lemma_show_b_line()
    ensures
        parse_command("(show-data b)"@) == Some(show_b_command()),
{
    reveal_strlit("(show-data b)");
    reveal_strlit("show-data");
    reveal_strlit("b");
    reveal_strlit("(");
    reveal_strlit(" ");
    reveal_strlit(")");
    assert("(show-data b)"@ =~= command_text(show_b_command()));
    assert(command_well_formed(show_b_command()));
    lemma_command_text_parses(show_b_command());
}

/// The command of the line `(show-data c)`.
pub open spec fn show_c_command() -> CommandView {
    command(CommandKind::ShowData, "c"@, None)
}

pub proof fn lemma_show_c_line()
    ensures
        parse_command("(show-data c)"@) == Some(show_c_command()),
{
    reveal_strlit("(show-data c)");
    reveal_strlit("show-data");
    reveal_strlit("c");
    reveal_strlit("(");
    reveal_strlit(" ");
    reveal_strlit(")");
    assert("(show-data c)"@ =~= command_text(show_c_command()));
    assert(command_well_formed(show_c_command()));
    lemma_command_text_parses(show_c_command());
}

/// The command of the line `(drop-symbol a)`.
pub open spec fn drop_a_command() -> CommandView {
    command(CommandKind::DropSymbol, "a"@, None)
}

pub proof fn lemma_drop_a_line()
    ensures
        parse_command("(drop-symbol a)"@) == Some(drop_a_command()),
{
    reveal_strlit("(drop-symbol a)");
    reveal_strlit("drop-symbol");
    reveal_strlit("a");
    reveal_strlit("(");
    reveal_strlit(" ");
    reveal_strlit(")");
    assert("(drop-symbol a)"@ =~= command_text(drop_a_command()));
    assert(command_well_formed(drop_a_command()));
    lemma_command_text_parses(drop_a_command());
}

/// The command of the line `(drop-symbol b)`.
pub open spec fn drop_b_command() -> CommandView {
    command(CommandKind::DropSymbol, "b"@, None)
}

pub proof fn lemma_drop_b_line()
    ensures
        parse_command("(drop-symbol b)"@) == Some(drop_b_command()),
{
    reveal_strlit("(drop-symbol b)");
    reveal_strlit("drop-symbol");
    reveal_strlit("b");
    reveal_strlit("(");
    reveal_strlit(" ");
    reveal_strlit(")");
    assert("(drop-symbol b)"@ =~= command_text(drop_b_command()));
    assert(command_well_formed(drop_b_command()));
    lemma_command_text_parses(drop_b_command());
}

/// The command of the line `(drop-symbol c)`.
pub open spec fn drop_c_command() -> CommandView {
    command(CommandKind::DropSymbol, "c"@, None)
}

pub proof fn lemma_drop_c_line()
    ensures
        parse_command("(drop-symbol c)"@) == Some(drop_c_command()),
{
    reveal_strlit("(drop-symbol c)");
    reveal_strlit("drop-symbol");
    reveal_strlit("c");
    reveal_strlit("(");
    reveal_strlit(" ");
    reveal_strlit(")");
    assert("(drop-symbol c)"@ =~= command_text(drop_c_command()));
    assert(command_well_formed(drop_c_command()));
    lemma_command_text_parses(drop_c_command());
}

} // verus!

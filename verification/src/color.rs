//! ANSI styling of diagnostic labels.

use vstd::prelude::*;

verus! {

/// The text that `code` and `text` give: the text wrapped in an SGR escape
/// sequence when styling is on, the text alone when it is off.
pub open spec fn styled(code: Seq<char>, text: Seq<char>, enabled: bool) -> Seq<char> {
    if enabled {
        "\x1b["@ + code + "m"@ + text + "\x1b[0m"@
    } else {
        text
    }
}

fn ansi(code: &str, text: &str, enabled: bool) -> (res: String)
    ensures
        res@ == styled(code@, text@, enabled),
{
    if enabled {
        let mut s = String::new();
        s.append("\x1b[");
        s.append(code);
        s.append("m");
        s.append(text);
        s.append("\x1b[0m");
        s
    } else {
        text.to_owned()
    }
}

/// Bold green text.
pub fn bold_green(text: &str, enabled: bool) -> (res: String)
    ensures
        res@ == styled("1;32"@, text@, enabled),
{
    ansi("1;32", text, enabled)
}

/// Bold yellow text.
pub fn bold_yellow(text: &str, enabled: bool) -> (res: String)
    ensures
        res@ == styled("1;33"@, text@, enabled),
{
    ansi("1;33", text, enabled)
}

/// Bold cyan text.
pub fn bold_cyan(text: &str, enabled: bool) -> (res: String)
    ensures
        res@ == styled("1;36"@, text@, enabled),
{
    ansi("1;36", text, enabled)
}

/// Bold white text.
pub fn bold_white(text: &str, enabled: bool) -> (res: String)
    ensures
        res@ == styled("1"@, text@, enabled),
{
    ansi("1", text, enabled)
}

/// Bold blue text.
pub fn bold_blue(text: &str, enabled: bool) -> (res: String)
    ensures
        res@ == styled("1;34"@, text@, enabled),
{
    ansi("1;34", text, enabled)
}

/// With styling off, every label is the text itself.
pub proof fn lemma_plain_when_disabled(code: Seq<char>, text: Seq<char>)
    ensures
        styled(code, text, false) == text,
{
}

} // verus!

//! Styled labels.

use cargo_crappy::color::{bold_blue, bold_cyan, bold_green, bold_white, bold_yellow};

#[test]
fn styled_labels_wrap_text_in_escape_codes() {
    assert_eq!(bold_green("Finished", true), "\x1b[1;32mFinished\x1b[0m");
    assert_eq!(bold_yellow("warning", true), "\x1b[1;33mwarning\x1b[0m");
    assert_eq!(bold_cyan("note", true), "\x1b[1;36mnote\x1b[0m");
    assert_eq!(bold_white("x", true), "\x1b[1mx\x1b[0m");
    assert_eq!(bold_blue("-->", true), "\x1b[1;34m-->\x1b[0m");
}

#[test]
fn plain_labels_when_styling_is_off() {
    assert_eq!(bold_green("Finished", false), "Finished");
    assert_eq!(bold_yellow("warning", false), "warning");
    assert_eq!(bold_cyan("", false), "");
    assert_eq!(bold_white("x", false), "x");
    assert_eq!(bold_blue("-->", false), "-->");
}

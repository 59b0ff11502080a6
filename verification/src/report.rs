//! The layout of the report table: how many rows it shows and how wide the
//! function column is.

use vstd::prelude::*;
use crate::text::{decimal, push_decimal};
use vstd::utf8::encode_utf8;

verus! {

/// How many rows the report shows: the first `top` when a limit is set and
/// there are that many, all of them otherwise.
pub open spec fn shown_count_spec(top: Option<usize>, len: usize) -> usize {
    match top {
        Some(n) => if n <= len { n } else { len },
        None => len,
    }
}

/// How many of `len` rows the report shows.
pub fn shown_count(top: Option<usize>, len: usize) -> (n: usize)
    ensures
        n == shown_count_spec(top, len),
        n <= len,
{
    match top {
        Some(n) => if n <= len { n } else { len },
        None => len,
    }
}

/// What the function column shows of one row.
pub struct ReportRow {
    pub file: String,
    pub start_line: u32,
    pub name: String,
}

/// The text of a row's function column: `file:line name`.
pub open spec fn label_text(file: Seq<char>, line: u32, name: Seq<char>) -> Seq<char> {
    file + ":"@ + decimal(line as nat) + " "@ + name
}

/// The width of a row's function column: the length of its text in UTF-8
/// bytes, as `str::len` gives it.
pub open spec fn label_width(r: ReportRow) -> usize {
    encode_utf8(label_text(r.file@, r.start_line, r.name@)).len() as usize
}

/// The widest label among the rows, zero for none.
pub open spec fn max_label_width(rows: Seq<ReportRow>) -> usize
    decreases rows.len(),
{
    if rows.len() == 0 {
        0
    } else {
        let rest = max_label_width(rows.drop_last());
        let w = label_width(rows.last());
        if w >= rest { w } else { rest }
    }
}

/// The width of the function column: the widest label, at least eight; 20
/// when there are no rows.
pub open spec fn name_width_spec(rows: Seq<ReportRow>) -> usize {
    if rows.len() == 0 {
        20
    } else if max_label_width(rows) >= 8 {
        max_label_width(rows)
    } else {
        8
    }
}

fn label_len(r: &ReportRow) -> (w: usize)
    ensures
        w == label_width(*r),
{
    let mut s = r.file.clone();
    s.append(":");
    push_decimal(&mut s, r.start_line as u64);
    s.append(" ");
    s.append(r.name.as_str());
    s.as_str().len()
}

/// The width of the report's function column for the rows shown.
pub fn name_width(rows: &Vec<ReportRow>) -> (w: usize)
    ensures
        w == name_width_spec(rows@),
{
    if rows.len() == 0 {
        return 20;
    }
    let mut m: usize = 0;
    for k in 0..rows.len()
        invariant
            m == max_label_width(rows@.take(k as int)),
    {
        assert(rows@.take(k + 1).drop_last() =~= rows@.take(k as int));
        assert(rows@.take(k + 1).last() == rows@[k as int]);
        let w = label_len(&rows[k]);
        if w >= m {
            m = w;
        }
    }
    assert(rows@.take(rows@.len() as int) =~= rows@);
    if m >= 8 {
        m
    } else {
        8
    }
}

} // verus!

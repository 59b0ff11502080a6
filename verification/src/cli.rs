//! Command-line options: what each flag sets, which values a flag accepts,
//! and the arguments handed on to cargo.

use vstd::prelude::*;
use crate::text::{
    chars_of, chars_start_with, contains_seq, contains_str, decimal, decimal_padded, eq_str,
    find_char, lemma_find_char, lines_of, opt_text, char_lines_view, push_decimal, push_decimal3,
    slice_chars, split_lines, starts_with, string_of, strings_view, trim, trim_char, trim_char_chars,
    trim_chars,
};
use std::time::Duration;

verus! {

// ---------------------------------------------------------------------------
// Number syntax
// ---------------------------------------------------------------------------

pub open spec fn is_digit(c: char) -> bool {
    '0' <= c && c <= '9'
}

pub open spec fn all_digits(s: Seq<char>) -> bool {
    forall|i: int| 0 <= i < s.len() ==> is_digit(#[trigger] s[i])
}

/// The character in lower case when it is an ASCII capital letter.
pub open spec fn ascii_lower(c: char) -> char {
    if 'A' <= c && c <= 'Z' {
        ((c as int) + 32) as char
    } else {
        c
    }
}

pub open spec fn lower_seq(s: Seq<char>) -> Seq<char> {
    s.map_values(|c: char| ascii_lower(c))
}

/// The text without one leading `+` or `-`.
pub open spec fn unsigned_part(s: Seq<char>) -> Seq<char> {
    if s.len() > 0 && (s[0] == '+' || s[0] == '-') {
        s.drop_first()
    } else {
        s
    }
}

/// `Digit+ | Digit+ '.' Digit* | Digit* '.' Digit+`
pub open spec fn is_mantissa(s: Seq<char>) -> bool {
    let k = find_char(s, '.');
    if k >= s.len() {
        s.len() > 0 && all_digits(s)
    } else {
        &&& all_digits(s.subrange(0, k))
        &&& all_digits(s.subrange(k + 1, s.len() as int))
        &&& s.len() > 1
    }
}

/// `Sign? Digit+`
pub open spec fn is_signed_digits(s: Seq<char>) -> bool {
    unsigned_part(s).len() > 0 && all_digits(unsigned_part(s))
}

/// `Mantissa ('e' Sign? Digit+)?` of text already in lower case.
pub open spec fn is_number(s: Seq<char>) -> bool {
    let e = find_char(s, 'e');
    if e >= s.len() {
        is_mantissa(s)
    } else {
        is_mantissa(s.subrange(0, e)) && is_signed_digits(s.subrange(e + 1, s.len() as int))
    }
}

/// Whether `f64::from_str` accepts the text. Its documentation gives the
/// grammar that the text, once in lower case, must match:
/// `Sign? ('inf' | 'infinity' | 'nan' | Number)`, with no white space.
pub open spec fn float_syntax(s: Seq<char>) -> bool {
    let body = unsigned_part(lower_seq(s));
    ||| body == seq!['i', 'n', 'f']
    ||| body == seq!['i', 'n', 'f', 'i', 'n', 'i', 't', 'y']
    ||| body == seq!['n', 'a', 'n']
    ||| is_number(body)
}

/// The value of a run of decimal digits.
pub open spec fn digits_value(s: Seq<char>) -> nat
    decreases s.len(),
{
    if s.len() == 0 {
        0
    } else {
        digits_value(s.drop_last()) * 10 + ((s.last() as int) - ('0' as int)) as nat
    }
}

/// What `usize::from_str` gives: an optional `+`, then one or more decimal
/// digits whose value fits in a `usize`.
pub open spec fn parse_usize_spec(s: Seq<char>) -> Option<usize> {
    let d = if s.len() > 0 && s[0] == '+' { s.drop_first() } else { s };
    if d.len() > 0 && all_digits(d) && digits_value(d) <= usize::MAX {
        Some(digits_value(d) as usize)
    } else {
        None
    }
}

fn digit(c: char) -> (b: bool)
    ensures
        b == is_digit(c),
{
    '0' <= c && c <= '9'
}

fn lower_char(c: char) -> (r: char)
    ensures
        r == ascii_lower(c),
{
    if 'A' <= c && c <= 'Z' {
        let u: u32 = c as u32;
        let b: u8 = (u + 32) as u8;
        assert(b as int == c as int + 32);
        b as char
    } else {
        c
    }
}

fn lower_chars(v: &Vec<char>) -> (r: Vec<char>)
    ensures
        r@ == lower_seq(v@),
{
    let mut r: Vec<char> = Vec::new();
    for i in 0..v.len()
        invariant
            r@ == lower_seq(v@.take(i as int)),
    {
        r.push(lower_char(v[i]));
        assert(lower_seq(v@.take(i + 1)) =~= lower_seq(v@.take(i as int)).push(ascii_lower(v@[i as int])));
    }
    assert(v@.take(v@.len() as int) =~= v@);
    r
}

fn digits_in(v: &Vec<char>, lo: usize, hi: usize) -> (b: bool)
    requires
        lo <= hi <= v@.len(),
    ensures
        b == all_digits(v@.subrange(lo as int, hi as int)),
{
    let mut i = lo;
    while i < hi
        invariant
            lo <= i <= hi <= v@.len(),
            all_digits(v@.subrange(lo as int, i as int)),
        decreases hi - i,
    {
        if !digit(v[i]) {
            assert(v@.subrange(lo as int, hi as int)[i - lo] == v@[i as int]);
            return false;
        }
        assert(forall|k: int| 0 <= k < i - lo ==> v@.subrange(lo as int, i + 1)[k] == #[trigger] v@.subrange(lo as int, i as int)[k]);
        i = i + 1;
    }
    true
}

/// The position of the first `c` at or after `lo` and before `hi`, or `hi`.
fn find_in(v: &Vec<char>, lo: usize, hi: usize, c: char) -> (k: usize)
    requires
        lo <= hi <= v@.len(),
    ensures
        k - lo == find_char(v@.subrange(lo as int, hi as int), c),
        lo <= k <= hi,
{
    let ghost s = v@.subrange(lo as int, hi as int);
    let mut i = lo;
    while i < hi && v[i] != c
        invariant
            lo <= i <= hi <= v@.len(),
            s == v@.subrange(lo as int, hi as int),
            forall|j: int| 0 <= j < i - lo ==> #[trigger] s[j] != c,
        decreases hi - i,
    {
        i = i + 1;
    }
    proof {
        lemma_find_char(s, c);
        let f = find_char(s, c);
        if f < i - lo {
            assert(s[f] == c);
        }
        if i < hi {
            assert(s[i - lo] == c);
        }
    }
    i
}

fn mantissa_in(v: &Vec<char>, lo: usize, hi: usize) -> (b: bool)
    requires
        lo <= hi <= v@.len(),
    ensures
        b == is_mantissa(v@.subrange(lo as int, hi as int)),
{
    let ghost s = v@.subrange(lo as int, hi as int);
    let k = find_in(v, lo, hi, '.');
    if k >= hi {
        hi > lo && digits_in(v, lo, hi)
    } else {
        assert(s.subrange(0, k - lo) =~= v@.subrange(lo as int, k as int));
        assert(s.subrange(k - lo + 1, s.len() as int) =~= v@.subrange(k + 1, hi as int));
        digits_in(v, lo, k) && digits_in(v, k + 1, hi) && hi - lo > 1
    }
}

fn signed_digits_in(v: &Vec<char>, lo: usize, hi: usize) -> (b: bool)
    requires
        lo <= hi <= v@.len(),
    ensures
        b == is_signed_digits(v@.subrange(lo as int, hi as int)),
{
    let ghost s = v@.subrange(lo as int, hi as int);
    if lo < hi && (v[lo] == '+' || v[lo] == '-') {
        assert(s.drop_first() =~= v@.subrange(lo + 1, hi as int));
        lo + 1 < hi && digits_in(v, lo + 1, hi)
    } else {
        lo < hi && digits_in(v, lo, hi)
    }
}

fn number_in(v: &Vec<char>, lo: usize, hi: usize) -> (b: bool)
    requires
        lo <= hi <= v@.len(),
    ensures
        b == is_number(v@.subrange(lo as int, hi as int)),
{
    let ghost s = v@.subrange(lo as int, hi as int);
    let e = find_in(v, lo, hi, 'e');
    if e >= hi {
        mantissa_in(v, lo, hi)
    } else {
        assert(s.subrange(0, e - lo) =~= v@.subrange(lo as int, e as int));
        assert(s.subrange(e - lo + 1, s.len() as int) =~= v@.subrange(e + 1, hi as int));
        mantissa_in(v, lo, e) && signed_digits_in(v, e + 1, hi)
    }
}

fn chars_equal_in(v: &Vec<char>, lo: usize, hi: usize, lit: &str) -> (b: bool)
    requires
        lo <= hi <= v@.len(),
    ensures
        b == (v@.subrange(lo as int, hi as int) == lit@),
{
    let l = chars_of(lit);
    if hi - lo != l.len() {
        return false;
    }
    let mut i: usize = 0;
    while i < l.len()
        invariant
            lo <= hi <= v@.len(),
            hi - lo == l@.len(),
            l@ == lit@,
            i <= l@.len(),
            forall|k: int| 0 <= k < i ==> #[trigger] v@[lo + k] == l@[k],
        decreases l@.len() - i,
    {
        if v[lo + i] != l[i] {
            assert(v@.subrange(lo as int, hi as int)[i as int] != l@[i as int]);
            return false;
        }
        i = i + 1;
    }
    assert forall|k: int| 0 <= k < l@.len() implies v@.subrange(lo as int, hi as int)[k] == l@[k] by {
        assert(v@[lo + k] == l@[k]);
    }
    assert(v@.subrange(lo as int, hi as int) =~= l@);
    true
}

/// Whether `f64::from_str` accepts the text: the check behind the
/// `--threshold` value.
pub fn is_float_text(s: &str) -> (b: bool)
    ensures
        b == float_syntax(s@),
{
    let raw = chars_of(s);
    let v = lower_chars(&raw);
    let n = v.len();
    let lo: usize = if n > 0 && (v[0] == '+' || v[0] == '-') { 1 } else { 0 };
    proof {
        if lo == 1 {
            assert(unsigned_part(v@) =~= v@.subrange(1, n as int));
        } else {
            assert(unsigned_part(v@) =~= v@.subrange(0, n as int));
        }
        reveal_strlit("inf");
        reveal_strlit("infinity");
        reveal_strlit("nan");
    }
    let special = chars_equal_in(&v, lo, n, "inf") || chars_equal_in(&v, lo, n, "infinity")
        || chars_equal_in(&v, lo, n, "nan");
    assert("inf"@ =~= seq!['i', 'n', 'f']);
    assert("infinity"@ =~= seq!['i', 'n', 'f', 'i', 'n', 'i', 't', 'y']);
    assert("nan"@ =~= seq!['n', 'a', 'n']);
    special || number_in(&v, lo, n)
}

/// What `usize::from_str` gives for the text: the check and value behind the
/// `--top` value.
pub fn parse_usize(s: &str) -> (r: Option<usize>)
    ensures
        r == parse_usize_spec(s@),
{
    let v = chars_of(s);
    let n = v.len();
    let lo: usize = if n > 0 && v[0] == '+' { 1 } else { 0 };
    let ghost d = if n > 0 && v@[0] == '+' { v@.drop_first() } else { v@ };
    assert(d =~= v@.subrange(lo as int, n as int));
    if lo >= n {
        return None;
    }
    let mut acc: usize = 0;
    let mut i = lo;
    while i < n
        invariant
            lo <= i <= n == v@.len(),
            v@ == s@,
            d == (if n > 0 && v@[0] == '+' { v@.drop_first() } else { v@ }),
            d == v@.subrange(lo as int, n as int),
            all_digits(v@.subrange(lo as int, i as int)),
            acc as nat == digits_value(v@.subrange(lo as int, i as int)),
        decreases n - i,
    {
        let c = v[i];
        assert(v@.subrange(lo as int, i + 1).drop_last() =~= v@.subrange(lo as int, i as int));
        if !digit(c) {
            assert(d[i - lo] == c);
            return None;
        }
        let dv: u32 = (c as u32) - ('0' as u32);
        let next = match acc.checked_mul(10) {
            Some(m) => m.checked_add(dv as usize),
            None => None,
        };
        match next {
            Some(x) => {
                acc = x;
            },
            None => {
                proof {
                    assert(d.take(i - lo + 1) =~= v@.subrange(lo as int, i + 1));
                    if all_digits(d) {
                        lemma_digits_value_prefix_mono(d, i - lo + 1);
                    }
                }
                return None;
            },
        }
        assert(forall|k: int| 0 <= k < i - lo ==> v@.subrange(lo as int, i + 1)[k] == #[trigger] v@.subrange(lo as int, i as int)[k]);
        i = i + 1;
    }
    Some(acc)
}

/// The value of a run of digits is at least that of each of its prefixes.
proof fn lemma_digits_value_prefix_mono(s: Seq<char>, k: int)
    requires
        0 <= k <= s.len(),
        all_digits(s),
    ensures
        digits_value(s.take(k)) <= digits_value(s),
    decreases s.len() - k,
{
    if k < s.len() {
        lemma_digits_value_prefix_mono(s, k + 1);
        assert(s.take(k + 1).drop_last() =~= s.take(k));
        assert(is_digit(s[k]));
    } else {
        assert(s.take(k) =~= s);
    }
}

// ---------------------------------------------------------------------------
// Options
// ---------------------------------------------------------------------------

/// The options of a run.
pub struct Opts {
    /// The `--threshold` value, as text that `f64::from_str` accepts.
    pub threshold: Option<String>,
    pub top: Option<usize>,
    pub package: Option<String>,
    pub exclude_paths: Vec<String>,
    pub exclude_fns: Vec<String>,
    pub features: Vec<String>,
    pub all_features: bool,
    pub no_default_features: bool,
}

pub struct OptsView {
    pub threshold: Option<Seq<char>>,
    pub top: Option<usize>,
    pub package: Option<Seq<char>>,
    pub exclude_paths: Seq<Seq<char>>,
    pub exclude_fns: Seq<Seq<char>>,
    pub features: Seq<Seq<char>>,
    pub all_features: bool,
    pub no_default_features: bool,
}

impl View for Opts {
    type V = OptsView;

    open spec fn view(&self) -> OptsView {
        OptsView {
            threshold: opt_text(self.threshold),
            top: self.top,
            package: opt_text(self.package),
            exclude_paths: strings_view(self.exclude_paths@),
            exclude_fns: strings_view(self.exclude_fns@),
            features: strings_view(self.features@),
            all_features: self.all_features,
            no_default_features: self.no_default_features,
        }
    }
}

/// The options of a run without flags.
pub open spec fn default_opts() -> OptsView {
    OptsView {
        threshold: None,
        top: None,
        package: None,
        exclude_paths: Seq::empty(),
        exclude_fns: Seq::empty(),
        features: Seq::empty(),
        all_features: false,
        no_default_features: false,
    }
}

impl Default for Opts {
    fn default() -> (o: Opts)
        ensures
            o@ == default_opts(),
    {
        let o = Opts {
            threshold: None,
            top: None,
            package: None,
            exclude_paths: Vec::new(),
            exclude_fns: Vec::new(),
            features: Vec::new(),
            all_features: false,
            no_default_features: false,
        };
        assert(o@.exclude_paths =~= Seq::<Seq<char>>::empty());
        assert(o@.exclude_fns =~= Seq::<Seq<char>>::empty());
        assert(o@.features =~= Seq::<Seq<char>>::empty());
        o
    }
}

/// What the command line asks for.
pub enum Action {
    Run(Opts),
    Help,
    Version,
    /// An argument that is no option: the caller reports it and prints the
    /// help text.
    UnknownOption(String),
}

pub enum ActionView {
    Run(OptsView),
    Help,
    Version,
    UnknownOption(Seq<char>),
}

/// A flag whose value is missing or not accepted.
#[derive(Debug)]
pub enum ArgError {
    /// The flag (by its long name) came last, with no value after it.
    MissingValue(String),
    InvalidThreshold,
    InvalidTop,
}

pub enum ArgErrorView {
    MissingValue(Seq<char>),
    InvalidThreshold,
    InvalidTop,
}

pub open spec fn action_view(a: Action) -> ActionView {
    match a {
        Action::Run(o) => ActionView::Run(o@),
        Action::Help => ActionView::Help,
        Action::Version => ActionView::Version,
        Action::UnknownOption(s) => ActionView::UnknownOption(s@),
    }
}

pub open spec fn arg_error_view(e: ArgError) -> ArgErrorView {
    match e {
        ArgError::MissingValue(s) => ArgErrorView::MissingValue(s@),
        ArgError::InvalidThreshold => ArgErrorView::InvalidThreshold,
        ArgError::InvalidTop => ArgErrorView::InvalidTop,
    }
}

pub open spec fn parse_result_view(r: Result<Action, ArgError>) -> Result<ActionView, ArgErrorView> {
    match r {
        Ok(a) => Ok(action_view(a)),
        Err(e) => Err(arg_error_view(e)),
    }
}

/// The text of a missing-value message: the flag, then " requires a value".
pub open spec fn missing_value_text(flag: Seq<char>) -> Seq<char> {
    flag + " requires a value"@
}

impl ArgError {
    /// The message that reports the error.
    pub fn message(&self) -> (m: String)
        ensures
            m@ == match arg_error_view(*self) {
                ArgErrorView::MissingValue(f) => missing_value_text(f),
                ArgErrorView::InvalidThreshold => "invalid threshold value"@,
                ArgErrorView::InvalidTop => "invalid top value"@,
            },
    {
        match self {
            ArgError::MissingValue(flag) => {
                let mut m = flag.clone();
                m.append(" requires a value");
                m
            },
            ArgError::InvalidThreshold => "invalid threshold value".to_owned(),
            ArgError::InvalidTop => "invalid top value".to_owned(),
        }
    }
}

/// The options after one more value: a flag that takes a value sets or adds
/// it.
pub open spec fn with_threshold(o: OptsView, v: Seq<char>) -> OptsView {
    OptsView { threshold: Some(v), ..o }
}

pub open spec fn with_top(o: OptsView, n: usize) -> OptsView {
    OptsView { top: Some(n), ..o }
}

pub open spec fn with_exclude_path(o: OptsView, v: Seq<char>) -> OptsView {
    OptsView { exclude_paths: o.exclude_paths.push(v), ..o }
}

pub open spec fn with_exclude_fn(o: OptsView, v: Seq<char>) -> OptsView {
    OptsView { exclude_fns: o.exclude_fns.push(v), ..o }
}

pub open spec fn with_package(o: OptsView, v: Seq<char>) -> OptsView {
    OptsView { package: Some(v), ..o }
}

pub open spec fn with_feature(o: OptsView, v: Seq<char>) -> OptsView {
    OptsView { features: o.features.push(v), ..o }
}

/// The options after a flag that takes a value, met at `i` with its value at
/// `i + 1`; `None` for any other argument.
pub open spec fn value_flag_step(flag: Seq<char>, value: Seq<char>, o: OptsView) -> Option<Result<OptsView, ArgErrorView>> {
    if flag == "--threshold"@ {
        Some(if float_syntax(value) { Ok(with_threshold(o, value)) } else { Err(ArgErrorView::InvalidThreshold) })
    } else if flag == "--top"@ {
        Some(match parse_usize_spec(value) {
            Some(n) => Ok(with_top(o, n)),
            None => Err(ArgErrorView::InvalidTop),
        })
    } else if flag == "--exclude-path"@ {
        Some(Ok(with_exclude_path(o, value)))
    } else if flag == "--exclude-fn"@ {
        Some(Ok(with_exclude_fn(o, value)))
    } else if flag == "-p"@ || flag == "--package"@ {
        Some(Ok(with_package(o, value)))
    } else if flag == "--features"@ {
        Some(Ok(with_feature(o, value)))
    } else {
        None
    }
}

/// The long name of a flag that takes a value, as the missing-value message
/// gives it.
pub open spec fn long_name(flag: Seq<char>) -> Seq<char> {
    if flag == "-p"@ { "--package"@ } else { flag }
}

/// Whether the argument is a flag that takes a value.
pub open spec fn takes_value(flag: Seq<char>) -> bool {
    ||| flag == "--threshold"@
    ||| flag == "--top"@
    ||| flag == "--exclude-path"@
    ||| flag == "--exclude-fn"@
    ||| flag == "-p"@
    ||| flag == "--package"@
    ||| flag == "--features"@
}

/// What the arguments from `i` on ask for, given the options set before.
pub open spec fn parse_from(args: Seq<Seq<char>>, i: int, o: OptsView) -> Result<ActionView, ArgErrorView>
    decreases args.len() - i,
{
    if i < 0 || i >= args.len() {
        Ok(ActionView::Run(o))
    } else {
        let a = args[i];
        if takes_value(a) {
            if i + 1 >= args.len() {
                Err(ArgErrorView::MissingValue(long_name(a)))
            } else {
                match value_flag_step(a, args[i + 1], o) {
                    Some(Ok(o2)) => parse_from(args, i + 2, o2),
                    Some(Err(e)) => Err(e),
                    None => Ok(ActionView::Run(o)),
                }
            }
        } else if a == "--all-features"@ {
            parse_from(args, i + 1, OptsView { all_features: true, ..o })
        } else if a == "--no-default-features"@ {
            parse_from(args, i + 1, OptsView { no_default_features: true, ..o })
        } else if a == "-h"@ || a == "--help"@ {
            Ok(ActionView::Help)
        } else if a == "-V"@ || a == "--version"@ {
            Ok(ActionView::Version)
        } else {
            Ok(ActionView::UnknownOption(a))
        }
    }
}

/// What the command line asks for: the arguments are read from the first
/// on, each flag sets its option, a flag that takes a value takes the next
/// argument, and help, version or an unknown argument ends the reading.
pub open spec fn parse_args_spec(args: Seq<Seq<char>>) -> Result<ActionView, ArgErrorView> {
    parse_from(args, 0, default_opts())
}

/// The argument after the flag at `*i`: moves `*i` on to it, and fails when
/// the flag came last.
pub fn parse_flag_value<'a>(args: &'a [String], i: &mut usize, name: &str) -> (r: Result<&'a str, ArgError>)
    requires
        *old(i) < usize::MAX,
    ensures
        *final(i) == *old(i) + 1,
        *final(i) < args@.len() ==> (r matches Ok(v) && v@ == args@[*final(i) as int]@),
        *final(i) >= args@.len() ==> (r matches Err(e) && arg_error_view(e) == ArgErrorView::MissingValue(name@)),
{
    *i = *i + 1;
    if *i < args.len() {
        Ok(args[*i].as_str())
    } else {
        Err(ArgError::MissingValue(name.to_owned()))
    }
}

/// What the command line asks for (the arguments after the program and
/// subcommand names).
pub fn parse_args_from(args: &[String]) -> (r: Result<Action, ArgError>)
    ensures
        parse_result_view(r) == parse_args_spec(strings_view(args@)),
{
    let ghost sv = strings_view(args@);
    let mut opts = Opts::default();
    let mut i: usize = 0;
    while i < args.len()
        invariant
            i <= args@.len(),
            sv == strings_view(args@),
            sv.len() == args@.len(),
            parse_from(sv, i as int, opts@) == parse_args_spec(sv),
        decreases args@.len() - i,
    {
        let a = args[i].as_str();
        let ghost o = opts@;
        let ghost at = i as int;
        assert(sv[at] == a@);
        proof {
            reveal_strlit("-p");
        }
        if eq_str(a, "--threshold") {
            proof { reveal_strlit("--threshold"); }
            let val = match parse_flag_value(args, &mut i, "--threshold") {
                Ok(v) => v,
                Err(e) => { return Err(e); },
            };
            assert(sv[at + 1] == val@);
            if is_float_text(val) {
                opts.threshold = Some(val.to_owned());
                assert(opts@ == with_threshold(o, val@));
            } else {
                return Err(ArgError::InvalidThreshold);
            }
        } else if eq_str(a, "--top") {
            proof { reveal_strlit("--top"); }
            let val = match parse_flag_value(args, &mut i, "--top") {
                Ok(v) => v,
                Err(e) => { return Err(e); },
            };
            assert(sv[at + 1] == val@);
            match parse_usize(val) {
                Some(n) => {
                    opts.top = Some(n);
                    assert(opts@ == with_top(o, n));
                },
                None => { return Err(ArgError::InvalidTop); },
            }
        } else if eq_str(a, "--exclude-path") {
            proof { reveal_strlit("--exclude-path"); }
            let val = match parse_flag_value(args, &mut i, "--exclude-path") {
                Ok(v) => v,
                Err(e) => { return Err(e); },
            };
            assert(sv[at + 1] == val@);
            let ghost before = opts.exclude_paths@;
            opts.exclude_paths.push(val.to_owned());
            assert(strings_view(opts.exclude_paths@) =~= strings_view(before).push(val@));
            assert(opts@ == with_exclude_path(o, val@));
        } else if eq_str(a, "--exclude-fn") {
            proof { reveal_strlit("--exclude-fn"); }
            let val = match parse_flag_value(args, &mut i, "--exclude-fn") {
                Ok(v) => v,
                Err(e) => { return Err(e); },
            };
            assert(sv[at + 1] == val@);
            let ghost before = opts.exclude_fns@;
            opts.exclude_fns.push(val.to_owned());
            assert(strings_view(opts.exclude_fns@) =~= strings_view(before).push(val@));
            assert(opts@ == with_exclude_fn(o, val@));
        } else if eq_str(a, "-p") || eq_str(a, "--package") {
            proof { reveal_strlit("--package"); }
            let val = match parse_flag_value(args, &mut i, "--package") {
                Ok(v) => v,
                Err(e) => { return Err(e); },
            };
            assert(sv[at + 1] == val@);
            opts.package = Some(val.to_owned());
            assert(opts@ == with_package(o, val@));
        } else if eq_str(a, "--features") {
            proof { reveal_strlit("--features"); }
            let val = match parse_flag_value(args, &mut i, "--features") {
                Ok(v) => v,
                Err(e) => { return Err(e); },
            };
            assert(sv[at + 1] == val@);
            let ghost before = opts.features@;
            opts.features.push(val.to_owned());
            assert(strings_view(opts.features@) =~= strings_view(before).push(val@));
            assert(opts@ == with_feature(o, val@));
        } else if eq_str(a, "--all-features") {
            opts.all_features = true;
            assert(opts@ == OptsView { all_features: true, ..o });
        } else if eq_str(a, "--no-default-features") {
            opts.no_default_features = true;
            assert(opts@ == OptsView { no_default_features: true, ..o });
        } else if eq_str(a, "-h") || eq_str(a, "--help") {
            return Ok(Action::Help);
        } else if eq_str(a, "-V") || eq_str(a, "--version") {
            return Ok(Action::Version);
        } else {
            return Ok(Action::UnknownOption(a.to_owned()));
        }
        i = i + 1;
    }
    Ok(Action::Run(opts))
}

// ---------------------------------------------------------------------------
// Arguments handed on to cargo
// ---------------------------------------------------------------------------

/// `--features F` for each feature, in order.
pub open spec fn feature_flag_args(fs: Seq<Seq<char>>) -> Seq<Seq<char>>
    decreases fs.len(),
{
    if fs.len() == 0 {
        Seq::empty()
    } else {
        feature_flag_args(fs.drop_last()) + seq!["--features"@, fs.last()]
    }
}

/// The feature selection: each feature, then `--all-features` and
/// `--no-default-features` when set.
pub open spec fn metadata_args_spec(o: OptsView) -> Seq<Seq<char>> {
    feature_flag_args(o.features)
        + (if o.all_features { seq!["--all-features"@] } else { Seq::empty() })
        + (if o.no_default_features { seq!["--no-default-features"@] } else { Seq::empty() })
}

/// The package selection (`--package P` when a package is set) followed by
/// the feature selection.
pub open spec fn feature_args_spec(o: OptsView) -> Seq<Seq<char>> {
    (match o.package {
        Some(p) => seq!["--package"@, p],
        None => Seq::empty(),
    }) + metadata_args_spec(o)
}

fn push_text(v: &mut Vec<String>, t: &str)
    ensures
        strings_view(final(v)@) == strings_view(old(v)@).push(t@),
{
    let ghost before = v@;
    v.push(t.to_owned());
    assert(strings_view(v@) =~= strings_view(before).push(t@));
}

fn push_feature_selection(opts: &Opts, args: &mut Vec<String>)
    ensures
        strings_view(final(args)@) == strings_view(old(args)@) + metadata_args_spec(opts@),
{
    let ghost start = strings_view(args@);
    let ghost fs = strings_view(opts.features@);
    for k in 0..opts.features.len()
        invariant
            fs == strings_view(opts.features@),
            strings_view(args@) == start + feature_flag_args(fs.take(k as int)),
    {
        push_text(args, "--features");
        push_text(args, opts.features[k].as_str());
        proof {
            let t = fs.take(k + 1);
            assert(t.drop_last() =~= fs.take(k as int));
            assert(t.last() == opts.features@[k as int]@);
        }
        assert(strings_view(args@) =~= start + feature_flag_args(fs.take(k + 1)));
    }
    assert(fs.take(fs.len() as int) =~= fs);
    let ghost mid = strings_view(args@);
    if opts.all_features {
        push_text(args, "--all-features");
    }
    let ghost mid2 = strings_view(args@);
    if opts.no_default_features {
        push_text(args, "--no-default-features");
    }
    assert(strings_view(args@) =~= start + metadata_args_spec(opts@));
}

/// The arguments that select package and features for `cargo test`.
pub fn cargo_feature_args(opts: &Opts) -> (args: Vec<String>)
    ensures
        strings_view(args@) == feature_args_spec(opts@),
{
    let mut args: Vec<String> = Vec::new();
    if let Some(pkg) = &opts.package {
        push_text(&mut args, "--package");
        push_text(&mut args, pkg.as_str());
    }
    assert(strings_view(args@) =~= match opts@.package {
        Some(p) => seq!["--package"@, p],
        None => Seq::<Seq<char>>::empty(),
    });
    push_feature_selection(opts, &mut args);
    args
}

/// The arguments that select features for `cargo metadata`.
pub fn cargo_metadata_args(opts: &Opts) -> (args: Vec<String>)
    ensures
        strings_view(args@) == metadata_args_spec(opts@),
{
    let mut args: Vec<String> = Vec::new();
    assert(strings_view(args@) =~= Seq::<Seq<char>>::empty());
    push_feature_selection(opts, &mut args);
    assert(Seq::<Seq<char>>::empty() + metadata_args_spec(opts@) =~= metadata_args_spec(opts@));
    args
}

// ---------------------------------------------------------------------------
// Elapsed time
// ---------------------------------------------------------------------------

/// How an elapsed time reads: `S.mmms` under a minute, `Mm S.mmms` from
/// a minute on, with the milliseconds in three digits.
pub open spec fn elapsed_text(secs: nat, millis: nat) -> Seq<char> {
    if secs < 60 {
        decimal(secs) + "."@ + decimal_padded(millis, 3) + "s"@
    } else {
        decimal(secs / 60) + "m "@ + decimal(secs % 60) + "."@ + decimal_padded(millis, 3) + "s"@
    }
}

/// The elapsed time of whole seconds and milliseconds, as text.
pub fn format_elapsed(total_secs: u64, millis: u32) -> (res: String)
    ensures
        res@ == elapsed_text(total_secs as nat, millis as nat),
{
    let mut s = String::new();
    if total_secs < 60 {
        push_decimal(&mut s, total_secs);
    } else {
        push_decimal(&mut s, total_secs / 60);
        s.append("m ");
        push_decimal(&mut s, total_secs % 60);
    }
    s.append(".");
    push_decimal3(&mut s, millis as u64);
    s.append("s");
    s
}

/// The whole seconds of a duration.
pub uninterp spec fn duration_secs(d: Duration) -> u64;

/// The milliseconds of a duration past its whole seconds.
pub uninterp spec fn duration_subsec_millis(d: Duration) -> u32;

/// `Duration::as_secs`, whose documentation says that it returns the number
/// of whole seconds in the duration. The contract names that result and
/// claims nothing more.
#[verifier::external_body]
fn whole_secs(d: &Duration) -> (s: u64)
    ensures
        s == duration_secs(*d),
{
    d.as_secs()
}

/// `Duration::subsec_millis`, whose documentation says that it returns the
/// fractional part of the duration in whole milliseconds, always below one
/// thousand. The contract names that result and states that bound.
#[verifier::external_body]
fn subsec_millis(d: &Duration) -> (m: u32)
    ensures
        m == duration_subsec_millis(*d),
        m < 1000,
{
    d.subsec_millis()
}

/// A duration as text.
pub fn format_duration(d: Duration) -> (res: String)
    ensures
        res@ == elapsed_text(duration_secs(d) as nat, duration_subsec_millis(d) as nat),
{
    let secs = whole_secs(&d);
    let millis = subsec_millis(&d);
    format_elapsed(secs, millis)
}

// ---------------------------------------------------------------------------
// Manifests and exclusions
// ---------------------------------------------------------------------------

/// The package name in the manifest lines from `i` on: the first `name`
/// line of a `[package]` table whose value, trimmed and without quotes, is
/// not empty. A `name` line there without `=` ends the search with none.
pub open spec fn package_name_from(lines: Seq<Seq<char>>, i: int, in_package: bool) -> Option<Seq<char>>
    decreases lines.len() - i,
{
    if i < 0 || i >= lines.len() {
        None
    } else {
        let t = trim(lines[i]);
        if t.len() > 0 && t[0] == '[' {
            package_name_from(lines, i + 1, t == "[package]"@)
        } else if in_package && starts_with(t, "name"@) {
            let k = find_char(t, '=');
            if k >= t.len() {
                None
            } else {
                let v = trim_char(trim(t.subrange(k + 1, t.len() as int)), '"');
                if v.len() > 0 {
                    Some(v)
                } else {
                    package_name_from(lines, i + 1, in_package)
                }
            }
        } else {
            package_name_from(lines, i + 1, in_package)
        }
    }
}

pub open spec fn manifest_package_name(content: Seq<char>) -> Option<Seq<char>> {
    package_name_from(lines_of(content), 0, false)
}

/// The name of the package that a `Cargo.toml` declares.
pub fn package_name(content: &str) -> (r: Option<String>)
    ensures
        opt_text(r) == manifest_package_name(content@),
{
    let cv = chars_of(content);
    let lines = split_lines(&cv);
    let ghost lv = char_lines_view(lines@);
    let mut in_package = false;
    let mut i: usize = 0;
    while i < lines.len()
        invariant
            i <= lines@.len(),
            lv == char_lines_view(lines@),
            lv == lines_of(content@),
            package_name_from(lv, i as int, in_package) == manifest_package_name(content@),
        decreases lines@.len() - i,
    {
        let t = trim_chars(&lines[i]);
        assert(lv[i as int] == lines@[i as int]@);
        let n = t.len();
        if n > 0 && t[0] == '[' {
            proof { reveal_strlit("[package]"); }
            in_package = chars_equal_in(&t, 0, n, "[package]");
            assert(t@.subrange(0, n as int) =~= t@);
        } else if in_package && chars_start_with(&t, "name") {
            let k = find_in(&t, 0, n, '=');
            assert(t@.subrange(0, n as int) =~= t@);
            if k >= n {
                return None;
            }
            let rest = slice_chars(&t, k + 1, n);
            let rt = trim_chars(&rest);
            let v = trim_char_chars(&rt, '"');
            if v.len() > 0 {
                return Some(string_of(&v));
            }
        }
        i = i + 1;
    }
    None
}

/// Whether a manifest declares a workspace.
pub fn declares_workspace(content: &str) -> (b: bool)
    ensures
        b == contains_seq(content@, "[workspace]"@),
{
    contains_str(content, "[workspace]")
}

/// Whether a result is left out of the report: its file path holds one of
/// the excluded path patterns, or its name is one of the excluded names.
pub open spec fn is_excluded_spec(file: Seq<char>, name: Seq<char>, o: OptsView) -> bool {
    ||| exists|k: int| 0 <= k < o.exclude_paths.len() && contains_seq(file, #[trigger] o.exclude_paths[k])
    ||| o.exclude_fns.contains(name)
}

/// Whether the function in `file` named `name` is excluded by the options.
pub fn is_excluded(file: &str, name: &str, opts: &Opts) -> (b: bool)
    ensures
        b == is_excluded_spec(file@, name@, opts@),
{
    let ghost ps = strings_view(opts.exclude_paths@);
    let ghost fs = strings_view(opts.exclude_fns@);
    for k in 0..opts.exclude_paths.len()
        invariant
            ps == strings_view(opts.exclude_paths@),
            forall|j: int| 0 <= j < k ==> !contains_seq(file@, #[trigger] ps[j]),
    {
        if contains_str(file, opts.exclude_paths[k].as_str()) {
            assert(ps[k as int] == opts.exclude_paths@[k as int]@);
            assert(contains_seq(file@, opts@.exclude_paths[k as int]));
            return true;
        }
    }
    for k in 0..opts.exclude_fns.len()
        invariant
            fs == strings_view(opts.exclude_fns@),
            forall|j: int| 0 <= j < k ==> #[trigger] fs[j] != name@,
    {
        if eq_str(opts.exclude_fns[k].as_str(), name) {
            assert(fs[k as int] == name@);
            return true;
        }
    }
    false
}

/// The arguments for `cargo test` are those for `cargo metadata` with the
/// package selection in front.
pub proof fn lemma_feature_args_extend_metadata_args(o: OptsView)
    ensures
        feature_args_spec(o).len() == metadata_args_spec(o).len() + (if o.package is Some { 2int } else { 0int }),
        o.package is None ==> feature_args_spec(o) == metadata_args_spec(o),
        feature_args_spec(o).subrange(feature_args_spec(o).len() - metadata_args_spec(o).len(), feature_args_spec(o).len() as int)
            == metadata_args_spec(o),
{
    let p: Seq<Seq<char>> = match o.package {
        Some(x) => seq!["--package"@, x],
        None => Seq::empty(),
    };
    assert(feature_args_spec(o) == p + metadata_args_spec(o));
    assert((p + metadata_args_spec(o)).subrange(p.len() as int, (p + metadata_args_spec(o)).len() as int) =~= metadata_args_spec(o));
    if o.package is None {
        assert(p + metadata_args_spec(o) =~= metadata_args_spec(o));
    }
}

/// Where the options begin in the command line: after the program name, and
/// after the subcommand name too when run as `cargo crappy`.
pub fn options_start(args: &Vec<String>) -> (start: usize)
    requires
        args@.len() >= 1,
    ensures
        start == (if args@.len() > 1 && args@[1]@ == "crappy"@ { 2usize } else { 1usize }),
        start <= args@.len(),
{
    if args.len() > 1 && eq_str(args[1].as_str(), "crappy") {
        2
    } else {
        1
    }
}

/// Wherever the reading reaches `-V` or `--version`, the command line asks
/// for the version, and wherever it reaches `-h` or `--help`, for the help,
/// whatever came before and follows; in particular a command line that
/// starts with one of them asks for that.
pub proof fn lemma_version_and_help_flags(args: Seq<Seq<char>>, i: int, o: OptsView)
    requires
        0 <= i < args.len(),
    ensures
        (args[i] == seq!['-', 'V'] || args[i] == seq!['-', '-', 'v', 'e', 'r', 's', 'i', 'o', 'n'])
            ==> parse_from(args, i, o) == Ok::<ActionView, ArgErrorView>(ActionView::Version),
        (args[i] == seq!['-', 'h'] || args[i] == seq!['-', '-', 'h', 'e', 'l', 'p'])
            ==> parse_from(args, i, o) == Ok::<ActionView, ArgErrorView>(ActionView::Help),
        i == 0 && (args[0] == seq!['-', 'V'] || args[0] == seq!['-', '-', 'v', 'e', 'r', 's', 'i', 'o', 'n'])
            ==> parse_args_spec(args) == Ok::<ActionView, ArgErrorView>(ActionView::Version),
{
    reveal_strlit("--threshold");
    reveal_strlit("--top");
    reveal_strlit("--exclude-path");
    reveal_strlit("--exclude-fn");
    reveal_strlit("-p");
    reveal_strlit("--package");
    reveal_strlit("--features");
    reveal_strlit("--all-features");
    reveal_strlit("--no-default-features");
    reveal_strlit("-h");
    reveal_strlit("--help");
    reveal_strlit("-V");
    reveal_strlit("--version");
    assert("-V"@ =~= seq!['-', 'V']);
    assert("--version"@ =~= seq!['-', '-', 'v', 'e', 'r', 's', 'i', 'o', 'n']);
    assert("-h"@ =~= seq!['-', 'h']);
    assert("--help"@ =~= seq!['-', '-', 'h', 'e', 'l', 'p']);
    let a = args[i];
    if a == "--version"@ || a == "-V"@ || a == "-h"@ || a == "--help"@ {
        assert(a != "--threshold"@ && a != "--top"@ && a != "--exclude-path"@ && a != "--exclude-fn"@
            && a != "-p"@ && a != "--package"@ && a != "--features"@);
        assert(!takes_value(a));
        assert(a != "--all-features"@ && a != "--no-default-features"@);
        if a == "--version"@ || a == "-V"@ {
            assert(a != "-h"@ && a != "--help"@);
        }
    }
}

} // verus!

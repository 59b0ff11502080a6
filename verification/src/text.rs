//! Small verified string operations used across the analyses.

use vstd::prelude::*;

verus! {

/// Whether the string holds exactly the characters of `lit`.
pub fn eq_str(s: &str, lit: &str) -> (b: bool)
    ensures
        b == (s@ == lit@),
{
    let a = s.to_owned();
    let c = lit.to_owned();
    a == c
}

/// Appends one character: `String::push`, whose documentation says that it
/// appends the given character to the end of the string.
#[verifier::external_body]
pub(crate) fn push_char(s: &mut String, c: char)
    ensures
        final(s)@ == old(s)@.push(c),
{
    s.push(c)
}

/// A new string holding `a` followed by `b`.
pub fn concat2(a: &str, b: &str) -> (res: String)
    ensures
        res@ == a@ + b@,
{
    let mut s = a.to_owned();
    s.append(b);
    s
}

/// The text of an optional string.
pub open spec fn opt_text(o: Option<String>) -> Option<Seq<char>> {
    match o {
        Some(s) => Some(s@),
        None => None,
    }
}

/// The text of each string.
pub open spec fn strings_view(v: Seq<String>) -> Seq<Seq<char>> {
    v.map_values(|x: String| x@)
}

/// The characters of a string.
pub fn chars_of(s: &str) -> (v: Vec<char>)
    ensures
        v@ == s@,
{
    let mut v: Vec<char> = Vec::new();
    for c in it: s.chars()
        invariant
            v@ == it.seq().take(it.index() as int),
    {
        v.push(c);
    }
    v
}

/// A string holding the characters.
pub fn string_of(v: &Vec<char>) -> (s: String)
    ensures
        s@ == v@,
{
    let mut s = String::new();
    let mut i: usize = 0;
    while i < v.len()
        invariant
            i <= v@.len(),
            s@ == v@.take(i as int),
        decreases v@.len() - i,
    {
        push_char(&mut s, v[i]);
        assert(v@.take(i + 1) =~= v@.take(i as int).push(v@[i as int]));
        i = i + 1;
    }
    assert(v@.take(v@.len() as int) =~= v@);
    s
}

/// The characters with the Unicode `White_Space` property, those that
/// `char::is_whitespace` and `str::trim` treat as white space.
pub open spec fn is_ws(c: char) -> bool {
    ||| c == '\t' ||| c == '\n' ||| c == '\u{0B}' ||| c == '\u{0C}' ||| c == '\r' ||| c == ' '
    ||| c == '\u{85}' ||| c == '\u{A0}' ||| c == '\u{1680}'
    ||| ('\u{2000}' <= c && c <= '\u{200A}')
    ||| c == '\u{2028}' ||| c == '\u{2029}' ||| c == '\u{202F}' ||| c == '\u{205F}' ||| c == '\u{3000}'
}

fn ws(c: char) -> (b: bool)
    ensures
        b == is_ws(c),
{
    c == '\t' || c == '\n' || c == '\u{0B}' || c == '\u{0C}' || c == '\r' || c == ' '
        || c == '\u{85}' || c == '\u{A0}' || c == '\u{1680}'
        || ('\u{2000}' <= c && c <= '\u{200A}')
        || c == '\u{2028}' || c == '\u{2029}' || c == '\u{202F}' || c == '\u{205F}' || c == '\u{3000}'
}

/// The text without its leading white space.
pub open spec fn trim_start(s: Seq<char>) -> Seq<char>
    decreases s.len(),
{
    if s.len() > 0 && is_ws(s[0]) { trim_start(s.drop_first()) } else { s }
}

/// The text without its trailing white space.
pub open spec fn trim_end(s: Seq<char>) -> Seq<char>
    decreases s.len(),
{
    if s.len() > 0 && is_ws(s.last()) { trim_end(s.drop_last()) } else { s }
}

/// The text without leading and trailing white space, as `str::trim` gives it.
pub open spec fn trim(s: Seq<char>) -> Seq<char> {
    trim_end(trim_start(s))
}

/// The text without leading and trailing copies of `c`, as
/// `str::trim_matches(c)` gives it.
pub open spec fn trim_char(s: Seq<char>, c: char) -> Seq<char> {
    trim_char_end(trim_char_start(s, c), c)
}

pub open spec fn trim_char_start(s: Seq<char>, c: char) -> Seq<char>
    decreases s.len(),
{
    if s.len() > 0 && s[0] == c { trim_char_start(s.drop_first(), c) } else { s }
}

pub open spec fn trim_char_end(s: Seq<char>, c: char) -> Seq<char>
    decreases s.len(),
{
    if s.len() > 0 && s.last() == c { trim_char_end(s.drop_last(), c) } else { s }
}

/// The characters from `lo` up to `hi` of a vector, as a new vector.
pub fn slice_chars(v: &Vec<char>, lo: usize, hi: usize) -> (r: Vec<char>)
    requires
        lo <= hi <= v@.len(),
    ensures
        r@ == v@.subrange(lo as int, hi as int),
{
    let mut r: Vec<char> = Vec::new();
    let mut i = lo;
    while i < hi
        invariant
            lo <= i <= hi <= v@.len(),
            r@ == v@.subrange(lo as int, i as int),
        decreases hi - i,
    {
        r.push(v[i]);
        assert(v@.subrange(lo as int, i + 1) =~= v@.subrange(lo as int, i as int).push(v@[i as int]));
        i = i + 1;
    }
    r
}

proof fn lemma_trim_start_suffix(s: Seq<char>, i: int)
    requires
        0 <= i <= s.len(),
        forall|k: int| 0 <= k < i ==> is_ws(#[trigger] s[k]),
    ensures
        trim_start(s) == trim_start(s.subrange(i, s.len() as int)),
    decreases i,
{
    if i > 0 {
        assert(s.drop_first().subrange(i - 1, s.drop_first().len() as int) =~= s.subrange(i, s.len() as int));
        lemma_trim_start_suffix(s.drop_first(), i - 1);
    } else {
        assert(s.subrange(0, s.len() as int) =~= s);
    }
}

proof fn lemma_trim_end_prefix(s: Seq<char>, j: int)
    requires
        0 <= j <= s.len(),
        forall|k: int| j <= k < s.len() ==> is_ws(#[trigger] s[k]),
    ensures
        trim_end(s) == trim_end(s.subrange(0, j)),
    decreases s.len() - j,
{
    if j < s.len() {
        assert(s.drop_last().subrange(0, j) =~= s.subrange(0, j));
        lemma_trim_end_prefix(s.drop_last(), j);
    } else {
        assert(s.subrange(0, j) =~= s);
    }
}

/// The characters without leading and trailing white space.
pub fn trim_chars(v: &Vec<char>) -> (r: Vec<char>)
    ensures
        r@ == trim(v@),
{
    let n = v.len();
    let mut i: usize = 0;
    while i < n && ws(v[i])
        invariant
            i <= n == v@.len(),
            forall|k: int| 0 <= k < i ==> is_ws(#[trigger] v@[k]),
        decreases n - i,
    {
        i = i + 1;
    }
    proof { lemma_trim_start_suffix(v@, i as int); }
    let ghost t = v@.subrange(i as int, n as int);
    assert(t.len() == 0 || !is_ws(t[0]));
    let mut j: usize = n;
    while j > i && ws(v[j - 1])
        invariant
            i <= j <= n == v@.len(),
            forall|k: int| j <= k < n ==> is_ws(#[trigger] v@[k]),
        decreases j - i,
    {
        j = j - 1;
    }
    proof {
        assert(forall|k: int| j - i <= k < t.len() ==> #[trigger] t[k] == v@[k + i]);
        lemma_trim_end_prefix(t, j - i);
        assert(t.subrange(0, j - i) =~= v@.subrange(i as int, j as int));
        let u = v@.subrange(i as int, j as int);
        assert(u.len() == 0 || !is_ws(u.last()));
        assert(trim_start(u) == u || u.len() > 0);
    }
    slice_chars(v, i, j)
}

proof fn lemma_trim_char_start_suffix(s: Seq<char>, c: char, i: int)
    requires
        0 <= i <= s.len(),
        forall|k: int| 0 <= k < i ==> #[trigger] s[k] == c,
    ensures
        trim_char_start(s, c) == trim_char_start(s.subrange(i, s.len() as int), c),
    decreases i,
{
    if i > 0 {
        assert(s.drop_first().subrange(i - 1, s.drop_first().len() as int) =~= s.subrange(i, s.len() as int));
        lemma_trim_char_start_suffix(s.drop_first(), c, i - 1);
    } else {
        assert(s.subrange(0, s.len() as int) =~= s);
    }
}

proof fn lemma_trim_char_end_prefix(s: Seq<char>, c: char, j: int)
    requires
        0 <= j <= s.len(),
        forall|k: int| j <= k < s.len() ==> #[trigger] s[k] == c,
    ensures
        trim_char_end(s, c) == trim_char_end(s.subrange(0, j), c),
    decreases s.len() - j,
{
    if j < s.len() {
        assert(s.drop_last().subrange(0, j) =~= s.subrange(0, j));
        lemma_trim_char_end_prefix(s.drop_last(), c, j);
    } else {
        assert(s.subrange(0, j) =~= s);
    }
}

/// The characters without leading and trailing copies of `c`.
pub fn trim_char_chars(v: &Vec<char>, c: char) -> (r: Vec<char>)
    ensures
        r@ == trim_char(v@, c),
{
    let n = v.len();
    let mut i: usize = 0;
    while i < n && v[i] == c
        invariant
            i <= n == v@.len(),
            forall|k: int| 0 <= k < i ==> #[trigger] v@[k] == c,
        decreases n - i,
    {
        i = i + 1;
    }
    proof { lemma_trim_char_start_suffix(v@, c, i as int); }
    let ghost t = v@.subrange(i as int, n as int);
    assert(t.len() == 0 || t[0] != c);
    let mut j: usize = n;
    while j > i && v[j - 1] == c
        invariant
            i <= j <= n == v@.len(),
            forall|k: int| j <= k < n ==> #[trigger] v@[k] == c,
        decreases j - i,
    {
        j = j - 1;
    }
    proof {
        assert(forall|k: int| j - i <= k < t.len() ==> #[trigger] t[k] == v@[k + i]);
        lemma_trim_char_end_prefix(t, c, j - i);
        assert(t.subrange(0, j - i) =~= v@.subrange(i as int, j as int));
        let u = v@.subrange(i as int, j as int);
        assert(u.len() == 0 || u.last() != c);
        assert(trim_char_start(u, c) == u || u.len() > 0);
    }
    slice_chars(v, i, j)
}


/// The position of the first `c` in the text, its length when there is none.
pub open spec fn find_char(s: Seq<char>, c: char) -> int
    decreases s.len(),
{
    if s.len() == 0 {
        0
    } else if s[0] == c {
        0
    } else {
        1 + find_char(s.drop_first(), c)
    }
}

pub proof fn lemma_find_char(s: Seq<char>, c: char)
    ensures
        0 <= find_char(s, c) <= s.len(),
        forall|k: int| 0 <= k < find_char(s, c) ==> #[trigger] s[k] != c,
        find_char(s, c) < s.len() ==> s[find_char(s, c)] == c,
    decreases s.len(),
{
    if s.len() > 0 && s[0] != c {
        lemma_find_char(s.drop_first(), c);
        assert forall|k: int| 0 <= k < find_char(s, c) implies #[trigger] s[k] != c by {
            if k > 0 {
                assert(s[k] == s.drop_first()[k - 1]);
            }
        }
    }
}

proof fn lemma_find_char_at(s: Seq<char>, c: char, i: int)
    requires
        0 <= i <= s.len(),
        forall|k: int| 0 <= k < i ==> #[trigger] s[k] != c,
        i == s.len() || s[i] == c,
    ensures
        find_char(s, c) == i,
    decreases i,
{
    if i > 0 {
        assert forall|k: int| 0 <= k < i - 1 implies #[trigger] s.drop_first()[k] != c by {
            assert(s.drop_first()[k] == s[k + 1]);
        }
        lemma_find_char_at(s.drop_first(), c, i - 1);
    }
}

/// A line without its trailing carriage return.
pub open spec fn strip_cr(t: Seq<char>) -> Seq<char> {
    if t.len() > 0 && t.last() == '\r' { t.drop_last() } else { t }
}

/// The lines of a text as `str::lines` gives them: split after each line
/// feed, without the line feed and a carriage return just before it; a
/// final line feed ends the last line and starts no new one.
pub open spec fn lines_of(s: Seq<char>) -> Seq<Seq<char>>
    decreases s.len(),
{
    if s.len() == 0 {
        Seq::empty()
    } else {
        let k = find_char(s, '\n');
        proof {
            lemma_find_char(s, '\n');
        }
        if k >= s.len() {
            seq![s]
        } else {
            seq![strip_cr(s.subrange(0, k))] + lines_of(s.subrange(k + 1, s.len() as int))
        }
    }
}

pub open spec fn char_lines_view(v: Seq<Vec<char>>) -> Seq<Seq<char>> {
    v.map_values(|x: Vec<char>| x@)
}

/// The lines of a text.
pub fn split_lines(v: &Vec<char>) -> (r: Vec<Vec<char>>)
    ensures
        char_lines_view(r@) == lines_of(v@),
{
    let mut r: Vec<Vec<char>> = Vec::new();
    let n = v.len();
    let mut start: usize = 0;
    proof {
        assert(v@.subrange(0, n as int) =~= v@);
    }
    while start < n
        invariant
            start <= n == v@.len(),
            char_lines_view(r@) + lines_of(v@.subrange(start as int, n as int)) == lines_of(v@),
        decreases n - start,
    {
        let ghost rest = v@.subrange(start as int, n as int);
        let mut k = start;
        while k < n && v[k] != '\n'
            invariant
                start <= k <= n == v@.len(),
                forall|m: int| start <= m < k ==> #[trigger] v@[m] != '\n',
            decreases n - k,
        {
            k = k + 1;
        }
        proof {
            assert forall|m: int| 0 <= m < k - start implies #[trigger] rest[m] != '\n' by {
                assert(rest[m] == v@[m + start]);
            }
            lemma_find_char_at(rest, '\n', k - start);
        }
        let mut line = slice_chars(v, start, k);
        if line.len() > 0 && k < n && line[line.len() - 1] == '\r' {
            line.pop();
        }
        let ghost before = char_lines_view(r@);
        r.push(line);
        if k < n {
            proof {
                assert(rest.subrange(0, k - start) =~= v@.subrange(start as int, k as int));
                assert(rest.subrange(k - start + 1, rest.len() as int) =~= v@.subrange(k + 1, n as int));
                assert(char_lines_view(r@) =~= before.push(strip_cr(rest.subrange(0, k - start))));
                assert(lines_of(rest) == seq![strip_cr(rest.subrange(0, k - start))]
                    + lines_of(rest.subrange(k - start + 1, rest.len() as int)));
                assert(char_lines_view(r@) + lines_of(v@.subrange(k + 1, n as int))
                    =~= before + lines_of(rest));
            }
            start = k + 1;
        } else {
            proof {
                assert(rest =~= v@.subrange(start as int, k as int));
                assert(char_lines_view(r@) =~= before.push(rest));
                assert(v@.subrange(n as int, n as int) =~= Seq::<char>::empty());
                assert(char_lines_view(r@) + lines_of(v@.subrange(n as int, n as int))
                    =~= before + lines_of(rest));
            }
            start = n;
        }
    }
    proof {
        assert(v@.subrange(n as int, n as int) =~= Seq::<char>::empty());
        assert(char_lines_view(r@) + Seq::<Seq<char>>::empty() =~= char_lines_view(r@));
    }
    r
}

/// Whether the text begins with the prefix.
pub open spec fn starts_with(s: Seq<char>, p: Seq<char>) -> bool {
    p.len() <= s.len() && s.subrange(0, p.len() as int) == p
}

/// Whether the characters begin with those of the prefix.
pub fn chars_start_with(v: &Vec<char>, p: &str) -> (b: bool)
    ensures
        b == starts_with(v@, p@),
{
    let pv = chars_of(p);
    if pv.len() > v.len() {
        return false;
    }
    let mut i: usize = 0;
    while i < pv.len()
        invariant
            i <= pv@.len() <= v@.len(),
            pv@ == p@,
            forall|k: int| 0 <= k < i ==> #[trigger] v@[k] == pv@[k],
        decreases pv@.len() - i,
    {
        if v[i] != pv[i] {
            assert(v@.subrange(0, pv@.len() as int)[i as int] != p@[i as int]);
            return false;
        }
        i = i + 1;
    }
    assert(v@.subrange(0, pv@.len() as int) =~= p@);
    true
}

/// Whether the text holds the pattern somewhere, as `str::contains` says;
/// every text holds the empty pattern.
pub open spec fn contains_seq(s: Seq<char>, p: Seq<char>) -> bool {
    exists|i: int| 0 <= i && i + p.len() <= s.len() && #[trigger] s.subrange(i, i + p.len()) == p
}

/// Whether the text holds the pattern somewhere.
pub fn contains_str(s: &str, p: &str) -> (b: bool)
    ensures
        b == contains_seq(s@, p@),
{
    let sv = chars_of(s);
    let pv = chars_of(p);
    let n = sv.len();
    let m = pv.len();
    if m > n {
        assert forall|i: int| 0 <= i && i + p@.len() <= s@.len() implies #[trigger] s@.subrange(i, i + p@.len()) != p@ by {}
        return false;
    }
    if m == 0 {
        assert(s@.subrange(0int, 0int + p@.len()) =~= p@);
        return true;
    }
    let mut i: usize = 0;
    while i <= n - m
        invariant
            m >= 1,
            m <= n,
            sv@ == s@,
            pv@ == p@,
            n == sv@.len(),
            m == pv@.len(),
            i <= n - m + 1,
            forall|k: int| 0 <= k < i ==> #[trigger] s@.subrange(k, k + p@.len()) != p@,
        decreases n - m + 1 - i,
    {
        let mut j: usize = 0;
        let mut same = true;
        while j < m
            invariant
                i + m <= n,
                sv@ == s@,
                pv@ == p@,
                n == sv@.len(),
                m == pv@.len(),
                j <= m,
                same ==> forall|q: int| 0 <= q < j ==> #[trigger] sv@[i + q] == pv@[q],
                !same ==> s@.subrange(i as int, i + m) != p@,
            decreases m - j,
        {
            if same && sv[i + j] != pv[j] {
                same = false;
                assert(s@.subrange(i as int, i + m)[j as int] == sv@[i + j]);
            }
            j = j + 1;
        }
        if same {
            assert forall|q: int| 0 <= q < m implies #[trigger] s@.subrange(i as int, i + m)[q] == p@[q] by {
                assert(sv@[i + q] == pv@[q]);
            }
            assert(s@.subrange(i as int, i + m) =~= p@);
            return true;
        }
        i = i + 1;
    }
    false
}

/// The decimal digit for a value below ten.
pub open spec fn digit_char(d: nat) -> char {
    ((d + 48) as u8) as char
}

/// The decimal numeral of a number, without leading zeros.
pub open spec fn decimal(n: nat) -> Seq<char>
    decreases n,
{
    if n < 10 {
        seq![digit_char(n)]
    } else {
        decimal(n / 10).push(digit_char(n % 10))
    }
}

/// The decimal numeral of a number, with leading zeros up to `width` digits.
pub open spec fn decimal_padded(n: nat, width: nat) -> Seq<char> {
    let d = decimal(n);
    if d.len() >= width { d } else { Seq::new((width - d.len()) as nat, |i: int| '0') + d }
}

/// Appends the decimal numeral of a number.
pub fn push_decimal(s: &mut String, n: u64)
    ensures
        final(s)@ == old(s)@ + decimal(n as nat),
    decreases n,
{
    if n >= 10 {
        push_decimal(s, n / 10);
    }
    let d = n % 10;
    push_char(s, ((d + 48) as u8) as char);
}

proof fn lemma_decimal_len(n: nat)
    ensures
        decimal(n).len() >= 1,
        n < 10 ==> decimal(n).len() == 1,
        10 <= n < 100 ==> decimal(n).len() == 2,
        n >= 100 ==> decimal(n).len() >= 3,
    decreases n,
{
    if n >= 10 {
        lemma_decimal_len(n / 10);
    }
}

/// Appends the decimal numeral of a number, with leading zeros up to three digits.
pub fn push_decimal3(s: &mut String, n: u64)
    ensures
        final(s)@ == old(s)@ + decimal_padded(n as nat, 3),
{
    proof { lemma_decimal_len(n as nat); }
    let ghost before = s@;
    if n < 10 {
        proof { reveal_strlit("00"); }
        s.append("00");
        assert(Seq::new(2, |i: int| '0') =~= "00"@);
    } else if n < 100 {
        proof { reveal_strlit("0"); }
        s.append("0");
        assert(Seq::new(1, |i: int| '0') =~= "0"@);
    }
    push_decimal(s, n);
    assert(s@ =~= before + decimal_padded(n as nat, 3));
}

} // verus!

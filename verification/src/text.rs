//! Character-level helpers shared by the chart and note parsers.

use vstd::prelude::*;

verus! {

/// Whether the `regex` crate's `\d` class, Unicode general category `Nd`,
/// holds a character.
pub uninterp spec fn regex_decimal_digit(c: char) -> bool;

/// Asks the `regex` crate whether its class `\d` holds `c`: `Regex::new`
/// compiles `^\d$` and `Regex::is_match` tries it on the one-character text
/// of `c`. The contract only names the answer, as a function of `c` alone:
/// which characters outside ASCII are decimal digits is Unicode data that is
/// not restated here.
#[verifier::external_body]
fn regex_digit_class(c: char) -> (r: bool)
    ensures
        r == regex_decimal_digit(c),
{
    let mut buf = [0u8; 4];
    let text: &str = c.encode_utf8(&mut buf);
    match regex::Regex::new(r"^\d$") {
        Ok(re) => re.is_match(text),
        Err(_) => false,
    }
}

pub open spec fn is_ascii_digit(c: char) -> bool {
    '0' <= c && c <= '9'
}

/// The characters that `\d` matches in the chart grammar. Among ASCII
/// characters the category `Nd` holds exactly `0`..`9`.
pub open spec fn is_digit(c: char) -> bool {
    if (c as u32) < 128 {
        is_ascii_digit(c)
    } else {
        regex_decimal_digit(c)
    }
}

pub fn digit_class(c: char) -> (r: bool)
    ensures
        r == is_digit(c),
{
    if (c as u32) < 128 {
        '0' <= c && c <= '9'
    } else {
        regex_digit_class(c)
    }
}


/// The character classes that the chart grammar is written with.
#[derive(Clone, Copy, PartialEq, Eq, Debug)]
pub enum CharClass {
    /// `\d`
    Digit,
    /// `[\d:]`
    DigitOrColon,
    /// `[xfb]`: modifiers around a slide
    SlideModifier,
    /// `[xhfb]`: modifiers around a tap or touch
    TapModifier,
    /// `[-^v<>pqszVw]`: the characters that spell a slide shape
    ShapeChar,
}

pub open spec fn is_shape_char(c: char) -> bool {
    c == '-' || c == '^' || c == 'v' || c == '<' || c == '>' || c == 'p' || c == 'q' || c == 's'
        || c == 'z' || c == 'V' || c == 'w'
}

pub open spec fn in_class(k: CharClass, c: char) -> bool {
    match k {
        CharClass::Digit => is_digit(c),
        CharClass::DigitOrColon => is_digit(c) || c == ':',
        CharClass::SlideModifier => c == 'x' || c == 'f' || c == 'b',
        CharClass::TapModifier => c == 'x' || c == 'h' || c == 'f' || c == 'b',
        CharClass::ShapeChar => is_shape_char(c),
    }
}

pub fn class_has(k: CharClass, c: char) -> (r: bool)
    ensures
        r == in_class(k, c),
{
    match k {
        CharClass::Digit => digit_class(c),
        CharClass::DigitOrColon => c == ':' || digit_class(c),
        CharClass::SlideModifier => c == 'x' || c == 'f' || c == 'b',
        CharClass::TapModifier => c == 'x' || c == 'h' || c == 'f' || c == 'b',
        CharClass::ShapeChar => c == '-' || c == '^' || c == 'v' || c == '<' || c == '>' || c
            == 'p' || c == 'q' || c == 's' || c == 'z' || c == 'V' || c == 'w',
    }
}

/// The end of the longest run of `k` characters of `s` that starts at `i`.
pub open spec fn run_end(s: Seq<char>, i: int, k: CharClass) -> int
    decreases s.len() - i,
{
    if 0 <= i < s.len() && in_class(k, s[i]) {
        run_end(s, i + 1, k)
    } else {
        i
    }
}

pub proof fn lemma_run_end(s: Seq<char>, i: int, k: CharClass)
    requires
        0 <= i <= s.len(),
    ensures
        i <= run_end(s, i, k) <= s.len(),
        forall|j: int| i <= j < run_end(s, i, k) ==> in_class(k, #[trigger] s[j]),
        run_end(s, i, k) < s.len() ==> !in_class(k, s[run_end(s, i, k)]),
    decreases s.len() - i,
{
    if i < s.len() && in_class(k, s[i]) {
        lemma_run_end(s, i + 1, k);
    }
}

pub proof fn lemma_run_end_grows(s: Seq<char>, i: int, k: CharClass)
    ensures
        run_end(s, i, k) >= i,
    decreases s.len() - i,
{
    if 0 <= i < s.len() && in_class(k, s[i]) {
        lemma_run_end_grows(s, i + 1, k);
    }
}

/// Scans the longest run of `k` characters of `s` from `i`.
pub fn scan_run(s: &Vec<char>, i: usize, k: CharClass) -> (r: usize)
    requires
        i <= s.len(),
    ensures
        r == run_end(s@, i as int, k),
        i <= r <= s.len(),
{
    let mut j = i;
    while j < s.len() && class_has(k, s[j])
        invariant
            i <= j <= s.len(),
            run_end(s@, i as int, k) == run_end(s@, j as int, k),
        decreases s.len() - j,
    {
        j = j + 1;
    }
    proof {
        lemma_run_end(s@, i as int, k);
    }
    j
}


/// Where the longest run of `k` characters that ends at `i` starts.
pub open spec fn run_start(s: Seq<char>, i: int, k: CharClass) -> int
    decreases i,
{
    if 0 < i <= s.len() && in_class(k, s[i - 1]) {
        run_start(s, i - 1, k)
    } else {
        i
    }
}

pub proof fn lemma_run_start(s: Seq<char>, i: int, k: CharClass)
    requires
        0 <= i <= s.len(),
    ensures
        0 <= run_start(s, i, k) <= i,
        forall|j: int| run_start(s, i, k) <= j < i ==> in_class(k, #[trigger] s[j]),
        run_start(s, i, k) > 0 ==> !in_class(k, s[run_start(s, i, k) - 1]),
    decreases i,
{
    if 0 < i && in_class(k, s[i - 1]) {
        lemma_run_start(s, i - 1, k);
    }
}

/// Scans back from `i` over the longest run of `k` characters that ends there.
pub fn scan_run_back(s: &Vec<char>, i: usize, k: CharClass) -> (r: usize)
    requires
        i <= s.len(),
    ensures
        r == run_start(s@, i as int, k),
        r <= i,
{
    let mut j = i;
    while j > 0 && class_has(k, s[j - 1])
        invariant
            j <= i <= s.len(),
            run_start(s@, i as int, k) == run_start(s@, j as int, k),
        decreases j,
    {
        j = j - 1;
    }
    j
}

pub open spec fn digit_value(c: char) -> int {
    (c as int) - ('0' as int)
}

/// The number that a run of ASCII decimal digits spells.
pub open spec fn decimal_value(s: Seq<char>) -> int
    decreases s.len(),
{
    if s.len() == 0 {
        0
    } else {
        decimal_value(s.drop_last()) * 10 + digit_value(s.last())
    }
}

pub open spec fn all_ascii_digits(s: Seq<char>) -> bool {
    forall|i: int| 0 <= i < s.len() ==> is_ascii_digit(#[trigger] s[i])
}

/// What `str::parse` gives for a run of `\d` characters when the target type
/// holds the numbers up to `limit`: the value when every character is an ASCII
/// digit and the value fits, and nothing otherwise.
pub open spec fn parse_decimal(s: Seq<char>, limit: int) -> Option<int> {
    if s.len() > 0 && all_ascii_digits(s) && decimal_value(s) <= limit {
        Some(decimal_value(s))
    } else {
        None
    }
}

pub proof fn lemma_decimal_value_prefix(s: Seq<char>, j: int)
    requires
        0 <= j <= s.len(),
        all_ascii_digits(s),
    ensures
        0 <= decimal_value(s.take(j)) <= decimal_value(s),
    decreases s.len(),
{
    if s.len() > 0 {
        if j == s.len() {
            assert(s.take(j) =~= s);
            lemma_decimal_value_prefix(s.drop_last(), j - 1);
        } else {
            assert(s.drop_last().take(j) =~= s.take(j));
            lemma_decimal_value_prefix(s.drop_last(), j);
        }
        assert(all_ascii_digits(s.drop_last())) by {
            assert forall|i: int| 0 <= i < s.drop_last().len() implies is_ascii_digit(
                #[trigger] s.drop_last()[i],
            ) by {
                assert(s.drop_last()[i] == s[i]);
            }
        }
    }
}

/// Parses `s[lo..hi]` as `str::parse` does for an unsigned type whose largest
/// value is `limit`.
pub fn parse_decimal_range(s: &Vec<char>, lo: usize, hi: usize, limit: usize) -> (r: Option<usize>)
    requires
        lo <= hi <= s.len(),
    ensures
        match r {
            Some(v) => parse_decimal(s@.subrange(lo as int, hi as int), limit as int) == Some(
                v as int,
            ),
            None => parse_decimal(s@.subrange(lo as int, hi as int), limit as int) is None,
        },
{
    let ghost sub = s@.subrange(lo as int, hi as int);
    if lo == hi {
        return None;
    }
    let mut k = lo;
    while k < hi
        invariant
            lo <= k <= hi <= s.len(),
            sub == s@.subrange(lo as int, hi as int),
            forall|j: int| 0 <= j < k - lo ==> is_ascii_digit(#[trigger] sub[j]),
        decreases hi - k,
    {
        if !('0' <= s[k] && s[k] <= '9') {
            assert(!is_ascii_digit(sub[k - lo]));
            return None;
        }
        k = k + 1;
    }
    assert(all_ascii_digits(sub));
    let mut v: usize = 0;
    k = lo;
    while k < hi
        invariant
            lo <= k <= hi <= s.len(),
            sub == s@.subrange(lo as int, hi as int),
            all_ascii_digits(sub),
            v as int == decimal_value(sub.take(k - lo)),
            v <= limit,
        decreases hi - k,
    {
        assert(sub[k - lo] == s@[k as int]);
        assert(is_ascii_digit(sub[k - lo]));
        let d = (s[k] as u32 - '0' as u32) as usize;
        assert(sub.take(k - lo + 1).drop_last() =~= sub.take(k - lo));
        assert(d as int == digit_value(sub[k - lo]));
        if v > limit / 10 {
            proof {
                lemma_decimal_value_prefix(sub, k - lo + 1);
            }
            return None;
        }
        if d > limit || v * 10 > limit - d {
            proof {
                lemma_decimal_value_prefix(sub, k - lo + 1);
            }
            return None;
        }
        v = v * 10 + d;
        k = k + 1;
    }
    assert(sub.take(hi - lo) =~= sub);
    Some(v)
}


/// `String::push` appends one character.
pub assume_specification[ String::push ](string: &mut String, ch: char)
    ensures
        final(string)@ == old(string)@.push(ch),
;

/// The characters of a string slice, in order.
pub fn chars_of(s: &str) -> (v: Vec<char>)
    ensures
        v@ == s@,
{
    let mut v: Vec<char> = Vec::new();
    for c in it: s.chars()
        invariant
            v@ == it.seq().take(it.index() as int),
            it.seq() == s@,
    {
        v.push(c);
    }
    v
}

/// A string holding `v[lo..hi]`.
pub fn string_of(v: &Vec<char>, lo: usize, hi: usize) -> (s: String)
    requires
        lo <= hi <= v.len(),
    ensures
        s@ == v@.subrange(lo as int, hi as int),
{
    let mut s = String::new();
    let mut k = lo;
    while k < hi
        invariant
            lo <= k <= hi <= v.len(),
            s@ == v@.subrange(lo as int, k as int),
        decreases hi - k,
    {
        s.push(v[k]);
        assert(v@.subrange(lo as int, k + 1) =~= v@.subrange(lo as int, k as int).push(v@[k as int]));
        k = k + 1;
    }
    s
}


/// Appends the characters of `s` to `out`.
pub fn push_text(out: &mut String, s: &str)
    ensures
        final(out)@ == old(out)@ + s@,
{
    let v = chars_of(s);
    let mut k: usize = 0;
    while k < v.len()
        invariant
            k <= v.len(),
            v@ == s@,
            out@ == old(out)@ + v@.take(k as int),
        decreases v.len() - k,
    {
        out.push(v[k]);
        assert(v@.take(k + 1) =~= v@.take(k as int).push(v@[k as int]));
        k = k + 1;
    }
    assert(v@.take(v.len() as int) =~= v@);
}

/// The text `a`, then `b`, then `c`.
pub fn text3(a: &str, b: &str, c: &str) -> (r: String)
    ensures
        r@ == a@ + b@ + c@,
{
    let mut r = String::new();
    push_text(&mut r, a);
    push_text(&mut r, b);
    push_text(&mut r, c);
    assert(Seq::<char>::empty() + a@ + b@ + c@ =~= a@ + b@ + c@);
    r
}

/// The pieces of `s` between the occurrences of `sep`, as `str::split` gives
/// them: `k` separators make `k + 1` pieces, empty ones included.
pub open spec fn split_on(s: Seq<char>, sep: char) -> Seq<Seq<char>>
    decreases s.len(),
{
    if s.len() == 0 {
        seq![Seq::<char>::empty()]
    } else {
        let p = split_on(s.drop_last(), sep);
        if s.last() == sep {
            p.push(Seq::<char>::empty())
        } else {
            p.update(p.len() - 1, p.last().push(s.last()))
        }
    }
}

pub proof fn lemma_split_on_len(s: Seq<char>, sep: char)
    ensures
        split_on(s, sep).len() >= 1,
    decreases s.len(),
{
    if s.len() > 0 {
        lemma_split_on_len(s.drop_last(), sep);
    }
}

/// Text in which the separator does not occur is a single piece.
pub proof fn lemma_split_on_absent(s: Seq<char>, sep: char)
    requires
        !s.contains(sep),
    ensures
        split_on(s, sep) == seq![s],
    decreases s.len(),
{
    if s.len() == 0 {
        assert(s =~= Seq::<char>::empty());
    } else {
        assert(!s.drop_last().contains(sep)) by {
            if s.drop_last().contains(sep) {
                let k = choose|k: int| 0 <= k < s.drop_last().len() && s.drop_last()[k] == sep;
                assert(s[k] == sep);
            }
        }
        assert(s.last() != sep) by {
            if s.last() == sep {
                assert(s[s.len() - 1] == sep);
            }
        }
        lemma_split_on_absent(s.drop_last(), sep);
        assert(s.drop_last().push(s.last()) =~= s);
    }
    assert(split_on(s, sep) =~= seq![s]);
}

/// The pieces put back together with `sep` between each two.
pub open spec fn join_with(pieces: Seq<Seq<char>>, sep: char) -> Seq<char>
    decreases pieces.len(),
{
    if pieces.len() == 0 {
        Seq::empty()
    } else if pieces.len() == 1 {
        pieces[0]
    } else {
        join_with(pieces.drop_last(), sep).push(sep) + pieces.last()
    }
}

/// Splitting loses nothing: the pieces joined with the separator give back
/// the text.
pub proof fn lemma_split_join(s: Seq<char>, sep: char)
    ensures
        join_with(split_on(s, sep), sep) == s,
    decreases s.len(),
{
    if s.len() == 0 {
        assert(join_with(split_on(s, sep), sep) =~= s);
    } else {
        let q = split_on(s.drop_last(), sep);
        lemma_split_join(s.drop_last(), sep);
        lemma_split_on_len(s.drop_last(), sep);
        let c = s.last();
        if c == sep {
            let r = q.push(Seq::<char>::empty());
            assert(r.drop_last() =~= q);
            assert(join_with(r, sep) =~= s.drop_last().push(sep) + Seq::<char>::empty());
            assert(s.drop_last().push(sep) + Seq::<char>::empty() =~= s);
        } else {
            let r = q.update(q.len() - 1, q.last().push(c));
            if q.len() == 1 {
                assert(join_with(r, sep) == r[0]);
                assert(r[0] =~= s);
            } else {
                assert(r.drop_last() =~= q.drop_last());
                assert(join_with(r, sep) == join_with(q.drop_last(), sep).push(sep) + q.last().push(c));
                assert(join_with(q.drop_last(), sep).push(sep) + q.last().push(c) =~= (join_with(
                    q.drop_last(),
                    sep,
                ).push(sep) + q.last()).push(c));
                assert(s.drop_last().push(c) =~= s);
            }
        }
    }
}

/// Splits `s` at every `sep`.
pub fn split_chars(s: &Vec<char>, sep: char) -> (pieces: Vec<Vec<char>>)
    ensures
        pieces.deep_view() == split_on(s@, sep),
{
    let mut pieces: Vec<Vec<char>> = Vec::new();
    let mut cur: Vec<char> = Vec::new();
    let mut i: usize = 0;
    while i < s.len()
        invariant
            i <= s.len(),
            pieces.deep_view().push(cur@) == split_on(s@.take(i as int), sep),
        decreases s.len() - i,
    {
        let ghost before = pieces.deep_view().push(cur@);
        assert(s@.take(i + 1).drop_last() =~= s@.take(i as int));
        assert(s@.take(i + 1).last() == s@[i as int]);
        if s[i] == sep {
            let done = cur;
            assert(done.deep_view() =~= done@);
            pieces.push(done);
            cur = Vec::new();
            assert(pieces.deep_view().push(cur@) =~= before.push(Seq::<char>::empty()));
        } else {
            cur.push(s[i]);
            assert(pieces.deep_view().push(cur@) =~= before.update(
                before.len() - 1,
                before.last().push(s@[i as int]),
            ));
        }
        i = i + 1;
    }
    assert(s@.take(s.len() as int) =~= s@);
    let ghost before = pieces.deep_view();
    assert(cur.deep_view() =~= cur@);
    pieces.push(cur);
    assert(pieces.deep_view() =~= before.push(cur@));
    pieces
}

/// The characters that `char::is_whitespace` accepts: those with the Unicode
/// property `White_Space`.
pub open spec fn is_white_space(c: char) -> bool {
    let v = c as u32;
    (0x09 <= v && v <= 0x0D) || v == 0x20 || v == 0x85 || v == 0xA0 || v == 0x1680 || (0x2000 <= v
        && v <= 0x200A) || v == 0x2028 || v == 0x2029 || v == 0x202F || v == 0x205F || v == 0x3000
}

pub fn white_space(c: char) -> (r: bool)
    ensures
        r == is_white_space(c),
{
    let v = c as u32;
    (0x09 <= v && v <= 0x0D) || v == 0x20 || v == 0x85 || v == 0xA0 || v == 0x1680 || (0x2000 <= v
        && v <= 0x200A) || v == 0x2028 || v == 0x2029 || v == 0x202F || v == 0x205F || v == 0x3000
}

/// `s` with every white-space character left out.
pub open spec fn without_white_space(s: Seq<char>) -> Seq<char>
    decreases s.len(),
{
    if s.len() == 0 {
        s
    } else if is_white_space(s.last()) {
        without_white_space(s.drop_last())
    } else {
        without_white_space(s.drop_last()).push(s.last())
    }
}

pub fn strip_white_space(s: &Vec<char>) -> (r: Vec<char>)
    ensures
        r@ == without_white_space(s@),
{
    let mut r: Vec<char> = Vec::new();
    let mut i: usize = 0;
    while i < s.len()
        invariant
            i <= s.len(),
            r@ == without_white_space(s@.take(i as int)),
        decreases s.len() - i,
    {
        assert(s@.take(i + 1).drop_last() =~= s@.take(i as int));
        if !white_space(s[i]) {
            r.push(s[i]);
        }
        i = i + 1;
    }
    assert(s@.take(s.len() as int) =~= s@);
    r
}

/// How many bytes UTF-8 spends on `c`.
pub open spec fn utf8_width(c: char) -> int {
    let v = c as u32;
    if v < 0x80 {
        1
    } else if v < 0x800 {
        2
    } else if v < 0x10000 {
        3
    } else {
        4
    }
}

/// The length in bytes of the UTF-8 encoding of `s`.
pub open spec fn utf8_len(s: Seq<char>) -> int
    decreases s.len(),
{
    if s.len() == 0 {
        0
    } else {
        utf8_len(s.drop_last()) + utf8_width(s.last())
    }
}

pub proof fn lemma_utf8_len_concat(a: Seq<char>, b: Seq<char>)
    ensures
        utf8_len(a + b) == utf8_len(a) + utf8_len(b),
        utf8_len(a) >= 0,
    decreases b.len(),
{
    if b.len() == 0 {
        assert(a + b =~= a);
        lemma_utf8_len_nonneg(a);
    } else {
        assert((a + b).drop_last() =~= a + b.drop_last());
        lemma_utf8_len_concat(a, b.drop_last());
    }
}

pub proof fn lemma_utf8_len_nonneg(s: Seq<char>)
    ensures
        utf8_len(s) >= 0,
    decreases s.len(),
{
    if s.len() > 0 {
        lemma_utf8_len_nonneg(s.drop_last());
    }
}

pub proof fn lemma_utf8_len_subrange(s: Seq<char>, lo: int, hi: int)
    requires
        0 <= lo <= hi <= s.len(),
    ensures
        0 <= utf8_len(s.subrange(lo, hi)) <= utf8_len(s),
{
    let a = s.subrange(0, lo);
    let b = s.subrange(lo, hi);
    let c = s.subrange(hi, s.len() as int);
    assert(s =~= a + b + c);
    lemma_utf8_len_concat(a + b, c);
    lemma_utf8_len_concat(a, b);
    lemma_utf8_len_nonneg(a);
    lemma_utf8_len_nonneg(b);
    lemma_utf8_len_nonneg(c);
}

pub fn char_utf8_width(c: char) -> (w: usize)
    ensures
        w == utf8_width(c),
        1 <= w <= 4,
{
    let v = c as u32;
    if v < 0x80 {
        1
    } else if v < 0x800 {
        2
    } else if v < 0x10000 {
        3
    } else {
        4
    }
}

/// The byte length of the UTF-8 encoding of `s[lo..hi]`.
pub fn utf8_len_range(s: &Vec<char>, lo: usize, hi: usize) -> (n: usize)
    requires
        lo <= hi <= s.len(),
        utf8_len(s@.subrange(lo as int, hi as int)) <= usize::MAX,
    ensures
        n == utf8_len(s@.subrange(lo as int, hi as int)),
{
    let mut n: usize = 0;
    let mut k = lo;
    while k < hi
        invariant
            lo <= k <= hi <= s.len(),
            n == utf8_len(s@.subrange(lo as int, k as int)),
            utf8_len(s@.subrange(lo as int, hi as int)) <= usize::MAX,
        decreases hi - k,
    {
        assert(s@.subrange(lo as int, k + 1).drop_last() =~= s@.subrange(lo as int, k as int));
        proof {
            lemma_utf8_len_subrange(s@.subrange(lo as int, hi as int), 0, k + 1 - lo);
            assert(s@.subrange(lo as int, hi as int).subrange(0, k + 1 - lo) =~= s@.subrange(
                lo as int,
                k + 1,
            ));
        }
        n = n + char_utf8_width(s[k]);
        k = k + 1;
    }
    n
}

/// The number of characters of `s` whose UTF-8 encoding is exactly `b` bytes
/// long, searching from `j` on; nothing when byte `b` falls inside a character.
pub open spec fn char_index_at_byte_from(s: Seq<char>, b: int, j: int) -> Option<int>
    decreases s.len() - j,
{
    if j < 0 || j > s.len() || utf8_len(s.take(j)) > b {
        None
    } else if utf8_len(s.take(j)) == b {
        Some(j)
    } else if j == s.len() {
        None
    } else {
        char_index_at_byte_from(s, b, j + 1)
    }
}

/// The number of leading characters of `s` that fill exactly `b` bytes, if a
/// character boundary lies at byte `b`.
pub open spec fn char_index_at_byte(s: Seq<char>, b: int) -> Option<int> {
    char_index_at_byte_from(s, b, 0)
}

pub proof fn lemma_char_index_at_byte_from(s: Seq<char>, b: int, j: int)
    requires
        0 <= j <= s.len(),
    ensures
        char_index_at_byte_from(s, b, j) matches Some(k) ==> j <= k <= s.len() && utf8_len(s.take(k)) == b,
    decreases s.len() - j,
{
    if j < s.len() {
        lemma_char_index_at_byte_from(s, b, j + 1);
    }
}

/// Finds how many characters of `s` fill the first `b` bytes of its UTF-8
/// encoding; `None` when byte `b` is not a character boundary.
pub fn char_index_at_byte_exec(s: &Vec<char>, b: usize) -> (r: Option<usize>)
    ensures
        match r {
            Some(j) => char_index_at_byte(s@, b as int) == Some(j as int),
            None => char_index_at_byte(s@, b as int) is None,
        },
{
    let mut j: usize = 0;
    let mut acc: usize = 0;
    assert(s@.take(0) =~= Seq::<char>::empty());
    while j < s.len() && acc < b
        invariant
            j <= s.len(),
            acc as int == utf8_len(s@.take(j as int)),
            acc <= b,
            char_index_at_byte(s@, b as int) == char_index_at_byte_from(s@, b as int, j as int),
        decreases s.len() - j,
    {
        let w = char_utf8_width(s[j]);
        assert(s@.take(j + 1).drop_last() =~= s@.take(j as int));
        if w > b - acc {
            assert(char_index_at_byte_from(s@, b as int, j + 1) is None);
            return None;
        }
        acc = acc + w;
        j = j + 1;
    }
    if acc == b {
        Some(j)
    } else {
        None
    }
}


// ---------------------------------------------------------------------------
// Plain text: what a chart needs to be read without stopping the program.
// ---------------------------------------------------------------------------

/// Every character is ASCII.
pub open spec fn ascii_text(x: Seq<char>) -> bool {
    forall|k: int| 0 <= k < x.len() ==> (#[trigger] x[k] as u32) < 128
}

/// Every number written with ASCII digits is below `usize::MAX`.
pub open spec fn numbers_fit(x: Seq<char>) -> bool {
    forall|i: int, j: int|
        0 <= i < j <= x.len() && all_ascii_digits(#[trigger] x.subrange(i, j)) ==> decimal_value(
            x.subrange(i, j),
        ) < usize::MAX
}

/// No digit directly follows a `]`, and no `0` directly follows a `w`.
pub open spec fn no_bad_neighbours(x: Seq<char>) -> bool {
    forall|i: int, j: int|
        #![trigger x[i], x[j]]
        0 <= i && j == i + 1 && j < x.len() ==> (x[i] == ']' ==> !is_ascii_digit(x[j])) && (x[i]
            == 'w' ==> x[j] != '0')
}

/// Text that a chart can be read from without stopping the program: ASCII,
/// every number below `usize::MAX`, no digit right after a duration's `]`,
/// and no fan slide `w` to a target written with a leading `0`.
pub open spec fn plain_text(x: Seq<char>) -> bool {
    &&& ascii_text(x)
    &&& numbers_fit(x)
    &&& no_bad_neighbours(x)
}

pub proof fn lemma_plain_subrange(x: Seq<char>, lo: int, hi: int)
    requires
        plain_text(x),
        0 <= lo <= hi <= x.len(),
    ensures
        plain_text(x.subrange(lo, hi)),
{
    let y = x.subrange(lo, hi);
    assert forall|k: int| 0 <= k < y.len() implies (#[trigger] y[k] as u32) < 128 by {
        assert(y[k] == x[lo + k]);
    }
    assert forall|i: int, j: int|
        0 <= i < j <= y.len() && all_ascii_digits(#[trigger] y.subrange(i, j)) implies decimal_value(
            y.subrange(i, j),
        ) < usize::MAX by {
        assert(y.subrange(i, j) =~= x.subrange(lo + i, lo + j));
    }
    assert forall|i: int, j: int|
        #![trigger y[i], y[j]]
        0 <= i && j == i + 1 && j < y.len() implies (y[i] == ']' ==> !is_ascii_digit(y[j])) && (y[i]
            == 'w' ==> y[j] != '0') by {
        assert(y[i] == x[lo + i] && y[j] == x[lo + j]);
    }
}

/// Joining plain texts keeps them plain where the second does not start with
/// a digit.
pub proof fn lemma_plain_concat(x: Seq<char>, y: Seq<char>)
    requires
        plain_text(x),
        plain_text(y),
        y.len() == 0 || !is_ascii_digit(y[0]),
    ensures
        plain_text(x + y),
{
    let z = x + y;
    let n = x.len() as int;
    assert forall|k: int| 0 <= k < z.len() implies (#[trigger] z[k] as u32) < 128 by {
        if k < n {
            assert(z[k] == x[k]);
        } else {
            assert(z[k] == y[k - n]);
        }
    }
    assert forall|i: int, j: int|
        0 <= i < j <= z.len() && all_ascii_digits(#[trigger] z.subrange(i, j)) implies decimal_value(
            z.subrange(i, j),
        ) < usize::MAX by {
        if j <= n {
            assert(z.subrange(i, j) =~= x.subrange(i, j));
        } else if i >= n {
            assert(z.subrange(i, j) =~= y.subrange(i - n, j - n));
        } else {
            assert(z.subrange(i, j)[n - i] == y[0]);
        }
    }
    assert forall|i: int, j: int|
        #![trigger z[i], z[j]]
        0 <= i && j == i + 1 && j < z.len() implies (z[i] == ']' ==> !is_ascii_digit(z[j])) && (z[i]
            == 'w' ==> z[j] != '0') by {
        if j < n {
            assert(z[i] == x[i] && z[j] == x[j]);
        } else if i >= n {
            assert(z[i] == y[i - n] && z[j] == y[j - n]);
        } else {
            assert(z[j] == y[0]);
        }
    }
}

/// The last piece that `split_on` gives is the end of the text.
pub proof fn lemma_split_on_last(s: Seq<char>, sep: char)
    ensures
        split_on(s, sep).len() >= 1,
        split_on(s, sep).last().len() <= s.len(),
        split_on(s, sep).last() == s.subrange(s.len() - split_on(s, sep).last().len(), s.len() as int),
    decreases s.len(),
{
    if s.len() == 0 {
        assert(s.subrange(0, 0) =~= Seq::<char>::empty());
    } else {
        lemma_split_on_last(s.drop_last(), sep);
        let p = split_on(s.drop_last(), sep);
        if s.last() == sep {
            assert(s.subrange(s.len() as int, s.len() as int) =~= Seq::<char>::empty());
        } else {
            let l = p.last();
            assert(split_on(s, sep).last() == l.push(s.last()));
            assert(l.push(s.last()) =~= s.subrange(s.len() - (l.len() + 1), s.len() as int));
        }
    }
}

/// The pieces of plain text are plain.
pub proof fn lemma_split_on_plain(s: Seq<char>, sep: char)
    requires
        plain_text(s),
    ensures
        forall|k: int| 0 <= k < split_on(s, sep).len() ==> plain_text(#[trigger] split_on(s, sep)[k]),
    decreases s.len(),
{
    if s.len() > 0 {
        lemma_plain_subrange(s, 0, s.len() - 1);
        assert(s.subrange(0, s.len() - 1) =~= s.drop_last());
        lemma_split_on_plain(s.drop_last(), sep);
        lemma_split_on_last(s, sep);
        lemma_split_on_len(s.drop_last(), sep);
        let p = split_on(s.drop_last(), sep);
        let q = split_on(s, sep);
        let l = q.last();
        lemma_plain_subrange(s, s.len() - l.len(), s.len() as int);
        assert forall|k: int| 0 <= k < q.len() implies plain_text(#[trigger] q[k]) by {
            if k < q.len() - 1 {
                assert(q[k] == p[k]);
            }
        }
    } else {
        let e = Seq::<char>::empty();
        assert(split_on(s, sep)[0] == e);
        assert forall|i: int, j: int|
            0 <= i < j <= e.len() && all_ascii_digits(#[trigger] e.subrange(i, j)) implies decimal_value(
                e.subrange(i, j),
            ) < usize::MAX by {}
    }
}

/// ASCII text takes a byte per character.
pub proof fn lemma_ascii_utf8_len(x: Seq<char>)
    requires
        ascii_text(x),
    ensures
        utf8_len(x) == x.len(),
    decreases x.len(),
{
    if x.len() > 0 {
        assert(ascii_text(x.drop_last())) by {
            assert forall|k: int| 0 <= k < x.drop_last().len() implies (#[trigger] x.drop_last()[k] as u32) < 128 by {
                assert(x.drop_last()[k] == x[k]);
            }
        }
        lemma_ascii_utf8_len(x.drop_last());
        assert(x.last() == x[x.len() - 1]);
    }
}

/// In ASCII text every byte offset up to its length falls between characters.
pub proof fn lemma_ascii_char_index(x: Seq<char>, b: int, j: int)
    requires
        ascii_text(x),
        0 <= j <= b <= x.len(),
    ensures
        char_index_at_byte_from(x, b, j) == Some(b),
    decreases b - j,
{
    lemma_plain_take_ascii(x, j);
    lemma_ascii_utf8_len(x.take(j));
    if j < b {
        lemma_ascii_char_index(x, b, j + 1);
    }
}

proof fn lemma_plain_take_ascii(x: Seq<char>, j: int)
    requires
        ascii_text(x),
        0 <= j <= x.len(),
    ensures
        ascii_text(x.take(j)),
{
    assert forall|k: int| 0 <= k < x.take(j).len() implies (#[trigger] x.take(j)[k] as u32) < 128 by {
        assert(x.take(j)[k] == x[k]);
    }
}

} // verus!

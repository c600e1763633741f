//! Slides: the slide syntax, one slide pattern, and star-chained slides.

use vstd::prelude::*;

use crate::element::{Abort, Note, NoteDetail, NoteError, NoteErrorModel, Outcome, SlideShape};
use crate::note_parser::{
    detail_outcome_view, note_of, notes_outcome_view, notes_result_view, parse_or_one,
};
use crate::tap::{contains_char, digit_of, is_button_char, is_button_exec, parse_or_one_exec};
use crate::text::{
    chars_of, class_has, digit_class, digit_value, in_class, is_digit, is_shape_char,
    lemma_run_end, lemma_run_end_grows, lemma_split_on_absent, lemma_plain_subrange, lemma_plain_concat, lemma_split_on_plain, plain_text, numbers_fit, no_bad_neighbours, all_ascii_digits, is_ascii_digit, decimal_value, lemma_decimal_value_prefix, parse_decimal, parse_decimal_range, run_end, run_start, scan_run, scan_run_back,
    split_chars, split_on, string_of, CharClass,
};

verus! {

// ---------------------------------------------------------------------------
// Slide syntax:
//   ^([1-8])([xfb]*)(S\d+(?:S\d+)*(?:-\d+)*B(?:[*]S\d+B)*)([xfb]*)$
// with S = pp|qq|[-^v<>pqszVw] and B = [xfb]*(?:\[[\d:]+\])?[xfb]*
// ---------------------------------------------------------------------------

/// The end of the shape token `pp|qq|[-^v<>pqszVw]` that starts at `i`.
pub open spec fn shape_token_end(s: Seq<char>, i: int) -> int {
    if (s[i] == 'p' || s[i] == 'q') && i + 1 < s.len() && s[i + 1] == s[i] {
        i + 2
    } else {
        i + 1
    }
}

/// The end of one shape followed by its target digits, `S\d+`, at `i`.
pub open spec fn shape_target_end(s: Seq<char>, i: int) -> Option<int> {
    if 0 <= i < s.len() && is_shape_char(s[i]) {
        let t = shape_token_end(s, i);
        let d = run_end(s, t, CharClass::Digit);
        if d > t {
            Some(d)
        } else {
            None
        }
    } else {
        None
    }
}

/// The end of as many `S\d+` as follow one another from `i`.
pub open spec fn shape_targets_end(s: Seq<char>, i: int) -> int
    decreases s.len() - i,
{
    match shape_target_end(s, i) {
        Some(e) => {
            proof {
                lemma_shape_target_end(s, i);
            }
            shape_targets_end(s, e)
        },
        None => i,
    }
}

/// The end of `[xfb]*(?:\[[\d:]+\])?[xfb]*` from `i`.
pub open spec fn block_end(s: Seq<char>, i: int) -> int {
    let m = run_end(s, i, CharClass::SlideModifier);
    if m < s.len() && s[m] == '[' {
        let k = run_end(s, m + 1, CharClass::DigitOrColon);
        if k > m + 1 && k < s.len() && s[k] == ']' {
            run_end(s, k + 1, CharClass::SlideModifier)
        } else {
            m
        }
    } else {
        m
    }
}

/// The end of as many star-chained slides `[*]S\d+B` as follow from `i`.
pub open spec fn star_chain_end(s: Seq<char>, i: int) -> int
    decreases s.len() - i,
{
    if 0 <= i < s.len() && s[i] == '*' {
        match shape_target_end(s, i + 1) {
            Some(e) => {
                proof {
                    lemma_shape_target_end(s, i + 1);
                    lemma_block_end(s, e);
                }
                star_chain_end(s, block_end(s, e))
            },
            None => i,
        }
    } else {
        i
    }
}

/// Whether the slide pattern (the third group) fills `s` from `i` to the end.
pub open spec fn slide_body_fills(s: Seq<char>, i: int) -> bool {
    match shape_target_end(s, i) {
        Some(e) => star_chain_end(s, block_end(s, shape_targets_end(s, e))) == s.len(),
        None => false,
    }
}

/// Where a slide note's leading modifiers end, when it matches the slide syntax.
pub open spec fn slide_syntax(s: Seq<char>) -> Option<int> {
    if s.len() >= 1 && is_button_char(s[0]) {
        let m = run_end(s, 1, CharClass::SlideModifier);
        if slide_body_fills(s, m) {
            Some(m)
        } else {
            None
        }
    } else {
        None
    }
}

pub proof fn lemma_block_end(s: Seq<char>, i: int)
    requires
        0 <= i <= s.len(),
    ensures
        i <= block_end(s, i) <= s.len(),
{
    lemma_run_end(s, i, CharClass::SlideModifier);
    let m = run_end(s, i, CharClass::SlideModifier);
    if m < s.len() && s[m] == '[' {
        lemma_run_end(s, m + 1, CharClass::DigitOrColon);
        let k = run_end(s, m + 1, CharClass::DigitOrColon);
        if k > m + 1 && k < s.len() && s[k] == ']' {
            lemma_run_end(s, k + 1, CharClass::SlideModifier);
        }
    }
}

pub proof fn lemma_shape_target_end(s: Seq<char>, i: int)
    ensures
        shape_target_end(s, i) matches Some(e) ==> i < e <= s.len(),
{
    if 0 <= i < s.len() && is_shape_char(s[i]) {
        let t = shape_token_end(s, i);
        lemma_run_end_grows(s, t, CharClass::Digit);
        if t <= s.len() {
            lemma_run_end(s, t, CharClass::Digit);
        }
    }
}

fn shape_target_end_exec(s: &Vec<char>, i: usize) -> (r: Option<usize>)
    ensures
        match r {
            Some(e) => shape_target_end(s@, i as int) == Some(e as int) && i < e <= s.len(),
            None => shape_target_end(s@, i as int) is None,
        },
{
    proof {
        lemma_shape_target_end(s@, i as int);
    }
    if i < s.len() && class_has(CharClass::ShapeChar, s[i]) {
        let t = if (s[i] == 'p' || s[i] == 'q') && i + 1 < s.len() && s[i + 1] == s[i] {
            i + 2
        } else {
            i + 1
        };
        let d = scan_run(s, t, CharClass::Digit);
        if d > t {
            Some(d)
        } else {
            None
        }
    } else {
        None
    }
}

fn shape_targets_end_exec(s: &Vec<char>, i: usize) -> (r: usize)
    requires
        i <= s.len(),
    ensures
        r as int == shape_targets_end(s@, i as int),
        i <= r <= s.len(),
{
    let mut j = i;
    loop
        invariant
            i <= j <= s.len(),
            shape_targets_end(s@, i as int) == shape_targets_end(s@, j as int),
        decreases s.len() - j,
    {
        match shape_target_end_exec(s, j) {
            Some(e) => {
                j = e;
            },
            None => {
                return j;
            },
        }
    }
}

fn block_end_exec(s: &Vec<char>, i: usize) -> (r: usize)
    requires
        i <= s.len(),
    ensures
        r as int == block_end(s@, i as int),
        i <= r <= s.len(),
{
    proof {
        lemma_block_end(s@, i as int);
    }
    let m = scan_run(s, i, CharClass::SlideModifier);
    if m < s.len() && s[m] == '[' {
        let k = scan_run(s, m + 1, CharClass::DigitOrColon);
        if k > m + 1 && k < s.len() && s[k] == ']' {
            scan_run(s, k + 1, CharClass::SlideModifier)
        } else {
            m
        }
    } else {
        m
    }
}

fn star_chain_end_exec(s: &Vec<char>, i: usize) -> (r: usize)
    requires
        i <= s.len(),
    ensures
        r as int == star_chain_end(s@, i as int),
        i <= r <= s.len(),
{
    let mut j = i;
    loop
        invariant
            i <= j <= s.len(),
            star_chain_end(s@, i as int) == star_chain_end(s@, j as int),
        decreases s.len() - j,
    {
        if j < s.len() && s[j] == '*' {
            match shape_target_end_exec(s, j + 1) {
                Some(e) => {
                    let b = block_end_exec(s, e);
                    j = b;
                },
                None => {
                    return j;
                },
            }
        } else {
            return j;
        }
    }
}

/// Matches the slide syntax, giving where the leading modifiers end.
fn slide_syntax_exec(s: &Vec<char>) -> (r: Option<usize>)
    ensures
        match r {
            Some(m) => slide_syntax(s@) == Some(m as int) && 1 <= m <= s.len(),
            None => slide_syntax(s@) is None,
        },
{
    if s.len() >= 1 && is_button_exec(s[0]) {
        let m = scan_run(s, 1, CharClass::SlideModifier);
        match shape_target_end_exec(s, m) {
            Some(e) => {
                let t = shape_targets_end_exec(s, e);
                let b = block_end_exec(s, t);
                let c = star_chain_end_exec(s, b);
                if c == s.len() {
                    Some(m)
                } else {
                    None
                }
            },
            None => None,
        }
    } else {
        None
    }
}


// ---------------------------------------------------------------------------
// One slide pattern: its duration, then its shape and target.
// ---------------------------------------------------------------------------

/// Matches `\[(\d+):(\d+)\]` at `i`, giving the positions of `:` and `]`.
pub open spec fn duration_at(p: Seq<char>, i: int) -> Option<(int, int)> {
    if 0 <= i < p.len() && p[i] == '[' {
        let a = run_end(p, i + 1, CharClass::Digit);
        if a > i + 1 && a < p.len() && p[a] == ':' {
            let b = run_end(p, a + 1, CharClass::Digit);
            if b > a + 1 && b < p.len() && p[b] == ']' {
                Some((a, b))
            } else {
                None
            }
        } else {
            None
        }
    } else {
        None
    }
}

/// The leftmost duration `[d:l]` of `p` that starts at `i` or later:
/// (position of `[`, of `:`, of `]`).
pub open spec fn find_duration(p: Seq<char>, i: int) -> Option<(int, int, int)>
    decreases p.len() - i,
{
    if i < 0 || i >= p.len() {
        None
    } else {
        match duration_at(p, i) {
            Some((a, b)) => Some((i, a, b)),
            None => find_duration(p, i + 1),
        }
    }
}

/// The length of `s.take(n)` once trailing `x`, `f` and `b` are trimmed off.
pub open spec fn trimmed_len(s: Seq<char>, n: int) -> int
    decreases n,
{
    if 0 < n <= s.len() && in_class(CharClass::SlideModifier, s[n - 1]) {
        trimmed_len(s, n - 1)
    } else {
        n
    }
}

pub proof fn lemma_trimmed_len(s: Seq<char>, n: int)
    requires
        0 <= n <= s.len(),
    ensures
        0 <= trimmed_len(s, n) <= n,
    decreases n,
{
    if 0 < n && in_class(CharClass::SlideModifier, s[n - 1]) {
        lemma_trimmed_len(s, n - 1);
    }
}

/// `-(\d+)-(\d+)` filling `c`: the position of the second `-`.
pub open spec fn dash_chain(c: Seq<char>) -> Option<int> {
    if c.len() >= 1 && c[0] == '-' {
        let a = run_end(c, 1, CharClass::Digit);
        if a > 1 && a < c.len() && c[a] == '-' {
            let b = run_end(c, a + 1, CharClass::Digit);
            if b > a + 1 && b == c.len() {
                Some(a)
            } else {
                None
            }
        } else {
            None
        }
    } else {
        None
    }
}

/// Matches `(pp|qq|[-^v<>pqszVw]+)(\d+)` at `i`: the end of the shape and of
/// the target digits.
pub open spec fn segment_at(c: Seq<char>, i: int) -> Option<(int, int)> {
    if 0 <= i < c.len() && is_shape_char(c[i]) {
        let r = run_end(c, i, CharClass::ShapeChar);
        if r < c.len() && is_digit(c[r]) {
            Some((r, run_end(c, r, CharClass::Digit)))
        } else {
            None
        }
    } else {
        None
    }
}

/// The leftmost shape-and-target match of `c` from `i` on: (start, end of
/// shape, end of target).
pub open spec fn find_segment(c: Seq<char>, i: int) -> Option<(int, int, int)>
    decreases c.len() - i,
{
    if i < 0 || i >= c.len() {
        None
    } else {
        match segment_at(c, i) {
            Some((r, e)) => Some((i, r, e)),
            None => find_segment(c, i + 1),
        }
    }
}

pub proof fn lemma_find_segment(c: Seq<char>, i: int)
    ensures
        find_segment(c, i) matches Some((j, r, e)) ==> i <= j < r < e <= c.len(),
    decreases c.len() - i,
{
    if 0 <= i < c.len() {
        lemma_find_segment(c, i + 1);
        if is_shape_char(c[i]) {
            lemma_run_end(c, i, CharClass::ShapeChar);
            let r = run_end(c, i, CharClass::ShapeChar);
            if r < c.len() && is_digit(c[r]) {
                lemma_run_end(c, r, CharClass::Digit);
            }
        }
    }
}

/// The last of the successive, non-overlapping shape-and-target matches of
/// `c` from `i` on, or `last` if there is none.
pub open spec fn last_segment(c: Seq<char>, i: int, last: Option<(int, int, int)>) -> Option<
    (int, int, int),
>
    decreases c.len() - i,
{
    match find_segment(c, i) {
        Some((j, r, e)) => {
            proof {
                lemma_find_segment(c, i);
            }
            last_segment(c, e, Some((j, r, e)))
        },
        None => last,
    }
}

/// The slide shape that an indicator names, from `start` to `end`; `Ok(None)`
/// when it names none.
pub open spec fn named_shape(ind: Seq<char>, start: usize, end: usize) -> Result<
    Option<SlideShape>,
    Abort,
> {
    if ind == seq!['-'] {
        Ok(Some(SlideShape::Straight(start, end)))
    } else if ind == seq!['^'] {
        Ok(Some(SlideShape::ShortArc(start, end)))
    } else if ind == seq!['v'] || ind == seq!['V'] {
        Ok(Some(SlideShape::VShape(start, end)))
    } else if ind == seq!['<'] {
        Ok(Some(SlideShape::CounterClockwiseArc(start, end)))
    } else if ind == seq!['>'] {
        Ok(Some(SlideShape::ClockwiseArc(start, end)))
    } else if ind == seq!['p'] {
        Ok(Some(SlideShape::PShape(start, end)))
    } else if ind == seq!['q'] {
        Ok(Some(SlideShape::QShape(start, end)))
    } else if ind == seq!['p', 'p'] {
        Ok(Some(SlideShape::GrandPShape(start, end)))
    } else if ind == seq!['q', 'q'] {
        Ok(Some(SlideShape::GrandQShape(start, end)))
    } else if ind == seq!['s'] {
        Ok(Some(SlideShape::Thunderbolt(start, end, false)))
    } else if ind == seq!['z'] {
        Ok(Some(SlideShape::Thunderbolt(start, end, true)))
    } else if ind == seq!['w'] {
        if end == usize::MAX || end == 0 {
            Err(Abort::ButtonOverflow)
        } else {
            Ok(Some(SlideShape::FanShape(start, (end, ((end + 1) % 8) as usize, ((end - 1) % 8) as usize))))
        }
    } else if ind == seq!['*'] {
        Ok(Some(SlideShape::Straight(start, end)))
    } else {
        Ok(None)
    }
}

pub proof fn lemma_find_duration(p: Seq<char>, i: int)
    ensures
        find_duration(p, i) matches Some((j, a, b)) ==> 0 <= j && j + 1 < a && a + 1 < b && b < p.len(),
    decreases p.len() - i,
{
    if 0 <= i < p.len() {
        lemma_find_duration(p, i + 1);
        if p[i] == '[' {
            lemma_run_end_grows(p, i + 1, CharClass::Digit);
            let a = run_end(p, i + 1, CharClass::Digit);
            lemma_run_end_grows(p, a + 1, CharClass::Digit);
        }
    }
}

/// What one slide pattern (a shape, its target and its duration) reads as,
/// starting from button `start`.
pub open spec fn slide_pattern(start: usize, p: Seq<char>) -> Outcome<NoteDetail, NoteErrorModel>
    decreases p.len(),
{
    match find_duration(p, 0) {
        None => Ok(Err(NoteErrorModel::SlideRequiresDuration(p))),
        Some((i, a, b)) => {
            let duration = (
                parse_or_one(p.subrange(i + 1, a)) as usize,
                parse_or_one(p.subrange(a + 1, b)) as usize,
            );
            let without = p.subrange(0, i) + p.subrange(b + 1, p.len() as int);
            let clean = without.subrange(0, trimmed_len(without, without.len() as int));
            if clean.len() > 0 && clean[0] == '*' {
                // Continue with what follows the `*`, the duration put back.
                let next = clean.subrange(1, clean.len() as int) + p.subrange(i, b + 1);
                proof {
                    lemma_find_duration(p, 0);
                    lemma_trimmed_len(without, without.len() as int);
                }
                slide_pattern(start, next)
            } else {
                clean_pattern(start, clean, duration)
            }
        },
    }
}

fn duration_at_exec(p: &Vec<char>, i: usize) -> (r: Option<(usize, usize)>)
    requires
        i < p.len(),
    ensures
        match r {
            Some((a, b)) => duration_at(p@, i as int) == Some((a as int, b as int)) && i + 1 < a
                < a + 1 < b < p.len(),
            None => duration_at(p@, i as int) is None,
        },
{
    if p[i] != '[' {
        return None;
    }
    let a = scan_run(p, i + 1, CharClass::Digit);
    if !(a > i + 1 && a < p.len() && p[a] == ':') {
        return None;
    }
    let b = scan_run(p, a + 1, CharClass::Digit);
    if b > a + 1 && b < p.len() && p[b] == ']' {
        Some((a, b))
    } else {
        None
    }
}

fn find_duration_exec(p: &Vec<char>) -> (r: Option<(usize, usize, usize)>)
    ensures
        match r {
            Some((i, a, b)) => find_duration(p@, 0) == Some((i as int, a as int, b as int)) && i
                + 1 < a < a + 1 < b < p.len(),
            None => find_duration(p@, 0) is None,
        },
{
    let mut i: usize = 0;
    while i < p.len()
        invariant
            i <= p.len(),
            find_duration(p@, 0) == find_duration(p@, i as int),
        decreases p.len() - i,
    {
        match duration_at_exec(p, i) {
            Some((a, b)) => {
                return Some((i, a, b));
            },
            None => {},
        }
        i = i + 1;
    }
    None
}

fn segment_at_exec(c: &Vec<char>, i: usize) -> (r: Option<(usize, usize)>)
    requires
        i < c.len(),
    ensures
        match r {
            Some((rr, e)) => segment_at(c@, i as int) == Some((rr as int, e as int)) && i < rr < e
                <= c.len(),
            None => segment_at(c@, i as int) is None,
        },
{
    if !class_has(CharClass::ShapeChar, c[i]) {
        return None;
    }
    let r = scan_run(c, i, CharClass::ShapeChar);
    proof {
        lemma_run_end(c@, i as int, CharClass::ShapeChar);
    }
    if r < c.len() && digit_class(c[r]) {
        let e = scan_run(c, r, CharClass::Digit);
        proof {
            lemma_run_end(c@, r as int, CharClass::Digit);
        }
        Some((r, e))
    } else {
        None
    }
}

fn find_segment_exec(c: &Vec<char>, from: usize) -> (r: Option<(usize, usize, usize)>)
    requires
        from <= c.len(),
    ensures
        match r {
            Some((j, rr, e)) => find_segment(c@, from as int) == Some((j as int, rr as int, e as int))
                && from <= j < rr < e <= c.len(),
            None => find_segment(c@, from as int) is None,
        },
{
    let mut i = from;
    while i < c.len()
        invariant
            from <= i <= c.len(),
            find_segment(c@, from as int) == find_segment(c@, i as int),
        decreases c.len() - i,
    {
        match segment_at_exec(c, i) {
            Some((r, e)) => {
                return Some((i, r, e));
            },
            None => {},
        }
        i = i + 1;
    }
    None
}

fn last_segment_exec(c: &Vec<char>) -> (r: Option<(usize, usize, usize)>)
    ensures
        match r {
            Some((j, rr, e)) => last_segment(c@, 0, None) == Some((j as int, rr as int, e as int))
                && j < rr < e <= c.len(),
            None => last_segment(c@, 0, None) is None,
        },
{
    let mut pos: usize = 0;
    let mut last: Option<(usize, usize, usize)> = None;
    loop
        invariant
            pos <= c.len(),
            last_segment(c@, 0, None) == last_segment(
                c@,
                pos as int,
                match last {
                    Some((j, rr, e)) => Some((j as int, rr as int, e as int)),
                    None => None,
                },
            ),
            match last {
                Some((j, rr, e)) => j < rr < e <= c.len(),
                None => true,
            },
        decreases c.len() - pos,
    {
        match find_segment_exec(c, pos) {
            Some((j, r, e)) => {
                last = Some((j, r, e));
                pos = e;
            },
            None => {
                return last;
            },
        }
    }
}

/// Whether `s[lo..hi]` is exactly the one character `c`.
fn range_is1(s: &Vec<char>, lo: usize, hi: usize, c: char) -> (r: bool)
    requires
        lo <= hi <= s.len(),
    ensures
        r == (s@.subrange(lo as int, hi as int) == seq![c]),
{
    assert(seq![c].len() == 1);
    if hi - lo == 1 && s[lo] == c {
        assert(s@.subrange(lo as int, hi as int) =~= seq![c]);
        true
    } else {
        if hi - lo == 1 {
            assert(s@.subrange(lo as int, hi as int)[0] != seq![c][0]);
        }
        false
    }
}

/// Whether `s[lo..hi]` is exactly `c` twice.
fn range_is2(s: &Vec<char>, lo: usize, hi: usize, c: char) -> (r: bool)
    requires
        lo <= hi <= s.len(),
    ensures
        r == (s@.subrange(lo as int, hi as int) == seq![c, c]),
{
    assert(seq![c, c].len() == 2);
    if hi - lo == 2 && s[lo] == c && s[lo + 1] == c {
        assert(s@.subrange(lo as int, hi as int) =~= seq![c, c]);
        true
    } else {
        if hi - lo == 2 {
            if s[lo] != c {
                assert(s@.subrange(lo as int, hi as int)[0] != seq![c, c][0]);
            } else {
                assert(s@.subrange(lo as int, hi as int)[1] != seq![c, c][1]);
            }
        }
        false
    }
}

fn named_shape_exec(s: &Vec<char>, lo: usize, hi: usize, start: usize, end: usize) -> (r: Result<
    Option<SlideShape>,
    Abort,
>)
    requires
        lo <= hi <= s.len(),
    ensures
        r == named_shape(s@.subrange(lo as int, hi as int), start, end),
{
    if range_is1(s, lo, hi, '-') {
        Ok(Some(SlideShape::Straight(start, end)))
    } else if range_is1(s, lo, hi, '^') {
        Ok(Some(SlideShape::ShortArc(start, end)))
    } else if range_is1(s, lo, hi, 'v') || range_is1(s, lo, hi, 'V') {
        Ok(Some(SlideShape::VShape(start, end)))
    } else if range_is1(s, lo, hi, '<') {
        Ok(Some(SlideShape::CounterClockwiseArc(start, end)))
    } else if range_is1(s, lo, hi, '>') {
        Ok(Some(SlideShape::ClockwiseArc(start, end)))
    } else if range_is1(s, lo, hi, 'p') {
        Ok(Some(SlideShape::PShape(start, end)))
    } else if range_is1(s, lo, hi, 'q') {
        Ok(Some(SlideShape::QShape(start, end)))
    } else if range_is2(s, lo, hi, 'p') {
        Ok(Some(SlideShape::GrandPShape(start, end)))
    } else if range_is2(s, lo, hi, 'q') {
        Ok(Some(SlideShape::GrandQShape(start, end)))
    } else if range_is1(s, lo, hi, 's') {
        Ok(Some(SlideShape::Thunderbolt(start, end, false)))
    } else if range_is1(s, lo, hi, 'z') {
        Ok(Some(SlideShape::Thunderbolt(start, end, true)))
    } else if range_is1(s, lo, hi, 'w') {
        if end == usize::MAX || end == 0 {
            Err(Abort::ButtonOverflow)
        } else {
            Ok(Some(SlideShape::FanShape(start, (end, (end + 1) % 8, (end - 1) % 8))))
        }
    } else if range_is1(s, lo, hi, '*') {
        Ok(Some(SlideShape::Straight(start, end)))
    } else {
        Ok(None)
    }
}

fn dash_chain_exec(c: &Vec<char>) -> (r: Option<usize>)
    ensures
        match r {
            Some(m) => dash_chain(c@) == Some(m as int) && 1 < m < c.len(),
            None => dash_chain(c@) is None,
        },
{
    if !(c.len() >= 1 && c[0] == '-') {
        return None;
    }
    let a = scan_run(c, 1, CharClass::Digit);
    if !(a > 1 && a < c.len() && c[a] == '-') {
        return None;
    }
    let b = scan_run(c, a + 1, CharClass::Digit);
    if b > a + 1 && b == c.len() {
        Some(a)
    } else {
        None
    }
}

/// `p` without `p[i..=b]`.
fn without_range(p: &Vec<char>, i: usize, b: usize) -> (w: Vec<char>)
    requires
        i <= b < p.len(),
    ensures
        w@ == p@.subrange(0, i as int) + p@.subrange(b + 1, p.len() as int),
{
    let mut w: Vec<char> = Vec::new();
    let mut k: usize = 0;
    while k < i
        invariant
            k <= i <= b < p.len(),
            w@ == p@.subrange(0, k as int),
        decreases i - k,
    {
        w.push(p[k]);
        assert(p@.subrange(0, k + 1) =~= p@.subrange(0, k as int).push(p@[k as int]));
        k = k + 1;
    }
    k = b + 1;
    while k < p.len()
        invariant
            i <= b < k <= p.len(),
            w@ == p@.subrange(0, i as int) + p@.subrange(b + 1, k as int),
        decreases p.len() - k,
    {
        w.push(p[k]);
        assert(p@.subrange(b + 1, k + 1) =~= p@.subrange(b + 1, k as int).push(p@[k as int]));
        k = k + 1;
    }
    w
}

/// Trims trailing `x`, `f` and `b` off `v`.
fn trim_modifiers(v: &mut Vec<char>)
    ensures
        final(v)@ == old(v)@.subrange(0, trimmed_len(old(v)@, old(v)@.len() as int)),
{
    let ghost w = v@;
    while v.len() > 0 && class_has(CharClass::SlideModifier, v[v.len() - 1])
        invariant
            v.len() <= w.len(),
            v@ == w.subrange(0, v.len() as int),
            trimmed_len(w, w.len() as int) == trimmed_len(w, v.len() as int),
        decreases v.len(),
    {
        v.pop();
    }
    proof {
        lemma_trimmed_len(w, v.len() as int);
    }
}

/// `c[1..]` followed by `p[i..=b]`.
fn star_continuation(c: &Vec<char>, p: &Vec<char>, i: usize, b: usize) -> (n: Vec<char>)
    requires
        c.len() >= 1,
        i <= b < p.len(),
    ensures
        n@ == c@.subrange(1, c.len() as int) + p@.subrange(i as int, b + 1),
{
    let mut n: Vec<char> = Vec::new();
    let mut k: usize = 1;
    while k < c.len()
        invariant
            1 <= k <= c.len(),
            n@ == c@.subrange(1, k as int),
        decreases c.len() - k,
    {
        n.push(c[k]);
        assert(c@.subrange(1, k + 1) =~= c@.subrange(1, k as int).push(c@[k as int]));
        k = k + 1;
    }
    k = i;
    while k <= b
        invariant
            i <= k <= b + 1,
            b < p.len(),
            n@ == c@.subrange(1, c.len() as int) + p@.subrange(i as int, k as int),
        decreases b + 1 - k,
    {
        n.push(p[k]);
        assert(p@.subrange(i as int, k + 1) =~= p@.subrange(i as int, k as int).push(p@[k as int]));
        k = k + 1;
    }
    n
}

/// What a pattern reads as once its duration and trailing modifiers are cut
/// off, when it does not start with `*`.
pub open spec fn clean_pattern(start: usize, clean: Seq<char>, duration: (usize, usize)) -> Outcome<
    NoteDetail,
    NoteErrorModel,
> {
    if clean.len() == 3 && clean[0] == 'V' && is_digit(clean[1]) && is_digit(clean[2]) {
        match (
            parse_decimal(clean.subrange(1, 2), usize::MAX as int),
            parse_decimal(clean.subrange(2, 3), usize::MAX as int),
        ) {
            (Some(mid), Some(end)) => Ok(
                Ok(
                    NoteDetail::Slide(
                        start,
                        SlideShape::GrandVShape(start, end as usize, mid as usize),
                        duration,
                    ),
                ),
            ),
            _ => Err(Abort::NumberUnwrap),
        }
    } else if dash_chain(clean) is Some {
        let m = dash_chain(clean)->0;
        match (
            parse_decimal(clean.subrange(1, m), usize::MAX as int),
            parse_decimal(clean.subrange(m + 1, clean.len() as int), usize::MAX as int),
        ) {
            (Some(waypoint), Some(end)) => Ok(
                Ok(
                    NoteDetail::Slide(
                        start,
                        SlideShape::GrandVShape(start, end as usize, waypoint as usize),
                        duration,
                    ),
                ),
            ),
            _ => Err(Abort::NumberUnwrap),
        }
    } else {
        match last_segment(clean, 0, None) {
            None => Ok(Err(NoteErrorModel::NoValidSlidePattern(clean))),
            Some((j, r, e)) => {
                let ind = clean.subrange(j, r);
                let digits = clean.subrange(r, e);
                match parse_decimal(digits, usize::MAX as int) {
                    None => Ok(Err(NoteErrorModel::InvalidTargetButton(digits))),
                    Some(end) => match named_shape(ind, start, end as usize) {
                        Err(abort) => Err(abort),
                        Ok(None) => Ok(Err(NoteErrorModel::UnknownSlideShape(ind))),
                        Ok(Some(shape)) => Ok(Ok(NoteDetail::Slide(start, shape, duration))),
                    },
                }
            },
        }
    }
}

fn parse_clean_pattern(start_btn: usize, clean: &Vec<char>, duration: (usize, usize)) -> (r: Outcome<
    NoteDetail,
    NoteError,
>)
    ensures
        detail_outcome_view(r) == clean_pattern(start_btn, clean@, duration),
        r matches Ok(Ok(d)) ==> d is Slide,
{
    if clean.len() == 3 && clean[0] == 'V' && digit_class(clean[1]) && digit_class(clean[2]) {
        let mid = parse_decimal_range(clean, 1, 2, usize::MAX);
        let end = parse_decimal_range(clean, 2, 3, usize::MAX);
        return match (mid, end) {
            (Some(mid), Some(end)) => Ok(
                Ok(NoteDetail::Slide(start_btn, SlideShape::GrandVShape(start_btn, end, mid), duration)),
            ),
            _ => Err(Abort::NumberUnwrap),
        };
    }
    match dash_chain_exec(clean) {
        Some(m) => {
            let waypoint = parse_decimal_range(clean, 1, m, usize::MAX);
            let end = parse_decimal_range(clean, m + 1, clean.len(), usize::MAX);
            return match (waypoint, end) {
                (Some(waypoint), Some(end)) => Ok(
                    Ok(
                        NoteDetail::Slide(
                            start_btn,
                            SlideShape::GrandVShape(start_btn, end, waypoint),
                            duration,
                        ),
                    ),
                ),
                _ => Err(Abort::NumberUnwrap),
            };
        },
        None => {},
    }
    match last_segment_exec(clean) {
        None => {
            assert(clean@.subrange(0, clean.len() as int) =~= clean@);
            Ok(Err(NoteError::NoValidSlidePattern(string_of(clean, 0, clean.len()))))
        },
        Some((j, r, e)) => {
            match parse_decimal_range(clean, r, e, usize::MAX) {
                None => Ok(Err(NoteError::InvalidTargetButton(string_of(clean, r, e)))),
                Some(end) => match named_shape_exec(clean, j, r, start_btn, end) {
                    Err(abort) => Err(abort),
                    Ok(None) => Ok(Err(NoteError::UnknownSlideShape(string_of(clean, j, r)))),
                    Ok(Some(shape)) => Ok(Ok(NoteDetail::Slide(start_btn, shape, duration))),
                },
            }
        },
    }
}

/// Reads one slide pattern starting from button `start_btn`.
fn parse_slide_pattern(start_btn: usize, p: &Vec<char>) -> (r: Outcome<NoteDetail, NoteError>)
    ensures
        detail_outcome_view(r) == slide_pattern(start_btn, p@),
        r matches Ok(Ok(d)) ==> d is Slide,
    decreases p@.len(),
{
    match find_duration_exec(p) {
        None => {
            assert(p@.subrange(0, p.len() as int) =~= p@);
            Ok(Err(NoteError::SlideRequiresDuration(string_of(p, 0, p.len()))))
        },
        Some((i, a, b)) => {
            let duration = (parse_or_one_exec(p, i + 1, a), parse_or_one_exec(p, a + 1, b));
            let mut clean = without_range(p, i, b);
            let ghost without = clean@;
            trim_modifiers(&mut clean);
            proof {
                lemma_trimmed_len(without, without.len() as int);
            }
            if clean.len() > 0 && clean[0] == '*' {
                let next = star_continuation(&clean, p, i, b);
                return parse_slide_pattern(start_btn, &next);
            }
            parse_clean_pattern(start_btn, &clean, duration)
        },
    }
}


// ---------------------------------------------------------------------------
// Slide notes and star-chained slides.
// ---------------------------------------------------------------------------

/// The button a slide shape ends on (the first end of a fan).
pub open spec fn shape_end(shape: SlideShape) -> usize {
    match shape {
        SlideShape::Straight(_, end) => end,
        SlideShape::ShortArc(_, end) => end,
        SlideShape::ClockwiseArc(_, end) => end,
        SlideShape::CounterClockwiseArc(_, end) => end,
        SlideShape::VShape(_, end) => end,
        SlideShape::PShape(_, end) => end,
        SlideShape::QShape(_, end) => end,
        SlideShape::GrandVShape(_, end, _) => end,
        SlideShape::GrandPShape(_, end) => end,
        SlideShape::GrandQShape(_, end) => end,
        SlideShape::Thunderbolt(_, end, _) => end,
        SlideShape::FanShape(_, (end1, _, _)) => end1,
    }
}

fn shape_end_exec(shape: SlideShape) -> (r: usize)
    ensures
        r == shape_end(shape),
{
    match shape {
        SlideShape::Straight(_, end) => end,
        SlideShape::ShortArc(_, end) => end,
        SlideShape::ClockwiseArc(_, end) => end,
        SlideShape::CounterClockwiseArc(_, end) => end,
        SlideShape::VShape(_, end) => end,
        SlideShape::PShape(_, end) => end,
        SlideShape::QShape(_, end) => end,
        SlideShape::GrandVShape(_, end, _) => end,
        SlideShape::GrandPShape(_, end) => end,
        SlideShape::GrandQShape(_, end) => end,
        SlideShape::Thunderbolt(_, end, _) => end,
        SlideShape::FanShape(_, (end1, _, _)) => end1,
    }
}

/// `ns` put in front of the notes of `r`, when `r` has notes.
pub open spec fn prepend_notes(ns: Seq<Note>, r: Outcome<Seq<Note>, NoteErrorModel>) -> Outcome<
    Seq<Note>,
    NoteErrorModel,
> {
    match r {
        Ok(Ok(rest)) => Ok(Ok(ns + rest)),
        other => other,
    }
}

pub proof fn lemma_prepend_notes_twice(
    a: Seq<Note>,
    b: Seq<Note>,
    r: Outcome<Seq<Note>, NoteErrorModel>,
)
    ensures
        prepend_notes(a, prepend_notes(b, r)) == prepend_notes(a + b, r),
{
    match r {
        Ok(Ok(rest)) => {
            assert(a + (b + rest) =~= (a + b) + rest);
        },
        _ => {},
    }
}

/// The slides of a star chain, each starting where the one before ended.
pub open spec fn star_chain(start: usize, segments: Seq<Seq<char>>, is_break: bool, is_firework: bool) -> Outcome<
    Seq<Note>,
    NoteErrorModel,
>
    decreases segments.len(),
{
    if segments.len() == 0 {
        Ok(Ok(Seq::empty()))
    } else {
        match slide_pattern(start, segments[0]) {
            Err(abort) => Err(abort),
            Ok(Err(e)) => Ok(Err(e)),
            Ok(Ok(d)) => match d {
                NoteDetail::Slide(_, shape, _) => prepend_notes(
                    seq![note_of(is_break, is_firework, d)],
                    star_chain(shape_end(shape), segments.drop_first(), is_break, is_firework),
                ),
                _ => Ok(Err(NoteErrorModel::StarSegmentNotSlide)),
            },
        }
    }
}

/// What a star-chained slide pattern such as `-4[8:1]*-6[8:1]` reads as.
pub open spec fn star_chained_slides(start: usize, pattern: Seq<char>, is_break: bool, is_firework: bool) -> Outcome<
    Seq<Note>,
    NoteErrorModel,
> {
    star_chain(start, split_on(pattern, '*'), is_break, is_firework)
}

fn star_chained_outcome(start_btn: usize, pattern: &Vec<char>, is_break: bool, is_firework: bool) -> (r: Outcome<
    Vec<Note>,
    NoteError,
>)
    ensures
        notes_outcome_view(r) == star_chained_slides(start_btn, pattern@, is_break, is_firework),
{
    let segments = split_chars(pattern, '*');
    let ghost segs = segments.deep_view();
    let mut notes: Vec<Note> = Vec::new();
    let mut current = start_btn;
    let mut i: usize = 0;
    assert(segs.skip(0) =~= segs);
    assert(notes@ + Seq::<Note>::empty() =~= Seq::<Note>::empty());
    proof {
        match star_chain(start_btn, segs, is_break, is_firework) {
            Ok(Ok(rest)) => {
                assert(notes@ + rest =~= rest);
            },
            _ => {},
        }
    }
    while i < segments.len()
        invariant
            i <= segments.len(),
            segs == segments.deep_view(),
            segs == split_on(pattern@, '*'),
            star_chained_slides(start_btn, pattern@, is_break, is_firework) == prepend_notes(
                notes@,
                star_chain(current, segs.skip(i as int), is_break, is_firework),
            ),
        decreases segments.len() - i,
    {
        let ghost rest = segs.skip(i as int);
        assert(rest[0] == segments[i as int]@);
        assert(rest.drop_first() =~= segs.skip(i + 1));
        let r = parse_slide_pattern(current, &segments[i]);
        match r {
            Err(abort) => {
                return Err(abort);
            },
            Ok(Err(e)) => {
                return Ok(Err(e));
            },
            Ok(Ok(d)) => {
                match d {
                    NoteDetail::Slide(_, shape, _) => {
                        let note = Note { is_break, is_firework, note_type: d };
                        let ghost old_notes = notes@;
                        assert(star_chain(current, rest, is_break, is_firework) == prepend_notes(
                            seq![note],
                            star_chain(shape_end(shape), segs.skip(i + 1), is_break, is_firework),
                        ));
                        assert(old_notes.push(note) =~= old_notes + seq![note]);
                        proof {
                            lemma_prepend_notes_twice(
                                notes@,
                                seq![note],
                                star_chain(shape_end(shape), segs.skip(i + 1), is_break, is_firework),
                            );
                        }
                        notes.push(note);
                        current = shape_end_exec(shape);
                    },
                    _ => {
                        return Ok(Err(NoteError::StarSegmentNotSlide));
                    },
                }
            },
        }
        i = i + 1;
    }
    proof {
        assert(segs.skip(i as int) =~= Seq::<Seq<char>>::empty());
        assert(notes@ + Seq::<Note>::empty() =~= notes@);
    }
    Ok(Ok(notes))
}

/// Parses star-chained slides like `"1-4[8:1]*-6[8:1]"` into sequential notes:
/// `pattern_str` (here `-4[8:1]*-6[8:1]`) is cut at every `*`, and each piece
/// is a slide that starts on the button where the one before it ended, the
/// first on `start_btn`.
pub fn parse_star_chained_slides(start_btn: usize, pattern_str: &str, is_break: bool, is_firework: bool) -> (r: Result<
    Vec<Note>,
    NoteError,
>)
    requires
        star_chained_slides(start_btn, pattern_str@, is_break, is_firework) is Ok,
    ensures
        star_chained_slides(start_btn, pattern_str@, is_break, is_firework) == Ok::<
            Result<Seq<Note>, NoteErrorModel>,
            Abort,
        >(notes_result_view(r)),
{
    let pattern = chars_of(pattern_str);
    match star_chained_outcome(start_btn, &pattern, is_break, is_firework) {
        Ok(r) => r,
        Err(_) => {
            assert(false);
            Err(NoteError::StarSegmentNotSlide)
        },
    }
}

/// [`parse_star_chained_slides`] on every pattern: `Err(abort)` where reading
/// the pattern stops the program.
pub fn try_parse_star_chained_slides(start_btn: usize, pattern_str: &str, is_break: bool, is_firework: bool) -> (r: Outcome<
    Vec<Note>,
    NoteError,
>)
    ensures
        notes_outcome_view(r) == star_chained_slides(start_btn, pattern_str@, is_break, is_firework),
{
    let pattern = chars_of(pattern_str);
    match star_chained_outcome(start_btn, &pattern, is_break, is_firework) {
        Err(abort) => Err(abort),
        Ok(_) => Ok(parse_star_chained_slides(start_btn, pattern_str, is_break, is_firework)),
    }
}

/// The modifiers a note ends with: the longest run of `x`, `f` and `b` at its
/// end.
pub open spec fn trailing_modifiers(s: Seq<char>) -> Seq<char> {
    s.subrange(run_start(s, s.len() as int, CharClass::SlideModifier), s.len() as int)
}

/// What a note in the slide syntax
/// `<button><modifiers><slide pattern>[duration]<modifiers>` reads as. An `x`
/// among the modifiers before the pattern or among those the note ends with
/// marks a break, an `f` a firework; the pattern, trailing modifiers
/// included, is read as one slide or as a star chain.
pub open spec fn slide_note(s: Seq<char>) -> Outcome<Seq<Note>, NoteErrorModel> {
    match slide_syntax(s) {
        None => Ok(Err(NoteErrorModel::InvalidSlideSyntax(s))),
        Some(m) => {
            let start = digit_value(s[0]) as usize;
            let mods = s.subrange(1, m);
            let trailing = trailing_modifiers(s);
            let pattern = s.subrange(m, s.len() as int);
            let is_break = mods.contains('x') || trailing.contains('x');
            let is_firework = mods.contains('f') || trailing.contains('f');
            if pattern.contains('*') {
                star_chained_slides(start, pattern, is_break, is_firework)
            } else {
                match slide_pattern(start, pattern) {
                    Err(abort) => Err(abort),
                    Ok(Err(e)) => Ok(Err(e)),
                    Ok(Ok(d)) => Ok(Ok(seq![note_of(is_break, is_firework, d)])),
                }
            }
        },
    }
}

/// `s[lo..hi]` as a vector.
fn sub_vec(s: &Vec<char>, lo: usize, hi: usize) -> (v: Vec<char>)
    requires
        lo <= hi <= s.len(),
    ensures
        v@ == s@.subrange(lo as int, hi as int),
{
    let mut v: Vec<char> = Vec::new();
    let mut k = lo;
    while k < hi
        invariant
            lo <= k <= hi <= s.len(),
            v@ == s@.subrange(lo as int, k as int),
        decreases hi - k,
    {
        v.push(s[k]);
        assert(s@.subrange(lo as int, k + 1) =~= s@.subrange(lo as int, k as int).push(s@[k as int]));
        k = k + 1;
    }
    v
}

pub(crate) fn parse_slide_note(s: &Vec<char>) -> (r: Outcome<Vec<Note>, NoteError>)
    ensures
        notes_outcome_view(r) == slide_note(s@),
{
    match slide_syntax_exec(s) {
        None => {
            assert(s@.subrange(0, s.len() as int) =~= s@);
            Ok(Err(NoteError::InvalidSlideSyntax(string_of(s, 0, s.len()))))
        },
        Some(m) => {
            assert(is_button_char(s@[0]));
            let start_btn = digit_of(s[0]);
            let t = scan_run_back(s, s.len(), CharClass::SlideModifier);
            let is_break = contains_char(s, 1, m, 'x') || contains_char(s, t, s.len(), 'x');
            let is_firework = contains_char(s, 1, m, 'f') || contains_char(s, t, s.len(), 'f');
            let pattern = sub_vec(s, m, s.len());
            if contains_char(s, m, s.len(), '*') {
                star_chained_outcome(start_btn, &pattern, is_break, is_firework)
            } else {
                match parse_slide_pattern(start_btn, &pattern) {
                    Err(abort) => Err(abort),
                    Ok(Err(e)) => Ok(Err(e)),
                    Ok(Ok(d)) => {
                        let mut v = Vec::new();
                        v.push(Note { is_break, is_firework, note_type: d });
                        assert(v@ =~= seq![note_of(is_break, is_firework, d)]);
                        Ok(Ok(v))
                    },
                }
            }
        },
    }
}

// ---------------------------------------------------------------------------
// What every slide keeps.
// ---------------------------------------------------------------------------

/// The button a slide shape starts on.
pub open spec fn shape_start(shape: SlideShape) -> usize {
    match shape {
        SlideShape::Straight(start, _) => start,
        SlideShape::ShortArc(start, _) => start,
        SlideShape::ClockwiseArc(start, _) => start,
        SlideShape::CounterClockwiseArc(start, _) => start,
        SlideShape::VShape(start, _) => start,
        SlideShape::PShape(start, _) => start,
        SlideShape::QShape(start, _) => start,
        SlideShape::GrandVShape(start, _, _) => start,
        SlideShape::GrandPShape(start, _) => start,
        SlideShape::GrandQShape(start, _) => start,
        SlideShape::Thunderbolt(start, _, _) => start,
        SlideShape::FanShape(start, _) => start,
    }
}

/// A slide that starts on `start`: the note's button and its shape's start.
pub open spec fn is_slide_from(d: NoteDetail, start: usize) -> bool {
    match d {
        NoteDetail::Slide(button, shape, _) => button == start && shape_start(shape) == start,
        _ => false,
    }
}

/// The button a slide note's shape ends on.
pub open spec fn slide_end(d: NoteDetail) -> usize {
    match d {
        NoteDetail::Slide(_, shape, _) => shape_end(shape),
        _ => 0,
    }
}

/// A pattern without `*` is a single slide: the chain reads as the slide
/// pattern does, that one slide becoming one note with the chain's marks.
pub proof fn lemma_chain_without_star(start: usize, p: Seq<char>, is_break: bool, is_firework: bool)
    requires
        !p.contains('*'),
    ensures
        star_chained_slides(start, p, is_break, is_firework) == match slide_pattern(start, p) {
            Err(abort) => Err(abort),
            Ok(Err(e)) => Ok(Err(e)),
            Ok(Ok(d)) => Ok::<Result<Seq<Note>, NoteErrorModel>, Abort>(
                Ok(seq![note_of(is_break, is_firework, d)]),
            ),
        },
{
    lemma_split_on_absent(p, '*');
    let segments = split_on(p, '*');
    assert(segments[0] == p);
    assert(segments.drop_first() =~= Seq::<Seq<char>>::empty());
    lemma_slide_pattern_starts(start, p);
    match slide_pattern(start, p) {
        Ok(Ok(d)) => {
            if let NoteDetail::Slide(_, shape, _) = d {
                let n = seq![note_of(is_break, is_firework, d)];
                let rest = star_chain(shape_end(shape), segments.drop_first(), is_break, is_firework);
                assert(rest == Ok::<Result<Seq<Note>, NoteErrorModel>, Abort>(Ok(Seq::<Note>::empty())));
                assert(n + Seq::<Note>::empty() =~= n);
                assert(star_chain(start, segments, is_break, is_firework) == prepend_notes(n, rest));
            }
        },
        _ => {},
    }
}

/// A slide pattern read from button `start` is a slide that starts there.
pub proof fn lemma_slide_pattern_starts(start: usize, p: Seq<char>)
    ensures
        slide_pattern(start, p) matches Ok(Ok(d)) ==> is_slide_from(d, start),
    decreases p.len(),
{
    match find_duration(p, 0) {
        None => {},
        Some((i, a, b)) => {
            let without = p.subrange(0, i) + p.subrange(b + 1, p.len() as int);
            let clean = without.subrange(0, trimmed_len(without, without.len() as int));
            if clean.len() > 0 && clean[0] == '*' {
                let next = clean.subrange(1, clean.len() as int) + p.subrange(i, b + 1);
                lemma_find_duration(p, 0);
                lemma_trimmed_len(without, without.len() as int);
                lemma_slide_pattern_starts(start, next);
            }
        },
    }
}

/// The slides of a star chain follow one another: there is one per segment,
/// the first starts on `start`, each next one starts on the button where the
/// one before it ends, and all carry the chain's break and firework marks.
pub proof fn lemma_star_chain_continuity(start: usize, segments: Seq<Seq<char>>, is_break: bool, is_firework: bool)
    ensures
        star_chain(start, segments, is_break, is_firework) matches Ok(Ok(ns)) ==> {
            &&& ns.len() == segments.len()
            &&& forall|k: int|
                0 <= k < ns.len() ==> (#[trigger] ns[k]).is_break == is_break && ns[k].is_firework
                    == is_firework
            &&& ns.len() > 0 ==> is_slide_from(ns[0].note_type, start)
            &&& forall|k: int|
                0 < k < ns.len() ==> is_slide_from(
                    (#[trigger] ns[k]).note_type,
                    slide_end(ns[k - 1].note_type),
                )
        },
    decreases segments.len(),
{
    if segments.len() > 0 {
        lemma_slide_pattern_starts(start, segments[0]);
        match slide_pattern(start, segments[0]) {
            Ok(Ok(d)) => match d {
                NoteDetail::Slide(_, shape, _) => {
                    let next = shape_end(shape);
                    lemma_star_chain_continuity(next, segments.drop_first(), is_break, is_firework);
                    match star_chain(next, segments.drop_first(), is_break, is_firework) {
                        Ok(Ok(rest)) => {
                            let ns = seq![note_of(is_break, is_firework, d)] + rest;
                            assert forall|k: int| 0 < k < ns.len() implies is_slide_from(
                                (#[trigger] ns[k]).note_type,
                                slide_end(ns[k - 1].note_type),
                            ) by {
                                assert(ns[k] == rest[k - 1]);
                                if k > 1 {
                                    assert(ns[k - 1] == rest[k - 2]);
                                }
                            }
                            assert forall|k: int| 0 <= k < ns.len() implies (#[trigger] ns[k]).is_break
                                == is_break && ns[k].is_firework == is_firework by {
                                if k > 0 {
                                    assert(ns[k] == rest[k - 1]);
                                }
                            }
                        },
                        _ => {},
                    }
                },
                _ => {},
            },
            _ => {},
        }
    }
}



// ---------------------------------------------------------------------------
// Slides of plain text never stop the program.
// ---------------------------------------------------------------------------

pub proof fn lemma_last_segment(c: Seq<char>, i: int, last: Option<(int, int, int)>)
    requires
        last matches Some((j, r, e)) ==> 0 <= j < r < e <= c.len(),
    ensures
        last_segment(c, i, last) matches Some((j, r, e)) ==> 0 <= j < r < e <= c.len(),
    decreases c.len() - i,
{
    lemma_find_segment(c, i);
    match find_segment(c, i) {
        Some((j, r, e)) => {
            lemma_last_segment(c, e, Some((j, r, e)));
        },
        None => {},
    }
}

pub proof fn lemma_find_duration_at(p: Seq<char>, k: int)
    ensures
        find_duration(p, k) matches Some((i, a, b)) ==> duration_at(p, i) == Some((a, b)),
    decreases p.len() - k,
{
    if 0 <= k < p.len() {
        lemma_find_duration_at(p, k + 1);
    }
}

/// A run of `\d` characters in plain text is a number that `usize` holds.
pub proof fn lemma_plain_digits(x: Seq<char>, i: int, j: int)
    requires
        plain_text(x),
        0 <= i < j <= x.len(),
        forall|k: int| i <= k < j ==> is_digit(#[trigger] x[k]),
    ensures
        parse_decimal(x.subrange(i, j), usize::MAX as int) == Some(decimal_value(x.subrange(i, j))),
        decimal_value(x.subrange(i, j)) < usize::MAX,
{
    let t = x.subrange(i, j);
    assert forall|k: int| 0 <= k < t.len() implies is_ascii_digit(#[trigger] t[k]) by {
        assert(t[k] == x[i + k]);
        assert(is_digit(x[i + k]));
        assert((x[i + k] as u32) < 128);
    }
    assert(all_ascii_digits(t));
}

/// Digits worth nothing start with `0`.
pub proof fn lemma_zero_starts_with_zero(t: Seq<char>)
    requires
        t.len() > 0,
        all_ascii_digits(t),
        decimal_value(t) == 0,
    ensures
        t[0] == '0',
    decreases t.len(),
{
    let d = t.drop_last();
    assert(is_ascii_digit(t[t.len() - 1]));
    if t.len() == 1 {
        assert(digit_value(t.last()) == 0);
    } else {
        lemma_decimal_value_prefix(t, t.len() - 1);
        assert(t.take(t.len() - 1) =~= d);
        assert(all_ascii_digits(d)) by {
            assert forall|k: int| 0 <= k < d.len() implies is_ascii_digit(#[trigger] d[k]) by {
                assert(d[k] == t[k]);
            }
        }
        assert(decimal_value(d) == 0);
        lemma_zero_starts_with_zero(d);
        assert(d[0] == t[0]);
    }
}

pub proof fn lemma_clean_pattern_never_stops(start: usize, clean: Seq<char>, duration: (usize, usize))
    requires
        plain_text(clean),
    ensures
        clean_pattern(start, clean, duration) !is Err,
{
    if clean.len() == 3 && clean[0] == 'V' && is_digit(clean[1]) && is_digit(clean[2]) {
        lemma_plain_digits(clean, 1, 2);
        lemma_plain_digits(clean, 2, 3);
    } else if dash_chain(clean) is Some {
        let m = dash_chain(clean)->0;
        lemma_run_end(clean, 1, CharClass::Digit);
        lemma_run_end(clean, m + 1, CharClass::Digit);
        lemma_plain_digits(clean, 1, m);
        lemma_plain_digits(clean, m + 1, clean.len() as int);
    } else {
        lemma_last_segment(clean, 0, None);
        match last_segment(clean, 0, None) {
            None => {},
            Some((j, r, e)) => {
                let ind = clean.subrange(j, r);
                let digits = clean.subrange(r, e);
                match parse_decimal(digits, usize::MAX as int) {
                    None => {},
                    Some(end) => {
                        lemma_decimal_value_prefix(digits, digits.len() as int);
                        assert(digits.take(digits.len() as int) =~= digits);
                        assert(numbers_fit(clean));
                        assert(decimal_value(clean.subrange(r, e)) < usize::MAX);
                        if ind == seq!['w'] && end == 0 {
                            lemma_zero_starts_with_zero(digits);
                            assert(ind.len() == 1);
                            assert(clean[j] == ind[0]);
                            assert(clean[r] == digits[0]);
                            assert(no_bad_neighbours(clean));
                            assert(clean[j] == 'w' && clean[r] == '0');
                            assert(false);
                        }
                        assert(named_shape(ind, start, end as usize) !is Err);
                    },
                }
            },
        }
    }
}

/// A slide pattern of plain text never stops the program.
pub proof fn lemma_slide_pattern_never_stops(start: usize, p: Seq<char>)
    requires
        plain_text(p),
    ensures
        slide_pattern(start, p) !is Err,
    decreases p.len(),
{
    match find_duration(p, 0) {
        None => {},
        Some((i, a, b)) => {
            lemma_find_duration(p, 0);
            lemma_find_duration_at(p, 0);
            assert(p[i] == '[' && p[b] == ']');
            let head = p.subrange(0, i);
            let tail = p.subrange(b + 1, p.len() as int);
            lemma_plain_subrange(p, 0, i);
            lemma_plain_subrange(p, b + 1, p.len() as int);
            if tail.len() > 0 {
                assert(tail[0] == p[b + 1]);
                assert(no_bad_neighbours(p));
                assert(p[b] == ']' && p[b + 1] == tail[0]);
            }
            lemma_plain_concat(head, tail);
            let without = head + tail;
            lemma_trimmed_len(without, without.len() as int);
            let clean = without.subrange(0, trimmed_len(without, without.len() as int));
            lemma_plain_subrange(without, 0, trimmed_len(without, without.len() as int));
            if clean.len() > 0 && clean[0] == '*' {
                let rest = clean.subrange(1, clean.len() as int);
                let dur = p.subrange(i, b + 1);
                lemma_plain_subrange(clean, 1, clean.len() as int);
                lemma_plain_subrange(p, i, b + 1);
                assert(dur[0] == '[');
                lemma_plain_concat(rest, dur);
                lemma_slide_pattern_never_stops(start, rest + dur);
            } else {
                lemma_clean_pattern_never_stops(start, clean, (
                    parse_or_one(p.subrange(i + 1, a)) as usize,
                    parse_or_one(p.subrange(a + 1, b)) as usize,
                ));
            }
        },
    }
}

/// A star chain of plain segments never stops the program.
pub proof fn lemma_star_chain_never_stops(start: usize, segments: Seq<Seq<char>>, is_break: bool, is_firework: bool)
    requires
        forall|k: int| 0 <= k < segments.len() ==> plain_text(#[trigger] segments[k]),
    ensures
        star_chain(start, segments, is_break, is_firework) !is Err,
    decreases segments.len(),
{
    if segments.len() > 0 {
        lemma_slide_pattern_never_stops(start, segments[0]);
        match slide_pattern(start, segments[0]) {
            Ok(Ok(NoteDetail::Slide(_, shape, _))) => {
                let rest = segments.drop_first();
                assert forall|k: int| 0 <= k < rest.len() implies plain_text(#[trigger] rest[k]) by {
                    assert(rest[k] == segments[k + 1]);
                }
                lemma_star_chain_never_stops(shape_end(shape), rest, is_break, is_firework);
            },
            _ => {},
        }
    }
}

/// A slide note of plain text never stops the program.
pub proof fn lemma_slide_note_never_stops(s: Seq<char>)
    requires
        plain_text(s),
    ensures
        slide_note(s) !is Err,
{
    match slide_syntax(s) {
        None => {},
        Some(m) => {
            lemma_run_end(s, 1, CharClass::SlideModifier);
            let pattern = s.subrange(m, s.len() as int);
            lemma_plain_subrange(s, m, s.len() as int);
            let start = digit_value(s[0]) as usize;
            let mods = s.subrange(1, m);
            let trailing = trailing_modifiers(s);
            let is_break = mods.contains('x') || trailing.contains('x');
            let is_firework = mods.contains('f') || trailing.contains('f');
            if pattern.contains('*') {
                lemma_split_on_plain(pattern, '*');
                lemma_star_chain_never_stops(start, split_on(pattern, '*'), is_break, is_firework);
            } else {
                lemma_slide_pattern_never_stops(start, pattern);
            }
        },
    }
}


/// A slide from button `b` with one shape `c` to button `t`, lasting `[x:y]`
/// beats with one-digit numbers, reads as that one slide, unmarked.
pub proof fn lemma_simple_slide_note(b: char, c: char, t: char, x: char, y: char)
    requires
        is_button_char(b),
        is_shape_char(c),
        is_button_char(t),
        is_ascii_digit(x),
        is_ascii_digit(y),
    ensures
        ({
            let start = digit_value(b) as usize;
            let end = digit_value(t) as usize;
            &&& named_shape(seq![c], start, end) matches Ok(Some(_))
            &&& slide_note(seq![b, c, t, '[', x, ':', y, ']']) == match named_shape(seq![c], start, end) {
                Ok(Some(shape)) => Ok::<Result<Seq<Note>, NoteErrorModel>, Abort>(
                    Ok(seq![note_of(false, false, NoteDetail::Slide(start, shape, (digit_value(x) as usize, digit_value(y) as usize)))]),
                ),
                _ => Ok(Err(NoteErrorModel::StarSegmentNotSlide)),
            }
        }),
{
    let s = seq![b, c, t, '[', x, ':', y, ']'];
    // The slide syntax: no modifiers, the shape and its target, the duration.
    assert(run_end(s, 2, CharClass::SlideModifier) == 2);
    assert(run_end(s, 1, CharClass::SlideModifier) == 1);
    assert(run_end(s, 3, CharClass::Digit) == 3);
    assert(run_end(s, 2, CharClass::Digit) == 3);
    assert(shape_target_end(s, 1) == Some(3int));
    assert(shape_target_end(s, 3) is None);
    assert(shape_targets_end(s, 3) == 3);
    assert(run_end(s, 7, CharClass::DigitOrColon) == 7);
    assert(run_end(s, 6, CharClass::DigitOrColon) == 7);
    assert(run_end(s, 5, CharClass::DigitOrColon) == 7);
    assert(run_end(s, 4, CharClass::DigitOrColon) == 7);
    assert(run_end(s, 3, CharClass::SlideModifier) == 3);
    assert(run_end(s, 8, CharClass::SlideModifier) == 8);
    assert(block_end(s, 3) == 8);
    assert(star_chain_end(s, 8) == 8);
    assert(slide_syntax(s) == Some(1int));
    assert(run_start(s, 8, CharClass::SlideModifier) == 8);
    assert(trailing_modifiers(s) =~= Seq::<char>::empty());
    assert(s.subrange(1, 1) =~= Seq::<char>::empty());
    // The pattern and its duration.
    let p = s.subrange(1, 8);
    assert(p =~= seq![c, t, '[', x, ':', y, ']']);
    assert(!p.contains('*')) by {
        if p.contains('*') {
            let k = choose|k: int| 0 <= k < p.len() && p[k] == '*';
            assert(p[k] == '*');
        }
    }
    assert(duration_at(p, 0) is None);
    assert(duration_at(p, 1) is None);
    assert(run_end(p, 4, CharClass::Digit) == 4);
    assert(run_end(p, 3, CharClass::Digit) == 4);
    assert(run_end(p, 6, CharClass::Digit) == 6);
    assert(run_end(p, 5, CharClass::Digit) == 6);
    assert(duration_at(p, 2) == Some((4int, 6int)));
    assert(find_duration(p, 2) == Some((2int, 4int, 6int)));
    assert(find_duration(p, 1) == Some((2int, 4int, 6int)));
    assert(find_duration(p, 0) == Some((2int, 4int, 6int)));
    assert(p.subrange(3, 4) =~= seq![x]);
    assert(p.subrange(5, 6) =~= seq![y]);
    crate::tap::lemma_single_digit(x);
    crate::tap::lemma_single_digit(y);
    crate::tap::lemma_single_digit(t);
    let without = p.subrange(0, 2) + p.subrange(7, 7);
    assert(without =~= seq![c, t]);
    assert(trimmed_len(without, 2) == 2);
    let clean = without.subrange(0, 2);
    assert(clean =~= seq![c, t]);
    // The shape and its target.
    assert(dash_chain(clean) is None) by {
        assert(run_end(clean, 2, CharClass::Digit) == 2);
        assert(run_end(clean, 1, CharClass::Digit) == 2);
    }
    assert(run_end(clean, 1, CharClass::ShapeChar) == 1);
    assert(run_end(clean, 0, CharClass::ShapeChar) == 1);
    assert(run_end(clean, 2, CharClass::Digit) == 2);
    assert(run_end(clean, 1, CharClass::Digit) == 2);
    assert(segment_at(clean, 0) == Some((1int, 2int)));
    assert(find_segment(clean, 0) == Some((0int, 1int, 2int)));
    assert(find_segment(clean, 2) is None);
    assert(last_segment(clean, 2, Some((0int, 1int, 2int))) == Some((0int, 1int, 2int)));
    assert(last_segment(clean, 0, None) == Some((0int, 1int, 2int)));
    assert(clean.subrange(0, 1) =~= seq![c]);
    assert(clean.subrange(1, 2) =~= seq![t]);
}


/// A grand V `V<mid><end>[x:y]` read from `start` is a slide to `end` by way
/// of `mid`, and a star chain that begins with it goes on from `end`, the
/// button written last, not from `mid`.
pub proof fn lemma_chain_after_grand_v(
    start: usize,
    m: char,
    e: char,
    x: char,
    y: char,
    rest: Seq<char>,
    is_break: bool,
    is_firework: bool,
)
    requires
        is_ascii_digit(m),
        is_ascii_digit(e),
        is_ascii_digit(x),
        is_ascii_digit(y),
    ensures
        ({
            let v = seq!['V', m, e, '[', x, ':', y, ']'];
            let end = digit_value(e) as usize;
            &&& slide_pattern(start, v) == Ok::<Result<NoteDetail, NoteErrorModel>, Abort>(
                Ok(NoteDetail::Slide(start, SlideShape::GrandVShape(start, end, digit_value(m) as usize), (
                    digit_value(x) as usize,
                    digit_value(y) as usize,
                ))),
            )
            &&& star_chain(start, seq![v, rest], is_break, is_firework) matches Ok(Ok(ns)) ==> (ns.len() == 2
                && (ns[1].note_type matches NoteDetail::Slide(next, _, _) && next == end))
        }),
{
    let p = seq!['V', m, e, '[', x, ':', y, ']'];
    assert(duration_at(p, 0) is None);
    assert(duration_at(p, 1) is None);
    assert(duration_at(p, 2) is None);
    assert(run_end(p, 5, CharClass::Digit) == 5);
    assert(run_end(p, 4, CharClass::Digit) == 5);
    assert(run_end(p, 7, CharClass::Digit) == 7);
    assert(run_end(p, 6, CharClass::Digit) == 7);
    assert(duration_at(p, 3) == Some((5int, 7int)));
    assert(find_duration(p, 3) == Some((3int, 5int, 7int)));
    assert(find_duration(p, 2) == Some((3int, 5int, 7int)));
    assert(find_duration(p, 1) == Some((3int, 5int, 7int)));
    assert(find_duration(p, 0) == Some((3int, 5int, 7int)));
    assert(p.subrange(4, 5) =~= seq![x]);
    assert(p.subrange(6, 7) =~= seq![y]);
    crate::tap::lemma_single_digit(x);
    crate::tap::lemma_single_digit(y);
    crate::tap::lemma_single_digit(m);
    crate::tap::lemma_single_digit(e);
    let without = p.subrange(0, 3) + p.subrange(8, 8);
    assert(without =~= seq!['V', m, e]);
    assert(trimmed_len(without, 3) == 3);
    let clean = without.subrange(0, 3);
    assert(clean =~= seq!['V', m, e]);
    assert(clean.subrange(1, 2) =~= seq![m]);
    assert(clean.subrange(2, 3) =~= seq![e]);
    let d1 = NoteDetail::Slide(start, SlideShape::GrandVShape(start, digit_value(e) as usize, digit_value(m) as usize), (
        digit_value(x) as usize,
        digit_value(y) as usize,
    ));
    assert(slide_pattern(start, p) == Ok::<Result<NoteDetail, NoteErrorModel>, Abort>(Ok(d1)));
    let segs = seq![p, rest];
    let next = digit_value(e) as usize;
    assert(segs[0] == p);
    assert(segs.drop_first() =~= seq![rest]);
    lemma_slide_pattern_starts(next, rest);
    let tail = seq![rest];
    assert(tail[0] == rest);
    assert(tail.drop_first() =~= Seq::<Seq<char>>::empty());
    match slide_pattern(next, rest) {
        Ok(Ok(d2)) => {
            if let NoteDetail::Slide(_, shape2, _) = d2 {
                let r2 = star_chain(shape_end(shape2), tail.drop_first(), is_break, is_firework);
                assert(r2 == Ok::<Result<Seq<Note>, NoteErrorModel>, Abort>(Ok(Seq::<Note>::empty())));
                let n2 = seq![note_of(is_break, is_firework, d2)];
                assert(n2 + Seq::<Note>::empty() =~= n2);
                assert(star_chain(next, tail, is_break, is_firework) == prepend_notes(n2, r2));
                let n1 = seq![note_of(is_break, is_firework, d1)];
                assert(star_chain(start, segs, is_break, is_firework) == prepend_notes(
                    n1,
                    star_chain(next, segs.drop_first(), is_break, is_firework),
                ));
                assert((n1 + n2)[1] == note_of(is_break, is_firework, d2));
            }
        },
        _ => {},
    }
}

} // verus!

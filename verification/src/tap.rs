//! Taps, holds and touches: a location, modifiers and an optional hold
//! duration.

use vstd::prelude::*;

use crate::element::{Note, NoteDetail, NoteError, NoteErrorModel};
use crate::note_parser::{note_of, notes_result_view, on_board, parse_or_one};
use crate::text::{
    all_ascii_digits, digit_value, is_ascii_digit, is_digit, lemma_run_end, parse_decimal,
    parse_decimal_range, run_end, scan_run, string_of, CharClass,
};

verus! {

// ---------------------------------------------------------------------------
// Taps, holds and touches:
//   ^([A-E][1-8]|[1-8]|[1-8][1-8]|C|E)([xhfb]*)(?:\[(\d+):(\d+)\])?([xhfb]*)$
// ---------------------------------------------------------------------------

pub open spec fn is_button_char(c: char) -> bool {
    '1' <= c && c <= '8'
}

/// The length of the location that alternative `k` of
/// `[A-E][1-8]|[1-8]|[1-8][1-8]|C|E` matches at the start of `s`.
pub open spec fn location_alternative(s: Seq<char>, k: int) -> Option<int> {
    if k == 0 && s.len() >= 2 && 'A' <= s[0] && s[0] <= 'E' && is_button_char(s[1]) {
        Some(2)
    } else if k == 1 && s.len() >= 1 && is_button_char(s[0]) {
        Some(1)
    } else if k == 2 && s.len() >= 2 && is_button_char(s[0]) && is_button_char(s[1]) {
        Some(2)
    } else if k == 3 && s.len() >= 1 && s[0] == 'C' {
        Some(1)
    } else if k == 4 && s.len() >= 1 && s[0] == 'E' {
        Some(1)
    } else {
        None
    }
}

/// Matches `([xhfb]*)(?:\[(\d+):(\d+)\])?([xhfb]*)$` from `i`: the end of the
/// first modifiers and, when the hold duration is there, the positions of its
/// `:` and `]`.
pub open spec fn tap_tail(s: Seq<char>, i: int) -> Option<(int, Option<(int, int)>)> {
    let m = run_end(s, i, CharClass::TapModifier);
    if m == s.len() {
        Some((m, None))
    } else if s[m] == '[' {
        let a = run_end(s, m + 1, CharClass::Digit);
        if a > m + 1 && a < s.len() && s[a] == ':' {
            let b = run_end(s, a + 1, CharClass::Digit);
            if b > a + 1 && b < s.len() && s[b] == ']' && run_end(s, b + 1, CharClass::TapModifier)
                == s.len() {
                Some((m, Some((a, b))))
            } else {
                None
            }
        } else {
            None
        }
    } else {
        None
    }
}

/// The first location alternative, from `k` on, after which the rest of the
/// note matches: (end of the location, end of the modifiers, hold duration).
pub open spec fn tap_syntax_from(s: Seq<char>, k: int) -> Option<(int, int, Option<(int, int)>)>
    decreases 5 - k,
{
    if k < 0 || k >= 5 {
        None
    } else {
        match location_alternative(s, k) {
            Some(l) => match tap_tail(s, l) {
                Some((m, h)) => Some((l, m, h)),
                None => tap_syntax_from(s, k + 1),
            },
            None => tap_syntax_from(s, k + 1),
        }
    }
}

pub open spec fn tap_syntax(s: Seq<char>) -> Option<(int, int, Option<(int, int)>)> {
    tap_syntax_from(s, 0)
}

pub open spec fn ascii_upper(c: char) -> char {
    if 'a' <= c && c <= 'z' {
        ((c as u8) - 32) as char
    } else {
        c
    }
}

/// What a tap, hold or touch note reads as.
pub open spec fn tap_note(s: Seq<char>) -> Result<Seq<Note>, NoteErrorModel> {
    match tap_syntax(s) {
        None => Err(NoteErrorModel::InvalidNoteSyntax(s)),
        Some((l, m, h)) => {
            let mods = s.subrange(l, m);
            let after = match h {
                Some((a, b)) => s.subrange(b + 1, s.len() as int),
                None => s.subrange(m, s.len() as int),
            };
            let is_break = mods.contains('x') || after.contains('x');
            let is_firework = mods.contains('f') || after.contains('f');
            let is_hold = mods.contains('h');
            let duration = match h {
                Some((a, b)) => Some(
                    (
                        parse_or_one(s.subrange(m + 1, a)) as usize,
                        parse_or_one(s.subrange(a + 1, b)) as usize,
                    ),
                ),
                None => None,
            };
            let loc = s.subrange(0, l);
            if l == 2 && is_ascii_digit(s[0]) && is_ascii_digit(s[1]) {
                Ok(
                    seq![
                        note_of(is_break, is_firework, NoteDetail::Tap(digit_value(s[0]) as usize)),
                        note_of(is_break, is_firework, NoteDetail::Tap(digit_value(s[1]) as usize)),
                    ],
                )
            } else {
                match parse_decimal(loc, usize::MAX as int) {
                    Some(button) => if is_hold {
                        match duration {
                            Some(d) => Ok(
                                seq![note_of(is_break, is_firework, NoteDetail::TapHold(button as usize, d))],
                            ),
                            None => Err(NoteErrorModel::HoldRequiresDuration),
                        }
                    } else {
                        Ok(seq![note_of(is_break, is_firework, NoteDetail::Tap(button as usize))])
                    },
                    None => {
                        let zone = ascii_upper(s[0]);
                        let index: usize = if l > 1 {
                            if is_ascii_digit(s[1]) {
                                digit_value(s[1]) as usize
                            } else {
                                1
                            }
                        } else {
                            1
                        };
                        if is_hold {
                            let d = match duration {
                                Some(d) => d,
                                None => (1usize, 1usize),
                            };
                            Ok(seq![note_of(is_break, is_firework, NoteDetail::TouchHold((index, zone), d))])
                        } else {
                            Ok(seq![note_of(is_break, is_firework, NoteDetail::Touch((index, zone)))])
                        }
                    },
                }
            }
        },
    }
}

pub(crate) fn is_button_exec(c: char) -> (r: bool)
    ensures
        r == is_button_char(c),
{
    '1' <= c && c <= '8'
}

fn location_alternative_exec(s: &Vec<char>, k: usize) -> (r: Option<usize>)
    ensures
        match r {
            Some(l) => location_alternative(s@, k as int) == Some(l as int),
            None => location_alternative(s@, k as int) is None,
        },
{
    let n = s.len();
    if k == 0 && n >= 2 && 'A' <= s[0] && s[0] <= 'E' && is_button_exec(s[1]) {
        Some(2)
    } else if k == 1 && n >= 1 && is_button_exec(s[0]) {
        Some(1)
    } else if k == 2 && n >= 2 && is_button_exec(s[0]) && is_button_exec(s[1]) {
        Some(2)
    } else if k == 3 && n >= 1 && s[0] == 'C' {
        Some(1)
    } else if k == 4 && n >= 1 && s[0] == 'E' {
        Some(1)
    } else {
        None
    }
}

fn tap_tail_exec(s: &Vec<char>, i: usize) -> (r: Option<(usize, Option<(usize, usize)>)>)
    requires
        i <= s.len(),
    ensures
        match r {
            Some((m, None)) => tap_tail(s@, i as int) == Some((m as int, None::<(int, int)>)),
            Some((m, Some((a, b)))) => tap_tail(s@, i as int) == Some(
                (m as int, Some((a as int, b as int))),
            ),
            None => tap_tail(s@, i as int) is None,
        },
{
    let m = scan_run(s, i, CharClass::TapModifier);
    if m == s.len() {
        return Some((m, None));
    }
    if s[m] != '[' {
        return None;
    }
    let a = scan_run(s, m + 1, CharClass::Digit);
    if !(a > m + 1 && a < s.len() && s[a] == ':') {
        return None;
    }
    let b = scan_run(s, a + 1, CharClass::Digit);
    if !(b > a + 1 && b < s.len() && s[b] == ']') {
        return None;
    }
    let e = scan_run(s, b + 1, CharClass::TapModifier);
    if e == s.len() {
        Some((m, Some((a, b))))
    } else {
        None
    }
}

fn tap_syntax_exec(s: &Vec<char>) -> (r: Option<(usize, usize, Option<(usize, usize)>)>)
    ensures
        match r {
            Some((l, m, None)) => tap_syntax(s@) == Some((l as int, m as int, None::<(int, int)>)),
            Some((l, m, Some((a, b)))) => tap_syntax(s@) == Some(
                (l as int, m as int, Some((a as int, b as int))),
            ),
            None => tap_syntax(s@) is None,
        },
        match r {
            Some((l, m, h)) => 1 <= l <= m <= s.len() && l <= 2 && match h {
                Some((a, b)) => m < a < b < s.len(),
                None => m == s.len(),
            },
            None => true,
        },
{
    let mut k: usize = 0;
    while k < 5
        invariant
            k <= 5,
            tap_syntax(s@) == tap_syntax_from(s@, k as int),
        decreases 5 - k,
    {
        match location_alternative_exec(s, k) {
            Some(l) => {
                match tap_tail_exec(s, l) {
                    Some((m, h)) => {
                        proof {
                            lemma_run_end(s@, l as int, CharClass::TapModifier);
                            if h is Some {
                                let (a, b) = h->0;
                                lemma_run_end(s@, m + 1, CharClass::Digit);
                            }
                        }
                        return Some((l, m, h));
                    },
                    None => {},
                }
            },
            None => {},
        }
        k = k + 1;
    }
    None
}

/// Whether `s[lo..hi]` holds `c`.
pub fn contains_char(s: &Vec<char>, lo: usize, hi: usize, c: char) -> (r: bool)
    requires
        lo <= hi <= s.len(),
    ensures
        r == s@.subrange(lo as int, hi as int).contains(c),
{
    let mut k = lo;
    while k < hi
        invariant
            lo <= k <= hi <= s.len(),
            forall|j: int| lo <= j < k ==> s@[j] != c,
        decreases hi - k,
    {
        if s[k] == c {
            assert(s@.subrange(lo as int, hi as int)[k - lo] == c);
            return true;
        }
        k = k + 1;
    }
    assert forall|j: int| 0 <= j < hi - lo implies s@.subrange(lo as int, hi as int)[j] != c by {
        assert(s@.subrange(lo as int, hi as int)[j] == s@[lo + j]);
    }
    false
}

pub(crate) fn parse_or_one_exec(s: &Vec<char>, lo: usize, hi: usize) -> (r: usize)
    requires
        lo <= hi <= s.len(),
    ensures
        r as int == parse_or_one(s@.subrange(lo as int, hi as int)),
{
    match parse_decimal_range(s, lo, hi, usize::MAX) {
        Some(v) => v,
        None => 1,
    }
}

fn ascii_upper_exec(c: char) -> (r: char)
    ensures
        r == ascii_upper(c),
{
    if 'a' <= c && c <= 'z' {
        ((c as u8) - 32) as char
    } else {
        c
    }
}

pub(crate) fn digit_of(c: char) -> (r: usize)
    requires
        is_ascii_digit(c),
    ensures
        r as int == digit_value(c),
        r <= 9,
{
    (c as u32 - '0' as u32) as usize
}

/// Reads a tap, hold or touch note.
pub(crate) fn parse_tap_or_touch_note(s: &Vec<char>) -> (r: Result<Vec<Note>, NoteError>)
    ensures
        notes_result_view(r) == tap_note(s@),
{
    let syntax = tap_syntax_exec(s);
    assert(s@.subrange(0, s.len() as int) =~= s@);
    match syntax {
        None => Err(NoteError::InvalidNoteSyntax(string_of(s, 0, s.len()))),
        Some((l, m, h)) => {
            let (after_lo, after_hi) = match h {
                Some((a, b)) => (b + 1, s.len()),
                None => (m, s.len()),
            };
            let is_break = contains_char(s, l, m, 'x') || contains_char(s, after_lo, after_hi, 'x');
            let is_firework = contains_char(s, l, m, 'f') || contains_char(
                s,
                after_lo,
                after_hi,
                'f',
            );
            let is_hold = contains_char(s, l, m, 'h');
            let duration: Option<(usize, usize)> = match h {
                Some((a, b)) => Some((parse_or_one_exec(s, m + 1, a), parse_or_one_exec(s, a + 1, b))),
                None => None,
            };
            assert(s@.subrange(0, s.len() as int) =~= s@);
            if l == 2 && '0' <= s[0] && s[0] <= '9' && '0' <= s[1] && s[1] <= '9' {
                let b1 = digit_of(s[0]);
                let b2 = digit_of(s[1]);
                let mut v = Vec::new();
                v.push(Note { is_break, is_firework, note_type: NoteDetail::Tap(b1) });
                v.push(Note { is_break, is_firework, note_type: NoteDetail::Tap(b2) });
                assert(v@ =~= seq![
                    note_of(is_break, is_firework, NoteDetail::Tap(b1)),
                    note_of(is_break, is_firework, NoteDetail::Tap(b2)),
                ]);
                return Ok(v);
            }
            match parse_decimal_range(s, 0, l, usize::MAX) {
                Some(button) => {
                    if is_hold {
                        match duration {
                            Some(d) => {
                                let mut v = Vec::new();
                                v.push(
                                    Note { is_break, is_firework, note_type: NoteDetail::TapHold(button, d) },
                                );
                                assert(v@ =~= seq![note_of(is_break, is_firework, NoteDetail::TapHold(button, d))]);
                                Ok(v)
                            },
                            None => Err(NoteError::HoldRequiresDuration),
                        }
                    } else {
                        let mut v = Vec::new();
                        v.push(Note { is_break, is_firework, note_type: NoteDetail::Tap(button) });
                        assert(v@ =~= seq![note_of(is_break, is_firework, NoteDetail::Tap(button))]);
                        Ok(v)
                    }
                },
                None => {
                    let zone = ascii_upper_exec(s[0]);
                    let index: usize = if l > 1 {
                        if '0' <= s[1] && s[1] <= '9' {
                            digit_of(s[1])
                        } else {
                            1
                        }
                    } else {
                        1
                    };
                    let mut v = Vec::new();
                    if is_hold {
                        let d = match duration {
                            Some(d) => d,
                            None => (1usize, 1usize),
                        };
                        v.push(
                            Note {
                                is_break,
                                is_firework,
                                note_type: NoteDetail::TouchHold((index, zone), d),
                            },
                        );
                        assert(v@ =~= seq![note_of(is_break, is_firework, NoteDetail::TouchHold((index, zone), d))]);
                    } else {
                        v.push(
                            Note { is_break, is_firework, note_type: NoteDetail::Touch((index, zone)) },
                        );
                        assert(v@ =~= seq![note_of(is_break, is_firework, NoteDetail::Touch((index, zone)))]);
                    }
                    Ok(v)
                },
            }
        },
    }
}


/// What the location alternatives leave of a matched location of length `l`.
pub open spec fn location_ok(s: Seq<char>, l: int) -> bool {
    ||| l == 1 && s.len() >= 1 && (is_button_char(s[0]) || s[0] == 'C' || s[0] == 'E')
    ||| l == 2 && s.len() >= 2 && (('A' <= s[0] && s[0] <= 'E') || is_button_char(s[0]))
        && is_button_char(s[1])
}

proof fn lemma_tap_syntax_location(s: Seq<char>, k: int)
    ensures
        tap_syntax_from(s, k) matches Some((l, m, h)) ==> location_ok(s, l),
    decreases 5 - k,
{
    if 0 <= k < 5 {
        lemma_tap_syntax_location(s, k + 1);
    }
}

pub(crate) proof fn lemma_single_digit(c: char)
    requires
        is_ascii_digit(c),
    ensures
        parse_decimal(seq![c], usize::MAX as int) == Some(digit_value(c)),
{
    let t = seq![c];
    assert(t.drop_last() =~= Seq::<char>::empty());
    assert(all_ascii_digits(t));
    assert(t.last() == c);
    assert(crate::text::decimal_value(t.drop_last()) == 0);
    assert(crate::text::decimal_value(t) == digit_value(c));
    assert(digit_value(c) <= 9);
}

pub proof fn lemma_tap_note_on_board(s: Seq<char>)
    ensures
        tap_note(s) matches Ok(ns) ==> {
            &&& ns.len() >= 1
            &&& forall|k: int| 0 <= k < ns.len() ==> on_board((#[trigger] ns[k]).note_type)
            &&& forall|k: int|
                0 <= k < ns.len() ==> (#[trigger] ns[k]).is_break == ns[0].is_break && ns[k].is_firework
                    == ns[0].is_firework
        },
{
    lemma_tap_syntax_location(s, 0);
    match tap_syntax(s) {
        None => {},
        Some((l, m, h)) => {
            let loc = s.subrange(0, l);
            if l == 2 && is_ascii_digit(s[0]) && is_ascii_digit(s[1]) {
            } else if l == 1 && is_ascii_digit(s[0]) {
                assert(loc =~= seq![s[0]]);
                lemma_single_digit(s[0]);
            } else {
                assert(parse_decimal(loc, usize::MAX as int) is None) by {
                    if l == 1 {
                        assert(!is_ascii_digit(loc[0]));
                    } else {
                        if !is_ascii_digit(s[0]) {
                            assert(!is_ascii_digit(loc[0]));
                        } else {
                            assert(!is_ascii_digit(loc[1]));
                        }
                    }
                }
            }
        },
    }
}


/// A button alone, or followed by one mark, is a tap on that button: `x`
/// marks a break, `f` a firework, `b` nothing that a tap keeps.
pub proof fn lemma_tap_forms(b: char, m: char)
    requires
        is_button_char(b),
        m == 'x' || m == 'f' || m == 'b',
    ensures
        tap_note(seq![b]) == Ok::<Seq<Note>, NoteErrorModel>(
            seq![note_of(false, false, NoteDetail::Tap(digit_value(b) as usize))],
        ),
        tap_note(seq![b, m]) == Ok::<Seq<Note>, NoteErrorModel>(
            seq![note_of(m == 'x', m == 'f', NoteDetail::Tap(digit_value(b) as usize))],
        ),
{
    lemma_single_digit(b);
    let s = seq![b];
    assert(location_alternative(s, 0) is None);
    assert(run_end(s, 1, CharClass::TapModifier) == 1);
    assert(tap_syntax_from(s, 1) == Some((1int, 1int, None::<(int, int)>)));
    assert(tap_syntax(s) == Some((1int, 1int, None::<(int, int)>)));
    assert(s.subrange(0, 1) =~= seq![b]);
    assert(s.subrange(1, 1) =~= Seq::<char>::empty());
    let t = seq![b, m];
    assert(location_alternative(t, 0) is None);
    assert(run_end(t, 2, CharClass::TapModifier) == 2);
    assert(run_end(t, 1, CharClass::TapModifier) == 2);
    assert(tap_syntax_from(t, 1) == Some((1int, 2int, None::<(int, int)>)));
    assert(tap_syntax(t) == Some((1int, 2int, None::<(int, int)>)));
    assert(t.subrange(0, 1) =~= seq![b]);
    assert(t.subrange(1, 2) =~= seq![m]);
    assert(t.subrange(2, 2) =~= Seq::<char>::empty());
    assert(seq![m].contains('x') == (m == 'x')) by {
        if m == 'x' {
            assert(seq![m][0] == 'x');
        }
    }
    assert(seq![m].contains('f') == (m == 'f')) by {
        if m == 'f' {
            assert(seq![m][0] == 'f');
        }
    }
    assert(!seq![m].contains('h'));
}

/// A hold on button `b` written `bh[x:y]`, one-digit numbers, lasts `x:y`.
pub proof fn lemma_hold_form(b: char, x: char, y: char)
    requires
        is_button_char(b),
        is_ascii_digit(x),
        is_ascii_digit(y),
    ensures
        tap_note(seq![b, 'h', '[', x, ':', y, ']']) == Ok::<Seq<Note>, NoteErrorModel>(
            seq![note_of(false, false, NoteDetail::TapHold(digit_value(b) as usize, (digit_value(x) as usize, digit_value(y) as usize)))],
        ),
{
    lemma_single_digit(b);
    lemma_single_digit(x);
    lemma_single_digit(y);
    let s = seq![b, 'h', '[', x, ':', y, ']'];
    assert(location_alternative(s, 0) is None);
    assert(run_end(s, 2, CharClass::TapModifier) == 2);
    assert(run_end(s, 1, CharClass::TapModifier) == 2);
    assert(run_end(s, 4, CharClass::Digit) == 4);
    assert(run_end(s, 3, CharClass::Digit) == 4);
    assert(run_end(s, 6, CharClass::Digit) == 6);
    assert(run_end(s, 5, CharClass::Digit) == 6);
    assert(run_end(s, 7, CharClass::TapModifier) == 7);
    assert(tap_tail(s, 1) == Some((2int, Some((4int, 6int)))));
    assert(tap_syntax_from(s, 1) == Some((1int, 2int, Some((4int, 6int)))));
    assert(tap_syntax(s) == Some((1int, 2int, Some((4int, 6int)))));
    assert(s.subrange(0, 1) =~= seq![b]);
    assert(s.subrange(1, 2) =~= seq!['h']);
    assert(s.subrange(7, 7) =~= Seq::<char>::empty());
    assert(s.subrange(3, 4) =~= seq![x]);
    assert(s.subrange(5, 6) =~= seq![y]);
    assert(seq!['h'].contains('h')) by {
        assert(seq!['h'][0] == 'h');
    }
    assert(!seq!['h'].contains('x'));
    assert(!seq!['h'].contains('f'));
}


/// Where the tap syntax matches, the location is followed by the rest of the
/// grammar, and it holds neither `x` nor `f`.
proof fn lemma_tap_syntax_parts(s: Seq<char>, k: int)
    ensures
        tap_syntax_from(s, k) matches Some((l, m, h)) ==> 0 < l <= s.len() && tap_tail(s, l) == Some((m, h))
            && forall|i: int| 0 <= i < l ==> s[i] != 'x' && s[i] != 'f',
    decreases 5 - k,
{
    if 0 <= k < 5 {
        lemma_tap_syntax_parts(s, k + 1);
    }
}

/// What follows the location: modifiers, then either the end or a duration
/// `[d:l]`, which holds neither `x` nor `f`, and modifiers to the end.
proof fn lemma_tap_tail_parts(s: Seq<char>, l: int, m: int, h: Option<(int, int)>)
    requires
        0 <= l <= s.len(),
        tap_tail(s, l) == Some((m, h)),
    ensures
        l <= m <= s.len(),
        h is None ==> m == s.len(),
        h matches Some((a, b)) ==> m < b < s.len() && forall|i: int| m <= i <= b ==> s[i] != 'x' && s[i] != 'f',
{
    lemma_run_end(s, l, CharClass::TapModifier);
    assert(!is_digit('x') && !is_digit('f'));
    if m < s.len() {
        let a = run_end(s, m + 1, CharClass::Digit);
        lemma_run_end(s, m + 1, CharClass::Digit);
        let b = run_end(s, a + 1, CharClass::Digit);
        lemma_run_end(s, a + 1, CharClass::Digit);
        assert forall|i: int| m <= i <= b implies s[i] != 'x' && s[i] != 'f' by {
            if m < i < a {
                assert(is_digit(s[i]));
            } else if a < i < b {
                assert(is_digit(s[i]));
            }
        }
    }
}

proof fn lemma_mark_in_tap(s: Seq<char>, l: int, m: int, h: Option<(int, int)>, c: char)
    requires
        c == 'x' || c == 'f',
        0 < l <= m <= s.len(),
        forall|i: int| 0 <= i < l ==> s[i] != 'x' && s[i] != 'f',
        h is None ==> m == s.len(),
        h matches Some((a, b)) ==> m < b < s.len() && forall|i: int| m <= i <= b ==> s[i] != 'x' && s[i] != 'f',
    ensures
        s.contains(c) == (s.subrange(l, m).contains(c) || (match h {
            Some((a, b)) => s.subrange(b + 1, s.len() as int),
            None => s.subrange(m, s.len() as int),
        }).contains(c)),
{
    let mods = s.subrange(l, m);
    let after = match h {
        Some((a, b)) => s.subrange(b + 1, s.len() as int),
        None => s.subrange(m, s.len() as int),
    };
    let lo: int = match h {
        Some((a, b)) => b + 1,
        None => m,
    };
    assert(after == s.subrange(lo, s.len() as int));
    if s.contains(c) {
        let i = choose|i: int| 0 <= i < s.len() && s[i] == c;
        if i < m {
            assert(mods[i - l] == c);
        } else {
            assert(after[i - lo] == c);
        }
    }
    if mods.contains(c) {
        let i = choose|i: int| 0 <= i < mods.len() && mods[i] == c;
        assert(s[l + i] == c);
    }
    if after.contains(c) {
        let i = choose|i: int| 0 <= i < after.len() && after[i] == c;
        assert(s[lo + i] == c);
    }
}

/// A tap, hold, touch or touch hold is a break exactly when its text holds an
/// `x`, and a firework exactly when it holds an `f`, whether the mark stands
/// before or after the duration; a pair of taps shares the marks.
pub proof fn lemma_tap_marks(s: Seq<char>)
    ensures
        tap_note(s) matches Ok(ns) ==> forall|k: int|
            0 <= k < ns.len() ==> (#[trigger] ns[k]).is_break == s.contains('x') && ns[k].is_firework
                == s.contains('f'),
{
    lemma_tap_syntax_parts(s, 0);
    match tap_syntax(s) {
        None => {},
        Some((l, m, h)) => {
            lemma_tap_tail_parts(s, l, m, h);
            lemma_mark_in_tap(s, l, m, h, 'x');
            lemma_mark_in_tap(s, l, m, h, 'f');
        },
    }
}

} // verus!

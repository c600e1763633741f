//! Reading one note of a chart: taps, holds, touches and slides.

use vstd::prelude::*;

use crate::element::{Abort, Note, NoteDetail, NoteError, NoteErrorModel, Outcome};
use crate::slide::{
    lemma_slide_note_never_stops, lemma_slide_pattern_starts, lemma_star_chain_continuity, parse_slide_note, slide_note,
    slide_syntax, trailing_modifiers,
};
use crate::tap::{lemma_tap_note_on_board, parse_tap_or_touch_note, tap_note};
use crate::text::{plain_text, chars_of, class_has, digit_value, is_shape_char, parse_decimal, split_on, CharClass};

verus! {

/// A result over notes seen as mathematical values.
pub open spec fn notes_result_view(r: Result<Vec<Note>, NoteError>) -> Result<Seq<Note>, NoteErrorModel> {
    match r {
        Ok(ns) => Ok(ns@),
        Err(e) => Err(e@),
    }
}

pub open spec fn notes_outcome_view(r: Outcome<Vec<Note>, NoteError>) -> Outcome<Seq<Note>, NoteErrorModel> {
    match r {
        Ok(inner) => Ok(notes_result_view(inner)),
        Err(a) => Err(a),
    }
}

pub open spec fn detail_outcome_view(r: Outcome<NoteDetail, NoteError>) -> Outcome<NoteDetail, NoteErrorModel> {
    match r {
        Ok(Ok(d)) => Ok(Ok(d)),
        Ok(Err(e)) => Ok(Err(e@)),
        Err(a) => Err(a),
    }
}

pub open spec fn note_of(is_break: bool, is_firework: bool, d: NoteDetail) -> Note {
    Note { is_break, is_firework, note_type: d }
}

/// `str::parse` of a `\d` run, falling back to 1 as the chart's durations do.
pub open spec fn parse_or_one(s: Seq<char>) -> int {
    match parse_decimal(s, usize::MAX as int) {
        Some(v) => v,
        None => 1,
    }
}

/// Whether `s` holds a character of `(pp|qq|[-^v<>pqszVw*])`.
pub open spec fn has_slide_mark(s: Seq<char>) -> bool {
    exists|i: int| 0 <= i < s.len() && (is_shape_char(#[trigger] s[i]) || s[i] == '*')
}

/// What one note reads as: the notes, the reason it is refused, or
/// `Err(abort)` where reading it stops the program.
pub open spec fn note_outcome(s: Seq<char>) -> Outcome<Seq<Note>, NoteErrorModel> {
    if s.len() == 0 {
        Ok(Err(NoteErrorModel::EmptyNote))
    } else if has_slide_mark(s) {
        slide_note(s)
    } else {
        Ok(tap_note(s))
    }
}

pub open spec fn note_aborts(s: Seq<char>) -> bool {
    note_outcome(s) is Err
}

fn has_slide_mark_exec(s: &Vec<char>) -> (r: bool)
    ensures
        r == has_slide_mark(s@),
{
    let mut k: usize = 0;
    while k < s.len()
        invariant
            k <= s.len(),
            forall|j: int| 0 <= j < k ==> !(is_shape_char(#[trigger] s@[j]) || s@[j] == '*'),
        decreases s.len() - k,
    {
        if class_has(CharClass::ShapeChar, s[k]) || s[k] == '*' {
            return true;
        }
        k = k + 1;
    }
    false
}

/// Reads one note given as characters.
pub fn note_outcome_chars(s: &Vec<char>) -> (r: Outcome<Vec<Note>, NoteError>)
    ensures
        notes_outcome_view(r) == note_outcome(s@),
{
    if s.len() == 0 {
        return Ok(Err(NoteError::EmptyNote));
    }
    if has_slide_mark_exec(s) {
        return parse_slide_note(s);
    }
    Ok(parse_tap_or_touch_note(s))
}

/// Parses one note of a note group: a tap (`1`, `2b`), a pair of taps
/// (`12`), a hold (`3h[4:1]`), a touch (`B4`, `C`, `Ef`), a touch hold
/// (`Ch[2:1]`) or a slide (`1-5[8:1]`, `1-4[8:1]*-6[8:1]`).
pub fn parse_note(note_str: &str) -> (r: Result<Vec<Note>, NoteError>)
    requires
        !note_aborts(note_str@),
    ensures
        note_outcome(note_str@) == Ok::<Result<Seq<Note>, NoteErrorModel>, Abort>(
            notes_result_view(r),
        ),
{
    let s = chars_of(note_str);
    match note_outcome_chars(&s) {
        Ok(r) => r,
        Err(_) => {
            assert(false);
            Err(NoteError::EmptyNote)
        },
    }
}

/// [`parse_note`] on every note: `Err(abort)` where reading the note stops
/// the program.
pub fn try_parse_note(note_str: &str) -> (r: Outcome<Vec<Note>, NoteError>)
    ensures
        notes_outcome_view(r) == note_outcome(note_str@),
{
    let s = chars_of(note_str);
    match note_outcome_chars(&s) {
        Err(abort) => Err(abort),
        Ok(_) => Ok(parse_note(note_str)),
    }
}


/// A note is read by the reader its text calls for: an empty text is refused
/// as empty, a text with a slide shape or `*` reads as the slide reader reads
/// it, and any other text as the tap and touch reader reads it. The tap and
/// touch reader never stops the program, so reading a note stops the program
/// exactly where reading it as a slide does.
pub proof fn lemma_note_dispatch(s: Seq<char>)
    ensures
        s.len() == 0 ==> note_outcome(s) == Ok::<Result<Seq<Note>, NoteErrorModel>, Abort>(
            Err(NoteErrorModel::EmptyNote),
        ),
        s.len() > 0 && has_slide_mark(s) ==> note_outcome(s) == slide_note(s),
        s.len() > 0 && !has_slide_mark(s) ==> note_outcome(s) == Ok::<
            Result<Seq<Note>, NoteErrorModel>,
            Abort,
        >(tap_note(s)),
        note_aborts(s) <==> (s.len() > 0 && has_slide_mark(s) && slide_note(s) is Err),
{
}

/// A note of plain text never stops the program.
pub proof fn lemma_note_never_stops(s: Seq<char>)
    requires
        plain_text(s),
    ensures
        !note_aborts(s),
{
    if s.len() > 0 && has_slide_mark(s) {
        lemma_slide_note_never_stops(s);
    }
}

/// A note that sits on the board: taps and holds on buttons 1 to 8, touches
/// in the areas `A` to `E` with indices 1 to 8.
pub open spec fn on_board(d: NoteDetail) -> bool {
    match d {
        NoteDetail::Tap(b) => 1 <= b <= 8,
        NoteDetail::TapHold(b, _) => 1 <= b <= 8,
        NoteDetail::Touch((i, z)) => 'A' <= z && z <= 'E' && 1 <= i <= 8,
        NoteDetail::TouchHold((i, z), _) => 'A' <= z && z <= 'E' && 1 <= i <= 8,
        NoteDetail::Slide(_, _, _) => true,
    }
}

/// Every note read from a note string sits on the board, the notes of one
/// string share their break and firework marks, there is at least one, they
/// are slides exactly when the string holds a slide mark, and a slide note's
/// first slide starts on a button from 1 to 8.
pub proof fn lemma_note_outcome_on_board(s: Seq<char>)
    ensures
        note_outcome(s) matches Ok(Ok(ns)) ==> {
            &&& ns.len() >= 1
            &&& forall|k: int| 0 <= k < ns.len() ==> on_board((#[trigger] ns[k]).note_type)
            &&& forall|k: int|
                0 <= k < ns.len() ==> (#[trigger] ns[k]).is_break == ns[0].is_break && ns[k].is_firework
                    == ns[0].is_firework
            &&& ns[0].note_type matches NoteDetail::Slide(start, _, _) ==> 1 <= start <= 8
            &&& forall|k: int| 0 <= k < ns.len() ==> ((#[trigger] ns[k]).note_type is Slide <==> has_slide_mark(s))
        },
{
    if s.len() == 0 {
    } else if has_slide_mark(s) {
        match slide_syntax(s) {
            None => {},
            Some(m) => {
                let start = digit_value(s[0]) as usize;
                let mods = s.subrange(1, m);
                let pattern = s.subrange(m, s.len() as int);
                let trailing = trailing_modifiers(s);
                let is_break = mods.contains('x') || trailing.contains('x');
                let is_firework = mods.contains('f') || trailing.contains('f');
                if pattern.contains('*') {
                    lemma_star_chain_continuity(start, split_on(pattern, '*'), is_break, is_firework);
                    crate::text::lemma_split_on_len(pattern, '*');
                } else {
                    lemma_slide_pattern_starts(start, pattern);
                }
            },
        }
    } else {
        lemma_tap_note_on_board(s);
    }
}

} // verus!

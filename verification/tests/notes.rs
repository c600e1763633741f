use simai_player::element::{Abort, Note, NoteDetail, NoteError, SlideShape};
use simai_player::note_parser::{parse_note, try_parse_note};
use simai_player::slide::{parse_star_chained_slides, try_parse_star_chained_slides};

fn note(is_break: bool, is_firework: bool, note_type: NoteDetail) -> Note {
    Note { is_break, is_firework, note_type }
}

#[test]
fn tap_on_a_button() {
    assert_eq!(parse_note("1"), Ok(vec![note(false, false, NoteDetail::Tap(1))]));
    assert_eq!(parse_note("8b"), Ok(vec![note(false, false, NoteDetail::Tap(8))]));
}

#[test]
fn two_digits_are_two_taps_sharing_marks() {
    assert_eq!(
        parse_note("18x"),
        Ok(vec![note(true, false, NoteDetail::Tap(1)), note(true, false, NoteDetail::Tap(8))])
    );
}

#[test]
fn break_and_firework_marks_before_or_after_the_duration() {
    assert_eq!(
        parse_note("3h[4:1]f"),
        Ok(vec![note(false, true, NoteDetail::TapHold(3, (4, 1)))])
    );
    assert_eq!(
        parse_note("3xh[8:3]"),
        Ok(vec![note(true, false, NoteDetail::TapHold(3, (8, 3)))])
    );
}

#[test]
fn a_hold_needs_a_duration() {
    assert_eq!(parse_note("5h"), Err(NoteError::HoldRequiresDuration));
}

#[test]
fn a_duration_without_h_is_a_tap() {
    assert_eq!(parse_note("5[4:1]"), Ok(vec![note(false, false, NoteDetail::Tap(5))]));
}

#[test]
fn duration_numbers_that_do_not_fit_fall_back_to_one() {
    assert_eq!(
        parse_note("2h[99999999999999999999999:3]"),
        Ok(vec![note(false, false, NoteDetail::TapHold(2, (1, 3)))])
    );
}

#[test]
fn touches_and_touch_holds() {
    assert_eq!(parse_note("B4"), Ok(vec![note(false, false, NoteDetail::Touch((4, 'B')))]));
    assert_eq!(parse_note("C"), Ok(vec![note(false, false, NoteDetail::Touch((1, 'C')))]));
    assert_eq!(parse_note("Ef"), Ok(vec![note(false, true, NoteDetail::Touch((1, 'E')))]));
    assert_eq!(
        parse_note("Ch[2:1]"),
        Ok(vec![note(false, false, NoteDetail::TouchHold((1, 'C'), (2, 1)))])
    );
    assert_eq!(
        parse_note("A3h"),
        Ok(vec![note(false, false, NoteDetail::TouchHold((3, 'A'), (1, 1)))])
    );
}

#[test]
fn invalid_taps() {
    assert_eq!(parse_note(""), Err(NoteError::EmptyNote));
    assert_eq!(parse_note("9"), Err(NoteError::InvalidNoteSyntax("9".to_string())));
    assert_eq!(parse_note("D"), Err(NoteError::InvalidNoteSyntax("D".to_string())));
    assert_eq!(parse_note("1[4:1"), Err(NoteError::InvalidNoteSyntax("1[4:1".to_string())));
}

#[test]
fn straight_slide() {
    assert_eq!(
        parse_note("1-5[8:1]"),
        Ok(vec![note(false, false, NoteDetail::Slide(1, SlideShape::Straight(1, 5), (8, 1)))])
    );
}

#[test]
fn slide_shapes_by_their_marks() {
    let shape = |s: &str| match parse_note(s) {
        Ok(v) => match v[0].note_type {
            NoteDetail::Slide(_, shape, _) => shape,
            other => panic!("not a slide: {:?}", other),
        },
        Err(e) => panic!("{:?}", e),
    };
    assert_eq!(shape("2^4[4:1]"), SlideShape::ShortArc(2, 4));
    assert_eq!(shape("2v6[4:1]"), SlideShape::VShape(2, 6));
    assert_eq!(shape("2<6[4:1]"), SlideShape::CounterClockwiseArc(2, 6));
    assert_eq!(shape("3x>6b[16:9]"), SlideShape::ClockwiseArc(3, 6));
    assert_eq!(shape("2p6[4:1]"), SlideShape::PShape(2, 6));
    assert_eq!(shape("2q6[4:1]"), SlideShape::QShape(2, 6));
    assert_eq!(shape("2pp6[4:1]"), SlideShape::GrandPShape(2, 6));
    assert_eq!(shape("2qq6[4:1]"), SlideShape::GrandQShape(2, 6));
    assert_eq!(shape("2s6[4:1]"), SlideShape::Thunderbolt(2, 6, false));
    assert_eq!(shape("2z6[4:1]"), SlideShape::Thunderbolt(2, 6, true));
    assert_eq!(shape("1w5[4:1]"), SlideShape::FanShape(1, (5, 6, 4)));
    assert_eq!(shape("5V71[4:1]"), SlideShape::GrandVShape(5, 1, 7));
    assert_eq!(shape("8-4-7[4:1]"), SlideShape::GrandVShape(8, 7, 4));
    assert_eq!(shape("1V5[4:1]"), SlideShape::VShape(1, 5));
    assert_eq!(shape("1p4>6[4:1]"), SlideShape::ClockwiseArc(1, 6));
}

#[test]
fn slide_break_mark_counts_only_before_the_pattern() {
    assert_eq!(
        parse_note("3x>6b[16:9]"),
        Ok(vec![note(true, false, NoteDetail::Slide(3, SlideShape::ClockwiseArc(3, 6), (16, 9)))])
    );
    assert_eq!(
        parse_note("3>6x[16:9]"),
        Ok(vec![note(false, false, NoteDetail::Slide(3, SlideShape::ClockwiseArc(3, 6), (16, 9)))])
    );
}

#[test]
fn slide_errors() {
    assert_eq!(parse_note("9-1[4:1]"), Err(NoteError::InvalidSlideSyntax("9-1[4:1]".to_string())));
    assert_eq!(parse_note("1-5"), Err(NoteError::SlideRequiresDuration("-5".to_string())));
    assert_eq!(parse_note("1-5[8]"), Err(NoteError::SlideRequiresDuration("-5[8]".to_string())));
    assert_eq!(parse_note("1-^5[4:1]"), Err(NoteError::InvalidSlideSyntax("1-^5[4:1]".to_string())));
    assert_eq!(
        parse_note("1-99999999999999999999999[4:1]"),
        Err(NoteError::InvalidTargetButton("99999999999999999999999".to_string()))
    );
}

#[test]
fn a_non_ascii_digit_is_a_regex_digit_but_not_a_number() {
    // `٣` (ARABIC-INDIC DIGIT THREE) is in `\d`, so the slide syntax accepts
    // it, but it is no target button.
    assert_eq!(
        parse_note("1-\u{663}[4:1]"),
        Err(NoteError::InvalidTargetButton("\u{663}".to_string()))
    );
    // A letter outside ASCII is no digit, so the slide syntax refuses it.
    assert_eq!(
        parse_note("1-\u{e9}[4:1]"),
        Err(NoteError::InvalidSlideSyntax("1-\u{e9}[4:1]".to_string()))
    );
    // In a hold duration it falls back to 1.
    assert_eq!(
        parse_note("2h[\u{663}:3]"),
        Ok(vec![note(false, false, NoteDetail::TapHold(2, (1, 3)))])
    );
}

#[test]
fn star_chained_slides_continue_from_the_previous_end() {
    assert_eq!(
        parse_note("1-4[8:1]*-6[8:1]"),
        Ok(vec![
            note(false, false, NoteDetail::Slide(1, SlideShape::Straight(1, 4), (8, 1))),
            note(false, false, NoteDetail::Slide(4, SlideShape::Straight(4, 6), (8, 1))),
        ])
    );
    assert_eq!(
        parse_star_chained_slides(2, "-4[8:1]*>7[4:3]*V31[2:1]", true, false),
        Ok(vec![
            note(true, false, NoteDetail::Slide(2, SlideShape::Straight(2, 4), (8, 1))),
            note(true, false, NoteDetail::Slide(4, SlideShape::ClockwiseArc(4, 7), (4, 3))),
            note(true, false, NoteDetail::Slide(7, SlideShape::GrandVShape(7, 1, 3), (2, 1))),
        ])
    );
}

#[test]
fn a_star_chain_segment_without_duration_is_refused() {
    assert_eq!(
        parse_star_chained_slides(1, "-4*-6[8:1]", false, false),
        Err(NoteError::SlideRequiresDuration("-4".to_string()))
    );
}

#[test]
fn notes_that_stop_the_program() {
    assert_eq!(try_parse_note("1V\u{663}5[4:1]"), Err(Abort::NumberUnwrap));
    assert_eq!(try_parse_note("1-\u{663}-5[4:1]"), Err(Abort::NumberUnwrap));
    assert_eq!(try_parse_note("1w0[4:1]"), Err(Abort::ButtonOverflow));
    assert_eq!(try_parse_star_chained_slides(1, "-4[8:1]*w0[1:1]", false, false), Err(Abort::ButtonOverflow));
    assert_eq!(try_parse_note("1-5[8:1]"), Ok(parse_note("1-5[8:1]")));
}

#[test]
fn a_chain_without_a_star_is_one_slide() {
    assert_eq!(
        parse_star_chained_slides(3, "-7[4:1]", false, true),
        Ok(vec![note(false, true, NoteDetail::Slide(3, SlideShape::Straight(3, 7), (4, 1)))])
    );
    assert_eq!(
        parse_star_chained_slides(3, "-7", false, false),
        Err(NoteError::SlideRequiresDuration("-7".to_string()))
    );
}

#[test]
fn a_note_is_read_by_the_reader_its_text_calls_for() {
    assert_eq!(parse_note(""), Err(NoteError::EmptyNote));
    assert_eq!(parse_note("2"), Ok(vec![note(false, false, NoteDetail::Tap(2))]));
    assert_eq!(
        parse_note("2-6[4:1]"),
        Ok(vec![note(false, false, NoteDetail::Slide(2, SlideShape::Straight(2, 6), (4, 1)))])
    );
    assert_eq!(try_parse_note("2x"), Ok(parse_note("2x")));
}

#[test]
fn modifiers_after_a_slide_mark_it() {
    assert_eq!(
        parse_note("1-5[8:1]x"),
        Ok(vec![note(true, false, NoteDetail::Slide(1, SlideShape::Straight(1, 5), (8, 1)))])
    );
    assert_eq!(
        parse_note("1-5[8:1]bf"),
        Ok(vec![note(false, true, NoteDetail::Slide(1, SlideShape::Straight(1, 5), (8, 1)))])
    );
    assert_eq!(
        parse_note("1-4[8:1]*-6[8:1]x"),
        Ok(vec![
            note(true, false, NoteDetail::Slide(1, SlideShape::Straight(1, 4), (8, 1))),
            note(true, false, NoteDetail::Slide(4, SlideShape::Straight(4, 6), (8, 1))),
        ])
    );
    assert_eq!(
        parse_note("3x>6[16:9]"),
        Ok(vec![note(true, false, NoteDetail::Slide(3, SlideShape::ClockwiseArc(3, 6), (16, 9)))])
    );
}

#[test]
fn note_error_messages() {
    assert_eq!(NoteError::EmptyNote.message(), "Empty note string");
    assert_eq!(NoteError::InvalidNoteSyntax("9".to_string()).message(), "Invalid note syntax: '9'");
    assert_eq!(NoteError::HoldRequiresDuration.message(), "Hold requires duration");
    assert_eq!(NoteError::InvalidSlideSyntax("1-".to_string()).message(), "Invalid slide syntax: '1-'");
    assert_eq!(NoteError::SlideRequiresDuration("-7".to_string()).message(), "Slide requires duration: '-7'");
    assert_eq!(NoteError::NoValidSlidePattern("x".to_string()).message(), "No valid slide pattern found: 'x'");
    assert_eq!(NoteError::InvalidTargetButton("99".to_string()).message(), "Invalid target button: '99'");
    assert_eq!(NoteError::UnknownSlideShape("--".to_string()).message(), "Unknown slide shape: --");
    assert_eq!(NoteError::StarSegmentNotSlide.message(), "Star-chained segment is not a slide");
}

#[test]
fn simple_slides_taps_and_holds() {
    assert_eq!(
        parse_note("2>6[4:3]"),
        Ok(vec![note(false, false, NoteDetail::Slide(2, SlideShape::ClockwiseArc(2, 6), (4, 3)))])
    );
    assert_eq!(
        parse_note("1w3[8:1]"),
        Ok(vec![note(false, false, NoteDetail::Slide(1, SlideShape::FanShape(1, (3, 4, 2)), (8, 1)))])
    );
    assert_eq!(parse_note("5"), Ok(vec![note(false, false, NoteDetail::Tap(5))]));
    assert_eq!(parse_note("5x"), Ok(vec![note(true, false, NoteDetail::Tap(5))]));
    assert_eq!(parse_note("5f"), Ok(vec![note(false, true, NoteDetail::Tap(5))]));
    assert_eq!(parse_note("5b"), Ok(vec![note(false, false, NoteDetail::Tap(5))]));
    assert_eq!(parse_note("7h[2:1]"), Ok(vec![note(false, false, NoteDetail::TapHold(7, (2, 1)))]));
}

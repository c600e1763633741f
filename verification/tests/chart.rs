use simai_player::chart::{parse_chart_text, TokenWarning};
use simai_player::element::{Abort, ChartEvent, Note, NoteDetail, NoteError, SlideShape};

fn tap(b: usize) -> Note {
    Note { is_break: false, is_firework: false, note_type: NoteDetail::Tap(b) }
}

#[test]
fn tempo_resolution_notes_and_rests() {
    let parsed = parse_chart_text("(120){4}1,2/3,,E").unwrap();
    assert_eq!(
        parsed.events,
        vec![
            ChartEvent::BpmChange("120".to_string()),
            ChartEvent::ResolutionChange(4),
            ChartEvent::NoteGroup(vec![tap(1)]),
            ChartEvent::NoteGroup(vec![tap(2), tap(3)]),
            ChartEvent::Rest,
            ChartEvent::NoteGroup(vec![Note {
                is_break: false,
                is_firework: false,
                note_type: NoteDetail::Touch((1, 'E')),
            }]),
        ]
    );
    assert!(parsed.warnings.is_empty());
}

#[test]
fn white_space_is_ignored() {
    let spaced = parse_chart_text("( 1 2 0 )\n{ 8 }\t1 - 5 [ 8 : 1 ] ,\r\n ,").unwrap();
    let tight = parse_chart_text("(120){8}1-5[8:1],,").unwrap();
    assert_eq!(spaced, tight);
    assert_eq!(
        tight.events,
        vec![
            ChartEvent::BpmChange("120".to_string()),
            ChartEvent::ResolutionChange(8),
            ChartEvent::NoteGroup(vec![Note {
                is_break: false,
                is_firework: false,
                note_type: NoteDetail::Slide(1, SlideShape::Straight(1, 5), (8, 1)),
            }]),
            ChartEvent::Rest,
            ChartEvent::Rest,
        ]
    );
}

#[test]
fn fractional_tempo() {
    let parsed = parse_chart_text("(172.5)").unwrap();
    assert_eq!(parsed.events, vec![ChartEvent::BpmChange("172.5".to_string()), ChartEvent::Rest]);
}

#[test]
fn a_refused_group_becomes_a_warning() {
    let parsed = parse_chart_text("1,9/2,3").unwrap();
    assert_eq!(parsed.events, vec![ChartEvent::NoteGroup(vec![tap(1)]), ChartEvent::NoteGroup(vec![tap(3)])]);
    assert_eq!(
        parsed.warnings,
        vec![TokenWarning {
            index: 1,
            token: "9/2".to_string(),
            error: NoteError::InvalidNoteSyntax("9".to_string()),
        }]
    );
}

#[test]
fn every_token_is_accounted_for() {
    let text = "(100){4}1,,5h,2/3,C,9,";
    let parsed = parse_chart_text(text).unwrap();
    let pauses = parsed
        .events
        .iter()
        .filter(|e| matches!(e, ChartEvent::NoteGroup(_) | ChartEvent::Rest))
        .count();
    let tokens = text.split(',').count();
    assert_eq!(pauses + parsed.warnings.len(), tokens);
    assert_eq!(parsed.warnings.len(), 2);
}

#[test]
fn a_marker_is_cut_off_by_its_length_from_the_start() {
    // The tempo marker is found after `1`, but its length (5 bytes) is cut
    // off the front of the token, leaving `)`.
    let parsed = parse_chart_text("1(120)").unwrap();
    assert_eq!(parsed.events, vec![ChartEvent::BpmChange("120".to_string())]);
    assert_eq!(parsed.warnings[0].error, NoteError::InvalidNoteSyntax(")".to_string()));
}

#[test]
fn a_resolution_too_large_for_u32_is_left_in_the_token() {
    let parsed = parse_chart_text("{99999999999}").unwrap();
    assert!(parsed.events.is_empty());
    assert_eq!(parsed.warnings[0].error, NoteError::InvalidNoteSyntax("{99999999999}".to_string()));
}

#[test]
fn a_non_ascii_tempo_is_left_in_the_token() {
    let parsed = parse_chart_text("(\u{663})").unwrap();
    assert!(parsed.events.is_empty());
    assert_eq!(parsed.warnings.len(), 1);
}

#[test]
fn cutting_inside_a_character_stops_the_program() {
    assert_eq!(parse_chart_text("\u{e9}\u{e9}(1)"), Err(Abort::SliceInsideChar));
}

#[test]
fn a_note_that_stops_the_program_stops_the_chart() {
    assert_eq!(parse_chart_text("1,1w0[4:1]"), Err(Abort::ButtonOverflow));
}

#[test]
fn an_empty_chart_is_one_rest() {
    assert_eq!(parse_chart_text("").unwrap().events, vec![ChartEvent::Rest]);
}

#[test]
fn a_plain_chart_reads_without_stopping() {
    let parsed = parse_chart_text("(150){8}1-5[8:1]x,2h[4:1],A3/1w3[8:1],1-4[8:1]*-6[8:1],E,9,").unwrap();
    assert_eq!(parsed.events.len(), 8);
    assert_eq!(parsed.warnings.len(), 1);
    assert_eq!(parsed.warnings[0].error, NoteError::InvalidNoteSyntax("9".to_string()));
}

#[test]
fn empty_and_resolution_tokens() {
    assert_eq!(parse_chart_text("").unwrap().events, vec![ChartEvent::Rest]);
    assert_eq!(
        parse_chart_text("{8}").unwrap().events,
        vec![ChartEvent::ResolutionChange(8), ChartEvent::Rest]
    );
}

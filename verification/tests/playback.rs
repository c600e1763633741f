use simai_player::element::{ChartEvent, Note, NoteDetail, SlideShape};
use simai_player::playback::{
    advance_bar, after_move, bar_action, button_id, is_paired, is_touch, note_type_of, phase_step, plays_hit, touch_id, touch_is_offset,
    touch_ring, AfterMove, BarAction, BarStep, NoteType, Phase, PhaseStep, TouchRing,
};

fn group() -> ChartEvent {
    ChartEvent::NoteGroup(vec![Note { is_break: false, is_firework: false, note_type: NoteDetail::Tap(1) }])
}

#[test]
fn bar_actions() {
    assert_eq!(bar_action(false, 0, 5, true), BarAction::Resume);
    assert_eq!(bar_action(true, 5, 5, true), BarAction::Resume);
    assert_eq!(bar_action(true, 2, 5, false), BarAction::Wait);
    assert_eq!(bar_action(true, 0, 5, false), BarAction::Advance);
    assert_eq!(bar_action(true, 2, 5, true), BarAction::Advance);
}

#[test]
fn a_step_ends_after_the_first_group_or_rest() {
    let events = vec![
        ChartEvent::BpmChange("120".to_string()),
        ChartEvent::ResolutionChange(4),
        ChartEvent::BpmChange("150".to_string()),
        group(),
        ChartEvent::Rest,
        ChartEvent::ResolutionChange(8),
    ];
    assert_eq!(
        advance_bar(&events, 0),
        BarStep { next_index: 4, tempo: Some(2), resolution: Some(4), notes: Some(3) }
    );
    assert_eq!(advance_bar(&events, 4), BarStep { next_index: 5, tempo: None, resolution: None, notes: None });
    assert_eq!(advance_bar(&events, 5), BarStep { next_index: 6, tempo: None, resolution: Some(8), notes: None });
    assert_eq!(advance_bar(&events, 6), BarStep { next_index: 6, tempo: None, resolution: None, notes: None });
}

#[test]
fn stepping_through_a_chart_spawns_each_group_once() {
    let events = vec![group(), ChartEvent::Rest, ChartEvent::ResolutionChange(2), group(), group()];
    let mut i = 0;
    let mut spawned = vec![];
    while i < events.len() {
        let step = advance_bar(&events, i);
        assert!(step.next_index > i);
        if let Some(n) = step.notes {
            spawned.push(n);
        }
        i = step.next_index;
    }
    assert_eq!(spawned, vec![0, 3, 4]);
}

#[test]
fn note_kinds() {
    let slide = NoteDetail::Slide(3, SlideShape::Straight(3, 7), (8, 1));
    assert_eq!(note_type_of(slide), NoteType::Slide(3, (8, 1)));
    assert_eq!(button_id(slide), 3);
    assert_eq!(touch_id(slide), (0, 'C'));
    let touch = NoteDetail::TouchHold((2, 'B'), (4, 1));
    assert_eq!(note_type_of(touch), NoteType::TouchHold((2, 'B'), (4, 1)));
    assert_eq!(button_id(touch), 0);
    assert_eq!(touch_id(touch), (2, 'B'));
    assert!(is_touch(note_type_of(touch)));
    assert!(!is_touch(NoteType::Tap(1)));
}

#[test]
fn what_happens_after_the_approach() {
    assert_eq!(after_move(NoteType::TapHold(1, (4, 1))), AfterMove::Hold);
    assert_eq!(after_move(NoteType::Slide(1, (4, 1))), AfterMove::WaitThenSlide);
    assert_eq!(after_move(NoteType::Tap(1)), AfterMove::Despawn);
    assert_eq!(after_move(NoteType::TouchHold((1, 'C'), (4, 1))), AfterMove::Despawn);
}

#[test]
fn touch_rings() {
    assert_eq!(touch_ring('C'), TouchRing::Center);
    assert_eq!(touch_ring('b'), TouchRing::Inner);
    assert_eq!(touch_ring('E'), TouchRing::Middle);
    assert_eq!(touch_ring('a'), TouchRing::Outer);
    assert_eq!(touch_ring('D'), TouchRing::Outer);
    assert_eq!(touch_ring('Z'), TouchRing::Unknown);
    assert!(touch_is_offset('D'));
    assert!(touch_is_offset('E'));
    assert!(!touch_is_offset('e'));
    assert!(!touch_is_offset('B'));
}

fn phases_until_gone(t: NoteType) -> usize {
    let mut phase = Phase::Growing;
    let mut n = 0;
    loop {
        n += 1;
        match phase_step(phase, t, true, true) {
            PhaseStep::Despawn => return n,
            PhaseStep::Enter(next) => phase = next,
            PhaseStep::Stay => panic!("stuck in {:?}", phase),
        }
    }
}

#[test]
fn every_note_leaves_the_field() {
    assert_eq!(phases_until_gone(NoteType::Tap(1)), 2);
    assert_eq!(phases_until_gone(NoteType::Touch((1, 'C'))), 2);
    assert_eq!(phases_until_gone(NoteType::TouchHold((1, 'C'), (4, 1))), 2);
    assert_eq!(phases_until_gone(NoteType::TapHold(1, (4, 1))), 3);
    assert_eq!(phases_until_gone(NoteType::Slide(1, (4, 1))), 4);
}

#[test]
fn phases_wait_for_their_timers() {
    assert_eq!(phase_step(Phase::Moving, NoteType::Tap(1), false, false), PhaseStep::Stay);
    assert_eq!(phase_step(Phase::Moving, NoteType::Slide(1, (4, 1)), true, true), PhaseStep::Enter(Phase::Waiting));
    assert_eq!(phase_step(Phase::Sliding, NoteType::Slide(1, (4, 1)), false, true), PhaseStep::Stay);
    assert_eq!(phase_step(Phase::Waiting, NoteType::Tap(1), false, true), PhaseStep::Stay);
}

#[test]
fn the_hit_sound_plays_when_a_note_reaches_the_ring_or_a_hold_ends() {
    assert!(plays_hit(Phase::Moving, true));
    assert!(plays_hit(Phase::Holding, true));
    assert!(!plays_hit(Phase::Moving, false));
    assert!(!plays_hit(Phase::Growing, true));
    assert!(!plays_hit(Phase::Waiting, true));
    assert!(!plays_hit(Phase::Sliding, true));
}

#[test]
fn groups_of_two_or_more_notes_are_paired() {
    let tap = |b| Note { is_break: false, is_firework: false, note_type: NoteDetail::Tap(b) };
    assert!(!is_paired(&vec![]));
    assert!(!is_paired(&vec![tap(1)]));
    assert!(is_paired(&vec![tap(1), tap(5)]));
    assert!(is_paired(&vec![tap(1), tap(5), tap(3)]));
}

//! The decisions of chart playback: when to step, how far one step goes
//! through the events, and what each note becomes on screen.

use vstd::prelude::*;

use crate::chart::event_models;
use crate::element::{ChartEvent, ChartEventModel, Note, NoteDetail};

verus! {

/// What the bar-stepping system does on one frame.
#[derive(Debug, Clone, Copy, PartialEq, Eq, Structural)]
pub enum BarAction {
    /// Playback is paused or the chart is over: mark it playing and do nothing
    /// else.
    Resume,
    /// The step timer has not run out: do nothing.
    Wait,
    /// Step through the chart now.
    Advance,
}

pub open spec fn bar_action_spec(is_playing: bool, current_index: usize, event_count: usize, timer_finished: bool) -> BarAction {
    if !is_playing || current_index >= event_count {
        BarAction::Resume
    } else if !timer_finished && current_index > 0 {
        BarAction::Wait
    } else {
        BarAction::Advance
    }
}

/// Decides what the bar-stepping system does this frame. The first step
/// (`current_index == 0`) does not wait for the timer.
pub fn bar_action(is_playing: bool, current_index: usize, event_count: usize, timer_finished: bool) -> (r: BarAction)
    ensures
        r == bar_action_spec(is_playing, current_index, event_count, timer_finished),
{
    if !is_playing || current_index >= event_count {
        BarAction::Resume
    } else if !timer_finished && current_index > 0 {
        BarAction::Wait
    } else {
        BarAction::Advance
    }
}

/// One step through the chart's events.
#[derive(Debug, Clone, Copy, PartialEq, Eq)]
pub struct BarStep {
    /// Where the next step starts.
    pub next_index: usize,
    /// The last tempo change passed, by its position in the events.
    pub tempo: Option<usize>,
    /// The last resolution passed.
    pub resolution: Option<u32>,
    /// The note group to spawn, by its position in the events.
    pub notes: Option<usize>,
}

/// A step through `events` from `i`: tempo and resolution changes are taken
/// as they come, and the step ends just after the first note group or rest.
pub open spec fn step_from(events: Seq<ChartEventModel>, i: int, tempo: Option<usize>, resolution: Option<u32>) -> BarStep
    decreases events.len() - i,
{
    if i < 0 || i >= events.len() {
        BarStep { next_index: i as usize, tempo, resolution, notes: None }
    } else {
        match events[i] {
            ChartEventModel::BpmChange(_) => step_from(events, i + 1, Some(i as usize), resolution),
            ChartEventModel::ResolutionChange(r) => step_from(events, i + 1, tempo, Some(r)),
            ChartEventModel::NoteGroup(_) => BarStep {
                next_index: (i + 1) as usize,
                tempo,
                resolution,
                notes: Some(i as usize),
            },
            ChartEventModel::Rest => BarStep { next_index: (i + 1) as usize, tempo, resolution, notes: None },
        }
    }
}

pub open spec fn is_pause(e: ChartEventModel) -> bool {
    e is NoteGroup || e is Rest
}

/// Steps through `events` from `current_index` up to and including the next
/// note group or rest.
pub fn advance_bar(events: &Vec<ChartEvent>, current_index: usize) -> (r: BarStep)
    requires
        current_index <= events.len(),
    ensures
        r == step_from(event_models(events@), current_index as int, None, None),
{
    let ghost evs = event_models(events@);
    let mut i = current_index;
    let mut tempo: Option<usize> = None;
    let mut resolution: Option<u32> = None;
    while i < events.len()
        invariant
            current_index <= i <= events.len(),
            evs == event_models(events@),
            step_from(evs, current_index as int, None, None) == step_from(evs, i as int, tempo, resolution),
        decreases events.len() - i,
    {
        assert(evs[i as int] == events@[i as int]@);
        match &events[i] {
            ChartEvent::BpmChange(_) => {
                tempo = Some(i);
            },
            ChartEvent::ResolutionChange(v) => {
                resolution = Some(*v);
            },
            ChartEvent::NoteGroup(_) => {
                return BarStep { next_index: i + 1, tempo, resolution, notes: Some(i) };
            },
            ChartEvent::Rest => {
                return BarStep { next_index: i + 1, tempo, resolution, notes: None };
            },
        }
        i = i + 1;
    }
    BarStep { next_index: i, tempo, resolution, notes: None }
}

/// A step moves forward, never past the end; everything it passes over but
/// the last event is a tempo or resolution change, and the last is the note
/// group or rest that ends it, unless the chart ran out; the note group it
/// spawns is that last event.
pub proof fn lemma_step_shape(events: Seq<ChartEventModel>, i: int, tempo: Option<usize>, resolution: Option<u32>)
    requires
        0 <= i < events.len() <= usize::MAX,
    ensures
        ({
            let s = step_from(events, i, tempo, resolution);
            &&& i < s.next_index <= events.len()
            &&& forall|k: int| i <= k < s.next_index - 1 ==> !is_pause(#[trigger] events[k])
            &&& (s.next_index < events.len() ==> is_pause(events[s.next_index - 1]))
            &&& (s.notes matches Some(n) ==> n == s.next_index - 1 && events[n as int] is NoteGroup)
            &&& (s.notes is None && s.next_index > 0 ==> !(events[s.next_index - 1] is NoteGroup))
        }),
    decreases events.len() - i,
{
    match events[i] {
        ChartEventModel::BpmChange(_) => {
            if i + 1 < events.len() {
                lemma_step_shape(events, i + 1, Some(i as usize), resolution);
            }
        },
        ChartEventModel::ResolutionChange(r) => {
            if i + 1 < events.len() {
                lemma_step_shape(events, i + 1, tempo, Some(r));
            }
        },
        _ => {},
    }
}

/// The tempo of a step is the last tempo change it passes, and its
/// resolution the last resolution change it passes, each kept from before the
/// step (`tempo`, `resolution`) only where the step passes none; the one
/// does not depend on the other.
pub proof fn lemma_step_markers(events: Seq<ChartEventModel>, i: int, tempo: Option<usize>, resolution: Option<u32>)
    requires
        0 <= i <= events.len() <= usize::MAX,
    ensures
        ({
            let s = step_from(events, i, tempo, resolution);
            &&& i <= s.next_index <= events.len()
            &&& ((s.tempo == tempo && forall|k: int|
                i <= k < s.next_index ==> !(#[trigger] events[k] is BpmChange)) || (s.tempo matches Some(j)
                && i <= j < s.next_index && events[j as int] is BpmChange && forall|k: int|
                j < k < s.next_index ==> !(#[trigger] events[k] is BpmChange)))
            &&& ((s.resolution == resolution && forall|k: int|
                i <= k < s.next_index ==> !(#[trigger] events[k] is ResolutionChange)) || (exists|j: int|
                i <= j < s.next_index && events[j] == ChartEventModel::ResolutionChange(s.resolution->0)
                    && s.resolution is Some && forall|k: int|
                    j < k < s.next_index ==> !(#[trigger] events[k] is ResolutionChange)))
        }),
    decreases events.len() - i,
{
    if i < events.len() {
        match events[i] {
            ChartEventModel::BpmChange(_) => {
                lemma_step_markers(events, i + 1, Some(i as usize), resolution);
            },
            ChartEventModel::ResolutionChange(r) => {
                lemma_step_markers(events, i + 1, tempo, Some(r));
                let s = step_from(events, i + 1, tempo, Some(r));
                if s.resolution == Some(r) && forall|k: int|
                    i + 1 <= k < s.next_index ==> !(#[trigger] events[k] is ResolutionChange) {
                    assert(events[i] == ChartEventModel::ResolutionChange(s.resolution->0));
                }
            },
            _ => {},
        }
    }
}

/// A step through the chart from `current_index` takes as its tempo the last
/// tempo change among the events it passes, and as its resolution the last
/// resolution change among them: `None` exactly where it passes none.
pub proof fn lemma_advance_bar_markers(events: Seq<ChartEventModel>, i: int)
    requires
        0 <= i <= events.len() <= usize::MAX,
    ensures
        ({
            let s = step_from(events, i, None, None);
            &&& (s.tempo is None <==> forall|k: int| i <= k < s.next_index ==> !(#[trigger] events[k] is BpmChange))
            &&& (s.tempo matches Some(j) ==> i <= j < s.next_index && events[j as int] is BpmChange
                && forall|k: int| j < k < s.next_index ==> !(#[trigger] events[k] is BpmChange))
            &&& (s.resolution is None <==> forall|k: int|
                i <= k < s.next_index ==> !(#[trigger] events[k] is ResolutionChange))
            &&& (s.resolution matches Some(r) ==> exists|j: int|
                i <= j < s.next_index && events[j] == ChartEventModel::ResolutionChange(r) && forall|k: int|
                    j < k < s.next_index ==> !(#[trigger] events[k] is ResolutionChange))
        }),
{
    lemma_step_markers(events, i, None, None);
}

/// The kind of on-screen note that a parsed note becomes.
#[derive(Debug, Clone, Copy, PartialEq, Eq)]
pub enum NoteType {
    /// button
    Tap(usize),
    /// button, (divider, length)
    TapHold(usize, (usize, usize)),
    /// (value, group)
    Touch((usize, char)),
    /// (value, group), (divider, length)
    TouchHold((usize, char), (usize, usize)),
    /// (button), (divider, length)
    Slide(usize, (usize, usize)),
}

pub open spec fn note_type_spec(d: NoteDetail) -> NoteType {
    match d {
        NoteDetail::Tap(id) => NoteType::Tap(id),
        NoteDetail::TapHold(id, duration) => NoteType::TapHold(id, duration),
        NoteDetail::Slide(id, _, duration) => NoteType::Slide(id, duration),
        NoteDetail::Touch(t) => NoteType::Touch(t),
        NoteDetail::TouchHold(t, duration) => NoteType::TouchHold(t, duration),
    }
}

/// The on-screen kind of a parsed note; a slide keeps its start button and
/// duration.
pub fn note_type_of(d: NoteDetail) -> (r: NoteType)
    ensures
        r == note_type_spec(d),
{
    match d {
        NoteDetail::Tap(id) => NoteType::Tap(id),
        NoteDetail::TapHold(id, duration) => NoteType::TapHold(id, duration),
        NoteDetail::Slide(id, _, duration) => NoteType::Slide(id, duration),
        NoteDetail::Touch(t) => NoteType::Touch(t),
        NoteDetail::TouchHold(t, duration) => NoteType::TouchHold(t, duration),
    }
}

/// The button a note is placed by: taps, holds and slides use their button,
/// touches 0.
pub fn button_id(d: NoteDetail) -> (r: usize)
    ensures
        r == match d {
            NoteDetail::Tap(id) => id,
            NoteDetail::TapHold(id, _) => id,
            NoteDetail::Slide(id, _, _) => id,
            _ => 0,
        },
{
    match d {
        NoteDetail::Tap(id) | NoteDetail::TapHold(id, _) | NoteDetail::Slide(id, _, _) => id,
        _ => 0,
    }
}

/// The touch position a note is placed by: touches use theirs, the others
/// `(0, 'C')`.
pub fn touch_id(d: NoteDetail) -> (r: (usize, char))
    ensures
        r == match d {
            NoteDetail::Touch(t) => t,
            NoteDetail::TouchHold(t, _) => t,
            _ => (0usize, 'C'),
        },
{
    match d {
        NoteDetail::Touch(t) | NoteDetail::TouchHold(t, _) => t,
        _ => (0, 'C'),
    }
}

/// The rings of the touch area, by how far from the centre a touch sits.
#[derive(Debug, Clone, Copy, PartialEq, Eq, Structural)]
pub enum TouchRing {
    /// `C`: the centre.
    Center,
    /// `B`: four tenths of the judgement radius out.
    Inner,
    /// `E`: half the judgement radius out.
    Middle,
    /// `A` and `D`: a fixed small distance.
    Outer,
    /// Any other letter: the centre too.
    Unknown,
}

pub open spec fn touch_ring_spec(group: char) -> TouchRing {
    let g = crate::tap::ascii_upper(group);
    if g == 'C' {
        TouchRing::Center
    } else if g == 'B' {
        TouchRing::Inner
    } else if g == 'E' {
        TouchRing::Middle
    } else if g == 'A' || g == 'D' {
        TouchRing::Outer
    } else {
        TouchRing::Unknown
    }
}

/// Which ring a touch group letter (either case) is drawn on.
pub fn touch_ring(group: char) -> (r: TouchRing)
    ensures
        r == touch_ring_spec(group),
{
    let g = if 'a' <= group && group <= 'z' {
        ((group as u8) - 32) as char
    } else {
        group
    };
    if g == 'C' {
        TouchRing::Center
    } else if g == 'B' {
        TouchRing::Inner
    } else if g == 'E' {
        TouchRing::Middle
    } else if g == 'A' || g == 'D' {
        TouchRing::Outer
    } else {
        TouchRing::Unknown
    }
}

/// Whether a touch is turned a sixteenth of a turn off its button's angle:
/// the groups `D` and `E` (upper case only).
pub fn touch_is_offset(group: char) -> (r: bool)
    ensures
        r == (group == 'D' || group == 'E'),
{
    group == 'D' || group == 'E'
}

/// What happens to a note once it reaches the judgement ring.
#[derive(Debug, Clone, Copy, PartialEq, Eq, Structural)]
pub enum AfterMove {
    /// A hold stays and shrinks for its duration.
    Hold,
    /// A slide waits one beat, then its star travels the path.
    WaitThenSlide,
    /// Anything else disappears.
    Despawn,
}

/// What a note does when its approach ends.
pub fn after_move(t: NoteType) -> (r: AfterMove)
    ensures
        r == match t {
            NoteType::TapHold(_, _) => AfterMove::Hold,
            NoteType::Slide(_, _) => AfterMove::WaitThenSlide,
            _ => AfterMove::Despawn,
        },
{
    match t {
        NoteType::TapHold(_, _) => AfterMove::Hold,
        NoteType::Slide(_, _) => AfterMove::WaitThenSlide,
        _ => AfterMove::Despawn,
    }
}

/// Whether a note is a touch, which does not grow while it appears.
pub fn is_touch(t: NoteType) -> (r: bool)
    ensures
        r == (t is Touch || t is TouchHold),
{
    match t {
        NoteType::Touch(_) | NoteType::TouchHold(_, _) => true,
        _ => false,
    }
}


/// The phases a note on screen goes through.
#[derive(Debug, Clone, Copy, PartialEq, Eq, Structural)]
pub enum Phase {
    /// Appearing at the spawn ring.
    Growing,
    /// Travelling out to the judgement ring.
    Moving,
    /// A hold being held at the judgement ring.
    Holding,
    /// A slide waiting one beat before its star sets off.
    Waiting,
    /// A slide's star travelling its path.
    Sliding,
}

/// What becomes of a note at the end of a frame.
#[derive(Debug, Clone, Copy, PartialEq, Eq, Structural)]
pub enum PhaseStep {
    /// It stays in its phase.
    Stay,
    /// It moves on to another phase.
    Enter(Phase),
    /// It leaves the field.
    Despawn,
}

pub open spec fn phase_step_spec(phase: Phase, t: NoteType, has_path: bool, finished: bool) -> PhaseStep {
    if !finished {
        PhaseStep::Stay
    } else {
        match phase {
            Phase::Growing => PhaseStep::Enter(Phase::Moving),
            Phase::Moving => match t {
                NoteType::TapHold(_, _) => PhaseStep::Enter(Phase::Holding),
                NoteType::Slide(_, _) => PhaseStep::Enter(Phase::Waiting),
                _ => PhaseStep::Despawn,
            },
            Phase::Holding => PhaseStep::Despawn,
            Phase::Waiting => if t is Slide {
                PhaseStep::Enter(Phase::Sliding)
            } else {
                PhaseStep::Stay
            },
            Phase::Sliding => if has_path {
                PhaseStep::Despawn
            } else {
                PhaseStep::Stay
            },
        }
    }
}

/// Decides where a note goes once its phase's timer has (`finished`) or has
/// not run out: growing notes start moving; a moving hold is held, a moving
/// slide waits, any other moving note leaves; a held hold leaves; a waiting
/// slide slides; a slide whose star has a path leaves at its end.
pub fn phase_step(phase: Phase, t: NoteType, has_path: bool, finished: bool) -> (r: PhaseStep)
    ensures
        r == phase_step_spec(phase, t, has_path, finished),
{
    if !finished {
        return PhaseStep::Stay;
    }
    match phase {
        Phase::Growing => PhaseStep::Enter(Phase::Moving),
        Phase::Moving => match after_move(t) {
            AfterMove::Hold => PhaseStep::Enter(Phase::Holding),
            AfterMove::WaitThenSlide => PhaseStep::Enter(Phase::Waiting),
            AfterMove::Despawn => PhaseStep::Despawn,
        },
        Phase::Holding => PhaseStep::Despawn,
        Phase::Waiting => if let NoteType::Slide(_, _) = t {
            PhaseStep::Enter(Phase::Sliding)
        } else {
            PhaseStep::Stay
        },
        Phase::Sliding => if has_path {
            PhaseStep::Despawn
        } else {
            PhaseStep::Stay
        },
    }
}

/// Whether the hit sound plays at the end of a frame: when a note's approach
/// to the judgement ring ends, and when a held hold is let go.
pub fn plays_hit(phase: Phase, finished: bool) -> (r: bool)
    ensures
        r == (finished && (phase is Moving || phase is Holding)),
{
    finished && match phase {
        Phase::Moving | Phase::Holding => true,
        _ => false,
    }
}

/// Whether the notes of one group are drawn as a pair: a group of two or more
/// notes struck together.
pub fn is_paired(notes: &Vec<Note>) -> (r: bool)
    ensures
        r == (notes@.len() >= 2),
{
    notes.len() >= 2
}

/// A note whose phase timer has not run out stays in its phase, whatever its
/// phase, kind and path.
pub proof fn lemma_unfinished_phase_stays(phase: Phase, t: NoteType, has_path: bool)
    ensures
        phase_step_spec(phase, t, has_path, false) == PhaseStep::Stay,
{
}

/// A note whose timer has run out leaves its phase, except a waiting note
/// that is no slide and a sliding star without a path: growing notes move,
/// moving notes are held, wait or leave, held notes and slides at their end
/// leave.
pub proof fn lemma_finished_phase_moves_on(phase: Phase, t: NoteType, has_path: bool)
    ensures
        phase_step_spec(phase, t, has_path, true) == PhaseStep::Stay <==> ((phase is Waiting && !(t is Slide))
            || (phase is Sliding && !has_path)),
        phase is Holding ==> phase_step_spec(phase, t, has_path, true) == PhaseStep::Despawn,
        phase is Growing ==> phase_step_spec(phase, t, has_path, true) == PhaseStep::Enter(Phase::Moving),
{
}

/// Where a note is after `steps` phases whose timers all run out, from
/// `phase`; `None` once it has left the field.
pub open spec fn after_phases(phase: Phase, t: NoteType, has_path: bool, steps: nat) -> Option<Phase>
    decreases steps,
{
    if steps == 0 {
        Some(phase)
    } else {
        match phase_step_spec(phase, t, has_path, true) {
            PhaseStep::Stay => after_phases(phase, t, has_path, (steps - 1) as nat),
            PhaseStep::Enter(next) => after_phases(next, t, has_path, (steps - 1) as nat),
            PhaseStep::Despawn => None,
        }
    }
}

/// How many phases a note lives through: taps and touches grow and move,
/// holds are held too, slides also wait and slide.
pub open spec fn lifetime(t: NoteType) -> nat {
    match t {
        NoteType::TapHold(_, _) => 3,
        NoteType::Slide(_, _) => 4,
        _ => 2,
    }
}

/// Every note that appears leaves the field once its phases have run out,
/// after exactly as many phases as its kind has (a slide needs a path), and
/// not before.
pub proof fn lemma_notes_leave_the_field(t: NoteType, k: nat)
    ensures
        after_phases(Phase::Growing, t, true, lifetime(t)) is None,
        k < lifetime(t) ==> after_phases(Phase::Growing, t, true, k) is Some,
{
    reveal_with_fuel(after_phases, 5);
}

} // verus!

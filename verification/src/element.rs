//! The values that a chart is read into.

use vstd::prelude::*;

use crate::text::text3;

verus! {

/// The path a slide's star travels, by the buttons it touches.
#[derive(Debug, Clone, Copy, PartialEq, Eq)]
pub enum SlideShape {
    /// start, end
    Straight(usize, usize),
    /// start, end
    ShortArc(usize, usize),
    /// start, end
    ClockwiseArc(usize, usize),
    /// start, end
    CounterClockwiseArc(usize, usize),
    /// start, end
    VShape(usize, usize),
    /// start, end
    PShape(usize, usize),
    /// start, end
    QShape(usize, usize),
    /// start, end, mid
    GrandVShape(usize, usize, usize),
    /// start, end
    GrandPShape(usize, usize),
    /// start, end
    GrandQShape(usize, usize),
    /// start, end, is_z
    Thunderbolt(usize, usize, bool),
    /// start, (end 1, end 2, end 3)
    FanShape(usize, (usize, usize, usize)),
}

/// What one note asks of the player.
#[derive(Debug, Clone, Copy, PartialEq, Eq)]
pub enum NoteDetail {
    /// button
    Tap(usize),
    /// button, (divider, length)
    TapHold(usize, (usize, usize)),
    /// (value, group)
    Touch((usize, char)),
    /// (value, group), (divider, length)
    TouchHold((usize, char), (usize, usize)),
    /// button, shape, (divider, length)
    Slide(usize, SlideShape, (usize, usize)),
}

#[derive(Debug, Clone, Copy, PartialEq, Eq)]
pub struct Note {
    pub is_break: bool,
    pub is_firework: bool,
    pub note_type: NoteDetail,
}

/// The main events found in the chart stream.
#[derive(Debug, Clone, PartialEq)]
pub enum ChartEvent {
    /// `(191)`: the new tempo, as the decimal text that the chart spells
    BpmChange(String),
    /// `{8}`
    ResolutionChange(u32),
    /// A group of notes played simultaneously (separated by `/`)
    NoteGroup(Vec<Note>),
    /// An empty comma with no notes
    Rest,
}

/// A [`ChartEvent`] seen as mathematical values.
pub enum ChartEventModel {
    BpmChange(Seq<char>),
    ResolutionChange(u32),
    NoteGroup(Seq<Note>),
    Rest,
}

impl View for ChartEvent {
    type V = ChartEventModel;

    open spec fn view(&self) -> ChartEventModel {
        match self {
            ChartEvent::BpmChange(t) => ChartEventModel::BpmChange(t@),
            ChartEvent::ResolutionChange(r) => ChartEventModel::ResolutionChange(*r),
            ChartEvent::NoteGroup(ns) => ChartEventModel::NoteGroup(ns@),
            ChartEvent::Rest => ChartEventModel::Rest,
        }
    }
}

/// Why a note was refused.
#[derive(Debug, Clone, PartialEq, Eq)]
pub enum NoteError {
    /// "Empty note string"
    EmptyNote,
    /// "Invalid note syntax: '{note}'"
    InvalidNoteSyntax(String),
    /// "Hold requires duration"
    HoldRequiresDuration,
    /// "Invalid slide syntax: '{note}'"
    InvalidSlideSyntax(String),
    /// "Slide requires duration: '{pattern}'"
    SlideRequiresDuration(String),
    /// "No valid slide pattern found: '{pattern}'"
    NoValidSlidePattern(String),
    /// "Invalid target button: '{digits}'"
    InvalidTargetButton(String),
    /// "Unknown slide shape: {shape}"
    UnknownSlideShape(String),
    /// "Star-chained segment is not a slide"
    StarSegmentNotSlide,
}

/// A [`NoteError`] seen as mathematical values.
pub enum NoteErrorModel {
    EmptyNote,
    InvalidNoteSyntax(Seq<char>),
    HoldRequiresDuration,
    InvalidSlideSyntax(Seq<char>),
    SlideRequiresDuration(Seq<char>),
    NoValidSlidePattern(Seq<char>),
    InvalidTargetButton(Seq<char>),
    UnknownSlideShape(Seq<char>),
    StarSegmentNotSlide,
}

impl View for NoteError {
    type V = NoteErrorModel;

    open spec fn view(&self) -> NoteErrorModel {
        match self {
            NoteError::EmptyNote => NoteErrorModel::EmptyNote,
            NoteError::InvalidNoteSyntax(t) => NoteErrorModel::InvalidNoteSyntax(t@),
            NoteError::HoldRequiresDuration => NoteErrorModel::HoldRequiresDuration,
            NoteError::InvalidSlideSyntax(t) => NoteErrorModel::InvalidSlideSyntax(t@),
            NoteError::SlideRequiresDuration(t) => NoteErrorModel::SlideRequiresDuration(t@),
            NoteError::NoValidSlidePattern(t) => NoteErrorModel::NoValidSlidePattern(t@),
            NoteError::InvalidTargetButton(t) => NoteErrorModel::InvalidTargetButton(t@),
            NoteError::UnknownSlideShape(t) => NoteErrorModel::UnknownSlideShape(t@),
            NoteError::StarSegmentNotSlide => NoteErrorModel::StarSegmentNotSlide,
        }
    }
}

/// The message that tells why a note was refused.
pub open spec fn note_error_text(e: NoteErrorModel) -> Seq<char> {
    match e {
        NoteErrorModel::EmptyNote => "Empty note string"@,
        NoteErrorModel::InvalidNoteSyntax(t) => "Invalid note syntax: '"@ + t + "'"@,
        NoteErrorModel::HoldRequiresDuration => "Hold requires duration"@,
        NoteErrorModel::InvalidSlideSyntax(t) => "Invalid slide syntax: '"@ + t + "'"@,
        NoteErrorModel::SlideRequiresDuration(t) => "Slide requires duration: '"@ + t + "'"@,
        NoteErrorModel::NoValidSlidePattern(t) => "No valid slide pattern found: '"@ + t + "'"@,
        NoteErrorModel::InvalidTargetButton(t) => "Invalid target button: '"@ + t + "'"@,
        NoteErrorModel::UnknownSlideShape(t) => "Unknown slide shape: "@ + t,
        NoteErrorModel::StarSegmentNotSlide => "Star-chained segment is not a slide"@,
    }
}

impl NoteError {
    /// The message that tells why the note was refused.
    pub fn message(&self) -> (r: String)
        ensures
            r@ == note_error_text(self@),
    {
        proof {
            reveal_strlit("");
        }
        match self {
            NoteError::EmptyNote => text3("Empty note string", "", ""),
            NoteError::InvalidNoteSyntax(t) => text3("Invalid note syntax: '", t.as_str(), "'"),
            NoteError::HoldRequiresDuration => text3("Hold requires duration", "", ""),
            NoteError::InvalidSlideSyntax(t) => text3("Invalid slide syntax: '", t.as_str(), "'"),
            NoteError::SlideRequiresDuration(t) => text3("Slide requires duration: '", t.as_str(), "'"),
            NoteError::NoValidSlidePattern(t) => text3("No valid slide pattern found: '", t.as_str(), "'"),
            NoteError::InvalidTargetButton(t) => text3("Invalid target button: '", t.as_str(), "'"),
            NoteError::UnknownSlideShape(t) => text3("Unknown slide shape: ", t.as_str(), ""),
            NoteError::StarSegmentNotSlide => text3("Star-chained segment is not a slide", "", ""),
        }
    }
}

/// Where reading a chart stops the program instead of answering.
#[derive(Debug, Clone, Copy, PartialEq, Eq, Structural)]
pub enum Abort {
    /// A tempo or resolution marker is cut off at a byte offset that falls
    /// inside a character.
    SliceInsideChar,
    /// A `\d` run that the grammar accepted is unwrapped as a `usize` and is
    /// not one (a digit outside ASCII, or too large).
    NumberUnwrap,
    /// The neighbours of a fan slide's target overflow `usize`.
    ButtonOverflow,
}

/// A result that can also stop the program.
pub type Outcome<T, E> = Result<Result<T, E>, Abort>;

} // verus!

//! A reader for simai rhythm-game charts (`maidata.txt`) and the bookkeeping
//! that plays them back.

pub mod text;
pub mod element;
pub mod note_parser;
pub mod tap;
pub mod slide;
pub mod chart;
pub mod cli;
pub mod playback;
pub mod mesh;

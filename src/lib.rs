//! Speech for Maltese words from recorded letter clips: segmentation of text
//! into letters, silence trimming and crossfading of clips, and assembly of
//! each word's clips into one sample sequence.

pub mod assemble;
pub mod parser;
pub mod sound;

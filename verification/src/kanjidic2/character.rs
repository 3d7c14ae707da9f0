//! The records of the character dictionary.
use vstd::prelude::*;

use super::reading::{Reading, ReadingView};
use crate::text::spelled;

verus! {

/// What a [`Meaning`] holds.
pub struct MeaningView {
    pub text: Seq<char>,
    pub lang: Option<Seq<char>>,
}

/// A meaning of a character, and the language it is given in where that
/// is not English.
#[derive(Clone, Copy, Debug)]
pub struct Meaning<'a> {
    pub text: &'a str,
    pub lang: Option<&'a str>,
}

impl<'a> View for Meaning<'a> {
    type V = MeaningView;

    open spec fn view(&self) -> MeaningView {
        MeaningView { text: self.text@, lang: spelled(self.lang) }
    }
}

/// What a [`ReadingMeaning`] holds.
pub struct ReadingMeaningView {
    pub readings: Seq<ReadingView>,
    pub meanings: Seq<MeaningView>,
}

/// The readings and the meanings of a character.
#[derive(Clone, Debug)]
pub struct ReadingMeaning<'a> {
    pub readings: Vec<Reading<'a>>,
    pub meanings: Vec<Meaning<'a>>,
}

impl<'a> View for ReadingMeaning<'a> {
    type V = ReadingMeaningView;

    open spec fn view(&self) -> ReadingMeaningView {
        ReadingMeaningView {
            readings: self.readings@.map_values(|r: Reading<'a>| r@),
            meanings: self.meanings@.map_values(|m: Meaning<'a>| m@),
        }
    }
}

/// What a [`Character`] holds.
pub struct CharacterView {
    pub literal: char,
    pub radicals: Seq<u32>,
    pub stroke_count: u8,
    pub reading_meaning: ReadingMeaningView,
}

/// A character: the character itself, the numbers of its radicals, the
/// number of its strokes, and its readings and meanings.
#[derive(Clone, Debug)]
pub struct Character<'a> {
    pub literal: char,
    pub radicals: Vec<u32>,
    pub stroke_count: u8,
    pub reading_meaning: ReadingMeaning<'a>,
}

impl<'a> View for Character<'a> {
    type V = CharacterView;

    open spec fn view(&self) -> CharacterView {
        CharacterView {
            literal: self.literal,
            radicals: self.radicals@,
            stroke_count: self.stroke_count,
            reading_meaning: self.reading_meaning@,
        }
    }
}

} // verus!

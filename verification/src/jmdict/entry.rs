//! The records of a vocabulary dictionary.
use vstd::prelude::*;

use crate::entities::PosSet;
use crate::entities::PartOfSpeech;
use crate::number::{digits_upto, parse_digits};
use crate::text::{same, strip_prefix, without_prefix};

verus! {

/// What a list of slices spells.
pub open spec fn spellings(list: Seq<&str>) -> Seq<Seq<char>> {
    list.map_values(|s: &str| s@)
}

/// Whether one of `list` spells `text`.
pub fn contains_text(list: &Vec<&str>, text: &str) -> (found: bool)
    ensures
        found == spellings(list@).contains(text@),
{
    let mut i: usize = 0;
    while i < list.len()
        invariant
            i <= list.len(),
            forall|j: int| 0 <= j < i ==> spellings(list@)[j] != text@,
        decreases list.len() - i,
    {
        if same(list[i], text) {
            assert(spellings(list@)[i as int] == text@);
            return true;
        }
        i = i + 1;
    }
    false
}

/// What a [`ReadingElement`] holds.
pub struct ReadingElementView {
    pub text: Seq<char>,
    pub no_kanji: bool,
    pub restrict: Seq<Seq<char>>,
}

impl ReadingElementView {
    /// Whether the reading is one of the written form `kanji`: it is not
    /// marked as standing alone, and its list of written forms is empty or
    /// names `kanji`.
    pub open spec fn applies_to(self, kanji: Seq<char>) -> bool {
        !self.no_kanji && (self.restrict.len() == 0 || self.restrict.contains(kanji))
    }
}

/// A reading of an entry, in kana.
#[derive(Clone, Debug)]
pub struct ReadingElement<'a> {
    pub text: &'a str,
    /// The reading is not a true reading of the entry's written forms.
    pub no_kanji: bool,
    /// The written forms that the reading is limited to; empty for all.
    pub restrict: Vec<&'a str>,
}

impl<'a> View for ReadingElement<'a> {
    type V = ReadingElementView;

    open spec fn view(&self) -> ReadingElementView {
        ReadingElementView {
            text: self.text@,
            no_kanji: self.no_kanji,
            restrict: spellings(self.restrict@),
        }
    }
}

impl<'a> ReadingElement<'a> {
    /// Whether the reading is one of the written form `text`.
    pub fn applies_to(&self, text: &str) -> (b: bool)
        ensures
            b == self@.applies_to(text@),
    {
        if self.no_kanji {
            return false;
        }
        if self.restrict.len() == 0 {
            return true;
        }
        contains_text(&self.restrict, text)
    }
}

/// A reading that is neither marked as standing alone nor limited to some
/// written forms applies to every written form.
pub proof fn lemma_unrestricted_reading_applies(reading: ReadingElementView, kanji: Seq<char>)
    requires
        !reading.no_kanji,
        reading.restrict.len() == 0,
    ensures
        reading.applies_to(kanji),
{
}

/// The family of a priority tag.
#[derive(Clone, Copy, Debug, PartialEq, Eq, Structural, Hash)]
pub enum PriorityKind {
    News,
    Ichi,
    Spec,
    Gai,
    Nf,
}

/// A tag that tells how common a written form is: a family and a level
/// within it, lower levels being more common.
#[derive(Clone, Copy, Debug, PartialEq, Eq, Structural, Hash)]
pub struct Priority {
    pub kind: PriorityKind,
    pub level: u8,
}

impl Priority {
    /// The tag that a family and a number in digits make up, read back.
    pub open spec fn of_family(tag: Seq<char>, family: Seq<char>, kind: PriorityKind) -> Option<
        Priority,
    > {
        match without_prefix(tag, family) {
            Some(digits) => match digits_upto(digits, u8::MAX as u64) {
                Some(level) => Some(Priority { kind, level: level as u8 }),
                None => None,
            },
            None => None,
        }
    }

    /// The priority that a tag names: the name of a family, followed by a
    /// level in digits that fits in eight bits.
    pub open spec fn tagged(tag: Seq<char>) -> Option<Priority> {
        if without_prefix(tag, "news"@) is Some {
            Priority::of_family(tag, "news"@, PriorityKind::News)
        } else if without_prefix(tag, "ichi"@) is Some {
            Priority::of_family(tag, "ichi"@, PriorityKind::Ichi)
        } else if without_prefix(tag, "spec"@) is Some {
            Priority::of_family(tag, "spec"@, PriorityKind::Spec)
        } else if without_prefix(tag, "gai"@) is Some {
            Priority::of_family(tag, "gai"@, PriorityKind::Gai)
        } else if without_prefix(tag, "nf"@) is Some {
            Priority::of_family(tag, "nf"@, PriorityKind::Nf)
        } else {
            None
        }
    }

    fn level_of(digits: &str, kind: PriorityKind) -> (p: Option<Priority>)
        ensures
            p == match digits_upto(digits@, u8::MAX as u64) {
                Some(level) => Some(Priority { kind, level: level as u8 }),
                None => None,
            },
    {
        match parse_digits(digits, u8::MAX as u64) {
            Some(level) => Some(Priority { kind, level: level as u8 }),
            None => None,
        }
    }

    /// The priority that a tag names, if it names one.
    pub fn parse(tag: &str) -> (p: Option<Priority>)
        ensures
            p == Priority::tagged(tag@),
    {
        if let Some(digits) = strip_prefix(tag, "news") {
            Priority::level_of(digits, PriorityKind::News)
        } else if let Some(digits) = strip_prefix(tag, "ichi") {
            Priority::level_of(digits, PriorityKind::Ichi)
        } else if let Some(digits) = strip_prefix(tag, "spec") {
            Priority::level_of(digits, PriorityKind::Spec)
        } else if let Some(digits) = strip_prefix(tag, "gai") {
            Priority::level_of(digits, PriorityKind::Gai)
        } else if let Some(digits) = strip_prefix(tag, "nf") {
            Priority::level_of(digits, PriorityKind::Nf)
        } else {
            None
        }
    }
}

/// What a [`KanjiElement`] holds.
pub struct KanjiElementView {
    pub text: Seq<char>,
    pub priority: Seq<Priority>,
}

/// A written form of an entry.
#[derive(Clone, Debug)]
pub struct KanjiElement<'a> {
    pub text: &'a str,
    pub priority: Vec<Priority>,
}

impl<'a> View for KanjiElement<'a> {
    type V = KanjiElementView;

    open spec fn view(&self) -> KanjiElementView {
        KanjiElementView { text: self.text@, priority: self.priority@ }
    }
}

/// Whether no two of the written forms are the same.
pub open spec fn distinct_texts(list: Seq<KanjiElementView>) -> bool {
    forall|i: int, j: int| 0 <= i < j < list.len() ==> list[i].text != list[j].text
}

/// What a list of written forms holds.
pub open spec fn kanji_views(list: Seq<KanjiElement>) -> Seq<KanjiElementView> {
    list.map_values(|k: KanjiElement| k@)
}

/// Whether one of the written forms is `text`.
pub open spec fn has_kanji(list: Seq<KanjiElementView>, text: Seq<char>) -> bool {
    exists|i: int| 0 <= i < list.len() && #[trigger] list[i].text == text
}

/// Whether one of the written forms is `text`.
pub fn contains_kanji(list: &Vec<KanjiElement<'_>>, text: &str) -> (found: bool)
    ensures
        found == has_kanji(kanji_views(list@), text@),
{
    let mut i: usize = 0;
    while i < list.len()
        invariant
            i <= list.len(),
            forall|j: int| 0 <= j < i ==> (#[trigger] kanji_views(list@)[j]).text != text@,
        decreases list.len() - i,
    {
        if same(list[i].text, text) {
            assert(kanji_views(list@)[i as int].text == text@);
            return true;
        }
        i = i + 1;
    }
    false
}

/// What a [`Sense`] holds.
pub struct SenseView {
    pub glosses: Seq<Seq<char>>,
    pub pos: PosSet,
    pub misc: Seq<Seq<char>>,
    pub language: Seq<char>,
}

/// One meaning of an entry.
#[derive(Clone, Debug)]
pub struct Sense<'a> {
    pub glosses: Vec<&'a str>,
    pub pos: PosSet,
    pub misc: Vec<&'a str>,
    pub language: &'a str,
}

impl<'a> View for Sense<'a> {
    type V = SenseView;

    open spec fn view(&self) -> SenseView {
        SenseView {
            glosses: spellings(self.glosses@),
            pos: self.pos,
            misc: spellings(self.misc@),
            language: self.language@,
        }
    }
}

/// What an [`Entry`] holds.
pub struct EntryView {
    pub sequence_number: u32,
    pub reading_elements: Seq<ReadingElementView>,
    pub kanji_elements: Seq<KanjiElementView>,
    pub senses: Seq<SenseView>,
}

impl EntryView {
    /// The parts of speech of the first `n` senses together.
    pub open spec fn parts_of_speech_upto(self, n: int) -> Set<PartOfSpeech>
        decreases n,
    {
        if n <= 0 {
            Set::empty()
        } else {
            self.parts_of_speech_upto(n - 1).union(self.senses[n - 1].pos@)
        }
    }

    /// The parts of speech of all senses together.
    pub open spec fn parts_of_speech(self) -> Set<PartOfSpeech> {
        self.parts_of_speech_upto(self.senses.len() as int)
    }

    /// An entry has a reading and a sense.
    pub open spec fn well_formed(self) -> bool {
        self.reading_elements.len() >= 1 && self.senses.len() >= 1
    }

    /// No two written forms of the entry are the same.
    pub open spec fn distinct_kanji(self) -> bool {
        distinct_texts(self.kanji_elements)
    }
}

/// An entry of the dictionary: a word with its readings, its written forms
/// and its meanings.
#[derive(Clone, Debug)]
pub struct Entry<'a> {
    pub sequence_number: u32,
    pub reading_elements: Vec<ReadingElement<'a>>,
    pub kanji_elements: Vec<KanjiElement<'a>>,
    pub senses: Vec<Sense<'a>>,
}

impl<'a> View for Entry<'a> {
    type V = EntryView;

    open spec fn view(&self) -> EntryView {
        EntryView {
            sequence_number: self.sequence_number,
            reading_elements: self.reading_elements@.map_values(|r: ReadingElement<'a>| r@),
            kanji_elements: self.kanji_elements@.map_values(|k: KanjiElement<'a>| k@),
            senses: self.senses@.map_values(|s: Sense<'a>| s@),
        }
    }
}

} // verus!

//! What an image holds, as the reader sees it: the arena, the columns as
//! rows of records, and the entries that they stand for.
use vstd::prelude::*;
use vstd::set_lib::{lemma_int_range, lemma_len_subset, lemma_subset_equality, set_int_range};

use super::blobs::split;
use super::characters::{character_of, CharacterRow, literals_of, literals_rise};
use super::container::{Contents, contents_of, ImageError};
use super::phrases::{ascending, Phrase, phrases_of};
use super::ranking::bucket;
use super::records::{
    entries_of, EntryRecord, kanji_of, KanjiRow, reading_of, ReadingRow, sense_of, SenseRow, StrRef,
};

use crate::clipboard::is_scalar_value;
use crate::entities::PosSet;
use crate::jmdict::entry::{EntryView, KanjiElementView, ReadingElementView, SenseView};
use crate::kanjidic2::character::{CharacterView, MeaningView, ReadingMeaningView};
use crate::kanjidic2::reading::ReadingView;
use crate::text::decoded;

verus! {

/// The number of columns of an image beside the strings.
pub const COLUMNS: usize = 9;

/// The position of each column among those beside the strings.
pub const ENTRIES: usize = 0;

pub const READINGS: usize = 1;

pub const KANJI: usize = 2;

pub const SENSES: usize = 3;

pub const CHARACTERS: usize = 4;

pub const SEQUENCE_MAP: usize = 5;

pub const LITERAL_MAP: usize = 6;

pub const PHRASE_INDEX: usize = 7;

pub const PRIORITY_INDEX: usize = 8;

/// What an index holds.
pub struct IndexView {
    pub strings: Seq<u8>,
    pub entries: Seq<EntryRecord>,
    pub readings: Seq<ReadingRow>,
    pub kanji: Seq<KanjiRow>,
    pub senses: Seq<SenseRow>,
    /// The sequence numbers of the entries with their positions, as words.
    pub sequence_map: Seq<u32>,
    /// The surface forms with the positions of their entries, in the order
    /// of the forms.
    pub phrases: Seq<Phrase>,
    /// The positions of the entries, the most common first.
    pub priorities: Seq<u32>,
    pub characters: Seq<CharacterRow>,
    /// The characters with the positions of their records, in the order
    /// of the characters.
    pub literals: Seq<(u32, u32)>,
}

/// The characters that records hold, if each holds one.
pub open spec fn characters_of(blobs: Seq<Seq<u32>>) -> Option<Seq<CharacterRow>> {
    if forall|i: int| 0 <= i < blobs.len() ==> (#[trigger] character_of(blobs[i])) is Some {
        Some(Seq::new(blobs.len(), |i: int| character_of(blobs[i]).unwrap()))
    } else {
        None
    }
}

/// The records of the columns of entries, if each column holds records of
/// its kind.
pub open spec fn parsed_records(contents: Contents) -> Option<
    (Seq<EntryRecord>, Seq<ReadingRow>, Seq<KanjiRow>, Seq<SenseRow>),
> {
    match (
        entries_of(contents.columns[ENTRIES as int]),
        split(contents.columns[READINGS as int]),
        split(contents.columns[KANJI as int]),
        split(contents.columns[SENSES as int]),
    ) {
        (Some(entries), Some(readings), Some(kanji), Some(senses)) => match (
            readings_of(readings),
            kanjis_of(kanji),
            senses_of(senses),
        ) {
            (Some(readings), Some(kanji), Some(senses)) => Some((entries, readings, kanji, senses)),
            _ => None,
        },
        _ => None,
    }
}

/// The records of the columns of characters, if each column holds
/// records of its kind.
pub open spec fn parsed_characters(contents: Contents) -> Option<
    (Seq<CharacterRow>, Seq<(u32, u32)>),
> {
    match (
        split(contents.columns[CHARACTERS as int]),
        literals_of(contents.columns[LITERAL_MAP as int]),
    ) {
        (Some(blobs), Some(literals)) => match characters_of(blobs) {
            Some(characters) => Some((characters, literals)),
            None => None,
        },
        _ => None,
    }
}

/// The readings that records hold, if each holds one.
pub open spec fn readings_of(blobs: Seq<Seq<u32>>) -> Option<Seq<ReadingRow>> {
    if forall|i: int| 0 <= i < blobs.len() ==> (#[trigger] reading_of(blobs[i])) is Some {
        Some(Seq::new(blobs.len(), |i: int| reading_of(blobs[i]).unwrap()))
    } else {
        None
    }
}

/// The written forms that records hold, if each holds one.
pub open spec fn kanjis_of(blobs: Seq<Seq<u32>>) -> Option<Seq<KanjiRow>> {
    if forall|i: int| 0 <= i < blobs.len() ==> (#[trigger] kanji_of(blobs[i])) is Some {
        Some(Seq::new(blobs.len(), |i: int| kanji_of(blobs[i]).unwrap()))
    } else {
        None
    }
}

/// The senses that records hold, if each holds one.
pub open spec fn senses_of(blobs: Seq<Seq<u32>>) -> Option<Seq<SenseRow>> {
    if forall|i: int| 0 <= i < blobs.len() ==> (#[trigger] sense_of(blobs[i])) is Some {
        Some(Seq::new(blobs.len(), |i: int| sense_of(blobs[i]).unwrap()))
    } else {
        None
    }
}

/// The columns of an image as rows of records, if each column holds
/// records of its kind and nothing else.
pub open spec fn parsed(contents: Contents) -> Option<IndexView> {
    match (
        parsed_records(contents),
        parsed_characters(contents),
        phrases_of(contents.columns[PHRASE_INDEX as int]),
    ) {
        (Some((entries, readings, kanji, senses)), Some((characters, literals)), Some(phrases)) => Some(
            IndexView {
                strings: contents.strings,
                entries,
                readings,
                kanji,
                senses,
                sequence_map: contents.columns[SEQUENCE_MAP as int],
                phrases,
                priorities: contents.columns[PRIORITY_INDEX as int],
                characters,
                literals,
            },
        ),
        _ => None,
    }
}

/// Whether a reference lies in the strings.
pub open spec fn lies_in(strings: Seq<u8>, r: StrRef) -> bool {
    r.offset + r.len <= strings.len()
}

/// Whether all references of a list lie in the strings.
pub open spec fn lie_in(strings: Seq<u8>, refs: Seq<StrRef>) -> bool {
    forall|i: int| 0 <= i < refs.len() ==> lies_in(strings, #[trigger] refs[i])
}

/// The bytes that a reference names.
pub open spec fn bytes_at(strings: Seq<u8>, r: StrRef) -> Seq<u8> {
    strings.subrange(r.offset as int, r.offset + r.len)
}

/// Whether a reference names text in UTF-8.
pub open spec fn text_lies_at(strings: Seq<u8>, r: StrRef) -> bool {
    decoded(bytes_at(strings, r)) is Some
}

/// Whether all references of a list name text.
pub open spec fn texts_lie_at(strings: Seq<u8>, refs: Seq<StrRef>) -> bool {
    forall|i: int| 0 <= i < refs.len() ==> text_lies_at(strings, #[trigger] refs[i])
}

/// The text that a reference names.
pub open spec fn text_at(strings: Seq<u8>, r: StrRef) -> Seq<char> {
    decoded(bytes_at(strings, r)).unwrap()
}

/// The texts that references name.
pub open spec fn texts_at(strings: Seq<u8>, refs: Seq<StrRef>) -> Seq<Seq<char>> {
    Seq::new(refs.len(), |i: int| text_at(strings, refs[i]))
}

impl IndexView {
    /// Whether a reference lies in the arena.
    pub open spec fn holds(self, r: StrRef) -> bool {
        lies_in(self.strings, r)
    }

    /// The bytes that a reference names.
    pub open spec fn slice(self, r: StrRef) -> Seq<u8> {
        bytes_at(self.strings, r)
    }

    /// Whether all references of a list lie in the arena.
    pub open spec fn hold_all(self, refs: Seq<StrRef>) -> bool {
        lie_in(self.strings, refs)
    }

    /// Whether every reference of a record lies in the arena, and the runs
    /// of every entry lie in their columns.
    pub open spec fn records_in_range(self) -> bool {
        &&& forall|i: int|
            0 <= i < self.readings.len() ==> self.holds((#[trigger] self.readings[i]).text)
                && self.hold_all(self.readings[i].restrict)
        &&& forall|i: int| 0 <= i < self.kanji.len() ==> self.holds((#[trigger] self.kanji[i]).text)
        &&& forall|i: int|
            0 <= i < self.senses.len() ==> self.holds((#[trigger] self.senses[i]).language)
                && self.hold_all(self.senses[i].glosses) && self.hold_all(self.senses[i].misc)
        &&& forall|i: int|
            0 <= i < self.entries.len() ==> {
                let e = #[trigger] self.entries[i];
                &&& e.readings.start + e.readings.count <= self.readings.len()
                &&& e.kanji.start + e.kanji.count <= self.kanji.len()
                &&& e.senses.start + e.senses.count <= self.senses.len()
            }
    }

    /// Whether the form of every phrase lies in the arena, and every
    /// position in an index is that of an entry.
    pub open spec fn indexes_in_range(self) -> bool {
        &&& forall|i: int|
            0 <= i < self.phrases.len() ==> self.holds((#[trigger] self.phrases[i]).text)
                && self.phrases[i].entry < self.entries.len()
        &&& forall|i: int|
            0 <= i < self.priorities.len() ==> (#[trigger] self.priorities[i]) < self.entries.len()
    }

    /// Whether the reference of a meaning lies in the arena.
    pub open spec fn meaning_holds(self, r: (StrRef, Option<StrRef>)) -> bool {
        self.holds(r.0) && (r.1 matches Some(lang) ==> self.holds(lang))
    }

    /// Whether every reference of a character lies in the arena, and
    /// every position in the map of literals is that of a character.
    pub open spec fn characters_in_range(self) -> bool {
        &&& forall|i: int, j: int|
            0 <= i < self.characters.len() && 0 <= j < self.characters[i].readings.len()
                ==> self.holds((#[trigger] self.characters[i].readings[j]).0) && self.holds(
                self.characters[i].readings[j].1,
            )
        &&& forall|i: int, j: int|
            0 <= i < self.characters.len() && 0 <= j < self.characters[i].meanings.len()
                ==> self.meaning_holds(#[trigger] self.characters[i].meanings[j])
        &&& forall|k: int|
            0 <= k < self.literals.len() ==> (#[trigger] self.literals[k]).1
                < self.characters.len()
    }

    /// Whether every reference lies in the arena, the runs of every entry
    /// lie in their columns, and every position is that of a record.
    pub open spec fn in_range(self) -> bool {
        self.records_in_range() && self.indexes_in_range() && self.characters_in_range()
    }

    /// The bucket of the entry at a position.
    pub open spec fn bucket(self, at: int) -> u8 {
        bucket(self.entries, self.kanji, at)
    }

    /// Whether one position comes before another in the order of
    /// priority: by the bucket, and within a bucket by the position.
    pub open spec fn outranks(self, x: u32, y: u32) -> bool {
        self.bucket(x as int) < self.bucket(y as int) || (self.bucket(x as int) == self.bucket(
            y as int,
        ) && x < y)
    }

    /// Whether a reference names text in UTF-8.
    pub open spec fn is_text(self, r: StrRef) -> bool {
        text_lies_at(self.strings, r)
    }

    /// Whether all references of a list name text.
    pub open spec fn are_text(self, refs: Seq<StrRef>) -> bool {
        texts_lie_at(self.strings, refs)
    }

    /// Whether every reference of a record names text.
    pub open spec fn texts_coherent(self) -> bool {
        &&& forall|i: int|
            0 <= i < self.readings.len() ==> self.is_text((#[trigger] self.readings[i]).text)
                && self.are_text(self.readings[i].restrict)
        &&& forall|i: int|
            0 <= i < self.kanji.len() ==> self.is_text((#[trigger] self.kanji[i]).text)
        &&& forall|i: int|
            0 <= i < self.senses.len() ==> self.is_text((#[trigger] self.senses[i]).language)
                && self.are_text(self.senses[i].glosses) && self.are_text(self.senses[i].misc)
    }

    /// Whether the sequence numbers of the entries rise, and the map of
    /// sequence numbers lists each entry with its position.
    pub open spec fn sequences_coherent(self) -> bool {
        &&& forall|i: int, j: int|
            0 <= i < j < self.entries.len() ==> (#[trigger] self.entries[i]).sequence_number < (
            #[trigger] self.entries[j]).sequence_number
        &&& self.sequence_map.len() == 2 * self.entries.len()
        &&& forall|i: int|
            0 <= i < self.entries.len() ==> #[trigger] self.sequence_map[2 * i]
                == self.entries[i].sequence_number && self.sequence_map[2 * i + 1] == i
    }

    /// Whether the form of every phrase is text, and the phrases are in
    /// order.
    pub open spec fn phrases_coherent(self) -> bool {
        &&& forall|i: int|
            0 <= i < self.phrases.len() ==> self.is_text((#[trigger] self.phrases[i]).text)
        &&& ascending(self.strings, self.phrases)
    }

    /// Whether the index of priorities lists as many positions as there
    /// are entries, in the order of priority.
    pub open spec fn priorities_coherent(self) -> bool {
        &&& self.priorities.len() == self.entries.len()
        &&& forall|i: int, j: int|
            0 <= i < j < self.priorities.len() ==> self.outranks(
                #[trigger] self.priorities[i],
                #[trigger] self.priorities[j],
            )
    }

    /// Whether every reference names text, the sequence numbers of the
    /// entries rise, the map of sequence numbers lists each entry with its
    /// position, the phrases are in order, and the index of priorities
    /// lists every entry in the order of priority.
    pub open spec fn coherent(self) -> bool {
        self.texts_coherent() && self.sequences_coherent() && self.phrases_coherent()
            && self.priorities_coherent() && self.characters_coherent()
    }

    /// Whether the reference of a meaning names text.
    pub open spec fn meaning_is_text(self, r: (StrRef, Option<StrRef>)) -> bool {
        self.is_text(r.0) && (r.1 matches Some(lang) ==> self.is_text(lang))
    }

    /// Whether every reference of a character names text, every
    /// character is one, with a number of strokes that fits eight bits,
    /// and the map of literals lists every character once, with the
    /// position of its record, in the order of the characters.
    pub open spec fn characters_coherent(self) -> bool {
        &&& forall|i: int, j: int|
            0 <= i < self.characters.len() && 0 <= j < self.characters[i].readings.len()
                ==> self.is_text((#[trigger] self.characters[i].readings[j]).0) && self.is_text(
                self.characters[i].readings[j].1,
            )
        &&& forall|i: int, j: int|
            0 <= i < self.characters.len() && 0 <= j < self.characters[i].meanings.len()
                ==> self.meaning_is_text(#[trigger] self.characters[i].meanings[j])
        &&& forall|i: int|
            0 <= i < self.characters.len() ==> is_scalar_value(
                (#[trigger] self.characters[i]).literal,
            ) && self.characters[i].stroke_count <= u8::MAX
        &&& self.literals.len() == self.characters.len()
        &&& literals_rise(self.literals)
        &&& forall|k: int|
            0 <= k < self.literals.len() ==> self.characters[(
            #[trigger] self.literals[k]).1 as int].literal == self.literals[k].0
    }

    /// The character at a position.
    pub open spec fn character(self, at: int) -> CharacterView {
        let row = self.characters[at];
        CharacterView {
            literal: row.literal as char,
            radicals: row.radicals,
            stroke_count: row.stroke_count as u8,
            reading_meaning: ReadingMeaningView {
                readings: Seq::new(
                    row.readings.len(),
                    |j: int|
                        ReadingView {
                            text: self.text(row.readings[j].0),
                            ty: self.text(row.readings[j].1),
                        },
                ),
                meanings: Seq::new(
                    row.meanings.len(),
                    |j: int|
                        MeaningView {
                            text: self.text(row.meanings[j].0),
                            lang: match row.meanings[j].1 {
                                Some(lang) => Some(self.text(lang)),
                                None => None,
                            },
                        },
                ),
            },
        }
    }

    /// The text that a reference names.
    pub open spec fn text(self, r: StrRef) -> Seq<char> {
        text_at(self.strings, r)
    }

    /// The texts that references name.
    pub open spec fn texts(self, refs: Seq<StrRef>) -> Seq<Seq<char>> {
        texts_at(self.strings, refs)
    }

    /// The reading at a position of its column.
    pub open spec fn reading(self, at: int) -> ReadingElementView {
        ReadingElementView {
            text: self.text(self.readings[at].text),
            no_kanji: self.readings[at].no_kanji,
            restrict: self.texts(self.readings[at].restrict),
        }
    }

    /// The written form at a position of its column.
    pub open spec fn kanji_element(self, at: int) -> KanjiElementView {
        KanjiElementView {
            text: self.text(self.kanji[at].text),
            priority: self.kanji[at].priority,
        }
    }

    /// The sense at a position of its column.
    pub open spec fn sense(self, at: int) -> SenseView {
        SenseView {
            glosses: self.texts(self.senses[at].glosses),
            pos: PosSet::of_bits(self.senses[at].pos),
            misc: self.texts(self.senses[at].misc),
            language: self.text(self.senses[at].language),
        }
    }

    /// The entry at a position: its sequence number, and the readings,
    /// written forms and senses of its runs.
    pub open spec fn entry(self, at: int) -> EntryView {
        let record = self.entries[at];
        EntryView {
            sequence_number: record.sequence_number,
            reading_elements: Seq::new(
                record.readings.count as nat,
                |k: int| self.reading(record.readings.start + k),
            ),
            kanji_elements: Seq::new(
                record.kanji.count as nat,
                |k: int| self.kanji_element(record.kanji.start + k),
            ),
            senses: Seq::new(
                record.senses.count as nat,
                |k: int| self.sense(record.senses.start + k),
            ),
        }
    }
}

/// What an image holds, or what is wrong with it. The container is taken
/// apart first. Then each column must hold records of its kind; every
/// reference and run must lie where it points; and the records must be
/// coherent.
pub open spec fn opened(image: Seq<u8>) -> Result<IndexView, ImageError> {
    match contents_of(image, COLUMNS as int) {
        Err(error) => Err(error),
        Ok(contents) => match parsed(contents) {
            None => Err(ImageError::CorruptColumn),
            Some(view) => if !view.in_range() {
                Err(ImageError::OutOfRange)
            } else if !view.coherent() {
                Err(ImageError::CorruptColumn)
            } else {
                Ok(view)
            },
        },
    }
}

/// In a coherent index the map of literals lists every character.
pub proof fn lemma_every_character_listed(view: IndexView, at: int)
    requires
        view.in_range(),
        view.coherent(),
        0 <= at < view.characters.len(),
    ensures
        exists|k: int|
            0 <= k < view.literals.len() && (#[trigger] view.literals[k]).1 == at
                && view.literals[k].0 == view.characters[at].literal,
{
    let n = view.characters.len() as int;
    let places = Seq::new(view.literals.len(), |k: int| view.literals[k].1 as int);
    assert forall|i: int, j: int| 0 <= i < j < places.len() implies places[i] != places[j] by {
        assert(view.literals[i].0 < view.literals[j].0);
        assert(view.characters[view.literals[i].1 as int].literal == view.literals[i].0);
        assert(view.characters[view.literals[j].1 as int].literal == view.literals[j].0);
    }
    assert(places.no_duplicates());
    places.unique_seq_to_set();
    lemma_int_range(0, n);
    assert forall|p: int| places.to_set().contains(p) implies set_int_range(0, n).contains(p) by {
        let k = choose|k: int| 0 <= k < places.len() && places[k] == p;
        assert(view.literals[k].1 < view.characters.len());
    }
    lemma_len_subset(places.to_set(), set_int_range(0, n));
    lemma_subset_equality(places.to_set(), set_int_range(0, n));
    assert(set_int_range(0, n).contains(at));
    assert(places.to_set().contains(at));
    let k = choose|k: int| 0 <= k < places.len() && places[k] == at;
    assert(view.literals[k].1 == at);
}

} // verus!

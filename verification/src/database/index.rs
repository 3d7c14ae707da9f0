//! The reader of an image.
use vstd::prelude::*;
use vstd::slice::slice_subrange;

use super::blobs::{blob_rows, split_blobs};
use super::characters::{character_of, CharacterRecord, decode_literals};
use super::container::{Contents, ImageError, rows, take_apart};
use super::model::{
    CHARACTERS, characters_of, COLUMNS, ENTRIES, IndexView, KANJI, kanjis_of,
    lemma_every_character_listed, lie_in, lies_in, LITERAL_MAP, opened, parsed, parsed_characters,
    parsed_records, PHRASE_INDEX, PRIORITY_INDEX, READINGS, readings_of, SENSES, senses_of,
    SEQUENCE_MAP, text_at, text_lies_at, texts_at, texts_lie_at,
};
use super::order::{compare, lemma_lex_total, lemma_lex_trans, lex_le, Order, starts_with};
use super::phrases::{decode_phrases, lemma_phrase_trans, Phrase, phrase_le, precedes};
use super::ranking::{bucket, bucket_of, BUCKETS, EntryKey};
use super::records::{
    decode_entries, EntryRecord, kanji_of, KanjiRecord, reading_of, ReadingRecord, sense_of,
    SenseRecord, Span, StrRef,
};
use super::search::{found, Hit, lemma_forms_ordered, lemma_matches_in_a_row, Match};
use super::store::{character_rows, kanji_rows, reading_rows, sense_rows};

use crate::clipboard::is_scalar_value;
use crate::entities::PosSet;
use crate::jmdict::entry::{Entry, KanjiElement, Priority, ReadingElement, Sense, spellings};
use crate::kanjidic2::character::{Character, Meaning, MeaningView, ReadingMeaning};
use crate::kanjidic2::reading::{Reading as CharacterReading, ReadingView};
use crate::text::decode;

verus! {

/// The columns of an image, read but not yet checked.
struct Parts<'a> {
    strings: &'a [u8],
    entries: Vec<EntryRecord>,
    readings: Vec<ReadingRecord>,
    kanji: Vec<KanjiRecord>,
    senses: Vec<SenseRecord>,
    sequence_map: Vec<u32>,
    phrases: Vec<Phrase>,
    priorities: Vec<u32>,
    characters: Vec<CharacterRecord>,
    literals: Vec<(u32, u32)>,
}

impl<'a> View for Parts<'a> {
    type V = IndexView;

    closed spec fn view(&self) -> IndexView {
        IndexView {
            strings: self.strings@,
            entries: self.entries@,
            readings: reading_rows(self.readings@),
            kanji: kanji_rows(self.kanji@),
            senses: sense_rows(self.senses@),
            sequence_map: self.sequence_map@,
            phrases: self.phrases@,
            priorities: self.priorities@,
            characters: character_rows(self.characters@),
            literals: self.literals@,
        }
    }
}

#[verifier::loop_isolation(false)]
fn decode_readings(blobs: &Vec<Vec<u32>>) -> (records: Option<Vec<ReadingRecord>>)
    ensures
        match records {
            Some(records) => readings_of(blob_rows(blobs@)) == Some(reading_rows(records@)),
            None => readings_of(blob_rows(blobs@)) is None,
        },
{
    let ghost all = blob_rows(blobs@);
    let mut records: Vec<ReadingRecord> = Vec::new();
    let mut n: usize = 0;
    while n < blobs.len()
        invariant
            n <= blobs.len(),
            records@.len() == n,
            forall|i: int| 0 <= i < n ==> (#[trigger] reading_of(all[i])) == Some(records@[i]@),
        decreases blobs.len() - n,
    {
        assert(all[n as int] == blobs@[n as int]@);
        match ReadingRecord::decode(&blobs[n]) {
            Some(record) => {
                records.push(record);
            },
            None => {
                assert(reading_of(all[n as int]) is None);
                return None;
            },
        }
        n = n + 1;
    }
    assert(reading_rows(records@) =~= readings_of(all).unwrap());
    Some(records)
}

#[verifier::loop_isolation(false)]
fn decode_kanji(blobs: &Vec<Vec<u32>>) -> (records: Option<Vec<KanjiRecord>>)
    ensures
        match records {
            Some(records) => kanjis_of(blob_rows(blobs@)) == Some(kanji_rows(records@)),
            None => kanjis_of(blob_rows(blobs@)) is None,
        },
{
    let ghost all = blob_rows(blobs@);
    let mut records: Vec<KanjiRecord> = Vec::new();
    let mut n: usize = 0;
    while n < blobs.len()
        invariant
            n <= blobs.len(),
            records@.len() == n,
            forall|i: int| 0 <= i < n ==> (#[trigger] kanji_of(all[i])) == Some(records@[i]@),
        decreases blobs.len() - n,
    {
        assert(all[n as int] == blobs@[n as int]@);
        match KanjiRecord::decode(&blobs[n]) {
            Some(record) => {
                records.push(record);
            },
            None => {
                assert(kanji_of(all[n as int]) is None);
                return None;
            },
        }
        n = n + 1;
    }
    assert(kanji_rows(records@) =~= kanjis_of(all).unwrap());
    Some(records)
}

#[verifier::loop_isolation(false)]
fn decode_senses(blobs: &Vec<Vec<u32>>) -> (records: Option<Vec<SenseRecord>>)
    ensures
        match records {
            Some(records) => senses_of(blob_rows(blobs@)) == Some(sense_rows(records@)),
            None => senses_of(blob_rows(blobs@)) is None,
        },
{
    let ghost all = blob_rows(blobs@);
    let mut records: Vec<SenseRecord> = Vec::new();
    let mut n: usize = 0;
    while n < blobs.len()
        invariant
            n <= blobs.len(),
            records@.len() == n,
            forall|i: int| 0 <= i < n ==> (#[trigger] sense_of(all[i])) == Some(records@[i]@),
        decreases blobs.len() - n,
    {
        assert(all[n as int] == blobs@[n as int]@);
        match SenseRecord::decode(&blobs[n]) {
            Some(record) => {
                records.push(record);
            },
            None => {
                assert(sense_of(all[n as int]) is None);
                return None;
            },
        }
        n = n + 1;
    }
    assert(sense_rows(records@) =~= senses_of(all).unwrap());
    Some(records)
}

#[verifier::loop_isolation(false)]
fn decode_characters(blobs: &Vec<Vec<u32>>) -> (records: Option<Vec<CharacterRecord>>)
    ensures
        match records {
            Some(records) => characters_of(blob_rows(blobs@)) == Some(character_rows(records@)),
            None => characters_of(blob_rows(blobs@)) is None,
        },
{
    let ghost all = blob_rows(blobs@);
    let mut records: Vec<CharacterRecord> = Vec::new();
    let mut n: usize = 0;
    while n < blobs.len()
        invariant
            n <= blobs.len(),
            records@.len() == n,
            forall|i: int| 0 <= i < n ==> (#[trigger] character_of(all[i])) == Some(records@[i]@),
        decreases blobs.len() - n,
    {
        assert(all[n as int] == blobs@[n as int]@);
        match CharacterRecord::decode(&blobs[n]) {
            Some(record) => {
                records.push(record);
            },
            None => {
                assert(character_of(all[n as int]) is None);
                return None;
            },
        }
        n = n + 1;
    }
    assert(character_rows(records@) =~= characters_of(all).unwrap());
    Some(records)
}

/// Reads the columns of entries.
fn parse_records(columns: &Vec<Vec<u32>>, Ghost(contents): Ghost<Contents>) -> (records: Option<
    (Vec<EntryRecord>, Vec<ReadingRecord>, Vec<KanjiRecord>, Vec<SenseRecord>),
>)
    requires
        columns@.len() == COLUMNS,
        contents.columns == rows(columns@),
    ensures
        match records {
            Some((entries, readings, kanji, senses)) => parsed_records(contents) == Some(
                (entries@, reading_rows(readings@), kanji_rows(kanji@), sense_rows(senses@)),
            ),
            None => parsed_records(contents) is None,
        },
{
    assert(contents.columns[ENTRIES as int] == columns@[ENTRIES as int]@);
    assert(contents.columns[READINGS as int] == columns@[READINGS as int]@);
    assert(contents.columns[KANJI as int] == columns@[KANJI as int]@);
    assert(contents.columns[SENSES as int] == columns@[SENSES as int]@);
    let entries = decode_entries(&columns[ENTRIES]);
    let readings = split_blobs(&columns[READINGS]);
    let kanji = split_blobs(&columns[KANJI]);
    let senses = split_blobs(&columns[SENSES]);
    match (entries, readings, kanji, senses) {
        (Some(entries), Some(readings), Some(kanji), Some(senses)) => {
            let readings = decode_readings(&readings);
            let kanji = decode_kanji(&kanji);
            let senses = decode_senses(&senses);
            match (readings, kanji, senses) {
                (Some(readings), Some(kanji), Some(senses)) => Some(
                    (entries, readings, kanji, senses),
                ),
                _ => None,
            }
        },
        _ => None,
    }
}

/// Reads the columns of characters.
fn parse_characters(columns: &Vec<Vec<u32>>, Ghost(contents): Ghost<Contents>) -> (records: Option<
    (Vec<CharacterRecord>, Vec<(u32, u32)>),
>)
    requires
        columns@.len() == COLUMNS,
        contents.columns == rows(columns@),
    ensures
        match records {
            Some((characters, literals)) => parsed_characters(contents) == Some(
                (character_rows(characters@), literals@),
            ),
            None => parsed_characters(contents) is None,
        },
{
    assert(contents.columns[CHARACTERS as int] == columns@[CHARACTERS as int]@);
    assert(contents.columns[LITERAL_MAP as int] == columns@[LITERAL_MAP as int]@);
    let blobs = split_blobs(&columns[CHARACTERS]);
    let literals = decode_literals(&columns[LITERAL_MAP]);
    match (blobs, literals) {
        (Some(blobs), Some(literals)) => match decode_characters(&blobs) {
            Some(characters) => Some((characters, literals)),
            None => None,
        },
        _ => None,
    }
}

/// Reads the columns of an image that was taken apart.
fn parse<'a>(strings: &'a [u8], mut columns: Vec<Vec<u32>>) -> (parts: Option<Parts<'a>>)
    requires
        columns@.len() == COLUMNS,
    ensures
        match parts {
            Some(parts) => parsed(Contents { strings: strings@, columns: rows(columns@) })
                == Some(parts@),
            None => parsed(Contents { strings: strings@, columns: rows(columns@) }) is None,
        },
{
    let ghost contents = Contents { strings: strings@, columns: rows(columns@) };
    assert(contents.columns[SEQUENCE_MAP as int] == columns@[SEQUENCE_MAP as int]@);
    assert(contents.columns[PHRASE_INDEX as int] == columns@[PHRASE_INDEX as int]@);
    assert(contents.columns[PRIORITY_INDEX as int] == columns@[PRIORITY_INDEX as int]@);
    let records = parse_records(&columns, Ghost(contents));
    let characters = parse_characters(&columns, Ghost(contents));
    let phrases = decode_phrases(&columns[PHRASE_INDEX]);
    match (records, characters, phrases) {
        (Some((entries, readings, kanji, senses)), Some((characters, literals)), Some(phrases)) => {
            let mut sequence_map: Vec<u32> = Vec::new();
            let mut priorities: Vec<u32> = Vec::new();
            core::mem::swap(&mut sequence_map, &mut columns[SEQUENCE_MAP]);
            core::mem::swap(&mut priorities, &mut columns[PRIORITY_INDEX]);
            Some(
                Parts {
                    strings,
                    entries,
                    readings,
                    kanji,
                    senses,
                    sequence_map,
                    phrases,
                    priorities,
                    characters,
                    literals,
                },
            )
        },
        _ => None,
    }
}

/// Whether all references of a list lie in strings of the given length.
#[verifier::loop_isolation(false)]
fn refs_lie_in(strings: &[u8], refs: &Vec<StrRef>) -> (b: bool)
    ensures
        b == lie_in(strings@, refs@),
{
    let mut n: usize = 0;
    while n < refs.len()
        invariant
            n <= refs.len(),
            forall|i: int| 0 <= i < n ==> lies_in(strings@, #[trigger] refs@[i]),
        decreases refs.len() - n,
    {
        if !ref_lies_in(strings, refs[n]) {
            assert(!lies_in(strings@, refs@[n as int]));
            return false;
        }
        n = n + 1;
    }
    true
}

fn ref_lies_in(strings: &[u8], r: StrRef) -> (b: bool)
    ensures
        b == lies_in(strings@, r),
{
    r.offset as u64 + r.len as u64 <= strings.len() as u64
}

/// The text that a reference names, if it names text.
fn resolve<'a>(strings: &'a [u8], r: StrRef) -> (text: Option<&'a str>)
    requires
        lies_in(strings@, r),
    ensures
        match text {
            Some(text) => text_lies_at(strings@, r) && text@ == text_at(strings@, r),
            None => !text_lies_at(strings@, r),
        },
{
    let size = strings.len();
    assert(r.offset + r.len <= size);
    decode(slice_subrange(strings, r.offset as usize, r.offset as usize + r.len as usize))
}

/// Whether all references of a list name text.
#[verifier::loop_isolation(false)]
fn refs_are_text(strings: &[u8], refs: &Vec<StrRef>) -> (b: bool)
    requires
        lie_in(strings@, refs@),
    ensures
        b == texts_lie_at(strings@, refs@),
{
    let mut n: usize = 0;
    while n < refs.len()
        invariant
            n <= refs.len(),
            forall|i: int| 0 <= i < n ==> text_lies_at(strings@, #[trigger] refs@[i]),
        decreases refs.len() - n,
    {
        assert(lies_in(strings@, refs@[n as int]));
        if resolve(strings, refs[n]).is_none() {
            assert(!text_lies_at(strings@, refs@[n as int]));
            return false;
        }
        n = n + 1;
    }
    true
}

fn span_lies_in(span: Span, len: usize) -> (b: bool)
    ensures
        b == (span.start + span.count <= len),
{
    span.start as u64 + span.count as u64 <= len as u64
}

impl<'a> Parts<'a> {
    #[verifier::loop_isolation(false)]
    fn records_in_range(&self) -> (b: bool)
        ensures
            b == self@.records_in_range(),
    {
        let ghost view = self@;
        let mut n: usize = 0;
        while n < self.readings.len()
            invariant
                n <= self.readings.len(),
                forall|i: int|
                    0 <= i < n ==> view.holds((#[trigger] view.readings[i]).text) && view.hold_all(
                        view.readings[i].restrict,
                    ),
            decreases self.readings.len() - n,
        {
            let record = &self.readings[n];
            assert(view.readings[n as int] == record@);
            if !ref_lies_in(self.strings, record.text) || !refs_lie_in(
                self.strings,
                &record.restrict,
            ) {
                return false;
            }
            n = n + 1;
        }
        let mut n: usize = 0;
        while n < self.kanji.len()
            invariant
                n <= self.kanji.len(),
                forall|i: int| 0 <= i < n ==> view.holds((#[trigger] view.kanji[i]).text),
            decreases self.kanji.len() - n,
        {
            let record = &self.kanji[n];
            assert(view.kanji[n as int] == record@);
            if !ref_lies_in(self.strings, record.text) {
                return false;
            }
            n = n + 1;
        }
        let mut n: usize = 0;
        while n < self.senses.len()
            invariant
                n <= self.senses.len(),
                forall|i: int|
                    0 <= i < n ==> view.holds((#[trigger] view.senses[i]).language)
                        && view.hold_all(view.senses[i].glosses) && view.hold_all(
                        view.senses[i].misc,
                    ),
            decreases self.senses.len() - n,
        {
            let record = &self.senses[n];
            assert(view.senses[n as int] == record@);
            if !ref_lies_in(self.strings, record.language) || !refs_lie_in(
                self.strings,
                &record.glosses,
            ) || !refs_lie_in(self.strings, &record.misc) {
                return false;
            }
            n = n + 1;
        }
        let mut n: usize = 0;
        while n < self.entries.len()
            invariant
                n <= self.entries.len(),
                forall|i: int|
                    0 <= i < n ==> {
                        let e = #[trigger] view.entries[i];
                        &&& e.readings.start + e.readings.count <= view.readings.len()
                        &&& e.kanji.start + e.kanji.count <= view.kanji.len()
                        &&& e.senses.start + e.senses.count <= view.senses.len()
                    },
            decreases self.entries.len() - n,
        {
            let record = self.entries[n];
            assert(view.entries[n as int] == record);
            if !span_lies_in(record.readings, self.readings.len()) || !span_lies_in(
                record.kanji,
                self.kanji.len(),
            ) || !span_lies_in(record.senses, self.senses.len()) {
                return false;
            }
            n = n + 1;
        }
        true
    }

    #[verifier::loop_isolation(false)]
    fn indexes_in_range(&self) -> (b: bool)
        ensures
            b == self@.indexes_in_range(),
    {
        let ghost view = self@;
        let mut n: usize = 0;
        while n < self.phrases.len()
            invariant
                n <= self.phrases.len(),
                forall|i: int|
                    0 <= i < n ==> view.holds((#[trigger] view.phrases[i]).text)
                        && view.phrases[i].entry < view.entries.len(),
            decreases self.phrases.len() - n,
        {
            let row = self.phrases[n];
            assert(view.phrases[n as int] == row);
            if !ref_lies_in(self.strings, row.text) || row.entry as u64 >= self.entries.len()
                as u64 {
                assert(!(view.holds(view.phrases[n as int].text) && view.phrases[n as int].entry
                    < view.entries.len()));
                return false;
            }
            n = n + 1;
        }
        let mut n: usize = 0;
        while n < self.priorities.len()
            invariant
                n <= self.priorities.len(),
                forall|i: int|
                    0 <= i < n ==> (#[trigger] view.priorities[i]) < view.entries.len(),
            decreases self.priorities.len() - n,
        {
            if self.priorities[n] as u64 >= self.entries.len() as u64 {
                assert(!(view.priorities[n as int] < view.entries.len()));
                return false;
            }
            n = n + 1;
        }
        true
    }

    #[verifier::loop_isolation(false)]
    fn texts_coherent(&self) -> (b: bool)
        requires
            self@.in_range(),
        ensures
            b == self@.texts_coherent(),
    {
        let ghost view = self@;
        let mut n: usize = 0;
        while n < self.readings.len()
            invariant
                n <= self.readings.len(),
                forall|i: int|
                    0 <= i < n ==> view.is_text((#[trigger] view.readings[i]).text)
                        && view.are_text(view.readings[i].restrict),
            decreases self.readings.len() - n,
        {
            let record = &self.readings[n];
            assert(view.readings[n as int] == record@);
            if resolve(self.strings, record.text).is_none() || !refs_are_text(
                self.strings,
                &record.restrict,
            ) {
                return false;
            }
            n = n + 1;
        }
        let mut n: usize = 0;
        while n < self.kanji.len()
            invariant
                n <= self.kanji.len(),
                forall|i: int| 0 <= i < n ==> view.is_text((#[trigger] view.kanji[i]).text),
            decreases self.kanji.len() - n,
        {
            let record = &self.kanji[n];
            assert(view.kanji[n as int] == record@);
            if resolve(self.strings, record.text).is_none() {
                return false;
            }
            n = n + 1;
        }
        let mut n: usize = 0;
        while n < self.senses.len()
            invariant
                n <= self.senses.len(),
                forall|i: int|
                    0 <= i < n ==> view.is_text((#[trigger] view.senses[i]).language)
                        && view.are_text(view.senses[i].glosses) && view.are_text(
                        view.senses[i].misc,
                    ),
            decreases self.senses.len() - n,
        {
            let record = &self.senses[n];
            assert(view.senses[n as int] == record@);
            if resolve(self.strings, record.language).is_none() || !refs_are_text(
                self.strings,
                &record.glosses,
            ) || !refs_are_text(self.strings, &record.misc) {
                return false;
            }
            n = n + 1;
        }
        true
    }

    #[verifier::loop_isolation(false)]
    fn sequences_coherent(&self) -> (b: bool)
        requires
            self@.in_range(),
        ensures
            b == self@.sequences_coherent(),
    {
        let ghost view = self@;
        let count = self.entries.len();
        if self.sequence_map.len() % 2 != 0 || self.sequence_map.len() / 2 != count {
            return false;
        }
        let mut n: usize = 0;
        while n < count
            invariant
                n <= count,
                forall|i: int, j: int|
                    0 <= i < j < n ==> (#[trigger] view.entries[i]).sequence_number < (
                    #[trigger] view.entries[j]).sequence_number,
                forall|i: int|
                    0 <= i < n ==> #[trigger] view.sequence_map[2 * i]
                        == view.entries[i].sequence_number && view.sequence_map[2 * i + 1] == i,
            decreases count - n,
        {
            let record = self.entries[n];
            if n > 0 && self.entries[n - 1].sequence_number >= record.sequence_number {
                assert(!(view.entries[n - 1].sequence_number
                    < view.entries[n as int].sequence_number));
                return false;
            }
            if self.sequence_map[2 * n] != record.sequence_number || self.sequence_map[2 * n + 1]
                as u64 != n as u64 {
                assert(!(view.sequence_map[2 * (n as int)]
                    == view.entries[n as int].sequence_number && view.sequence_map[2 * (n as int)
                    + 1] == n));
                return false;
            }
            proof {
                assert forall|i: int, j: int| 0 <= i < j < n + 1 implies (
                #[trigger] view.entries[i]).sequence_number < (
                #[trigger] view.entries[j]).sequence_number by {
                    if j == n && i < n - 1 {
                        assert(view.entries[i].sequence_number < view.entries[n
                            - 1].sequence_number);
                    }
                }
            }
            n = n + 1;
        }
        true
    }

    #[verifier::loop_isolation(false)]
    fn phrases_coherent(&self) -> (b: bool)
        requires
            self@.in_range(),
        ensures
            b == self@.phrases_coherent(),
    {
        let ghost view = self@;
        let mut n: usize = 0;
        while n < self.phrases.len()
            invariant
                n <= self.phrases.len(),
                forall|i: int| 0 <= i < n ==> view.is_text((#[trigger] view.phrases[i]).text),
                forall|i: int, j: int|
                    0 <= i < j < n ==> phrase_le(
                        view.strings,
                        #[trigger] view.phrases[i],
                        #[trigger] view.phrases[j],
                    ),
            decreases self.phrases.len() - n,
        {
            let row = self.phrases[n];
            assert(view.holds(view.phrases[n as int].text));
            if resolve(self.strings, row.text).is_none() {
                return false;
            }
            if n > 0 {
                assert(view.holds(view.phrases[n - 1].text));
                if !precedes(self.strings, self.phrases[n - 1], row) {
                    assert(!phrase_le(view.strings, view.phrases[n - 1], view.phrases[n as int]));
                    return false;
                }
            }
            proof {
                assert forall|i: int, j: int| 0 <= i < j < n + 1 implies phrase_le(
                    view.strings,
                    #[trigger] view.phrases[i],
                    #[trigger] view.phrases[j],
                ) by {
                    if j == n && i < n - 1 {
                        lemma_phrase_trans(
                            view.strings,
                            view.phrases[i],
                            view.phrases[n - 1],
                            view.phrases[n as int],
                        );
                    }
                }
            }
            n = n + 1;
        }
        true
    }

    #[verifier::loop_isolation(false)]
    fn priorities_coherent(&self) -> (b: bool)
        requires
            self@.in_range(),
        ensures
            b == self@.priorities_coherent(),
    {
        let ghost view = self@;
        let count = self.entries.len();
        if self.priorities.len() != count {
            return false;
        }
        let mut n: usize = 0;
        let mut last: u8 = 0;
        while n < count
            invariant
                n <= count,
                count == view.priorities.len(),
                n > 0 ==> last == view.bucket(view.priorities[n - 1] as int),
                forall|i: int, j: int|
                    0 <= i < j < n ==> view.outranks(
                        #[trigger] view.priorities[i],
                        #[trigger] view.priorities[j],
                    ),
            decreases count - n,
        {
            let at = self.priorities[n];
            assert(view.priorities[n as int] < view.entries.len());
            let record = self.entries[at as usize];
            assert(view.entries[at as int] == record);
            let b = bucket_of(&self.kanji, record.kanji);
            if n > 0 {
                let before = self.priorities[n - 1];
                if !(last < b || (last == b && before < at)) {
                    assert(!view.outranks(view.priorities[n - 1], view.priorities[n as int]));
                    return false;
                }
            }
            proof {
                assert forall|i: int, j: int| 0 <= i < j < n + 1 implies view.outranks(
                    #[trigger] view.priorities[i],
                    #[trigger] view.priorities[j],
                ) by {
                    if j == n && i < n - 1 {
                        assert(view.outranks(view.priorities[i], view.priorities[n - 1]));
                    }
                }
            }
            last = b;
            n = n + 1;
        }
        true
    }

    /// Whether every reference lies in the arena, the runs of every entry
    /// lie in their columns, and every position is that of an entry.
    fn in_range(&self) -> (b: bool)
        ensures
            b == self@.in_range(),
    {
        self.records_in_range() && self.indexes_in_range() && self.characters_in_range()
    }

    /// Whether every reference of a character lies in the arena, and
    /// every position in the map of literals is that of a character.
    #[verifier::loop_isolation(false)]
    fn characters_in_range(&self) -> (b: bool)
        ensures
            b == self@.characters_in_range(),
    {
        let ghost view = self@;
        let mut i: usize = 0;
        while i < self.characters.len()
            invariant
                i <= self.characters.len(),
                forall|x: int, j: int|
                    0 <= x < i && 0 <= j < view.characters[x].readings.len() ==> view.holds(
                        (#[trigger] view.characters[x].readings[j]).0,
                    ) && view.holds(view.characters[x].readings[j].1),
                forall|x: int, j: int|
                    0 <= x < i && 0 <= j < view.characters[x].meanings.len()
                        ==> view.meaning_holds(#[trigger] view.characters[x].meanings[j]),
            decreases self.characters.len() - i,
        {
            let record = &self.characters[i];
            assert(view.characters[i as int] == record@);
            let mut j: usize = 0;
            while j < record.readings.len()
                invariant
                    j <= record.readings.len(),
                    forall|y: int|
                        0 <= y < j ==> view.holds((#[trigger] record@.readings[y]).0)
                            && view.holds(record@.readings[y].1),
                decreases record.readings.len() - j,
            {
                let (text, ty) = record.readings[j];
                if !ref_lies_in(self.strings, text) || !ref_lies_in(self.strings, ty) {
                    assert(!(view.holds(view.characters[i as int].readings[j as int].0)
                        && view.holds(view.characters[i as int].readings[j as int].1)));
                    return false;
                }
                j = j + 1;
            }
            let mut j: usize = 0;
            while j < record.meanings.len()
                invariant
                    j <= record.meanings.len(),
                    forall|y: int|
                        0 <= y < j ==> view.meaning_holds(#[trigger] record@.meanings[y]),
                decreases record.meanings.len() - j,
            {
                let (text, lang) = record.meanings[j];
                let held = ref_lies_in(self.strings, text) && match lang {
                    Some(lang) => ref_lies_in(self.strings, lang),
                    None => true,
                };
                if !held {
                    assert(!view.meaning_holds(view.characters[i as int].meanings[j as int]));
                    return false;
                }
                j = j + 1;
            }
            i = i + 1;
        }
        let mut k: usize = 0;
        while k < self.literals.len()
            invariant
                k <= self.literals.len(),
                forall|x: int|
                    0 <= x < k ==> (#[trigger] view.literals[x]).1 < view.characters.len(),
            decreases self.literals.len() - k,
        {
            if self.literals[k].1 as u64 >= self.characters.len() as u64 {
                assert(!(view.literals[k as int].1 < view.characters.len()));
                return false;
            }
            k = k + 1;
        }
        true
    }

    /// Whether every reference of a character names text, every
    /// character is one, and the map of literals lists every character.
    #[verifier::loop_isolation(false)]
    fn characters_coherent(&self) -> (b: bool)
        requires
            self@.in_range(),
        ensures
            b == self@.characters_coherent(),
    {
        let ghost view = self@;
        let mut i: usize = 0;
        while i < self.characters.len()
            invariant
                i <= self.characters.len(),
                forall|x: int, j: int|
                    0 <= x < i && 0 <= j < view.characters[x].readings.len() ==> view.is_text(
                        (#[trigger] view.characters[x].readings[j]).0,
                    ) && view.is_text(view.characters[x].readings[j].1),
                forall|x: int, j: int|
                    0 <= x < i && 0 <= j < view.characters[x].meanings.len()
                        ==> view.meaning_is_text(#[trigger] view.characters[x].meanings[j]),
                forall|x: int|
                    0 <= x < i ==> is_scalar_value((#[trigger] view.characters[x]).literal)
                        && view.characters[x].stroke_count <= u8::MAX,
            decreases self.characters.len() - i,
        {
            let record = &self.characters[i];
            assert(view.characters[i as int] == record@);
            if char::from_u32(record.literal).is_none() || record.stroke_count > u8::MAX as u32 {
                assert(!(is_scalar_value(view.characters[i as int].literal)
                    && view.characters[i as int].stroke_count <= u8::MAX));
                return false;
            }
            let mut j: usize = 0;
            while j < record.readings.len()
                invariant
                    j <= record.readings.len(),
                    forall|y: int|
                        0 <= y < j ==> view.is_text((#[trigger] record@.readings[y]).0)
                            && view.is_text(record@.readings[y].1),
                decreases record.readings.len() - j,
            {
                let (text, ty) = record.readings[j];
                assert(view.holds(view.characters[i as int].readings[j as int].0));
                assert(view.holds(view.characters[i as int].readings[j as int].1));
                if resolve(self.strings, text).is_none() || resolve(self.strings, ty).is_none() {
                    assert(!(view.is_text(view.characters[i as int].readings[j as int].0)
                        && view.is_text(view.characters[i as int].readings[j as int].1)));
                    return false;
                }
                j = j + 1;
            }
            let mut j: usize = 0;
            while j < record.meanings.len()
                invariant
                    j <= record.meanings.len(),
                    forall|y: int|
                        0 <= y < j ==> view.meaning_is_text(#[trigger] record@.meanings[y]),
                decreases record.meanings.len() - j,
            {
                let (text, lang) = record.meanings[j];
                assert(view.meaning_holds(view.characters[i as int].meanings[j as int]));
                let named = resolve(self.strings, text).is_some() && match lang {
                    Some(lang) => resolve(self.strings, lang).is_some(),
                    None => true,
                };
                if !named {
                    assert(!view.meaning_is_text(view.characters[i as int].meanings[j as int]));
                    return false;
                }
                j = j + 1;
            }
            i = i + 1;
        }
        if self.literals.len() != self.characters.len() {
            return false;
        }
        let mut k: usize = 0;
        while k < self.literals.len()
            invariant
                k <= self.literals.len(),
                forall|x: int, y: int|
                    0 <= x < y < k ==> (#[trigger] view.literals[x]).0 < (
                    #[trigger] view.literals[y]).0,
                forall|x: int|
                    0 <= x < k ==> view.characters[(#[trigger] view.literals[x]).1 as int].literal
                        == view.literals[x].0,
            decreases self.literals.len() - k,
        {
            let (literal, at) = self.literals[k];
            assert(view.literals[k as int].1 < view.characters.len());
            if k > 0 && self.literals[k - 1].0 >= literal {
                assert(!(view.literals[k - 1].0 < view.literals[k as int].0));
                return false;
            }
            assert(view.characters[at as int] == self.characters@[at as int]@);
            if self.characters[at as usize].literal != literal {
                assert(!(view.characters[view.literals[k as int].1 as int].literal
                    == view.literals[k as int].0));
                return false;
            }
            proof {
                assert forall|x: int, y: int| 0 <= x < y < k + 1 implies (
                #[trigger] view.literals[x]).0 < (#[trigger] view.literals[y]).0 by {
                    if y == k && x < k - 1 {
                        assert(view.literals[x].0 < view.literals[k - 1].0);
                    }
                }
            }
            k = k + 1;
        }
        true
    }

    /// Whether the records are coherent.
    fn coherent(&self) -> (b: bool)
        requires
            self@.in_range(),
        ensures
            b == self@.coherent(),
    {
        self.texts_coherent() && self.sequences_coherent() && self.phrases_coherent()
            && self.priorities_coherent() && self.characters_coherent()
    }
}

/// The text that a reference names, which does name text.
fn text_of<'a>(strings: &'a [u8], r: StrRef) -> (text: &'a str)
    requires
        lies_in(strings@, r),
        text_lies_at(strings@, r),
    ensures
        text@ == text_at(strings@, r),
{
    match resolve(strings, r) {
        Some(text) => text,
        None => {
            proof {
                crate::text::lemma_empty_literal();
            }
            ""
        },
    }
}

/// The texts that references name, all of which do name text.
fn texts_of<'a>(strings: &'a [u8], refs: &Vec<StrRef>) -> (texts: Vec<&'a str>)
    requires
        lie_in(strings@, refs@),
        texts_lie_at(strings@, refs@),
    ensures
        spellings(texts@) == texts_at(strings@, refs@),
{
    let mut texts: Vec<&'a str> = Vec::new();
    let mut n: usize = 0;
    while n < refs.len()
        invariant
            n <= refs.len(),
            lie_in(strings@, refs@),
            texts_lie_at(strings@, refs@),
            texts@.len() == n,
            forall|i: int| 0 <= i < n ==> (#[trigger] texts@[i])@ == text_at(strings@, refs@[i]),
        decreases refs.len() - n,
    {
        assert(lies_in(strings@, refs@[n as int]));
        assert(text_lies_at(strings@, refs@[n as int]));
        texts.push(text_of(strings, refs[n]));
        n = n + 1;
    }
    assert(spellings(texts@) =~= texts_at(strings@, refs@));
    texts
}

fn priorities_of(list: &Vec<Priority>) -> (copy: Vec<Priority>)
    ensures
        copy@ == list@,
{
    let mut copy: Vec<Priority> = Vec::new();
    let mut n: usize = 0;
    while n < list.len()
        invariant
            n <= list.len(),
            copy@ == list@.take(n as int),
        decreases list.len() - n,
    {
        copy.push(list[n]);
        n = n + 1;
        assert(copy@ =~= list@.take(n as int));
    }
    assert(list@.take(list.len() as int) =~= list@);
    copy
}

impl<'a> Parts<'a> {
    fn reading(&self, at: usize) -> (reading: ReadingElement<'a>)
        requires
            self@.in_range(),
            self@.coherent(),
            at < self@.readings.len(),
        ensures
            reading@ == self@.reading(at as int),
    {
        let record = &self.readings[at];
        assert(self@.readings[at as int] == record@);
        ReadingElement {
            text: text_of(self.strings, record.text),
            no_kanji: record.no_kanji,
            restrict: texts_of(self.strings, &record.restrict),
        }
    }

    fn kanji_element(&self, at: usize) -> (kanji: KanjiElement<'a>)
        requires
            self@.in_range(),
            self@.coherent(),
            at < self@.kanji.len(),
        ensures
            kanji@ == self@.kanji_element(at as int),
    {
        let record = &self.kanji[at];
        assert(self@.kanji[at as int] == record@);
        KanjiElement {
            text: text_of(self.strings, record.text),
            priority: priorities_of(&record.priority),
        }
    }

    fn sense(&self, at: usize) -> (sense: Sense<'a>)
        requires
            self@.in_range(),
            self@.coherent(),
            at < self@.senses.len(),
        ensures
            sense@ == self@.sense(at as int),
    {
        let record = &self.senses[at];
        assert(self@.senses[at as int] == record@);
        Sense {
            glosses: texts_of(self.strings, &record.glosses),
            pos: PosSet::from_bits(record.pos),
            misc: texts_of(self.strings, &record.misc),
            language: text_of(self.strings, record.language),
        }
    }

    fn entry(&self, at: usize) -> (entry: Entry<'a>)
        requires
            self@.in_range(),
            self@.coherent(),
            at < self@.entries.len(),
        ensures
            entry@ == self@.entry(at as int),
    {
        let record = self.entries[at];
        let ghost view = self@;
        assert(view.entries[at as int] == record);
        let readings_total = self.readings.len();
        let kanji_total = self.kanji.len();
        let senses_total = self.senses.len();
        let mut reading_elements: Vec<ReadingElement<'a>> = Vec::new();
        let mut k: usize = 0;
        while k < record.readings.count as usize
            invariant
                k <= record.readings.count,
                readings_total == view.readings.len(),
                view == self@,
                view.in_range(),
                view.coherent(),
                record.readings.start + record.readings.count <= view.readings.len(),
                reading_elements@.len() == k,
                forall|j: int|
                    0 <= j < k ==> (#[trigger] reading_elements@[j])@ == view.reading(
                        record.readings.start + j,
                    ),
            decreases record.readings.count - k,
        {
            reading_elements.push(self.reading(record.readings.start as usize + k));
            k = k + 1;
        }
        let mut kanji_elements: Vec<KanjiElement<'a>> = Vec::new();
        let mut k: usize = 0;
        while k < record.kanji.count as usize
            invariant
                k <= record.kanji.count,
                kanji_total == view.kanji.len(),
                view == self@,
                view.in_range(),
                view.coherent(),
                record.kanji.start + record.kanji.count <= view.kanji.len(),
                kanji_elements@.len() == k,
                forall|j: int|
                    0 <= j < k ==> (#[trigger] kanji_elements@[j])@ == view.kanji_element(
                        record.kanji.start + j,
                    ),
            decreases record.kanji.count - k,
        {
            kanji_elements.push(self.kanji_element(record.kanji.start as usize + k));
            k = k + 1;
        }
        let mut senses: Vec<Sense<'a>> = Vec::new();
        let mut k: usize = 0;
        while k < record.senses.count as usize
            invariant
                k <= record.senses.count,
                senses_total == view.senses.len(),
                view == self@,
                view.in_range(),
                view.coherent(),
                record.senses.start + record.senses.count <= view.senses.len(),
                senses@.len() == k,
                forall|j: int|
                    0 <= j < k ==> (#[trigger] senses@[j])@ == view.sense(record.senses.start + j),
            decreases record.senses.count - k,
        {
            senses.push(self.sense(record.senses.start as usize + k));
            k = k + 1;
        }
        let entry = Entry {
            sequence_number: record.sequence_number,
            reading_elements,
            kanji_elements,
            senses,
        };
        proof {
            assert(entry@.reading_elements =~= view.entry(at as int).reading_elements);
            assert(entry@.kanji_elements =~= view.entry(at as int).kanji_elements);
            assert(entry@.senses =~= view.entry(at as int).senses);
        }
        entry
    }

    /// The position of the entry with the given sequence number.
    fn find_sequence(&self, n: u32) -> (found: Option<usize>)
        requires
            self@.in_range(),
            self@.coherent(),
        ensures
            match found {
                Some(at) => at < self@.entries.len() && self@.entries[at as int].sequence_number
                    == n,
                None => forall|i: int|
                    0 <= i < self@.entries.len() ==> (#[trigger] self@.entries[i]).sequence_number
                        != n,
            },
    {
        let ghost view = self@;
        let mut low: usize = 0;
        let mut high: usize = self.entries.len();
        let words = self.sequence_map.len();
        while low < high
            invariant
                low <= high <= view.entries.len(),
                words == view.sequence_map.len(),
                view == self@,
                view.coherent(),
                forall|i: int| 0 <= i < low ==> (#[trigger] view.entries[i]).sequence_number < n,
                forall|i: int|
                    high <= i < view.entries.len() ==> (#[trigger] view.entries[i]).sequence_number
                        > n,
            decreases high - low,
        {
            let mid = low + (high - low) / 2;
            assert(view.sequence_map[2 * (mid as int)] == view.entries[mid as int].sequence_number);
            let at = self.sequence_map[2 * mid];
            if at == n {
                assert(view.sequence_map[2 * (mid as int) + 1] == mid);
                return Some(self.sequence_map[2 * mid + 1] as usize);
            } else if at < n {
                proof {
                    assert forall|i: int| 0 <= i < mid + 1 implies (
                    #[trigger] view.entries[i]).sequence_number < n by {
                        if i < mid {
                            assert(view.entries[i].sequence_number < view.entries[mid
                                as int].sequence_number);
                        }
                    }
                }
                low = mid + 1;
            } else {
                proof {
                    assert forall|i: int| mid <= i < view.entries.len() implies (
                    #[trigger] view.entries[i]).sequence_number > n by {
                        if i > mid {
                            assert(view.entries[mid as int].sequence_number
                                < view.entries[i].sequence_number);
                        }
                    }
                }
                high = mid;
            }
        }
        None
    }
}

impl<'a> Parts<'a> {
    fn character(&self, at: usize) -> (character: Character<'a>)
        requires
            self@.in_range(),
            self@.coherent(),
            at < self@.characters.len(),
        ensures
            character@ == self@.character(at as int),
    {
        let ghost view = self@;
        let record = &self.characters[at];
        assert(view.characters[at as int] == record@);
        let mut readings: Vec<CharacterReading<'a>> = Vec::new();
        let mut j: usize = 0;
        while j < record.readings.len()
            invariant
                j <= record.readings.len(),
                view == self@,
                view.in_range(),
                view.coherent(),
                view.characters[at as int] == record@,
                at < view.characters.len(),
                readings@.len() == j,
                forall|y: int|
                    0 <= y < j ==> (#[trigger] readings@[y])@ == (ReadingView {
                        text: view.text(record@.readings[y].0),
                        ty: view.text(record@.readings[y].1),
                    }),
            decreases record.readings.len() - j,
        {
            let (text, ty) = record.readings[j];
            assert(view.is_text(view.characters[at as int].readings[j as int].0));
            assert(view.holds(view.characters[at as int].readings[j as int].0));
            readings.push(
                CharacterReading {
                    text: text_of(self.strings, text),
                    ty: text_of(self.strings, ty),
                },
            );
            j = j + 1;
        }
        let mut meanings: Vec<Meaning<'a>> = Vec::new();
        let mut j: usize = 0;
        while j < record.meanings.len()
            invariant
                j <= record.meanings.len(),
                view == self@,
                view.in_range(),
                view.coherent(),
                view.characters[at as int] == record@,
                at < view.characters.len(),
                meanings@.len() == j,
                forall|y: int|
                    0 <= y < j ==> (#[trigger] meanings@[y])@ == (MeaningView {
                        text: view.text(record@.meanings[y].0),
                        lang: match record@.meanings[y].1 {
                            Some(lang) => Some(view.text(lang)),
                            None => None,
                        },
                    }),
            decreases record.meanings.len() - j,
        {
            let (text, lang) = record.meanings[j];
            assert(view.meaning_is_text(view.characters[at as int].meanings[j as int]));
            assert(view.meaning_holds(view.characters[at as int].meanings[j as int]));
            let lang = match lang {
                Some(lang) => Some(text_of(self.strings, lang)),
                None => None,
            };
            meanings.push(Meaning { text: text_of(self.strings, text), lang });
            j = j + 1;
        }
        let literal = match char::from_u32(record.literal) {
            Some(c) => {
                proof {
                    vstd::utf8::char_u32_cast(c, record.literal);
                }
                c
            },
            None => {
                assert(is_scalar_value(view.characters[at as int].literal));
                ' '
            },
        };
        assert(literal == record.literal as char);
        assert(view.characters[at as int].stroke_count <= u8::MAX);
        let character = Character {
            literal,
            radicals: record.radicals.clone(),
            stroke_count: record.stroke_count as u8,
            reading_meaning: ReadingMeaning { readings, meanings },
        };
        proof {
            assert(character@.reading_meaning.readings =~= view.character(
                at as int,
            ).reading_meaning.readings);
            assert(character@.reading_meaning.meanings =~= view.character(
                at as int,
            ).reading_meaning.meanings);
            assert(character@.radicals =~= view.character(at as int).radicals);
            assert(character@.literal == view.character(at as int).literal);
            assert(character@.stroke_count == view.character(at as int).stroke_count);
            assert(character@.reading_meaning == view.character(at as int).reading_meaning);
        }
        character
    }

    /// The position of the character with the given number.
    fn find_literal(&self, n: u32) -> (found: Option<usize>)
        requires
            self@.in_range(),
            self@.coherent(),
        ensures
            match found {
                Some(at) => at < self@.characters.len() && self@.characters[at as int].literal
                    == n,
                None => forall|k: int|
                    0 <= k < self@.literals.len() ==> (#[trigger] self@.literals[k]).0 != n,
            },
    {
        let ghost view = self@;
        let mut low: usize = 0;
        let mut high: usize = self.literals.len();
        while low < high
            invariant
                low <= high <= view.literals.len(),
                view == self@,
                view.in_range(),
                view.coherent(),
                forall|k: int| 0 <= k < low ==> (#[trigger] view.literals[k]).0 < n,
                forall|k: int| high <= k < view.literals.len() ==> (#[trigger] view.literals[k]).0 > n,
            decreases high - low,
        {
            let mid = low + (high - low) / 2;
            let (literal, at) = self.literals[mid];
            if literal == n {
                assert(view.literals[mid as int].1 < view.characters.len());
                assert(view.characters[view.literals[mid as int].1 as int].literal == n);
                return Some(at as usize);
            } else if literal < n {
                proof {
                    assert forall|k: int| 0 <= k < mid + 1 implies (#[trigger] view.literals[k]).0
                        < n by {
                        if k < mid {
                            assert(view.literals[k].0 < view.literals[mid as int].0);
                        }
                    }
                }
                low = mid + 1;
            } else {
                proof {
                    assert forall|k: int| mid <= k < view.literals.len() implies (
                    #[trigger] view.literals[k]).0 > n by {
                        if k > mid {
                            assert(view.literals[mid as int].0 < view.literals[k].0);
                        }
                    }
                }
                high = mid;
            }
        }
        None
    }
}

impl<'a> Parts<'a> {
    fn phrase_bytes(&self, k: usize) -> (bytes: &'a [u8])
        requires
            self@.in_range(),
            k < self@.phrases.len(),
        ensures
            bytes@ == self@.phrase_bytes(k as int),
    {
        let r = self.phrases[k].text;
        let size = self.strings.len();
        assert(self@.holds(self@.phrases[k as int].text));
        slice_subrange(self.strings, r.offset as usize, r.offset as usize + r.len as usize)
    }

    /// The position of the first phrase that does not come before what is
    /// asked for.
    fn lower_bound(&self, query: &[u8]) -> (low: usize)
        requires
            self@.in_range(),
            self@.coherent(),
        ensures
            low <= self@.phrases.len(),
            forall|k: int| 0 <= k < low ==> !lex_le(query@, #[trigger] self@.phrase_bytes(k)),
            forall|k: int|
                low <= k < self@.phrases.len() ==> lex_le(
                    query@,
                    #[trigger] self@.phrase_bytes(k),
                ),
    {
        let ghost view = self@;
        let mut low: usize = 0;
        let mut high: usize = self.phrases.len();
        while low < high
            invariant
                low <= high <= view.phrases.len(),
                view == self@,
                view.in_range(),
                view.coherent(),
                forall|k: int| 0 <= k < low ==> !lex_le(query@, #[trigger] view.phrase_bytes(k)),
                forall|k: int|
                    high <= k < view.phrases.len() ==> lex_le(
                        query@,
                        #[trigger] view.phrase_bytes(k),
                    ),
            decreases high - low,
        {
            let mid = low + (high - low) / 2;
            let bytes = self.phrase_bytes(mid);
            match compare(bytes, query) {
                Order::Before => {
                    proof {
                        assert forall|k: int| 0 <= k < mid + 1 implies !lex_le(
                            query@,
                            #[trigger] view.phrase_bytes(k),
                        ) by {
                            lemma_forms_ordered(view, k, mid as int);
                            if lex_le(query@, view.phrase_bytes(k)) {
                                lemma_lex_trans(query@, view.phrase_bytes(k), bytes@);
                                super::order::lemma_lex_antisym(query@, bytes@);
                            }
                        }
                    }
                    low = mid + 1;
                },
                _ => {
                    proof {
                        lemma_lex_total(bytes@, query@);
                        super::order::lemma_lex_refl(query@);
                        assert forall|k: int| mid <= k < view.phrases.len() implies lex_le(
                            query@,
                            #[trigger] view.phrase_bytes(k),
                        ) by {
                            lemma_forms_ordered(view, mid as int, k);
                            lemma_lex_trans(query@, bytes@, view.phrase_bytes(k));
                        }
                    }
                    high = mid;
                },
            }
        }
        low
    }

    fn is_match(&self, k: usize, query: &[u8], how: Match) -> (b: bool)
        requires
            self@.in_range(),
            k < self@.phrases.len(),
        ensures
            b == self@.matches(k as int, query@, how),
    {
        let bytes = self.phrase_bytes(k);
        match how {
            Match::Exact => crate::text::same_bytes(bytes, query),
            Match::Prefix => starts_with(bytes, query),
        }
    }

    /// The run of the phrases that match.
    fn matching(&self, query: &[u8], how: Match) -> (run: (usize, usize))
        requires
            self@.in_range(),
            self@.coherent(),
        ensures
            run.0 <= run.1 <= self@.phrases.len(),
            forall|k: int|
                0 <= k < self@.phrases.len() ==> (#[trigger] self@.matches(k, query@, how)
                    <==> run.0 <= k < run.1),
    {
        let ghost view = self@;
        let low = self.lower_bound(query);
        let mut high = low;
        while high < self.phrases.len() && self.is_match(high, query, how)
            invariant
                low <= high <= view.phrases.len(),
                view == self@,
                view.in_range(),
                forall|k: int| low <= k < high ==> view.matches(k, query@, how),
            decreases view.phrases.len() - high,
        {
            high = high + 1;
        }
        proof {
            lemma_matches_in_a_row(view, query@, how, low as int, high as int);
        }
        (low, high)
    }

    fn weight(&self, k: usize, query: &str) -> (w: u32)
        requires
            self@.in_range(),
            self@.coherent(),
            k < self@.phrases.len(),
        ensures
            w == self@.weight(k as int, query@),
    {
        assert(self@.holds(self@.phrases[k as int].text));
        assert(self@.is_text(self@.phrases[k as int].text));
        let phrase = text_of(self.strings, self.phrases[k].text).unicode_len();
        let asked = query.unicode_len();
        if phrase <= asked {
            0
        } else if phrase - asked >= u32::MAX as usize {
            u32::MAX
        } else {
            (phrase - asked) as u32
        }
    }

    /// The phrases that match, bucket by bucket.
    #[verifier::loop_isolation(false)]
    fn search(&self, query: &str, how: Match) -> (hits: Vec<Hit>)
        requires
            self@.in_range(),
            self@.coherent(),
        ensures
            found(self@, query@, how, hits@),
    {
        let ghost view = self@;
        let ghost bytes = vstd::utf8::encode_utf8(query@);
        let (low, high) = self.matching(query.as_bytes(), how);
        let total = self.phrases.len();
        let kanji_total = self.kanji.len();
        let entries_total = self.entries.len();
        let mut buckets: Vec<u8> = Vec::new();
        let mut k: usize = low;
        while k < high
            invariant
                low <= k <= high,
                buckets@.len() == k - low,
                forall|i: int|
                    0 <= i < k - low ==> #[trigger] buckets@[i] == view.bucket(
                        view.phrases[low + i].entry as int,
                    ),
            decreases high - k,
        {
            let at = self.phrases[k].entry as usize;
            assert(view.phrases[k as int].entry < view.entries.len());
            let record = self.entries[at];
            assert(view.entries[at as int] == record);
            buckets.push(bucket_of(&self.kanji, record.kanji));
            k = k + 1;
        }
        let mut hits: Vec<Hit> = Vec::new();
        let mut b: u8 = 0;
        while b < BUCKETS
            invariant
                b <= BUCKETS,
                forall|a: int|
                    0 <= a < hits@.len() ==> {
                        let hit = #[trigger] hits@[a];
                        &&& low <= hit.phrase < high
                        &&& hit.key.priority < b
                        &&& hit.entry == view.phrases[hit.phrase as int].entry
                        &&& hit.key == view.key(
                            hit.entry as int,
                            view.weight(hit.phrase as int, query@),
                        )
                    },
                forall|k: int|
                    low <= k < high && view.bucket(view.phrases[k].entry as int) < b
                        ==> exists|a: int|
                        0 <= a < hits@.len() && (#[trigger] hits@[a]).phrase == k,
                forall|x: int, y: int|
                    0 <= x < y < hits@.len() ==> (#[trigger] hits@[x]).key.priority < (
                    #[trigger] hits@[y]).key.priority || (hits@[x].key.priority
                        == hits@[y].key.priority && hits@[x].phrase < hits@[y].phrase),
            decreases BUCKETS - b,
        {
            let ghost before = hits@;
            let mut k: usize = low;
            while k < high
                invariant
                    low <= k <= high,
                    before.len() <= hits@.len(),
                    hits@.take(before.len() as int) == before,
                    forall|a: int|
                        before.len() <= a < hits@.len() ==> {
                            let hit = #[trigger] hits@[a];
                            &&& low <= hit.phrase < k
                            &&& hit.key.priority == b
                            &&& hit.entry == view.phrases[hit.phrase as int].entry
                            &&& hit.key == view.key(
                                hit.entry as int,
                                view.weight(hit.phrase as int, query@),
                            )
                        },
                    forall|j: int|
                        low <= j < k && view.bucket(view.phrases[j].entry as int) == b
                            ==> exists|a: int|
                            before.len() <= a < hits@.len() && (#[trigger] hits@[a]).phrase == j,
                    forall|x: int, y: int|
                        before.len() <= x < y < hits@.len() ==> (#[trigger] hits@[x]).phrase < (
                        #[trigger] hits@[y]).phrase,
                decreases high - k,
            {
                if buckets[k - low] == b {
                    let at = self.phrases[k].entry as usize;
                    assert(view.phrases[k as int].entry < view.entries.len());
                    let weight = self.weight(k, query);
                    let ghost sofar = hits@;
                    hits.push(
                        Hit {
                            key: EntryKey {
                                priority: b,
                                weight,
                                sequence: self.entries[at].sequence_number,
                            },
                            entry: at,
                            phrase: k,
                        },
                    );
                    proof {
                        assert(hits@.take(before.len() as int) =~= sofar.take(before.len() as int));
                        assert forall|j: int|
                            low <= j < k + 1 && view.bucket(view.phrases[j].entry as int)
                                == b implies exists|a: int|
                            before.len() <= a < hits@.len() && (#[trigger] hits@[a]).phrase
                                == j by {
                            if j < k {
                                let a = choose|a: int|
                                    before.len() <= a < sofar.len() && (#[trigger] sofar[a]).phrase
                                        == j;
                                assert(hits@[a].phrase == j);
                            } else {
                                assert(hits@[sofar.len() as int].phrase == j);
                            }
                        }
                    }
                }
                k = k + 1;
            }
            proof {
                assert forall|a: int| 0 <= a < hits@.len() implies {
                    let hit = #[trigger] hits@[a];
                    &&& low <= hit.phrase < high
                    &&& hit.key.priority < b + 1
                    &&& hit.entry == view.phrases[hit.phrase as int].entry
                    &&& hit.key == view.key(hit.entry as int, view.weight(hit.phrase as int, query@))
                } by {
                    if a < before.len() {
                        assert(hits@.take(before.len() as int)[a] == hits@[a]);
                    }
                }
                assert forall|j: int|
                    low <= j < high && view.bucket(view.phrases[j].entry as int) < b
                        + 1 implies exists|a: int|
                    0 <= a < hits@.len() && (#[trigger] hits@[a]).phrase == j by {
                    if view.bucket(view.phrases[j].entry as int) < b {
                        let a = choose|a: int|
                            0 <= a < before.len() && (#[trigger] before[a]).phrase == j;
                        assert(hits@.take(before.len() as int)[a] == hits@[a]);
                    } else {
                        let a = choose|a: int|
                            before.len() <= a < hits@.len() && (#[trigger] hits@[a]).phrase == j;
                    }
                }
                assert forall|x: int, y: int| 0 <= x < y < hits@.len() implies (
                #[trigger] hits@[x]).key.priority < (#[trigger] hits@[y]).key.priority || (
                hits@[x].key.priority == hits@[y].key.priority && hits@[x].phrase
                    < hits@[y].phrase) by {
                    if x < before.len() {
                        assert(hits@.take(before.len() as int)[x] == hits@[x]);
                    }
                    if y < before.len() {
                        assert(hits@.take(before.len() as int)[y] == hits@[y]);
                    }
                }
            }
            b = b + 1;
        }
        proof {
            assert forall|k: int|
                0 <= k < view.phrases.len() && #[trigger] view.matches(
                    k,
                    bytes,
                    how,
                ) implies exists|a: int| 0 <= a < hits@.len() && (#[trigger] hits@[a]).phrase == k by {
                assert(low <= k < high);
                super::ranking::lemma_run_bounded(
                    view.kanji,
                    view.entries[view.phrases[k].entry as int].kanji.start as int,
                    view.entries[view.phrases[k].entry as int].kanji.count as int,
                );
            }
            assert forall|a: int| 0 <= a < hits@.len() implies {
                let hit = #[trigger] hits@[a];
                &&& hit.phrase < view.phrases.len()
                &&& view.matches(hit.phrase as int, bytes, how)
                &&& hit.entry == view.phrases[hit.phrase as int].entry
                &&& hit.key == view.key(hit.entry as int, view.weight(hit.phrase as int, query@))
            } by {
                let hit = hits@[a];
                assert(low <= hit.phrase < high);
                assert(view.matches(hit.phrase as int, bytes, how) <==> low <= hit.phrase < high);
            }
        }
        hits
    }
}

/// An image, opened for reading. Its strings are read where they lie.
pub struct Index<'a> {
    parts: Parts<'a>,
}

impl<'a> View for Index<'a> {
    type V = IndexView;

    closed spec fn view(&self) -> IndexView {
        self.parts@
    }
}

impl<'a> Index<'a> {
    #[verifier::type_invariant]
    spec fn sound(self) -> bool {
        self.parts@.in_range() && self.parts@.coherent()
    }

    /// Opens an image, or tells what is wrong with it.
    pub fn open(image: &'a [u8]) -> (index: Result<Index<'a>, ImageError>)
        ensures
            match index {
                Ok(index) => opened(image@) == Ok::<IndexView, ImageError>(index@),
                Err(error) => opened(image@) == Err::<IndexView, ImageError>(error),
            },
    {
        let (strings, columns) = match take_apart(image, COLUMNS) {
            Ok(contents) => contents,
            Err(error) => {
                return Err(error);
            },
        };
        let parts = match parse(strings, columns) {
            Some(parts) => parts,
            None => {
                return Err(ImageError::CorruptColumn);
            },
        };
        if !parts.in_range() {
            return Err(ImageError::OutOfRange);
        }
        if !parts.coherent() {
            return Err(ImageError::CorruptColumn);
        }
        Ok(Index { parts })
    }

    /// Tells that an open index has passed all checks.
    pub fn checked(&self)
        ensures
            self@.in_range(),
            self@.coherent(),
    {
        proof {
            use_type_invariant(self);
        }
    }

    /// The number of entries.
    pub fn len(&self) -> (n: usize)
        ensures
            n == self@.entries.len(),
    {
        self.parts.entries.len()
    }

    /// The entry at a position, in the order in which the entries were
    /// stored.
    pub fn entry(&self, at: usize) -> (entry: Option<Entry<'a>>)
        ensures
            match entry {
                Some(entry) => at < self@.entries.len() && entry@ == self@.entry(at as int),
                None => at >= self@.entries.len(),
            },
    {
        proof {
            use_type_invariant(self);
        }
        if at < self.parts.entries.len() {
            Some(self.parts.entry(at))
        } else {
            None
        }
    }

    /// The phrases of the index that are what is asked for, with the
    /// entries that have them: bucket by bucket, and in the order of the
    /// keys of the entries.
    pub fn search_exact(&self, query: &str) -> (hits: Vec<Hit>)
        ensures
            found(self@, query@, Match::Exact, hits@),
            forall|a: int, b: int|
                0 <= a < b < hits@.len() ==> (#[trigger] hits@[a]).key.le(#[trigger] hits@[b].key),
    {
        proof {
            use_type_invariant(self);
        }
        let hits = self.parts.search(query, Match::Exact);
        proof {
            super::search::lemma_exact_hits_ordered(self@, query@, hits@);
        }
        hits
    }

    /// The phrases of the index that begin with what is asked for, with
    /// the entries that have them: bucket by bucket, and within a bucket
    /// in the order of the phrases.
    pub fn search_prefix(&self, query: &str) -> (hits: Vec<Hit>)
        ensures
            found(self@, query@, Match::Prefix, hits@),
    {
        proof {
            use_type_invariant(self);
        }
        self.parts.search(query, Match::Prefix)
    }

    /// The number of phrases in the index.
    pub fn phrases(&self) -> (n: usize)
        ensures
            n == self@.phrases.len(),
    {
        self.parts.phrases.len()
    }

    /// The form of the phrase at a position of the index.
    pub fn phrase(&self, at: usize) -> (text: Option<&'a str>)
        ensures
            match text {
                Some(text) => at < self@.phrases.len() && text@ == self@.text(
                    self@.phrases[at as int].text,
                ),
                None => at >= self@.phrases.len(),
            },
    {
        proof {
            use_type_invariant(self);
        }
        if at < self.parts.phrases.len() {
            assert(self@.holds(self@.phrases[at as int].text));
            assert(self@.is_text(self@.phrases[at as int].text));
            Some(text_of(self.parts.strings, self.parts.phrases[at].text))
        } else {
            None
        }
    }

    /// The position of the entry at a rank of the order of priority.
    pub fn by_priority(&self, rank: usize) -> (at: Option<usize>)
        ensures
            match at {
                Some(at) => rank < self@.priorities.len() && at == self@.priorities[rank as int]
                    && at < self@.entries.len(),
                None => rank >= self@.priorities.len(),
            },
    {
        proof {
            use_type_invariant(self);
        }
        if rank < self.parts.priorities.len() {
            Some(self.parts.priorities[rank] as usize)
        } else {
            None
        }
    }

    /// The entry with the given sequence number, if there is one.
    pub fn lookup_sequence(&self, n: u32) -> (entry: Option<Entry<'a>>)
        ensures
            match entry {
                Some(entry) => exists|at: int|
                    0 <= at < self@.entries.len() && (#[trigger] self@.entries[at]).sequence_number
                        == n && entry@ == self@.entry(at),
                None => forall|at: int|
                    0 <= at < self@.entries.len() ==> (
                    #[trigger] self@.entries[at]).sequence_number != n,
            },
            forall|at: int|
                0 <= at < self@.entries.len() && (#[trigger] self@.entries[at]).sequence_number == n
                    ==> (entry matches Some(found) && found@ == self@.entry(at)),
    {
        proof {
            use_type_invariant(self);
        }
        match self.parts.find_sequence(n) {
            Some(at) => {
                let entry = self.parts.entry(at);
                proof {
                    assert(self@.entries[at as int].sequence_number == n);
                    assert forall|other: int|
                        0 <= other < self@.entries.len() && (
                        #[trigger] self@.entries[other]).sequence_number == n implies other
                        == at by {
                        if other < at {
                            assert(self@.entries[other].sequence_number < self@.entries[at
                                as int].sequence_number);
                        } else if other > at {
                            assert(self@.entries[at as int].sequence_number
                                < self@.entries[other].sequence_number);
                        }
                    }
                }
                Some(entry)
            },
            None => None,
        }
    }

    /// The number of characters.
    pub fn characters(&self) -> (n: usize)
        ensures
            n == self@.characters.len(),
    {
        self.parts.characters.len()
    }

    /// The character at a position, if there is one.
    pub fn character(&self, at: usize) -> (character: Option<Character<'a>>)
        ensures
            match character {
                Some(character) => at < self@.characters.len() && character@ == self@.character(
                    at as int,
                ),
                None => at >= self@.characters.len(),
            },
    {
        proof {
            use_type_invariant(self);
        }
        if at < self.parts.characters.len() {
            Some(self.parts.character(at))
        } else {
            None
        }
    }

    /// The position of a character, if the dictionary has it.
    pub fn literal_position(&self, literal: char) -> (found: Option<usize>)
        ensures
            match found {
                Some(at) => at < self@.characters.len() && self@.characters[at as int].literal
                    == literal as u32,
                None => forall|at: int|
                    0 <= at < self@.characters.len() ==> (#[trigger] self@.characters[at]).literal
                        != literal as u32,
            },
    {
        proof {
            use_type_invariant(self);
        }
        let found = self.parts.find_literal(literal as u32);
        proof {
            if found is None {
                let view = self@;
                assert forall|at: int| 0 <= at < view.characters.len() implies (
                #[trigger] view.characters[at]).literal != literal as u32 by {
                    lemma_every_character_listed(view, at);
                }
            }
        }
        found
    }

    /// The record of a character, if the dictionary has one. Where it
    /// has, the record is that of the one position in the map of
    /// literals that lists the character.
    pub fn lookup_literal(&self, literal: char) -> (character: Option<Character<'a>>)
        ensures
            match character {
                Some(character) => character@.literal == literal && exists|at: int|
                    0 <= at < self@.characters.len() && character@ == #[trigger] self@.character(
                        at,
                    ),
                None => forall|at: int|
                    0 <= at < self@.characters.len() ==> (#[trigger] self@.character(at)).literal
                        != literal,
            },
    {
        proof {
            use_type_invariant(self);
        }
        let n: u32 = literal as u32;
        proof {
            vstd::utf8::char_u32_cast(literal, n);
        }
        match self.parts.find_literal(n) {
            Some(at) => {
                let character = self.parts.character(at);
                assert(character@ == self@.character(at as int));
                Some(character)
            },
            None => {
                proof {
                    let view = self@;
                    assert forall|at: int| 0 <= at < view.characters.len() implies (
                    #[trigger] view.character(at)).literal != literal by {
                        lemma_every_character_listed(view, at);
                    }
                }
                None
            },
        }
    }
}

} // verus!

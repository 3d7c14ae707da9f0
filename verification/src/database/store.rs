//! The column store: the records of a dictionary as they are gathered
//! for an image.
use vstd::prelude::*;
use vstd::string::*;
use vstd::utf8::encode_utf8;

use super::blobs::{joined, push_blob, BLOB_MAX};
use super::container::{assemble, fits, image_of, rows};
use super::records::{
    encode_entries, entries_words, kanji_words, reading_words, sense_words,
};
use super::characters::{
    character_fits, character_words, count_below, encode_literals, lists_literal, literal_words,
    stored_character, with_literal, CharacterRecord, CharacterRow,
};
use super::interner::{Arena, Interner};
use super::phrases::{dedup, distinct, encode_phrases, phrase_words, sort, sorted, Phrase};
use super::ranking::{bucket, bucket_of, prioritize, prioritized};
use super::character_laws::{
    character_stands, characters_stand, lemma_characters_extended, lemma_with_character,
};
use super::laws::{
    entry_stands, lemma_completed_stands, lemma_forms_same, lemma_forms_sound,
    lemma_inserted_stands, lemma_stands_same, stands_for,
};
use super::model::lies_in;
use super::records::{
    EntryRecord, KanjiRecord, KanjiRow, ReadingRecord, ReadingRow, SenseRecord, SenseRow, Span,
    StrRef, GLOSSES_MAX,
};
use crate::inflection::conjugate::entry_surfaces;
use crate::kanjidic2::character::{Character, CharacterView};
use crate::jmdict::entry::{
    Entry, EntryView, KanjiElement, KanjiElementView, ReadingElement, ReadingElementView, Sense,
    SenseView,
};

verus! {

/// Why an entry is not taken into the store.
#[derive(Clone, Copy, Debug, PartialEq, Eq, Structural, Hash)]
pub enum StoreError {
    /// The entry has no reading, or no sense.
    Schema,
    /// The sequence number of the entry is not above that of the entry
    /// before it.
    Sequence,
    /// There is no room for the entry: the arena, a column or a record
    /// would grow beyond what the format can address.
    TooLarge,
}

/// What a [`Store`] holds.
pub struct Tables {
    pub arena: Arena,
    pub entries: Seq<EntryRecord>,
    pub readings: Seq<ReadingRow>,
    pub kanji: Seq<KanjiRow>,
    pub senses: Seq<SenseRow>,
    /// The inflected surface forms of the entries, each with the position
    /// of its entry.
    pub surfaces: Seq<(u32, Seq<char>)>,
    pub characters: Seq<CharacterRow>,
    /// The characters with the positions of their records, in the order
    /// of the characters.
    pub literals: Seq<(u32, u32)>,
}

/// The arena after texts were handed in one after the other, and where
/// each lies; nothing where there is no room for one of them.
pub open spec fn stored_texts(arena: Arena, texts: Seq<Seq<char>>) -> Option<
    (Arena, Seq<StrRef>),
>
    decreases texts.len(),
{
    if texts.len() == 0 {
        Some((arena, Seq::empty()))
    } else {
        match stored_texts(arena, texts.drop_last()) {
            Some((arena, refs)) => match arena.interned(encode_utf8(texts.last())) {
                Some((arena, r)) => Some((arena, refs.push(r))),
                None => None,
            },
            None => None,
        }
    }
}

/// The arena after a reading was handed in, and its record: the text
/// goes in first, then the written forms that the reading is limited to.
pub open spec fn stored_reading(arena: Arena, reading: ReadingElementView) -> Option<
    (Arena, ReadingRow),
> {
    match arena.interned(encode_utf8(reading.text)) {
        Some((arena, text)) => match stored_texts(arena, reading.restrict) {
            Some((arena, restrict)) => if 3 + 2 * restrict.len() <= BLOB_MAX {
                Some((arena, ReadingRow { text, no_kanji: reading.no_kanji, restrict }))
            } else {
                None
            },
            None => None,
        },
        None => None,
    }
}

/// The arena and the column after readings were handed in one after the
/// other.
pub open spec fn stored_readings(
    arena: Arena,
    rows: Seq<ReadingRow>,
    readings: Seq<ReadingElementView>,
) -> Option<(Arena, Seq<ReadingRow>)>
    decreases readings.len(),
{
    if readings.len() == 0 {
        Some((arena, rows))
    } else {
        match stored_readings(arena, rows, readings.drop_last()) {
            Some((arena, rows)) => match stored_reading(arena, readings.last()) {
                Some((arena, row)) => Some((arena, rows.push(row))),
                None => None,
            },
            None => None,
        }
    }
}

/// The arena after a written form was handed in, and its record.
pub open spec fn stored_kanji(arena: Arena, kanji: KanjiElementView) -> Option<(Arena, KanjiRow)> {
    match arena.interned(encode_utf8(kanji.text)) {
        Some((arena, text)) => if 2 + kanji.priority.len() <= BLOB_MAX {
            Some((arena, KanjiRow { text, priority: kanji.priority }))
        } else {
            None
        },
        None => None,
    }
}

/// The arena and the column after written forms were handed in one after
/// the other.
pub open spec fn stored_kanjis(arena: Arena, rows: Seq<KanjiRow>, kanji: Seq<KanjiElementView>) -> Option<
    (Arena, Seq<KanjiRow>),
>
    decreases kanji.len(),
{
    if kanji.len() == 0 {
        Some((arena, rows))
    } else {
        match stored_kanjis(arena, rows, kanji.drop_last()) {
            Some((arena, rows)) => match stored_kanji(arena, kanji.last()) {
                Some((arena, row)) => Some((arena, rows.push(row))),
                None => None,
            },
            None => None,
        }
    }
}

/// The arena after a sense was handed in, and its record: the language
/// goes in first, then the glosses, then the usage tags.
pub open spec fn stored_sense(arena: Arena, sense: SenseView) -> Option<(Arena, SenseRow)> {
    match arena.interned(encode_utf8(sense.language)) {
        Some((arena, language)) => match stored_texts(arena, sense.glosses) {
            Some((arena, glosses)) => match stored_texts(arena, sense.misc) {
                Some((arena, misc)) => if glosses.len() <= GLOSSES_MAX && 7 + 2 * glosses.len() + 2
                    * misc.len() <= BLOB_MAX {
                    Some((arena, SenseRow { pos: sense.pos.bits(), language, glosses, misc }))
                } else {
                    None
                },
                None => None,
            },
            None => None,
        },
        None => None,
    }
}

/// The arena and the column after senses were handed in one after the
/// other.
pub open spec fn stored_senses(arena: Arena, rows: Seq<SenseRow>, senses: Seq<SenseView>) -> Option<
    (Arena, Seq<SenseRow>),
>
    decreases senses.len(),
{
    if senses.len() == 0 {
        Some((arena, rows))
    } else {
        match stored_senses(arena, rows, senses.drop_last()) {
            Some((arena, rows)) => match stored_sense(arena, senses.last()) {
                Some((arena, row)) => Some((arena, rows.push(row))),
                None => None,
            },
            None => None,
        }
    }
}

/// The arena after surface forms were handed in one after the other, and
/// the phrase of each; nothing where there is no room for one of them.
pub open spec fn stored_surfaces(arena: Arena, surfaces: Seq<(u32, Seq<char>)>) -> Option<
    (Arena, Seq<Phrase>),
>
    decreases surfaces.len(),
{
    if surfaces.len() == 0 {
        Some((arena, Seq::empty()))
    } else {
        match stored_surfaces(arena, surfaces.drop_last()) {
            Some((arena, phrases)) => match arena.interned(encode_utf8(surfaces.last().1)) {
                Some((arena, text)) => Some(
                    (arena, phrases.push(Phrase { text, entry: surfaces.last().0 })),
                ),
                None => None,
            },
            None => None,
        }
    }
}

/// The surface forms of an entry at a position, each with the position.
pub open spec fn surfaces_at(at: u32, texts: Seq<Seq<char>>) -> Seq<(u32, Seq<char>)> {
    Seq::new(texts.len(), |i: int| (at, texts[i]))
}

/// The words of the map of sequence numbers: for each entry its sequence
/// number and its position.
pub open spec fn sequence_words(entries: Seq<EntryRecord>) -> Seq<u32> {
    Seq::new(
        2 * entries.len(),
        |j: int|
            if j % 2 == 0 {
                entries[j / 2].sequence_number
            } else {
                (j / 2) as u32
            },
    )
}

/// The records of characters, each as words.
pub open spec fn character_blobs(rows: Seq<CharacterRow>) -> Seq<Seq<u32>> {
    rows.map_values(|r: CharacterRow| character_words(r))
}

/// The records of readings, each as words.
pub open spec fn reading_blobs(rows: Seq<ReadingRow>) -> Seq<Seq<u32>> {
    rows.map_values(|r: ReadingRow| reading_words(r))
}

/// The records of written forms, each as words.
pub open spec fn kanji_blobs(rows: Seq<KanjiRow>) -> Seq<Seq<u32>> {
    rows.map_values(|r: KanjiRow| kanji_words(r))
}

/// The records of senses, each as words.
pub open spec fn sense_blobs(rows: Seq<SenseRow>) -> Seq<Seq<u32>> {
    rows.map_values(|r: SenseRow| sense_words(r))
}

impl Tables {
    /// Whether every record is short enough to be framed.
    pub open spec fn encodable(self) -> bool {
        &&& self.entries.len() <= u32::MAX
        &&& forall|i: int|
            0 <= i < self.readings.len() ==> 3 + 2 * (#[trigger] self.readings[i]).restrict.len()
                <= BLOB_MAX
        &&& forall|i: int|
            0 <= i < self.kanji.len() ==> 2 + (#[trigger] self.kanji[i]).priority.len() <= BLOB_MAX
        &&& forall|i: int|
            0 <= i < self.senses.len() ==> (#[trigger] self.senses[i]).glosses.len() <= GLOSSES_MAX
                && 7 + 2 * self.senses[i].glosses.len() + 2 * self.senses[i].misc.len()
                <= BLOB_MAX
    }

    /// The surface forms of the entry at a position, each with the
    /// position: the readings, then the written forms.
    pub open spec fn entry_forms(self, at: int) -> Seq<Phrase> {
        let e = self.entries[at];
        Seq::new(
            e.readings.count as nat,
            |k: int| Phrase { text: self.readings[e.readings.start + k].text, entry: at as u32 },
        ) + Seq::new(
            e.kanji.count as nat,
            |k: int| Phrase { text: self.kanji[e.kanji.start + k].text, entry: at as u32 },
        )
    }

    /// The surface forms of the first `n` entries, entry by entry.
    pub open spec fn forms_upto(self, n: int) -> Seq<Phrase>
        decreases n,
    {
        if n <= 0 {
            Seq::empty()
        } else {
            self.forms_upto(n - 1) + self.entry_forms(n - 1)
        }
    }

    /// The arena with the inflected surface forms handed in behind the
    /// strings of the records, and the phrases of those forms; nothing
    /// where there is no room for one of them.
    pub open spec fn completed(self) -> Option<(Arena, Seq<Phrase>)> {
        stored_surfaces(self.arena, self.surfaces)
    }

    /// The store with its arena complete.
    pub open spec fn finished(self) -> Tables {
        Tables { arena: self.completed().unwrap().0, ..self }
    }

    /// The strings of the image.
    pub open spec fn strings(self) -> Seq<u8> {
        self.completed().unwrap().0.bytes
    }

    /// The index of phrases: the readings and written forms of all
    /// entries and their inflected surface forms, in order, each form of
    /// an entry once.
    pub open spec fn phrases(self) -> Seq<Phrase> {
        distinct(
            sorted(
                self.strings(),
                self.forms_upto(self.entries.len() as int) + self.completed().unwrap().1,
            ),
        )
    }

    /// The buckets of the entries.
    pub open spec fn buckets(self) -> Seq<u8> {
        Seq::new(self.entries.len(), |at: int| bucket(self.entries, self.kanji, at))
    }

    /// The records of the readings, each as words.
    pub open spec fn reading_blobs(self) -> Seq<Seq<u32>> {
        reading_blobs(self.readings)
    }

    /// The records of the written forms, each as words.
    pub open spec fn kanji_blobs(self) -> Seq<Seq<u32>> {
        kanji_blobs(self.kanji)
    }

    /// The records of the senses, each as words.
    pub open spec fn sense_blobs(self) -> Seq<Seq<u32>> {
        sense_blobs(self.senses)
    }

    /// The columns of the image beside the strings: the entries, the
    /// readings, the written forms, the senses, the characters, the map
    /// of sequence numbers, the map of literals, the index of phrases and
    /// the index of priorities.
    pub open spec fn columns(self) -> Seq<Seq<u32>> {
        seq![
            entries_words(self.entries),
            joined(self.reading_blobs()),
            joined(self.kanji_blobs()),
            joined(self.sense_blobs()),
            joined(character_blobs(self.characters)),
            sequence_words(self.entries),
            literal_words(self.literals),
            phrase_words(self.phrases()),
            prioritized(self.buckets()),
        ]
    }

    /// Whether the store makes an image: there is room in the arena for
    /// the inflected surface forms, and the offsets fit the format.
    pub open spec fn fits(self) -> bool {
        self.completed() is Some && fits(self.strings(), self.columns())
    }

    /// The image of the store.
    pub open spec fn image(self) -> Seq<u8> {
        image_of(self.strings(), self.columns())
    }

    /// The store that holds nothing.
    pub open spec fn empty() -> Tables {
        Tables {
            arena: Arena::empty(),
            entries: Seq::empty(),
            readings: Seq::empty(),
            kanji: Seq::empty(),
            senses: Seq::empty(),
            surfaces: Seq::empty(),
            characters: Seq::empty(),
            literals: Seq::empty(),
        }
    }

    /// The store after a character was taken in, or why it was not. The
    /// character must not be one that the store has. Its readings go into
    /// the arena first, then its meanings; the map of literals lists it
    /// where it belongs.
    pub open spec fn with_character(self, character: CharacterView) -> Result<Tables, StoreError> {
        if lists_literal(self.literals, character.literal as u32) {
            Err(StoreError::Schema)
        } else {
            match stored_character(self.arena, character) {
                Some((arena, row)) => if self.characters.len() < u32::MAX {
                    Ok(
                        Tables {
                            arena,
                            characters: self.characters.push(row),
                            literals: with_literal(
                                self.literals,
                                row.literal,
                                self.characters.len() as u32,
                            ),
                            ..self
                        },
                    )
                } else {
                    Err(StoreError::TooLarge)
                },
                None => Err(StoreError::TooLarge),
            }
        }
    }

    /// The store after an entry was taken in, or why it was not. The entry
    /// must have a reading and a sense, and a sequence number above that of
    /// the entry before it. Its readings go in first, then its written
    /// forms, then its senses; the record of the entry names their runs.
    pub open spec fn inserted(self, entry: EntryView) -> Result<Tables, StoreError> {
        if !entry.well_formed() {
            Err(StoreError::Schema)
        } else if self.entries.len() > 0 && entry.sequence_number
            <= self.entries.last().sequence_number {
            Err(StoreError::Sequence)
        } else {
            match stored_readings(self.arena, self.readings, entry.reading_elements) {
                Some((arena, readings)) => match stored_kanjis(
                    arena,
                    self.kanji,
                    entry.kanji_elements,
                ) {
                    Some((arena, kanji)) => match stored_senses(arena, self.senses, entry.senses) {
                        Some((arena, senses)) => if self.entries.len() < u32::MAX && readings.len()
                            <= u32::MAX && kanji.len() <= u32::MAX && senses.len() <= u32::MAX {
                            Ok(
                                Tables {
                                    arena,
                                    entries: self.entries.push(
                                        EntryRecord {
                                            sequence_number: entry.sequence_number,
                                            readings: Span {
                                                start: self.readings.len() as u32,
                                                count: entry.reading_elements.len() as u32,
                                            },
                                            kanji: Span {
                                                start: self.kanji.len() as u32,
                                                count: entry.kanji_elements.len() as u32,
                                            },
                                            senses: Span {
                                                start: self.senses.len() as u32,
                                                count: entry.senses.len() as u32,
                                            },
                                        },
                                    ),
                                    readings,
                                    kanji,
                                    senses,
                                    surfaces: self.surfaces + surfaces_at(
                                        self.entries.len() as u32,
                                        entry_surfaces(entry),
                                    ),
                                    characters: self.characters,
                                    literals: self.literals,
                                },
                            )
                        } else {
                            Err(StoreError::TooLarge)
                        },
                        None => Err(StoreError::TooLarge),
                    },
                    None => Err(StoreError::TooLarge),
                },
                None => Err(StoreError::TooLarge),
            }
        }
    }

    /// The store after entries were taken in one after the other, or why
    /// the first of them that was not taken in was not.
    pub open spec fn inserted_all(self, entries: Seq<EntryView>) -> Result<Tables, StoreError>
        decreases entries.len(),
    {
        if entries.len() == 0 {
            Ok(self)
        } else {
            match self.inserted_all(entries.drop_last()) {
                Ok(tables) => tables.inserted(entries.last()),
                Err(error) => Err(error),
            }
        }
    }
}

/// What records of readings hold.
pub open spec fn reading_rows(records: Seq<ReadingRecord>) -> Seq<ReadingRow> {
    records.map_values(|r: ReadingRecord| r@)
}

/// What records of written forms hold.
pub open spec fn kanji_rows(records: Seq<KanjiRecord>) -> Seq<KanjiRow> {
    records.map_values(|r: KanjiRecord| r@)
}

/// What records of senses hold.
pub open spec fn sense_rows(records: Seq<SenseRecord>) -> Seq<SenseRow> {
    records.map_values(|r: SenseRecord| r@)
}

/// The column store.
pub struct Store {
    interner: Interner,
    entries: Vec<EntryRecord>,
    readings: Vec<ReadingRecord>,
    kanji: Vec<KanjiRecord>,
    senses: Vec<SenseRecord>,
    surfaces: Vec<(u32, String)>,
    characters: Vec<CharacterRecord>,
    literals: Vec<(u32, u32)>,
    taken: Ghost<Seq<EntryView>>,
    kept: Ghost<Seq<CharacterView>>,
}

impl View for Store {
    type V = Tables;

    closed spec fn view(&self) -> Tables {
        Tables {
            arena: self.interner@,
            entries: self.entries@,
            readings: reading_rows(self.readings@),
            kanji: kanji_rows(self.kanji@),
            senses: sense_rows(self.senses@),
            surfaces: surface_views(self.surfaces@),
            characters: character_rows(self.characters@),
            literals: self.literals@,
        }
    }
}

/// What records of characters hold.
pub open spec fn character_rows(records: Seq<CharacterRecord>) -> Seq<CharacterRow> {
    records.map_values(|r: CharacterRecord| r@)
}

/// What surface forms hold.
pub open spec fn surface_views(list: Seq<(u32, String)>) -> Seq<(u32, Seq<char>)> {
    list.map_values(|s: (u32, String)| (s.0, s.1@))
}

fn store_texts<'a>(interner: &mut Interner, texts: &Vec<&'a str>) -> (refs: Option<Vec<StrRef>>)
    requires
        old(interner).wf(),
    ensures
        final(interner).wf(),
        match refs {
            Some(refs) => stored_texts(old(interner)@, crate::jmdict::entry::spellings(texts@))
                == Some((final(interner)@, refs@)),
            None => stored_texts(old(interner)@, crate::jmdict::entry::spellings(texts@)) is None,
        },
{
    let ghost all = crate::jmdict::entry::spellings(texts@);
    let mut refs: Vec<StrRef> = Vec::new();
    let mut n: usize = 0;
    assert(all.take(0) =~= Seq::<Seq<char>>::empty());
    while n < texts.len()
        invariant
            n <= texts.len(),
            interner.wf(),
            all == crate::jmdict::entry::spellings(texts@),
            stored_texts(old(interner)@, all.take(n as int)) == Some((interner@, refs@)),
        decreases texts.len() - n,
    {
        proof {
            assert(all.take(n + 1).drop_last() =~= all.take(n as int));
            assert(all.take(n + 1).last() == texts@[n as int]@);
        }
        match interner.intern(texts[n].as_bytes()) {
            Some(r) => {
                refs.push(r);
            },
            None => {
                proof {
                    lemma_texts_fail(old(interner)@, all, n + 1);
                }
                return None;
            },
        }
        n = n + 1;
    }
    assert(all.take(texts.len() as int) =~= all);
    Some(refs)
}

/// Texts for the first of which there is no room have no room as a whole.
proof fn lemma_texts_fail(arena: Arena, texts: Seq<Seq<char>>, n: int)
    requires
        0 <= n <= texts.len(),
        stored_texts(arena, texts.take(n)) is None,
    ensures
        stored_texts(arena, texts) is None,
    decreases texts.len() - n,
{
    if n == texts.len() {
        assert(texts.take(n) =~= texts);
    } else {
        assert(texts.take(n + 1).drop_last() =~= texts.take(n));
        lemma_texts_fail(arena, texts, n + 1);
    }
}

proof fn lemma_surfaces_fail(arena: Arena, surfaces: Seq<(u32, Seq<char>)>, n: int)
    requires
        0 <= n <= surfaces.len(),
        stored_surfaces(arena, surfaces.take(n)) is None,
    ensures
        stored_surfaces(arena, surfaces) is None,
    decreases surfaces.len() - n,
{
    if n == surfaces.len() {
        assert(surfaces.take(n) =~= surfaces);
    } else {
        assert(surfaces.take(n + 1).drop_last() =~= surfaces.take(n));
        lemma_surfaces_fail(arena, surfaces, n + 1);
    }
}

proof fn lemma_readings_fail(
    arena: Arena,
    rows: Seq<ReadingRow>,
    readings: Seq<ReadingElementView>,
    n: int,
)
    requires
        0 <= n <= readings.len(),
        stored_readings(arena, rows, readings.take(n)) is None,
    ensures
        stored_readings(arena, rows, readings) is None,
    decreases readings.len() - n,
{
    if n == readings.len() {
        assert(readings.take(n) =~= readings);
    } else {
        assert(readings.take(n + 1).drop_last() =~= readings.take(n));
        lemma_readings_fail(arena, rows, readings, n + 1);
    }
}

proof fn lemma_kanjis_fail(arena: Arena, rows: Seq<KanjiRow>, kanji: Seq<KanjiElementView>, n: int)
    requires
        0 <= n <= kanji.len(),
        stored_kanjis(arena, rows, kanji.take(n)) is None,
    ensures
        stored_kanjis(arena, rows, kanji) is None,
    decreases kanji.len() - n,
{
    if n == kanji.len() {
        assert(kanji.take(n) =~= kanji);
    } else {
        assert(kanji.take(n + 1).drop_last() =~= kanji.take(n));
        lemma_kanjis_fail(arena, rows, kanji, n + 1);
    }
}

proof fn lemma_senses_fail(arena: Arena, rows: Seq<SenseRow>, senses: Seq<SenseView>, n: int)
    requires
        0 <= n <= senses.len(),
        stored_senses(arena, rows, senses.take(n)) is None,
    ensures
        stored_senses(arena, rows, senses) is None,
    decreases senses.len() - n,
{
    if n == senses.len() {
        assert(senses.take(n) =~= senses);
    } else {
        assert(senses.take(n + 1).drop_last() =~= senses.take(n));
        lemma_senses_fail(arena, rows, senses, n + 1);
    }
}

fn store_reading<'a>(interner: &mut Interner, reading: &ReadingElement<'a>) -> (record: Option<
    ReadingRecord,
>)
    requires
        old(interner).wf(),
    ensures
        final(interner).wf(),
        match record {
            Some(record) => stored_reading(old(interner)@, reading@) == Some(
                (final(interner)@, record@),
            ),
            None => stored_reading(old(interner)@, reading@) is None,
        },
{
    let text = match interner.intern(reading.text.as_bytes()) {
        Some(text) => text,
        None => {
            return None;
        },
    };
    let restrict = match store_texts(interner, &reading.restrict) {
        Some(restrict) => restrict,
        None => {
            return None;
        },
    };
    if restrict.len() > (BLOB_MAX - 3) / 2 {
        return None;
    }
    Some(ReadingRecord { text, no_kanji: reading.no_kanji, restrict })
}

fn copy_priorities(list: &Vec<crate::jmdict::entry::Priority>) -> (copy: Vec<
    crate::jmdict::entry::Priority,
>)
    ensures
        copy@ == list@,
{
    let mut copy: Vec<crate::jmdict::entry::Priority> = Vec::new();
    let mut n: usize = 0;
    while n < list.len()
        invariant
            n <= list.len(),
            copy@ == list@.take(n as int),
        decreases list.len() - n,
    {
        copy.push(list[n]);
        n = n + 1;
        assert(copy@ =~= list@.take(n as int));
    }
    assert(list@.take(list.len() as int) =~= list@);
    copy
}

fn store_kanji<'a>(interner: &mut Interner, kanji: &KanjiElement<'a>) -> (record: Option<
    KanjiRecord,
>)
    requires
        old(interner).wf(),
    ensures
        final(interner).wf(),
        match record {
            Some(record) => stored_kanji(old(interner)@, kanji@) == Some(
                (final(interner)@, record@),
            ),
            None => stored_kanji(old(interner)@, kanji@) is None,
        },
{
    let text = match interner.intern(kanji.text.as_bytes()) {
        Some(text) => text,
        None => {
            return None;
        },
    };
    if kanji.priority.len() > BLOB_MAX - 2 {
        return None;
    }
    Some(KanjiRecord { text, priority: copy_priorities(&kanji.priority) })
}

fn store_sense<'a>(interner: &mut Interner, sense: &Sense<'a>) -> (record: Option<SenseRecord>)
    requires
        old(interner).wf(),
    ensures
        final(interner).wf(),
        match record {
            Some(record) => stored_sense(old(interner)@, sense@) == Some(
                (final(interner)@, record@),
            ),
            None => stored_sense(old(interner)@, sense@) is None,
        },
{
    let language = match interner.intern(sense.language.as_bytes()) {
        Some(language) => language,
        None => {
            return None;
        },
    };
    let glosses = match store_texts(interner, &sense.glosses) {
        Some(glosses) => glosses,
        None => {
            return None;
        },
    };
    let misc = match store_texts(interner, &sense.misc) {
        Some(misc) => misc,
        None => {
            return None;
        },
    };
    if glosses.len() > GLOSSES_MAX || misc.len() > BLOB_MAX || 7 + 2 * (glosses.len() as u64) + 2 * (
    misc.len() as u64) > BLOB_MAX as u64 {
        return None;
    }
    Some(SenseRecord { pos: sense.pos.to_bits(), language, glosses, misc })
}

fn store_readings<'a>(
    interner: &mut Interner,
    rows: &mut Vec<ReadingRecord>,
    list: &Vec<ReadingElement<'a>>,
    Ghost(views): Ghost<Seq<ReadingElementView>>,
) -> (stored: bool)
    requires
        old(interner).wf(),
        views.len() == list@.len(),
        forall|i: int| 0 <= i < views.len() ==> views[i] == (#[trigger] list@[i])@,
    ensures
        final(interner).wf(),
        stored ==> stored_readings(old(interner)@, reading_rows(old(rows)@), views) == Some(
            (final(interner)@, reading_rows(final(rows)@)),
        ),
        !stored ==> stored_readings(old(interner)@, reading_rows(old(rows)@), views) is None,
{
    let ghost arena = interner@;
    let ghost before = reading_rows(rows@);
    let mut n: usize = 0;
    assert(views.take(0) =~= Seq::<ReadingElementView>::empty());
    while n < list.len()
        invariant
            n <= list.len(),
            interner.wf(),
            views.len() == list@.len(),
            forall|i: int| 0 <= i < views.len() ==> views[i] == (#[trigger] list@[i])@,
            arena == old(interner)@,
            before == reading_rows(old(rows)@),
            stored_readings(arena, before, views.take(n as int)) == Some(
                (interner@, reading_rows(rows@)),
            ),
        decreases list.len() - n,
    {
        proof {
            assert(views.take(n + 1).drop_last() =~= views.take(n as int));
            assert(views.take(n + 1).last() == list@[n as int]@);
        }
        let ghost sofar = reading_rows(rows@);
        match store_reading(interner, &list[n]) {
            Some(record) => {
                rows.push(record);
                assert(reading_rows(rows@) =~= sofar.push(record@));
            },
            None => {
                proof {
                    lemma_readings_fail(arena, before, views, n + 1);
                }
                return false;
            },
        }
        n = n + 1;
    }
    assert(views.take(list.len() as int) =~= views);
    true
}

fn store_kanjis<'a>(
    interner: &mut Interner,
    rows: &mut Vec<KanjiRecord>,
    list: &Vec<KanjiElement<'a>>,
    Ghost(views): Ghost<Seq<KanjiElementView>>,
) -> (stored: bool)
    requires
        old(interner).wf(),
        views.len() == list@.len(),
        forall|i: int| 0 <= i < views.len() ==> views[i] == (#[trigger] list@[i])@,
    ensures
        final(interner).wf(),
        stored ==> stored_kanjis(old(interner)@, kanji_rows(old(rows)@), views) == Some(
            (final(interner)@, kanji_rows(final(rows)@)),
        ),
        !stored ==> stored_kanjis(old(interner)@, kanji_rows(old(rows)@), views) is None,
{
    let ghost arena = interner@;
    let ghost before = kanji_rows(rows@);
    let mut n: usize = 0;
    assert(views.take(0) =~= Seq::<KanjiElementView>::empty());
    while n < list.len()
        invariant
            n <= list.len(),
            interner.wf(),
            views.len() == list@.len(),
            forall|i: int| 0 <= i < views.len() ==> views[i] == (#[trigger] list@[i])@,
            arena == old(interner)@,
            before == kanji_rows(old(rows)@),
            stored_kanjis(arena, before, views.take(n as int)) == Some(
                (interner@, kanji_rows(rows@)),
            ),
        decreases list.len() - n,
    {
        proof {
            assert(views.take(n + 1).drop_last() =~= views.take(n as int));
            assert(views.take(n + 1).last() == list@[n as int]@);
        }
        let ghost sofar = kanji_rows(rows@);
        match store_kanji(interner, &list[n]) {
            Some(record) => {
                rows.push(record);
                assert(kanji_rows(rows@) =~= sofar.push(record@));
            },
            None => {
                proof {
                    lemma_kanjis_fail(arena, before, views, n + 1);
                }
                return false;
            },
        }
        n = n + 1;
    }
    assert(views.take(list.len() as int) =~= views);
    true
}

fn store_senses<'a>(
    interner: &mut Interner,
    rows: &mut Vec<SenseRecord>,
    list: &Vec<Sense<'a>>,
    Ghost(views): Ghost<Seq<SenseView>>,
) -> (stored: bool)
    requires
        old(interner).wf(),
        views.len() == list@.len(),
        forall|i: int| 0 <= i < views.len() ==> views[i] == (#[trigger] list@[i])@,
    ensures
        final(interner).wf(),
        stored ==> stored_senses(old(interner)@, sense_rows(old(rows)@), views) == Some(
            (final(interner)@, sense_rows(final(rows)@)),
        ),
        !stored ==> stored_senses(old(interner)@, sense_rows(old(rows)@), views) is None,
{
    let ghost arena = interner@;
    let ghost before = sense_rows(rows@);
    let mut n: usize = 0;
    assert(views.take(0) =~= Seq::<SenseView>::empty());
    while n < list.len()
        invariant
            n <= list.len(),
            interner.wf(),
            views.len() == list@.len(),
            forall|i: int| 0 <= i < views.len() ==> views[i] == (#[trigger] list@[i])@,
            arena == old(interner)@,
            before == sense_rows(old(rows)@),
            stored_senses(arena, before, views.take(n as int)) == Some(
                (interner@, sense_rows(rows@)),
            ),
        decreases list.len() - n,
    {
        proof {
            assert(views.take(n + 1).drop_last() =~= views.take(n as int));
            assert(views.take(n + 1).last() == list@[n as int]@);
        }
        let ghost sofar = sense_rows(rows@);
        match store_sense(interner, &list[n]) {
            Some(record) => {
                rows.push(record);
                assert(sense_rows(rows@) =~= sofar.push(record@));
            },
            None => {
                proof {
                    lemma_senses_fail(arena, before, views, n + 1);
                }
                return false;
            },
        }
        n = n + 1;
    }
    assert(views.take(list.len() as int) =~= views);
    true
}

/// Adds the inflected surface forms of an entry at a position.
fn push_surfaces(surfaces: &mut Vec<(u32, String)>, at: u32, inflected: &Vec<String>)
    ensures
        surface_views(final(surfaces)@) == surface_views(old(surfaces)@) + surfaces_at(
            at,
            crate::query::texts(inflected@),
        ),
{
    let ghost held = surface_views(surfaces@);
    let ghost added = surfaces_at(at, crate::query::texts(inflected@));
    let mut n: usize = 0;
    assert(surface_views(surfaces@) =~= held + added.take(0));
    while n < inflected.len()
        invariant
            n <= inflected.len(),
            added == surfaces_at(at, crate::query::texts(inflected@)),
            surface_views(surfaces@) == held + added.take(n as int),
        decreases inflected.len() - n,
    {
        let ghost sofar = surface_views(surfaces@);
        let text = inflected[n].clone();
        assert(crate::query::texts(inflected@)[n as int] == inflected@[n as int]@);
        assert(added[n as int] == (at, text@));
        surfaces.push((at, text));
        assert(surface_views(surfaces@) =~= sofar.push((at, text@)));
        n = n + 1;
        assert(added.take(n as int) =~= added.take(n - 1).push(added[n - 1]));
        assert(surface_views(surfaces@) =~= held + added.take(n as int));
    }
    assert(added.take(inflected.len() as int) =~= added);
}

/// The records of readings as the words of their column.
fn reading_column(records: &Vec<ReadingRecord>) -> (words: Vec<u32>)
    requires
        forall|i: int|
            0 <= i < records@.len() ==> 3 + 2 * (#[trigger] reading_rows(
                records@,
            )[i]).restrict.len() <= BLOB_MAX,
    ensures
        words@ == joined(reading_blobs(reading_rows(records@))),
{
    let ghost blobs = reading_blobs(reading_rows(records@));
    let mut words: Vec<u32> = Vec::new();
    let mut n: usize = 0;
    assert(blobs.take(0) =~= Seq::<Seq<u32>>::empty());
    while n < records.len()
        invariant
            n <= records.len(),
            blobs == reading_blobs(reading_rows(records@)),
            forall|i: int|
                0 <= i < records@.len() ==> 3 + 2 * (#[trigger] reading_rows(
                    records@,
                )[i]).restrict.len() <= BLOB_MAX,
            words@ == joined(blobs.take(n as int)),
        decreases records.len() - n,
    {
        let blob = records[n].encode();
        proof {
            assert(reading_rows(records@)[n as int] == records@[n as int]@);
            assert(blobs.take(n + 1).drop_last() =~= blobs.take(n as int));
            assert(blobs.take(n + 1).last() == blob@);
        }
        let pushed = push_blob(&mut words, &blob);
        n = n + 1;
    }
    assert(blobs.take(records.len() as int) =~= blobs);
    words
}

/// The records of written forms as the words of their column.
fn kanji_column(records: &Vec<KanjiRecord>) -> (words: Vec<u32>)
    requires
        forall|i: int|
            0 <= i < records@.len() ==> 2 + (#[trigger] kanji_rows(records@)[i]).priority.len()
                <= BLOB_MAX,
    ensures
        words@ == joined(kanji_blobs(kanji_rows(records@))),
{
    let ghost blobs = kanji_blobs(kanji_rows(records@));
    let mut words: Vec<u32> = Vec::new();
    let mut n: usize = 0;
    assert(blobs.take(0) =~= Seq::<Seq<u32>>::empty());
    while n < records.len()
        invariant
            n <= records.len(),
            blobs == kanji_blobs(kanji_rows(records@)),
            forall|i: int|
                0 <= i < records@.len() ==> 2 + (#[trigger] kanji_rows(
                    records@,
                )[i]).priority.len() <= BLOB_MAX,
            words@ == joined(blobs.take(n as int)),
        decreases records.len() - n,
    {
        let blob = records[n].encode();
        proof {
            assert(kanji_rows(records@)[n as int] == records@[n as int]@);
            assert(blobs.take(n + 1).drop_last() =~= blobs.take(n as int));
            assert(blobs.take(n + 1).last() == blob@);
        }
        let pushed = push_blob(&mut words, &blob);
        n = n + 1;
    }
    assert(blobs.take(records.len() as int) =~= blobs);
    words
}

/// The records of senses as the words of their column.
fn sense_column(records: &Vec<SenseRecord>) -> (words: Vec<u32>)
    requires
        forall|i: int|
            0 <= i < records@.len() ==> (#[trigger] sense_rows(records@)[i]).glosses.len()
                <= GLOSSES_MAX && 7 + 2 * sense_rows(records@)[i].glosses.len() + 2 * sense_rows(
                records@,
            )[i].misc.len() <= BLOB_MAX,
    ensures
        words@ == joined(sense_blobs(sense_rows(records@))),
{
    let ghost blobs = sense_blobs(sense_rows(records@));
    let mut words: Vec<u32> = Vec::new();
    let mut n: usize = 0;
    assert(blobs.take(0) =~= Seq::<Seq<u32>>::empty());
    while n < records.len()
        invariant
            n <= records.len(),
            blobs == sense_blobs(sense_rows(records@)),
            forall|i: int|
                0 <= i < records@.len() ==> (#[trigger] sense_rows(records@)[i]).glosses.len()
                    <= GLOSSES_MAX && 7 + 2 * sense_rows(records@)[i].glosses.len() + 2
                    * sense_rows(records@)[i].misc.len() <= BLOB_MAX,
            words@ == joined(blobs.take(n as int)),
        decreases records.len() - n,
    {
        assert(sense_rows(records@)[n as int] == records@[n as int]@);
        let blob = match records[n].encode() {
            Some(blob) => blob,
            None => Vec::new(),
        };
        proof {
            assert(blobs.take(n + 1).drop_last() =~= blobs.take(n as int));
            assert(blobs.take(n + 1).last() == blob@);
        }
        let pushed = push_blob(&mut words, &blob);
        n = n + 1;
    }
    assert(blobs.take(records.len() as int) =~= blobs);
    words
}

/// The records of characters as the words of their column.
fn character_column(records: &Vec<CharacterRecord>) -> (words: Vec<u32>)
    requires
        forall|i: int|
            0 <= i < records@.len() ==> character_fits(#[trigger] character_rows(records@)[i]),
    ensures
        words@ == joined(character_blobs(character_rows(records@))),
{
    let ghost blobs = character_blobs(character_rows(records@));
    let mut words: Vec<u32> = Vec::new();
    let mut n: usize = 0;
    assert(blobs.take(0) =~= Seq::<Seq<u32>>::empty());
    while n < records.len()
        invariant
            n <= records.len(),
            blobs == character_blobs(character_rows(records@)),
            forall|i: int|
                0 <= i < records@.len() ==> character_fits(#[trigger] character_rows(records@)[i]),
            words@ == joined(blobs.take(n as int)),
        decreases records.len() - n,
    {
        assert(character_rows(records@)[n as int] == records@[n as int]@);
        let blob = match records[n].encode() {
            Some(blob) => blob,
            None => Vec::new(),
        };
        proof {
            assert(blobs.take(n + 1).drop_last() =~= blobs.take(n as int));
            assert(blobs.take(n + 1).last() == blob@);
        }
        let pushed = push_blob(&mut words, &blob);
        n = n + 1;
    }
    assert(blobs.take(records.len() as int) =~= blobs);
    words
}

/// The map of sequence numbers as the words of its column.
fn sequence_column(entries: &Vec<EntryRecord>) -> (words: Vec<u32>)
    requires
        entries@.len() <= u32::MAX,
    ensures
        words@ == sequence_words(entries@),
{
    let mut words: Vec<u32> = Vec::new();
    let mut n: usize = 0;
    assert(words@ =~= sequence_words(entries@.take(0)));
    while n < entries.len()
        invariant
            n <= entries.len(),
            entries@.len() <= u32::MAX,
            words@ == sequence_words(entries@.take(n as int)),
        decreases entries.len() - n,
    {
        words.push(entries[n].sequence_number);
        words.push(n as u32);
        n = n + 1;
        assert(words@ =~= sequence_words(entries@.take(n as int)));
    }
    assert(entries@.take(entries.len() as int) =~= entries@);
    words
}

/// Where a character belongs in a map of literals that does not list
/// it; nothing where the map lists it.
fn place_literal(literals: &Vec<(u32, u32)>, literal: u32) -> (at: Option<usize>)
    ensures
        match at {
            Some(at) => !lists_literal(literals@, literal) && at <= literals@.len() && at
                == count_below(literals@, literal, literals@.len() as int),
            None => lists_literal(literals@, literal),
        },
{
    let mut at: usize = 0;
    let mut n: usize = 0;
    while n < literals.len()
        invariant
            n <= literals.len(),
            at <= n,
            at == count_below(literals@, literal, n as int),
            forall|k: int| 0 <= k < n ==> (#[trigger] literals@[k]).0 != literal,
        decreases literals.len() - n,
    {
        if literals[n].0 == literal {
            return None;
        }
        if literals[n].0 < literal {
            at = at + 1;
        }
        n = n + 1;
    }
    Some(at)
}

fn store_pairs<'a>(interner: &mut Interner, list: &Vec<crate::kanjidic2::reading::Reading<'a>>, Ghost(views): Ghost<Seq<crate::kanjidic2::reading::ReadingView>>) -> (refs: Option<Vec<(StrRef, StrRef)>>)
    requires
        old(interner).wf(),
        views.len() == list@.len(),
        forall|i: int| 0 <= i < views.len() ==> views[i] == (#[trigger] list@[i])@,
    ensures
        final(interner).wf(),
        match refs {
            Some(refs) => super::characters::stored_pairs(old(interner)@, views) == Some(
                (final(interner)@, refs@),
            ),
            None => super::characters::stored_pairs(old(interner)@, views) is None,
        },
{
    let ghost arena = interner@;
    let mut refs: Vec<(StrRef, StrRef)> = Vec::new();
    let mut n: usize = 0;
    assert(views.take(0) =~= Seq::<crate::kanjidic2::reading::ReadingView>::empty());
    while n < list.len()
        invariant
            n <= list.len(),
            interner.wf(),
            arena == old(interner)@,
            views.len() == list@.len(),
            forall|i: int| 0 <= i < views.len() ==> views[i] == (#[trigger] list@[i])@,
            super::characters::stored_pairs(arena, views.take(n as int)) == Some(
                (interner@, refs@),
            ),
        decreases list.len() - n,
    {
        proof {
            assert(views.take(n + 1).drop_last() =~= views.take(n as int));
            assert(views.take(n + 1).last() == list@[n as int]@);
        }
        let text = match interner.intern(list[n].text.as_bytes()) {
            Some(text) => text,
            None => {
                proof {
                    lemma_pairs_fail(arena, views, n + 1);
                }
                return None;
            },
        };
        let ty = match interner.intern(list[n].ty.as_bytes()) {
            Some(ty) => ty,
            None => {
                proof {
                    lemma_pairs_fail(arena, views, n + 1);
                }
                return None;
            },
        };
        refs.push((text, ty));
        n = n + 1;
    }
    assert(views.take(list.len() as int) =~= views);
    Some(refs)
}

proof fn lemma_pairs_fail(arena: Arena, readings: Seq<crate::kanjidic2::reading::ReadingView>, n: int)
    requires
        0 <= n <= readings.len(),
        super::characters::stored_pairs(arena, readings.take(n)) is None,
    ensures
        super::characters::stored_pairs(arena, readings) is None,
    decreases readings.len() - n,
{
    if n == readings.len() {
        assert(readings.take(n) =~= readings);
    } else {
        assert(readings.take(n + 1).drop_last() =~= readings.take(n));
        lemma_pairs_fail(arena, readings, n + 1);
    }
}

proof fn lemma_meanings_fail(arena: Arena, meanings: Seq<crate::kanjidic2::character::MeaningView>, n: int)
    requires
        0 <= n <= meanings.len(),
        super::characters::stored_meanings(arena, meanings.take(n)) is None,
    ensures
        super::characters::stored_meanings(arena, meanings) is None,
    decreases meanings.len() - n,
{
    if n == meanings.len() {
        assert(meanings.take(n) =~= meanings);
    } else {
        assert(meanings.take(n + 1).drop_last() =~= meanings.take(n));
        lemma_meanings_fail(arena, meanings, n + 1);
    }
}

fn store_meanings<'a>(interner: &mut Interner, list: &Vec<crate::kanjidic2::character::Meaning<'a>>, Ghost(views): Ghost<Seq<crate::kanjidic2::character::MeaningView>>) -> (refs: Option<Vec<(StrRef, Option<StrRef>)>>)
    requires
        old(interner).wf(),
        views.len() == list@.len(),
        forall|i: int| 0 <= i < views.len() ==> views[i] == (#[trigger] list@[i])@,
    ensures
        final(interner).wf(),
        match refs {
            Some(refs) => super::characters::stored_meanings(old(interner)@, views) == Some(
                (final(interner)@, refs@),
            ),
            None => super::characters::stored_meanings(old(interner)@, views) is None,
        },
{
    let ghost arena = interner@;
    let mut refs: Vec<(StrRef, Option<StrRef>)> = Vec::new();
    let mut n: usize = 0;
    assert(views.take(0) =~= Seq::<crate::kanjidic2::character::MeaningView>::empty());
    while n < list.len()
        invariant
            n <= list.len(),
            interner.wf(),
            arena == old(interner)@,
            views.len() == list@.len(),
            forall|i: int| 0 <= i < views.len() ==> views[i] == (#[trigger] list@[i])@,
            super::characters::stored_meanings(arena, views.take(n as int)) == Some(
                (interner@, refs@),
            ),
        decreases list.len() - n,
    {
        proof {
            assert(views.take(n + 1).drop_last() =~= views.take(n as int));
            assert(views.take(n + 1).last() == list@[n as int]@);
        }
        let text = match interner.intern(list[n].text.as_bytes()) {
            Some(text) => text,
            None => {
                proof {
                    lemma_meanings_fail(arena, views, n + 1);
                }
                return None;
            },
        };
        let lang = match list[n].lang {
            Some(lang) => match interner.intern(lang.as_bytes()) {
                Some(lang) => Some(lang),
                None => {
                    proof {
                        lemma_meanings_fail(arena, views, n + 1);
                    }
                    return None;
                },
            },
            None => None,
        };
        refs.push((text, lang));
        n = n + 1;
    }
    assert(views.take(list.len() as int) =~= views);
    Some(refs)
}

fn copy_radicals(list: &Vec<u32>) -> (copy: Vec<u32>)
    ensures
        copy@ == list@,
{
    let mut copy: Vec<u32> = Vec::new();
    let mut n: usize = 0;
    while n < list.len()
        invariant
            n <= list.len(),
            copy@ == list@.take(n as int),
        decreases list.len() - n,
    {
        copy.push(list[n]);
        n = n + 1;
        assert(copy@ =~= list@.take(n as int));
    }
    assert(list@.take(list.len() as int) =~= list@);
    copy
}

fn store_character<'a>(interner: &mut Interner, character: &Character<'a>) -> (record: Option<
    CharacterRecord,
>)
    requires
        old(interner).wf(),
    ensures
        final(interner).wf(),
        match record {
            Some(record) => stored_character(old(interner)@, character@) == Some(
                (final(interner)@, record@),
            ),
            None => stored_character(old(interner)@, character@) is None,
        },
{
    let ghost readings = character@.reading_meaning.readings;
    let ghost meanings = character@.reading_meaning.meanings;
    let pairs = match store_pairs(
        interner,
        &character.reading_meaning.readings,
        Ghost(readings),
    ) {
        Some(pairs) => pairs,
        None => {
            return None;
        },
    };
    let refs = match store_meanings(interner, &character.reading_meaning.meanings, Ghost(meanings)) {
        Some(refs) => refs,
        None => {
            return None;
        },
    };
    let record = CharacterRecord {
        literal: character.literal as u32,
        stroke_count: character.stroke_count as u32,
        radicals: copy_radicals(&character.radicals),
        readings: pairs,
        meanings: refs,
    };
    let limit = BLOB_MAX as u64;
    if record.radicals.len() as u64 > limit || record.readings.len() as u64 > limit
        || record.meanings.len() as u64 > limit || 5 + record.radicals.len() as u64 + 4 * (
    record.readings.len() as u64) + 5 * (record.meanings.len() as u64) > limit {
        return None;
    }
    Some(record)
}

/// The records of a store.
struct Records {
    entries: Vec<EntryRecord>,
    readings: Vec<ReadingRecord>,
    kanji: Vec<KanjiRecord>,
    senses: Vec<SenseRecord>,
    characters: Vec<CharacterRecord>,
    literals: Vec<(u32, u32)>,
}

impl Records {
    /// Whether the records are those of a store.
    spec fn of(&self, view: Tables) -> bool {
        &&& view.entries == self.entries@
        &&& view.readings == reading_rows(self.readings@)
        &&& view.kanji == kanji_rows(self.kanji@)
        &&& view.senses == sense_rows(self.senses@)
        &&& view.characters == character_rows(self.characters@)
        &&& view.literals == self.literals@
    }

    /// The readings and written forms of the entry at a position.
    fn entry_forms(&self, at: usize, forms: &mut Vec<Phrase>, Ghost(view): Ghost<Tables>)
        requires
            self.of(view),
            at < view.entries.len(),
            at <= u32::MAX,
            view.entries[at as int].readings.start + view.entries[at as int].readings.count
                <= view.readings.len(),
            view.entries[at as int].kanji.start + view.entries[at as int].kanji.count
                <= view.kanji.len(),
        ensures
            final(forms)@ == old(forms)@ + view.entry_forms(at as int),
    {
        let record = self.entries[at];
        let ghost before = forms@;
        let readings_total = self.readings.len();
        let kanji_total = self.kanji.len();
        let ghost first = Seq::new(
            record.readings.count as nat,
            |k: int| Phrase { text: view.readings[record.readings.start + k].text, entry: at as u32 },
        );
        let ghost second = Seq::new(
            record.kanji.count as nat,
            |k: int| Phrase { text: view.kanji[record.kanji.start + k].text, entry: at as u32 },
        );
        let mut k: usize = 0;
        assert(forms@ =~= before + first.take(0));
        while k < record.readings.count as usize
            invariant
                k <= record.readings.count,
                self.of(view),
                readings_total == view.readings.len(),
                record.readings.start + record.readings.count <= view.readings.len(),
                first == Seq::new(
                    record.readings.count as nat,
                    |k: int|
                        Phrase {
                            text: view.readings[record.readings.start + k].text,
                            entry: at as u32,
                        },
                ),
                forms@ == before + first.take(k as int),
            decreases record.readings.count - k,
        {
            let row = &self.readings[record.readings.start as usize + k];
            assert(view.readings[record.readings.start + k] == row@);
            forms.push(Phrase { text: row.text, entry: at as u32 });
            k = k + 1;
            assert(forms@ =~= before + first.take(k as int));
        }
        assert(first.take(record.readings.count as int) =~= first);
        let mut k: usize = 0;
        assert(forms@ =~= before + first + second.take(0));
        while k < record.kanji.count as usize
            invariant
                k <= record.kanji.count,
                self.of(view),
                kanji_total == view.kanji.len(),
                record.kanji.start + record.kanji.count <= view.kanji.len(),
                second == Seq::new(
                    record.kanji.count as nat,
                    |k: int|
                        Phrase { text: view.kanji[record.kanji.start + k].text, entry: at as u32 },
                ),
                forms@ == before + first + second.take(k as int),
            decreases record.kanji.count - k,
        {
            let row = &self.kanji[record.kanji.start as usize + k];
            assert(view.kanji[record.kanji.start + k] == row@);
            forms.push(Phrase { text: row.text, entry: at as u32 });
            k = k + 1;
            assert(forms@ =~= before + first + second.take(k as int));
        }
        assert(second.take(record.kanji.count as int) =~= second);
        assert(forms@ =~= before + (first + second));
    }

    /// The readings and written forms of all entries, and the buckets of
    /// the entries.
    fn forms(&self, Ghost(view): Ghost<Tables>, Ghost(taken): Ghost<Seq<EntryView>>) -> (out: (
        Vec<Phrase>,
        Vec<u8>,
    ))
        requires
            self.of(view),
            stands_for(view, taken),
        ensures
            out.0@ == view.forms_upto(view.entries.len() as int),
            out.1@ == view.buckets(),
    {
        let mut forms: Vec<Phrase> = Vec::new();
        let mut buckets: Vec<u8> = Vec::new();
        let mut at: usize = 0;
        assert(buckets@ =~= view.buckets().take(0));
        while at < self.entries.len()
            invariant
                at <= self.entries.len(),
                self.of(view),
                stands_for(view, taken),
                forms@ == view.forms_upto(at as int),
                buckets@ == view.buckets().take(at as int),
            decreases self.entries.len() - at,
        {
            assert(entry_stands(view, view.entries[at as int], taken[at as int]));
            self.entry_forms(at, &mut forms, Ghost(view));
            buckets.push(bucket_of(&self.kanji, self.entries[at].kanji));
            at = at + 1;
            assert(buckets@ =~= view.buckets().take(at as int));
        }
        assert(view.buckets().take(self.entries.len() as int) =~= view.buckets());
        (forms, buckets)
    }

    /// The index of phrases as the words of its column, and the buckets
    /// of the entries.
    fn phrase_column(
        &self,
        strings: &[u8],
        inflected: Vec<Phrase>,
        Ghost(view): Ghost<Tables>,
        Ghost(taken): Ghost<Seq<EntryView>>,
    ) -> (out: (Vec<u32>, Vec<u8>))
        requires
            self.of(view),
            view.completed() is Some,
            strings@ == view.strings(),
            inflected@ == view.completed().unwrap().1,
            stands_for(view, taken),
        ensures
            out.0@ == phrase_words(view.phrases()),
            out.1@ == view.buckets(),
    {
        proof {
            lemma_completed_stands(view, taken);
        }
        let ghost full = view.finished();
        let (mut forms, buckets) = self.forms(Ghost(view), Ghost(taken));
        let ghost listed = forms@;
        let mut inflected = inflected;
        let ghost rest = inflected@;
        forms.append(&mut inflected);
        proof {
            assert(forms@ =~= listed + rest);
            lemma_forms_same(view, full, view.entries.len() as int);
            lemma_forms_sound(full, taken, view.entries.len() as int);
            assert forall|i: int| 0 <= i < forms@.len() implies lies_in(
                strings@,
                (#[trigger] forms@[i]).text,
            ) by {
                if i < listed.len() {
                    assert(forms@[i] == listed[i]);
                    assert(full.forms_upto(view.entries.len() as int).contains(listed[i]));
                } else {
                    assert(forms@[i] == rest[i - listed.len()]);
                }
            }
        }
        let phrases = dedup(&sort(strings, forms));
        (encode_phrases(&phrases), buckets)
    }

    /// The columns of the records.
    fn record_columns(&self, Ghost(view): Ghost<Tables>) -> (columns: Vec<Vec<u32>>)
        requires
            self.of(view),
            view.encodable(),
        ensures
            columns@.len() == 4,
            columns@[0]@ == entries_words(view.entries),
            columns@[1]@ == joined(view.reading_blobs()),
            columns@[2]@ == joined(view.kanji_blobs()),
            columns@[3]@ == joined(view.sense_blobs()),
    {
        let mut columns: Vec<Vec<u32>> = Vec::new();
        columns.push(encode_entries(&self.entries));
        columns.push(reading_column(&self.readings));
        columns.push(kanji_column(&self.kanji));
        columns.push(sense_column(&self.senses));
        columns
    }

    /// The columns of the image beside the strings.
    fn columns(
        &self,
        strings: &[u8],
        inflected: Vec<Phrase>,
        Ghost(view): Ghost<Tables>,
        Ghost(taken): Ghost<Seq<EntryView>>,
        Ghost(kept): Ghost<Seq<CharacterView>>,
    ) -> (columns: Vec<Vec<u32>>)
        requires
            self.of(view),
            view.completed() is Some,
            strings@ == view.strings(),
            inflected@ == view.completed().unwrap().1,
            stands_for(view, taken),
            characters_stand(view, kept),
        ensures
            rows(columns@) == view.columns(),
    {
        let mut columns = self.record_columns(Ghost(view));
        let (phrases, buckets) = self.phrase_column(strings, inflected, Ghost(view), Ghost(taken));
        let priorities = prioritize(&buckets);
        proof {
            assert forall|i: int| 0 <= i < self.characters@.len() implies character_fits(
                #[trigger] character_rows(self.characters@)[i],
            ) by {
                assert(character_stands(view.arena, view.characters[i], kept[i]));
            }
        }
        columns.push(character_column(&self.characters));
        columns.push(sequence_column(&self.entries));
        columns.push(encode_literals(&self.literals));
        columns.push(phrases);
        columns.push(priorities);
        assert(rows(columns@) =~= view.columns());
        columns
    }
}

impl Store {
    /// The string arena of the store is sound, every string is found
    /// again, and the records stand for the entries that were taken in.
    #[verifier::opaque]
    pub closed spec fn wf(&self) -> bool {
        self.interner.wf() && stands_for(self@, self.taken@) && characters_stand(
            self@,
            self.kept@,
        )
    }

    /// The characters that the store has taken in, in their order.
    pub closed spec fn characters(&self) -> Seq<CharacterView> {
        self.kept@
    }

    /// The entries that the store has taken in, in their order.
    pub closed spec fn entries(&self) -> Seq<EntryView> {
        self.taken@
    }

    /// A well-formed store stands for the entries that it has taken in.
    pub proof fn lemma_stands(&self)
        requires
            self.wf(),
        ensures
            stands_for(self@, self.entries()),
            characters_stand(self@, self.characters()),
    {
        reveal(Store::wf);
    }

    /// A store that holds nothing.
    pub fn new() -> (store: Store)
        ensures
            store.wf(),
            store@ == Tables::empty(),
            store.entries() == Seq::<EntryView>::empty(),
            store.characters() == Seq::<CharacterView>::empty(),
    {
        let store = Store {
            interner: Interner::new(),
            entries: Vec::new(),
            readings: Vec::new(),
            kanji: Vec::new(),
            senses: Vec::new(),
            surfaces: Vec::new(),
            characters: Vec::new(),
            literals: Vec::new(),
            taken: Ghost(Seq::empty()),
            kept: Ghost(Seq::empty()),
        };
        assert(character_rows(store.characters@) =~= Seq::<CharacterRow>::empty());
        assert(reading_rows(store.readings@) =~= Seq::<ReadingRow>::empty());
        assert(kanji_rows(store.kanji@) =~= Seq::<KanjiRow>::empty());
        assert(sense_rows(store.senses@) =~= Seq::<SenseRow>::empty());
        assert(surface_views(store.surfaces@) =~= Seq::<(u32, Seq<char>)>::empty());
        assert(store@.surfaces =~= super::laws::all_surfaces(Seq::<EntryView>::empty(), 0));
        reveal(Store::wf);
        store
    }

    /// The number of entries in the store.
    pub fn len(&self) -> (n: usize)
        ensures
            n == self@.entries.len(),
    {
        self.entries.len()
    }

    /// Hands the inflected surface forms in, and gives the phrases of
    /// them; nothing where there is no room for one.
    fn complete(interner: &mut Interner, surfaces: &Vec<(u32, String)>) -> (phrases: Option<
        Vec<Phrase>,
    >)
        requires
            old(interner).wf(),
        ensures
            final(interner).wf(),
            match phrases {
                Some(phrases) => stored_surfaces(old(interner)@, surface_views(surfaces@))
                    == Some((final(interner)@, phrases@)),
                None => stored_surfaces(old(interner)@, surface_views(surfaces@)) is None,
            },
    {
        let ghost arena = interner@;
        let ghost all = surface_views(surfaces@);
        let mut phrases: Vec<Phrase> = Vec::new();
        let mut n: usize = 0;
        assert(all.take(0) =~= Seq::<(u32, Seq<char>)>::empty());
        while n < surfaces.len()
            invariant
                n <= surfaces.len(),
                interner.wf(),
                all == surface_views(surfaces@),
                arena == old(interner)@,
                stored_surfaces(arena, all.take(n as int)) == Some((interner@, phrases@)),
            decreases surfaces.len() - n,
        {
            proof {
                assert(all.take(n + 1).drop_last() =~= all.take(n as int));
                assert(all.take(n + 1).last() == (surfaces@[n as int].0, surfaces@[n as int].1@));
            }
            match interner.intern(surfaces[n].1.as_str().as_bytes()) {
                Some(text) => {
                    phrases.push(Phrase { text, entry: surfaces[n].0 });
                },
                None => {
                    proof {
                        lemma_surfaces_fail(arena, all, n + 1);
                    }
                    return None;
                },
            }
            n = n + 1;
        }
        assert(all.take(surfaces.len() as int) =~= all);
        Some(phrases)
    }

    /// The image of the store, unless there is no room in the arena for the
    /// inflected surface forms, or the image is too large for the offsets
    /// of the format.
    pub fn finish(self) -> (image: Option<Vec<u8>>)
        requires
            self.wf(),
        ensures
            match image {
                Some(image) => self@.fits() && image@ == self@.image(),
                None => !self@.fits(),
            },
    {
        let ghost view = self@;
        proof {
            reveal(Store::wf);
        }
        let Store {
            mut interner,
            entries,
            readings,
            kanji,
            senses,
            surfaces,
            characters,
            literals,
            taken,
            kept,
        } = self;
        let inflected = match Store::complete(&mut interner, &surfaces) {
            Some(inflected) => inflected,
            None => {
                return None;
            },
        };
        let records = Records { entries, readings, kanji, senses, characters, literals };
        let columns = records.columns(
            interner.bytes(),
            inflected,
            Ghost(view),
            Ghost(taken@),
            Ghost(kept@),
        );
        assemble(interner.bytes(), &columns)
    }

    /// Takes a character in, and hands the store back; or tells why the
    /// character is not taken in, and gives the store up.
    pub fn insert_character(self, character: &Character<'_>) -> (stored: Result<Store, StoreError>)
        requires
            self.wf(),
        ensures
            match stored {
                Ok(store) => store.wf() && self@.with_character(character@) == Ok::<
                    Tables,
                    StoreError,
                >(store@) && store.characters() == self.characters().push(character@)
                    && store.entries() == self.entries(),
                Err(error) => self@.with_character(character@) == Err::<Tables, StoreError>(error),
            },
    {
        let ghost before = self@;
        proof {
            reveal(Store::wf);
        }
        let Store {
            mut interner,
            entries,
            readings,
            kanji,
            senses,
            surfaces,
            mut characters,
            mut literals,
            taken,
            kept,
        } = self;
        let literal = character.literal as u32;
        let at = match place_literal(&literals, literal) {
            Some(at) => at,
            None => {
                return Err(StoreError::Schema);
            },
        };
        let record = match store_character(&mut interner, character) {
            Some(record) => record,
            None => {
                return Err(StoreError::TooLarge);
            },
        };
        if characters.len() >= u32::MAX as usize {
            return Err(StoreError::TooLarge);
        }
        literals.insert(at, (literal, characters.len() as u32));
        let ghost rows = character_rows(characters@);
        characters.push(record);
        assert(character_rows(characters@) =~= rows.push(record@));
        let store = Store {
            interner,
            entries,
            readings,
            kanji,
            senses,
            surfaces,
            characters,
            literals,
            taken,
            kept: Ghost(kept@.push(character@)),
        };
        proof {
            lemma_with_character(before, kept@, character@);
            lemma_stands_same(before, store@, taken@);
        }
        Ok(store)
    }

    /// Takes an entry in, and hands the store back; or tells why the entry
    /// is not taken in, and gives the store up.
    pub fn insert(self, entry: &Entry<'_>) -> (stored: Result<Store, StoreError>)
        requires
            self.wf(),
        ensures
            match stored {
                Ok(store) => store.wf() && self@.inserted(entry@) == Ok::<Tables, StoreError>(
                    store@,
                ) && store.entries() == self.entries().push(entry@) && store.characters()
                    == self.characters(),
                Err(error) => self@.inserted(entry@) == Err::<Tables, StoreError>(error),
            },
    {
        let Store {
            mut interner,
            mut entries,
            mut readings,
            mut kanji,
            mut senses,
            mut surfaces,
            characters,
            literals,
            taken,
            kept,
        } = self;
        let ghost before = self@;
        proof {
            reveal(Store::wf);
        }
        if entry.reading_elements.len() == 0 || entry.senses.len() == 0 {
            return Err(StoreError::Schema);
        }
        if entries.len() > 0 && entry.sequence_number <= entries[entries.len() - 1].sequence_number {
            return Err(StoreError::Sequence);
        }
        let first_reading = readings.len();
        let first_kanji = kanji.len();
        let first_sense = senses.len();
        if !store_readings(
            &mut interner,
            &mut readings,
            &entry.reading_elements,
            Ghost(entry@.reading_elements),
        ) {
            return Err(StoreError::TooLarge);
        }
        let ghost after_readings = interner@;
        if !store_kanjis(
            &mut interner,
            &mut kanji,
            &entry.kanji_elements,
            Ghost(entry@.kanji_elements),
        ) {
            return Err(StoreError::TooLarge);
        }
        let ghost after_kanji = interner@;
        if !store_senses(&mut interner, &mut senses, &entry.senses, Ghost(entry@.senses)) {
            return Err(StoreError::TooLarge);
        }
        if entries.len() >= u32::MAX as usize || readings.len() > u32::MAX as usize || kanji.len()
            > u32::MAX as usize || senses.len() > u32::MAX as usize {
            return Err(StoreError::TooLarge);
        }
        proof {
            lemma_readings_grow(before.arena, before.readings, entry@.reading_elements);
            lemma_kanjis_grow(after_readings, before.kanji, entry@.kanji_elements);
            lemma_senses_grow(after_kanji, before.senses, entry@.senses);
        }
        let inflected = crate::inflection::conjugate::surfaces(entry);
        push_surfaces(&mut surfaces, entries.len() as u32, &inflected);
        entries.push(
            EntryRecord {
                sequence_number: entry.sequence_number,
                readings: Span {
                    start: first_reading as u32,
                    count: entry.reading_elements.len() as u32,
                },
                kanji: Span { start: first_kanji as u32, count: entry.kanji_elements.len() as u32 },
                senses: Span { start: first_sense as u32, count: entry.senses.len() as u32 },
            },
        );
        let store = Store {
            interner,
            entries,
            readings,
            kanji,
            senses,
            surfaces,
            characters,
            literals,
            taken: Ghost(taken@.push(entry@)),
            kept,
        };
        proof {
            lemma_inserted_stands(before, taken@, entry@);
            lemma_characters_extended(before, kept@, store@);
        }
        Ok(store)
    }
}

/// Readings that are handed in are added behind those that are there.
pub proof fn lemma_readings_grow(
    arena: Arena,
    rows: Seq<ReadingRow>,
    readings: Seq<ReadingElementView>,
)
    requires
        stored_readings(arena, rows, readings) is Some,
    ensures
        stored_readings(arena, rows, readings).unwrap().1.len() == rows.len() + readings.len(),
        stored_readings(arena, rows, readings).unwrap().1.take(rows.len() as int) == rows,
    decreases readings.len(),
{
    if readings.len() == 0 {
        assert(rows.take(rows.len() as int) =~= rows);
    } else {
        lemma_readings_grow(arena, rows, readings.drop_last());
        let before = stored_readings(arena, rows, readings.drop_last()).unwrap().1;
        let after = stored_readings(arena, rows, readings).unwrap().1;
        assert(after.take(rows.len() as int) =~= before.take(rows.len() as int));
    }
}

/// Written forms that are handed in are added behind those that are there.
pub proof fn lemma_kanjis_grow(arena: Arena, rows: Seq<KanjiRow>, kanji: Seq<KanjiElementView>)
    requires
        stored_kanjis(arena, rows, kanji) is Some,
    ensures
        stored_kanjis(arena, rows, kanji).unwrap().1.len() == rows.len() + kanji.len(),
        stored_kanjis(arena, rows, kanji).unwrap().1.take(rows.len() as int) == rows,
    decreases kanji.len(),
{
    if kanji.len() == 0 {
        assert(rows.take(rows.len() as int) =~= rows);
    } else {
        lemma_kanjis_grow(arena, rows, kanji.drop_last());
        let before = stored_kanjis(arena, rows, kanji.drop_last()).unwrap().1;
        let after = stored_kanjis(arena, rows, kanji).unwrap().1;
        assert(after.take(rows.len() as int) =~= before.take(rows.len() as int));
    }
}

/// Senses that are handed in are added behind those that are there.
pub proof fn lemma_senses_grow(arena: Arena, rows: Seq<SenseRow>, senses: Seq<SenseView>)
    requires
        stored_senses(arena, rows, senses) is Some,
    ensures
        stored_senses(arena, rows, senses).unwrap().1.len() == rows.len() + senses.len(),
        stored_senses(arena, rows, senses).unwrap().1.take(rows.len() as int) == rows,
    decreases senses.len(),
{
    if senses.len() == 0 {
        assert(rows.take(rows.len() as int) =~= rows);
    } else {
        lemma_senses_grow(arena, rows, senses.drop_last());
        let before = stored_senses(arena, rows, senses.drop_last()).unwrap().1;
        let after = stored_senses(arena, rows, senses).unwrap().1;
        assert(after.take(rows.len() as int) =~= before.take(rows.len() as int));
    }
}

/// What entries hold.
pub open spec fn entry_views(entries: Seq<Entry>) -> Seq<EntryView> {
    entries.map_values(|e: Entry| e@)
}

/// What becomes of entries that are built into an image: the image of
/// the store that has taken all of them in, one after the other; or the
/// reason why one of them was not taken in, or [`StoreError::TooLarge`]
/// for a store whose image would not fit the format.
pub open spec fn built(entries: Seq<EntryView>) -> Result<Seq<u8>, StoreError> {
    match Tables::empty().inserted_all(entries) {
        Ok(tables) => if tables.fits() {
            Ok(tables.image())
        } else {
            Err(StoreError::TooLarge)
        },
        Err(error) => Err(error),
    }
}

/// Entries of which the first ones are not taken in are not taken in as
/// a whole.
proof fn lemma_inserted_all_fails(tables: Tables, entries: Seq<EntryView>, n: int)
    requires
        0 <= n <= entries.len(),
        tables.inserted_all(entries.take(n)) is Err,
    ensures
        tables.inserted_all(entries) == tables.inserted_all(entries.take(n)),
    decreases entries.len() - n,
{
    if n == entries.len() {
        assert(entries.take(n) =~= entries);
    } else {
        assert(entries.take(n + 1).drop_last() =~= entries.take(n));
        lemma_inserted_all_fails(tables, entries, n + 1);
    }
}

/// Takes entries into a store that holds nothing, one after the other.
fn take_all(entries: &Vec<Entry<'_>>) -> (stored: Result<Store, StoreError>)
    ensures
        match stored {
            Ok(store) => store.wf() && Tables::empty().inserted_all(entry_views(entries@)) == Ok::<
                Tables,
                StoreError,
            >(store@),
            Err(error) => Tables::empty().inserted_all(entry_views(entries@)) == Err::<
                Tables,
                StoreError,
            >(error),
        },
{
    let ghost all = entry_views(entries@);
    let mut store = Store::new();
    let mut n: usize = 0;
    assert(all.take(0) =~= Seq::<EntryView>::empty());
    while n < entries.len()
        invariant
            n <= entries.len(),
            all == entry_views(entries@),
            store.wf(),
            Tables::empty().inserted_all(all.take(n as int)) == Ok::<Tables, StoreError>(store@),
        decreases entries.len() - n,
    {
        proof {
            assert(all.take(n + 1).drop_last() =~= all.take(n as int));
            assert(all.take(n + 1).last() == entries@[n as int]@);
        }
        store = match store.insert(&entries[n]) {
            Ok(store) => store,
            Err(error) => {
                proof {
                    lemma_inserted_all_fails(Tables::empty(), all, n + 1);
                }
                return Err(error);
            },
        };
        n = n + 1;
    }
    assert(all.take(entries.len() as int) =~= all);
    Ok(store)
}

/// Builds the image of entries. The same entries give the same image,
/// byte for byte.
pub fn build(entries: &Vec<Entry<'_>>) -> (image: Result<Vec<u8>, StoreError>)
    ensures
        match image {
            Ok(image) => built(entry_views(entries@)) == Ok::<Seq<u8>, StoreError>(image@),
            Err(error) => built(entry_views(entries@)) == Err::<Seq<u8>, StoreError>(error),
        },
{
    match take_all(entries) {
        Ok(store) => match store.finish() {
            Some(image) => Ok(image),
            None => Err(StoreError::TooLarge),
        },
        Err(error) => Err(error),
    }
}

} // verus!

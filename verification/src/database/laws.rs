//! What is written is what is read: the laws that tie the store to the
//! reader.
use vstd::prelude::*;
use vstd::utf8::encode_utf8;

use super::blobs::{BLOB_MAX, framable, joined, lemma_blobs_round_trip, split};
use super::character_laws::{
    character_stands, characters_stand, lemma_characters_completed, lemma_characters_parse,
    lemma_shown_characters,
};
use super::characters::{character_fits, lemma_literals_round_trip, literal_words, literals_of};
use super::container::{Contents, ImageError, lemma_container_round_trip};
use super::interner::{Arena, lemma_interned};
use super::model::{
    CHARACTERS, characters_of, COLUMNS, ENTRIES, IndexView, KANJI, kanjis_of, lies_in, LITERAL_MAP,
    opened, parsed, parsed_characters, parsed_records, PHRASE_INDEX, PRIORITY_INDEX, READINGS,
    readings_of, SENSES, senses_of, SEQUENCE_MAP, text_at, text_lies_at, texts_at,
};
use super::phrases::{
    ascending, lemma_distinct, lemma_phrases_round_trip, lemma_sorted, Phrase, phrase_words,
    phrases_lie_in, phrases_of, sorted,
};
use super::ranking::{
    bucket, BUCKETS, lemma_run_bounded, prioritized, prioritized_upto, ranked, UNRANKED,
};
use super::records::{
    entries_of, entries_words, EntryRecord, GLOSSES_MAX, kanji_of, KanjiRow,
    lemma_entries_round_trip, lemma_kanji_round_trip, lemma_reading_round_trip,
    lemma_sense_round_trip, reading_of, ReadingRow, sense_of, SenseRow, StrRef,
};
use super::store::{
    built, character_blobs, lemma_kanjis_grow, lemma_readings_grow, lemma_senses_grow,
    sequence_words, stored_kanji, stored_kanjis, stored_reading, stored_readings, stored_sense,
    stored_senses, stored_surfaces, stored_texts, surfaces_at, Tables,
};

use crate::inflection::conjugate::entry_surfaces;
use crate::jmdict::entry::{EntryView, KanjiElementView, ReadingElementView, SenseView};
use crate::kanjidic2::character::CharacterView;
use crate::text::{decoded, lemma_decoded_encoding};

verus! {

/// Whether a later arena keeps what references into an earlier one name.
pub open spec fn extends(before: Arena, after: Arena) -> bool {
    before.bytes.len() <= after.bytes.len() && forall|r: StrRef|
        before.holds(r) ==> after.holds(r) && #[trigger] after.slice(r) == before.slice(r)
}

/// Whether a reference names a text in an arena.
pub open spec fn names(arena: Arena, r: StrRef, text: Seq<char>) -> bool {
    arena.holds(r) && arena.slice(r) == encode_utf8(text)
}

/// Whether references name texts, one by one.
pub open spec fn name_all(arena: Arena, refs: Seq<StrRef>, texts: Seq<Seq<char>>) -> bool {
    refs.len() == texts.len() && forall|i: int|
        0 <= i < refs.len() ==> names(arena, #[trigger] refs[i], texts[i])
}

/// An arena that extends one that extends another extends the other.
pub proof fn lemma_extends_trans(a: Arena, b: Arena, c: Arena)
    requires
        extends(a, b),
        extends(b, c),
    ensures
        extends(a, c),
{
    assert forall|r: StrRef| a.holds(r) implies c.holds(r) && #[trigger] c.slice(r) == a.slice(
        r,
    ) by {
        assert(b.slice(r) == a.slice(r));
        assert(c.slice(r) == b.slice(r));
    }
}

/// What is named in an arena is named in an arena that extends it.
pub proof fn lemma_names_kept(before: Arena, after: Arena, r: StrRef, text: Seq<char>)
    requires
        extends(before, after),
        names(before, r, text),
    ensures
        names(after, r, text),
{
    assert(after.slice(r) == before.slice(r));
}

/// What is named in an arena is named in an arena that extends it.
pub proof fn lemma_name_all_kept(
    before: Arena,
    after: Arena,
    refs: Seq<StrRef>,
    texts: Seq<Seq<char>>,
)
    requires
        extends(before, after),
        name_all(before, refs, texts),
    ensures
        name_all(after, refs, texts),
{
    assert forall|i: int| 0 <= i < refs.len() implies names(after, #[trigger] refs[i], texts[i]) by {
        lemma_names_kept(before, after, refs[i], texts[i]);
    }
}

/// A text that is handed in is named by its reference, in an arena that
/// is sound and extends the one before.
pub proof fn lemma_stored_text(arena: Arena, text: Seq<char>)
    requires
        arena.sound(),
        arena.interned(encode_utf8(text)) is Some,
    ensures
        arena.interned(encode_utf8(text)).unwrap().0.sound(),
        extends(arena, arena.interned(encode_utf8(text)).unwrap().0),
        names(
            arena.interned(encode_utf8(text)).unwrap().0,
            arena.interned(encode_utf8(text)).unwrap().1,
            text,
        ),
{
    lemma_interned(arena, encode_utf8(text));
}

/// Texts that are handed in are named by their references, in an arena
/// that is sound and extends the one before.
pub proof fn lemma_stored_texts(arena: Arena, texts: Seq<Seq<char>>)
    requires
        arena.sound(),
        stored_texts(arena, texts) is Some,
    ensures
        stored_texts(arena, texts).unwrap().0.sound(),
        extends(arena, stored_texts(arena, texts).unwrap().0),
        name_all(stored_texts(arena, texts).unwrap().0, stored_texts(arena, texts).unwrap().1, texts),
    decreases texts.len(),
{
    if texts.len() > 0 {
        lemma_stored_texts(arena, texts.drop_last());
        let (mid, refs) = stored_texts(arena, texts.drop_last()).unwrap();
        lemma_stored_text(mid, texts.last());
        let (after, r) = mid.interned(encode_utf8(texts.last())).unwrap();
        lemma_extends_trans(arena, mid, after);
        lemma_name_all_kept(mid, after, refs, texts.drop_last());
        let all = refs.push(r);
        assert forall|i: int| 0 <= i < all.len() implies names(after, #[trigger] all[i], texts[i]) by {
            if i < refs.len() {
                assert(names(after, refs[i], texts.drop_last()[i]));
            }
        }
    }
}

/// Whether the record of a reading stands for the reading.
pub open spec fn reading_stands(arena: Arena, row: ReadingRow, reading: ReadingElementView) -> bool {
    &&& names(arena, row.text, reading.text)
    &&& row.no_kanji == reading.no_kanji
    &&& name_all(arena, row.restrict, reading.restrict)
    &&& 3 + 2 * row.restrict.len() <= BLOB_MAX
}

/// Whether the record of a written form stands for the written form.
pub open spec fn kanji_stands(arena: Arena, row: KanjiRow, kanji: KanjiElementView) -> bool {
    &&& names(arena, row.text, kanji.text)
    &&& row.priority == kanji.priority
    &&& 2 + row.priority.len() <= BLOB_MAX
}

/// Whether the record of a sense stands for the sense.
pub open spec fn sense_stands(arena: Arena, row: SenseRow, sense: SenseView) -> bool {
    &&& names(arena, row.language, sense.language)
    &&& row.pos == sense.pos.bits()
    &&& name_all(arena, row.glosses, sense.glosses)
    &&& name_all(arena, row.misc, sense.misc)
    &&& row.glosses.len() <= GLOSSES_MAX
    &&& 7 + 2 * row.glosses.len() + 2 * row.misc.len() <= BLOB_MAX
}

proof fn lemma_reading_kept(
    before: Arena,
    after: Arena,
    row: ReadingRow,
    reading: ReadingElementView,
)
    requires
        extends(before, after),
        reading_stands(before, row, reading),
    ensures
        reading_stands(after, row, reading),
{
    lemma_names_kept(before, after, row.text, reading.text);
    lemma_name_all_kept(before, after, row.restrict, reading.restrict);
}

proof fn lemma_kanji_kept(before: Arena, after: Arena, row: KanjiRow, kanji: KanjiElementView)
    requires
        extends(before, after),
        kanji_stands(before, row, kanji),
    ensures
        kanji_stands(after, row, kanji),
{
    lemma_names_kept(before, after, row.text, kanji.text);
}

proof fn lemma_sense_kept(before: Arena, after: Arena, row: SenseRow, sense: SenseView)
    requires
        extends(before, after),
        sense_stands(before, row, sense),
    ensures
        sense_stands(after, row, sense),
{
    lemma_names_kept(before, after, row.language, sense.language);
    lemma_name_all_kept(before, after, row.glosses, sense.glosses);
    lemma_name_all_kept(before, after, row.misc, sense.misc);
}

proof fn lemma_stored_reading(arena: Arena, reading: ReadingElementView)
    requires
        arena.sound(),
        stored_reading(arena, reading) is Some,
    ensures
        stored_reading(arena, reading).unwrap().0.sound(),
        extends(arena, stored_reading(arena, reading).unwrap().0),
        reading_stands(
            stored_reading(arena, reading).unwrap().0,
            stored_reading(arena, reading).unwrap().1,
            reading,
        ),
{
    lemma_stored_text(arena, reading.text);
    let (mid, text) = arena.interned(encode_utf8(reading.text)).unwrap();
    lemma_stored_texts(mid, reading.restrict);
    let (after, restrict) = stored_texts(mid, reading.restrict).unwrap();
    lemma_extends_trans(arena, mid, after);
    lemma_names_kept(mid, after, text, reading.text);
}

proof fn lemma_stored_kanji(arena: Arena, kanji: KanjiElementView)
    requires
        arena.sound(),
        stored_kanji(arena, kanji) is Some,
    ensures
        stored_kanji(arena, kanji).unwrap().0.sound(),
        extends(arena, stored_kanji(arena, kanji).unwrap().0),
        kanji_stands(
            stored_kanji(arena, kanji).unwrap().0,
            stored_kanji(arena, kanji).unwrap().1,
            kanji,
        ),
{
    lemma_stored_text(arena, kanji.text);
}

proof fn lemma_stored_sense(arena: Arena, sense: SenseView)
    requires
        arena.sound(),
        stored_sense(arena, sense) is Some,
    ensures
        stored_sense(arena, sense).unwrap().0.sound(),
        extends(arena, stored_sense(arena, sense).unwrap().0),
        sense_stands(
            stored_sense(arena, sense).unwrap().0,
            stored_sense(arena, sense).unwrap().1,
            sense,
        ),
{
    lemma_stored_text(arena, sense.language);
    let (first, language) = arena.interned(encode_utf8(sense.language)).unwrap();
    lemma_stored_texts(first, sense.glosses);
    let (second, glosses) = stored_texts(first, sense.glosses).unwrap();
    lemma_stored_texts(second, sense.misc);
    let (after, misc) = stored_texts(second, sense.misc).unwrap();
    lemma_extends_trans(first, second, after);
    lemma_extends_trans(arena, first, after);
    lemma_names_kept(first, after, language, sense.language);
    lemma_name_all_kept(second, after, glosses, sense.glosses);
}

/// Readings that are handed in are added behind the records that are
/// there, and each of their records stands for its reading.
pub proof fn lemma_stored_readings(
    arena: Arena,
    rows: Seq<ReadingRow>,
    readings: Seq<ReadingElementView>,
)
    requires
        arena.sound(),
        stored_readings(arena, rows, readings) is Some,
    ensures
        stored_readings(arena, rows, readings).unwrap().0.sound(),
        extends(arena, stored_readings(arena, rows, readings).unwrap().0),
        stored_readings(arena, rows, readings).unwrap().1.len() == rows.len() + readings.len(),
        stored_readings(arena, rows, readings).unwrap().1.take(rows.len() as int) == rows,
        forall|k: int|
            0 <= k < readings.len() ==> reading_stands(
                stored_readings(arena, rows, readings).unwrap().0,
                #[trigger] stored_readings(arena, rows, readings).unwrap().1[rows.len() + k],
                readings[k],
            ),
    decreases readings.len(),
{
    lemma_readings_grow(arena, rows, readings);
    if readings.len() > 0 {
        lemma_stored_readings(arena, rows, readings.drop_last());
        let (mid, sofar) = stored_readings(arena, rows, readings.drop_last()).unwrap();
        lemma_stored_reading(mid, readings.last());
        let (after, row) = stored_reading(mid, readings.last()).unwrap();
        lemma_extends_trans(arena, mid, after);
        let all = sofar.push(row);
        assert forall|k: int| 0 <= k < readings.len() implies reading_stands(
            after,
            #[trigger] all[rows.len() + k],
            readings[k],
        ) by {
            if k < readings.len() - 1 {
                assert(reading_stands(mid, sofar[rows.len() + k], readings.drop_last()[k]));
                lemma_reading_kept(mid, after, sofar[rows.len() + k], readings[k]);
            }
        }
    } else {
        assert forall|r: StrRef| arena.holds(r) implies arena.holds(r) && #[trigger] arena.slice(r)
            == arena.slice(r) by {}
    }
}

/// Written forms that are handed in are added behind the records that
/// are there, and each of their records stands for its written form.
pub proof fn lemma_stored_kanjis(arena: Arena, rows: Seq<KanjiRow>, kanji: Seq<KanjiElementView>)
    requires
        arena.sound(),
        stored_kanjis(arena, rows, kanji) is Some,
    ensures
        stored_kanjis(arena, rows, kanji).unwrap().0.sound(),
        extends(arena, stored_kanjis(arena, rows, kanji).unwrap().0),
        stored_kanjis(arena, rows, kanji).unwrap().1.len() == rows.len() + kanji.len(),
        stored_kanjis(arena, rows, kanji).unwrap().1.take(rows.len() as int) == rows,
        forall|k: int|
            0 <= k < kanji.len() ==> kanji_stands(
                stored_kanjis(arena, rows, kanji).unwrap().0,
                #[trigger] stored_kanjis(arena, rows, kanji).unwrap().1[rows.len() + k],
                kanji[k],
            ),
    decreases kanji.len(),
{
    lemma_kanjis_grow(arena, rows, kanji);
    if kanji.len() > 0 {
        lemma_stored_kanjis(arena, rows, kanji.drop_last());
        let (mid, sofar) = stored_kanjis(arena, rows, kanji.drop_last()).unwrap();
        lemma_stored_kanji(mid, kanji.last());
        let (after, row) = stored_kanji(mid, kanji.last()).unwrap();
        lemma_extends_trans(arena, mid, after);
        let all = sofar.push(row);
        assert forall|k: int| 0 <= k < kanji.len() implies kanji_stands(
            after,
            #[trigger] all[rows.len() + k],
            kanji[k],
        ) by {
            if k < kanji.len() - 1 {
                assert(kanji_stands(mid, sofar[rows.len() + k], kanji.drop_last()[k]));
                lemma_kanji_kept(mid, after, sofar[rows.len() + k], kanji[k]);
            }
        }
    } else {
        assert forall|r: StrRef| arena.holds(r) implies arena.holds(r) && #[trigger] arena.slice(r)
            == arena.slice(r) by {}
    }
}

/// Senses that are handed in are added behind the records that are
/// there, and each of their records stands for its sense.
pub proof fn lemma_stored_senses(arena: Arena, rows: Seq<SenseRow>, senses: Seq<SenseView>)
    requires
        arena.sound(),
        stored_senses(arena, rows, senses) is Some,
    ensures
        stored_senses(arena, rows, senses).unwrap().0.sound(),
        extends(arena, stored_senses(arena, rows, senses).unwrap().0),
        stored_senses(arena, rows, senses).unwrap().1.len() == rows.len() + senses.len(),
        stored_senses(arena, rows, senses).unwrap().1.take(rows.len() as int) == rows,
        forall|k: int|
            0 <= k < senses.len() ==> sense_stands(
                stored_senses(arena, rows, senses).unwrap().0,
                #[trigger] stored_senses(arena, rows, senses).unwrap().1[rows.len() + k],
                senses[k],
            ),
    decreases senses.len(),
{
    lemma_senses_grow(arena, rows, senses);
    if senses.len() > 0 {
        lemma_stored_senses(arena, rows, senses.drop_last());
        let (mid, sofar) = stored_senses(arena, rows, senses.drop_last()).unwrap();
        lemma_stored_sense(mid, senses.last());
        let (after, row) = stored_sense(mid, senses.last()).unwrap();
        lemma_extends_trans(arena, mid, after);
        let all = sofar.push(row);
        assert forall|k: int| 0 <= k < senses.len() implies sense_stands(
            after,
            #[trigger] all[rows.len() + k],
            senses[k],
        ) by {
            if k < senses.len() - 1 {
                assert(sense_stands(mid, sofar[rows.len() + k], senses.drop_last()[k]));
                lemma_sense_kept(mid, after, sofar[rows.len() + k], senses[k]);
            }
        }
    } else {
        assert forall|r: StrRef| arena.holds(r) implies arena.holds(r) && #[trigger] arena.slice(r)
            == arena.slice(r) by {}
    }
}

/// Whether a reference names some text in an arena.
pub open spec fn is_text(arena: Arena, r: StrRef) -> bool {
    arena.holds(r) && decoded(arena.slice(r)) is Some
}

/// Whether each reference names some text in an arena.
pub open spec fn are_text(arena: Arena, refs: Seq<StrRef>) -> bool {
    forall|i: int| 0 <= i < refs.len() ==> is_text(arena, #[trigger] refs[i])
}

/// Whether the references of a reading's record name texts.
pub open spec fn reading_sound(arena: Arena, row: ReadingRow) -> bool {
    is_text(arena, row.text) && are_text(arena, row.restrict)
}

/// Whether the reference of a written form's record names a text.
pub open spec fn kanji_sound(arena: Arena, row: KanjiRow) -> bool {
    is_text(arena, row.text)
}

/// Whether the references of a sense's record name texts.
pub open spec fn sense_sound(arena: Arena, row: SenseRow) -> bool {
    is_text(arena, row.language) && are_text(arena, row.glosses) && are_text(arena, row.misc)
}

pub proof fn lemma_named_is_text(arena: Arena, r: StrRef, text: Seq<char>)
    requires
        names(arena, r, text),
    ensures
        is_text(arena, r),
        decoded(arena.slice(r)) == Some(text),
{
    lemma_decoded_encoding(text);
}

proof fn lemma_named_are_text(arena: Arena, refs: Seq<StrRef>, texts: Seq<Seq<char>>)
    requires
        name_all(arena, refs, texts),
    ensures
        are_text(arena, refs),
{
    assert forall|i: int| 0 <= i < refs.len() implies is_text(arena, #[trigger] refs[i]) by {
        lemma_named_is_text(arena, refs[i], texts[i]);
    }
}

proof fn lemma_text_kept(before: Arena, after: Arena, r: StrRef)
    requires
        extends(before, after),
        is_text(before, r),
    ensures
        is_text(after, r),
{
    assert(after.slice(r) == before.slice(r));
}

proof fn lemma_texts_kept(before: Arena, after: Arena, refs: Seq<StrRef>)
    requires
        extends(before, after),
        are_text(before, refs),
    ensures
        are_text(after, refs),
{
    assert forall|i: int| 0 <= i < refs.len() implies is_text(after, #[trigger] refs[i]) by {
        lemma_text_kept(before, after, refs[i]);
    }
}

/// Whether the record of an entry stands for the entry: it has its
/// sequence number, and its runs lie in their columns and hold records
/// that stand for the entry's readings, written forms and senses.
pub open spec fn entry_stands(tables: Tables, record: EntryRecord, entry: EntryView) -> bool {
    &&& record.sequence_number == entry.sequence_number
    &&& record.readings.count == entry.reading_elements.len()
    &&& record.readings.start + record.readings.count <= tables.readings.len()
    &&& forall|k: int|
        0 <= k < record.readings.count ==> reading_stands(
            tables.arena,
            #[trigger] tables.readings[record.readings.start + k],
            entry.reading_elements[k],
        )
    &&& record.kanji.count == entry.kanji_elements.len()
    &&& record.kanji.start + record.kanji.count <= tables.kanji.len()
    &&& forall|k: int|
        0 <= k < record.kanji.count ==> kanji_stands(
            tables.arena,
            #[trigger] tables.kanji[record.kanji.start + k],
            entry.kanji_elements[k],
        )
    &&& record.senses.count == entry.senses.len()
    &&& record.senses.start + record.senses.count <= tables.senses.len()
    &&& forall|k: int|
        0 <= k < record.senses.count ==> sense_stands(
            tables.arena,
            #[trigger] tables.senses[record.senses.start + k],
            entry.senses[k],
        )
}

/// The inflected surface forms of the first `n` entries, each with the
/// position of its entry.
pub open spec fn all_surfaces(entries: Seq<EntryView>, n: int) -> Seq<(u32, Seq<char>)>
    decreases n,
{
    if n <= 0 {
        Seq::empty()
    } else {
        all_surfaces(entries, n - 1) + surfaces_at((n - 1) as u32, entry_surfaces(entries[n - 1]))
    }
}

/// The surface forms of entries that were added later are those of the
/// entries before them.
proof fn lemma_all_surfaces_pushed(entries: Seq<EntryView>, entry: EntryView, n: int)
    requires
        0 <= n <= entries.len(),
    ensures
        all_surfaces(entries.push(entry), n) == all_surfaces(entries, n),
    decreases n,
{
    if n > 0 {
        lemma_all_surfaces_pushed(entries, entry, n - 1);
        assert(entries.push(entry)[n - 1] == entries[n - 1]);
    }
}

/// Every surface form belongs to one of the entries, and is one of its
/// inflected surface forms.
pub proof fn lemma_all_surfaces(entries: Seq<EntryView>, n: int)
    requires
        0 <= n <= entries.len(),
        entries.len() <= u32::MAX,
    ensures
        forall|i: int|
            0 <= i < all_surfaces(entries, n).len() ==> (#[trigger] all_surfaces(entries, n)[i]).0
                < n,
        forall|at: int, j: int|
            0 <= at < n && 0 <= j < entry_surfaces(entries[at]).len() ==> all_surfaces(
                entries,
                n,
            ).contains((at as u32, #[trigger] entry_surfaces(entries[at])[j])),
    decreases n,
{
    if n > 0 {
        lemma_all_surfaces(entries, n - 1);
        let before = all_surfaces(entries, n - 1);
        let added = surfaces_at((n - 1) as u32, entry_surfaces(entries[n - 1]));
        let all = all_surfaces(entries, n);
        assert forall|i: int| 0 <= i < all.len() implies (#[trigger] all[i]).0 < n by {
            if i < before.len() {
                assert(all[i] == before[i]);
            } else {
                assert(all[i] == added[i - before.len()]);
            }
        }
        assert forall|at: int, j: int|
            0 <= at < n && 0 <= j < entry_surfaces(entries[at]).len() implies all.contains(
            (at as u32, #[trigger] entry_surfaces(entries[at])[j]),
        ) by {
            let x = (at as u32, entry_surfaces(entries[at])[j]);
            if at < n - 1 {
                assert(before.contains(x));
                let k = choose|k: int| 0 <= k < before.len() && before[k] == x;
                assert(all[k] == x);
            } else {
                assert(added[j] == x);
                assert(all[before.len() + j] == x);
            }
        }
    }
}

/// Whether a store stands for entries: its arena is sound, every record
/// names texts, the sequence numbers rise, the record of each entry
/// stands for the entry, and the surface forms are the inflected surface
/// forms of the entries.
pub open spec fn stands_for(tables: Tables, entries: Seq<EntryView>) -> bool {
    &&& tables.arena.sound()
    &&& tables.encodable()
    &&& tables.entries.len() == entries.len()
    &&& tables.surfaces == all_surfaces(entries, entries.len() as int)
    &&& forall|i: int|
        0 <= i < tables.readings.len() ==> reading_sound(
            tables.arena,
            #[trigger] tables.readings[i],
        )
    &&& forall|i: int|
        0 <= i < tables.kanji.len() ==> kanji_sound(tables.arena, #[trigger] tables.kanji[i])
    &&& forall|i: int|
        0 <= i < tables.senses.len() ==> sense_sound(tables.arena, #[trigger] tables.senses[i])
    &&& forall|i: int, j: int|
        0 <= i < j < tables.entries.len() ==> (#[trigger] tables.entries[i]).sequence_number < (
        #[trigger] tables.entries[j]).sequence_number
    &&& forall|i: int|
        0 <= i < entries.len() ==> entry_stands(tables, #[trigger] tables.entries[i], entries[i])
}

/// The record of an entry that stands for it in a store stands for it in
/// a store that has grown.
proof fn lemma_entry_kept(before: Tables, after: Tables, record: EntryRecord, entry: EntryView)
    requires
        entry_stands(before, record, entry),
        extends(before.arena, after.arena),
        before.readings.len() <= after.readings.len(),
        after.readings.take(before.readings.len() as int) == before.readings,
        before.kanji.len() <= after.kanji.len(),
        after.kanji.take(before.kanji.len() as int) == before.kanji,
        before.senses.len() <= after.senses.len(),
        after.senses.take(before.senses.len() as int) == before.senses,
    ensures
        entry_stands(after, record, entry),
{
    assert forall|k: int| 0 <= k < record.readings.count implies reading_stands(
        after.arena,
        #[trigger] after.readings[record.readings.start + k],
        entry.reading_elements[k],
    ) by {
        let at = record.readings.start + k;
        assert(after.readings.take(before.readings.len() as int)[at] == after.readings[at]);
        lemma_reading_kept(before.arena, after.arena, before.readings[at], entry.reading_elements[k]);
    }
    assert forall|k: int| 0 <= k < record.kanji.count implies kanji_stands(
        after.arena,
        #[trigger] after.kanji[record.kanji.start + k],
        entry.kanji_elements[k],
    ) by {
        let at = record.kanji.start + k;
        assert(after.kanji.take(before.kanji.len() as int)[at] == after.kanji[at]);
        lemma_kanji_kept(before.arena, after.arena, before.kanji[at], entry.kanji_elements[k]);
    }
    assert forall|k: int| 0 <= k < record.senses.count implies sense_stands(
        after.arena,
        #[trigger] after.senses[record.senses.start + k],
        entry.senses[k],
    ) by {
        let at = record.senses.start + k;
        assert(after.senses.take(before.senses.len() as int)[at] == after.senses[at]);
        lemma_sense_kept(before.arena, after.arena, before.senses[at], entry.senses[k]);
    }
}

/// A store that stands for entries and takes another one in stands for
/// all of them.
pub proof fn lemma_inserted_stands(tables: Tables, entries: Seq<EntryView>, entry: EntryView)
    requires
        stands_for(tables, entries),
        tables.inserted(entry) is Ok,
    ensures
        stands_for(tables.inserted(entry).unwrap(), entries.push(entry)),
        extends(tables.arena, tables.inserted(entry).unwrap().arena),
{
    let after = tables.inserted(entry).unwrap();
    let a0 = tables.arena;
    lemma_stored_readings(a0, tables.readings, entry.reading_elements);
    let (a1, readings) = stored_readings(a0, tables.readings, entry.reading_elements).unwrap();
    lemma_stored_kanjis(a1, tables.kanji, entry.kanji_elements);
    let (a2, kanji) = stored_kanjis(a1, tables.kanji, entry.kanji_elements).unwrap();
    lemma_stored_senses(a2, tables.senses, entry.senses);
    let (a3, senses) = stored_senses(a2, tables.senses, entry.senses).unwrap();
    lemma_extends_trans(a0, a1, a2);
    lemma_extends_trans(a0, a2, a3);
    lemma_extends_trans(a1, a2, a3);
    let all = entries.push(entry);
    let record = after.entries.last();
    assert(after.surfaces == all_surfaces(all, all.len() as int)) by {
        lemma_all_surfaces_pushed(entries, entry, entries.len() as int);
    }
    assert(after.arena == a3 && after.readings == readings && after.kanji == kanji && after.senses
        == senses);
    assert forall|i: int| 0 <= i < after.readings.len() implies reading_sound(
        a3,
        #[trigger] after.readings[i],
    ) by {
        if i < tables.readings.len() {
            assert(readings.take(tables.readings.len() as int)[i] == readings[i]);
            let row = tables.readings[i];
            assert(reading_sound(a0, row));
            lemma_text_kept(a0, a3, row.text);
            lemma_texts_kept(a0, a3, row.restrict);
        } else {
            let k = i - tables.readings.len();
            assert(reading_stands(a1, readings[tables.readings.len() + k], entry.reading_elements[k]));
            lemma_reading_kept(a1, a3, readings[i], entry.reading_elements[k]);
            lemma_named_is_text(a3, readings[i].text, entry.reading_elements[k].text);
            lemma_named_are_text(a3, readings[i].restrict, entry.reading_elements[k].restrict);
        }
    }
    assert forall|i: int| 0 <= i < after.kanji.len() implies kanji_sound(
        a3,
        #[trigger] after.kanji[i],
    ) by {
        if i < tables.kanji.len() {
            assert(kanji.take(tables.kanji.len() as int)[i] == kanji[i]);
            let row = tables.kanji[i];
            assert(kanji_sound(a0, row));
            lemma_text_kept(a0, a3, row.text);
        } else {
            let k = i - tables.kanji.len();
            assert(kanji_stands(a2, kanji[tables.kanji.len() + k], entry.kanji_elements[k]));
            lemma_kanji_kept(a2, a3, kanji[i], entry.kanji_elements[k]);
            lemma_named_is_text(a3, kanji[i].text, entry.kanji_elements[k].text);
        }
    }
    assert forall|i: int| 0 <= i < after.senses.len() implies sense_sound(
        a3,
        #[trigger] after.senses[i],
    ) by {
        if i < tables.senses.len() {
            assert(senses.take(tables.senses.len() as int)[i] == senses[i]);
            let row = tables.senses[i];
            assert(sense_sound(a0, row));
            lemma_text_kept(a0, a3, row.language);
            lemma_texts_kept(a0, a3, row.glosses);
            lemma_texts_kept(a0, a3, row.misc);
        } else {
            let k = i - tables.senses.len();
            assert(sense_stands(a3, senses[tables.senses.len() + k], entry.senses[k]));
            lemma_named_is_text(a3, senses[i].language, entry.senses[k].language);
            lemma_named_are_text(a3, senses[i].glosses, entry.senses[k].glosses);
            lemma_named_are_text(a3, senses[i].misc, entry.senses[k].misc);
        }
    }
    assert forall|i: int, j: int| 0 <= i < j < after.entries.len() implies (
    #[trigger] after.entries[i]).sequence_number < (
    #[trigger] after.entries[j]).sequence_number by {
        if j == after.entries.len() - 1 {
            if i < tables.entries.len() - 1 {
                assert(tables.entries[i].sequence_number < tables.entries[tables.entries.len()
                    - 1].sequence_number);
            }
        }
    }
    assert forall|i: int| 0 <= i < all.len() implies entry_stands(
        after,
        #[trigger] after.entries[i],
        all[i],
    ) by {
        if i < entries.len() {
            assert(entry_stands(tables, tables.entries[i], entries[i]));
            lemma_entry_kept(tables, after, tables.entries[i], entries[i]);
        } else {
            assert forall|k: int| 0 <= k < record.readings.count implies reading_stands(
                a3,
                #[trigger] readings[record.readings.start + k],
                entry.reading_elements[k],
            ) by {
                assert(reading_stands(
                    a1,
                    readings[tables.readings.len() + k],
                    entry.reading_elements[k],
                ));
                lemma_reading_kept(
                    a1,
                    a3,
                    readings[tables.readings.len() + k],
                    entry.reading_elements[k],
                );
            }
            assert forall|k: int| 0 <= k < record.kanji.count implies kanji_stands(
                a3,
                #[trigger] kanji[record.kanji.start + k],
                entry.kanji_elements[k],
            ) by {
                assert(kanji_stands(a2, kanji[tables.kanji.len() + k], entry.kanji_elements[k]));
                lemma_kanji_kept(a2, a3, kanji[tables.kanji.len() + k], entry.kanji_elements[k]);
            }
            assert forall|k: int| 0 <= k < record.senses.count implies sense_stands(
                a3,
                #[trigger] senses[record.senses.start + k],
                entry.senses[k],
            ) by {
                assert(sense_stands(a3, senses[tables.senses.len() + k], entry.senses[k]));
            }
        }
    }
    assert(after.encodable()) by {
        assert forall|i: int| 0 <= i < after.readings.len() implies 3 + 2 * (
        #[trigger] after.readings[i]).restrict.len() <= BLOB_MAX by {
            if i < tables.readings.len() {
                assert(readings.take(tables.readings.len() as int)[i] == readings[i]);
            } else {
                let k = i - tables.readings.len();
                assert(reading_stands(
                    a1,
                    readings[tables.readings.len() + k],
                    entry.reading_elements[k],
                ));
            }
        }
        assert forall|i: int| 0 <= i < after.kanji.len() implies 2 + (
        #[trigger] after.kanji[i]).priority.len() <= BLOB_MAX by {
            if i < tables.kanji.len() {
                assert(kanji.take(tables.kanji.len() as int)[i] == kanji[i]);
            } else {
                let k = i - tables.kanji.len();
                assert(kanji_stands(a2, kanji[tables.kanji.len() + k], entry.kanji_elements[k]));
            }
        }
        assert forall|i: int| 0 <= i < after.senses.len() implies (
        #[trigger] after.senses[i]).glosses.len() <= GLOSSES_MAX && 7 + 2
            * after.senses[i].glosses.len() + 2 * after.senses[i].misc.len() <= BLOB_MAX by {
            if i < tables.senses.len() {
                assert(senses.take(tables.senses.len() as int)[i] == senses[i]);
            } else {
                let k = i - tables.senses.len();
                assert(sense_stands(a3, senses[tables.senses.len() + k], entry.senses[k]));
            }
        }
    }
}

/// A store that has taken entries in, one after the other, stands for
/// them.
pub proof fn lemma_inserted_all_stands(entries: Seq<EntryView>)
    requires
        Tables::empty().inserted_all(entries) is Ok,
    ensures
        stands_for(Tables::empty().inserted_all(entries).unwrap(), entries),
    decreases entries.len(),
{
    if entries.len() == 0 {
        assert(Tables::empty().surfaces =~= all_surfaces(entries, 0));
    } else {
        lemma_inserted_all_stands(entries.drop_last());
        let before = Tables::empty().inserted_all(entries.drop_last()).unwrap();
        lemma_inserted_stands(before, entries.drop_last(), entries.last());
        assert(entries.drop_last().push(entries.last()) =~= entries);
    }
}

/// What the reader sees of a store.
pub open spec fn shown(tables: Tables) -> IndexView {
    IndexView {
        strings: tables.strings(),
        entries: tables.entries,
        readings: tables.readings,
        kanji: tables.kanji,
        senses: tables.senses,
        sequence_map: sequence_words(tables.entries),
        phrases: tables.phrases(),
        priorities: prioritized(tables.buckets()),
        characters: tables.characters,
        literals: tables.literals,
    }
}

proof fn lemma_texts_read(arena: Arena, refs: Seq<StrRef>, texts: Seq<Seq<char>>)
    requires
        name_all(arena, refs, texts),
    ensures
        texts_at(arena.bytes, refs) == texts,
{
    assert forall|i: int| 0 <= i < refs.len() implies text_at(arena.bytes, refs[i])
        == texts[i] by {
        lemma_named_is_text(arena, refs[i], texts[i]);
    }
    assert(texts_at(arena.bytes, refs) =~= texts);
}

/// The reader sees the entries that a store stands for.
pub proof fn lemma_shown_entries(tables: Tables, entries: Seq<EntryView>)
    requires
        stands_for(tables.finished(), entries),
    ensures
        shown(tables).entries.len() == entries.len(),
        forall|i: int| 0 <= i < entries.len() ==> #[trigger] shown(tables).entry(i) == entries[i],
{
    let view = shown(tables);
    let arena = tables.finished().arena;
    let tables = tables.finished();
    assert forall|i: int| 0 <= i < entries.len() implies #[trigger] view.entry(i) == entries[i] by {
        let record = tables.entries[i];
        let entry = entries[i];
        assert(entry_stands(tables, record, entry));
        let read = view.entry(i);
        assert(read.reading_elements.len() == entry.reading_elements.len());
        assert forall|k: int| 0 <= k < record.readings.count implies read.reading_elements[k]
            == entry.reading_elements[k] by {
            let row = tables.readings[record.readings.start + k];
            assert(reading_stands(arena, row, entry.reading_elements[k]));
            lemma_named_is_text(arena, row.text, entry.reading_elements[k].text);
            lemma_texts_read(arena, row.restrict, entry.reading_elements[k].restrict);
        }
        assert(read.reading_elements =~= entry.reading_elements);
        assert forall|k: int| 0 <= k < record.kanji.count implies read.kanji_elements[k]
            == entry.kanji_elements[k] by {
            let row = tables.kanji[record.kanji.start + k];
            assert(kanji_stands(arena, row, entry.kanji_elements[k]));
            lemma_named_is_text(arena, row.text, entry.kanji_elements[k].text);
        }
        assert(read.kanji_elements =~= entry.kanji_elements);
        assert forall|k: int| 0 <= k < record.senses.count implies read.senses[k]
            == entry.senses[k] by {
            let row = tables.senses[record.senses.start + k];
            assert(sense_stands(arena, row, entry.senses[k]));
            lemma_named_is_text(arena, row.language, entry.senses[k].language);
            lemma_texts_read(arena, row.glosses, entry.senses[k].glosses);
            lemma_texts_read(arena, row.misc, entry.senses[k].misc);
            entry.senses[k].pos.lemma_of_bits();
        }
        assert(read.senses =~= entry.senses);
    }
}

/// The column of readings is read as the readings of the store.
proof fn lemma_readings_parse(tables: Tables)
    requires
        tables.encodable(),
    ensures
        split(joined(tables.reading_blobs())) is Some,
        readings_of(
            split(joined(tables.reading_blobs())).unwrap(),
        ) == Some(tables.readings),
{
    let readings = tables.reading_blobs();
    assert(framable(readings)) by {
        assert forall|i: int| 0 <= i < readings.len() implies (#[trigger] readings[i]).len()
            <= BLOB_MAX by {
            assert(3 + 2 * tables.readings[i].restrict.len() <= BLOB_MAX);
        }
    }
    lemma_blobs_round_trip(readings);
    assert forall|i: int| 0 <= i < readings.len() implies (#[trigger] reading_of(readings[i]))
        == Some(tables.readings[i]) by {
        lemma_reading_round_trip(tables.readings[i]);
    }
    assert(readings_of(readings).unwrap() =~= tables.readings);
}

/// The column of written forms is read as the written forms of the store.
proof fn lemma_kanji_parse(tables: Tables)
    requires
        tables.encodable(),
    ensures
        split(joined(tables.kanji_blobs())) is Some,
        kanjis_of(split(joined(tables.kanji_blobs())).unwrap())
            == Some(tables.kanji),
{
    let kanji = tables.kanji_blobs();
    assert(framable(kanji)) by {
        assert forall|i: int| 0 <= i < kanji.len() implies (#[trigger] kanji[i]).len()
            <= BLOB_MAX by {
            assert(2 + tables.kanji[i].priority.len() <= BLOB_MAX);
        }
    }
    lemma_blobs_round_trip(kanji);
    assert forall|i: int| 0 <= i < kanji.len() implies (#[trigger] kanji_of(kanji[i])) == Some(
        tables.kanji[i],
    ) by {
        lemma_kanji_round_trip(tables.kanji[i]);
    }
    assert(kanjis_of(kanji).unwrap() =~= tables.kanji);
}

/// The column of senses is read as the senses of the store.
proof fn lemma_senses_parse(tables: Tables)
    requires
        tables.encodable(),
    ensures
        split(joined(tables.sense_blobs())) is Some,
        senses_of(split(joined(tables.sense_blobs())).unwrap())
            == Some(tables.senses),
{
    let senses = tables.sense_blobs();
    assert(framable(senses)) by {
        assert forall|i: int| 0 <= i < senses.len() implies (#[trigger] senses[i]).len()
            <= BLOB_MAX by {
            assert(7 + 2 * tables.senses[i].glosses.len() + 2 * tables.senses[i].misc.len()
                <= BLOB_MAX);
        }
    }
    lemma_blobs_round_trip(senses);
    assert forall|i: int| 0 <= i < senses.len() implies (#[trigger] sense_of(senses[i])) == Some(
        tables.senses[i],
    ) by {
        lemma_sense_round_trip(tables.senses[i]);
    }
    assert(senses_of(senses).unwrap() =~= tables.senses);
}

/// Each column of a store lies at its position.
proof fn lemma_columns(tables: Tables)
    ensures
        tables.columns().len() == COLUMNS,
        tables.columns()[ENTRIES as int] == entries_words(tables.entries),
        tables.columns()[READINGS as int] == joined(tables.reading_blobs()),
        tables.columns()[KANJI as int] == joined(tables.kanji_blobs()),
        tables.columns()[SENSES as int] == joined(tables.sense_blobs()),
        tables.columns()[CHARACTERS as int] == joined(character_blobs(tables.characters)),
        tables.columns()[LITERAL_MAP as int] == literal_words(tables.literals),
        tables.columns()[SEQUENCE_MAP as int] == sequence_words(tables.entries),
        tables.columns()[PHRASE_INDEX as int] == phrase_words(tables.phrases()),
        tables.columns()[PRIORITY_INDEX as int] == prioritized(tables.buckets()),
{
}

/// Columns that hold the records of a store are read as those records.
proof fn lemma_parsed(contents: Contents, tables: Tables)
    requires
        contents.strings == tables.strings(),
        entries_of(contents.columns[ENTRIES as int]) == Some(tables.entries),
        split(contents.columns[READINGS as int]) is Some,
        readings_of(split(contents.columns[READINGS as int]).unwrap()) == Some(tables.readings),
        split(contents.columns[KANJI as int]) is Some,
        kanjis_of(split(contents.columns[KANJI as int]).unwrap()) == Some(tables.kanji),
        split(contents.columns[SENSES as int]) is Some,
        senses_of(split(contents.columns[SENSES as int]).unwrap()) == Some(tables.senses),
        split(contents.columns[CHARACTERS as int]) is Some,
        characters_of(split(contents.columns[CHARACTERS as int]).unwrap()) == Some(
            tables.characters,
        ),
        literals_of(contents.columns[LITERAL_MAP as int]) == Some(tables.literals),
        phrases_of(contents.columns[PHRASE_INDEX as int]) == Some(tables.phrases()),
        contents.columns[SEQUENCE_MAP as int] == sequence_words(tables.entries),
        contents.columns[PRIORITY_INDEX as int] == prioritized(tables.buckets()),
    ensures
        parsed(contents) == Some(shown(tables)),
{
    assert(parsed_records(contents) == Some(
        (tables.entries, tables.readings, tables.kanji, tables.senses),
    ));
    assert(parsed_characters(contents) == Some((tables.characters, tables.literals)));
}

/// The columns of a store are read as the records of the store.
proof fn lemma_columns_parse(tables: Tables)
    requires
        tables.encodable(),
        forall|i: int|
            0 <= i < tables.characters.len() ==> character_fits(#[trigger] tables.characters[i]),
    ensures
        parsed(Contents { strings: tables.strings(), columns: tables.columns() }) == Some(
            shown(tables),
        ),
{
    let contents = Contents { strings: tables.strings(), columns: tables.columns() };
    lemma_columns(tables);
    lemma_entries_round_trip(tables.entries);
    lemma_readings_parse(tables);
    lemma_kanji_parse(tables);
    lemma_senses_parse(tables);
    lemma_characters_parse(tables.characters);
    lemma_literals_round_trip(tables.literals);
    lemma_phrases_round_trip(tables.phrases());
    lemma_parsed(contents, tables);
}

/// Surface forms that are handed in are named by the references of
/// their phrases, in an arena that is sound and extends the one before.
pub proof fn lemma_stored_surfaces(arena: Arena, surfaces: Seq<(u32, Seq<char>)>)
    requires
        arena.sound(),
        stored_surfaces(arena, surfaces) is Some,
    ensures
        stored_surfaces(arena, surfaces).unwrap().0.sound(),
        extends(arena, stored_surfaces(arena, surfaces).unwrap().0),
        stored_surfaces(arena, surfaces).unwrap().1.len() == surfaces.len(),
        forall|i: int|
            0 <= i < surfaces.len() ==> names(
                stored_surfaces(arena, surfaces).unwrap().0,
                (#[trigger] stored_surfaces(arena, surfaces).unwrap().1[i]).text,
                surfaces[i].1,
            ) && stored_surfaces(arena, surfaces).unwrap().1[i].entry == surfaces[i].0,
    decreases surfaces.len(),
{
    if surfaces.len() > 0 {
        lemma_stored_surfaces(arena, surfaces.drop_last());
        let (mid, phrases) = stored_surfaces(arena, surfaces.drop_last()).unwrap();
        lemma_stored_text(mid, surfaces.last().1);
        let (after, r) = mid.interned(encode_utf8(surfaces.last().1)).unwrap();
        lemma_extends_trans(arena, mid, after);
        let all = phrases.push(Phrase { text: r, entry: surfaces.last().0 });
        assert forall|i: int| 0 <= i < surfaces.len() implies names(
            after,
            (#[trigger] all[i]).text,
            surfaces[i].1,
        ) && all[i].entry == surfaces[i].0 by {
            if i < phrases.len() {
                assert(names(mid, phrases[i].text, surfaces.drop_last()[i].1));
                lemma_names_kept(mid, after, phrases[i].text, surfaces[i].1);
            }
        }
    } else {
        assert forall|r: StrRef| arena.holds(r) implies arena.holds(r) && #[trigger] arena.slice(r)
            == arena.slice(r) by {}
    }
}

/// A store that stands for entries stands for them with an arena that
/// extends its own.
pub proof fn lemma_stands_extended(tables: Tables, entries: Seq<EntryView>, later: Arena)
    requires
        stands_for(tables, entries),
        later.sound(),
        extends(tables.arena, later),
    ensures
        stands_for(Tables { arena: later, ..tables }, entries),
{
    let after = Tables { arena: later, ..tables };
    let arena = tables.arena;
    assert forall|i: int| 0 <= i < after.readings.len() implies reading_sound(
        later,
        #[trigger] after.readings[i],
    ) by {
        let row = tables.readings[i];
        assert(reading_sound(arena, row));
        lemma_text_kept(arena, later, row.text);
        lemma_texts_kept(arena, later, row.restrict);
    }
    assert forall|i: int| 0 <= i < after.kanji.len() implies kanji_sound(
        later,
        #[trigger] after.kanji[i],
    ) by {
        let row = tables.kanji[i];
        assert(kanji_sound(arena, row));
        lemma_text_kept(arena, later, row.text);
    }
    assert forall|i: int| 0 <= i < after.senses.len() implies sense_sound(
        later,
        #[trigger] after.senses[i],
    ) by {
        let row = tables.senses[i];
        assert(sense_sound(arena, row));
        lemma_text_kept(arena, later, row.language);
        lemma_texts_kept(arena, later, row.glosses);
        lemma_texts_kept(arena, later, row.misc);
    }
    assert forall|i: int| 0 <= i < entries.len() implies entry_stands(
        after,
        #[trigger] after.entries[i],
        entries[i],
    ) by {
        assert(entry_stands(tables, tables.entries[i], entries[i]));
        assert(tables.readings.take(tables.readings.len() as int) =~= tables.readings);
        assert(tables.kanji.take(tables.kanji.len() as int) =~= tables.kanji);
        assert(tables.senses.take(tables.senses.len() as int) =~= tables.senses);
        lemma_entry_kept(tables, after, tables.entries[i], entries[i]);
    }
}

/// A store that stands for entries stands for them after it has taken
/// a character in: in what it holds of entries, only its arena has
/// changed, and that extends the one before.
pub proof fn lemma_stands_same(tables: Tables, after: Tables, entries: Seq<EntryView>)
    requires
        stands_for(tables, entries),
        after.arena.sound(),
        extends(tables.arena, after.arena),
        after.entries == tables.entries,
        after.readings == tables.readings,
        after.kanji == tables.kanji,
        after.senses == tables.senses,
        after.surfaces == tables.surfaces,
    ensures
        stands_for(after, entries),
{
    let mid = Tables { arena: after.arena, ..tables };
    lemma_stands_extended(tables, entries, after.arena);
    assert forall|i: int| 0 <= i < entries.len() implies entry_stands(
        after,
        #[trigger] after.entries[i],
        entries[i],
    ) by {
        assert(entry_stands(mid, mid.entries[i], entries[i]));
    }
}

/// A store that stands for entries stands for them when its arena is
/// complete, and the phrases of its inflected surface forms lie in the
/// arena.
pub proof fn lemma_completed_stands(tables: Tables, entries: Seq<EntryView>)
    requires
        stands_for(tables, entries),
        tables.completed() is Some,
    ensures
        stands_for(tables.finished(), entries),
        phrases_lie_in(tables.strings(), tables.completed().unwrap().1),
{
    lemma_stored_surfaces(tables.arena, tables.surfaces);
    lemma_stands_extended(tables, entries, tables.completed().unwrap().0);
    let (arena, phrases) = tables.completed().unwrap();
    assert(tables.finished() == Tables { arena, ..tables });
    assert forall|i: int| 0 <= i < phrases.len() implies lies_in(
        tables.strings(),
        (#[trigger] phrases[i]).text,
    ) by {
        assert(names(arena, phrases[i].text, tables.surfaces[i].1));
    }
}

/// The readings and written forms of a store are the same whatever its
/// arena.
pub proof fn lemma_forms_same(tables: Tables, other: Tables, n: int)
    requires
        tables.entries == other.entries,
        tables.readings == other.readings,
        tables.kanji == other.kanji,
    ensures
        tables.forms_upto(n) == other.forms_upto(n),
    decreases n,
{
    if n > 0 {
        lemma_forms_same(tables, other, n - 1);
        assert(tables.entry_forms(n - 1) =~= other.entry_forms(n - 1));
    }
}

/// Every reading and written form of a store that stands for entries
/// names text, and belongs to an entry of the store.
pub proof fn lemma_forms_sound(tables: Tables, entries: Seq<EntryView>, n: int)
    requires
        stands_for(tables, entries),
        0 <= n <= tables.entries.len(),
    ensures
        forall|x: Phrase| #[trigger]
            tables.forms_upto(n).contains(x) ==> is_text(tables.arena, x.text) && x.entry < n,
    decreases n,
{
    if n > 0 {
        lemma_forms_sound(tables, entries, n - 1);
        let before = tables.forms_upto(n - 1);
        let added = tables.entry_forms(n - 1);
        let record = tables.entries[n - 1];
        assert(entry_stands(tables, record, entries[n - 1]));
        assert forall|x: Phrase| #[trigger] tables.forms_upto(n).contains(x) implies is_text(
            tables.arena,
            x.text,
        ) && x.entry < n by {
            let all = tables.forms_upto(n);
            let i = choose|i: int| 0 <= i < all.len() && all[i] == x;
            if i < before.len() {
                assert(before[i] == x);
                assert(before.contains(x));
            } else {
                let k = i - before.len();
                assert(added[k] == x);
                if k < record.readings.count {
                    assert(reading_sound(tables.arena, tables.readings[record.readings.start + k]));
                } else {
                    let j = k - record.readings.count;
                    assert(kanji_sound(tables.arena, tables.kanji[record.kanji.start + j]));
                }
            }
        }
    }
}

/// Every phrase of a store that stands for entries names text in the
/// strings of the image, and belongs to an entry of the store.
pub proof fn lemma_phrases_sound(tables: Tables, entries: Seq<EntryView>)
    requires
        stands_for(tables, entries),
        tables.completed() is Some,
    ensures
        ascending(tables.strings(), tables.phrases()),
        forall|x: Phrase| #[trigger]
            tables.phrases().contains(x) ==> is_text(tables.finished().arena, x.text) && x.entry
                < tables.entries.len(),
{
    let n = tables.entries.len() as int;
    let full = tables.finished();
    let (arena, inflected) = tables.completed().unwrap();
    lemma_completed_stands(tables, entries);
    lemma_stored_surfaces(tables.arena, tables.surfaces);
    lemma_forms_sound(full, entries, n);
    lemma_forms_same(tables, full, n);
    lemma_all_surfaces(entries, n);
    let listed = tables.forms_upto(n);
    let all = listed + inflected;
    lemma_sorted(tables.strings(), all);
    lemma_distinct(tables.strings(), sorted(tables.strings(), all));
    assert forall|x: Phrase| #[trigger] tables.phrases().contains(x) implies is_text(
        full.arena,
        x.text,
    ) && x.entry < tables.entries.len() by {
        assert(sorted(tables.strings(), all).contains(x));
        assert(all.contains(x));
        let i = choose|i: int| 0 <= i < all.len() && all[i] == x;
        if i < listed.len() {
            assert(listed[i] == x);
            assert(full.forms_upto(n).contains(x));
        } else {
            let k = i - listed.len();
            assert(inflected[k] == x);
            assert(names(arena, inflected[k].text, tables.surfaces[k].1));
            lemma_named_is_text(arena, x.text, tables.surfaces[k].1);
            assert(all_surfaces(entries, n)[k].0 < n);
        }
    }
}

/// The positions of one bucket are positions of that bucket, and rise.
pub proof fn lemma_ranked(buckets: Seq<u8>, b: u8, n: int)
    requires
        0 <= n <= buckets.len(),
        buckets.len() <= u32::MAX,
    ensures
        ranked(buckets, b, n).len() <= n,
        forall|k: int|
            0 <= k < ranked(buckets, b, n).len() ==> (#[trigger] ranked(buckets, b, n)[k]) < n
                && buckets[ranked(buckets, b, n)[k] as int] == b,
        forall|k: int, l: int|
            0 <= k < l < ranked(buckets, b, n).len() ==> (#[trigger] ranked(buckets, b, n)[k]) < (
            #[trigger] ranked(buckets, b, n)[l]),
    decreases n,
{
    if n > 0 {
        lemma_ranked(buckets, b, n - 1);
    }
}

/// Every position is in the list of its bucket: the lists of the four
/// buckets hold as many positions as there are.
pub proof fn lemma_ranked_count(buckets: Seq<u8>, n: int)
    requires
        0 <= n <= buckets.len(),
        forall|i: int| 0 <= i < buckets.len() ==> (#[trigger] buckets[i]) <= UNRANKED,
    ensures
        ranked(buckets, 0, n).len() + ranked(buckets, 1, n).len() + ranked(buckets, 2, n).len()
            + ranked(buckets, 3, n).len() == n,
    decreases n,
{
    if n > 0 {
        lemma_ranked_count(buckets, n - 1);
        assert(buckets[n - 1] <= UNRANKED);
    }
}

/// The positions of the first buckets are positions of those buckets, in
/// the order of priority.
pub proof fn lemma_prioritized_upto(buckets: Seq<u8>, upto: int)
    requires
        0 <= upto <= BUCKETS,
        buckets.len() <= u32::MAX,
    ensures
        forall|k: int|
            0 <= k < prioritized_upto(buckets, upto).len() ==> (#[trigger] prioritized_upto(
                buckets,
                upto,
            )[k]) < buckets.len() && buckets[prioritized_upto(buckets, upto)[k] as int] < upto,
        forall|k: int, l: int|
            0 <= k < l < prioritized_upto(buckets, upto).len() ==> {
                let x = #[trigger] prioritized_upto(buckets, upto)[k];
                let y = #[trigger] prioritized_upto(buckets, upto)[l];
                buckets[x as int] < buckets[y as int] || (buckets[x as int] == buckets[y as int]
                    && x < y)
            },
    decreases upto,
{
    if upto > 0 {
        lemma_prioritized_upto(buckets, upto - 1);
        lemma_ranked(buckets, (upto - 1) as u8, buckets.len() as int);
        let before = prioritized_upto(buckets, upto - 1);
        let added = ranked(buckets, (upto - 1) as u8, buckets.len() as int);
        let all = prioritized_upto(buckets, upto);
        assert forall|k: int| 0 <= k < all.len() implies (#[trigger] all[k]) < buckets.len()
            && buckets[all[k] as int] < upto by {
            if k < before.len() {
                assert(all[k] == before[k]);
            } else {
                assert(all[k] == added[k - before.len()]);
            }
        }
        assert forall|k: int, l: int| 0 <= k < l < all.len() implies {
            let x = #[trigger] all[k];
            let y = #[trigger] all[l];
            buckets[x as int] < buckets[y as int] || (buckets[x as int] == buckets[y as int] && x
                < y)
        } by {
            if l < before.len() {
                assert(all[k] == before[k] && all[l] == before[l]);
            } else if k < before.len() {
                assert(all[k] == before[k]);
                assert(all[l] == added[l - before.len()]);
            } else {
                assert(all[k] == added[k - before.len()]);
                assert(all[l] == added[l - before.len()]);
            }
        }
    }
}

/// The index of priorities lists as many positions as there are entries.
pub proof fn lemma_prioritized_len(buckets: Seq<u8>)
    requires
        forall|i: int| 0 <= i < buckets.len() ==> (#[trigger] buckets[i]) <= UNRANKED,
    ensures
        prioritized(buckets).len() == buckets.len(),
{
    lemma_ranked_count(buckets, buckets.len() as int);
    let n = buckets.len() as int;
    assert(prioritized_upto(buckets, 0).len() == 0);
    assert(prioritized_upto(buckets, 1).len() == ranked(buckets, 0, n).len());
    assert(prioritized_upto(buckets, 2).len() == ranked(buckets, 0, n).len() + ranked(
        buckets,
        1,
        n,
    ).len());
    assert(prioritized_upto(buckets, 3).len() == ranked(buckets, 0, n).len() + ranked(
        buckets,
        1,
        n,
    ).len() + ranked(buckets, 2, n).len());
    assert(prioritized_upto(buckets, 4).len() == ranked(buckets, 0, n).len() + ranked(
        buckets,
        1,
        n,
    ).len() + ranked(buckets, 2, n).len() + ranked(buckets, 3, n).len());
}

/// The indexes that the reader sees of a store that stands for entries
/// are in range.
proof fn lemma_shown_indexes_in_range(tables: Tables, entries: Seq<EntryView>)
    requires
        stands_for(tables, entries),
        tables.completed() is Some,
    ensures
        shown(tables).indexes_in_range(),
{
    let view = shown(tables);
    lemma_phrases_sound(tables, entries);
    assert forall|i: int| 0 <= i < view.phrases.len() implies view.holds(
        (#[trigger] view.phrases[i]).text,
    ) && view.phrases[i].entry < view.entries.len() by {
        assert(tables.phrases().contains(view.phrases[i]));
    }
    lemma_prioritized_upto(tables.buckets(), BUCKETS as int);
}

/// The indexes that the reader sees of a store that stands for entries
/// are coherent.
proof fn lemma_shown_indexes_coherent(tables: Tables, entries: Seq<EntryView>)
    requires
        stands_for(tables, entries),
        tables.completed() is Some,
    ensures
        shown(tables).phrases_coherent(),
        shown(tables).priorities_coherent(),
{
    let view = shown(tables);
    lemma_phrases_sound(tables, entries);
    assert forall|i: int| 0 <= i < view.phrases.len() implies view.is_text(
        (#[trigger] view.phrases[i]).text,
    ) by {
        assert(tables.phrases().contains(view.phrases[i]));
    }
    let buckets = tables.buckets();
    assert forall|i: int| 0 <= i < buckets.len() implies (#[trigger] buckets[i]) <= UNRANKED by {
        lemma_run_bounded(
            tables.kanji,
            tables.entries[i].kanji.start as int,
            tables.entries[i].kanji.count as int,
        );
    }
    lemma_prioritized_len(buckets);
    lemma_prioritized_upto(buckets, BUCKETS as int);
    assert forall|i: int, j: int| 0 <= i < j < view.priorities.len() implies view.outranks(
        #[trigger] view.priorities[i],
        #[trigger] view.priorities[j],
    ) by {
        let x = view.priorities[i];
        let y = view.priorities[j];
        assert(buckets[x as int] == view.bucket(x as int));
        assert(buckets[y as int] == view.bucket(y as int));
    }
}

/// What the reader sees of a store that stands for entries is in range.
proof fn lemma_shown_in_range(tables: Tables, entries: Seq<EntryView>)
    requires
        stands_for(tables.finished(), entries),
    ensures
        shown(tables).records_in_range(),
{
    let arena = tables.finished().arena;
    let view = shown(tables);
    let tables = tables.finished();
    assert forall|i: int| 0 <= i < view.readings.len() implies view.holds(
        (#[trigger] view.readings[i]).text,
    ) && view.hold_all(view.readings[i].restrict) by {
        assert(reading_sound(arena, tables.readings[i]));
        let refs = view.readings[i].restrict;
        assert forall|k: int| 0 <= k < refs.len() implies lies_in(
            view.strings,
            #[trigger] refs[k],
        ) by {
            assert(is_text(arena, refs[k]));
        }
    }
    assert forall|i: int| 0 <= i < view.kanji.len() implies view.holds(
        (#[trigger] view.kanji[i]).text,
    ) by {
        assert(kanji_sound(arena, tables.kanji[i]));
    }
    assert forall|i: int| 0 <= i < view.senses.len() implies view.holds(
        (#[trigger] view.senses[i]).language,
    ) && view.hold_all(view.senses[i].glosses) && view.hold_all(view.senses[i].misc) by {
        assert(sense_sound(arena, tables.senses[i]));
        let glosses = view.senses[i].glosses;
        assert forall|k: int| 0 <= k < glosses.len() implies lies_in(
            view.strings,
            #[trigger] glosses[k],
        ) by {
            assert(is_text(arena, glosses[k]));
        }
        let misc = view.senses[i].misc;
        assert forall|k: int| 0 <= k < misc.len() implies lies_in(
            view.strings,
            #[trigger] misc[k],
        ) by {
            assert(is_text(arena, misc[k]));
        }
    }
    assert forall|i: int| 0 <= i < view.entries.len() implies {
        let e = #[trigger] view.entries[i];
        &&& e.readings.start + e.readings.count <= view.readings.len()
        &&& e.kanji.start + e.kanji.count <= view.kanji.len()
        &&& e.senses.start + e.senses.count <= view.senses.len()
    } by {
        assert(entry_stands(tables, tables.entries[i], entries[i]));
    }
}

/// What the reader sees of a store that stands for entries is coherent.
proof fn lemma_shown_coherent(tables: Tables, entries: Seq<EntryView>)
    requires
        stands_for(tables.finished(), entries),
    ensures
        shown(tables).texts_coherent(),
        shown(tables).sequences_coherent(),
{
    let arena = tables.finished().arena;
    let view = shown(tables);
    let tables = tables.finished();
    assert forall|i: int| 0 <= i < view.readings.len() implies view.is_text(
        (#[trigger] view.readings[i]).text,
    ) && view.are_text(view.readings[i].restrict) by {
        assert(reading_sound(arena, tables.readings[i]));
        let refs = view.readings[i].restrict;
        assert forall|k: int| 0 <= k < refs.len() implies text_lies_at(
            view.strings,
            #[trigger] refs[k],
        ) by {
            assert(is_text(arena, refs[k]));
        }
    }
    assert forall|i: int| 0 <= i < view.kanji.len() implies view.is_text(
        (#[trigger] view.kanji[i]).text,
    ) by {
        assert(kanji_sound(arena, tables.kanji[i]));
    }
    assert forall|i: int| 0 <= i < view.senses.len() implies view.is_text(
        (#[trigger] view.senses[i]).language,
    ) && view.are_text(view.senses[i].glosses) && view.are_text(view.senses[i].misc) by {
        assert(sense_sound(arena, tables.senses[i]));
        let glosses = view.senses[i].glosses;
        assert forall|k: int| 0 <= k < glosses.len() implies text_lies_at(
            view.strings,
            #[trigger] glosses[k],
        ) by {
            assert(is_text(arena, glosses[k]));
        }
        let misc = view.senses[i].misc;
        assert forall|k: int| 0 <= k < misc.len() implies text_lies_at(
            view.strings,
            #[trigger] misc[k],
        ) by {
            assert(is_text(arena, misc[k]));
        }
    }
}

/// What the reader sees of a store that stands for entries and for
/// characters is in range and coherent.
proof fn lemma_shown_sound(tables: Tables, entries: Seq<EntryView>, characters: Seq<CharacterView>)
    requires
        stands_for(tables, entries),
        characters_stand(tables, characters),
        tables.completed() is Some,
    ensures
        shown(tables).in_range(),
        shown(tables).coherent(),
{
    lemma_completed_stands(tables, entries);
    lemma_characters_completed(tables, characters);
    lemma_shown_in_range(tables, entries);
    lemma_shown_coherent(tables, entries);
    lemma_shown_indexes_in_range(tables, entries);
    lemma_shown_indexes_coherent(tables, entries);
    lemma_shown_characters(tables, characters);
}

/// The columns of a store that stands for characters are read as the
/// records of the store.
proof fn lemma_store_parses(tables: Tables, entries: Seq<EntryView>, characters: Seq<CharacterView>)
    requires
        stands_for(tables, entries),
        characters_stand(tables, characters),
    ensures
        tables.columns().len() == COLUMNS,
        parsed(Contents { strings: tables.strings(), columns: tables.columns() }) == Some(
            shown(tables),
        ),
{
    assert forall|i: int| 0 <= i < tables.characters.len() implies character_fits(
        #[trigger] tables.characters[i],
    ) by {
        assert(character_stands(tables.arena, tables.characters[i], characters[i]));
    }
    lemma_columns(tables);
    lemma_columns_parse(tables);
}

/// The image of a store that stands for entries and for characters
/// opens, and shows the store.
pub proof fn lemma_image_opens(
    tables: Tables,
    entries: Seq<EntryView>,
    characters: Seq<CharacterView>,
)
    requires
        stands_for(tables, entries),
        characters_stand(tables, characters),
        tables.fits(),
    ensures
        opened(tables.image()) == Ok::<IndexView, ImageError>(shown(tables)),
{
    lemma_container_round_trip(tables.strings(), tables.columns());
    lemma_store_parses(tables, entries, characters);
    lemma_shown_sound(tables, entries, characters);
}

/// The readings and written forms of each entry are among those of the
/// store.
proof fn lemma_forms_hold(tables: Tables, at: int, n: int, x: Phrase)
    requires
        0 <= at < n,
        tables.entry_forms(at).contains(x),
    ensures
        tables.forms_upto(n).contains(x),
    decreases n,
{
    let before = tables.forms_upto(n - 1);
    let added = tables.entry_forms(n - 1);
    let all = tables.forms_upto(n);
    if at == n - 1 {
        let k = choose|k: int| 0 <= k < added.len() && added[k] == x;
        assert(all[before.len() + k] == x);
    } else {
        lemma_forms_hold(tables, at, n - 1, x);
        let k = choose|k: int| 0 <= k < before.len() && before[k] == x;
        assert(all[k] == x);
    }
}

/// A reading or written form of an entry is a phrase of the index.
proof fn lemma_form_listed(tables: Tables, entries: Seq<EntryView>, at: int, x: Phrase)
    requires
        stands_for(tables, entries),
        tables.completed() is Some,
        0 <= at < entries.len(),
        tables.entry_forms(at).contains(x),
    ensures
        tables.phrases().contains(x),
{
    let n = tables.entries.len() as int;
    lemma_forms_hold(tables, at, n, x);
    let listed = tables.forms_upto(n);
    let all = listed + tables.completed().unwrap().1;
    let k = choose|k: int| 0 <= k < listed.len() && listed[k] == x;
    assert(all[k] == x);
    lemma_sorted(tables.strings(), all);
    lemma_distinct(tables.strings(), sorted(tables.strings(), all));
    assert(sorted(tables.strings(), all).contains(x));
}

/// Every reading of every entry of a store is listed in the index of
/// phrases, with the position of the entry.
pub proof fn lemma_reading_listed(tables: Tables, entries: Seq<EntryView>, at: int, k: int)
    requires
        stands_for(tables, entries),
        tables.completed() is Some,
        0 <= at < entries.len(),
        0 <= k < entries[at].reading_elements.len(),
    ensures
        exists|p: int|
            0 <= p < shown(tables).phrases.len() && (#[trigger] shown(tables).phrases[p]).entry
                == at && shown(tables).phrase_bytes(p) == encode_utf8(
                entries[at].reading_elements[k].text,
            ),
{
    lemma_completed_stands(tables, entries);
    let full = tables.finished();
    let record = tables.entries[at];
    assert(entry_stands(full, record, entries[at]));
    let row = tables.readings[record.readings.start + k];
    assert(reading_stands(full.arena, row, entries[at].reading_elements[k]));
    let x = Phrase { text: row.text, entry: at as u32 };
    assert(tables.entry_forms(at)[k] == x);
    lemma_form_listed(tables, entries, at, x);
    let p = choose|p: int| 0 <= p < tables.phrases().len() && tables.phrases()[p] == x;
    assert(shown(tables).phrases[p].entry == at);
}

/// Every written form of every entry of a store is listed in the index
/// of phrases, with the position of the entry.
pub proof fn lemma_kanji_listed(tables: Tables, entries: Seq<EntryView>, at: int, k: int)
    requires
        stands_for(tables, entries),
        tables.completed() is Some,
        0 <= at < entries.len(),
        0 <= k < entries[at].kanji_elements.len(),
    ensures
        exists|p: int|
            0 <= p < shown(tables).phrases.len() && (#[trigger] shown(tables).phrases[p]).entry
                == at && shown(tables).phrase_bytes(p) == encode_utf8(
                entries[at].kanji_elements[k].text,
            ),
{
    lemma_completed_stands(tables, entries);
    let full = tables.finished();
    let record = tables.entries[at];
    assert(entry_stands(full, record, entries[at]));
    let row = tables.kanji[record.kanji.start + k];
    assert(kanji_stands(full.arena, row, entries[at].kanji_elements[k]));
    let x = Phrase { text: row.text, entry: at as u32 };
    assert(tables.entry_forms(at)[record.readings.count + k] == x);
    lemma_form_listed(tables, entries, at, x);
    let p = choose|p: int| 0 <= p < tables.phrases().len() && tables.phrases()[p] == x;
    assert(shown(tables).phrases[p].entry == at);
}

/// Every inflected surface form of every entry of a store is listed in
/// the index of phrases, with the position of the entry.
pub proof fn lemma_surface_listed(tables: Tables, entries: Seq<EntryView>, at: int, j: int)
    requires
        stands_for(tables, entries),
        tables.completed() is Some,
        0 <= at < entries.len(),
        0 <= j < entry_surfaces(entries[at]).len(),
    ensures
        exists|p: int|
            0 <= p < shown(tables).phrases.len() && (#[trigger] shown(tables).phrases[p]).entry
                == at && shown(tables).phrase_bytes(p) == encode_utf8(
                entry_surfaces(entries[at])[j],
            ),
{
    let n = tables.entries.len() as int;
    let (arena, inflected) = tables.completed().unwrap();
    lemma_stored_surfaces(tables.arena, tables.surfaces);
    lemma_all_surfaces(entries, n);
    let surface = (at as u32, entry_surfaces(entries[at])[j]);
    assert(tables.surfaces.contains(surface));
    let k = choose|k: int| 0 <= k < tables.surfaces.len() && tables.surfaces[k] == surface;
    let x = inflected[k];
    assert(names(arena, x.text, surface.1) && x.entry == surface.0);
    let listed = tables.forms_upto(n);
    let all = listed + inflected;
    assert(all[listed.len() + k] == x);
    lemma_sorted(tables.strings(), all);
    lemma_distinct(tables.strings(), sorted(tables.strings(), all));
    assert(sorted(tables.strings(), all).contains(x));
    assert(tables.phrases().contains(x));
    let p = choose|p: int| 0 <= p < tables.phrases().len() && tables.phrases()[p] == x;
    assert(shown(tables).phrases[p].entry == at);
}

/// A store that has taken only entries in holds no character.
pub proof fn lemma_inserted_all_bare(entries: Seq<EntryView>)
    requires
        Tables::empty().inserted_all(entries) is Ok,
    ensures
        Tables::empty().inserted_all(entries).unwrap().characters.len() == 0,
        Tables::empty().inserted_all(entries).unwrap().literals.len() == 0,
    decreases entries.len(),
{
    if entries.len() > 0 {
        lemma_inserted_all_bare(entries.drop_last());
    }
}

/// What a store has taken in is read back from its image: the image
/// opens, it holds as many entries and as many characters as the store
/// has taken in, and the entry and the character at each position are
/// those that were taken in, equal in every field.
pub proof fn lemma_store_round_trip(
    tables: Tables,
    entries: Seq<EntryView>,
    characters: Seq<CharacterView>,
)
    requires
        stands_for(tables, entries),
        characters_stand(tables, characters),
        tables.fits(),
    ensures
        opened(tables.image()) is Ok,
        opened(tables.image()).unwrap().entries.len() == entries.len(),
        forall|i: int|
            0 <= i < entries.len() ==> #[trigger] opened(tables.image()).unwrap().entry(i)
                == entries[i],
        opened(tables.image()).unwrap().characters.len() == characters.len(),
        forall|i: int|
            0 <= i < characters.len() ==> #[trigger] opened(tables.image()).unwrap().character(i)
                == characters[i],
{
    lemma_image_opens(tables, entries, characters);
    lemma_completed_stands(tables, entries);
    lemma_characters_completed(tables, characters);
    lemma_shown_entries(tables, entries);
    lemma_shown_characters(tables, characters);
}

/// Entries that are built into an image are read back from it: the image
/// opens, it holds as many entries as were built, each with its sequence
/// number, and the entry at each position is the entry that was built,
/// equal in every field.
pub proof fn lemma_round_trip(entries: Seq<EntryView>)
    requires
        built(entries) is Ok,
    ensures
        opened(built(entries).unwrap()) is Ok,
        opened(built(entries).unwrap()).unwrap().entries.len() == entries.len(),
        forall|i: int|
            0 <= i < entries.len() ==> #[trigger] opened(built(entries).unwrap()).unwrap().entry(i)
                == entries[i],
        forall|i: int|
            0 <= i < entries.len() ==> (#[trigger] opened(
                built(entries).unwrap(),
            ).unwrap().entries[i]).sequence_number == entries[i].sequence_number,
        opened(built(entries).unwrap()).unwrap().characters.len() == 0,
{
    let tables = Tables::empty().inserted_all(entries).unwrap();
    lemma_inserted_all_stands(entries);
    lemma_inserted_all_bare(entries);
    let none = Seq::<CharacterView>::empty();
    assert(characters_stand(tables, none));
    lemma_image_opens(tables, entries, none);
    lemma_completed_stands(tables, entries);
    lemma_shown_entries(tables, entries);
    assert forall|i: int| 0 <= i < entries.len() implies (#[trigger] shown(
        tables,
    ).entries[i]).sequence_number == entries[i].sequence_number by {
        assert(entry_stands(tables, tables.entries[i], entries[i]));
    }
}

} // verus!

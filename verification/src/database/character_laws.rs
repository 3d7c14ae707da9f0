//! What is written of characters is what is read.
use vstd::prelude::*;
use vstd::utf8::encode_utf8;

use super::blobs::{BLOB_MAX, framable, joined, lemma_blobs_round_trip, split};
use super::characters::{
    character_fits, character_of, CharacterRow, lemma_character_round_trip, lemma_with_literal,
    literals_rise, stored_character, stored_meaning, stored_meanings, stored_pairs,
};
use super::interner::Arena;
use super::laws::{
    extends, lemma_extends_trans, lemma_named_is_text, lemma_names_kept, lemma_stored_surfaces,
    lemma_stored_text, names, shown,
};
use super::model::characters_of;
use super::records::StrRef;
use super::store::{character_blobs, Tables};

use crate::clipboard::is_scalar_value;
use crate::kanjidic2::character::{CharacterView, MeaningView};
use crate::kanjidic2::reading::ReadingView;

verus! {

/// Whether references name the readings of a character, one by one.
pub open spec fn pairs_stand(arena: Arena, refs: Seq<(StrRef, StrRef)>, readings: Seq<ReadingView>) -> bool {
    refs.len() == readings.len() && forall|i: int|
        0 <= i < refs.len() ==> names(arena, (#[trigger] refs[i]).0, readings[i].text) && names(
            arena,
            refs[i].1,
            readings[i].ty,
        )
}

/// Whether references name a meaning.
pub open spec fn meaning_stands(arena: Arena, r: (StrRef, Option<StrRef>), meaning: MeaningView) -> bool {
    names(arena, r.0, meaning.text) && match (r.1, meaning.lang) {
        (Some(r), Some(lang)) => names(arena, r, lang),
        (None, None) => true,
        _ => false,
    }
}

/// Whether references name the meanings of a character, one by one.
pub open spec fn meanings_stand(
    arena: Arena,
    refs: Seq<(StrRef, Option<StrRef>)>,
    meanings: Seq<MeaningView>,
) -> bool {
    refs.len() == meanings.len() && forall|i: int|
        0 <= i < refs.len() ==> meaning_stands(arena, #[trigger] refs[i], meanings[i])
}

/// Whether the record of a character stands for the character.
pub open spec fn character_stands(arena: Arena, row: CharacterRow, character: CharacterView) -> bool {
    &&& row.literal == character.literal as u32
    &&& row.stroke_count == character.stroke_count
    &&& row.radicals == character.radicals
    &&& pairs_stand(arena, row.readings, character.reading_meaning.readings)
    &&& meanings_stand(arena, row.meanings, character.reading_meaning.meanings)
    &&& character_fits(row)
}

/// Whether a store stands for characters: the record of each stands for
/// it, and the map of literals lists each character once, with the
/// position of its record, in the order of the characters.
pub open spec fn characters_stand(tables: Tables, characters: Seq<CharacterView>) -> bool {
    &&& tables.characters.len() == characters.len()
    &&& characters.len() <= u32::MAX
    &&& forall|i: int|
        0 <= i < characters.len() ==> character_stands(
            tables.arena,
            #[trigger] tables.characters[i],
            characters[i],
        )
    &&& literals_rise(tables.literals)
    &&& tables.literals.len() == characters.len()
    &&& forall|k: int|
        0 <= k < tables.literals.len() ==> (#[trigger] tables.literals[k]).1 < characters.len()
            && tables.characters[tables.literals[k].1 as int].literal == tables.literals[k].0
    &&& forall|i: int|
        0 <= i < characters.len() ==> tables.literals.contains(
            ((#[trigger] tables.characters[i]).literal, i as u32),
        )
}

proof fn lemma_pairs_kept(
    before: Arena,
    after: Arena,
    refs: Seq<(StrRef, StrRef)>,
    readings: Seq<ReadingView>,
)
    requires
        extends(before, after),
        pairs_stand(before, refs, readings),
    ensures
        pairs_stand(after, refs, readings),
{
    assert forall|i: int| 0 <= i < refs.len() implies names(
        after,
        (#[trigger] refs[i]).0,
        readings[i].text,
    ) && names(after, refs[i].1, readings[i].ty) by {
        lemma_names_kept(before, after, refs[i].0, readings[i].text);
        lemma_names_kept(before, after, refs[i].1, readings[i].ty);
    }
}

proof fn lemma_meaning_kept(
    before: Arena,
    after: Arena,
    r: (StrRef, Option<StrRef>),
    meaning: MeaningView,
)
    requires
        extends(before, after),
        meaning_stands(before, r, meaning),
    ensures
        meaning_stands(after, r, meaning),
{
    lemma_names_kept(before, after, r.0, meaning.text);
    if r.1 is Some {
        lemma_names_kept(before, after, r.1.unwrap(), meaning.lang.unwrap());
    }
}

proof fn lemma_meanings_kept(
    before: Arena,
    after: Arena,
    refs: Seq<(StrRef, Option<StrRef>)>,
    meanings: Seq<MeaningView>,
)
    requires
        extends(before, after),
        meanings_stand(before, refs, meanings),
    ensures
        meanings_stand(after, refs, meanings),
{
    assert forall|i: int| 0 <= i < refs.len() implies meaning_stands(
        after,
        #[trigger] refs[i],
        meanings[i],
    ) by {
        lemma_meaning_kept(before, after, refs[i], meanings[i]);
    }
}

/// The record of a character that stands for it in an arena stands for
/// it in an arena that extends the arena.
pub proof fn lemma_character_kept(
    before: Arena,
    after: Arena,
    row: CharacterRow,
    character: CharacterView,
)
    requires
        extends(before, after),
        character_stands(before, row, character),
    ensures
        character_stands(after, row, character),
{
    lemma_pairs_kept(before, after, row.readings, character.reading_meaning.readings);
    lemma_meanings_kept(before, after, row.meanings, character.reading_meaning.meanings);
}

proof fn lemma_extends_refl(arena: Arena)
    ensures
        extends(arena, arena),
{
    assert forall|r: StrRef| arena.holds(r) implies arena.holds(r) && #[trigger] arena.slice(r)
        == arena.slice(r) by {}
}

proof fn lemma_stored_pairs(arena: Arena, readings: Seq<ReadingView>)
    requires
        arena.sound(),
        stored_pairs(arena, readings) is Some,
    ensures
        stored_pairs(arena, readings).unwrap().0.sound(),
        extends(arena, stored_pairs(arena, readings).unwrap().0),
        pairs_stand(
            stored_pairs(arena, readings).unwrap().0,
            stored_pairs(arena, readings).unwrap().1,
            readings,
        ),
    decreases readings.len(),
{
    if readings.len() == 0 {
        lemma_extends_refl(arena);
    } else {
        lemma_stored_pairs(arena, readings.drop_last());
        let (first, refs) = stored_pairs(arena, readings.drop_last()).unwrap();
        lemma_stored_text(first, readings.last().text);
        let (second, text) = first.interned(encode_utf8(readings.last().text)).unwrap();
        lemma_stored_text(second, readings.last().ty);
        let (after, ty) = second.interned(encode_utf8(readings.last().ty)).unwrap();
        lemma_extends_trans(first, second, after);
        lemma_extends_trans(arena, first, after);
        lemma_pairs_kept(first, after, refs, readings.drop_last());
        lemma_names_kept(second, after, text, readings.last().text);
        let all = refs.push((text, ty));
        assert forall|i: int| 0 <= i < all.len() implies names(
            after,
            (#[trigger] all[i]).0,
            readings[i].text,
        ) && names(after, all[i].1, readings[i].ty) by {
            if i < refs.len() {
                assert(names(after, refs[i].0, readings.drop_last()[i].text));
            }
        }
    }
}

proof fn lemma_stored_meaning(arena: Arena, meaning: MeaningView)
    requires
        arena.sound(),
        stored_meaning(arena, meaning) is Some,
    ensures
        stored_meaning(arena, meaning).unwrap().0.sound(),
        extends(arena, stored_meaning(arena, meaning).unwrap().0),
        meaning_stands(
            stored_meaning(arena, meaning).unwrap().0,
            stored_meaning(arena, meaning).unwrap().1,
            meaning,
        ),
{
    lemma_stored_text(arena, meaning.text);
    let (first, text) = arena.interned(encode_utf8(meaning.text)).unwrap();
    if meaning.lang is Some {
        lemma_stored_text(first, meaning.lang.unwrap());
        let (after, lang) = first.interned(encode_utf8(meaning.lang.unwrap())).unwrap();
        lemma_extends_trans(arena, first, after);
        lemma_names_kept(first, after, text, meaning.text);
    }
}

proof fn lemma_stored_meanings(arena: Arena, meanings: Seq<MeaningView>)
    requires
        arena.sound(),
        stored_meanings(arena, meanings) is Some,
    ensures
        stored_meanings(arena, meanings).unwrap().0.sound(),
        extends(arena, stored_meanings(arena, meanings).unwrap().0),
        meanings_stand(
            stored_meanings(arena, meanings).unwrap().0,
            stored_meanings(arena, meanings).unwrap().1,
            meanings,
        ),
    decreases meanings.len(),
{
    if meanings.len() == 0 {
        lemma_extends_refl(arena);
    } else {
        lemma_stored_meanings(arena, meanings.drop_last());
        let (mid, refs) = stored_meanings(arena, meanings.drop_last()).unwrap();
        lemma_stored_meaning(mid, meanings.last());
        let (after, r) = stored_meaning(mid, meanings.last()).unwrap();
        lemma_extends_trans(arena, mid, after);
        lemma_meanings_kept(mid, after, refs, meanings.drop_last());
        let all = refs.push(r);
        assert forall|i: int| 0 <= i < all.len() implies meaning_stands(
            after,
            #[trigger] all[i],
            meanings[i],
        ) by {
            if i < refs.len() {
                assert(meaning_stands(after, refs[i], meanings.drop_last()[i]));
            }
        }
    }
}

/// A character that is handed in has a record that stands for it, in an
/// arena that is sound and extends the one before.
pub proof fn lemma_stored_character(arena: Arena, character: CharacterView)
    requires
        arena.sound(),
        stored_character(arena, character) is Some,
    ensures
        stored_character(arena, character).unwrap().0.sound(),
        extends(arena, stored_character(arena, character).unwrap().0),
        character_stands(
            stored_character(arena, character).unwrap().0,
            stored_character(arena, character).unwrap().1,
            character,
        ),
{
    lemma_stored_pairs(arena, character.reading_meaning.readings);
    let (mid, readings) = stored_pairs(arena, character.reading_meaning.readings).unwrap();
    lemma_stored_meanings(mid, character.reading_meaning.meanings);
    let (after, meanings) = stored_meanings(mid, character.reading_meaning.meanings).unwrap();
    lemma_extends_trans(arena, mid, after);
    lemma_pairs_kept(mid, after, readings, character.reading_meaning.readings);
}

/// A store that stands for characters stands for them with an arena
/// that extends its own, whatever else of it has changed.
pub proof fn lemma_characters_extended(
    tables: Tables,
    characters: Seq<CharacterView>,
    after: Tables,
)
    requires
        characters_stand(tables, characters),
        extends(tables.arena, after.arena),
        after.characters == tables.characters,
        after.literals == tables.literals,
    ensures
        characters_stand(after, characters),
{
    assert forall|i: int| 0 <= i < characters.len() implies character_stands(
        after.arena,
        #[trigger] after.characters[i],
        characters[i],
    ) by {
        lemma_character_kept(tables.arena, after.arena, tables.characters[i], characters[i]);
    }
}

/// A store that stands for characters and takes another one in stands
/// for all of them, with an arena that is sound and extends its own.
pub proof fn lemma_with_character(
    tables: Tables,
    characters: Seq<CharacterView>,
    character: CharacterView,
)
    requires
        tables.arena.sound(),
        characters_stand(tables, characters),
        tables.with_character(character) is Ok,
    ensures
        tables.with_character(character).unwrap().arena.sound(),
        extends(tables.arena, tables.with_character(character).unwrap().arena),
        characters_stand(tables.with_character(character).unwrap(), characters.push(character)),
{
    let after = tables.with_character(character).unwrap();
    lemma_stored_character(tables.arena, character);
    let (arena, row) = stored_character(tables.arena, character).unwrap();
    let at = tables.characters.len() as u32;
    lemma_with_literal(tables.literals, row.literal, at);
    let all = characters.push(character);
    assert forall|i: int| 0 <= i < all.len() implies character_stands(
        after.arena,
        #[trigger] after.characters[i],
        all[i],
    ) by {
        if i < characters.len() {
            lemma_character_kept(tables.arena, arena, tables.characters[i], characters[i]);
        }
    }
    assert forall|k: int| 0 <= k < after.literals.len() implies (#[trigger] after.literals[k]).1
        < all.len() && after.characters[after.literals[k].1 as int].literal
        == after.literals[k].0 by {
        let pair = after.literals[k];
        if pair != (row.literal, at) {
            assert(tables.literals.contains(pair));
            let j = choose|j: int| 0 <= j < tables.literals.len() && tables.literals[j] == pair;
            assert(tables.literals[j].1 < characters.len());
        }
    }
    assert forall|i: int| 0 <= i < all.len() implies after.literals.contains(
        ((#[trigger] after.characters[i]).literal, i as u32),
    ) by {
        if i < characters.len() {
            let pair = (tables.characters[i].literal, i as u32);
            assert(tables.literals.contains(pair));
            let j = choose|j: int| 0 <= j < tables.literals.len() && tables.literals[j] == pair;
            assert(after.literals.contains(tables.literals[j]));
        }
    }
}

/// A store that stands for characters stands for them when its arena
/// is complete.
pub proof fn lemma_characters_completed(tables: Tables, characters: Seq<CharacterView>)
    requires
        tables.arena.sound(),
        characters_stand(tables, characters),
        tables.completed() is Some,
    ensures
        characters_stand(tables.finished(), characters),
{
    lemma_stored_surfaces(tables.arena, tables.surfaces);
    lemma_characters_extended(tables, characters, tables.finished());
}

/// The column of characters is read as the characters of the store.
pub proof fn lemma_characters_parse(rows: Seq<CharacterRow>)
    requires
        forall|i: int| 0 <= i < rows.len() ==> character_fits(#[trigger] rows[i]),
    ensures
        split(joined(character_blobs(rows))) is Some,
        characters_of(split(joined(character_blobs(rows))).unwrap()) == Some(rows),
{
    let blobs = character_blobs(rows);
    assert(framable(blobs)) by {
        assert forall|i: int| 0 <= i < blobs.len() implies (#[trigger] blobs[i]).len()
            <= BLOB_MAX by {
            assert(character_fits(rows[i]));
        }
    }
    lemma_blobs_round_trip(blobs);
    assert forall|i: int| 0 <= i < blobs.len() implies (#[trigger] character_of(blobs[i]))
        == Some(rows[i]) by {
        lemma_character_round_trip(rows[i]);
    }
    assert(characters_of(blobs).unwrap() =~= rows);
}

/// The reader sees the characters that a store stands for, and what it
/// sees of them is in range and coherent.
pub proof fn lemma_shown_characters(tables: Tables, characters: Seq<CharacterView>)
    requires
        characters_stand(tables.finished(), characters),
    ensures
        shown(tables).characters_in_range(),
        shown(tables).characters_coherent(),
        shown(tables).characters.len() == characters.len(),
        forall|i: int|
            0 <= i < characters.len() ==> #[trigger] shown(tables).character(i) == characters[i],
{
    let view = shown(tables);
    let arena = tables.finished().arena;
    let full = tables.finished();
    assert forall|i: int, j: int|
        0 <= i < view.characters.len() && 0 <= j < view.characters[i].readings.len() implies {
        let pair = #[trigger] view.characters[i].readings[j];
        &&& view.holds(pair.0)
        &&& view.holds(pair.1)
        &&& view.is_text(pair.0)
        &&& view.is_text(pair.1)
        &&& view.text(pair.0) == characters[i].reading_meaning.readings[j].text
        &&& view.text(pair.1) == characters[i].reading_meaning.readings[j].ty
    } by {
        assert(character_stands(arena, full.characters[i], characters[i]));
        let pair = view.characters[i].readings[j];
        let reading = characters[i].reading_meaning.readings[j];
        assert(names(arena, pair.0, reading.text) && names(arena, pair.1, reading.ty));
        lemma_named_is_text(arena, pair.0, reading.text);
        lemma_named_is_text(arena, pair.1, reading.ty);
    }
    assert forall|i: int, j: int|
        0 <= i < view.characters.len() && 0 <= j < view.characters[i].meanings.len() implies {
        let r = #[trigger] view.characters[i].meanings[j];
        &&& view.meaning_holds(r)
        &&& view.meaning_is_text(r)
        &&& view.text(r.0) == characters[i].reading_meaning.meanings[j].text
        &&& match r.1 {
            Some(lang) => characters[i].reading_meaning.meanings[j].lang == Some(view.text(lang)),
            None => characters[i].reading_meaning.meanings[j].lang is None,
        }
    } by {
        assert(character_stands(arena, full.characters[i], characters[i]));
        let r = view.characters[i].meanings[j];
        let meaning = characters[i].reading_meaning.meanings[j];
        assert(meaning_stands(arena, r, meaning));
        lemma_named_is_text(arena, r.0, meaning.text);
        match (r.1, meaning.lang) {
            (Some(lang), Some(text)) => {
                lemma_named_is_text(arena, lang, text);
            },
            _ => {},
        }
    }
    assert forall|i: int| 0 <= i < view.characters.len() implies is_scalar_value(
        (#[trigger] view.characters[i]).literal,
    ) && view.characters[i].stroke_count <= u8::MAX by {
        assert(character_stands(arena, full.characters[i], characters[i]));
    }
    assert forall|i: int| 0 <= i < characters.len() implies #[trigger] view.character(i)
        == characters[i] by {
        assert(character_stands(arena, full.characters[i], characters[i]));
        let read = view.character(i);
        vstd::utf8::char_u32_cast(characters[i].literal, view.characters[i].literal);
        assert(read.reading_meaning.readings =~= characters[i].reading_meaning.readings) by {
            assert forall|j: int| 0 <= j < view.characters[i].readings.len() implies
                read.reading_meaning.readings[j] == characters[i].reading_meaning.readings[j] by {
                let pair = view.characters[i].readings[j];
            }
        }
        assert(read.reading_meaning.meanings =~= characters[i].reading_meaning.meanings) by {
            assert forall|j: int| 0 <= j < view.characters[i].meanings.len() implies
                read.reading_meaning.meanings[j] == characters[i].reading_meaning.meanings[j] by {
                let r = view.characters[i].meanings[j];
            }
        }
    }
}

} // verus!

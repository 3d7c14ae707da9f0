use jpv_lib::database::{search, ImageError, Index, Store, StoreError};
use jpv_lib::jmdict::{Entry, KanjiElement, ReadingElement, Sense};
use jpv_lib::kanjidic2::{Character, Meaning, Reading, ReadingMeaning};
use jpv_lib::{PartOfSpeech, PosSet};

fn eat() -> Character<'static> {
    Character {
        literal: '食',
        radicals: vec![184],
        stroke_count: 9,
        reading_meaning: ReadingMeaning {
            readings: vec![
                Reading { text: "ショク", ty: "ja_on" },
                Reading { text: "ジキ", ty: "ja_on" },
                Reading { text: "く.う", ty: "ja_kun" },
                Reading { text: "た.べる", ty: "ja_kun" },
            ],
            meanings: vec![
                Meaning { text: "eat", lang: None },
                Meaning { text: "food", lang: None },
                Meaning { text: "manger", lang: Some("fr") },
            ],
        },
    }
}

fn drink() -> Character<'static> {
    Character {
        literal: '飲',
        radicals: vec![184, 76],
        stroke_count: 12,
        reading_meaning: ReadingMeaning {
            readings: vec![Reading { text: "イン", ty: "ja_on" }, Reading { text: "の.む", ty: "ja_kun" }],
            meanings: vec![Meaning { text: "drink", lang: None }],
        },
    }
}

fn bare() -> Character<'static> {
    Character {
        literal: '一',
        radicals: Vec::new(),
        stroke_count: 1,
        reading_meaning: ReadingMeaning { readings: Vec::new(), meanings: Vec::new() },
    }
}

fn word() -> Entry<'static> {
    let mut pos = PosSet::new();
    pos.insert(PartOfSpeech::VerbIchidan);
    Entry {
        sequence_number: 1358280,
        reading_elements: vec![ReadingElement { text: "たべる", no_kanji: false, restrict: Vec::new() }],
        kanji_elements: Vec::new(),
        senses: vec![Sense { glosses: vec!["eat"], pos, misc: Vec::new(), language: "eng" }],
    }
}

fn assert_same(a: &Character<'_>, b: &Character<'_>) {
    assert_eq!(a.literal, b.literal);
    assert_eq!(a.radicals, b.radicals);
    assert_eq!(a.stroke_count, b.stroke_count);
    assert_eq!(a.reading_meaning.readings.len(), b.reading_meaning.readings.len());
    for (x, y) in a.reading_meaning.readings.iter().zip(&b.reading_meaning.readings) {
        assert_eq!(x.text, y.text);
        assert_eq!(x.ty, y.ty);
    }
    assert_eq!(a.reading_meaning.meanings.len(), b.reading_meaning.meanings.len());
    for (x, y) in a.reading_meaning.meanings.iter().zip(&b.reading_meaning.meanings) {
        assert_eq!(x.text, y.text);
        assert_eq!(x.lang, y.lang);
    }
}

fn image_of(characters: &[Character<'static>]) -> Vec<u8> {
    let mut store = Store::new();
    for c in characters {
        store = store.insert_character(c).ok().unwrap();
    }
    store.finish().unwrap()
}

#[test]
fn characters_are_read_back() {
    let all = vec![eat(), drink(), bare()];
    let image = image_of(&all);
    let index = Index::open(&image).ok().unwrap();
    assert_eq!(index.characters(), 3);
    assert_eq!(index.len(), 0);
    for (at, c) in all.iter().enumerate() {
        assert_same(&index.character(at).unwrap(), c);
    }
    assert!(index.character(3).is_none());
}

#[test]
fn characters_are_found_by_literal() {
    let image = image_of(&[eat(), drink(), bare()]);
    let index = Index::open(&image).ok().unwrap();
    assert_same(&index.lookup_literal('食').unwrap(), &eat());
    assert_same(&index.lookup_literal('飲').unwrap(), &drink());
    assert_same(&index.lookup_literal('一').unwrap(), &bare());
    assert!(index.lookup_literal('二').is_none());
    assert!(index.lookup_literal('a').is_none());
    assert!(index.lookup_literal('\u{10FFFF}').is_none());
}

#[test]
fn characters_keep_the_order_they_came_in() {
    let image = image_of(&[drink(), bare(), eat()]);
    let index = Index::open(&image).ok().unwrap();
    assert_eq!(index.character(0).unwrap().literal, '飲');
    assert_eq!(index.character(1).unwrap().literal, '一');
    assert_eq!(index.character(2).unwrap().literal, '食');
    assert_same(&index.lookup_literal('飲').unwrap(), &drink());
}

#[test]
fn a_character_is_taken_in_once() {
    let store = Store::new().insert_character(&eat()).ok().unwrap();
    assert_eq!(store.insert_character(&eat()).err(), Some(StoreError::Schema));
}

#[test]
fn characters_and_entries_share_an_image() {
    let store = Store::new()
        .insert_character(&eat())
        .ok()
        .unwrap()
        .insert(&word())
        .ok()
        .unwrap()
        .insert_character(&drink())
        .ok()
        .unwrap();
    let image = store.finish().unwrap();
    let index = Index::open(&image).ok().unwrap();
    assert_eq!(index.len(), 1);
    assert_eq!(index.characters(), 2);
    assert_eq!(index.lookup_sequence(1358280).unwrap().reading_elements[0].text, "たべる");
    assert_same(&index.lookup_literal('食').unwrap(), &eat());
    assert_eq!(index.lookup_literal('飲').unwrap().reading_meaning.meanings[0].text, "drink");
    // "eat" is a gloss and a meaning: the arena holds it once.
    let eats = image.windows(3).filter(|w| *w == b"eat").count();
    assert_eq!(eats, 1);
}

fn word_at(image: &[u8], at: usize) -> u32 {
    u32::from_le_bytes([image[at], image[at + 1], image[at + 2], image[at + 3]])
}

fn column(image: &[u8], id: u32) -> (usize, usize) {
    let directory = word_at(image, 8) as usize;
    let count = word_at(image, directory) as usize;
    for line in 0..count {
        let at = directory + 4 + 20 * line;
        if word_at(image, at) == id {
            return (word_at(image, at + 4) as usize, word_at(image, at + 12) as usize);
        }
    }
    panic!("no column {id}");
}

#[test]
fn a_map_of_literals_out_of_order_is_reported() {
    let mut image = image_of(&[eat(), drink()]);
    let (offset, len) = column(&image, 8);
    assert_eq!(len, 16);
    // Swap the two lines of the map.
    let first: Vec<u8> = image[offset..offset + 8].to_vec();
    let second: Vec<u8> = image[offset + 8..offset + 16].to_vec();
    image[offset..offset + 8].copy_from_slice(&second);
    image[offset + 8..offset + 16].copy_from_slice(&first);
    assert_eq!(Index::open(&image).err(), Some(ImageError::CorruptColumn));
}

#[test]
fn a_literal_that_points_nowhere_is_reported() {
    let mut image = image_of(&[eat()]);
    let (offset, _) = column(&image, 8);
    image[offset + 4] = 7;
    assert_eq!(Index::open(&image).err(), Some(ImageError::OutOfRange));
}

#[test]
fn a_character_that_is_none_is_reported() {
    let mut image = image_of(&[bare()]);
    let (offset, _) = column(&image, 6);
    // The record follows the word that frames it; a surrogate is no character.
    image[offset + 4..offset + 8].copy_from_slice(&0xD800u32.to_le_bytes());
    assert_eq!(Index::open(&image).err(), Some(ImageError::CorruptColumn));
}

#[test]
fn a_query_finds_entries_and_characters() {
    let mut entry = word();
    entry.kanji_elements.push(KanjiElement { text: "食べる", priority: Vec::new() });
    let store = Store::new()
        .insert_character(&drink())
        .ok()
        .unwrap()
        .insert_character(&eat())
        .ok()
        .unwrap()
        .insert(&entry)
        .ok()
        .unwrap();
    let image = store.finish().unwrap();
    let index = Index::open(&image).ok().unwrap();

    let found = search(&index, "食べる");
    assert_eq!(found.entries.len(), 1);
    assert_eq!(found.entries[0].0.key.sequence, 1358280);
    assert_eq!(found.entries[0].0.key.weight, 0);
    assert_eq!(found.entries[0].1.sequence_number, 1358280);
    assert_eq!(found.characters.len(), 1);
    assert_same(&found.characters[0], &eat());

    let found = search(&index, "食べた");
    assert_eq!(found.entries.len(), 1);
    assert_eq!(found.entries[0].1.reading_elements[0].text, "たべる");

    let found = search(&index, "食飲x食二飲");
    assert!(found.entries.is_empty());
    let literals: Vec<char> = found.characters.iter().map(|c| c.literal).collect();
    assert_eq!(literals, vec!['食', '飲']);

    let found = search(&index, "");
    assert!(found.entries.is_empty());
    assert!(found.characters.is_empty());
}

use jpv_lib::database::{by_key, EntryKey};
use jpv_lib::database::{build, ImageError, Index, Store, StoreError};
use jpv_lib::jmdict::{Entry, KanjiElement, Priority, PriorityKind, ReadingElement, Sense};
use jpv_lib::{PartOfSpeech, PosSet};

fn pos(list: &[PartOfSpeech]) -> PosSet {
    let mut set = PosSet::new();
    for p in list {
        set.insert(*p);
    }
    set
}

fn taberu() -> Entry<'static> {
    Entry {
        sequence_number: 1358280,
        reading_elements: vec![
            ReadingElement { text: "たべる", no_kanji: false, restrict: vec!["食べる"] },
            ReadingElement { text: "タベル", no_kanji: true, restrict: Vec::new() },
        ],
        kanji_elements: vec![
            KanjiElement {
                text: "食べる",
                priority: vec![
                    Priority { kind: PriorityKind::Ichi, level: 1 },
                    Priority { kind: PriorityKind::Nf, level: 7 },
                ],
            },
            KanjiElement { text: "喰べる", priority: Vec::new() },
        ],
        senses: vec![
            Sense {
                glosses: vec!["to eat"],
                pos: pos(&[PartOfSpeech::VerbIchidan, PartOfSpeech::VerbTransitive]),
                misc: Vec::new(),
                language: "eng",
            },
            Sense {
                glosses: vec!["to live on", "to subsist on"],
                pos: pos(&[PartOfSpeech::VerbIchidan, PartOfSpeech::VerbZuru]),
                misc: vec!["uk", "col"],
                language: "eng",
            },
        ],
    }
}

fn nomu() -> Entry<'static> {
    Entry {
        sequence_number: 1169870,
        reading_elements: vec![ReadingElement { text: "のむ", no_kanji: false, restrict: Vec::new() }],
        kanji_elements: vec![KanjiElement { text: "飲む", priority: vec![Priority { kind: PriorityKind::News, level: 2 }] }],
        senses: vec![Sense { glosses: vec!["to drink"], pos: pos(&[PartOfSpeech::VerbGodanM]), misc: Vec::new(), language: "eng" }],
    }
}

fn kana_only() -> Entry<'static> {
    Entry {
        sequence_number: 2000000,
        reading_elements: vec![ReadingElement { text: "いい", no_kanji: false, restrict: Vec::new() }],
        kanji_elements: Vec::new(),
        senses: vec![Sense { glosses: vec!["good", "to eat"], pos: pos(&[PartOfSpeech::AdjectiveIx]), misc: Vec::new(), language: "" }],
    }
}

fn assert_same(a: &Entry<'_>, b: &Entry<'_>) {
    assert_eq!(a.sequence_number, b.sequence_number);
    assert_eq!(a.reading_elements.len(), b.reading_elements.len());
    for (x, y) in a.reading_elements.iter().zip(&b.reading_elements) {
        assert_eq!(x.text, y.text);
        assert_eq!(x.no_kanji, y.no_kanji);
        assert_eq!(x.restrict, y.restrict);
    }
    assert_eq!(a.kanji_elements.len(), b.kanji_elements.len());
    for (x, y) in a.kanji_elements.iter().zip(&b.kanji_elements) {
        assert_eq!(x.text, y.text);
        assert_eq!(x.priority, y.priority);
    }
    assert_eq!(a.senses.len(), b.senses.len());
    for (x, y) in a.senses.iter().zip(&b.senses) {
        assert_eq!(x.glosses, y.glosses);
        assert_eq!(x.pos, y.pos);
        assert_eq!(x.misc, y.misc);
        assert_eq!(x.language, y.language);
    }
}

fn sample() -> Vec<Entry<'static>> {
    vec![nomu(), taberu(), kana_only()]
}

#[test]
fn image_begins_with_its_header() {
    let image = build(&sample()).unwrap();
    assert_eq!(&image[0..4], b"JPV1");
    assert_eq!(&image[4..6], &1u16.to_le_bytes());
    assert_eq!(&image[6..8], &[0, 0]);
    let directory = u64::from_le_bytes(image[8..16].try_into().unwrap()) as usize;
    assert_eq!(u32::from_le_bytes(image[directory..directory + 4].try_into().unwrap()), 10);
    assert_eq!(image.len(), directory + 4 + 10 * 20);
    for k in 0..10 {
        let line = directory + 4 + 20 * k;
        assert_eq!(u16::from_le_bytes(image[line..line + 2].try_into().unwrap()), k as u16 + 1);
        assert_eq!(&image[line + 2..line + 4], &[0, 0]);
        let offset = u64::from_le_bytes(image[line + 4..line + 12].try_into().unwrap()) as usize;
        let len = u64::from_le_bytes(image[line + 12..line + 20].try_into().unwrap()) as usize;
        assert!(offset >= 16 && offset + len <= directory);
        if k == 0 {
            assert_eq!(offset, 16);
        }
    }
}

#[test]
fn strings_are_stored_once() {
    let image = build(&sample()).unwrap();
    let count = |needle: &str| image.windows(needle.len()).filter(|w| *w == needle.as_bytes()).count();
    assert_eq!(count("eng"), 1);
    assert_eq!(count("to eat"), 1);
    assert_eq!(count("to live on"), 1);
    assert_eq!(count("食べられる"), 1);
    assert_eq!(count("食べます"), 1);
}

#[test]
fn entries_are_read_back() {
    let entries = sample();
    let image = build(&entries).unwrap();
    let index = Index::open(&image).ok().unwrap();
    assert_eq!(index.len(), entries.len());
    for (at, entry) in entries.iter().enumerate() {
        assert_same(&index.entry(at).unwrap(), entry);
    }
    assert!(index.entry(entries.len()).is_none());
}

#[test]
fn entries_are_found_by_sequence_number() {
    let entries = sample();
    let image = build(&entries).unwrap();
    let index = Index::open(&image).ok().unwrap();
    for entry in &entries {
        assert_same(&index.lookup_sequence(entry.sequence_number).unwrap(), entry);
    }
    assert!(index.lookup_sequence(0).is_none());
    assert!(index.lookup_sequence(1358281).is_none());
    assert!(index.lookup_sequence(u32::MAX).is_none());
}

#[test]
fn build_is_deterministic() {
    let a = build(&sample()).unwrap();
    let b = build(&sample()).unwrap();
    assert_eq!(a, b);
}

#[test]
fn empty_store_makes_an_image() {
    let image = build(&Vec::new()).unwrap();
    let index = Index::open(&image).ok().unwrap();
    assert_eq!(index.len(), 0);
    assert!(index.lookup_sequence(1).is_none());
    let store = Store::new();
    assert_eq!(store.len(), 0);
    assert_eq!(store.finish().unwrap(), image);
}

#[test]
fn sequence_numbers_must_rise() {
    assert_eq!(build(&vec![taberu(), nomu()]).err(), Some(StoreError::Sequence));
    assert_eq!(build(&vec![taberu(), taberu()]).err(), Some(StoreError::Sequence));
}

#[test]
fn entry_needs_a_reading_and_a_sense() {
    let mut entry = taberu();
    entry.reading_elements.clear();
    assert_eq!(build(&vec![entry]).err(), Some(StoreError::Schema));
    let mut entry = taberu();
    entry.senses.clear();
    assert_eq!(build(&vec![entry]).err(), Some(StoreError::Schema));
}

#[test]
fn bad_magic_is_reported() {
    let mut image = build(&sample()).unwrap();
    assert!(matches!(Index::open(&[]), Err(ImageError::BadMagic)));
    assert!(matches!(Index::open(&image[..15]), Err(ImageError::BadMagic)));
    image[0] = b'X';
    assert!(matches!(Index::open(&image), Err(ImageError::BadMagic)));
}

#[test]
fn unsupported_version_is_reported() {
    let mut image = build(&sample()).unwrap();
    image[4] = 2;
    assert!(matches!(Index::open(&image), Err(ImageError::UnsupportedVersion)));
    image[4] = 1;
    image[6] = 1;
    assert!(matches!(Index::open(&image), Err(ImageError::UnsupportedVersion)));
}

#[test]
fn corrupt_directory_is_reported() {
    let image = build(&sample()).unwrap();
    let directory = u64::from_le_bytes(image[8..16].try_into().unwrap()) as usize;
    let mut cut = image.clone();
    cut.truncate(image.len() - 1);
    assert!(matches!(Index::open(&cut), Err(ImageError::CorruptDirectory)));
    let mut far = image.clone();
    far[8..16].copy_from_slice(&u64::MAX.to_le_bytes());
    assert!(matches!(Index::open(&far), Err(ImageError::CorruptDirectory)));
    let mut count = image.clone();
    count[directory] = 9;
    assert!(matches!(Index::open(&count), Err(ImageError::CorruptDirectory)));
    let mut id = image.clone();
    id[directory + 4 + 20] = 7;
    assert!(matches!(Index::open(&id), Err(ImageError::CorruptDirectory)));
}

#[test]
fn column_out_of_range_is_reported() {
    let image = build(&sample()).unwrap();
    let directory = u64::from_le_bytes(image[8..16].try_into().unwrap()) as usize;
    let mut long = image.clone();
    let line = directory + 4 + 20;
    long[line + 12..line + 20].copy_from_slice(&(image.len() as u64).to_le_bytes());
    assert!(matches!(Index::open(&long), Err(ImageError::OutOfRange)));
    let mut odd = image.clone();
    let len = u64::from_le_bytes(image[line + 12..line + 20].try_into().unwrap());
    odd[line + 12..line + 20].copy_from_slice(&(len - 1).to_le_bytes());
    assert!(matches!(Index::open(&odd), Err(ImageError::OutOfRange)));
}

#[test]
fn string_out_of_range_is_reported() {
    let image = build(&sample()).unwrap();
    let directory = u64::from_le_bytes(image[8..16].try_into().unwrap()) as usize;
    let mut short = image.clone();
    short[directory + 4 + 12..directory + 4 + 20].copy_from_slice(&2u64.to_le_bytes());
    assert!(matches!(Index::open(&short), Err(ImageError::OutOfRange)));
}

#[test]
fn corrupt_column_is_reported() {
    let image = build(&sample()).unwrap();
    let directory = u64::from_le_bytes(image[8..16].try_into().unwrap()) as usize;
    let column = |k: usize| {
        let line = directory + 4 + 20 * k;
        let offset = u64::from_le_bytes(image[line + 4..line + 12].try_into().unwrap()) as usize;
        let len = u64::from_le_bytes(image[line + 12..line + 20].try_into().unwrap()) as usize;
        (line, offset, len)
    };
    let (line, _, len) = column(1);
    let mut entries = image.clone();
    entries[line + 12..line + 20].copy_from_slice(&((len - 4) as u64).to_le_bytes());
    assert!(matches!(Index::open(&entries), Err(ImageError::CorruptColumn)));
    let (_, offset, _) = column(2);
    let mut frame = image.clone();
    frame[offset..offset + 4].copy_from_slice(&u32::MAX.to_le_bytes());
    assert!(matches!(Index::open(&frame), Err(ImageError::CorruptColumn)));
    let mut flag = image.clone();
    flag[offset + 12] = 2;
    assert!(matches!(Index::open(&flag), Err(ImageError::CorruptColumn)));
    let (_, offset, _) = column(6);
    let mut map = image.clone();
    map[offset] ^= 1;
    assert!(matches!(Index::open(&map), Err(ImageError::CorruptColumn)));
    let (_, offset, _) = column(0);
    let mut text = image.clone();
    text[offset] = 0xff;
    assert!(matches!(Index::open(&text), Err(ImageError::CorruptColumn)));
}

fn entries_of(index: &Index<'_>, hits: &[jpv_lib::database::Hit]) -> Vec<u32> {
    hits.iter().map(|hit| index.entry(hit.entry).unwrap().sequence_number).collect()
}

fn common() -> Entry<'static> {
    Entry {
        sequence_number: 3000000,
        reading_elements: vec![ReadingElement { text: "たべもの", no_kanji: false, restrict: Vec::new() }],
        kanji_elements: vec![KanjiElement { text: "食べ物", priority: vec![Priority { kind: PriorityKind::Ichi, level: 1 }] }],
        senses: vec![Sense { glosses: vec!["food"], pos: pos(&[PartOfSpeech::Noun]), misc: Vec::new(), language: "eng" }],
    }
}

fn rare() -> Entry<'static> {
    Entry {
        sequence_number: 1000001,
        reading_elements: vec![ReadingElement { text: "たべる", no_kanji: false, restrict: Vec::new() }],
        kanji_elements: vec![KanjiElement { text: "他べる", priority: Vec::new() }],
        senses: vec![Sense { glosses: vec!["made up"], pos: pos(&[PartOfSpeech::Noun]), misc: Vec::new(), language: "eng" }],
    }
}

fn larger() -> Vec<Entry<'static>> {
    vec![rare(), nomu(), taberu(), kana_only(), common()]
}

#[test]
fn exact_search_finds_readings_and_written_forms() {
    let image = build(&larger()).unwrap();
    let index = Index::open(&image).ok().unwrap();
    assert_eq!(entries_of(&index, &index.search_exact("食べる")), vec![1358280]);
    assert_eq!(entries_of(&index, &index.search_exact("のむ")), vec![1169870]);
    assert_eq!(entries_of(&index, &index.search_exact("タベル")), vec![1358280]);
    assert!(index.search_exact("たべ").is_empty());
    assert!(index.search_exact("").is_empty());
    assert!(index.search_exact("食べるる").is_empty());
}

#[test]
fn exact_search_orders_by_key() {
    let image = build(&larger()).unwrap();
    let index = Index::open(&image).ok().unwrap();
    let hits = index.search_exact("たべる");
    assert_eq!(entries_of(&index, &hits), vec![1358280, 1000001]);
    assert_eq!(hits[0].key.priority, 0);
    assert_eq!(hits[0].key.weight, 0);
    assert_eq!(hits[0].key.sequence, 1358280);
    assert_eq!(hits[1].key.priority, 3);
    for pair in hits.windows(2) {
        assert!(pair[0].key == pair[1].key || pair[0].key.precedes(pair[1].key));
    }
    let again = index.search_exact("たべる");
    assert_eq!(hits, again);
}

#[test]
fn prefix_search_includes_longer_phrases() {
    let image = build(&larger()).unwrap();
    let index = Index::open(&image).ok().unwrap();
    let hits = index.search_prefix("たべ");
    let found = entries_of(&index, &hits);
    assert!(found.contains(&1358280));
    assert!(found.contains(&3000000));
    assert!(found.contains(&1000001));
    assert!(!found.contains(&1169870));
    for hit in &hits {
        let phrase = index.phrase(hit.phrase).unwrap();
        assert!(phrase.starts_with("たべ"), "{phrase}");
        assert_eq!(hit.key.weight as usize, phrase.chars().count() - 2);
        assert_eq!(hit.key.sequence, index.entry(hit.entry).unwrap().sequence_number);
    }
    for pair in hits.windows(2) {
        assert!(pair[0].key.priority <= pair[1].key.priority);
        if pair[0].key.priority == pair[1].key.priority {
            assert!(index.phrase(pair[0].phrase).unwrap().as_bytes() <= index.phrase(pair[1].phrase).unwrap().as_bytes());
        }
    }
    assert_eq!(index.phrase(hits[0].phrase), Some("たべさせる"));
    assert_eq!(hits[0].key.priority, 0);
    assert_eq!(found.last(), Some(&1000001));
    assert_eq!(hits, index.search_prefix("たべ"));
    let all = index.search_prefix("");
    assert_eq!(all.len(), index.phrases());
    assert!(index.search_prefix("ん").is_empty());
    assert!(index.phrase(index.phrases()).is_none());
}

#[test]
fn inflected_forms_are_found() {
    let image = build(&larger()).unwrap();
    let index = Index::open(&image).ok().unwrap();
    assert_eq!(entries_of(&index, &index.search_exact("食べます")), vec![1358280]);
    assert_eq!(entries_of(&index, &index.search_exact("たべて")), vec![1358280]);
    assert_eq!(entries_of(&index, &index.search_exact("食べちゃった")), vec![1358280]);
    assert!(index.search_exact("喰べちゃった").is_empty());
    assert_eq!(entries_of(&index, &index.search_exact("飲んだ")), vec![1169870]);
    assert_eq!(entries_of(&index, &index.search_exact("のんでいる")), vec![1169870]);
    assert_eq!(entries_of(&index, &index.search_exact("よかった")), vec![2000000]);
    assert_eq!(entries_of(&index, &index.search_exact("食べられる")), vec![1358280]);
    assert!(index.search_exact("食べ物ます").is_empty());
    assert!(index.search_exact("いかった").is_empty());
}

#[test]
fn priority_index_lists_the_common_first() {
    let image = build(&larger()).unwrap();
    let index = Index::open(&image).ok().unwrap();
    let order: Vec<u32> = (0..index.len())
        .map(|rank| index.entry(index.by_priority(rank).unwrap()).unwrap().sequence_number)
        .collect();
    assert_eq!(order, vec![1358280, 3000000, 1169870, 1000001, 2000000]);
    assert!(index.by_priority(index.len()).is_none());
}

#[test]
fn unsorted_phrases_are_reported() {
    let image = build(&larger()).unwrap();
    let directory = u64::from_le_bytes(image[8..16].try_into().unwrap()) as usize;
    let line = directory + 4 + 20 * 8;
    let offset = u64::from_le_bytes(image[line + 4..line + 12].try_into().unwrap()) as usize;
    let mut swapped = image.clone();
    let (a, b) = (offset, offset + 12);
    for i in 0..12 {
        swapped.swap(a + i, b + i);
    }
    assert!(matches!(Index::open(&swapped), Err(ImageError::CorruptColumn)));
    let mut far = image.clone();
    far[offset + 8..offset + 12].copy_from_slice(&100u32.to_le_bytes());
    assert!(matches!(Index::open(&far), Err(ImageError::OutOfRange)));
    let line = directory + 4 + 20 * 9;
    let offset = u64::from_le_bytes(image[line + 4..line + 12].try_into().unwrap()) as usize;
    let mut ranks = image.clone();
    for i in 0..4 {
        ranks.swap(offset + i, offset + 4 + i);
    }
    assert!(matches!(Index::open(&ranks), Err(ImageError::CorruptColumn)));
}

#[test]
fn positions_in_the_order_of_their_keys() {
    let key = |priority, weight, sequence| EntryKey { priority, weight, sequence };
    let keys = vec![key(2, 0, 5), key(0, 3, 9), key(0, 3, 1), key(2, 0, 5), key(0, 0, 7), key(1, 0, 0)];
    assert_eq!(by_key(&keys), vec![4, 2, 1, 5, 0, 3]);
    assert_eq!(by_key(&Vec::new()), Vec::<usize>::new());
    assert_eq!(by_key(&vec![key(1, 1, 1)]), vec![0]);
    let same = vec![key(1, 1, 1); 4];
    assert_eq!(by_key(&same), vec![0, 1, 2, 3]);
    let falling: Vec<EntryKey> = (0..20u32).rev().map(|n| key(0, n, 0)).collect();
    assert_eq!(by_key(&falling), (0..20usize).rev().collect::<Vec<_>>());
}

use jpv_lib::database::{analyze, build, identify, stretches, Index};
use jpv_lib::inflection::{Form, Inflection};
use jpv_lib::jmdict::{Entry, KanjiElement, Priority, PriorityKind, ReadingElement, Sense};
use jpv_lib::{PartOfSpeech, PosSet};

fn entry(
    sequence_number: u32,
    kanji: &[&'static str],
    readings: &[&'static str],
    pos: &[PartOfSpeech],
    common: bool,
) -> Entry<'static> {
    let mut set = PosSet::new();
    for p in pos {
        set.insert(*p);
    }
    Entry {
        sequence_number,
        reading_elements: readings
            .iter()
            .map(|text| ReadingElement { text: *text, no_kanji: false, restrict: Vec::new() })
            .collect(),
        kanji_elements: kanji
            .iter()
            .map(|text| KanjiElement {
                text: *text,
                priority: if common { vec![Priority { kind: PriorityKind::Ichi, level: 1 }] } else { Vec::new() },
            })
            .collect(),
        senses: vec![Sense { glosses: vec!["gloss"], pos: set, misc: Vec::new(), language: "eng" }],
    }
}

fn dictionary() -> Vec<u8> {
    build(&vec![
        entry(10, &["日本"], &["にほん"], &[PartOfSpeech::Noun], false),
        entry(20, &["日本語"], &["にほんご"], &[PartOfSpeech::Noun], true),
        entry(30, &[], &["を"], &[PartOfSpeech::Particle], false),
        entry(40, &["勉強する"], &["べんきょうする"], &[PartOfSpeech::VerbSuruIncluded], false),
        entry(50, &["勉強"], &["べんきょう"], &[PartOfSpeech::Noun], true),
        entry(60, &["食べる"], &["たべる"], &[PartOfSpeech::VerbIchidan], false),
        entry(70, &["日"], &["ひ"], &[PartOfSpeech::Noun], false),
    ])
    .unwrap()
}

fn key(forms: &[Form]) -> Inflection {
    let mut key = Inflection::new();
    for form in forms {
        key = key.with(*form);
    }
    key
}

#[test]
fn longest_match_begins_the_sentence() {
    let image = dictionary();
    let index = Index::open(&image).ok().unwrap();
    let segments = analyze(&index, "日本語を勉強します", 0);
    let found: Vec<(u32, &str, usize)> =
        segments.iter().map(|s| (s.key.sequence, s.text.as_str(), s.len)).collect();
    assert_eq!(found, vec![(20, "日本語", 3), (10, "日本", 2), (70, "日", 1)]);
    assert_eq!(segments[0].key.priority, 0);
    assert_eq!(segments[0].key.weight, 6);
    assert_eq!(segments[1].key.priority, 3);
    assert_eq!(segments[1].key.weight, 7);
    assert!(segments.iter().all(|s| s.inflection.is_none()));
    assert_eq!(stretches(&segments), vec!["日本語", "日本", "日"]);
    for pair in segments.windows(2) {
        assert!(pair[0].key.precedes(pair[1].key));
    }
}

#[test]
fn inflected_forms_are_recognized() {
    let image = dictionary();
    let index = Index::open(&image).ok().unwrap();
    let segments = analyze(&index, "日本語を勉強します", 12);
    let found: Vec<(u32, &str)> = segments.iter().map(|s| (s.key.sequence, s.text.as_str())).collect();
    assert_eq!(found, vec![(50, "勉強"), (40, "勉強します")]);
    assert_eq!(segments[1].inflection, Some(key(&[Form::Polite])));
    assert_eq!(segments[0].inflection, None);
    assert_eq!(stretches(&segments), vec!["勉強", "勉強します"]);
    let segments = analyze(&index, "食べちゃったよ", 0);
    assert_eq!(segments.len(), 1);
    assert_eq!(segments[0].text, "食べちゃった");
    assert_eq!(segments[0].len, 6);
    assert_eq!(segments[0].key.weight, 1);
    assert_eq!(segments[0].inflection, Some(key(&[Form::Chau, Form::Past])));
}

#[test]
fn analysis_from_the_middle_and_the_end() {
    let image = dictionary();
    let index = Index::open(&image).ok().unwrap();
    // The start is a byte offset: を is the fourth character and lies behind nine bytes.
    let segments = analyze(&index, "日本語を勉強します", 9);
    assert_eq!(segments.len(), 1);
    assert_eq!(segments[0].text, "を");
    assert_eq!(segments[0].key.sequence, 30);
    assert!(analyze(&index, "日本語を勉強します", 27).is_empty());
    assert!(analyze(&index, "日本語を勉強します", 100).is_empty());
    assert!(analyze(&index, "", 0).is_empty());
    assert!(analyze(&index, "猫", 0).is_empty());
}

#[test]
fn analysis_is_repeatable() {
    let image = dictionary();
    let index = Index::open(&image).ok().unwrap();
    let a: Vec<String> = analyze(&index, "日本語を勉強します", 0).into_iter().map(|s| s.text).collect();
    let b: Vec<String> = analyze(&index, "日本語を勉強します", 0).into_iter().map(|s| s.text).collect();
    assert_eq!(a, b);
}

#[test]
fn dictionary_form_is_the_plain_inflection() {
    let taberu = entry(60, &["食べる"], &["たべる"], &[PartOfSpeech::VerbIchidan], false);
    assert_eq!(identify(&taberu, "食べる"), Some(key(&[])));
    assert_eq!(identify(&taberu, "たべて"), Some(key(&[Form::Te])));
    assert_eq!(identify(&taberu, "食べられる"), Some(key(&[Form::Passive])));
    assert_eq!(identify(&taberu, "食べてる"), Some(key(&[Form::TeIru, Form::Short])));
    assert_eq!(identify(&taberu, "食べ"), None);
    let noun = entry(10, &["日本"], &["にほん"], &[PartOfSpeech::Noun], false);
    assert_eq!(identify(&noun, "日本"), None);
}

#[test]
fn analysis_starts_at_a_byte_offset() {
    let image = dictionary();
    let index = Index::open(&image).ok().unwrap();
    // Behind one byte of ASCII and three of 日.
    let segments = analyze(&index, "a日を", 4);
    assert_eq!(segments.len(), 1);
    assert_eq!(segments[0].text, "を");
    let segments = analyze(&index, "aを", 1);
    assert_eq!(segments.len(), 1);
    assert_eq!(segments[0].text, "を");
    // An offset inside a character gives nothing.
    assert!(analyze(&index, "日本語を勉強します", 1).is_empty());
    assert!(analyze(&index, "日本語を勉強します", 10).is_empty());
    assert!(analyze(&index, "日本語を勉強します", 11).is_empty());
    // The position of the fourth character is no offset of one.
    assert!(analyze(&index, "日本語を勉強します", 4).is_empty());
    for offset in 0..30 {
        let text = "日本語を勉強します";
        let found = analyze(&index, text, offset);
        if !text.is_char_boundary(offset) {
            assert!(found.is_empty());
        }
    }
}

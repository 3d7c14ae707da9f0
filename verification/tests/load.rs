use jpv_lib::database::{build, Index, StoreError};
use jpv_lib::jmdict::{Entry, KanjiElement, Priority, PriorityKind, ReadingElement, Sense};
use jpv_lib::load::{
    assemble, build_image, element_of, load, Element, Fault, LoadError, Offence, Record,
};
use jpv_lib::xml::{read_element, Reader, XmlError};
use jpv_lib::{PartOfSpeech, PosSet};

const WORDS: &str = r#"<?xml version="1.0" encoding="UTF-8"?>
<!DOCTYPE JMdict [
<!ELEMENT JMdict (entry*)>
<!ENTITY v1 "Ichidan verb">
<!ENTITY vt "transitive verb">
<!ENTITY v5m "Godan verb with 'mu' ending">
]>
<!-- JMdict created: 2023-01-01 -->
<JMdict>
<entry>
<ent_seq>1169870</ent_seq>
<k_ele>
<keb>飲む</keb>
<ke_pri>news2</ke_pri>
</k_ele>
<r_ele>
<reb>のむ</reb>
</r_ele>
<sense>
<pos>&v5m;</pos>
<gloss>to drink</gloss>
</sense>
</entry>
<entry>
<ent_seq>1358280</ent_seq>
<k_ele>
<keb>食べる</keb>
<ke_pri>ichi1</ke_pri>
</k_ele>
<r_ele>
<reb>たべる</reb>
<re_restr>食べる</re_restr>
</r_ele>
<sense>
<pos>&v1;</pos>
<pos>&vt;</pos>
<gloss>to eat</gloss>
<gloss>to live on &amp; subsist</gloss>
</sense>
</entry>
</JMdict>
"#;

const CHARACTERS: &str = r#"<?xml version="1.0" encoding="UTF-8"?>
<kanjidic2>
<header>
<file_version>4</file_version>
<database_version>2023-001</database_version>
</header>
<character>
<literal>食</literal>
<codepoint>
<cp_value cp_type="ucs">98df</cp_value>
</codepoint>
<radical>
<rad_value rad_type="classical">184</rad_value>
</radical>
<misc>
<grade>2</grade>
<stroke_count>9</stroke_count>
<stroke_count>8</stroke_count>
<freq>328</freq>
</misc>
<reading_meaning>
<rmgroup>
<reading r_type="ja_on">ショク</reading>
<reading r_type="ja_kun">た.べる</reading>
<meaning>eat</meaning>
<meaning m_lang="fr">manger</meaning>
</rmgroup>
<nanori>ぐい</nanori>
</reading_meaning>
</character>
<character>
<literal>一</literal>
<misc>
<stroke_count>1</stroke_count>
</misc>
</character>
</kanjidic2>
"#;

fn tags() -> Vec<(&'static str, &'static str)> {
    (0..=255u8)
        .filter_map(PartOfSpeech::from_index)
        .map(|p| (p.ident(), p.ident()))
        .collect()
}

fn pos(list: &[PartOfSpeech]) -> PosSet {
    let mut set = PosSet::new();
    for p in list {
        set.insert(*p);
    }
    set
}

fn by_hand() -> Vec<Entry<'static>> {
    vec![
        Entry {
            sequence_number: 1169870,
            reading_elements: vec![ReadingElement { text: "のむ", no_kanji: false, restrict: Vec::new() }],
            kanji_elements: vec![KanjiElement {
                text: "飲む",
                priority: vec![Priority { kind: PriorityKind::News, level: 2 }],
            }],
            senses: vec![Sense {
                glosses: vec!["to drink"],
                pos: pos(&[PartOfSpeech::VerbGodanM]),
                misc: Vec::new(),
                language: "eng",
            }],
        },
        Entry {
            sequence_number: 1358280,
            reading_elements: vec![ReadingElement { text: "たべる", no_kanji: false, restrict: vec!["食べる"] }],
            kanji_elements: vec![KanjiElement {
                text: "食べる",
                priority: vec![Priority { kind: PriorityKind::Ichi, level: 1 }],
            }],
            senses: vec![Sense {
                glosses: vec!["to eat", "to live on & subsist"],
                pos: pos(&[PartOfSpeech::VerbIchidan, PartOfSpeech::VerbTransitive]),
                misc: Vec::new(),
                language: "eng",
            }],
        },
    ]
}

#[test]
fn a_document_of_entries_gives_their_image() {
    let image = build_image(WORDS.as_bytes(), &tags(), true).ok().unwrap();
    let index = Index::open(&image).ok().unwrap();
    assert_eq!(index.len(), 2);
    let taberu = index.lookup_sequence(1358280).unwrap();
    assert_eq!(taberu.kanji_elements[0].text, "食べる");
    assert_eq!(taberu.reading_elements[0].restrict, vec!["食べる"]);
    assert_eq!(taberu.senses[0].glosses, vec!["to eat", "to live on & subsist"]);
    assert!(taberu.senses[0].pos.contains(PartOfSpeech::VerbIchidan));
    assert!(taberu.senses[0].pos.contains(PartOfSpeech::VerbTransitive));
    assert_eq!(index.search_exact("飲んだ").len(), 1);
}

#[test]
fn an_image_from_a_document_is_that_of_its_entries() {
    let image = build_image(WORDS.as_bytes(), &tags(), true).ok().unwrap();
    assert_eq!(image, build(&by_hand()).unwrap());
}

#[test]
fn the_image_is_a_function_of_the_bytes() {
    let first = build_image(WORDS.as_bytes(), &tags(), true).ok().unwrap();
    let second = build_image(&WORDS.as_bytes().to_vec(), &tags(), true).ok().unwrap();
    assert_eq!(first, second);
}

#[test]
fn a_document_of_characters_gives_their_image() {
    let image = build_image(CHARACTERS.as_bytes(), &[], true).ok().unwrap();
    let index = Index::open(&image).ok().unwrap();
    assert_eq!(index.len(), 0);
    assert_eq!(index.characters(), 2);
    let eat = index.lookup_literal('食').unwrap();
    assert_eq!(eat.radicals, vec![184]);
    assert_eq!(eat.stroke_count, 9);
    let readings: Vec<(&str, &str)> =
        eat.reading_meaning.readings.iter().map(|r| (r.text, r.ty)).collect();
    assert_eq!(readings, vec![("ショク", "ja_on"), ("た.べる", "ja_kun")]);
    let meanings: Vec<(&str, Option<&str>)> =
        eat.reading_meaning.meanings.iter().map(|m| (m.text, m.lang)).collect();
    assert_eq!(meanings, vec![("eat", None), ("manger", Some("fr"))]);
    let one = index.character(1).unwrap();
    assert_eq!(one.literal, '一');
    assert_eq!(one.stroke_count, 1);
    assert!(one.radicals.is_empty());
    assert!(one.reading_meaning.readings.is_empty());
}

#[test]
fn both_dictionaries_go_into_one_store() {
    let store = jpv_lib::database::Store::new();
    let store = load(WORDS.as_bytes(), &tags(), true, store).ok().unwrap();
    let store = load(CHARACTERS.as_bytes(), &[], true, store).ok().unwrap();
    assert_eq!(store.len(), 2);
    let image = store.finish().unwrap();
    let index = Index::open(&image).ok().unwrap();
    assert_eq!(index.len(), 2);
    assert_eq!(index.characters(), 2);
}

fn failure(input: &str) -> LoadError {
    build_image(input.as_bytes(), &tags(), true).err().unwrap()
}

#[test]
fn an_entry_without_a_reading_is_turned_down() {
    let input = "<JMdict><entry><ent_seq>1</ent_seq><sense><gloss>x</gloss></sense></entry></JMdict>";
    assert!(matches!(failure(input), LoadError::Rejected(Fault::Missing("r_ele"))));
}

#[test]
fn an_event_without_a_place_is_turned_down() {
    let input = "<JMdict><entry><ent_seq>1</ent_seq><bogus>x</bogus></entry></JMdict>";
    match failure(input) {
        LoadError::Rejected(Fault::Unsupported(Offence::Open(name))) => assert_eq!(name, "bogus"),
        other => panic!("{other:?}"),
    }
    let input = "<JMdict><entry><ent_seq>1</ent_seq><ent_seq>2</ent_seq></entry></JMdict>";
    assert!(matches!(failure(input), LoadError::Rejected(Fault::Unsupported(Offence::Close))));
}

#[test]
fn a_field_that_is_wrong_is_turned_down() {
    let input = "<JMdict><entry><ent_seq>one</ent_seq></entry></JMdict>";
    assert!(matches!(failure(input), LoadError::Rejected(Fault::Invalid("ent_seq"))));
    let input = "<k><character><literal>食べ</literal></character></k>";
    assert!(matches!(failure(input), LoadError::Rejected(Fault::Invalid("literal"))));
    let input = "<k><character><literal>食</literal><misc><stroke_count>256</stroke_count></misc></character></k>";
    assert!(matches!(failure(input), LoadError::Rejected(Fault::Invalid("stroke_count"))));
    let input = "<k><character><literal>食</literal></character></k>";
    assert!(matches!(failure(input), LoadError::Rejected(Fault::Missing("stroke_count"))));
    let input = "<k><character><misc><stroke_count>2</stroke_count></misc></character></k>";
    assert!(matches!(failure(input), LoadError::Rejected(Fault::Missing("literal"))));
}

#[test]
fn what_the_store_turns_down_ends_the_loading() {
    let entry = "<entry><ent_seq>5</ent_seq><r_ele><reb>あ</reb></r_ele><sense><gloss>x</gloss></sense></entry>";
    let input = format!("<JMdict>{entry}{entry}</JMdict>");
    assert!(matches!(failure(&input), LoadError::Store(StoreError::Sequence)));
    let character = "<character><literal>食</literal><misc><stroke_count>9</stroke_count></misc></character>";
    let input = format!("<k>{character}{character}</k>");
    assert!(matches!(failure(&input), LoadError::Store(StoreError::Schema)));
}

#[test]
fn a_document_that_is_none_ends_the_loading() {
    assert!(matches!(failure(""), LoadError::Xml(XmlError::Truncated)));
    assert!(matches!(failure("<JMdict><entry>"), LoadError::Xml(XmlError::Truncated)));
    assert!(matches!(failure("<JMdict></JMdict><more/>"), LoadError::Xml(XmlError::Malformed)));
    assert!(matches!(
        failure("<JMdict><entry><pos>&nope;</pos></entry></JMdict>"),
        LoadError::Xml(XmlError::UnknownEntity)
    ));
}

#[test]
fn an_empty_dictionary() {
    let image = build_image(b"<JMdict/>", &[], true).ok().unwrap();
    assert_eq!(image, build(&Vec::new()).unwrap());
    let image = build_image(b"<JMdict>\n<other><entry/></other>\n</JMdict>\n", &[], true).ok().unwrap();
    assert_eq!(image, build(&Vec::new()).unwrap());
}

#[test]
fn a_record_is_assembled_from_the_events_of_its_element() {
    assert_eq!(element_of("entry"), Some(Element::Entry));
    assert_eq!(element_of("character"), Some(Element::Character));
    assert_eq!(element_of("header"), None);
    let input = "<r><entry><ent_seq>7</ent_seq><r_ele><reb>&amp;</reb></r_ele><sense><gloss>and</gloss></sense></entry></r>";
    let mut reader = Reader::new(input.as_bytes(), &[], true);
    reader.next().unwrap();
    reader.next().unwrap();
    let items = read_element(&mut reader, 2).unwrap();
    match assemble(Element::Entry, &items) {
        Ok(Record::Entry(entry)) => {
            assert_eq!(entry.sequence_number, 7);
            assert_eq!(entry.reading_elements[0].text, "&");
        }
        other => panic!("{other:?}"),
    }
    let mut cut = items;
    cut.pop();
    assert!(matches!(assemble(Element::Entry, &cut), Err(LoadError::Unfinished)));
    // A character passes over children that it does not keep, and so never closes.
    assert!(matches!(assemble(Element::Character, &cut), Err(LoadError::Unfinished)));
}

const NAMES: &str = r#"<?xml version="1.0" encoding="UTF-8"?>
<!DOCTYPE JMnedict [
<!ENTITY surname "family or surname">
<!ENTITY place "place name">
]>
<JMnedict>
<entry>
<ent_seq>5000001</ent_seq>
<k_ele>
<keb>田中</keb>
</k_ele>
<r_ele>
<reb>たなか</reb>
</r_ele>
<trans>
<name_type>&surname;</name_type>
<name_type>&place;</name_type>
<trans_det>Tanaka</trans_det>
</trans>
</entry>
</JMnedict>
"#;

#[test]
fn a_document_of_names_gives_their_image() {
    let entities = [("surname", "surname"), ("place", "place")];
    let image = build_image(NAMES.as_bytes(), &entities, true).ok().unwrap();
    let index = Index::open(&image).ok().unwrap();
    assert_eq!(index.len(), 1);
    let name = index.lookup_sequence(5000001).unwrap();
    assert_eq!(name.kanji_elements[0].text, "田中");
    assert_eq!(name.reading_elements[0].text, "たなか");
    assert_eq!(name.senses.len(), 1);
    assert_eq!(name.senses[0].glosses, vec!["Tanaka"]);
    assert_eq!(name.senses[0].misc, vec!["surname", "place"]);
    assert!(name.senses[0].pos.to_vec().is_empty());
    assert_eq!(index.search_exact("たなか").len(), 1);
    // Read without a table, the kinds of name stay as they are written.
    let image = build_image(NAMES.as_bytes(), &[], false).ok().unwrap();
    let index = Index::open(&image).ok().unwrap();
    assert_eq!(index.lookup_sequence(5000001).unwrap().senses[0].misc, vec!["&surname;", "&place;"]);
}

use jpv_lib::jmdict::builder::Builder as EntryBuilder;
use jpv_lib::jmdict::example_sentence::Builder as SentenceBuilder;
use jpv_lib::jmdict::kanji_element::Builder as KanjiBuilder;
use jpv_lib::jmdict::reading_element::Builder as ReadingBuilder;
use jpv_lib::jmdict::sense::Builder as SenseBuilder;
use jpv_lib::jmdict::{Entry, Priority, PriorityKind};
use jpv_lib::kanjidic2::reading::Builder as CharacterReadingBuilder;
use jpv_lib::parser::{Error, Leaf, Output, Poll, Skip};
use jpv_lib::PartOfSpeech;

fn leaf(name: &'static str, text: &'static str) -> Vec<Output<'static>> {
    vec![Output::Open(name), Output::Text(text), Output::Close]
}

fn taberu() -> Vec<Output<'static>> {
    let mut events = Vec::new();
    events.extend(leaf("ent_seq", "1358280"));
    events.push(Output::Open("k_ele"));
    events.extend(leaf("keb", "食べる"));
    events.extend(leaf("ke_pri", "ichi1"));
    events.extend(leaf("ke_pri", "nf07"));
    events.push(Output::Close);
    events.push(Output::Open("k_ele"));
    events.extend(leaf("keb", "喰べる"));
    events.extend(leaf("ke_inf", "iK"));
    events.push(Output::Close);
    events.push(Output::Open("r_ele"));
    events.extend(leaf("reb", "たべる"));
    events.extend(leaf("re_restr", "食べる"));
    events.extend(leaf("re_pri", "ichi1"));
    events.push(Output::Close);
    events.push(Output::Open("sense"));
    events.extend(leaf("pos", "v1"));
    events.extend(leaf("pos", "vt"));
    events.extend(leaf("xref", "食う"));
    events.extend(leaf("misc", "uk"));
    events.push(Output::Open("gloss"));
    events.push(Output::Attribute("lang", "eng"));
    events.push(Output::Attribute("g_type", "expl"));
    events.push(Output::Text("to eat"));
    events.push(Output::Close);
    events.extend(leaf("gloss", "to live on"));
    events.push(Output::Open("example"));
    events.extend(leaf("ex_text", "食べる"));
    events.push(Output::Open("ex_sent"));
    events.push(Output::Attribute("lang", "jpn"));
    events.push(Output::Text("ご飯を食べる。"));
    events.push(Output::Close);
    events.push(Output::Close);
    events.push(Output::Close);
    events.push(Output::Close);
    events
}

fn build(events: Vec<Output<'static>>) -> Result<Entry<'static>, Error<'static>> {
    let mut builder = EntryBuilder::new();
    let last = events.len() - 1;
    for (n, event) in events.into_iter().enumerate() {
        match builder.poll(event)? {
            Poll::Pending => assert!(n < last),
            Poll::Ready(entry) => {
                assert_eq!(n, last);
                return Ok(entry);
            }
        }
    }
    unreachable!()
}

#[test]
fn entry_is_assembled() {
    let entry = build(taberu()).unwrap();
    assert_eq!(entry.sequence_number, 1358280);
    assert_eq!(entry.kanji_elements.len(), 2);
    assert_eq!(entry.kanji_elements[0].text, "食べる");
    assert_eq!(
        entry.kanji_elements[0].priority,
        vec![
            Priority { kind: PriorityKind::Ichi, level: 1 },
            Priority { kind: PriorityKind::Nf, level: 7 }
        ]
    );
    assert_eq!(entry.kanji_elements[1].text, "喰べる");
    assert!(entry.kanji_elements[1].priority.is_empty());
    assert_eq!(entry.reading_elements.len(), 1);
    assert_eq!(entry.reading_elements[0].text, "たべる");
    assert!(!entry.reading_elements[0].no_kanji);
    assert_eq!(entry.reading_elements[0].restrict, vec!["食べる"]);
    assert_eq!(entry.senses.len(), 1);
    let sense = &entry.senses[0];
    assert_eq!(sense.glosses, vec!["to eat", "to live on"]);
    assert_eq!(sense.misc, vec!["uk"]);
    assert_eq!(sense.language, "eng");
    assert_eq!(sense.pos.to_vec(), vec![PartOfSpeech::VerbIchidan, PartOfSpeech::VerbTransitive]);
}

#[test]
fn built_entry_has_a_reading_and_a_sense() {
    let entry = build(taberu()).unwrap();
    assert!(entry.reading_elements.len() >= 1);
    assert!(entry.senses.len() >= 1);
}

#[test]
fn entry_builder_wants_text_inside_children_only() {
    let mut builder = EntryBuilder::new();
    assert!(!builder.wants_text());
    assert!(matches!(builder.poll(Output::Open("ent_seq")), Ok(Poll::Pending)));
    assert!(builder.wants_text());
    assert!(matches!(builder.poll(Output::Text("1")), Ok(Poll::Pending)));
    assert!(matches!(builder.poll(Output::Close), Ok(Poll::Pending)));
    assert!(!builder.wants_text());
}

#[test]
fn entry_without_sequence_number_is_turned_down() {
    let mut events = taberu();
    events.drain(0..3);
    assert!(matches!(build(events), Err(Error::Missing("ent_seq"))));
}

#[test]
fn entry_without_reading_is_turned_down() {
    let mut events = Vec::new();
    events.extend(leaf("ent_seq", "1"));
    events.push(Output::Open("sense"));
    events.extend(leaf("gloss", "x"));
    events.push(Output::Close);
    events.push(Output::Close);
    assert!(matches!(build(events), Err(Error::Missing("r_ele"))));
}

#[test]
fn entry_without_sense_is_turned_down() {
    let mut events = Vec::new();
    events.extend(leaf("ent_seq", "1"));
    events.push(Output::Open("r_ele"));
    events.extend(leaf("reb", "あ"));
    events.push(Output::Close);
    events.push(Output::Close);
    assert!(matches!(build(events), Err(Error::Missing("sense"))));
}

#[test]
fn sequence_number_must_be_a_number() {
    for text in ["", "x", "12a", "+1", "4294967296", "-1"] {
        let mut events = Vec::new();
        events.extend(leaf("ent_seq", text));
        events.push(Output::Close);
        assert!(matches!(build(events), Err(Error::Invalid("ent_seq"))), "{text}");
    }
    let mut events = taberu();
    events[1] = Output::Text("4294967295");
    assert_eq!(build(events).unwrap().sequence_number, u32::MAX);
}

#[test]
fn second_sequence_number_is_turned_down() {
    let mut events = Vec::new();
    events.extend(leaf("ent_seq", "1"));
    events.extend(leaf("ent_seq", "2"));
    events.push(Output::Close);
    assert!(matches!(build(events), Err(Error::Unsupported(Output::Close))));
}

#[test]
fn repeated_written_form_is_turned_down() {
    let mut events = Vec::new();
    events.extend(leaf("ent_seq", "1"));
    for _ in 0..2 {
        events.push(Output::Open("k_ele"));
        events.extend(leaf("keb", "食べる"));
        events.push(Output::Close);
    }
    events.push(Output::Close);
    assert!(matches!(build(events), Err(Error::Invalid("keb"))));
}

#[test]
fn unknown_child_is_turned_down() {
    let mut builder = EntryBuilder::new();
    assert!(matches!(builder.poll(Output::Open("info")), Err(Error::Unsupported(Output::Open("info")))));
    assert!(matches!(builder.poll(Output::Text("x")), Err(Error::Unsupported(Output::Text("x")))));
    assert!(matches!(
        builder.poll(Output::Attribute("a", "b")),
        Err(Error::Unsupported(Output::Attribute("a", "b")))
    ));
}

#[test]
fn written_form_needs_its_text() {
    let mut builder = KanjiBuilder::new();
    assert!(matches!(builder.poll(Output::Close), Err(Error::Missing("keb"))));
    let mut builder = KanjiBuilder::new();
    for event in leaf("ke_pri", "common") {
        match builder.poll(event) {
            Ok(Poll::Pending) => {}
            Err(Error::Invalid("ke_pri")) => return,
            other => panic!("{other:?}"),
        }
    }
    panic!("tag was taken");
}

#[test]
fn priority_tags() {
    assert_eq!(Priority::parse("news1"), Some(Priority { kind: PriorityKind::News, level: 1 }));
    assert_eq!(Priority::parse("ichi2"), Some(Priority { kind: PriorityKind::Ichi, level: 2 }));
    assert_eq!(Priority::parse("spec1"), Some(Priority { kind: PriorityKind::Spec, level: 1 }));
    assert_eq!(Priority::parse("gai2"), Some(Priority { kind: PriorityKind::Gai, level: 2 }));
    assert_eq!(Priority::parse("nf48"), Some(Priority { kind: PriorityKind::Nf, level: 48 }));
    assert_eq!(Priority::parse("nf255"), Some(Priority { kind: PriorityKind::Nf, level: 255 }));
    assert_eq!(Priority::parse("nf256"), None);
    assert_eq!(Priority::parse("nf"), None);
    assert_eq!(Priority::parse("nf+1"), None);
    assert_eq!(Priority::parse("news"), None);
    assert_eq!(Priority::parse("new1"), None);
    assert_eq!(Priority::parse(""), None);
}

#[test]
fn reading_marked_as_standing_alone() {
    let mut builder = ReadingBuilder::new();
    let mut events = leaf("reb", "タベル");
    events.push(Output::Open("re_nokanji"));
    events.push(Output::Close);
    events.extend(leaf("re_inf", "ik"));
    for event in events {
        assert!(matches!(builder.poll(event), Ok(Poll::Pending)));
    }
    match builder.poll(Output::Close) {
        Ok(Poll::Ready(reading)) => {
            assert_eq!(reading.text, "タベル");
            assert!(reading.no_kanji);
            assert!(reading.restrict.is_empty());
        }
        other => panic!("{other:?}"),
    }
    let mut builder = ReadingBuilder::new();
    assert!(matches!(builder.poll(Output::Close), Err(Error::Missing("reb"))));
}

#[test]
fn sense_needs_a_gloss_and_known_tags() {
    let mut builder = SenseBuilder::new();
    for event in leaf("pos", "n") {
        assert!(matches!(builder.poll(event), Ok(Poll::Pending)));
    }
    assert!(matches!(builder.poll(Output::Close), Err(Error::Missing("gloss"))));
    let mut builder = SenseBuilder::new();
    assert!(matches!(builder.poll(Output::Open("pos")), Ok(Poll::Pending)));
    assert!(matches!(builder.poll(Output::Text("verb")), Ok(Poll::Pending)));
    assert!(matches!(builder.poll(Output::Close), Err(Error::Invalid("pos"))));
}

#[test]
fn sense_takes_the_language_of_its_first_gloss() {
    let mut builder = SenseBuilder::new();
    let mut events = Vec::new();
    events.extend(leaf("gloss", "plain"));
    events.push(Output::Open("gloss"));
    events.push(Output::Attribute("lang", "fre"));
    events.push(Output::Text("manger"));
    events.push(Output::Close);
    events.push(Output::Open("gloss"));
    events.push(Output::Attribute("lang", "ger"));
    events.push(Output::Text("essen"));
    events.push(Output::Close);
    for event in events {
        assert!(matches!(builder.poll(event), Ok(Poll::Pending)));
    }
    match builder.poll(Output::Close) {
        Ok(Poll::Ready(sense)) => {
            assert_eq!(sense.language, "fre");
            assert_eq!(sense.glosses, vec!["plain", "manger", "essen"]);
        }
        other => panic!("{other:?}"),
    }
}

#[test]
fn leaf_takes_text_and_language_once() {
    let mut builder = Leaf::new();
    assert!(builder.wants_text());
    assert!(matches!(builder.poll(Output::Attribute("lang", "eng")), Ok(Poll::Pending)));
    assert!(matches!(builder.poll(Output::Attribute("other", "x")), Ok(Poll::Pending)));
    assert!(matches!(builder.poll(Output::Attribute("lang", "fre")), Err(Error::Unsupported(_))));
    assert!(matches!(builder.poll(Output::Text("a")), Ok(Poll::Pending)));
    assert!(matches!(builder.poll(Output::Text("b")), Err(Error::Unsupported(Output::Text("b")))));
    assert!(matches!(builder.poll(Output::Open("c")), Err(Error::Unsupported(_))));
    match builder.poll(Output::Close) {
        Ok(Poll::Ready(text)) => {
            assert_eq!(text.text, "a");
            assert_eq!(text.lang, Some("eng"));
        }
        other => panic!("{other:?}"),
    }
    let mut empty = Leaf::new();
    assert!(matches!(empty.poll(Output::Close), Ok(Poll::Ready(text)) if text.text.is_empty() && text.lang.is_none()));
}

#[test]
fn skipper_passes_over_a_subtree() {
    let mut skip = Skip::new();
    assert!(matches!(skip.poll(Output::Text("x")), Ok(Poll::Pending)));
    assert!(matches!(skip.poll(Output::Open("a")), Ok(Poll::Pending)));
    assert!(matches!(skip.poll(Output::Open("b")), Ok(Poll::Pending)));
    assert!(matches!(skip.poll(Output::Close), Ok(Poll::Pending)));
    assert!(matches!(skip.poll(Output::Attribute("k", "v")), Ok(Poll::Pending)));
    assert!(matches!(skip.poll(Output::Close), Ok(Poll::Pending)));
    assert!(matches!(skip.poll(Output::Close), Ok(Poll::Ready(()))));
}

#[test]
fn example_sentence_is_assembled() {
    let mut builder = SentenceBuilder::new();
    assert!(builder.wants_text());
    assert!(matches!(builder.poll(Output::Attribute("lang", "jpn")), Ok(Poll::Pending)));
    assert!(matches!(builder.poll(Output::Text("猫がいる。")), Ok(Poll::Pending)));
    match builder.poll(Output::Close) {
        Ok(Poll::Ready(sentence)) => {
            assert_eq!(sentence.text, "猫がいる。");
            assert_eq!(sentence.lang, Some("jpn"));
        }
        other => panic!("{other:?}"),
    }
}

#[test]
fn example_sentence_slots_take_one_value() {
    let mut builder = SentenceBuilder::new();
    assert!(matches!(builder.poll(Output::Text("a")), Ok(Poll::Pending)));
    assert!(matches!(builder.poll(Output::Text("b")), Err(Error::Unsupported(Output::Text("b")))));
    assert!(matches!(builder.poll(Output::Attribute("lang", "x")), Ok(Poll::Pending)));
    assert!(matches!(builder.poll(Output::Attribute("lang", "y")), Err(Error::Unsupported(_))));
    assert!(matches!(builder.poll(Output::Attribute("type", "y")), Err(Error::Unsupported(_))));
    assert!(matches!(builder.poll(Output::Open("x")), Err(Error::Unsupported(_))));
    assert!(matches!(builder.poll(Output::Close), Ok(Poll::Ready(s)) if s.text == "a" && s.lang == Some("x")));
}

#[test]
fn example_sentence_needs_its_text() {
    let mut builder = SentenceBuilder::new();
    assert!(matches!(builder.poll(Output::Attribute("lang", "jpn")), Ok(Poll::Pending)));
    assert!(matches!(builder.poll(Output::Close), Err(Error::Missing("text"))));
    let mut builder = SentenceBuilder::new();
    assert!(matches!(builder.poll(Output::Text("a")), Ok(Poll::Pending)));
    assert!(matches!(builder.poll(Output::Close), Ok(Poll::Ready(s)) if s.lang.is_none()));
}

#[test]
fn character_reading_is_assembled() {
    let mut builder = CharacterReadingBuilder::new();
    assert!(builder.wants_text());
    assert!(matches!(builder.poll(Output::Attribute("r_type", "ja_on")), Ok(Poll::Pending)));
    assert!(matches!(builder.poll(Output::Text("ア")), Ok(Poll::Pending)));
    match builder.poll(Output::Close) {
        Ok(Poll::Ready(reading)) => {
            assert_eq!(reading.text, "ア");
            assert_eq!(reading.ty, "ja_on");
        }
        other => panic!("{other:?}"),
    }
}

#[test]
fn character_reading_needs_text_and_kind() {
    let mut builder = CharacterReadingBuilder::new();
    assert!(matches!(builder.poll(Output::Close), Err(Error::Missing("text"))));
    assert!(matches!(builder.poll(Output::Attribute("r_type", "ja_kun")), Ok(Poll::Pending)));
    assert!(matches!(builder.poll(Output::Close), Err(Error::Missing("text"))));
    let mut builder = CharacterReadingBuilder::new();
    assert!(matches!(builder.poll(Output::Text("あ")), Ok(Poll::Pending)));
    assert!(matches!(builder.poll(Output::Close), Err(Error::Missing("r_type"))));
    assert!(matches!(builder.poll(Output::Attribute("lang", "x")), Err(Error::Unsupported(_))));
    assert!(matches!(builder.poll(Output::Text("い")), Err(Error::Unsupported(_))));
}

#[test]
fn parts_of_speech_by_tag() {
    assert_eq!(PartOfSpeech::parse("v1"), Some(PartOfSpeech::VerbIchidan));
    assert_eq!(PartOfSpeech::parse("v5k-s"), Some(PartOfSpeech::VerbGodanKS));
    assert_eq!(PartOfSpeech::parse("adj-ix"), Some(PartOfSpeech::AdjectiveIx));
    assert_eq!(PartOfSpeech::parse("vz"), Some(PartOfSpeech::VerbZuru));
    assert_eq!(PartOfSpeech::parse("V1"), None);
    assert_eq!(PartOfSpeech::parse(""), None);
    let mut seen = 0;
    for index in 0..=u8::MAX {
        match PartOfSpeech::from_index(index) {
            Some(pos) => {
                assert_eq!(pos.index(), index);
                assert_eq!(PartOfSpeech::parse(pos.ident()), Some(pos));
                seen += 1;
            }
            None => assert!(index >= jpv_lib::entities::PART_OF_SPEECH_COUNT),
        }
    }
    assert_eq!(seen, 92);
    assert_eq!(PartOfSpeech::VerbIchidan.index(), 0);
}

#[test]
fn entry_builder_asks_its_child_about_text() {
    let mut builder = EntryBuilder::new();
    assert!(matches!(builder.poll(Output::Open("k_ele")), Ok(Poll::Pending)));
    // Between the children of a written form text is of no use.
    assert!(!builder.wants_text());
    assert!(matches!(builder.poll(Output::Open("keb")), Ok(Poll::Pending)));
    assert!(builder.wants_text());
    assert!(matches!(builder.poll(Output::Text("食べる")), Ok(Poll::Pending)));
    assert!(matches!(builder.poll(Output::Close), Ok(Poll::Pending)));
    assert!(!builder.wants_text());
    assert!(matches!(builder.poll(Output::Close), Ok(Poll::Pending)));
    assert!(!builder.wants_text());
}

#[test]
fn meaning_takes_text_and_language_once() {
    let mut builder = jpv_lib::kanjidic2::meaning::Builder::new();
    assert!(builder.wants_text());
    assert!(matches!(builder.poll(Output::Attribute("m_lang", "fr")), Ok(Poll::Pending)));
    assert!(matches!(
        builder.poll(Output::Attribute("m_lang", "es")),
        Err(Error::Unsupported(Output::Attribute("m_lang", "es")))
    ));
    assert!(matches!(builder.poll(Output::Close), Err(Error::Missing("text"))));
    assert!(matches!(builder.poll(Output::Text("manger")), Ok(Poll::Pending)));
    assert!(matches!(builder.poll(Output::Text("again")), Err(Error::Unsupported(Output::Text("again")))));
    assert!(matches!(builder.poll(Output::Open("x")), Err(Error::Unsupported(Output::Open("x")))));
    match builder.poll(Output::Close) {
        Ok(Poll::Ready(meaning)) => {
            assert_eq!(meaning.text, "manger");
            assert_eq!(meaning.lang, Some("fr"));
        }
        other => panic!("{other:?}"),
    }
}

fn feed_character<'a>(
    builder: &mut jpv_lib::kanjidic2::builder::Builder<'a>,
    events: &[Output<'a>],
) {
    for event in events {
        assert!(matches!(builder.poll(*event), Ok(Poll::Pending)), "{event:?}");
    }
}

#[test]
fn character_builder_walks_its_element() {
    let mut builder = jpv_lib::kanjidic2::builder::Builder::new();
    assert!(!builder.wants_text());
    feed_character(&mut builder, &[Output::Open("literal")]);
    assert!(builder.wants_text());
    feed_character(&mut builder, &[Output::Text("食"), Output::Close]);
    assert!(!builder.wants_text());
    feed_character(
        &mut builder,
        &[
            Output::Open("codepoint"),
            Output::Open("cp_value"),
            Output::Attribute("cp_type", "ucs"),
            Output::Text("98df"),
            Output::Close,
            Output::Close,
            Output::Open("radical"),
            Output::Open("rad_value"),
            Output::Attribute("rad_type", "classical"),
            Output::Text("184"),
            Output::Close,
            Output::Close,
            Output::Open("misc"),
            Output::Open("grade"),
            Output::Close,
            Output::Open("stroke_count"),
            Output::Text("9"),
            Output::Close,
            Output::Open("stroke_count"),
            Output::Text("8"),
            Output::Close,
            Output::Close,
            Output::Open("reading_meaning"),
            Output::Open("rmgroup"),
            Output::Open("reading"),
            Output::Attribute("r_type", "ja_on"),
            Output::Text("ショク"),
            Output::Close,
            Output::Open("meaning"),
            Output::Text("eat"),
            Output::Close,
            Output::Close,
            Output::Open("nanori"),
            Output::Close,
            Output::Close,
        ],
    );
    match builder.poll(Output::Close) {
        Ok(Poll::Ready(character)) => {
            assert_eq!(character.literal, '食');
            assert_eq!(character.radicals, vec![184]);
            assert_eq!(character.stroke_count, 9);
            assert_eq!(character.reading_meaning.readings.len(), 1);
            assert_eq!(character.reading_meaning.readings[0].ty, "ja_on");
            assert_eq!(character.reading_meaning.meanings.len(), 1);
            assert_eq!(character.reading_meaning.meanings[0].lang, None);
        }
        other => panic!("{other:?}"),
    }
    // The builder is ready for the next character.
    assert!(matches!(builder.poll(Output::Close), Err(Error::Missing("literal"))));
}

#[test]
fn character_builder_turns_down_what_has_no_place() {
    let mut builder = jpv_lib::kanjidic2::builder::Builder::new();
    assert!(matches!(builder.poll(Output::Text("x")), Err(Error::Unsupported(Output::Text("x")))));
    feed_character(&mut builder, &[Output::Open("radical")]);
    assert!(matches!(builder.poll(Output::Open("other")), Err(Error::Unsupported(Output::Open("other")))));
    feed_character(&mut builder, &[Output::Open("rad_value"), Output::Text("x1")]);
    assert!(matches!(builder.poll(Output::Close), Err(Error::Invalid("rad_value"))));
    feed_character(&mut builder, &[Output::Close, Output::Open("literal"), Output::Text("食"), Output::Close]);
    feed_character(&mut builder, &[Output::Open("literal"), Output::Text("飲")]);
    assert!(matches!(builder.poll(Output::Close), Err(Error::Unsupported(Output::Close))));
    feed_character(&mut builder, &[Output::Open("reading_meaning"), Output::Open("rmgroup")]);
    assert!(matches!(builder.poll(Output::Open("nanori")), Err(Error::Unsupported(Output::Open("nanori")))));
    feed_character(&mut builder, &[Output::Open("reading"), Output::Text("た.べる")]);
    assert!(matches!(builder.poll(Output::Close), Err(Error::Missing("r_type"))));
}

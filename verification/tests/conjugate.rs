use jpv_lib::inflection::{conjugate, Form, Inflection, Inflections, Kind, Reading};
use jpv_lib::jmdict::{Entry, KanjiElement, ReadingElement, Sense};
use jpv_lib::{PartOfSpeech, PosSet};

fn sense(pos: &[PartOfSpeech]) -> Sense<'static> {
    let mut set = PosSet::new();
    for p in pos {
        set.insert(*p);
    }
    Sense { glosses: vec!["gloss"], pos: set, misc: Vec::new(), language: "eng" }
}

fn word(kanji: &[&'static str], readings: &[&'static str], pos: &[PartOfSpeech]) -> Entry<'static> {
    Entry {
        sequence_number: 1,
        reading_elements: readings
            .iter()
            .map(|text| ReadingElement { text: *text, no_kanji: false, restrict: Vec::new() })
            .collect(),
        kanji_elements: kanji
            .iter()
            .map(|text| KanjiElement { text: *text, priority: Vec::new() })
            .collect(),
        senses: vec![sense(pos)],
    }
}

fn key(forms: &[Form]) -> Inflection {
    let mut key = Inflection::new();
    for form in forms {
        key = key.with(*form);
    }
    key
}

fn written(inflections: &Inflections<'_>, forms: &[Form]) -> Option<String> {
    inflections.get(key(forms)).map(|f| f.text())
}

fn read(inflections: &Inflections<'_>, forms: &[Form]) -> Option<String> {
    inflections.get(key(forms)).map(|f| f.reading())
}

fn some(s: &str) -> Option<String> {
    Some(s.to_string())
}

#[test]
fn ichidan_taberu() {
    let entry = word(&["食べる"], &["たべる"], &[PartOfSpeech::VerbIchidan]);
    let out = conjugate(&entry);
    assert_eq!(out.len(), 1);
    let (reading, inflections, kind) = &out[0];
    assert_eq!(*reading, Reading { kanji: 0, reading: 0 });
    assert!(matches!(kind, Kind::Verb));
    assert_eq!(inflections.dictionary.text(), "食べる");
    assert_eq!(inflections.dictionary.reading(), "たべる");
    assert_eq!(written(inflections, &[]), some("食べる"));
    assert_eq!(written(inflections, &[Form::Te]), some("食べて"));
    assert_eq!(read(inflections, &[Form::Te]), some("たべて"));
    assert_eq!(written(inflections, &[Form::Past]), some("食べた"));
    assert_eq!(written(inflections, &[Form::Negative]), some("食べない"));
    assert_eq!(written(inflections, &[Form::Polite]), some("食べます"));
    assert_eq!(written(inflections, &[Form::Past, Form::Negative, Form::Polite]), some("食べませんでした"));
    assert_eq!(written(inflections, &[Form::TeIru, Form::Short]), some("食べてる"));
    assert_eq!(written(inflections, &[Form::TeIru]), some("食べている"));
    assert_eq!(written(inflections, &[Form::TeIru, Form::Polite]), some("食べています"));
    assert_eq!(written(inflections, &[Form::TeAru]), some("食べてある"));
    assert_eq!(written(inflections, &[Form::TeIku, Form::Past]), some("食べていった"));
    assert_eq!(written(inflections, &[Form::TeShimau]), some("食べてしまう"));
    assert_eq!(written(inflections, &[Form::TeShimau, Form::Past]), some("食べてしまった"));
    assert_eq!(written(inflections, &[Form::TeOku]), some("食べておく"));
    assert_eq!(written(inflections, &[Form::TeOku, Form::Short]), some("食べてく"));
    assert_eq!(written(inflections, &[Form::TeKuru]), some("食べてくる"));
    assert_eq!(written(inflections, &[Form::TeKuru, Form::Past]), some("食べてきた"));
    assert_eq!(written(inflections, &[Form::Chau]), some("食べちゃう"));
    assert_eq!(written(inflections, &[Form::Chau, Form::Past]), some("食べちゃった"));
    assert_eq!(read(inflections, &[Form::Chau]), some("たべちゃう"));
    assert_eq!(written(inflections, &[Form::Passive]), some("食べられる"));
    assert_eq!(written(inflections, &[Form::Potential]), some("食べられる"));
    assert_eq!(written(inflections, &[Form::Causative]), some("食べさせる"));
    assert_eq!(written(inflections, &[Form::Volitional]), some("食べよう"));
    assert_eq!(written(inflections, &[Form::Imperative]), some("食べろ"));
    assert_eq!(written(inflections, &[Form::Conditional]), some("食べれば"));
    assert_eq!(written(inflections, &[Form::Te, Form::Past]), None);
}

#[test]
fn godan_nomu() {
    let entry = word(&["飲む"], &["のむ"], &[PartOfSpeech::VerbGodanM]);
    let out = conjugate(&entry);
    assert_eq!(out.len(), 1);
    let (_, inflections, kind) = &out[0];
    assert!(matches!(kind, Kind::Verb));
    assert_eq!(written(inflections, &[]), some("飲む"));
    assert_eq!(written(inflections, &[Form::Te]), some("飲んで"));
    assert_eq!(written(inflections, &[Form::Past]), some("飲んだ"));
    assert_eq!(written(inflections, &[Form::Negative]), some("飲まない"));
    assert_eq!(written(inflections, &[Form::Polite]), some("飲みます"));
    assert_eq!(written(inflections, &[Form::Chau]), some("飲んじゃう"));
    assert_eq!(read(inflections, &[Form::Chau]), some("のんじゃう"));
    assert_eq!(written(inflections, &[Form::Chau, Form::Polite]), some("飲んじゃいます"));
    assert_eq!(written(inflections, &[Form::Volitional]), some("飲もう"));
    assert_eq!(written(inflections, &[Form::Conditional]), some("飲めば"));
    assert_eq!(written(inflections, &[Form::Potential]), some("飲める"));
    assert_eq!(written(inflections, &[Form::Passive]), some("飲まれる"));
    assert_eq!(written(inflections, &[Form::Causative]), some("飲ませる"));
    assert_eq!(written(inflections, &[Form::Imperative]), some("飲め"));
    assert_eq!(written(inflections, &[Form::Imperative, Form::Negative]), some("飲むな"));
    assert_eq!(written(inflections, &[Form::TeIru]), some("飲んでいる"));
    assert_eq!(written(inflections, &[Form::TeIru, Form::Short]), some("飲んでる"));
}

#[test]
fn godan_iku_exception() {
    let entry = word(&["行く"], &["いく"], &[PartOfSpeech::VerbGodanKS]);
    let out = conjugate(&entry);
    assert_eq!(out.len(), 1);
    let (_, inflections, _) = &out[0];
    assert_eq!(written(inflections, &[Form::Te]), some("行って"));
    assert_eq!(written(inflections, &[Form::Past]), some("行った"));
    assert_ne!(written(inflections, &[Form::Te]), some("行いて"));
    assert_ne!(written(inflections, &[Form::Past]), some("行いた"));
    assert_eq!(written(inflections, &[Form::Negative]), some("行かない"));
    assert_eq!(written(inflections, &[Form::Chau]), some("行っちゃう"));
}

#[test]
fn godan_kaku_is_regular() {
    let entry = word(&["書く"], &["かく"], &[PartOfSpeech::VerbGodanK]);
    let out = conjugate(&entry);
    let (_, inflections, _) = &out[0];
    assert_eq!(written(inflections, &[Form::Te]), some("書いて"));
    assert_eq!(written(inflections, &[Form::Past]), some("書いた"));
    assert_eq!(written(inflections, &[Form::Chau]), some("書いちゃう"));
}

#[test]
fn godan_oyogu_is_voiced() {
    let entry = word(&["泳ぐ"], &["およぐ"], &[PartOfSpeech::VerbGodanG]);
    let out = conjugate(&entry);
    let (_, inflections, _) = &out[0];
    assert_eq!(written(inflections, &[Form::Te]), some("泳いで"));
    assert_eq!(written(inflections, &[Form::Chau]), some("泳いじゃう"));
}

#[test]
fn adjective_ii() {
    let entry = word(&[], &["いい"], &[PartOfSpeech::AdjectiveIx]);
    let out = conjugate(&entry);
    assert_eq!(out.len(), 1);
    let (reading, inflections, kind) = &out[0];
    assert_eq!(*reading, Reading { kanji: u8::MAX, reading: 0 });
    assert!(matches!(kind, Kind::Adjective));
    assert_eq!(written(inflections, &[]), some("いい"));
    assert_eq!(written(inflections, &[Form::Past]), some("よかった"));
    assert_ne!(written(inflections, &[Form::Past]), some("いかった"));
    assert_eq!(written(inflections, &[Form::Negative]), some("よくない"));
    assert_eq!(written(inflections, &[Form::Past, Form::Negative]), some("よなかった"));
    assert_eq!(written(inflections, &[Form::Past, Form::Negative, Form::Polite]), some("よなかったです"));
    assert_eq!(written(inflections, &[Form::Te]), None);
    assert_eq!(written(inflections, &[Form::Chau]), None);
    assert_eq!(written(inflections, &[Form::TeIru]), None);
}

#[test]
fn adjective_i() {
    let entry = word(&["高い"], &["たかい"], &[PartOfSpeech::AdjectiveI]);
    let out = conjugate(&entry);
    let (_, inflections, kind) = &out[0];
    assert!(matches!(kind, Kind::Adjective));
    assert_eq!(written(inflections, &[]), some("高い"));
    assert_eq!(written(inflections, &[Form::Past]), some("高かった"));
    assert_eq!(written(inflections, &[Form::Negative]), some("高くない"));
    assert_eq!(read(inflections, &[Form::Negative, Form::Polite]), some("たかくないです"));
    assert_eq!(written(inflections, &[Form::Past, Form::Negative]), some("高なかった"));
}

#[test]
fn adjective_na() {
    let entry = word(&["静か"], &["しずか"], &[PartOfSpeech::AdjectiveNa]);
    let out = conjugate(&entry);
    let (_, inflections, kind) = &out[0];
    assert!(matches!(kind, Kind::Adjective));
    assert_eq!(written(inflections, &[]), some("静かだ"));
    assert_eq!(written(inflections, &[Form::Polite]), some("静かです"));
    assert_eq!(written(inflections, &[Form::Past, Form::Negative, Form::Polite]), some("静かではありませんでした"));
}

#[test]
fn suru_attached_to_a_noun() {
    let entry = word(&["勉強する"], &["べんきょうする"], &[PartOfSpeech::VerbSuruIncluded]);
    let out = conjugate(&entry);
    assert_eq!(out.len(), 1);
    let (_, inflections, kind) = &out[0];
    assert!(matches!(kind, Kind::Verb));
    assert_eq!(written(inflections, &[]), some("勉強する"));
    assert_eq!(written(inflections, &[Form::Polite]), some("勉強します"));
    assert_eq!(read(inflections, &[Form::Polite]), some("べんきょうします"));
    assert_eq!(written(inflections, &[Form::Te]), some("勉強して"));
    assert_eq!(written(inflections, &[Form::Passive]), some("勉強される"));
    assert_eq!(written(inflections, &[Form::Potential]), some("勉強できる"));
    assert_eq!(written(inflections, &[Form::TeIru]), some("勉強している"));
    assert_eq!(written(inflections, &[Form::TeIru, Form::Short]), some("勉強してる"));
    assert_eq!(written(inflections, &[Form::Chau]), None);
}

#[test]
fn suru_standalone() {
    let entry = word(&[], &["する"], &[PartOfSpeech::VerbSuruIncluded]);
    let out = conjugate(&entry);
    assert_eq!(out.len(), 1);
    let (_, inflections, _) = &out[0];
    assert_eq!(written(inflections, &[]), some("する"));
    assert_eq!(written(inflections, &[Form::Negative]), some("しない"));
    assert_eq!(written(inflections, &[Form::Past]), some("した"));
    assert_eq!(written(inflections, &[Form::Causative]), some("させる"));
    assert_eq!(written(inflections, &[Form::Conditional]), some("すれば"));
}

#[test]
fn suru_with_kanji_stem() {
    let entry = word(&["為る"], &["する"], &[PartOfSpeech::VerbSuruIncluded]);
    let out = conjugate(&entry);
    assert_eq!(out.len(), 1);
    let (_, inflections, _) = &out[0];
    assert_eq!(written(inflections, &[]), some("為る"));
    assert_eq!(read(inflections, &[]), some("する"));
    assert_eq!(written(inflections, &[Form::Polite]), some("為ます"));
    assert_eq!(read(inflections, &[Form::Polite]), some("します"));
    assert_eq!(written(inflections, &[Form::TeIru]), some("為ている"));
    assert_eq!(read(inflections, &[Form::TeIru]), some("している"));
}

#[test]
fn kuru_with_kanji_stem() {
    let entry = word(&["来る"], &["くる"], &[PartOfSpeech::VerbKuru]);
    let out = conjugate(&entry);
    assert_eq!(out.len(), 1);
    let (_, inflections, _) = &out[0];
    assert_eq!(written(inflections, &[]), some("来る"));
    assert_eq!(read(inflections, &[]), some("くる"));
    assert_eq!(written(inflections, &[Form::Negative]), some("来ない"));
    assert_eq!(read(inflections, &[Form::Negative]), some("こない"));
    assert_eq!(read(inflections, &[Form::Polite]), some("きます"));
    assert_eq!(read(inflections, &[Form::Te]), some("きて"));
    assert_eq!(read(inflections, &[Form::Imperative]), some("こい"));
}

#[test]
fn kuru_in_kana() {
    let entry = word(&[], &["くる"], &[PartOfSpeech::VerbKuru]);
    let out = conjugate(&entry);
    let (_, inflections, _) = &out[0];
    assert_eq!(written(inflections, &[Form::Past]), some("きた"));
    assert_eq!(written(inflections, &[Form::Volitional]), some("こよう"));
}

#[test]
fn ichidan_without_ru_is_skipped() {
    let mut entry = word(&["食べる", "食べ"], &["たべる"], &[PartOfSpeech::VerbIchidan]);
    let out = conjugate(&entry);
    assert_eq!(out.len(), 1);
    assert_eq!(out[0].0, Reading { kanji: 0, reading: 0 });

    entry.kanji_elements.swap(0, 1);
    let out = conjugate(&entry);
    assert_eq!(out.len(), 1);
    assert_eq!(out[0].0, Reading { kanji: 1, reading: 0 });
    assert_eq!(written(&out[0].1, &[Form::Te]), some("食べて"));
}

#[test]
fn godan_without_its_kana_is_skipped() {
    let entry = word(&["飲み"], &["のみ"], &[PartOfSpeech::VerbGodanM]);
    assert!(conjugate(&entry).is_empty());
}

#[test]
fn uninflected_parts_of_speech_give_nothing() {
    let entry = word(&["猫"], &["ねこ"], &[PartOfSpeech::Noun, PartOfSpeech::Expression]);
    assert!(conjugate(&entry).is_empty());
}

#[test]
fn parts_of_speech_come_in_list_order() {
    let entry = word(&["有る"], &["ある"], &[PartOfSpeech::AdjectiveNa, PartOfSpeech::VerbGodanRI]);
    let out = conjugate(&entry);
    assert_eq!(out.len(), 2);
    assert!(matches!(out[0].2, Kind::Verb));
    assert!(matches!(out[1].2, Kind::Adjective));
    assert_eq!(written(&out[0].1, &[Form::Te]), some("有って"));
    assert_eq!(written(&out[1].1, &[]), some("有るだ"));
}

#[test]
fn conjugation_is_repeatable() {
    let entry = word(&["食べる"], &["たべる"], &[PartOfSpeech::VerbIchidan]);
    let a = conjugate(&entry);
    let b = conjugate(&entry);
    assert_eq!(a.len(), b.len());
    assert_eq!(written(&a[0].1, &[Form::TeShimau, Form::Past]), written(&b[0].1, &[Form::TeShimau, Form::Past]));
}

#[test]
fn a_stem_that_spells_nothing_takes_the_contraction() {
    let entry = word(&[], &["る"], &[PartOfSpeech::VerbIchidan]);
    let all = conjugate(&entry);
    assert_eq!(all.len(), 1);
    let inflections = &all[0].1;
    assert_eq!(written(inflections, &[Form::Te]), some("て"));
    assert_eq!(written(inflections, &[Form::Chau]), some("ちゃう"));
    assert_eq!(written(inflections, &[Form::Chau, Form::Past]), some("ちゃった"));
}

#[test]
fn classes_without_a_contraction_have_none() {
    let entry = word(&["する"], &["する"], &[PartOfSpeech::VerbSuruIncluded]);
    let all = conjugate(&entry);
    assert_eq!(all.len(), 1);
    assert_eq!(written(&all[0].1, &[Form::Chau]), None);
    let entry = word(&["高い"], &["たかい"], &[PartOfSpeech::AdjectiveI]);
    let all = conjugate(&entry);
    assert_eq!(all.len(), 1);
    assert_eq!(written(&all[0].1, &[Form::Chau]), None);
}

//! The conjugation of one surface form: from a part of speech, a written
//! form and a reading to the table of inflected forms.
use vstd::prelude::*;

use super::form::{Form, Inflection};
use super::godan;
use super::godan::{row_iku, row_ku, row_of, row_ru, row_u, Godan};
use super::rules::{
    adjective_i_rules, adjective_i_table, adjective_ix_rules, adjective_ix_table,
    adjective_na_rules, adjective_na_table, godan_rules, godan_table, ichidan_rules,
    ichidan_table, kuru_rules, kuru_table, suru_rules, suru_table, Rule,
};
use super::table::{populated, populated_absorbed, InflectionTable};
use crate::entities::PartOfSpeech;
use crate::kana::{Fragments, Spelling};
use crate::text::{lemma_empty_literal, split_last, strip_suffix, stripped};

verus! {

/// The kind of word.
#[derive(Clone, Copy, Debug, PartialEq, Eq, Structural, Hash)]
pub enum Kind {
    Verb,
    Adjective,
}

/// The classes of words that the engine inflects.
#[derive(Clone, Copy, Debug, PartialEq, Eq, Structural, Hash)]
pub enum Class {
    Ichidan,
    /// The verb 行く and the verbs that end in it.
    Iku,
    Godan,
    Suru,
    Kuru,
    AdjectiveI,
    AdjectiveIx,
    AdjectiveNa,
}

/// The class that a part of speech is inflected as, if it is inflected at
/// all.
pub open spec fn class_of(pos: PartOfSpeech) -> Option<Class> {
    match pos {
        PartOfSpeech::VerbIchidan | PartOfSpeech::VerbIchidanS => Some(Class::Ichidan),
        PartOfSpeech::VerbGodanKS => Some(Class::Iku),
        PartOfSpeech::VerbGodanAru
        | PartOfSpeech::VerbGodanB
        | PartOfSpeech::VerbGodanG
        | PartOfSpeech::VerbGodanK
        | PartOfSpeech::VerbGodanM
        | PartOfSpeech::VerbGodanN
        | PartOfSpeech::VerbGodanRu
        | PartOfSpeech::VerbGodanRI
        | PartOfSpeech::VerbGodanS
        | PartOfSpeech::VerbGodanTsu
        | PartOfSpeech::VerbGodanU
        | PartOfSpeech::VerbGodanUS
        | PartOfSpeech::VerbGodanUru => Some(Class::Godan),
        PartOfSpeech::VerbSuruSpecial | PartOfSpeech::VerbSuruIncluded => Some(Class::Suru),
        PartOfSpeech::VerbKuru => Some(Class::Kuru),
        PartOfSpeech::AdjectiveI => Some(Class::AdjectiveI),
        PartOfSpeech::AdjectiveIx => Some(Class::AdjectiveIx),
        PartOfSpeech::AdjectiveNa => Some(Class::AdjectiveNa),
        _ => None,
    }
}

/// The class that a part of speech is inflected as, if it is inflected at
/// all.
#[verifier::when_used_as_spec(class_of)]
pub fn classify(pos: PartOfSpeech) -> (class: Option<Class>)
    ensures
        class == class_of(pos),
{
    match pos {
        PartOfSpeech::VerbIchidan | PartOfSpeech::VerbIchidanS => Some(Class::Ichidan),
        PartOfSpeech::VerbGodanKS => Some(Class::Iku),
        PartOfSpeech::VerbGodanAru
        | PartOfSpeech::VerbGodanB
        | PartOfSpeech::VerbGodanG
        | PartOfSpeech::VerbGodanK
        | PartOfSpeech::VerbGodanM
        | PartOfSpeech::VerbGodanN
        | PartOfSpeech::VerbGodanRu
        | PartOfSpeech::VerbGodanRI
        | PartOfSpeech::VerbGodanS
        | PartOfSpeech::VerbGodanTsu
        | PartOfSpeech::VerbGodanU
        | PartOfSpeech::VerbGodanUS
        | PartOfSpeech::VerbGodanUru => Some(Class::Godan),
        PartOfSpeech::VerbSuruSpecial | PartOfSpeech::VerbSuruIncluded => Some(Class::Suru),
        PartOfSpeech::VerbKuru => Some(Class::Kuru),
        PartOfSpeech::AdjectiveI => Some(Class::AdjectiveI),
        PartOfSpeech::AdjectiveIx => Some(Class::AdjectiveIx),
        PartOfSpeech::AdjectiveNa => Some(Class::AdjectiveNa),
        _ => None,
    }
}

/// The stems alone, with no ending.
pub open spec fn bare(text: Seq<char>, reading: Seq<char>) -> Spelling {
    Spelling { text, reading, suffix: Seq::empty() }
}

/// The forms that a class gives by itself, before any auxiliary is
/// attached, together with what the contraction in ちゃ is built on.
pub struct Groundwork {
    pub forms: Map<Inflection, Spelling>,
    pub kind: Kind,
    /// The stem of the contraction; none where the class has no
    /// contraction.
    pub stem: Option<Spelling>,
    /// Whether the contraction is in じゃ.
    pub de: bool,
}

/// The forms of a regular verb with the stems `k` and `r`: its te-form in
/// `te`, then what `rules` give.
pub open spec fn regular_forms(k: Seq<char>, r: Seq<char>, te: Seq<char>, rules: Seq<Rule>) -> Map<
    Inflection,
    Spelling,
> {
    populated(
        Map::<Inflection, Spelling>::empty().insert(
            Inflection::new().with(Form::Te),
            Spelling { text: k, reading: r, suffix: te },
        ),
        rules,
        bare(k, r),
        Inflection::new(),
        Seq::empty(),
    )
}

/// An ichidan verb ends in る, as written and as read. What stands before
/// is the stem, which is also what the contraction is built on.
pub open spec fn ichidan_groundwork(text: Seq<char>, reading: Seq<char>) -> Option<Groundwork> {
    match (stripped(text, 'る'), stripped(reading, 'る')) {
        (Some(k), Some(r)) => Some(
            Groundwork {
                forms: regular_forms(k, r, "て"@, ichidan_rules()),
                kind: Kind::Verb,
                stem: Some(bare(k, r)),
                de: false,
            },
        ),
        _ => None,
    }
}

/// The forms of a godan verb with the stems `k` and `r` in the given row.
pub open spec fn godan_forms(k: Seq<char>, r: Seq<char>, row: Godan) -> Groundwork {
    Groundwork {
        forms: regular_forms(k, r, row.te@, godan_rules(row)),
        kind: Kind::Verb,
        stem: Some(Spelling { text: k, reading: r, suffix: row.te_stem@ }),
        de: row.de,
    }
}

/// A verb of the 行く class ends in く, as written and as read.
pub open spec fn iku_groundwork(text: Seq<char>, reading: Seq<char>) -> Option<Groundwork> {
    match (stripped(text, 'く'), stripped(reading, 'く')) {
        (Some(k), Some(r)) => Some(godan_forms(k, r, row_iku())),
        _ => None,
    }
}

/// A godan verb is inflected in the row of the last kana of its written
/// form. The reading loses its last character, whatever it is.
pub open spec fn godan_groundwork(text: Seq<char>, reading: Seq<char>) -> Option<Groundwork> {
    if text.len() == 0 {
        None
    } else {
        match row_of(text.last()) {
            Some(row) => Some(
                godan_forms(
                    text.drop_last(),
                    if reading.len() > 0 {
                        reading.drop_last()
                    } else {
                        reading
                    },
                    row,
                ),
            ),
            None => None,
        }
    }
}

/// An irregular verb ends in る, as written and as read, and is read with
/// `kana` before it (す for する, く for 来る). Where the written form has
/// the same kana there, the verb is attached to what stands before, and
/// both forms take the rule's stem and ending. Otherwise the written form
/// has a kanji in its place: it keeps all but its る, and only the reading
/// spells the rule's stem.
pub open spec fn irregular_groundwork(
    text: Seq<char>,
    reading: Seq<char>,
    kana: char,
    rules: Seq<Rule>,
) -> Option<Groundwork> {
    match (stripped(text, 'る'), stripped(reading, 'る')) {
        (Some(written), Some(read)) => {
            if written.len() == 0 {
                None
            } else {
                match stripped(read, kana) {
                    Some(r) => Some(
                        Groundwork {
                            forms: if written.last() == kana {
                                populated(
                                    Map::empty(),
                                    rules,
                                    bare(written.drop_last(), r),
                                    Inflection::new(),
                                    Seq::empty(),
                                )
                            } else {
                                populated_absorbed(Map::empty(), rules, written, r)
                            },
                            kind: Kind::Verb,
                            stem: None,
                            de: false,
                        },
                    ),
                    None => None,
                }
            }
        },
        _ => None,
    }
}

/// The forms of an adjective with the stems `k` and `r`.
pub open spec fn adjective_forms(k: Seq<char>, r: Seq<char>, rules: Seq<Rule>) -> Groundwork {
    Groundwork {
        forms: populated(Map::empty(), rules, bare(k, r), Inflection::new(), Seq::empty()),
        kind: Kind::Adjective,
        stem: None,
        de: false,
    }
}

/// `s` without its last two characters, if both are い.
pub open spec fn stripped_ii(s: Seq<char>) -> Option<Seq<char>> {
    match stripped(s, 'い') {
        Some(head) => stripped(head, 'い'),
        None => None,
    }
}

/// What a class gives for a written form and a reading, or nothing where
/// the two do not have the shape that the class asks for.
pub open spec fn groundwork(class: Class, text: Seq<char>, reading: Seq<char>) -> Option<
    Groundwork,
> {
    match class {
        Class::Ichidan => ichidan_groundwork(text, reading),
        Class::Iku => iku_groundwork(text, reading),
        Class::Godan => godan_groundwork(text, reading),
        Class::Suru => irregular_groundwork(text, reading, 'す', suru_rules()),
        Class::Kuru => irregular_groundwork(text, reading, 'く', kuru_rules()),
        Class::AdjectiveI => match (stripped(text, 'い'), stripped(reading, 'い')) {
            (Some(k), Some(r)) => Some(adjective_forms(k, r, adjective_i_rules())),
            _ => None,
        },
        Class::AdjectiveIx => match (stripped_ii(text), stripped_ii(reading)) {
            (Some(k), Some(r)) => Some(adjective_forms(k, r, adjective_ix_rules())),
            _ => None,
        },
        Class::AdjectiveNa => Some(adjective_forms(text, reading, adjective_na_rules())),
    }
}

/// The forms with the auxiliaries attached to the te-form `te`: いる in
/// full and shortened to る, ある, いく, しまう and おく as godan verbs, the
/// last also shortened to く, and 来る.
pub open spec fn auxiliaries(forms: Map<Inflection, Spelling>, te: Spelling) -> Map<
    Inflection,
    Spelling,
> {
    let none = Seq::<char>::empty();
    let forms = forms.insert(
        Inflection::new().with(Form::TeIru).with(Form::Short),
        te.extended("る"@),
    );
    let forms = populated(forms, ichidan_rules(), te, Inflection::new().with(Form::TeIru), "い"@);
    let forms = populated(
        forms,
        godan_rules(row_ru()),
        te,
        Inflection::new().with(Form::TeAru),
        "あ"@,
    );
    let forms = populated(
        forms,
        godan_rules(row_iku()),
        te,
        Inflection::new().with(Form::TeIku),
        "い"@,
    );
    let forms = populated(
        forms,
        godan_rules(row_u()),
        te,
        Inflection::new().with(Form::TeShimau),
        "しま"@,
    );
    let forms = populated(
        forms,
        godan_rules(row_ku()),
        te,
        Inflection::new().with(Form::TeOku),
        "お"@,
    );
    let forms = forms.insert(
        Inflection::new().with(Form::TeOku).with(Form::Short),
        te.extended("く"@),
    );
    populated(forms, kuru_rules(), te, Inflection::new().with(Form::TeKuru), none)
}

/// The forms with the auxiliaries attached, where there is a te-form.
pub open spec fn with_auxiliaries(forms: Map<Inflection, Spelling>) -> Map<Inflection, Spelling> {
    let te = Inflection::new().with(Form::Te);
    if forms.contains_key(te) {
        auxiliaries(forms, forms[te])
    } else {
        forms
    }
}

/// The forms with the contraction attached to the stem, where the class
/// has one: じゃ or ちゃ behind the stem, inflected as a godan verb in う.
/// A stem that spells nothing takes the contraction like any other.
pub open spec fn with_contraction(
    forms: Map<Inflection, Spelling>,
    stem: Option<Spelling>,
    de: bool,
) -> Map<Inflection, Spelling> {
    match stem {
        Some(stem) => populated(
            forms,
            godan_rules(row_u()),
            stem,
            Inflection::new().with(Form::Chau),
            if de {
                "じゃ"@
            } else {
                "ちゃ"@
            },
        ),
        None => forms,
    }
}

/// The inflected forms of a word of the given part of speech, written
/// `text` and read `reading`, and the kind of word it is. Nothing where the
/// part of speech is not inflected, or where the word does not have the
/// shape of its class.
pub open spec fn inflected(pos: PartOfSpeech, text: Seq<char>, reading: Seq<char>) -> Option<
    (Map<Inflection, Spelling>, Kind),
> {
    match class_of(pos) {
        Some(class) => match groundwork(class, text, reading) {
            Some(g) => Some((with_contraction(with_auxiliaries(g.forms), g.stem, g.de), g.kind)),
            None => None,
        },
        None => None,
    }
}

/// A word that is inflected as an ichidan verb and does not end in る, as
/// written or as read, has no inflected forms.
pub proof fn lemma_ichidan_without_ru(pos: PartOfSpeech, text: Seq<char>, reading: Seq<char>)
    requires
        class_of(pos) == Some(Class::Ichidan),
        stripped(text, 'る') is None || stripped(reading, 'る') is None,
    ensures
        inflected(pos, text, reading) is None,
{
}

/// The forms that a class gives by itself, before any auxiliary is
/// attached, together with what the contraction is built on.
struct Foundation<'a> {
    forms: InflectionTable<'a>,
    kind: Kind,
    stem: Option<Fragments<'a>>,
    de: bool,
}

impl<'a> View for Foundation<'a> {
    type V = Groundwork;

    closed spec fn view(&self) -> Groundwork {
        Groundwork {
            forms: self.forms@,
            kind: self.kind,
            stem: match self.stem {
                Some(stem) => Some(stem@),
                None => None,
            },
            de: self.de,
        }
    }
}

/// What an optional foundation stands for.
spec fn laid(found: Option<Foundation>) -> Option<Groundwork> {
    match found {
        Some(f) => Some(f@),
        None => None,
    }
}

fn regular<'a>(k: &'a str, r: &'a str, te: &str, rules: &Vec<Rule>) -> (forms: InflectionTable<
    'a,
>)
    ensures
        forms@ == regular_forms(k@, r@, te@, rules@),
{
    let mut forms = InflectionTable::new();
    forms.insert(Inflection::new().with(Form::Te), Fragments::new(k, r, te));
    let base = Fragments::new(k, r, "");
    proof {
        lemma_empty_literal();
    }
    forms.populate(rules, &base, Inflection::new(), "");
    forms
}

fn ichidan<'a>(text: &'a str, reading: &'a str) -> (found: Option<Foundation<'a>>)
    ensures
        laid(found) == ichidan_groundwork(text@, reading@),
{
    match (strip_suffix(text, 'る'), strip_suffix(reading, 'る')) {
        (Some(k), Some(r)) => {
            let rules = ichidan_table();
            let forms = regular(k, r, "て", &rules);
            let stem = Fragments::new(k, r, "");
            proof {
                lemma_empty_literal();
            }
            Some(Foundation { forms, kind: Kind::Verb, stem: Some(stem), de: false })
        },
        _ => None,
    }
}

fn godan_with<'a>(k: &'a str, r: &'a str, row: Godan) -> (found: Foundation<'a>)
    ensures
        found@ == godan_forms(k@, r@, row),
{
    let rules = godan_table(row);
    let forms = regular(k, r, row.te, &rules);
    let stem = Fragments::new(k, r, row.te_stem);
    Foundation { forms, kind: Kind::Verb, stem: Some(stem), de: row.de }
}

fn iku<'a>(text: &'a str, reading: &'a str) -> (found: Option<Foundation<'a>>)
    ensures
        laid(found) == iku_groundwork(text@, reading@),
{
    match (strip_suffix(text, 'く'), strip_suffix(reading, 'く')) {
        (Some(k), Some(r)) => Some(godan_with(k, r, godan::iku())),
        _ => None,
    }
}

fn godan<'a>(text: &'a str, reading: &'a str) -> (found: Option<Foundation<'a>>)
    ensures
        laid(found) == godan_groundwork(text@, reading@),
{
    match split_last(text) {
        Some((k, last)) => match godan::select(last) {
            Some(row) => {
                let r = match split_last(reading) {
                    Some((head, _)) => head,
                    None => reading,
                };
                Some(godan_with(k, r, row))
            },
            None => None,
        },
        None => None,
    }
}

fn irregular<'a>(text: &'a str, reading: &'a str, kana: char, rules: &Vec<Rule>) -> (found: Option<
    Foundation<'a>,
>)
    ensures
        laid(found) == irregular_groundwork(text@, reading@, kana, rules@),
{
    match (strip_suffix(text, 'る'), strip_suffix(reading, 'る')) {
        (Some(written), Some(read)) => match split_last(written) {
            Some((k, before)) => match strip_suffix(read, kana) {
                Some(r) => {
                    let mut forms = InflectionTable::new();
                    if before == kana {
                        let base = Fragments::new(k, r, "");
                        proof {
                            lemma_empty_literal();
                        }
                        forms.populate(rules, &base, Inflection::new(), "");
                    } else {
                        forms.populate_absorbed(rules, written, r);
                    }
                    Some(Foundation { forms, kind: Kind::Verb, stem: None, de: false })
                },
                None => None,
            },
            None => None,
        },
        _ => None,
    }
}

fn adjective<'a>(k: &'a str, r: &'a str, rules: &Vec<Rule>) -> (found: Foundation<'a>)
    ensures
        found@ == adjective_forms(k@, r@, rules@),
{
    let mut forms = InflectionTable::new();
    let base = Fragments::new(k, r, "");
    proof {
        lemma_empty_literal();
    }
    forms.populate(rules, &base, Inflection::new(), "");
    Foundation { forms, kind: Kind::Adjective, stem: None, de: false }
}

fn strip_ii<'a>(s: &'a str) -> (r: Option<&'a str>)
    ensures
        crate::text::spelled(r) == stripped_ii(s@),
{
    match strip_suffix(s, 'い') {
        Some(head) => strip_suffix(head, 'い'),
        None => None,
    }
}

fn lay<'a>(class: Class, text: &'a str, reading: &'a str) -> (found: Option<Foundation<'a>>)
    ensures
        laid(found) == groundwork(class, text@, reading@),
{
    match class {
        Class::Ichidan => ichidan(text, reading),
        Class::Iku => iku(text, reading),
        Class::Godan => godan(text, reading),
        Class::Suru => {
            let rules = suru_table();
            irregular(text, reading, 'す', &rules)
        },
        Class::Kuru => {
            let rules = kuru_table();
            irregular(text, reading, 'く', &rules)
        },
        Class::AdjectiveI => match (strip_suffix(text, 'い'), strip_suffix(reading, 'い')) {
            (Some(k), Some(r)) => {
                let rules = adjective_i_table();
                Some(adjective(k, r, &rules))
            },
            _ => None,
        },
        Class::AdjectiveIx => match (strip_ii(text), strip_ii(reading)) {
            (Some(k), Some(r)) => {
                let rules = adjective_ix_table();
                Some(adjective(k, r, &rules))
            },
            _ => None,
        },
        Class::AdjectiveNa => {
            let rules = adjective_na_table();
            Some(adjective(text, reading, &rules))
        },
    }
}

fn attach_auxiliaries<'a>(forms: &mut InflectionTable<'a>)
    ensures
        final(forms)@ == with_auxiliaries(old(forms)@),
{
    let found = match forms.get(Inflection::new().with(Form::Te)) {
        Some(te) => Some(te.duplicate()),
        None => None,
    };
    match found {
        Some(te) => {
            proof {
                lemma_empty_literal();
            }
            forms.insert(Inflection::new().with(Form::TeIru).with(Form::Short), te.append("る"));
            let ichidan = ichidan_table();
            forms.populate(&ichidan, &te, Inflection::new().with(Form::TeIru), "い");
            let aru = godan_table(godan::ru());
            forms.populate(&aru, &te, Inflection::new().with(Form::TeAru), "あ");
            let iku = godan_table(godan::iku());
            forms.populate(&iku, &te, Inflection::new().with(Form::TeIku), "い");
            let shimau = godan_table(godan::u());
            forms.populate(&shimau, &te, Inflection::new().with(Form::TeShimau), "しま");
            let oku = godan_table(godan::ku());
            forms.populate(&oku, &te, Inflection::new().with(Form::TeOku), "お");
            forms.insert(Inflection::new().with(Form::TeOku).with(Form::Short), te.append("く"));
            let kuru = kuru_table();
            forms.populate(&kuru, &te, Inflection::new().with(Form::TeKuru), "");
        },
        None => {},
    }
}

fn attach_contraction<'a>(forms: &mut InflectionTable<'a>, stem: &Fragments<'a>, de: bool)
    ensures
        final(forms)@ == with_contraction(old(forms)@, Some(stem@), de),
{
    let rules = godan_table(godan::u());
    if de {
        forms.populate(&rules, stem, Inflection::new().with(Form::Chau), "じゃ");
    } else {
        forms.populate(&rules, stem, Inflection::new().with(Form::Chau), "ちゃ");
    }
}

/// What an optional table with its kind stands for.
pub open spec fn tabled(found: Option<(InflectionTable, Kind)>) -> Option<
    (Map<Inflection, Spelling>, Kind),
> {
    match found {
        Some((forms, kind)) => Some((forms@, kind)),
        None => None,
    }
}

/// Inflects a word of the given part of speech, written `text` and read
/// `reading`. Gives nothing where the part of speech is not inflected, or
/// where the word does not have the shape of its class.
pub fn inflect<'a>(pos: PartOfSpeech, text: &'a str, reading: &'a str) -> (found: Option<
    (InflectionTable<'a>, Kind),
>)
    ensures
        tabled(found) == inflected(pos, text@, reading@),
{
    match classify(pos) {
        Some(class) => match lay(class, text, reading) {
            Some(foundation) => {
                let Foundation { mut forms, kind, stem, de } = foundation;
                attach_auxiliaries(&mut forms);
                match stem {
                    Some(stem) => {
                        attach_contraction(&mut forms, &stem, de);
                    },
                    None => {},
                }
                Some((forms, kind))
            },
            None => None,
        },
        None => None,
    }
}

} // verus!

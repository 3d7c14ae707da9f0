//! What holds of the tables of inflected forms.
use vstd::prelude::*;

use super::engine::{
    adjective_forms, auxiliaries, godan_forms, inflected, with_auxiliaries, with_contraction, Kind,
};
use super::form::{Form, Inflection};
use super::godan::{row_iku, row_ku, row_ru, row_u, Godan};
use super::rules::{
    adjective_ix_rules, godan_rules, ichidan_rules, kuru_rules, suru_rules, Rule,
};
use super::table::{attached, populated, populated_absorbed};
use crate::entities::PartOfSpeech;
use crate::kana::Spelling;

verus! {

/// Rules that do not give a key leave what the table has under it.
pub proof fn lemma_populated_untouched(
    forms: Map<Inflection, Spelling>,
    rules: Seq<Rule>,
    base: Spelling,
    mark: Inflection,
    prefix: Seq<char>,
    key: Inflection,
)
    requires
        forall|i: int| 0 <= i < rules.len() ==> mark.join(#[trigger] rules[i].features) != key,
    ensures
        populated(forms, rules, base, mark, prefix).contains_key(key) == forms.contains_key(key),
        populated(forms, rules, base, mark, prefix)[key] == forms[key],
    decreases rules.len(),
{
    if rules.len() > 0 {
        let front = rules.drop_last();
        assert forall|i: int| 0 <= i < front.len() implies mark.join(
            #[trigger] front[i].features,
        ) != key by {
            assert(front[i] == rules[i]);
        }
        lemma_populated_untouched(forms, front, base, mark, prefix, key);
        assert(mark.join(rules[rules.len() - 1].features) != key);
    }
}

/// A mark with a feature that a key lacks gives other keys than that
/// one, whatever it is joined with.
pub proof fn lemma_marked_apart(mark: Inflection, features: Inflection, key: Inflection)
    requires
        mark.bits & !key.bits != 0,
    ensures
        mark.join(features) != key,
{
    let m = mark.bits;
    let f = features.bits;
    let k = key.bits;
    assert(m & !k != 0 ==> (m | f) != k) by (bit_vector);
}

/// Rules entered under a mark with a feature that a key lacks leave what
/// the table has under the key.
pub proof fn lemma_populated_marked(
    forms: Map<Inflection, Spelling>,
    rules: Seq<Rule>,
    base: Spelling,
    mark: Inflection,
    prefix: Seq<char>,
    key: Inflection,
)
    requires
        mark.bits & !key.bits != 0,
    ensures
        populated(forms, rules, base, mark, prefix).contains_key(key) == forms.contains_key(key),
        populated(forms, rules, base, mark, prefix)[key] == forms[key],
{
    assert forall|i: int| 0 <= i < rules.len() implies mark.join(#[trigger] rules[i].features)
        != key by {
        lemma_marked_apart(mark, rules[i].features, key);
    }
    lemma_populated_untouched(forms, rules, base, mark, prefix, key);
}

/// The auxiliaries leave the forms without an auxiliary as they are.
pub proof fn lemma_auxiliaries_keep(forms: Map<Inflection, Spelling>, te: Spelling, key: Inflection)
    requires
        key.bits & 0x3f000 == 0,
    ensures
        auxiliaries(forms, te).contains_key(key) == forms.contains_key(key),
        auxiliaries(forms, te)[key] == forms[key],
{
    let k = key.bits;
    assert(k & 0x3f000 == 0 ==> 0x1000u32 & !k != 0 && 0x2000u32 & !k != 0 && 0x4000u32 & !k != 0
        && 0x8000u32 & !k != 0 && 0x10000u32 & !k != 0 && 0x20000u32 & !k != 0 && (0x1000u32
        | 0x10u32) != k && (0x20000u32 | 0x10u32) != k) by (bit_vector);
    assert(Inflection::none().and(Form::TeIru).and(Form::Short).bits == 0x1000u32 | 0x10u32) by {
        assert((0u32 | 0x1000u32) | 0x10u32 == 0x1000u32 | 0x10u32) by (bit_vector);
    }
    assert(Inflection::none().and(Form::TeOku).and(Form::Short).bits == 0x20000u32 | 0x10u32) by {
        assert((0u32 | 0x20000u32) | 0x10u32 == 0x20000u32 | 0x10u32) by (bit_vector);
    }
    assert(0u32 | 0x1000u32 == 0x1000u32 && 0u32 | 0x2000u32 == 0x2000u32 && 0u32 | 0x4000u32
        == 0x4000u32 && 0u32 | 0x8000u32 == 0x8000u32 && 0u32 | 0x10000u32 == 0x10000u32 && 0u32
        | 0x20000u32 == 0x20000u32) by (bit_vector);
    let none = Seq::<char>::empty();
    let f1 = forms.insert(Inflection::new().with(Form::TeIru).with(Form::Short), te.extended("る"@));
    let f2 = populated(f1, ichidan_rules(), te, Inflection::new().with(Form::TeIru), "い"@);
    lemma_populated_marked(f1, ichidan_rules(), te, Inflection::new().with(Form::TeIru), "い"@, key);
    let f3 = populated(f2, godan_rules(row_ru()), te, Inflection::new().with(Form::TeAru), "あ"@);
    lemma_populated_marked(
        f2,
        godan_rules(row_ru()),
        te,
        Inflection::new().with(Form::TeAru),
        "あ"@,
        key,
    );
    let f4 = populated(f3, godan_rules(row_iku()), te, Inflection::new().with(Form::TeIku), "い"@);
    lemma_populated_marked(
        f3,
        godan_rules(row_iku()),
        te,
        Inflection::new().with(Form::TeIku),
        "い"@,
        key,
    );
    let f5 = populated(
        f4,
        godan_rules(row_u()),
        te,
        Inflection::new().with(Form::TeShimau),
        "しま"@,
    );
    lemma_populated_marked(
        f4,
        godan_rules(row_u()),
        te,
        Inflection::new().with(Form::TeShimau),
        "しま"@,
        key,
    );
    let f6 = populated(f5, godan_rules(row_ku()), te, Inflection::new().with(Form::TeOku), "お"@);
    lemma_populated_marked(
        f5,
        godan_rules(row_ku()),
        te,
        Inflection::new().with(Form::TeOku),
        "お"@,
        key,
    );
    let f7 = f6.insert(Inflection::new().with(Form::TeOku).with(Form::Short), te.extended("く"@));
    lemma_populated_marked(f7, kuru_rules(), te, Inflection::new().with(Form::TeKuru), none, key);
}

/// The rule at a position gives the form under its key, unless a later
/// rule has the same key.
pub proof fn lemma_populated_at(
    forms: Map<Inflection, Spelling>,
    rules: Seq<Rule>,
    base: Spelling,
    mark: Inflection,
    prefix: Seq<char>,
    i: int,
)
    requires
        0 <= i < rules.len(),
        forall|j: int|
            i < j < rules.len() ==> mark.join(#[trigger] rules[j].features) != mark.join(
                rules[i].features,
            ),
    ensures
        populated(forms, rules, base, mark, prefix).contains_key(mark.join(rules[i].features)),
        populated(forms, rules, base, mark, prefix)[mark.join(rules[i].features)] == attached(
            base,
            prefix,
            rules[i],
        ),
    decreases rules.len(),
{
    if i < rules.len() - 1 {
        let front = rules.drop_last();
        assert(front[i] == rules[i]);
        assert forall|j: int| i < j < front.len() implies mark.join(#[trigger] front[j].features)
            != mark.join(front[i].features) by {
            assert(front[j] == rules[j]);
        }
        lemma_populated_at(forms, front, base, mark, prefix, i);
        assert(mark.join(rules[rules.len() - 1].features) != mark.join(rules[i].features));
    }
}

/// Nothing joined with a feature set is that set.
proof fn lemma_join_none(features: Inflection)
    ensures
        Inflection::none().join(features) == features,
{
    let f = features.bits;
    assert(0u32 | f == f) by (bit_vector);
}

/// The keys of the forms that no auxiliary and no contraction touches.
pub open spec fn te_key() -> Inflection {
    Inflection::none().and(Form::Te)
}

/// The key of the plain past.
pub open spec fn past_key() -> Inflection {
    Inflection::none().and(Form::Past)
}

/// The features of the rules of a godan verb, as bits.
proof fn lemma_godan_bits(row: Godan)
    ensures
        godan_rules(row).len() == 18,
        godan_rules(row)[4] == (Rule { features: past_key(), stem: row.ta, ending: "" }),
        past_key().bits == 1,
        te_key().bits == 8,
        forall|i: int|
            0 <= i < 18 ==> (#[trigger] godan_rules(row)[i]).features.bits != 8 && (i != 4
                ==> godan_rules(row)[i].features.bits != 1),
{
    assert(0u32 | 4u32 == 4 && 0u32 | 2u32 == 2 && (0u32 | 2u32) | 4u32 == 6 && 0u32 | 1u32 == 1 && (
    0u32 | 1u32) | 4u32 == 5 && (0u32 | 1u32) | 2u32 == 3 && ((0u32 | 1u32) | 2u32) | 4u32 == 7
        && 0u32 | 0x200u32 == 0x200 && (0u32 | 0x200u32) | 4u32 == 0x204 && (0u32 | 0x200u32)
        | 2u32 == 0x202 && 0u32 | 0x400u32 == 0x400 && (0u32 | 0x400u32) | 2u32 == 0x402 && 0u32
        | 0x40u32 == 0x40 && 0u32 | 0x80u32 == 0x80 && 0u32 | 0x100u32 == 0x100 && (0u32
        | 0x100u32) | 4u32 == 0x104 && 0u32 | 0x20u32 == 0x20 && 0u32 | 8u32 == 8) by (bit_vector);
    let rules = godan_rules(row);
    assert(rules[0].features.bits == 0);
    assert(rules[1].features.bits == 4);
    assert(rules[2].features.bits == 2);
    assert(rules[3].features.bits == 6);
    assert(rules[4].features.bits == 1);
    assert(rules[5].features.bits == 5);
    assert(rules[6].features.bits == 3);
    assert(rules[7].features.bits == 7);
    assert(rules[8].features.bits == 0x200);
    assert(rules[9].features.bits == 0x204);
    assert(rules[10].features.bits == 0x202);
    assert(rules[11].features.bits == 0x400);
    assert(rules[12].features.bits == 0x402);
    assert(rules[13].features.bits == 0x40);
    assert(rules[14].features.bits == 0x80);
    assert(rules[15].features.bits == 0x100);
    assert(rules[16].features.bits == 0x104);
    assert(rules[17].features.bits == 0x20);
}

/// What the forms of a verb have under a key without an auxiliary and
/// without the contraction is what the class gave by itself.
pub proof fn lemma_plain_forms_stay(
    forms: Map<Inflection, Spelling>,
    stem: Option<Spelling>,
    de: bool,
    key: Inflection,
)
    requires
        key.bits & 0x3f800 == 0,
    ensures
        with_contraction(with_auxiliaries(forms), stem, de).contains_key(key) == forms.contains_key(
            key,
        ),
        with_contraction(with_auxiliaries(forms), stem, de)[key] == forms[key],
{
    let k = key.bits;
    assert(k & 0x3f800 == 0 ==> k & 0x3f000 == 0 && 0x800u32 & !k != 0) by (bit_vector);
    assert(0u32 | 0x800u32 == 0x800u32) by (bit_vector);
    let with = with_auxiliaries(forms);
    if forms.contains_key(te_key()) {
        lemma_auxiliaries_keep(forms, forms[te_key()], key);
    }
    if let Some(stem) = stem {
        lemma_populated_marked(
            with,
            godan_rules(row_u()),
            stem,
            Inflection::new().with(Form::Chau),
            if de {
                "じゃ"@
            } else {
                "ちゃ"@
            },
            key,
        );
    }
}

/// The te-form and the plain past of a godan verb are its stems with the
/// te and the ta of its row.
pub proof fn lemma_godan_te_and_past(k: Seq<char>, r: Seq<char>, row: Godan)
    ensures
        ({
            let g = godan_forms(k, r, row);
            let forms = with_contraction(with_auxiliaries(g.forms), g.stem, g.de);
            &&& forms.contains_key(te_key())
            &&& forms[te_key()] == (Spelling { text: k, reading: r, suffix: row.te@ })
            &&& forms.contains_key(past_key())
            &&& forms[past_key()] == (Spelling { text: k, reading: r, suffix: row.ta@ })
        }),
{
    let g = godan_forms(k, r, row);
    let rules = godan_rules(row);
    let base = Spelling { text: k, reading: r, suffix: Seq::<char>::empty() };
    let first = Map::<Inflection, Spelling>::empty().insert(
        te_key(),
        Spelling { text: k, reading: r, suffix: row.te@ },
    );
    let none = Inflection::none();
    let empty = Seq::<char>::empty();
    lemma_godan_bits(row);
    assert forall|i: int| 0 <= i < rules.len() implies none.join(#[trigger] rules[i].features)
        != te_key() by {
        lemma_join_none(rules[i].features);
    }
    lemma_populated_untouched(first, rules, base, none, empty, te_key());
    assert forall|j: int| 4 < j < rules.len() implies none.join(#[trigger] rules[j].features)
        != none.join(rules[4].features) by {
        lemma_join_none(rules[j].features);
        lemma_join_none(rules[4].features);
    }
    lemma_populated_at(first, rules, base, none, empty, 4);
    lemma_join_none(rules[4].features);
    crate::text::lemma_empty_literal();
    assert(attached(base, empty, rules[4]).suffix =~= row.ta@);
    assert(8u32 & 0x3f800u32 == 0 && 1u32 & 0x3f800u32 == 0) by (bit_vector);
    lemma_plain_forms_stay(g.forms, g.stem, g.de, te_key());
    lemma_plain_forms_stay(g.forms, g.stem, g.de, past_key());
}

/// A verb of the 行く class, written with `k` and read with `r` before
/// its く, has the te-form in って and the plain past in った.
pub proof fn lemma_iku_te_and_past(k: Seq<char>, r: Seq<char>)
    ensures
        inflected(PartOfSpeech::VerbGodanKS, k.push('く'), r.push('く')) matches Some(
            (forms, kind),
        ) && kind == Kind::Verb && forms.contains_key(te_key()) && forms[te_key()] == (Spelling {
            text: k,
            reading: r,
            suffix: "って"@,
        }) && forms.contains_key(past_key()) && forms[past_key()] == (Spelling {
            text: k,
            reading: r,
            suffix: "った"@,
        }),
{
    assert(k.push('く').drop_last() =~= k);
    assert(r.push('く').drop_last() =~= r);
    lemma_godan_te_and_past(k, r, row_iku());
}

/// The key of the plain negative.
pub open spec fn negative_key() -> Inflection {
    Inflection::none().and(Form::Negative)
}

/// The features of the rules of an adjective of the いい class, as bits.
proof fn lemma_ix_bits()
    ensures
        adjective_ix_rules().len() == 8,
        adjective_ix_rules()[2] == (Rule { features: past_key(), stem: "", ending: "よかった" }),
        adjective_ix_rules()[4] == (Rule { features: negative_key(), stem: "", ending: "よくない" }),
        past_key().bits == 1,
        negative_key().bits == 2,
        forall|i: int|
            0 <= i < 8 ==> (i != 2 ==> (#[trigger] adjective_ix_rules()[i]).features.bits != 1) && (i
                != 4 ==> adjective_ix_rules()[i].features.bits != 2),
{
    assert(0u32 | 4u32 == 4 && 0u32 | 2u32 == 2 && (0u32 | 2u32) | 4u32 == 6 && 0u32 | 1u32 == 1 && (
    0u32 | 1u32) | 4u32 == 5 && (0u32 | 1u32) | 2u32 == 3 && ((0u32 | 1u32) | 2u32) | 4u32 == 7)
        by (bit_vector);
    let rules = adjective_ix_rules();
    assert(rules[0].features.bits == 0);
    assert(rules[1].features.bits == 4);
    assert(rules[2].features.bits == 1);
    assert(rules[3].features.bits == 5);
    assert(rules[4].features.bits == 2);
    assert(rules[5].features.bits == 6);
    assert(rules[6].features.bits == 3);
    assert(rules[7].features.bits == 7);
}

/// An adjective of the いい class, written with `k` and read with `r`
/// before its いい, has the plain past in よかった and the plain negative
/// in よくない: its stem alternates.
pub proof fn lemma_ii_past_and_negative(k: Seq<char>, r: Seq<char>)
    ensures
        inflected(PartOfSpeech::AdjectiveIx, k.push('い').push('い'), r.push('い').push('い'))
            matches Some((forms, kind)) && kind == Kind::Adjective && forms.contains_key(past_key())
            && forms[past_key()] == (Spelling { text: k, reading: r, suffix: "よかった"@ })
            && forms.contains_key(negative_key()) && forms[negative_key()] == (Spelling {
            text: k,
            reading: r,
            suffix: "よくない"@,
        }),
{
    let text = k.push('い').push('い');
    let reading = r.push('い').push('い');
    assert(text.drop_last() =~= k.push('い'));
    assert(k.push('い').drop_last() =~= k);
    assert(reading.drop_last() =~= r.push('い'));
    assert(r.push('い').drop_last() =~= r);
    let rules = adjective_ix_rules();
    let base = Spelling { text: k, reading: r, suffix: Seq::<char>::empty() };
    let none = Inflection::none();
    let empty = Seq::<char>::empty();
    let start = Map::<Inflection, Spelling>::empty();
    let g = adjective_forms(k, r, rules);
    lemma_ix_bits();
    assert forall|j: int| 2 < j < rules.len() implies none.join(#[trigger] rules[j].features)
        != none.join(rules[2].features) by {
        lemma_join_none(rules[j].features);
        lemma_join_none(rules[2].features);
    }
    lemma_populated_at(start, rules, base, none, empty, 2);
    assert forall|j: int| 4 < j < rules.len() implies none.join(#[trigger] rules[j].features)
        != none.join(rules[4].features) by {
        lemma_join_none(rules[j].features);
        lemma_join_none(rules[4].features);
    }
    lemma_populated_at(start, rules, base, none, empty, 4);
    lemma_join_none(rules[2].features);
    lemma_join_none(rules[4].features);
    crate::text::lemma_empty_literal();
    assert(attached(base, empty, rules[2]).suffix =~= "よかった"@);
    assert(attached(base, empty, rules[4]).suffix =~= "よくない"@);
    assert(1u32 & 0x3f800u32 == 0 && 2u32 & 0x3f800u32 == 0) by (bit_vector);
    lemma_plain_forms_stay(g.forms, g.stem, g.de, past_key());
    lemma_plain_forms_stay(g.forms, g.stem, g.de, negative_key());
}

/// A verb in する that is written with its する, behind `k` as written
/// and `r` as read, has the forms of する attached to those stems; する by
/// itself, where both are empty, has the forms of the whole table.
pub proof fn lemma_suru_attached(pos: PartOfSpeech, k: Seq<char>, r: Seq<char>)
    requires
        pos == PartOfSpeech::VerbSuruIncluded || pos == PartOfSpeech::VerbSuruSpecial,
    ensures
        inflected(pos, k.push('す').push('る'), r.push('す').push('る')) == Some(
            (
                with_auxiliaries(
                    populated(
                        Map::empty(),
                        suru_rules(),
                        Spelling { text: k, reading: r, suffix: Seq::empty() },
                        Inflection::none(),
                        Seq::empty(),
                    ),
                ),
                Kind::Verb,
            ),
        ),
{
    let text = k.push('す').push('る');
    let reading = r.push('す').push('る');
    assert(text.drop_last() =~= k.push('す'));
    assert(k.push('す').drop_last() =~= k);
    assert(reading.drop_last() =~= r.push('す'));
    assert(r.push('す').drop_last() =~= r);
}

/// A verb in する that is written with a kanji in the place of the す,
/// as `written` before its る, and read with `r` before its する, keeps
/// what is written: only the reading spells the forms of する out.
pub proof fn lemma_suru_absorbed(pos: PartOfSpeech, written: Seq<char>, r: Seq<char>)
    requires
        pos == PartOfSpeech::VerbSuruIncluded || pos == PartOfSpeech::VerbSuruSpecial,
        written.len() > 0,
        written.last() != 'す',
    ensures
        inflected(pos, written.push('る'), r.push('す').push('る')) == Some(
            (
                with_auxiliaries(populated_absorbed(Map::empty(), suru_rules(), written, r)),
                Kind::Verb,
            ),
        ),
{
    let reading = r.push('す').push('る');
    assert(written.push('る').drop_last() =~= written);
    assert(reading.drop_last() =~= r.push('す'));
    assert(r.push('す').drop_last() =~= r);
}

} // verus!

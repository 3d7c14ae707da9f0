//! The rule tables that the conjugation engine is driven by.
use vstd::prelude::*;

use super::form::{Form, Inflection};
use super::godan::Godan;

verus! {

/// One line of a rule table: the features of a form, and the stem and the
/// ending that spell it.
#[derive(Clone, Copy, Debug)]
pub struct Rule {
    pub features: Inflection,
    pub stem: &'static str,
    pub ending: &'static str,
}

/// The endings of an ichidan verb, attached to the stem that is left when
/// the final る is taken off.
pub open spec fn ichidan_rules() -> Seq<Rule> {
    seq![
        Rule { features: Inflection::new(), stem: "", ending: "る" },
        Rule { features: Inflection::new().with(Form::Polite), stem: "", ending: "ます" },
        Rule { features: Inflection::new().with(Form::Negative), stem: "", ending: "ない" },
        Rule { features: Inflection::new().with(Form::Negative).with(Form::Polite), stem: "", ending: "ません" },
        Rule { features: Inflection::new().with(Form::Past), stem: "", ending: "た" },
        Rule { features: Inflection::new().with(Form::Past).with(Form::Polite), stem: "", ending: "ました" },
        Rule { features: Inflection::new().with(Form::Past).with(Form::Negative), stem: "", ending: "なかった" },
        Rule { features: Inflection::new().with(Form::Past).with(Form::Negative).with(Form::Polite), stem: "", ending: "ませんでした" },
        Rule { features: Inflection::new().with(Form::Imperative), stem: "", ending: "ろ" },
        Rule { features: Inflection::new().with(Form::Imperative).with(Form::Polite), stem: "", ending: "なさい" },
        Rule { features: Inflection::new().with(Form::Imperative).with(Form::Negative), stem: "", ending: "るな" },
        Rule { features: Inflection::new().with(Form::Conditional), stem: "", ending: "れば" },
        Rule { features: Inflection::new().with(Form::Conditional).with(Form::Negative), stem: "", ending: "なければ" },
        Rule { features: Inflection::new().with(Form::Passive), stem: "", ending: "られる" },
        Rule { features: Inflection::new().with(Form::Potential), stem: "", ending: "られる" },
        Rule { features: Inflection::new().with(Form::Volitional), stem: "", ending: "よう" },
        Rule { features: Inflection::new().with(Form::Volitional).with(Form::Polite), stem: "", ending: "ましょう" },
        Rule { features: Inflection::new().with(Form::Causative), stem: "", ending: "させる" },
    ]
}

/// The endings of an ichidan verb, attached to the stem that is left when
/// the final る is taken off.
pub fn ichidan_table() -> (rules: Vec<Rule>)
    ensures
        rules@ == ichidan_rules(),
{
    let rules = vec![
        Rule { features: Inflection::new(), stem: "", ending: "る" },
        Rule { features: Inflection::new().with(Form::Polite), stem: "", ending: "ます" },
        Rule { features: Inflection::new().with(Form::Negative), stem: "", ending: "ない" },
        Rule { features: Inflection::new().with(Form::Negative).with(Form::Polite), stem: "", ending: "ません" },
        Rule { features: Inflection::new().with(Form::Past), stem: "", ending: "た" },
        Rule { features: Inflection::new().with(Form::Past).with(Form::Polite), stem: "", ending: "ました" },
        Rule { features: Inflection::new().with(Form::Past).with(Form::Negative), stem: "", ending: "なかった" },
        Rule { features: Inflection::new().with(Form::Past).with(Form::Negative).with(Form::Polite), stem: "", ending: "ませんでした" },
        Rule { features: Inflection::new().with(Form::Imperative), stem: "", ending: "ろ" },
        Rule { features: Inflection::new().with(Form::Imperative).with(Form::Polite), stem: "", ending: "なさい" },
        Rule { features: Inflection::new().with(Form::Imperative).with(Form::Negative), stem: "", ending: "るな" },
        Rule { features: Inflection::new().with(Form::Conditional), stem: "", ending: "れば" },
        Rule { features: Inflection::new().with(Form::Conditional).with(Form::Negative), stem: "", ending: "なければ" },
        Rule { features: Inflection::new().with(Form::Passive), stem: "", ending: "られる" },
        Rule { features: Inflection::new().with(Form::Potential), stem: "", ending: "られる" },
        Rule { features: Inflection::new().with(Form::Volitional), stem: "", ending: "よう" },
        Rule { features: Inflection::new().with(Form::Volitional).with(Form::Polite), stem: "", ending: "ましょう" },
        Rule { features: Inflection::new().with(Form::Causative), stem: "", ending: "させる" },
    ];
    assert(rules@ =~= ichidan_rules());
    rules
}

/// The forms of a godan verb, each a kana of its row followed by an ending.
pub open spec fn godan_rules(row: Godan) -> Seq<Rule> {
    seq![
        Rule { features: Inflection::new(), stem: row.u, ending: "" },
        Rule { features: Inflection::new().with(Form::Polite), stem: row.i, ending: "ます" },
        Rule { features: Inflection::new().with(Form::Negative), stem: row.a, ending: "ない" },
        Rule { features: Inflection::new().with(Form::Negative).with(Form::Polite), stem: row.i, ending: "ません" },
        Rule { features: Inflection::new().with(Form::Past), stem: row.ta, ending: "" },
        Rule { features: Inflection::new().with(Form::Past).with(Form::Polite), stem: row.i, ending: "ました" },
        Rule { features: Inflection::new().with(Form::Past).with(Form::Negative), stem: row.a, ending: "なかった" },
        Rule { features: Inflection::new().with(Form::Past).with(Form::Negative).with(Form::Polite), stem: row.i, ending: "ませんでした" },
        Rule { features: Inflection::new().with(Form::Imperative), stem: row.e, ending: "" },
        Rule { features: Inflection::new().with(Form::Imperative).with(Form::Polite), stem: row.i, ending: "なさい" },
        Rule { features: Inflection::new().with(Form::Imperative).with(Form::Negative), stem: row.u, ending: "な" },
        Rule { features: Inflection::new().with(Form::Conditional), stem: row.e, ending: "ば" },
        Rule { features: Inflection::new().with(Form::Conditional).with(Form::Negative), stem: row.a, ending: "なければ" },
        Rule { features: Inflection::new().with(Form::Passive), stem: row.a, ending: "れる" },
        Rule { features: Inflection::new().with(Form::Potential), stem: row.e, ending: "る" },
        Rule { features: Inflection::new().with(Form::Volitional), stem: row.o, ending: "う" },
        Rule { features: Inflection::new().with(Form::Volitional).with(Form::Polite), stem: row.i, ending: "ましょう" },
        Rule { features: Inflection::new().with(Form::Causative), stem: row.a, ending: "せる" },
    ]
}

/// The forms of a godan verb, each a kana of its row followed by an ending.
pub fn godan_table(row: Godan) -> (rules: Vec<Rule>)
    ensures
        rules@ == godan_rules(row),
{
    let rules = vec![
        Rule { features: Inflection::new(), stem: row.u, ending: "" },
        Rule { features: Inflection::new().with(Form::Polite), stem: row.i, ending: "ます" },
        Rule { features: Inflection::new().with(Form::Negative), stem: row.a, ending: "ない" },
        Rule { features: Inflection::new().with(Form::Negative).with(Form::Polite), stem: row.i, ending: "ません" },
        Rule { features: Inflection::new().with(Form::Past), stem: row.ta, ending: "" },
        Rule { features: Inflection::new().with(Form::Past).with(Form::Polite), stem: row.i, ending: "ました" },
        Rule { features: Inflection::new().with(Form::Past).with(Form::Negative), stem: row.a, ending: "なかった" },
        Rule { features: Inflection::new().with(Form::Past).with(Form::Negative).with(Form::Polite), stem: row.i, ending: "ませんでした" },
        Rule { features: Inflection::new().with(Form::Imperative), stem: row.e, ending: "" },
        Rule { features: Inflection::new().with(Form::Imperative).with(Form::Polite), stem: row.i, ending: "なさい" },
        Rule { features: Inflection::new().with(Form::Imperative).with(Form::Negative), stem: row.u, ending: "な" },
        Rule { features: Inflection::new().with(Form::Conditional), stem: row.e, ending: "ば" },
        Rule { features: Inflection::new().with(Form::Conditional).with(Form::Negative), stem: row.a, ending: "なければ" },
        Rule { features: Inflection::new().with(Form::Passive), stem: row.a, ending: "れる" },
        Rule { features: Inflection::new().with(Form::Potential), stem: row.e, ending: "る" },
        Rule { features: Inflection::new().with(Form::Volitional), stem: row.o, ending: "う" },
        Rule { features: Inflection::new().with(Form::Volitional).with(Form::Polite), stem: row.i, ending: "ましょう" },
        Rule { features: Inflection::new().with(Form::Causative), stem: row.a, ending: "せる" },
    ];
    assert(rules@ =~= godan_rules(row));
    rules
}

/// The forms of する: the stem す, し, さ or でき, then an ending.
pub open spec fn suru_rules() -> Seq<Rule> {
    seq![
        Rule { features: Inflection::new(), stem: "す", ending: "る" },
        Rule { features: Inflection::new().with(Form::Polite), stem: "し", ending: "ます" },
        Rule { features: Inflection::new().with(Form::Negative), stem: "し", ending: "ない" },
        Rule { features: Inflection::new().with(Form::Negative).with(Form::Polite), stem: "し", ending: "ません" },
        Rule { features: Inflection::new().with(Form::Past), stem: "し", ending: "た" },
        Rule { features: Inflection::new().with(Form::Past).with(Form::Polite), stem: "し", ending: "ました" },
        Rule { features: Inflection::new().with(Form::Past).with(Form::Negative), stem: "し", ending: "なかった" },
        Rule { features: Inflection::new().with(Form::Past).with(Form::Negative).with(Form::Polite), stem: "し", ending: "ませんでした" },
        Rule { features: Inflection::new().with(Form::Imperative), stem: "し", ending: "ろ" },
        Rule { features: Inflection::new().with(Form::Imperative).with(Form::Polite), stem: "し", ending: "なさい" },
        Rule { features: Inflection::new().with(Form::Imperative).with(Form::Negative), stem: "す", ending: "るな" },
        Rule { features: Inflection::new().with(Form::Conditional), stem: "す", ending: "れば" },
        Rule { features: Inflection::new().with(Form::Conditional).with(Form::Negative), stem: "し", ending: "なければ" },
        Rule { features: Inflection::new().with(Form::Passive), stem: "さ", ending: "れる" },
        Rule { features: Inflection::new().with(Form::Potential), stem: "でき", ending: "る" },
        Rule { features: Inflection::new().with(Form::Volitional), stem: "し", ending: "よう" },
        Rule { features: Inflection::new().with(Form::Volitional).with(Form::Polite), stem: "し", ending: "ましょう" },
        Rule { features: Inflection::new().with(Form::Causative), stem: "さ", ending: "せる" },
        Rule { features: Inflection::new().with(Form::Te), stem: "し", ending: "て" },
    ]
}

/// The forms of する: the stem す, し, さ or でき, then an ending.
pub fn suru_table() -> (rules: Vec<Rule>)
    ensures
        rules@ == suru_rules(),
{
    let rules = vec![
        Rule { features: Inflection::new(), stem: "す", ending: "る" },
        Rule { features: Inflection::new().with(Form::Polite), stem: "し", ending: "ます" },
        Rule { features: Inflection::new().with(Form::Negative), stem: "し", ending: "ない" },
        Rule { features: Inflection::new().with(Form::Negative).with(Form::Polite), stem: "し", ending: "ません" },
        Rule { features: Inflection::new().with(Form::Past), stem: "し", ending: "た" },
        Rule { features: Inflection::new().with(Form::Past).with(Form::Polite), stem: "し", ending: "ました" },
        Rule { features: Inflection::new().with(Form::Past).with(Form::Negative), stem: "し", ending: "なかった" },
        Rule { features: Inflection::new().with(Form::Past).with(Form::Negative).with(Form::Polite), stem: "し", ending: "ませんでした" },
        Rule { features: Inflection::new().with(Form::Imperative), stem: "し", ending: "ろ" },
        Rule { features: Inflection::new().with(Form::Imperative).with(Form::Polite), stem: "し", ending: "なさい" },
        Rule { features: Inflection::new().with(Form::Imperative).with(Form::Negative), stem: "す", ending: "るな" },
        Rule { features: Inflection::new().with(Form::Conditional), stem: "す", ending: "れば" },
        Rule { features: Inflection::new().with(Form::Conditional).with(Form::Negative), stem: "し", ending: "なければ" },
        Rule { features: Inflection::new().with(Form::Passive), stem: "さ", ending: "れる" },
        Rule { features: Inflection::new().with(Form::Potential), stem: "でき", ending: "る" },
        Rule { features: Inflection::new().with(Form::Volitional), stem: "し", ending: "よう" },
        Rule { features: Inflection::new().with(Form::Volitional).with(Form::Polite), stem: "し", ending: "ましょう" },
        Rule { features: Inflection::new().with(Form::Causative), stem: "さ", ending: "せる" },
        Rule { features: Inflection::new().with(Form::Te), stem: "し", ending: "て" },
    ];
    assert(rules@ =~= suru_rules());
    rules
}

/// The forms of 来る: the stem く, き or こ, then an ending.
pub open spec fn kuru_rules() -> Seq<Rule> {
    seq![
        Rule { features: Inflection::new(), stem: "く", ending: "る" },
        Rule { features: Inflection::new().with(Form::Polite), stem: "き", ending: "ます" },
        Rule { features: Inflection::new().with(Form::Negative), stem: "こ", ending: "ない" },
        Rule { features: Inflection::new().with(Form::Negative).with(Form::Polite), stem: "き", ending: "ません" },
        Rule { features: Inflection::new().with(Form::Past), stem: "き", ending: "た" },
        Rule { features: Inflection::new().with(Form::Past).with(Form::Polite), stem: "き", ending: "ました" },
        Rule { features: Inflection::new().with(Form::Past).with(Form::Negative), stem: "こ", ending: "なかった" },
        Rule { features: Inflection::new().with(Form::Past).with(Form::Negative).with(Form::Polite), stem: "き", ending: "ませんでした" },
        Rule { features: Inflection::new().with(Form::Imperative), stem: "こ", ending: "い" },
        Rule { features: Inflection::new().with(Form::Imperative).with(Form::Polite), stem: "き", ending: "なさい" },
        Rule { features: Inflection::new().with(Form::Imperative).with(Form::Negative), stem: "く", ending: "るな" },
        Rule { features: Inflection::new().with(Form::Conditional), stem: "く", ending: "れば" },
        Rule { features: Inflection::new().with(Form::Conditional).with(Form::Negative), stem: "こ", ending: "なければ" },
        Rule { features: Inflection::new().with(Form::Passive), stem: "こ", ending: "られる" },
        Rule { features: Inflection::new().with(Form::Potential), stem: "こ", ending: "られる" },
        Rule { features: Inflection::new().with(Form::Volitional), stem: "こ", ending: "よう" },
        Rule { features: Inflection::new().with(Form::Volitional).with(Form::Polite), stem: "き", ending: "ましょう" },
        Rule { features: Inflection::new().with(Form::Causative), stem: "こ", ending: "させる" },
        Rule { features: Inflection::new().with(Form::Te), stem: "き", ending: "て" },
    ]
}

/// The forms of 来る: the stem く, き or こ, then an ending.
pub fn kuru_table() -> (rules: Vec<Rule>)
    ensures
        rules@ == kuru_rules(),
{
    let rules = vec![
        Rule { features: Inflection::new(), stem: "く", ending: "る" },
        Rule { features: Inflection::new().with(Form::Polite), stem: "き", ending: "ます" },
        Rule { features: Inflection::new().with(Form::Negative), stem: "こ", ending: "ない" },
        Rule { features: Inflection::new().with(Form::Negative).with(Form::Polite), stem: "き", ending: "ません" },
        Rule { features: Inflection::new().with(Form::Past), stem: "き", ending: "た" },
        Rule { features: Inflection::new().with(Form::Past).with(Form::Polite), stem: "き", ending: "ました" },
        Rule { features: Inflection::new().with(Form::Past).with(Form::Negative), stem: "こ", ending: "なかった" },
        Rule { features: Inflection::new().with(Form::Past).with(Form::Negative).with(Form::Polite), stem: "き", ending: "ませんでした" },
        Rule { features: Inflection::new().with(Form::Imperative), stem: "こ", ending: "い" },
        Rule { features: Inflection::new().with(Form::Imperative).with(Form::Polite), stem: "き", ending: "なさい" },
        Rule { features: Inflection::new().with(Form::Imperative).with(Form::Negative), stem: "く", ending: "るな" },
        Rule { features: Inflection::new().with(Form::Conditional), stem: "く", ending: "れば" },
        Rule { features: Inflection::new().with(Form::Conditional).with(Form::Negative), stem: "こ", ending: "なければ" },
        Rule { features: Inflection::new().with(Form::Passive), stem: "こ", ending: "られる" },
        Rule { features: Inflection::new().with(Form::Potential), stem: "こ", ending: "られる" },
        Rule { features: Inflection::new().with(Form::Volitional), stem: "こ", ending: "よう" },
        Rule { features: Inflection::new().with(Form::Volitional).with(Form::Polite), stem: "き", ending: "ましょう" },
        Rule { features: Inflection::new().with(Form::Causative), stem: "こ", ending: "させる" },
        Rule { features: Inflection::new().with(Form::Te), stem: "き", ending: "て" },
    ];
    assert(rules@ =~= kuru_rules());
    rules
}

/// The endings of an adjective in い, attached to the stem that is left
/// when the final い is taken off.
pub open spec fn adjective_i_rules() -> Seq<Rule> {
    seq![
        Rule { features: Inflection::new(), stem: "", ending: "い" },
        Rule { features: Inflection::new().with(Form::Polite), stem: "", ending: "いです" },
        Rule { features: Inflection::new().with(Form::Past), stem: "", ending: "かった" },
        Rule { features: Inflection::new().with(Form::Past).with(Form::Polite), stem: "", ending: "かったです" },
        Rule { features: Inflection::new().with(Form::Negative), stem: "", ending: "くない" },
        Rule { features: Inflection::new().with(Form::Negative).with(Form::Polite), stem: "", ending: "くないです" },
        Rule { features: Inflection::new().with(Form::Past).with(Form::Negative), stem: "", ending: "なかった" },
        Rule { features: Inflection::new().with(Form::Past).with(Form::Negative).with(Form::Polite), stem: "", ending: "なかったです" },
    ]
}

/// The endings of an adjective in い, attached to the stem that is left
/// when the final い is taken off.
pub fn adjective_i_table() -> (rules: Vec<Rule>)
    ensures
        rules@ == adjective_i_rules(),
{
    let rules = vec![
        Rule { features: Inflection::new(), stem: "", ending: "い" },
        Rule { features: Inflection::new().with(Form::Polite), stem: "", ending: "いです" },
        Rule { features: Inflection::new().with(Form::Past), stem: "", ending: "かった" },
        Rule { features: Inflection::new().with(Form::Past).with(Form::Polite), stem: "", ending: "かったです" },
        Rule { features: Inflection::new().with(Form::Negative), stem: "", ending: "くない" },
        Rule { features: Inflection::new().with(Form::Negative).with(Form::Polite), stem: "", ending: "くないです" },
        Rule { features: Inflection::new().with(Form::Past).with(Form::Negative), stem: "", ending: "なかった" },
        Rule { features: Inflection::new().with(Form::Past).with(Form::Negative).with(Form::Polite), stem: "", ending: "なかったです" },
    ];
    assert(rules@ =~= adjective_i_rules());
    rules
}

/// The endings of an adjective of the いい class, attached to what
/// stands before the final いい. The stem alternates with よ.
///
/// The past negative reads よなかった. The standard form is よくなかった:
/// correcting the row changes stored data and calls for a new format version.
pub open spec fn adjective_ix_rules() -> Seq<Rule> {
    seq![
        Rule { features: Inflection::new(), stem: "", ending: "いい" },
        Rule { features: Inflection::new().with(Form::Polite), stem: "", ending: "いいです" },
        Rule { features: Inflection::new().with(Form::Past), stem: "", ending: "よかった" },
        Rule { features: Inflection::new().with(Form::Past).with(Form::Polite), stem: "", ending: "よかったです" },
        Rule { features: Inflection::new().with(Form::Negative), stem: "", ending: "よくない" },
        Rule { features: Inflection::new().with(Form::Negative).with(Form::Polite), stem: "", ending: "よくないです" },
        Rule { features: Inflection::new().with(Form::Past).with(Form::Negative), stem: "", ending: "よなかった" },
        Rule { features: Inflection::new().with(Form::Past).with(Form::Negative).with(Form::Polite), stem: "", ending: "よなかったです" },
    ]
}

/// The endings of an adjective of the いい class, attached to what
/// stands before the final いい. The stem alternates with よ.
///
/// The past negative reads よなかった. The standard form is よくなかった:
/// correcting the row changes stored data and calls for a new format version.
pub fn adjective_ix_table() -> (rules: Vec<Rule>)
    ensures
        rules@ == adjective_ix_rules(),
{
    let rules = vec![
        Rule { features: Inflection::new(), stem: "", ending: "いい" },
        Rule { features: Inflection::new().with(Form::Polite), stem: "", ending: "いいです" },
        Rule { features: Inflection::new().with(Form::Past), stem: "", ending: "よかった" },
        Rule { features: Inflection::new().with(Form::Past).with(Form::Polite), stem: "", ending: "よかったです" },
        Rule { features: Inflection::new().with(Form::Negative), stem: "", ending: "よくない" },
        Rule { features: Inflection::new().with(Form::Negative).with(Form::Polite), stem: "", ending: "よくないです" },
        Rule { features: Inflection::new().with(Form::Past).with(Form::Negative), stem: "", ending: "よなかった" },
        Rule { features: Inflection::new().with(Form::Past).with(Form::Negative).with(Form::Polite), stem: "", ending: "よなかったです" },
    ];
    assert(rules@ =~= adjective_ix_rules());
    rules
}

/// The copula forms that follow a な adjective.
pub open spec fn adjective_na_rules() -> Seq<Rule> {
    seq![
        Rule { features: Inflection::new(), stem: "", ending: "だ" },
        Rule { features: Inflection::new().with(Form::Polite), stem: "", ending: "です" },
        Rule { features: Inflection::new().with(Form::Past), stem: "", ending: "だった" },
        Rule { features: Inflection::new().with(Form::Past).with(Form::Polite), stem: "", ending: "でした" },
        Rule { features: Inflection::new().with(Form::Negative), stem: "", ending: "ではない" },
        Rule { features: Inflection::new().with(Form::Negative).with(Form::Polite), stem: "", ending: "ではありません" },
        Rule { features: Inflection::new().with(Form::Past).with(Form::Negative), stem: "", ending: "ではなかった" },
        Rule { features: Inflection::new().with(Form::Past).with(Form::Negative).with(Form::Polite), stem: "", ending: "ではありませんでした" },
    ]
}

/// The copula forms that follow a な adjective.
pub fn adjective_na_table() -> (rules: Vec<Rule>)
    ensures
        rules@ == adjective_na_rules(),
{
    let rules = vec![
        Rule { features: Inflection::new(), stem: "", ending: "だ" },
        Rule { features: Inflection::new().with(Form::Polite), stem: "", ending: "です" },
        Rule { features: Inflection::new().with(Form::Past), stem: "", ending: "だった" },
        Rule { features: Inflection::new().with(Form::Past).with(Form::Polite), stem: "", ending: "でした" },
        Rule { features: Inflection::new().with(Form::Negative), stem: "", ending: "ではない" },
        Rule { features: Inflection::new().with(Form::Negative).with(Form::Polite), stem: "", ending: "ではありません" },
        Rule { features: Inflection::new().with(Form::Past).with(Form::Negative), stem: "", ending: "ではなかった" },
        Rule { features: Inflection::new().with(Form::Past).with(Form::Negative).with(Form::Polite), stem: "", ending: "ではありませんでした" },
    ];
    assert(rules@ =~= adjective_na_rules());
    rules
}

} // verus!

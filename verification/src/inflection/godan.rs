//! The godan table: one row for each final kana.
use vstd::prelude::*;

verus! {

/// One row of the godan table.
///
/// `a`, `i`, `u`, `e` and `o` are the final kana moved through the five
/// vowels: `a` carries the negative, passive and causative, `i` the polite
/// forms, `u` the dictionary form, `e` the imperative, conditional and
/// potential, `o` the volitional. `te` and `ta` are the endings of the
/// te-form and of the past. `te_stem` is what is left of `te` when its last
/// kana is taken off. `de` tells that the te-form ends in で.
#[derive(Clone, Copy, Debug)]
pub struct Godan {
    pub a: &'static str,
    pub i: &'static str,
    pub u: &'static str,
    pub e: &'static str,
    pub o: &'static str,
    pub te: &'static str,
    pub ta: &'static str,
    pub te_stem: &'static str,
    pub de: bool,
}

/// The row of verbs in う.
pub open spec fn row_u() -> Godan {
    Godan { a: "わ", i: "い", u: "う", e: "え", o: "お", te: "って", ta: "った", te_stem: "っ", de: false }
}

/// The row of verbs in う.
#[verifier::when_used_as_spec(row_u)]
pub fn u() -> (row: Godan)
    ensures
        row == row_u(),
{
    Godan { a: "わ", i: "い", u: "う", e: "え", o: "お", te: "って", ta: "った", te_stem: "っ", de: false }
}

/// The row of verbs in つ.
pub open spec fn row_tsu() -> Godan {
    Godan { a: "た", i: "ち", u: "つ", e: "て", o: "と", te: "って", ta: "った", te_stem: "っ", de: false }
}

/// The row of verbs in つ.
#[verifier::when_used_as_spec(row_tsu)]
pub fn tsu() -> (row: Godan)
    ensures
        row == row_tsu(),
{
    Godan { a: "た", i: "ち", u: "つ", e: "て", o: "と", te: "って", ta: "った", te_stem: "っ", de: false }
}

/// The row of verbs in る.
pub open spec fn row_ru() -> Godan {
    Godan { a: "ら", i: "り", u: "る", e: "れ", o: "ろ", te: "って", ta: "った", te_stem: "っ", de: false }
}

/// The row of verbs in る.
#[verifier::when_used_as_spec(row_ru)]
pub fn ru() -> (row: Godan)
    ensures
        row == row_ru(),
{
    Godan { a: "ら", i: "り", u: "る", e: "れ", o: "ろ", te: "って", ta: "った", te_stem: "っ", de: false }
}

/// The row of verbs in く.
pub open spec fn row_ku() -> Godan {
    Godan { a: "か", i: "き", u: "く", e: "け", o: "こ", te: "いて", ta: "いた", te_stem: "い", de: false }
}

/// The row of verbs in く.
#[verifier::when_used_as_spec(row_ku)]
pub fn ku() -> (row: Godan)
    ensures
        row == row_ku(),
{
    Godan { a: "か", i: "き", u: "く", e: "け", o: "こ", te: "いて", ta: "いた", te_stem: "い", de: false }
}

/// The row of verbs in ぐ.
pub open spec fn row_gu() -> Godan {
    Godan { a: "が", i: "ぎ", u: "ぐ", e: "げ", o: "ご", te: "いで", ta: "いだ", te_stem: "い", de: true }
}

/// The row of verbs in ぐ.
#[verifier::when_used_as_spec(row_gu)]
pub fn gu() -> (row: Godan)
    ensures
        row == row_gu(),
{
    Godan { a: "が", i: "ぎ", u: "ぐ", e: "げ", o: "ご", te: "いで", ta: "いだ", te_stem: "い", de: true }
}

/// The row of verbs in む.
pub open spec fn row_mu() -> Godan {
    Godan { a: "ま", i: "み", u: "む", e: "め", o: "も", te: "んで", ta: "んだ", te_stem: "ん", de: true }
}

/// The row of verbs in む.
#[verifier::when_used_as_spec(row_mu)]
pub fn mu() -> (row: Godan)
    ensures
        row == row_mu(),
{
    Godan { a: "ま", i: "み", u: "む", e: "め", o: "も", te: "んで", ta: "んだ", te_stem: "ん", de: true }
}

/// The row of verbs in ぶ.
pub open spec fn row_bu() -> Godan {
    Godan { a: "ば", i: "び", u: "ぶ", e: "べ", o: "ぼ", te: "んで", ta: "んだ", te_stem: "ん", de: true }
}

/// The row of verbs in ぶ.
#[verifier::when_used_as_spec(row_bu)]
pub fn bu() -> (row: Godan)
    ensures
        row == row_bu(),
{
    Godan { a: "ば", i: "び", u: "ぶ", e: "べ", o: "ぼ", te: "んで", ta: "んだ", te_stem: "ん", de: true }
}

/// The row of verbs in ぬ.
pub open spec fn row_nu() -> Godan {
    Godan { a: "な", i: "に", u: "ぬ", e: "ね", o: "の", te: "んで", ta: "んだ", te_stem: "ん", de: true }
}

/// The row of verbs in ぬ.
#[verifier::when_used_as_spec(row_nu)]
pub fn nu() -> (row: Godan)
    ensures
        row == row_nu(),
{
    Godan { a: "な", i: "に", u: "ぬ", e: "ね", o: "の", te: "んで", ta: "んだ", te_stem: "ん", de: true }
}

/// The row of verbs in す.
pub open spec fn row_su() -> Godan {
    Godan { a: "さ", i: "し", u: "す", e: "せ", o: "そ", te: "して", ta: "した", te_stem: "し", de: false }
}

/// The row of verbs in す.
#[verifier::when_used_as_spec(row_su)]
pub fn su() -> (row: Godan)
    ensures
        row == row_su(),
{
    Godan { a: "さ", i: "し", u: "す", e: "せ", o: "そ", te: "して", ta: "した", te_stem: "し", de: false }
}

/// The row of 行く: a verb in く whose te-form is って.
pub open spec fn row_iku() -> Godan {
    Godan { a: "か", i: "き", u: "く", e: "け", o: "こ", te: "って", ta: "った", te_stem: "っ", de: false }
}

/// The row of 行く: a verb in く whose te-form is って.
#[verifier::when_used_as_spec(row_iku)]
pub fn iku() -> (row: Godan)
    ensures
        row == row_iku(),
{
    Godan { a: "か", i: "き", u: "く", e: "け", o: "こ", te: "って", ta: "った", te_stem: "っ", de: false }
}

/// The row that a final kana selects, if it is one of the nine.
pub open spec fn row_of(last: char) -> Option<Godan> {
    if last == 'う' {
        Some(row_u())
    } else if last == 'つ' {
        Some(row_tsu())
    } else if last == 'る' {
        Some(row_ru())
    } else if last == 'く' {
        Some(row_ku())
    } else if last == 'ぐ' {
        Some(row_gu())
    } else if last == 'む' {
        Some(row_mu())
    } else if last == 'ぶ' {
        Some(row_bu())
    } else if last == 'ぬ' {
        Some(row_nu())
    } else if last == 'す' {
        Some(row_su())
    } else {
        None
    }
}

/// The row that a final kana selects, if it is one of the nine.
#[verifier::when_used_as_spec(row_of)]
pub fn select(last: char) -> (row: Option<Godan>)
    ensures
        row == row_of(last),
{
    if last == 'う' {
        Some(u())
    } else if last == 'つ' {
        Some(tsu())
    } else if last == 'る' {
        Some(ru())
    } else if last == 'く' {
        Some(ku())
    } else if last == 'ぐ' {
        Some(gu())
    } else if last == 'む' {
        Some(mu())
    } else if last == 'ぶ' {
        Some(bu())
    } else if last == 'ぬ' {
        Some(nu())
    } else if last == 'す' {
        Some(su())
    } else {
        None
    }
}

} // verus!

//! The table of inflected forms of one word.
use std::collections::BTreeMap;
use vstd::prelude::*;
use vstd::std_specs::btree::*;

use super::form::{Form, Inflection};
use super::rules::Rule;
use crate::kana::{Fragments, Full, Spelling};

verus! {

broadcast use {vstd::std_specs::btree::group_btree_axioms, vstd::laws_cmp::group_laws_cmp};

/// The form that a rule gives when it is attached behind `base`: the stems
/// stay, and the ending grows by `prefix`, the rule's stem and its ending.
pub open spec fn attached(base: Spelling, prefix: Seq<char>, rule: Rule) -> Spelling {
    base.extended(prefix + rule.stem@ + rule.ending@)
}

/// The form that a rule gives for a word whose written stem stands for the
/// rule's stem as well: only the reading spells the rule's stem out.
pub open spec fn absorbed(text: Seq<char>, reading: Seq<char>, rule: Rule) -> Spelling {
    Spelling { text, reading: reading + rule.stem@, suffix: rule.ending@ }
}

/// `forms` after each of `rules` has been entered in turn, under its own
/// features joined with `mark`, as the form [`attached`] to `base`. A later
/// rule replaces an earlier one with the same features.
pub open spec fn populated(
    forms: Map<Inflection, Spelling>,
    rules: Seq<Rule>,
    base: Spelling,
    mark: Inflection,
    prefix: Seq<char>,
) -> Map<Inflection, Spelling>
    decreases rules.len(),
{
    if rules.len() == 0 {
        forms
    } else {
        populated(forms, rules.drop_last(), base, mark, prefix).insert(
            mark.join(rules.last().features),
            attached(base, prefix, rules.last()),
        )
    }
}

/// `forms` after each of `rules` has been entered in turn, under its own
/// features, as the form [`absorbed`] by the stems. A later rule replaces an
/// earlier one with the same features.
pub open spec fn populated_absorbed(
    forms: Map<Inflection, Spelling>,
    rules: Seq<Rule>,
    text: Seq<char>,
    reading: Seq<char>,
) -> Map<Inflection, Spelling>
    decreases rules.len(),
{
    if rules.len() == 0 {
        forms
    } else {
        populated_absorbed(forms, rules.drop_last(), text, reading).insert(
            rules.last().features,
            absorbed(text, reading, rules.last()),
        )
    }
}

/// Inflected forms by their features.
#[derive(Debug)]
pub struct InflectionTable<'a> {
    tree: BTreeMap<u32, Fragments<'a>>,
}

impl<'a> View for InflectionTable<'a> {
    type V = Map<Inflection, Spelling>;

    closed spec fn view(&self) -> Map<Inflection, Spelling> {
        Map::new(
            |key: Inflection| self.tree@.contains_key(key.bits),
            |key: Inflection| self.tree@[key.bits]@,
        )
    }
}

impl<'a> InflectionTable<'a> {
    /// The table without any form.
    pub fn new() -> (table: InflectionTable<'a>)
        ensures
            table@ == Map::<Inflection, Spelling>::empty(),
    {
        let table = InflectionTable { tree: BTreeMap::new() };
        assert(table@ =~= Map::<Inflection, Spelling>::empty());
        table
    }

    /// Enters a form under `key`, in place of the one that was there.
    pub fn insert(&mut self, key: Inflection, form: Fragments<'a>)
        ensures
            final(self)@ == old(self)@.insert(key, form@),
    {
        self.tree.insert(key.bits, form);
        assert(self@ =~= old(self)@.insert(key, form@));
    }

    /// The form under `key`, if there is one.
    pub fn get(&self, key: Inflection) -> (found: Option<&Fragments<'a>>)
        ensures
            match found {
                Some(form) => self@.contains_key(key) && self@[key] == form@,
                None => !self@.contains_key(key),
            },
    {
        self.tree.get(&key.bits)
    }

    /// Whether there is a form under `key`.
    pub fn contains_key(&self, key: Inflection) -> (b: bool)
        ensures
            b == self@.contains_key(key),
    {
        self.tree.contains_key(&key.bits)
    }

    /// Enters the forms that `rules` give behind `base`.
    pub fn populate(
        &mut self,
        rules: &Vec<Rule>,
        base: &Fragments<'a>,
        mark: Inflection,
        prefix: &str,
    )
        ensures
            final(self)@ == populated(old(self)@, rules@, base@, mark, prefix@),
    {
        let mut i: usize = 0;
        assert(rules@.take(0) =~= Seq::<Rule>::empty());
        while i < rules.len()
            invariant
                i <= rules.len(),
                self@ == populated(old(self)@, rules@.take(i as int), base@, mark, prefix@),
            decreases rules.len() - i,
        {
            let rule = rules[i];
            let form = base.concat(prefix, rule.stem, rule.ending);
            proof {
                assert(rules@.take(i + 1).drop_last() =~= rules@.take(i as int));
                assert(rules@.take(i + 1).last() == rule);
            }
            self.insert(mark.union(rule.features), form);
            i = i + 1;
        }
        assert(rules@.take(rules.len() as int) =~= rules@);
    }

    /// Enters the forms that `rules` give for a word whose written stem
    /// stands for the rule's stem too.
    pub fn populate_absorbed(&mut self, rules: &Vec<Rule>, text: &'a str, reading: &'a str)
        ensures
            final(self)@ == populated_absorbed(old(self)@, rules@, text@, reading@),
    {
        let mut i: usize = 0;
        assert(rules@.take(0) =~= Seq::<Rule>::empty());
        while i < rules.len()
            invariant
                i <= rules.len(),
                self@ == populated_absorbed(old(self)@, rules@.take(i as int), text@, reading@),
            decreases rules.len() - i,
        {
            let rule = rules[i];
            let form = Fragments::with_extension(text, reading, rule.stem, rule.ending);
            proof {
                assert(rules@.take(i + 1).drop_last() =~= rules@.take(i as int));
                assert(rules@.take(i + 1).last() == rule);
            }
            self.insert(rule.features, form);
            i = i + 1;
        }
        assert(rules@.take(rules.len() as int) =~= rules@);
    }
}

/// The feature sets that a form can have by itself, before an
/// auxiliary is attached.
pub open spec fn plain_features() -> Seq<Inflection> {
    seq![
        Inflection::new(),
        Inflection::new().with(Form::Polite),
        Inflection::new().with(Form::Negative),
        Inflection::new().with(Form::Negative).with(Form::Polite),
        Inflection::new().with(Form::Past),
        Inflection::new().with(Form::Past).with(Form::Polite),
        Inflection::new().with(Form::Past).with(Form::Negative),
        Inflection::new().with(Form::Past).with(Form::Negative).with(Form::Polite),
        Inflection::new().with(Form::Imperative),
        Inflection::new().with(Form::Imperative).with(Form::Polite),
        Inflection::new().with(Form::Imperative).with(Form::Negative),
        Inflection::new().with(Form::Conditional),
        Inflection::new().with(Form::Conditional).with(Form::Negative),
        Inflection::new().with(Form::Passive),
        Inflection::new().with(Form::Potential),
        Inflection::new().with(Form::Volitional),
        Inflection::new().with(Form::Volitional).with(Form::Polite),
        Inflection::new().with(Form::Causative),
        Inflection::new().with(Form::Te),
    ]
}

/// The marks of the auxiliaries; the first stands for no auxiliary.
pub open spec fn marks() -> Seq<Inflection> {
    seq![
        Inflection::new(),
        Inflection::new().with(Form::TeIru),
        Inflection::new().with(Form::TeAru),
        Inflection::new().with(Form::TeIku),
        Inflection::new().with(Form::TeShimau),
        Inflection::new().with(Form::TeOku),
        Inflection::new().with(Form::TeKuru),
        Inflection::new().with(Form::Chau),
    ]
}

/// The feature sets of the shortened forms.
pub open spec fn short_features() -> Seq<Inflection> {
    seq![
        Inflection::new().with(Form::TeIru).with(Form::Short),
        Inflection::new().with(Form::TeOku).with(Form::Short),
    ]
}

/// The first `n` of the plain feature sets, each joined with a mark.
pub open spec fn marked(mark: Inflection, n: int) -> Seq<Inflection>
    decreases n,
{
    if n <= 0 {
        Seq::empty()
    } else {
        marked(mark, n - 1).push(mark.join(plain_features()[n - 1]))
    }
}

/// The plain feature sets joined with each of the first `n` marks.
pub open spec fn listed_upto(n: int) -> Seq<Inflection>
    decreases n,
{
    if n <= 0 {
        Seq::empty()
    } else {
        listed_upto(n - 1) + marked(marks()[n - 1], plain_features().len() as int)
    }
}

/// The feature sets under which forms are listed, in the order of the
/// listing: for each mark the plain sets joined with it, then the
/// shortened forms.
pub open spec fn listing() -> Seq<Inflection> {
    listed_upto(marks().len() as int) + short_features()
}

/// The spellings, as written and as read, of the forms under the first
/// `n` of the given feature sets, in their order.
pub open spec fn surfaces_upto(forms: Map<Inflection, Spelling>, keys: Seq<Inflection>, n: int) -> Seq<
    Seq<char>,
>
    decreases n,
{
    if n <= 0 {
        Seq::empty()
    } else if forms.contains_key(keys[n - 1]) {
        surfaces_upto(forms, keys, n - 1).push(forms[keys[n - 1]].written()).push(
            forms[keys[n - 1]].read(),
        )
    } else {
        surfaces_upto(forms, keys, n - 1)
    }
}

/// The surface forms of a table: each form of the listing as it is
/// written and as it is read.
pub open spec fn surfaces_of(forms: Map<Inflection, Spelling>) -> Seq<Seq<char>> {
    surfaces_upto(forms, listing(), listing().len() as int)
}

fn plain_keys() -> (keys: Vec<Inflection>)
    ensures
        keys@ == plain_features(),
{
    let keys = vec![
        Inflection::new(),
        Inflection::new().with(Form::Polite),
        Inflection::new().with(Form::Negative),
        Inflection::new().with(Form::Negative).with(Form::Polite),
        Inflection::new().with(Form::Past),
        Inflection::new().with(Form::Past).with(Form::Polite),
        Inflection::new().with(Form::Past).with(Form::Negative),
        Inflection::new().with(Form::Past).with(Form::Negative).with(Form::Polite),
        Inflection::new().with(Form::Imperative),
        Inflection::new().with(Form::Imperative).with(Form::Polite),
        Inflection::new().with(Form::Imperative).with(Form::Negative),
        Inflection::new().with(Form::Conditional),
        Inflection::new().with(Form::Conditional).with(Form::Negative),
        Inflection::new().with(Form::Passive),
        Inflection::new().with(Form::Potential),
        Inflection::new().with(Form::Volitional),
        Inflection::new().with(Form::Volitional).with(Form::Polite),
        Inflection::new().with(Form::Causative),
        Inflection::new().with(Form::Te),
    ];
    assert(keys@ =~= plain_features());
    keys
}

fn mark_keys() -> (keys: Vec<Inflection>)
    ensures
        keys@ == marks(),
{
    let keys = vec![
        Inflection::new(),
        Inflection::new().with(Form::TeIru),
        Inflection::new().with(Form::TeAru),
        Inflection::new().with(Form::TeIku),
        Inflection::new().with(Form::TeShimau),
        Inflection::new().with(Form::TeOku),
        Inflection::new().with(Form::TeKuru),
        Inflection::new().with(Form::Chau),
    ];
    assert(keys@ =~= marks());
    keys
}

/// The feature sets under which forms are listed.
pub fn listing_keys() -> (keys: Vec<Inflection>)
    ensures
        keys@ == listing(),
{
    let plain = plain_keys();
    let marks = mark_keys();
    let mut keys: Vec<Inflection> = Vec::new();
    let mut m: usize = 0;
    while m < marks.len()
        invariant
            m <= marks.len(),
            marks@ == self::marks(),
            plain@ == plain_features(),
            keys@ == listed_upto(m as int),
        decreases marks.len() - m,
    {
        let ghost before = keys@;
        let mark = marks[m];
        let mut n: usize = 0;
        assert(keys@ =~= before + marked(mark, 0));
        while n < plain.len()
            invariant
                n <= plain.len(),
                plain@ == plain_features(),
                keys@ == before + marked(mark, n as int),
            decreases plain.len() - n,
        {
            keys.push(mark.union(plain[n]));
            n = n + 1;
            assert(keys@ =~= before + marked(mark, n as int));
        }
        m = m + 1;
    }
    let ghost long = keys@;
    keys.push(Inflection::new().with(Form::TeIru).with(Form::Short));
    keys.push(Inflection::new().with(Form::TeOku).with(Form::Short));
    assert(keys@ =~= long + short_features());
    keys
}

impl<'a> InflectionTable<'a> {
    /// The surface forms of the table: each form of the listing as it is
    /// written and as it is read.
    pub fn surfaces(&self) -> (out: Vec<String>)
        ensures
            crate::query::texts(out@) == surfaces_of(self@),
    {
        let keys = listing_keys();
        let mut out: Vec<String> = Vec::new();
        let mut n: usize = 0;
        assert(crate::query::texts(out@) =~= surfaces_upto(self@, keys@, 0));
        while n < keys.len()
            invariant
                n <= keys.len(),
                keys@ == listing(),
                crate::query::texts(out@) == surfaces_upto(self@, keys@, n as int),
            decreases keys.len() - n,
        {
            let ghost before = crate::query::texts(out@);
            match self.get(keys[n]) {
                Some(form) => {
                    let written = form.text();
                    let read = form.reading();
                    out.push(written);
                    out.push(read);
                    assert(crate::query::texts(out@) =~= before.push(written@).push(read@));
                },
                None => {},
            }
            n = n + 1;
        }
        out
    }
}

/// What [`Inflections`] holds: the dictionary form and the inflected forms.
pub struct InflectionsView {
    pub dictionary: Spelling,
    pub inflections: Map<Inflection, Spelling>,
}

/// The inflections of one reading of a word.
#[derive(Debug)]
pub struct Inflections<'a> {
    pub dictionary: Full<'a>,
    pub inflections: InflectionTable<'a>,
}

impl<'a> View for Inflections<'a> {
    type V = InflectionsView;

    open spec fn view(&self) -> InflectionsView {
        InflectionsView { dictionary: self.dictionary@, inflections: self.inflections@ }
    }
}

impl<'a> Inflections<'a> {
    /// The form with the given features, if the word has one.
    pub fn get(&self, key: Inflection) -> (found: Option<&Fragments<'a>>)
        ensures
            match found {
                Some(form) => self@.inflections.contains_key(key) && self@.inflections[key]
                    == form@,
                None => !self@.inflections.contains_key(key),
            },
    {
        self.inflections.get(key)
    }
}

} // verus!

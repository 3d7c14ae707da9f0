//! Inflection features and sets of them.
use vstd::prelude::*;

verus! {

/// A single grammatical feature of an inflected form.
#[derive(Clone, Copy, Debug, PartialEq, Eq, Structural, Hash)]
pub enum Form {
    Past,
    Negative,
    Polite,
    Te,
    Short,
    Causative,
    Passive,
    Potential,
    Volitional,
    Imperative,
    Conditional,
    Chau,
    TeIru,
    TeAru,
    TeIku,
    TeKuru,
    TeShimau,
    TeOku,
}

impl Form {
    /// Position of the feature in the closed list of features.
    pub open spec fn index(self) -> nat {
        match self {
            Form::Past => 0,
            Form::Negative => 1,
            Form::Polite => 2,
            Form::Te => 3,
            Form::Short => 4,
            Form::Causative => 5,
            Form::Passive => 6,
            Form::Potential => 7,
            Form::Volitional => 8,
            Form::Imperative => 9,
            Form::Conditional => 10,
            Form::Chau => 11,
            Form::TeIru => 12,
            Form::TeAru => 13,
            Form::TeIku => 14,
            Form::TeKuru => 15,
            Form::TeShimau => 16,
            Form::TeOku => 17,
        }
    }

    /// The bit that stands for the feature in an [`Inflection`].
    pub open spec fn mask(self) -> u32 {
        match self {
            Form::Past => 0x1,
            Form::Negative => 0x2,
            Form::Polite => 0x4,
            Form::Te => 0x8,
            Form::Short => 0x10,
            Form::Causative => 0x20,
            Form::Passive => 0x40,
            Form::Potential => 0x80,
            Form::Volitional => 0x100,
            Form::Imperative => 0x200,
            Form::Conditional => 0x400,
            Form::Chau => 0x800,
            Form::TeIru => 0x1000,
            Form::TeAru => 0x2000,
            Form::TeIku => 0x4000,
            Form::TeKuru => 0x8000,
            Form::TeShimau => 0x10000,
            Form::TeOku => 0x20000,
        }
    }

    /// The bit that stands for the feature in an [`Inflection`].
    #[verifier::when_used_as_spec(mask)]
    pub fn bit(self) -> (m: u32)
        ensures
            m == self.mask(),
    {
        match self {
            Form::Past => 0x1,
            Form::Negative => 0x2,
            Form::Polite => 0x4,
            Form::Te => 0x8,
            Form::Short => 0x10,
            Form::Causative => 0x20,
            Form::Passive => 0x40,
            Form::Potential => 0x80,
            Form::Volitional => 0x100,
            Form::Imperative => 0x200,
            Form::Conditional => 0x400,
            Form::Chau => 0x800,
            Form::TeIru => 0x1000,
            Form::TeAru => 0x2000,
            Form::TeIku => 0x4000,
            Form::TeKuru => 0x8000,
            Form::TeShimau => 0x10000,
            Form::TeOku => 0x20000,
        }
    }
}

/// A set of inflection features, kept as one bit per feature.
///
/// Two inflections are the same table key exactly when their bits agree.
#[derive(Clone, Copy, Debug, PartialEq, Eq, Structural, Hash, PartialOrd, Ord)]
pub struct Inflection {
    pub bits: u32,
}

impl View for Inflection {
    type V = Set<Form>;

    open spec fn view(&self) -> Set<Form> {
        Set::new(|f: Form| self.has(f))
    }
}

impl Inflection {
    /// The set without any feature: the dictionary form.
    pub open spec fn none() -> Inflection {
        Inflection { bits: 0 }
    }

    /// The set with `form` added.
    pub open spec fn and(self, form: Form) -> Inflection {
        Inflection { bits: self.bits | form.mask() }
    }

    /// The set of the features of both.
    pub open spec fn join(self, other: Inflection) -> Inflection {
        Inflection { bits: self.bits | other.bits }
    }

    /// Whether `form` is one of the features.
    pub open spec fn has(self, form: Form) -> bool {
        self.bits & form.mask() != 0
    }

    /// The set without any feature.
    #[verifier::when_used_as_spec(none)]
    pub fn new() -> (r: Inflection)
        ensures
            r == Inflection::none(),
    {
        Inflection { bits: 0 }
    }

    /// Adds one feature.
    #[verifier::when_used_as_spec(and)]
    pub fn with(self, form: Form) -> (r: Inflection)
        ensures
            r == self.and(form),
    {
        Inflection { bits: self.bits | form.bit() }
    }

    /// Union of two feature sets.
    #[verifier::when_used_as_spec(join)]
    pub fn union(self, other: Inflection) -> (r: Inflection)
        ensures
            r == self.join(other),
    {
        Inflection { bits: self.bits | other.bits }
    }

    /// Tests whether a feature is present.
    #[verifier::when_used_as_spec(has)]
    pub fn contains(self, form: Form) -> (r: bool)
        ensures
            r == self.has(form),
    {
        self.bits & form.bit() != 0
    }
}

} // verus!

//! Records in two shapes: one that borrows its text and one that owns
//! it. What is decided when the owning shape is made from the borrowing
//! one: which parameters stay, which fields may keep their type, how a
//! field is carried over, and what a position in a tuple is called.
use vstd::prelude::*;
use vstd::string::*;

use crate::number::{decimal, format_decimal};
use crate::query::texts;
use crate::text::same;

verus! {

/// A parameter of a type.
#[derive(Clone, Copy, Debug, PartialEq, Eq, Structural, Hash)]
pub enum Param {
    Lifetime,
    Type,
    Const,
}

/// The positions of the first `n` parameters that the owning shape keeps:
/// those that are no lifetimes, in their order.
pub open spec fn kept(params: Seq<Param>, n: int) -> Seq<usize>
    decreases n,
{
    if n <= 0 {
        Seq::empty()
    } else if params[n - 1] == Param::Lifetime {
        kept(params, n - 1)
    } else {
        kept(params, n - 1).push((n - 1) as usize)
    }
}

/// The positions of the parameters that the owning shape keeps.
pub fn strip_lifetimes(params: &Vec<Param>) -> (positions: Vec<usize>)
    ensures
        positions@ == kept(params@, params@.len() as int),
{
    let mut positions: Vec<usize> = Vec::new();
    let mut n: usize = 0;
    while n < params.len()
        invariant
            n <= params.len(),
            positions@ == kept(params@, n as int),
        decreases params.len() - n,
    {
        match params[n] {
            Param::Lifetime => {},
            _ => {
                positions.push(n);
            },
        }
        n = n + 1;
    }
    positions
}

/// The type of a field, as far as references may stand in it.
#[derive(Debug)]
pub enum Shape {
    /// A type that is not looked into.
    Opaque,
    /// An array, a slice or a group, with the type of its elements.
    Wrap(Box<Shape>),
    /// A reference, with the name of its lifetime if it has one, and a
    /// number by which the caller knows it again.
    Reference(Option<String>, usize),
    /// A function pointer, with the lifetimes that it binds and the types
    /// of its inputs.
    Function(Vec<String>, Box<Shape>),
    /// Several types: the first of them, and the rest.
    Parts(Box<Shape>, Box<Shape>),
}

/// A reference that a field of the owning shape must not have.
#[derive(Clone, Copy, Debug, PartialEq, Eq, Structural, Hash)]
pub struct Fault {
    /// The number of the reference.
    pub at: usize,
    /// Whether the reference has no lifetime, rather than one that is not
    /// bound.
    pub anonymous: bool,
}

/// The references in a type that the owning shape must not have, in the
/// order in which they stand: every reference whose lifetime is not bound
/// by a function pointer around it. What a reference points to is not
/// looked into.
pub open spec fn faults(shape: Shape, bound: Seq<Seq<char>>) -> Seq<Fault>
    decreases shape,
{
    match shape {
        Shape::Opaque => Seq::empty(),
        Shape::Wrap(inner) => faults(*inner, bound),
        Shape::Reference(Some(lifetime), at) => if bound.contains(lifetime@) {
            Seq::empty()
        } else {
            seq![Fault { at, anonymous: false }]
        },
        Shape::Reference(None, at) => seq![Fault { at, anonymous: true }],
        Shape::Function(binds, inputs) => faults(*inputs, bound + texts(binds@)),
        Shape::Parts(first, rest) => faults(*first, bound) + faults(*rest, bound),
    }
}

/// Whether a name is among those of a list.
fn is_bound(bound: &Vec<String>, name: &str) -> (b: bool)
    ensures
        b == texts(bound@).contains(name@),
{
    let mut i: usize = 0;
    while i < bound.len()
        invariant
            i <= bound.len(),
            forall|j: int| 0 <= j < i ==> texts(bound@)[j] != name@,
        decreases bound.len() - i,
    {
        assert(texts(bound@)[i as int] == bound@[i as int]@);
        if same(bound[i].as_str(), name) {
            return true;
        }
        i = i + 1;
    }
    false
}

/// The names of one list behind those of another.
fn joined(bound: &Vec<String>, binds: &Vec<String>) -> (all: Vec<String>)
    ensures
        texts(all@) == texts(bound@) + texts(binds@),
{
    let mut all: Vec<String> = Vec::new();
    let mut i: usize = 0;
    while i < bound.len()
        invariant
            i <= bound.len(),
            texts(all@) == texts(bound@).take(i as int),
        decreases bound.len() - i,
    {
        let ghost had = all@;
        let name = String::from_str(bound[i].as_str());
        all.push(name);
        assert(texts(all@) =~= texts(had).push(bound@[i as int]@));
        assert(texts(bound@).take(i + 1) =~= texts(bound@).take(i as int).push(bound@[i as int]@));
        i = i + 1;
    }
    assert(texts(bound@).take(bound@.len() as int) =~= texts(bound@));
    let mut j: usize = 0;
    while j < binds.len()
        invariant
            j <= binds.len(),
            texts(all@) == texts(bound@) + texts(binds@).take(j as int),
        decreases binds.len() - j,
    {
        let ghost had = all@;
        let name = String::from_str(binds[j].as_str());
        all.push(name);
        assert(texts(all@) =~= texts(had).push(binds@[j as int]@));
        assert(texts(binds@).take(j + 1) =~= texts(binds@).take(j as int).push(binds@[j as int]@));
        assert(texts(all@) =~= texts(bound@) + texts(binds@).take(j + 1));
        j = j + 1;
    }
    assert(texts(binds@).take(binds@.len() as int) =~= texts(binds@));
    all
}

/// Adds the references in a type that the owning shape must not have
/// behind those in `found`.
fn collect(shape: &Shape, bound: &Vec<String>, found: &mut Vec<Fault>)
    ensures
        final(found)@ == old(found)@ + faults(*shape, texts(bound@)),
    decreases shape,
{
    match shape {
        Shape::Opaque => {
            assert(found@ + Seq::<Fault>::empty() =~= found@);
        },
        Shape::Wrap(inner) => {
            collect(inner, bound, found);
        },
        Shape::Reference(Some(lifetime), at) => {
            if is_bound(bound, lifetime.as_str()) {
                assert(found@ + Seq::<Fault>::empty() =~= found@);
            } else {
                found.push(Fault { at: *at, anonymous: false });
                assert(found@ =~= old(found)@ + seq![Fault { at: *at, anonymous: false }]);
            }
        },
        Shape::Reference(None, at) => {
            found.push(Fault { at: *at, anonymous: true });
            assert(found@ =~= old(found)@ + seq![Fault { at: *at, anonymous: true }]);
        },
        Shape::Function(binds, inputs) => {
            let all = joined(bound, binds);
            collect(inputs, &all, found);
        },
        Shape::Parts(first, rest) => {
            collect(first, bound, found);
            collect(rest, bound, found);
            assert(found@ =~= old(found)@ + (faults(**first, texts(bound@)) + faults(
                **rest,
                texts(bound@),
            )));
        },
    }
}

/// The references in the type of a field that the owning shape must not
/// have: the field needs another type there. A reference whose lifetime
/// is one of `ignore` is let be, as is one that a function pointer around
/// it binds.
pub fn ensure_no_lifetimes(shape: &Shape, ignore: &Vec<String>) -> (found: Vec<Fault>)
    ensures
        found@ == faults(*shape, texts(ignore@)),
{
    let mut found: Vec<Fault> = Vec::new();
    collect(shape, ignore, &mut found);
    assert(Seq::<Fault>::empty() + faults(*shape, texts(ignore@)) =~= faults(
        *shape,
        texts(ignore@),
    ));
    found
}

/// How the value of a field is carried from one shape to the other.
#[derive(Clone, Copy, Debug, PartialEq, Eq, Structural, Hash)]
pub enum Carry {
    /// The value is copied as it is.
    Copy,
    /// The functions that the field names are called.
    Named,
    /// The value is cloned.
    Clone,
}

/// How the value of a field is carried over: copied where the field says
/// so, by the functions that it names where it names any, and cloned
/// otherwise.
pub fn carry(copy: bool, named: bool) -> (how: Carry)
    ensures
        how == if copy {
            Carry::Copy
        } else if named {
            Carry::Named
        } else {
            Carry::Clone
        },
{
    if copy {
        Carry::Copy
    } else if named {
        Carry::Named
    } else {
        Carry::Clone
    }
}

/// The name of the variable that stands for a position in a tuple: `f`
/// and the position.
pub fn variable(position: u32) -> (name: String)
    ensures
        name@ == seq!['f'] + decimal(position as nat),
{
    let mut name = String::new();
    name.push('f');
    let digits = format_decimal(position as u64);
    name.append(digits.as_str());
    assert(name@ =~= seq!['f'] + decimal(position as nat));
    name
}

} // verus!

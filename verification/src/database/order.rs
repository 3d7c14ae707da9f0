//! The order of byte strings: byte by byte, a string before those that
//! it begins.
use vstd::prelude::*;

verus! {

/// Whether `a` comes before `b` or is `b`: at the first byte in which
/// they differ `a` has the smaller one, or `a` ends before they differ.
pub open spec fn lex_le(a: Seq<u8>, b: Seq<u8>) -> bool
    decreases a.len(),
{
    if a.len() == 0 {
        true
    } else if b.len() == 0 {
        false
    } else if a[0] != b[0] {
        a[0] < b[0]
    } else {
        lex_le(a.skip(1), b.skip(1))
    }
}

/// Whether `text` begins with `prefix`.
pub open spec fn begins_with(text: Seq<u8>, prefix: Seq<u8>) -> bool {
    prefix.len() <= text.len() && text.take(prefix.len() as int) == prefix
}

/// A string comes before itself or is itself.
pub proof fn lemma_lex_refl(a: Seq<u8>)
    ensures
        lex_le(a, a),
    decreases a.len(),
{
    if a.len() > 0 {
        lemma_lex_refl(a.skip(1));
    }
}

/// Of two strings one comes before the other, or they are the same.
pub proof fn lemma_lex_total(a: Seq<u8>, b: Seq<u8>)
    ensures
        lex_le(a, b) || lex_le(b, a),
    decreases a.len(),
{
    if a.len() > 0 && b.len() > 0 && a[0] == b[0] {
        lemma_lex_total(a.skip(1), b.skip(1));
    }
}

/// Two strings of which each comes before the other are the same.
pub proof fn lemma_lex_antisym(a: Seq<u8>, b: Seq<u8>)
    requires
        lex_le(a, b),
        lex_le(b, a),
    ensures
        a == b,
    decreases a.len(),
{
    if a.len() == 0 {
        assert(a =~= b);
    } else {
        lemma_lex_antisym(a.skip(1), b.skip(1));
        assert(a =~= seq![a[0]] + a.skip(1));
        assert(b =~= seq![b[0]] + b.skip(1));
    }
}

/// What comes before a string comes before what the string comes before.
pub proof fn lemma_lex_trans(a: Seq<u8>, b: Seq<u8>, c: Seq<u8>)
    requires
        lex_le(a, b),
        lex_le(b, c),
    ensures
        lex_le(a, c),
    decreases a.len(),
{
    if a.len() > 0 {
        if a[0] == b[0] && b[0] == c[0] {
            lemma_lex_trans(a.skip(1), b.skip(1), c.skip(1));
        }
    }
}

/// A string comes before every string that it begins.
pub proof fn lemma_prefix_first(prefix: Seq<u8>, text: Seq<u8>)
    requires
        begins_with(text, prefix),
    ensures
        lex_le(prefix, text),
    decreases prefix.len(),
{
    if prefix.len() > 0 {
        assert(text.take(prefix.len() as int)[0] == text[0]);
        assert(text.skip(1).take(prefix.len() - 1) =~= text.take(prefix.len() as int).skip(1));
        lemma_prefix_first(prefix.skip(1), text.skip(1));
    }
}

/// A string that lies between a prefix and a string that the prefix
/// begins is begun by the prefix too.
pub proof fn lemma_prefix_between(prefix: Seq<u8>, middle: Seq<u8>, last: Seq<u8>)
    requires
        lex_le(prefix, middle),
        lex_le(middle, last),
        begins_with(last, prefix),
    ensures
        begins_with(middle, prefix),
    decreases prefix.len(),
{
    if prefix.len() == 0 {
        assert(middle.take(0) =~= prefix);
    } else {
        assert(last.take(prefix.len() as int)[0] == last[0]);
        assert(last.skip(1).take(prefix.len() - 1) =~= last.take(prefix.len() as int).skip(1));
        lemma_prefix_between(prefix.skip(1), middle.skip(1), last.skip(1));
        assert(middle.take(prefix.len() as int) =~= seq![middle[0]] + middle.skip(1).take(
            prefix.len() - 1,
        ));
        assert(prefix =~= seq![prefix[0]] + prefix.skip(1));
    }
}

/// How two strings stand to each other.
#[derive(Clone, Copy, Debug, PartialEq, Eq, Structural, Hash)]
pub enum Order {
    /// The first comes before the second.
    Before,
    /// They are the same.
    Same,
    /// The first comes after the second.
    After,
}

/// How two strings stand to each other.
pub open spec fn order_of(a: Seq<u8>, b: Seq<u8>) -> Order {
    if a == b {
        Order::Same
    } else if lex_le(a, b) {
        Order::Before
    } else {
        Order::After
    }
}

/// Strings that agree up to a position stand to each other as what
/// follows that position does.
proof fn lemma_lex_skip(a: Seq<u8>, b: Seq<u8>, n: int)
    requires
        0 <= n <= a.len(),
        n <= b.len(),
        a.take(n) == b.take(n),
    ensures
        lex_le(a, b) == lex_le(a.skip(n), b.skip(n)),
    decreases n,
{
    if n == 0 {
        assert(a.skip(0) =~= a);
        assert(b.skip(0) =~= b);
    } else {
        assert(a.take(n)[0] == a[0] && b.take(n)[0] == b[0]);
        assert(a.skip(1).take(n - 1) =~= a.take(n).skip(1));
        assert(b.skip(1).take(n - 1) =~= b.take(n).skip(1));
        lemma_lex_skip(a.skip(1), b.skip(1), n - 1);
        assert(a.skip(1).skip(n - 1) =~= a.skip(n));
        assert(b.skip(1).skip(n - 1) =~= b.skip(n));
    }
}

/// Tells how two strings stand to each other.
pub fn compare(a: &[u8], b: &[u8]) -> (order: Order)
    ensures
        order == order_of(a@, b@),
{
    let mut n: usize = 0;
    proof {
        assert(a@.take(0) =~= b@.take(0));
    }
    while n < a.len() && n < b.len()
        invariant
            n <= a.len(),
            n <= b.len(),
            a@.take(n as int) == b@.take(n as int),
        decreases a.len() - n,
    {
        if a[n] != b[n] {
            proof {
                lemma_lex_skip(a@, b@, n as int);
                assert(a@.skip(n as int)[0] == a@[n as int]);
                assert(b@.skip(n as int)[0] == b@[n as int]);
                assert(a@ != b@);
            }
            return if a[n] < b[n] {
                Order::Before
            } else {
                Order::After
            };
        }
        n = n + 1;
        assert(a@.take(n as int) =~= a@.take(n - 1).push(a@[n - 1]));
        assert(b@.take(n as int) =~= b@.take(n - 1).push(b@[n - 1]));
    }
    proof {
        lemma_lex_skip(a@, b@, n as int);
        if a.len() == b.len() {
            assert(a@.take(n as int) =~= a@);
            assert(b@.take(n as int) =~= b@);
        }
    }
    if a.len() == b.len() {
        Order::Same
    } else if a.len() < b.len() {
        Order::Before
    } else {
        Order::After
    }
}

/// Whether `text` begins with `prefix`.
pub fn starts_with(text: &[u8], prefix: &[u8]) -> (b: bool)
    ensures
        b == begins_with(text@, prefix@),
{
    if prefix.len() > text.len() {
        return false;
    }
    let mut n: usize = 0;
    while n < prefix.len()
        invariant
            n <= prefix.len() <= text.len(),
            forall|i: int| 0 <= i < n ==> text@[i] == prefix@[i],
        decreases prefix.len() - n,
    {
        if text[n] != prefix[n] {
            assert(text@.take(prefix.len() as int)[n as int] != prefix@[n as int]);
            return false;
        }
        n = n + 1;
    }
    assert(text@.take(prefix.len() as int) =~= prefix@);
    true
}

} // verus!

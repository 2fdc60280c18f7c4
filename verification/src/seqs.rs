//! Facts about cutting and joining byte sequences.

use vstd::prelude::*;

verus! {

/// Joining three sequences does not depend on which two are joined first.
pub proof fn lemma_concat_assoc(a: Seq<u8>, b: Seq<u8>, c: Seq<u8>)
    ensures
        (a + b) + c == a + (b + c),
{
    assert((a + b) + c =~= a + (b + c));
}

/// What follows the first part of two joined sequences is the second part,
/// and what precedes it is the first.
pub proof fn lemma_skip_concat(a: Seq<u8>, b: Seq<u8>)
    ensures
        (a + b).skip(a.len() as int) == b,
        (a + b).subrange(0, a.len() as int) == a,
{
    assert((a + b).skip(a.len() as int) =~= b);
    assert((a + b).subrange(0, a.len() as int) =~= a);
}

/// Skipping twice is skipping once by the sum.
pub proof fn lemma_skip_skip(s: Seq<u8>, a: int, b: int)
    requires
        0 <= a,
        0 <= b,
        a + b <= s.len(),
    ensures
        s.skip(a).skip(b) == s.skip(a + b),
        s.skip(a).len() == s.len() - a,
        s.skip(0) == s,
{
    assert(s.skip(a).skip(b) =~= s.skip(a + b));
    assert(s.skip(0) =~= s);
}

/// The first `k` bytes without the first `a` of them are the first `k - a`
/// of what follows the first `a`.
pub proof fn lemma_prefix_skip(s: Seq<u8>, k: int, a: int)
    requires
        0 <= a <= k <= s.len(),
    ensures
        s.subrange(0, k).skip(a) == s.skip(a).subrange(0, k - a),
        s.subrange(0, k).len() == k,
{
    assert(s.subrange(0, k).skip(a) =~= s.skip(a).subrange(0, k - a));
}

/// A sequence is its first `a` bytes joined with the rest, and the first
/// `a + b` bytes are the first `a` joined with the first `b` of the rest.
pub proof fn lemma_split(s: Seq<u8>, a: int, b: int)
    requires
        0 <= a,
        0 <= b,
        a + b <= s.len(),
    ensures
        s.subrange(0, a + b) == s.subrange(0, a) + s.skip(a).subrange(0, b),
        s.subrange(0, 0) == Seq::<u8>::empty(),
        s + Seq::<u8>::empty() == s,
        Seq::<u8>::empty() + s == s,
{
    assert(s.subrange(0, a + b) =~= s.subrange(0, a) + s.skip(a).subrange(0, b));
    assert(s.subrange(0, 0) =~= Seq::<u8>::empty());
    assert(s + Seq::<u8>::empty() =~= s);
    assert(Seq::<u8>::empty() + s =~= s);
}

} // verus!

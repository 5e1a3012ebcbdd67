//! Byte-sequence scanning primitives shared by the codec and the path rules:
//! splitting on a delimiter byte and byte-vector equality, each with a
//! functional specification.

use vstd::prelude::*;

verus! {

/// The element-wise view of a vector of byte vectors.
pub open spec fn views_of(v: Seq<Vec<u8>>) -> Seq<Seq<u8>> {
    v.map_values(|x: Vec<u8>| x@)
}

/// Prepend `pre` to the first piece of a non-empty piece list.
pub open spec fn prepend_first(pre: Seq<u8>, pieces: Seq<Seq<u8>>) -> Seq<Seq<u8>> {
    seq![pre + pieces[0]] + pieces.skip(1)
}

/// The pieces of `s` between occurrences of the delimiter `d`, in order.
/// An empty input has one empty piece; a delimiter at either end or two in a
/// row contribute empty pieces, exactly as `str::split` does.
pub open spec fn split_on(s: Seq<u8>, d: u8) -> Seq<Seq<u8>>
    decreases s.len(),
{
    if s.len() == 0 {
        seq![Seq::<u8>::empty()]
    } else if s[0] == d {
        seq![Seq::<u8>::empty()] + split_on(s.skip(1), d)
    } else {
        prepend_first(seq![s[0]], split_on(s.skip(1), d))
    }
}

pub proof fn lemma_split_on_len(s: Seq<u8>, d: u8)
    ensures
        split_on(s, d).len() >= 1,
    decreases s.len(),
{
    if s.len() == 0 {
    } else {
        lemma_split_on_len(s.skip(1), d);
    }
}

/// Split `s` on the delimiter byte `d`.
pub fn split_bytes(s: &Vec<u8>, d: u8) -> (r: Vec<Vec<u8>>)
    ensures
        views_of(r@) == split_on(s@, d),
{
    let mut r: Vec<Vec<u8>> = Vec::new();
    let mut cur: Vec<u8> = Vec::new();
    let mut i: usize = 0;
    proof {
        lemma_split_on_len(s@, d);
        assert(s@.skip(0) =~= s@);
        assert(prepend_first(cur@, split_on(s@, d)) =~= split_on(s@, d));
        assert(views_of(r@) + split_on(s@, d) =~= split_on(s@, d));
    }
    while i < s.len()
        invariant
            i <= s@.len(),
            split_on(s@, d) == views_of(r@) + prepend_first(cur@, split_on(s@.skip(i as int), d)),
        decreases s@.len() - i,
    {
        let ghost rest = s@.skip(i as int);
        proof {
            assert(rest[0] == s@[i as int]);
            assert(rest.skip(1) =~= s@.skip(i + 1));
            lemma_split_on_len(s@.skip(i + 1), d);
        }
        if s[i] == d {
            proof {
                let p = split_on(s@.skip(i + 1), d);
                assert(split_on(rest, d) == seq![Seq::<u8>::empty()] + p);
                assert(prepend_first(cur@, seq![Seq::<u8>::empty()] + p) =~= seq![cur@] + p);
                assert(prepend_first(Seq::<u8>::empty(), p) =~= p);
                assert(views_of(r@.push(cur)) =~= views_of(r@).push(cur@));
                assert(views_of(r@).push(cur@) + p =~= views_of(r@) + (seq![cur@] + p));
            }
            r.push(cur);
            cur = Vec::new();
        } else {
            let b = s[i];
            proof {
                let p = split_on(s@.skip(i + 1), d);
                assert(split_on(rest, d) == prepend_first(seq![b], p));
                assert(prepend_first(cur@, prepend_first(seq![b], p)) =~= prepend_first(
                    cur@ + seq![b],
                    p,
                )) by {
                    assert((cur@ + (seq![b] + p[0])) =~= ((cur@ + seq![b]) + p[0]));
                    assert((prepend_first(seq![b], p)).skip(1) =~= p.skip(1));
                };
                assert(cur@.push(b) =~= cur@ + seq![b]);
            }
            cur.push(b);
        }
        i = i + 1;
    }
    proof {
        assert(s@.skip(i as int) =~= Seq::<u8>::empty());
        assert(split_on(Seq::<u8>::empty(), d) == seq![Seq::<u8>::empty()]);
        assert(prepend_first(cur@, seq![Seq::<u8>::empty()]) =~= seq![cur@]);
        assert(views_of(r@.push(cur)) =~= views_of(r@).push(cur@));
        assert(views_of(r@) + seq![cur@] =~= views_of(r@).push(cur@));
    }
    r.push(cur);
    r
}

/// Whether two byte vectors hold the same bytes.
pub fn bytes_eq(a: &Vec<u8>, b: &Vec<u8>) -> (r: bool)
    ensures
        r == (a@ == b@),
{
    if a.len() != b.len() {
        assert(a@ != b@) by {
            assert(a@.len() != b@.len());
        };
        return false;
    }
    let mut i: usize = 0;
    while i < a.len()
        invariant
            i <= a@.len(),
            a@.len() == b@.len(),
            forall|j: int| 0 <= j < i ==> a@[j] == b@[j],
        decreases a@.len() - i,
    {
        if a[i] != b[i] {
            return false;
        }
        i = i + 1;
    }
    proof {
        assert(a@ =~= b@);
    }
    true
}

} // verus!

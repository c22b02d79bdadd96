//! Small verified helpers on byte strings: equality, copying a subrange,
//! appending, splitting on `/`, and joining segments with `/`.

use vstd::prelude::*;

verus! {

/// Byte value of `/`, the segment separator in URLs.
pub const SLASH: u8 = 47;

/// Exact byte-for-byte equality of two byte strings.
pub fn bytes_eq(a: &[u8], b: &[u8]) -> (r: bool)
    ensures
        r == (a@ == b@),
{
    if a.len() != b.len() {
        return false;
    }
    let mut i: usize = 0;
    while i < a.len()
        invariant
            a@.len() == b@.len(),
            i <= a@.len(),
            forall|j: int| 0 <= j < i ==> a@[j] == b@[j],
        decreases a@.len() - i,
    {
        if a[i] != b[i] {
            return false;
        }
        i = i + 1;
    }
    proof {
        assert(a@ =~= b@);
    }
    true
}

/// Copy of the bytes of `s` from `from` (inclusive) to `to` (exclusive).
pub fn subrange_vec(s: &[u8], from: usize, to: usize) -> (r: Vec<u8>)
    requires
        from <= to <= s@.len(),
    ensures
        r@ == s@.subrange(from as int, to as int),
{
    let mut r: Vec<u8> = Vec::new();
    let mut i: usize = from;
    while i < to
        invariant
            from <= i <= to <= s@.len(),
            r@ == s@.subrange(from as int, i as int),
        decreases to - i,
    {
        r.push(s[i]);
        proof {
            assert(r@ =~= s@.subrange(from as int, i + 1 as int));
        }
        i = i + 1;
    }
    r
}

/// Append every byte of `src` to `dest`.
pub fn append_bytes(dest: &mut Vec<u8>, src: &[u8])
    ensures
        final(dest)@ == old(dest)@ + src@,
{
    let ghost dest0 = dest@;
    let mut i: usize = 0;
    while i < src.len()
        invariant
            i <= src@.len(),
            dest@ == dest0 + src@.subrange(0, i as int),
        decreases src@.len() - i,
    {
        dest.push(src[i]);
        proof {
            assert(dest@ =~= dest0 + src@.subrange(0, i + 1 as int));
        }
        i = i + 1;
    }
    proof {
        assert(dest0 + src@.subrange(0, src@.len() as int) =~= dest0 + src@);
    }
}

/// Index of the first `/` in `s`, counted from the front, or `s.len()` if
/// there is none.
pub open spec fn first_slash(s: Seq<u8>) -> nat
    decreases s.len(),
{
    if s.len() == 0 {
        0
    } else if s[0] == SLASH {
        0
    } else {
        1 + first_slash(s.skip(1))
    }
}

pub proof fn lemma_first_slash(s: Seq<u8>)
    ensures
        first_slash(s) <= s.len(),
        first_slash(s) < s.len() ==> s[first_slash(s) as int] == SLASH,
        forall|j: int| 0 <= j < first_slash(s) ==> s[j] != SLASH,
    decreases s.len(),
{
    if s.len() == 0 {
    } else if s[0] == SLASH {
    } else {
        lemma_first_slash(s.skip(1));
        assert forall|j: int| 0 <= j < first_slash(s) implies s[j] != SLASH by {
            if j > 0 {
                assert(s.skip(1)[j - 1] == s[j]);
            }
        }
    }
}

/// The segments of `s` separated by `/`, with terminator semantics: a
/// trailing `/` closes the last segment and adds no empty one, and the empty
/// string has no segments.
pub open spec fn spec_split(s: Seq<u8>) -> Seq<Seq<u8>>
    decreases s.len(),
{
    if s.len() == 0 {
        Seq::empty()
    } else if first_slash(s) >= s.len() {
        seq![s]
    } else {
        seq![s.take(first_slash(s) as int)] + spec_split(s.skip(first_slash(s) as int + 1))
    }
}

/// Smallest index `r >= from` with `s[r] == SLASH`, or `s.len()`.
fn find_slash(s: &[u8], from: usize) -> (r: usize)
    requires
        from <= s@.len(),
    ensures
        r == from + first_slash(s@.skip(from as int)),
        from <= r <= s@.len(),
    decreases s@.len() - from,
{
    if from == s.len() {
        from
    } else if s[from] == SLASH {
        assert(s@.skip(from as int)[0] == s@[from as int]);
        from
    } else {
        assert(s@.skip(from as int)[0] == s@[from as int]);
        let r = find_slash(s, from + 1);
        proof {
            assert(s@.skip(from as int).skip(1) =~= s@.skip(from as int + 1));
        }
        r
    }
}

/// The views of the elements of a vector of byte vectors.
pub open spec fn views_of(v: Seq<Vec<u8>>) -> Seq<Seq<u8>> {
    v.map_values(|x: Vec<u8>| x@)
}

/// Split `s` (from index `from` on) into its `/`-separated segments.
pub fn split_segments(s: &[u8], from: usize) -> (r: Vec<Vec<u8>>)
    requires
        from <= s@.len(),
    ensures
        views_of(r@) == spec_split(s@.skip(from as int)),
    decreases s@.len() - from,
{
    if from == s.len() {
        let r: Vec<Vec<u8>> = Vec::new();
        proof {
            assert(views_of(r@) =~= spec_split(s@.skip(from as int)));
        }
        r
    } else {
        let j = find_slash(s, from);
        proof {
            lemma_first_slash(s@.skip(from as int));
        }
        if j == s.len() {
            let piece = subrange_vec(s, from, s.len());
            let mut r: Vec<Vec<u8>> = Vec::new();
            r.push(piece);
            proof {
                assert(s@.subrange(from as int, s@.len() as int) =~= s@.skip(from as int));
                assert(views_of(r@) =~= seq![s@.skip(from as int)]);
            }
            r
        } else {
            let piece = subrange_vec(s, from, j);
            let mut r = split_segments(s, j + 1);
            r.insert(0, piece);
            proof {
                let sk = s@.skip(from as int);
                assert(sk.take(first_slash(sk) as int) =~= s@.subrange(from as int, j as int));
                assert(sk.skip(first_slash(sk) as int + 1) =~= s@.skip(j + 1 as int));
                assert(views_of(r@) =~= seq![sk.take(first_slash(sk) as int)] + spec_split(
                    sk.skip(first_slash(sk) as int + 1),
                ));
            }
            r
        }
    }
}

/// The segments joined with a single `/` between each neighbouring pair.
pub open spec fn spec_join(parts: Seq<Seq<u8>>) -> Seq<u8>
    decreases parts.len(),
{
    if parts.len() == 0 {
        Seq::empty()
    } else if parts.len() == 1 {
        parts[0]
    } else {
        spec_join(parts.drop_last()) + seq![SLASH] + parts.last()
    }
}

/// Join segments with `/` between each neighbouring pair.
pub fn join_segments(parts: &Vec<Vec<u8>>) -> (r: Vec<u8>)
    ensures
        r@ == spec_join(views_of(parts@)),
{
    let mut r: Vec<u8> = Vec::new();
    if parts.len() == 0 {
        proof {
            assert(views_of(parts@) =~= Seq::<Seq<u8>>::empty());
        }
        return r;
    }
    append_bytes(&mut r, parts[0].as_slice());
    let mut i: usize = 1;
    while i < parts.len()
        invariant
            1 <= i <= parts@.len(),
            r@ == spec_join(views_of(parts@).take(i as int)),
        decreases parts@.len() - i,
    {
        r.push(SLASH);
        append_bytes(&mut r, parts[i].as_slice());
        proof {
            let m = views_of(parts@);
            assert(m.take(i + 1 as int).drop_last() =~= m.take(i as int));
            assert(m.take(i + 1 as int).last() == m[i as int]);
            assert(r@ =~= spec_join(m.take(i as int)) + seq![SLASH] + m[i as int]);
        }
        i = i + 1;
    }
    proof {
        assert(views_of(parts@).take(parts@.len() as int) =~= views_of(parts@));
    }
    r
}

} // verus!

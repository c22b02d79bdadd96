//! Per-chapter collection: fetch outcomes arrive in completion order, the
//! failures are dropped, and the surviving images are put back into document
//! order by their ordinal index. The final ordering is always ordinal order,
//! however the concurrent fetches happened to complete.

use vstd::prelude::*;

use crate::images::DecodedImage;

verus! {

/// The outcome of fetching one image, handed back in completion order.
pub enum ImageFetchOutcome {
    /// The image was fetched and decoded.
    Fetched(DecodedImage),
    /// A terminal non-success status was returned for this image.
    StatusError(u16),
    /// The transport failed while the response body was read; terminal for
    /// this image.
    TransportError,
    /// The body was fetched but is not a decodable image.
    DecodeError,
}

/// The images of the successful outcomes, in the order the outcomes stand.
pub open spec fn spec_successes(s: Seq<ImageFetchOutcome>) -> Seq<DecodedImage>
    decreases s.len(),
{
    if s.len() == 0 {
        Seq::empty()
    } else {
        let rest = spec_successes(s.skip(1));
        match s[0] {
            ImageFetchOutcome::Fetched(img) => seq![img] + rest,
            _ => rest,
        }
    }
}

/// Keep the images of the successful outcomes, dropping per-image failures,
/// in the order the outcomes arrived.
pub fn collect_successes(outcomes: Vec<ImageFetchOutcome>) -> (r: Vec<DecodedImage>)
    ensures
        r@ == spec_successes(outcomes@),
{
    let ghost orig = outcomes@;
    let mut rest = outcomes;
    let mut r: Vec<DecodedImage> = Vec::new();
    proof {
        assert(r@ + spec_successes(rest@) =~= spec_successes(orig));
    }
    while rest.len() > 0
        invariant
            r@ + spec_successes(rest@) == spec_successes(orig),
        decreases rest@.len(),
    {
        let ghost rest0 = rest@;
        let ghost r0 = r@;
        let first = rest.remove(0);
        proof {
            assert(rest@ =~= rest0.skip(1));
        }
        match first {
            ImageFetchOutcome::Fetched(img) => {
                r.push(img);
                proof {
                    assert(r@ + spec_successes(rest@) =~= r0 + (seq![img] + spec_successes(
                        rest0.skip(1),
                    )));
                }
            },
            _ => {},
        }
    }
    proof {
        assert(spec_successes(rest@) =~= Seq::<DecodedImage>::empty());
        assert(r@ + Seq::<DecodedImage>::empty() =~= r@);
    }
    r
}

/// The images stand in ordinal order.
pub open spec fn sorted_by_ordinal(s: Seq<DecodedImage>) -> bool {
    forall|i: int, j: int|
        0 <= i < j < s.len() ==> s[i].ordinal_index <= s[j].ordinal_index
}

/// No two images carry the same ordinal index.
pub open spec fn distinct_ordinals(s: Seq<DecodedImage>) -> bool {
    forall|i: int, j: int|
        0 <= i < j < s.len() ==> s[i].ordinal_index != s[j].ordinal_index
}

/// `img`'s ordinal index occurs nowhere in `s`.
pub open spec fn ordinal_fresh(s: Seq<DecodedImage>, img: DecodedImage) -> bool {
    forall|k: int| 0 <= k < s.len() ==> s[k].ordinal_index != img.ordinal_index
}

/// `s` with `img` inserted before the first element of ordinal index at
/// least `img`'s.
pub open spec fn insert_sorted(s: Seq<DecodedImage>, img: DecodedImage) -> Seq<DecodedImage>
    decreases s.len(),
{
    if s.len() == 0 {
        seq![img]
    } else if img.ordinal_index <= s[0].ordinal_index {
        seq![img] + s
    } else {
        seq![s[0]] + insert_sorted(s.skip(1), img)
    }
}

/// `s` rearranged into ordinal order by repeated insertion.
pub open spec fn spec_sort(s: Seq<DecodedImage>) -> Seq<DecodedImage>
    decreases s.len(),
{
    if s.len() == 0 {
        Seq::empty()
    } else {
        insert_sorted(spec_sort(s.drop_last()), s.last())
    }
}

/// Every element of the insertion result is `img` or one of `s`.
proof fn lemma_insert_sorted_elems(s: Seq<DecodedImage>, img: DecodedImage)
    ensures
        insert_sorted(s, img).len() == s.len() + 1,
        forall|j: int|
            0 <= j < insert_sorted(s, img).len() ==> (insert_sorted(s, img)[j] == img
                || s.contains(#[trigger] insert_sorted(s, img)[j])),
    decreases s.len(),
{
    if s.len() == 0 {
    } else if img.ordinal_index <= s[0].ordinal_index {
        assert forall|j: int| 0 <= j < insert_sorted(s, img).len() implies (insert_sorted(s, img)[j]
            == img || s.contains(insert_sorted(s, img)[j])) by {
            if j > 0 {
                assert(insert_sorted(s, img)[j] == s[j - 1]);
            }
        }
    } else {
        lemma_insert_sorted_elems(s.skip(1), img);
        assert forall|j: int| 0 <= j < insert_sorted(s, img).len() implies (insert_sorted(s, img)[j]
            == img || s.contains(insert_sorted(s, img)[j])) by {
            if j == 0 {
                assert(s.contains(s[0]));
            } else {
                let t = insert_sorted(s.skip(1), img)[j - 1];
                assert(insert_sorted(s, img)[j] == t);
                if t != img {
                    let k = choose|k: int| 0 <= k < s.skip(1).len() && s.skip(1)[k] == t;
                    assert(s[k + 1] == t);
                }
            }
        }
    }
}

/// Insertion keeps the multiset of images, adding `img` once.
proof fn lemma_insert_sorted_multiset(s: Seq<DecodedImage>, img: DecodedImage)
    ensures
        insert_sorted(s, img).to_multiset() == s.to_multiset().insert(img),
    decreases s.len(),
{
    broadcast use vstd::seq_lib::group_to_multiset_ensures;
    broadcast use vstd::multiset::group_multiset_axioms;

    if s.len() == 0 {
        assert(seq![img] =~= Seq::<DecodedImage>::empty().push(img));
        assert(s =~= Seq::<DecodedImage>::empty());
    } else if img.ordinal_index <= s[0].ordinal_index {
        vstd::seq_lib::lemma_multiset_commutative(seq![img], s);
        assert(seq![img] =~= Seq::<DecodedImage>::empty().push(img));
        assert(seq![img].to_multiset().add(s.to_multiset()) =~= s.to_multiset().insert(img));
    } else {
        lemma_insert_sorted_multiset(s.skip(1), img);
        vstd::seq_lib::lemma_multiset_commutative(seq![s[0]], insert_sorted(s.skip(1), img));
        vstd::seq_lib::lemma_multiset_commutative(seq![s[0]], s.skip(1));
        assert(seq![s[0]] + s.skip(1) =~= s);
        assert(seq![s[0]] =~= Seq::<DecodedImage>::empty().push(s[0]));
        assert(seq![s[0]].to_multiset().add(s.skip(1).to_multiset().insert(img))
            =~= s.to_multiset().insert(img));
    }
}

/// Insertion into an ordinal-ordered sequence keeps it ordered.
proof fn lemma_insert_sorted_sorted(s: Seq<DecodedImage>, img: DecodedImage)
    requires
        sorted_by_ordinal(s),
    ensures
        sorted_by_ordinal(insert_sorted(s, img)),
    decreases s.len(),
{
    if s.len() == 0 {
    } else if img.ordinal_index <= s[0].ordinal_index {
        let r = insert_sorted(s, img);
        assert forall|i: int, j: int| 0 <= i < j < r.len() implies r[i].ordinal_index
            <= r[j].ordinal_index by {
            if i > 0 {
                assert(r[i] == s[i - 1] && r[j] == s[j - 1]);
            } else {
                assert(r[j] == s[j - 1]);
                if j > 1 {
                    assert(s[0].ordinal_index <= s[j - 1].ordinal_index);
                }
            }
        }
    } else {
        assert(sorted_by_ordinal(s.skip(1)));
        lemma_insert_sorted_sorted(s.skip(1), img);
        lemma_insert_sorted_elems(s.skip(1), img);
        let r = insert_sorted(s, img);
        let rr = insert_sorted(s.skip(1), img);
        assert forall|i: int, j: int| 0 <= i < j < r.len() implies r[i].ordinal_index
            <= r[j].ordinal_index by {
            if i == 0 {
                assert(r[j] == rr[j - 1]);
                if rr[j - 1] == img {
                } else {
                    let k = choose|k: int| 0 <= k < s.skip(1).len() && s.skip(1)[k] == rr[j - 1];
                    assert(s[k + 1] == rr[j - 1]);
                    assert(s[0].ordinal_index <= s[k + 1].ordinal_index);
                }
            } else {
                assert(r[i] == rr[i - 1] && r[j] == rr[j - 1]);
            }
        }
    }
}

/// Insertion of a fresh ordinal index keeps the indices distinct.
proof fn lemma_insert_sorted_distinct(s: Seq<DecodedImage>, img: DecodedImage)
    requires
        distinct_ordinals(s),
        ordinal_fresh(s, img),
    ensures
        distinct_ordinals(insert_sorted(s, img)),
    decreases s.len(),
{
    if s.len() == 0 {
    } else if img.ordinal_index <= s[0].ordinal_index {
        let r = insert_sorted(s, img);
        assert forall|i: int, j: int| 0 <= i < j < r.len() implies r[i].ordinal_index
            != r[j].ordinal_index by {
            if i == 0 {
                assert(r[j] == s[j - 1]);
            } else {
                assert(r[i] == s[i - 1] && r[j] == s[j - 1]);
            }
        }
    } else {
        assert(distinct_ordinals(s.skip(1)));
        assert(ordinal_fresh(s.skip(1), img));
        lemma_insert_sorted_distinct(s.skip(1), img);
        lemma_insert_sorted_elems(s.skip(1), img);
        let r = insert_sorted(s, img);
        let rr = insert_sorted(s.skip(1), img);
        assert forall|i: int, j: int| 0 <= i < j < r.len() implies r[i].ordinal_index
            != r[j].ordinal_index by {
            if i == 0 {
                assert(r[j] == rr[j - 1]);
                if rr[j - 1] == img {
                } else {
                    let k = choose|k: int| 0 <= k < s.skip(1).len() && s.skip(1)[k] == rr[j - 1];
                    assert(s[k + 1] == rr[j - 1]);
                    assert(s[0].ordinal_index != s[k + 1].ordinal_index);
                }
            } else {
                assert(r[i] == rr[i - 1] && r[j] == rr[j - 1]);
            }
        }
    }
}

/// Sorting keeps the multiset of images.
pub proof fn lemma_spec_sort_multiset(s: Seq<DecodedImage>)
    ensures
        spec_sort(s).to_multiset() == s.to_multiset(),
        spec_sort(s).len() == s.len(),
    decreases s.len(),
{
    broadcast use vstd::seq_lib::group_to_multiset_ensures;
    broadcast use vstd::multiset::group_multiset_axioms;

    if s.len() == 0 {
    } else {
        lemma_spec_sort_multiset(s.drop_last());
        lemma_insert_sorted_multiset(spec_sort(s.drop_last()), s.last());
        lemma_insert_sorted_elems(spec_sort(s.drop_last()), s.last());
        assert(s =~= s.drop_last().push(s.last()));
    }
}

/// The sorted sequence is in ordinal order.
pub proof fn lemma_spec_sort_sorted(s: Seq<DecodedImage>)
    ensures
        sorted_by_ordinal(spec_sort(s)),
    decreases s.len(),
{
    if s.len() == 0 {
    } else {
        lemma_spec_sort_sorted(s.drop_last());
        lemma_insert_sorted_sorted(spec_sort(s.drop_last()), s.last());
    }
}

/// Sorting a sequence of distinct ordinal indices keeps them distinct.
pub proof fn lemma_spec_sort_distinct(s: Seq<DecodedImage>)
    requires
        distinct_ordinals(s),
    ensures
        distinct_ordinals(spec_sort(s)),
    decreases s.len(),
{
    broadcast use vstd::seq_lib::group_to_multiset_ensures;
    broadcast use vstd::multiset::group_multiset_axioms;

    if s.len() == 0 {
    } else {
        let dl = s.drop_last();
        assert(distinct_ordinals(dl));
        lemma_spec_sort_distinct(dl);
        lemma_spec_sort_multiset(dl);
        assert forall|k: int| 0 <= k < spec_sort(dl).len() implies spec_sort(dl)[k].ordinal_index
            != s.last().ordinal_index by {
            assert(spec_sort(dl).contains(spec_sort(dl)[k]));
            assert(spec_sort(dl).to_multiset().count(spec_sort(dl)[k]) > 0);
            assert(dl.contains(spec_sort(dl)[k]));
            let m = choose|m: int| 0 <= m < dl.len() && dl[m] == spec_sort(dl)[k];
            assert(s[m].ordinal_index != s[s.len() - 1].ordinal_index);
        }
        lemma_insert_sorted_distinct(spec_sort(dl), s.last());
    }
}

/// Two ordinal-ordered sequences of distinct ordinal indices holding the
/// same images are identical.
pub proof fn lemma_sorted_distinct_unique(x: Seq<DecodedImage>, y: Seq<DecodedImage>)
    requires
        sorted_by_ordinal(x),
        sorted_by_ordinal(y),
        distinct_ordinals(x),
        distinct_ordinals(y),
        x.to_multiset() == y.to_multiset(),
    ensures
        x == y,
    decreases x.len(),
{
    broadcast use vstd::seq_lib::group_to_multiset_ensures;
    broadcast use vstd::multiset::group_multiset_axioms;

    if x.len() == 0 {
        assert(x.to_multiset().len() == x.len());
        assert(y.to_multiset().len() == y.len());
        assert(y.len() == 0);
        assert(x =~= y);
    } else {
        assert(x.to_multiset().len() == x.len());
        assert(y.to_multiset().len() == y.len());
        assert(y.len() == x.len());
        assert(x.contains(x[0]));
        assert(y.to_multiset().count(x[0]) > 0);
        assert(y.contains(x[0]));
        let j = choose|j: int| 0 <= j < y.len() && y[j] == x[0];
        assert(x.contains(y[0])) by {
            assert(y.contains(y[0]));
            assert(x.to_multiset().count(y[0]) > 0);
        }
        let i = choose|i: int| 0 <= i < x.len() && x[i] == y[0];
        assert(y[0].ordinal_index <= y[j].ordinal_index);
        assert(x[0].ordinal_index <= x[i].ordinal_index);
        assert(x[0].ordinal_index == y[0].ordinal_index);
        assert(j == 0);
        assert(x[0] == y[0]);
        assert(x.drop_first().to_multiset() =~= x.to_multiset().remove(x[0])) by {
            assert(x.remove(0) =~= x.drop_first());
        }
        assert(y.drop_first().to_multiset() =~= y.to_multiset().remove(y[0])) by {
            assert(y.remove(0) =~= y.drop_first());
        }
        assert(sorted_by_ordinal(x.drop_first()) && distinct_ordinals(x.drop_first()));
        assert(sorted_by_ordinal(y.drop_first()) && distinct_ordinals(y.drop_first()));
        lemma_sorted_distinct_unique(x.drop_first(), y.drop_first());
        assert(x =~= seq![x[0]] + x.drop_first());
        assert(y =~= seq![y[0]] + y.drop_first());
    }
}

/// Positional form of `insert_sorted`: inserting at the first position whose
/// ordinal index is at least `img`'s.
proof fn lemma_insert_sorted_at(s: Seq<DecodedImage>, img: DecodedImage, pos: int)
    requires
        0 <= pos <= s.len(),
        forall|k: int| 0 <= k < pos ==> s[k].ordinal_index < img.ordinal_index,
        pos < s.len() ==> img.ordinal_index <= s[pos].ordinal_index,
    ensures
        insert_sorted(s, img) == s.take(pos) + seq![img] + s.skip(pos),
    decreases pos,
{
    if pos == 0 {
        if s.len() == 0 {
            assert(insert_sorted(s, img) =~= s.take(0) + seq![img] + s.skip(0));
        } else {
            assert(insert_sorted(s, img) =~= s.take(0) + seq![img] + s.skip(0));
        }
    } else {
        lemma_insert_sorted_at(s.skip(1), img, pos - 1);
        assert(insert_sorted(s, img) =~= seq![s[0]] + (s.skip(1).take(pos - 1) + seq![img]
            + s.skip(1).skip(pos - 1)));
        assert(seq![s[0]] + (s.skip(1).take(pos - 1) + seq![img] + s.skip(1).skip(pos - 1))
            =~= s.take(pos) + seq![img] + s.skip(pos));
    }
}

/// Insert one image before the first of ordinal index at least its own.
fn insert_in_order(images: Vec<DecodedImage>, img: DecodedImage) -> (r: Vec<DecodedImage>)
    ensures
        r@ == insert_sorted(images@, img),
{
    let mut v = images;
    let mut pos: usize = 0;
    while pos < v.len() && v[pos].ordinal_index < img.ordinal_index
        invariant
            pos <= v@.len(),
            forall|k: int| 0 <= k < pos ==> v@[k].ordinal_index < img.ordinal_index,
        decreases v@.len() - pos,
    {
        pos = pos + 1;
    }
    proof {
        lemma_insert_sorted_at(v@, img, pos as int);
    }
    let ghost v0 = v@;
    v.insert(pos, img);
    proof {
        assert(v@ =~= v0.take(pos as int) + seq![img] + v0.skip(pos as int));
    }
    v
}

/// Put the surviving images into ordinal order.
pub fn sort_by_ordinal(images: Vec<DecodedImage>) -> (r: Vec<DecodedImage>)
    ensures
        r@ == spec_sort(images@),
{
    let ghost orig = images@;
    let mut rest = images;
    let mut r: Vec<DecodedImage> = Vec::new();
    let ghost mut i: int = 0;
    while rest.len() > 0
        invariant
            0 <= i <= orig.len(),
            rest@ == orig.skip(i),
            r@ == spec_sort(orig.take(i)),
        decreases rest@.len(),
    {
        let ghost rest0 = rest@;
        let img = rest.remove(0);
        proof {
            assert(rest@ =~= orig.skip(i + 1));
            assert(orig.take(i + 1).drop_last() =~= orig.take(i));
            assert(orig.take(i + 1).last() == img);
        }
        r = insert_in_order(r, img);
        proof {
            i = i + 1;
        }
    }
    proof {
        assert(i == orig.len());
        assert(orig.take(orig.len() as int) =~= orig);
    }
    r
}

/// One downloaded chapter: its number and its images, in ordinal order.
pub struct ChapterResult {
    pub chapter_number: usize,
    pub images: Vec<DecodedImage>,
}

/// Build one chapter's result from its fetch outcomes, however ordered by
/// completion: failures are dropped without aborting their siblings, and the
/// surviving images are sorted by ordinal index. A chapter whose images all
/// failed is still a result, with no images.
pub fn assemble_chapter(chapter_number: usize, outcomes: Vec<ImageFetchOutcome>) -> (r:
    ChapterResult)
    ensures
        r.chapter_number == chapter_number,
        r.images@ == spec_sort(spec_successes(outcomes@)),
        sorted_by_ordinal(r.images@),
        r.images@.to_multiset() == spec_successes(outcomes@).to_multiset(),
        r.images@.len() == spec_successes(outcomes@).len(),
        forall|img: DecodedImage|
            r.images@.contains(img) <==> spec_successes(outcomes@).contains(img),
        distinct_ordinals(spec_successes(outcomes@)) ==> distinct_ordinals(r.images@),
{
    proof {
        if distinct_ordinals(spec_successes(outcomes@)) {
            lemma_spec_sort_distinct(spec_successes(outcomes@));
        }
    }
    let ghost o = outcomes@;
    let successes = collect_successes(outcomes);
    let images = sort_by_ordinal(successes);
    proof {
        broadcast use vstd::seq_lib::group_to_multiset_ensures;

        lemma_spec_sort_multiset(spec_successes(o));
        lemma_spec_sort_sorted(spec_successes(o));
        assert forall|img: DecodedImage|
            images@.contains(img) <==> spec_successes(o).contains(img) by {
            assert(images@.contains(img) <==> images@.to_multiset().count(img) > 0);
            assert(spec_successes(o).contains(img) <==> spec_successes(o).to_multiset().count(img)
                > 0);
        }
    }
    ChapterResult { chapter_number, images }
}

/// Order preservation: two outcome sequences holding the same completions,
/// in whatever orders, assemble to the same ordered image sequence, provided
/// the ordinal indices are distinct.
pub proof fn lemma_assembly_order_independent(
    o1: Seq<ImageFetchOutcome>,
    o2: Seq<ImageFetchOutcome>,
)
    requires
        spec_successes(o1).to_multiset() == spec_successes(o2).to_multiset(),
        distinct_ordinals(spec_successes(o1)),
        distinct_ordinals(spec_successes(o2)),
    ensures
        spec_sort(spec_successes(o1)) == spec_sort(spec_successes(o2)),
{
    lemma_spec_sort_multiset(spec_successes(o1));
    lemma_spec_sort_multiset(spec_successes(o2));
    lemma_spec_sort_sorted(spec_successes(o1));
    lemma_spec_sort_sorted(spec_successes(o2));
    lemma_spec_sort_distinct(spec_successes(o1));
    lemma_spec_sort_distinct(spec_successes(o2));
    lemma_sorted_distinct_unique(spec_sort(spec_successes(o1)), spec_sort(spec_successes(o2)));
}

} // verus!

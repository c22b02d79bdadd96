//! The orchestrator's verified part: once every chapter task has completed,
//! the tasks that failed or were dropped are excluded and the successful
//! chapter results are collected into the run's result. One chapter's
//! failure never affects another's.

use vstd::prelude::*;

use crate::chapter::ChapterResult;

verus! {

/// The whole run's result: the chapters that survived, in request order.
pub struct RunResult {
    pub chapters: Vec<ChapterResult>,
}

/// The chapter results among `outcomes` that are present, in order; a `None`
/// stands for a chapter task that failed or was dropped.
pub open spec fn spec_kept(outcomes: Seq<Option<ChapterResult>>) -> Seq<ChapterResult>
    decreases outcomes.len(),
{
    if outcomes.len() == 0 {
        Seq::empty()
    } else {
        let rest = spec_kept(outcomes.skip(1));
        match outcomes[0] {
            Option::Some(c) => seq![c] + rest,
            Option::None => rest,
        }
    }
}

/// Collect the run's result from the per-chapter outcomes, excluding failed
/// or dropped chapters and keeping the others in order.
pub fn collect_run(outcomes: Vec<Option<ChapterResult>>) -> (r: RunResult)
    ensures
        r.chapters@ == spec_kept(outcomes@),
{
    let ghost orig = outcomes@;
    let mut rest = outcomes;
    let mut kept: Vec<ChapterResult> = Vec::new();
    proof {
        assert(kept@ + spec_kept(rest@) =~= spec_kept(orig));
    }
    while rest.len() > 0
        invariant
            kept@ + spec_kept(rest@) == spec_kept(orig),
        decreases rest@.len(),
    {
        let ghost rest0 = rest@;
        let ghost kept0 = kept@;
        let first = rest.remove(0);
        proof {
            assert(rest@ =~= rest0.skip(1));
        }
        match first {
            Some(c) => {
                kept.push(c);
                proof {
                    assert(kept@ + spec_kept(rest@) =~= kept0 + (seq![c] + spec_kept(
                        rest0.skip(1),
                    )));
                }
            },
            None => {},
        }
    }
    proof {
        assert(spec_kept(rest@) =~= Seq::<ChapterResult>::empty());
        assert(kept@ + Seq::<ChapterResult>::empty() =~= kept@);
    }
    RunResult { chapters: kept }
}

/// Exactly the present chapter results are kept: nothing else enters the
/// run, and no present result is lost.
pub proof fn lemma_kept_exactly(outcomes: Seq<Option<ChapterResult>>)
    ensures
        forall|c: ChapterResult|
            spec_kept(outcomes).contains(c) <==> outcomes.contains(Option::Some(c)),
    decreases outcomes.len(),
{
    if outcomes.len() == 0 {
    } else {
        lemma_kept_exactly(outcomes.skip(1));
        assert forall|c: ChapterResult|
            spec_kept(outcomes).contains(c) <==> outcomes.contains(Option::Some(c)) by {
            let rest = spec_kept(outcomes.skip(1));
            if spec_kept(outcomes).contains(c) {
                let k = choose|k: int|
                    0 <= k < spec_kept(outcomes).len() && spec_kept(outcomes)[k] == c;
                match outcomes[0] {
                    Option::Some(c0) => {
                        if k == 0 {
                            assert(outcomes[0] == Option::Some(c));
                        } else {
                            assert(rest[k - 1] == c);
                            assert(rest.contains(c));
                            let m = choose|m: int|
                                0 <= m < outcomes.skip(1).len() && outcomes.skip(1)[m]
                                    == Option::Some(c);
                            assert(outcomes[m + 1] == Option::Some(c));
                        }
                    },
                    Option::None => {
                        assert(rest.contains(c));
                        let m = choose|m: int|
                            0 <= m < outcomes.skip(1).len() && outcomes.skip(1)[m] == Option::Some(
                                c,
                            );
                        assert(outcomes[m + 1] == Option::Some(c));
                    },
                }
            }
            if outcomes.contains(Option::Some(c)) {
                let k = choose|k: int|
                    0 <= k < outcomes.len() && outcomes[k] == Option::Some(c);
                if k == 0 {
                    assert(spec_kept(outcomes)[0] == c);
                } else {
                    assert(outcomes.skip(1)[k - 1] == Option::Some(c));
                    assert(outcomes.skip(1).contains(Option::Some(c)));
                    assert(rest.contains(c));
                    let m = choose|m: int| 0 <= m < rest.len() && rest[m] == c;
                    match outcomes[0] {
                        Option::Some(c0) => {
                            assert(spec_kept(outcomes)[m + 1] == c);
                        },
                        Option::None => {
                            assert(spec_kept(outcomes)[m] == c);
                        },
                    }
                }
            }
        }
    }
}

/// The run is keyed by chapter number: when no two produced results share a
/// chapter number, neither do any two kept ones.
pub proof fn lemma_kept_unique(outcomes: Seq<Option<ChapterResult>>)
    requires
        forall|i: int, j: int|
            #![trigger outcomes[i], outcomes[j]]
            0 <= i < j < outcomes.len() ==> !(outcomes[i] matches Option::Some(a) && outcomes[j]
                matches Option::Some(b) && a.chapter_number == b.chapter_number),
    ensures
        forall|i: int, j: int|
            0 <= i < j < spec_kept(outcomes).len() ==> spec_kept(outcomes)[i].chapter_number
                != spec_kept(outcomes)[j].chapter_number,
    decreases outcomes.len(),
{
    if outcomes.len() == 0 {
    } else {
        assert forall|i: int, j: int|
            #![trigger outcomes.skip(1)[i], outcomes.skip(1)[j]]
            0 <= i < j < outcomes.skip(1).len() implies !(outcomes.skip(1)[i]
            matches Option::Some(a) && outcomes.skip(1)[j] matches Option::Some(b)
            && a.chapter_number == b.chapter_number) by {
            assert(outcomes.skip(1)[i] == outcomes[i + 1]);
            assert(outcomes.skip(1)[j] == outcomes[j + 1]);
        }
        lemma_kept_unique(outcomes.skip(1));
        lemma_kept_exactly(outcomes.skip(1));
        let whole = spec_kept(outcomes);
        let rest = spec_kept(outcomes.skip(1));
        assert forall|i: int, j: int| 0 <= i < j < whole.len() implies whole[i].chapter_number
            != whole[j].chapter_number by {
            match outcomes[0] {
                Option::Some(c0) => {
                    if i == 0 {
                        assert(whole[j] == rest[j - 1]);
                        assert(rest.contains(rest[j - 1]));
                        assert(outcomes.skip(1).contains(Option::Some(rest[j - 1])));
                        let m = choose|m: int|
                            0 <= m < outcomes.skip(1).len() && outcomes.skip(1)[m] == Option::Some(
                                rest[j - 1],
                            );
                        assert(outcomes[m + 1] == Option::Some(rest[j - 1]));
                    } else {
                        assert(whole[i] == rest[i - 1] && whole[j] == rest[j - 1]);
                    }
                },
                Option::None => {
                    assert(whole[i] == rest[i] && whole[j] == rest[j]);
                },
            }
        }
    }
}

/// Chapter independence: a chapter that produced a result is in the run's
/// result, whatever became of every other chapter.
pub proof fn lemma_chapter_independence(outcomes: Seq<Option<ChapterResult>>, i: int)
    requires
        0 <= i < outcomes.len(),
    ensures
        outcomes[i] matches Option::Some(c) ==> spec_kept(outcomes).contains(c),
{
    lemma_kept_exactly(outcomes);
    if let Option::Some(c) = outcomes[i] {
        assert(outcomes.contains(Option::Some(c)));
    }
}

} // verus!

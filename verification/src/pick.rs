//! Choosing the best of several sensors that could all be the one wanted.
use vstd::prelude::*;

verus! {

/// A sensor that may be the one wanted.
pub struct Candidate {
    /// How good a choice it is.
    pub score: i32,
    /// What it measures, in millionths.
    pub value: i64,
    /// Where it comes from.
    pub source: String,
}

/// A candidate's contents.
pub ghost struct CandidateView {
    pub score: int,
    pub value: int,
    pub source: Seq<char>,
}

impl View for Candidate {
    type V = CandidateView;

    open spec fn view(&self) -> CandidateView {
        CandidateView { score: self.score as int, value: self.value as int, source: self.source@ }
    }
}

/// The better of the best so far and one more: the new one must score higher.
pub open spec fn better(best: Option<CandidateView>, c: CandidateView) -> Option<CandidateView> {
    match best {
        Some(b) if c.score <= b.score => Some(b),
        _ => Some(c),
    }
}

/// The first of those that score highest.
pub open spec fn best(cs: Seq<CandidateView>) -> Option<CandidateView>
    decreases cs.len(),
{
    if cs.len() == 0 {
        None
    } else {
        better(best(cs.drop_last()), cs.last())
    }
}

/// `best` picks one of the candidates, if there are any.  None scores higher,
/// and those in front of it score lower.
pub proof fn lemma_best(cs: Seq<CandidateView>)
    ensures
        best(cs) is None <==> cs.len() == 0,
        cs.len() > 0 ==> exists|i: int|
            0 <= i < cs.len() && best(cs) == Some(#[trigger] cs[i]) && (forall|j: int|
                0 <= j < cs.len() ==> cs[j].score <= cs[i].score) && (forall|j: int|
                0 <= j < i ==> cs[j].score < cs[i].score),
    decreases cs.len(),
{
    if cs.len() > 0 {
        let front = cs.drop_last();
        lemma_best(front);
        let last = cs.len() - 1;
        if front.len() == 0 {
            assert(best(cs) == Some(cs[last]));
        } else {
            let i = choose|i: int|
                0 <= i < front.len() && best(front) == Some(#[trigger] front[i]) && (forall|j: int|
                    0 <= j < front.len() ==> front[j].score <= front[i].score) && (forall|j: int|
                    0 <= j < i ==> front[j].score < front[i].score);
            assert(front[i] == cs[i]);
            assert(forall|j: int| 0 <= j < front.len() ==> front[j] == cs[j]);
            if cs[last].score > cs[i].score {
                assert(best(cs) == Some(cs[last]));
            } else {
                assert(best(cs) == Some(cs[i]));
            }
        }
    }
}

/// `cs` with one more candidate, if there is one.
pub open spec fn with(cs: Seq<CandidateView>, c: Option<CandidateView>) -> Seq<CandidateView> {
    match c {
        Some(x) => cs.push(x),
        None => cs,
    }
}

/// The candidates among the first `n` that are offered.
pub open spec fn offered(f: spec_fn(int) -> Option<CandidateView>, n: int) -> Seq<CandidateView>
    decreases n,
{
    if n <= 0 {
        Seq::empty()
    } else {
        with(offered(f, n - 1), f(n - 1))
    }
}

/// The `i`th that is offered is the one to take: none of the first `n` scores
/// higher, and none in front of it as high.
pub open spec fn is_best(f: spec_fn(int) -> Option<CandidateView>, n: int, i: int) -> bool {
    &&& 0 <= i < n
    &&& f(i) is Some
    &&& forall|j: int| 0 <= j < n && (#[trigger] f(j)) is Some ==> f(j)->0.score <= f(i)->0.score
    &&& forall|j: int| 0 <= j < i && (#[trigger] f(j)) is Some ==> f(j)->0.score < f(i)->0.score
}

/// Of what is offered, the best is taken, and none only where none is offered.
pub proof fn lemma_best_offered(f: spec_fn(int) -> Option<CandidateView>, n: int)
    ensures
        best(offered(f, n)) is None <==> forall|i: int| 0 <= i < n ==> (#[trigger] f(i)) is None,
        best(offered(f, n)) is Some ==> exists|i: int|
            #[trigger] is_best(f, n, i) && f(i) == best(offered(f, n)),
    decreases n,
{
    if n > 0 {
        let m = n - 1;
        lemma_best_offered(f, m);
        let front = offered(f, m);
        if f(m) is Some {
            assert(front.push(f(m)->0).drop_last() =~= front);
        }
        if best(front) is Some {
            let i = choose|i: int| #[trigger] is_best(f, m, i) && f(i) == best(front);
            if f(m) is Some && f(m)->0.score > f(i)->0.score {
                assert(is_best(f, n, m));
            } else {
                assert(is_best(f, n, i));
            }
        } else if f(m) is Some {
            assert(is_best(f, n, m));
        }
    }
}

/// The contents of an optional candidate.
pub open spec fn seen(c: Option<Candidate>) -> Option<CandidateView> {
    match c {
        Some(x) => Some(x@),
        None => None,
    }
}

/// The value of a candidate.
pub open spec fn value_of(c: Option<CandidateView>) -> Option<int> {
    match c {
        Some(x) => Some(x.value),
        None => None,
    }
}

/// Takes a candidate as the best so far if it scores higher.
pub(crate) fn consider(
    best_so_far: &mut Option<Candidate>,
    c: Candidate,
    Ghost(cs): Ghost<Seq<CandidateView>>,
)
    requires
        seen(*old(best_so_far)) == best(cs),
    ensures
        seen(*final(best_so_far)) == best(cs.push(c@)),
{
    assert(cs.push(c@).drop_last() =~= cs);
    let take = match best_so_far {
        Some(b) => c.score > b.score,
        None => true,
    };
    if take {
        *best_so_far = Some(c);
    }
}

} // verus!

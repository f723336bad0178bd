//! The decisions of the trajectory reader: which frames a selection of indices
//! reads, given the number of frames that the indexing pass found.
use vstd::prelude::*;

verus! {

/// What the reader does for one request.
#[derive(Clone, Copy, PartialEq, Eq, Structural, Debug)]
pub enum FrameAction {
    /// read the frame with this index and hand out its text
    Read(usize),
    /// hand out nothing more
    Stop,
}

/// The selection state of a reader over a trajectory of `num_frames` frames.
#[derive(Clone, Copy, Debug)]
pub struct FrameSelection {
    num_frames: usize,
    finished: bool,
}

/// One step: the state after a request, and the frame read for it, if any. A
/// request past the last frame, or the end of the requests, ends the
/// selection for good.
pub open spec fn selection_step(n: int, finished: bool, req: Option<int>) -> (bool, Option<int>) {
    if finished {
        (true, None)
    } else {
        match req {
            Some(j) => if 0 <= j < n {
                (false, Some(j))
            } else {
                (true, None)
            },
            None => (true, None),
        }
    }
}

/// The frames read when the requests `reqs` are handed in one by one.
pub open spec fn selection_run(n: int, finished: bool, reqs: Seq<int>) -> Seq<int>
    decreases reqs.len(),
{
    if reqs.len() == 0 {
        seq![]
    } else {
        let (f, out) = selection_step(n, finished, Some(reqs[0]));
        match out {
            Some(j) => seq![j] + selection_run(n, f, reqs.drop_first()),
            None => selection_run(n, f, reqs.drop_first()),
        }
    }
}

/// The longest prefix of `reqs` whose indices are all frames.
pub open spec fn selected(n: int, reqs: Seq<int>) -> Seq<int>
    decreases reqs.len(),
{
    if reqs.len() == 0 || !(0 <= reqs[0] < n) {
        seq![]
    } else {
        seq![reqs[0]] + selected(n, reqs.drop_first())
    }
}

/// `count` requests: `start`, `start + step`, `start + 2 * step`, ...
pub open spec fn strided(start: int, step: int, count: nat) -> Seq<int> {
    Seq::new(count, |i: int| start + i * step)
}

impl FrameSelection {
    pub closed spec fn frames(&self) -> int {
        self.num_frames as int
    }

    pub closed spec fn is_finished(&self) -> bool {
        self.finished
    }

    /// A selection over `num_frames` frames that has handed out nothing yet.
    pub fn new(num_frames: usize) -> (r: FrameSelection)
        ensures
            r.frames() == num_frames,
            !r.is_finished(),
    {
        FrameSelection { num_frames, finished: false }
    }

    /// The action for the next requested index, or for the end of the
    /// requests (`None`).
    pub fn next_action(&mut self, requested: Option<usize>) -> (a: FrameAction)
        ensures
            final(self).frames() == old(self).frames(),
            ({
                let (f, out) = selection_step(
                    old(self).frames(),
                    old(self).is_finished(),
                    match requested {
                        Some(j) => Some(j as int),
                        None => None,
                    },
                );
                &&& final(self).is_finished() == f
                &&& match a {
                    FrameAction::Read(j) => out == Some(j as int),
                    FrameAction::Stop => out is None,
                }
            }),
    {
        if self.finished {
            return FrameAction::Stop;
        }
        match requested {
            Some(j) => if j < self.num_frames {
                FrameAction::Read(j)
            } else {
                self.finished = true;
                FrameAction::Stop
            },
            None => {
                self.finished = true;
                FrameAction::Stop
            },
        }
    }
}

pub open spec fn index_views(v: Seq<usize>) -> Seq<int> {
    v.map_values(|j: usize| j as int)
}

/// Hands a fresh selection over `num_frames` frames the requests one by one,
/// and gives the frames it reads, in order. What a selection reads is thus a
/// function of the frame count and the requests alone: running one selection
/// twice reads the same frames.
pub fn selected_frames(num_frames: usize, requests: &Vec<usize>) -> (r: Vec<usize>)
    ensures
        index_views(r@) == selection_run(num_frames as int, false, index_views(requests@)),
{
    let mut sel = FrameSelection::new(num_frames);
    let mut out: Vec<usize> = Vec::new();
    let ghost reqs = index_views(requests@);
    let mut i: usize = 0;
    assert(reqs.skip(0) =~= reqs);
    assert(index_views(out@) =~= seq![]);
    while i < requests.len()
        invariant
            0 <= i <= requests.len(),
            reqs == index_views(requests@),
            sel.frames() == num_frames,
            index_views(out@) + selection_run(num_frames as int, sel.is_finished(), reqs.skip(i as int))
                == selection_run(num_frames as int, false, reqs),
        decreases requests.len() - i,
    {
        let ghost before = index_views(out@);
        let ghost fin = sel.is_finished();
        assert(reqs.skip(i as int)[0] == requests@[i as int] as int);
        assert(reqs.skip(i as int).drop_first() =~= reqs.skip(i + 1));
        match sel.next_action(Some(requests[i])) {
            FrameAction::Read(j) => {
                out.push(j);
                assert(index_views(out@) =~= before.push(j as int));
                assert(before.push(j as int) + selection_run(num_frames as int, sel.is_finished(), reqs.skip(i + 1))
                    =~= before + (seq![j as int] + selection_run(num_frames as int, sel.is_finished(), reqs.skip(i + 1))));
            },
            FrameAction::Stop => {},
        }
        i = i + 1;
    }
    assert(reqs.skip(requests.len() as int) =~= Seq::<int>::empty());
    assert(index_views(out@) + Seq::<int>::empty() =~= index_views(out@));
    out
}

/// Handing a fresh selection the requests one by one reads exactly the
/// longest prefix of them that are frame indices, in the order requested:
/// nothing after the first index past the last frame.
pub proof fn lemma_selection_reads_valid_prefix(n: int, reqs: Seq<int>)
    ensures
        selection_run(n, false, reqs) == selected(n, reqs),
        selected(n, reqs).len() <= reqs.len(),
        forall|i: int| 0 <= i < selected(n, reqs).len() ==> selected(n, reqs)[i] == reqs[i] && 0 <= reqs[i] < n,
        forall|k: int| 0 <= k < reqs.len() && !(0 <= #[trigger] reqs[k] < n) ==> selected(n, reqs).len() <= k,
    decreases reqs.len(),
{
    lemma_finished_reads_nothing(n, reqs);
    if reqs.len() > 0 && 0 <= reqs[0] < n {
        let rest = reqs.drop_first();
        lemma_selection_reads_valid_prefix(n, rest);
        assert forall|k: int| 0 <= k < reqs.len() && !(0 <= #[trigger] reqs[k] < n) implies selected(
            n,
            reqs,
        ).len() <= k by {
            assert(k >= 1);
            assert(rest[k - 1] == reqs[k]);
        }
        assert forall|i: int| 0 <= i < selected(n, reqs).len() implies selected(n, reqs)[i]
            == reqs[i] && 0 <= reqs[i] < n by {
            if i > 0 {
                assert(selected(n, reqs)[i] == selected(n, rest)[i - 1]);
                assert(rest[i - 1] == reqs[i]);
            }
        }
    }
}

proof fn lemma_finished_reads_nothing(n: int, reqs: Seq<int>)
    ensures
        selection_run(n, true, reqs) == Seq::<int>::empty(),
    decreases reqs.len(),
{
    if reqs.len() > 0 {
        lemma_finished_reads_nothing(n, reqs.drop_first());
    }
}

/// Every `step`-th frame from `start`, over a trajectory of `n` frames,
/// reads `c` frames in ascending order where `c` is the ceiling of
/// `(n - start) / step` (zero where `start >= n`), as long as at least `c`
/// requests are made.
pub proof fn lemma_strided_selection(n: int, start: int, step: int, count: nat, c: nat)
    requires
        0 <= start,
        0 < step,
        start >= n ==> c == 0,
        start < n ==> (c - 1) * step < n - start <= c * step,
        c <= count,
    ensures
        selection_run(n, false, strided(start, step, count)) == strided(start, step, c),
        forall|i: int, j: int|
            0 <= i < j < c ==> selection_run(n, false, strided(start, step, count))[i]
                < selection_run(n, false, strided(start, step, count))[j],
    decreases count,
{
    lemma_selection_reads_valid_prefix(n, strided(start, step, count));
    lemma_strided_selected(n, start, step, count, c);
    assert forall|i: int, j: int| 0 <= i < j < c implies strided(start, step, c)[i] < strided(
        start,
        step,
        c,
    )[j] by {
        assert(i * step < j * step) by (nonlinear_arith)
            requires
                i < j,
                0 < step,
        ;
    }
}

proof fn lemma_strided_selected(n: int, start: int, step: int, count: nat, c: nat)
    requires
        0 <= start,
        0 < step,
        start >= n ==> c == 0,
        start < n ==> (c - 1) * step < n - start <= c * step,
        c <= count,
    ensures
        selected(n, strided(start, step, count)) == strided(start, step, c),
    decreases count,
{
    let reqs = strided(start, step, count);
    if c == 0 {
        if count > 0 {
            assert(reqs[0] == start);
        }
        assert(selected(n, reqs) =~= strided(start, step, c));
    } else {
        assert(reqs[0] == start);
        let rest = strided(start + step, step, (count - 1) as nat);
        assert(reqs.drop_first() =~= rest) by {
            assert forall|i: int| 0 <= i < rest.len() implies reqs.drop_first()[i] == rest[i] by {
                assert(start + (i + 1) * step == start + step + i * step) by (nonlinear_arith);
            }
        }
        let c1: nat = (c - 1) as nat;
        if start + step < n {
            assert((c1 - 1) * step < n - (start + step) <= c1 * step) by (nonlinear_arith)
                requires
                    (c - 1) * step < n - start <= c * step,
                    c1 == c - 1,
                    start + step < n,
            ;
        } else {
            assert(c1 == 0) by (nonlinear_arith)
                requires
                    (c - 1) * step < n - start,
                    c1 == c - 1,
                    start + step >= n,
                    0 < step,
            ;
        }
        lemma_strided_selected(n, start + step, step, (count - 1) as nat, c1);
        assert(selected(n, reqs) =~= strided(start, step, c)) by {
            let out = strided(start, step, c);
            assert forall|i: int| 0 < i < c implies out[i] == strided(start + step, step, c1)[i
                - 1] by {
                assert(start + i * step == start + step + (i - 1) * step) by (nonlinear_arith);
            }
        }
    }
}

} // verus!

//! The coroutine of
//!
//! ```text
//! async fn for_range() {
//!     println!("start");
//!     for i in (0..3).await {
//!         println!("i={i}");
//!         let n: i32 = ().await;
//!         println!("i={i} n={n}");
//!     }
//!     println!("done");
//! }
//! ```
//!
//! as a state machine: a `for` whose range is awaited and whose body awaits.
//! Printing is left to the caller: `step` reports the lines it would print.
use vstd::prelude::*;
use core::ops::Range;
use crate::runtime::Step;

verus! {

broadcast use vstd::std_specs::range::group_range_axioms;

/// The states of the coroutine.
#[allow(inconsistent_fields)]
pub enum ForRangeCoroutine {
    NotStarted,
    /// Waiting for the range to iterate over.
    WaitingIter0 { __wait: Option<Range<i32>> },
    /// Waiting for `n` in the iteration for `i`.
    WaitingN { __iter: Range<i32>, i: i32, __wait: Option<i32> },
    /// About to take the next item of the range.
    LoopHead0 { __iter: Range<i32> },
    /// After the loop.
    AfterLoop0 {},
    Finished,
}

/// What `rehydrate` reports: this coroutine keeps nothing that serialization skips.
#[derive(PartialEq, Eq, Structural, Debug)]
pub enum ForRangeCoroutineRehydration {
    Hydrated,
}

/// A value handed to `settle_wait`: the awaited range or an awaited `i32`.
pub enum SettleValue {
    Range(Range<i32>),
    Int(i32),
}

/// A line the coroutine prints.
#[derive(PartialEq, Eq, Structural, Clone, Copy, Debug)]
pub enum ForRangeLine {
    /// `start`
    Start,
    /// `i={i}`
    Item(i32),
    /// `i={i} n={n}`
    ItemN(i32, i32),
    /// `done`
    Done,
}

/// The coroutine, not yet started.
pub fn for_range() -> (r: ForRangeCoroutine)
    ensures
        r is NotStarted,
{
    ForRangeCoroutine::NotStarted
}

/// Whether `value` settles the await `s` waits on: the range while it
/// waits for the range, an `i32` while it waits for `n`.
pub open spec fn settles(s: ForRangeCoroutine, value: SettleValue) -> bool {
    match s {
        ForRangeCoroutine::WaitingIter0 { .. } => value is Range,
        ForRangeCoroutine::WaitingN { .. } => value is Int,
        _ => false,
    }
}

/// A state that has a settled value where it waits, or does not wait.
pub open spec fn settled(s: ForRangeCoroutine) -> bool {
    match s {
        ForRangeCoroutine::WaitingIter0 { __wait } => __wait is Some,
        ForRangeCoroutine::WaitingN { __wait, .. } => __wait is Some,
        _ => true,
    }
}

/// What a loop head does: the next item starts an iteration that waits for
/// `n`; an exhausted range ends the loop and the coroutine.
pub open spec fn head_step(r: Range<i32>) -> (ForRangeCoroutine, Step<()>, Seq<ForRangeLine>) {
    if r.start < r.end {
        (
            ForRangeCoroutine::WaitingN {
                __iter: Range { start: (r.start + 1) as i32, end: r.end },
                i: r.start,
                __wait: None,
            },
            Step::Pending,
            seq![ForRangeLine::Item(r.start)],
        )
    } else {
        (ForRangeCoroutine::Finished, Step::Ready(()), seq![ForRangeLine::Done])
    }
}

/// One `step` from `s`: the next state, what it reports, and the lines printed.
pub open spec fn step_of(s: ForRangeCoroutine) -> (ForRangeCoroutine, Step<()>, Seq<ForRangeLine>) {
    match s {
        ForRangeCoroutine::NotStarted => (
            ForRangeCoroutine::WaitingIter0 { __wait: None },
            Step::Pending,
            seq![ForRangeLine::Start],
        ),
        ForRangeCoroutine::WaitingIter0 { __wait } => head_step(__wait->Some_0),
        ForRangeCoroutine::LoopHead0 { __iter } => head_step(__iter),
        ForRangeCoroutine::WaitingN { __iter, i, __wait } => {
            let (s2, st, lines) = head_step(__iter);
            (s2, st, seq![ForRangeLine::ItemN(i, __wait->Some_0)] + lines)
        },
        ForRangeCoroutine::AfterLoop0 {} => (ForRangeCoroutine::Finished, Step::Ready(()), seq![ForRangeLine::Done]),
        ForRangeCoroutine::Finished => (ForRangeCoroutine::Finished, Step::Ready(()), Seq::empty()),
    }
}

/// `step` reports `Pending` exactly when it leaves the coroutine waiting,
/// with nothing settled yet (so `settle_wait` is due before the next step),
/// and `Ready` exactly when it leaves it finished; it never reports an effect.
pub proof fn lemma_step_reports_its_state(s: ForRangeCoroutine)
    requires
        settled(s),
    ensures
        ({
            let (s2, st, _) = step_of(s);
            &&& (st is Pending <==> (s2 is WaitingIter0 || s2 is WaitingN))
            &&& (st is Pending ==> !settled(s2))
            &&& (st is Ready <==> s2 is Finished)
            &&& !(st is Effect)
        }),
{
}

/// `s` with `value` settled where it waits.
pub open spec fn settle_of(s: ForRangeCoroutine, value: SettleValue) -> ForRangeCoroutine {
    match s {
        ForRangeCoroutine::WaitingIter0 { .. } => ForRangeCoroutine::WaitingIter0 { __wait: Some(value->Range_0) },
        ForRangeCoroutine::WaitingN { __iter, i, .. } => ForRangeCoroutine::WaitingN {
            __iter,
            i,
            __wait: Some(value->Int_0),
        },
        _ => s,
    }
}

/// Driving the coroutine from `s`: step, and while it then waits for `n`,
/// settle the next of `ns` and step again. The state it stops in and the
/// lines printed on the way.
pub open spec fn run(s: ForRangeCoroutine, ns: Seq<i32>) -> (ForRangeCoroutine, Seq<ForRangeLine>)
    decreases ns.len(),
{
    let (s2, _, lines) = step_of(s);
    if s2 is WaitingN && ns.len() > 0 {
        let (s3, more) = run(settle_of(s2, SettleValue::Int(ns[0])), ns.drop_first());
        (s3, lines + more)
    } else {
        (s2, lines)
    }
}

/// What the loop prints for the items `lo..hi`, with `ns` the values
/// awaited in its iterations: `i={i}` and `i={i} n={n}` for each item,
/// then `done`.
pub open spec fn loop_lines(lo: int, hi: int, ns: Seq<i32>) -> Seq<ForRangeLine>
    decreases hi - lo,
{
    if lo < hi && ns.len() > 0 {
        seq![ForRangeLine::Item(lo as i32), ForRangeLine::ItemN(lo as i32, ns[0])] + loop_lines(lo + 1, hi, ns.drop_first())
    } else {
        seq![ForRangeLine::Done]
    }
}

/// The number of items of `r`.
pub open spec fn item_count(r: Range<i32>) -> int {
    if r.start < r.end {
        r.end - r.start
    } else {
        0
    }
}

proof fn lemma_run_from_head(s: ForRangeCoroutine, pre: Seq<ForRangeLine>, r: Range<i32>, ns: Seq<i32>)
    requires
        step_of(s) == (head_step(r).0, head_step(r).1, pre + head_step(r).2),
        ns.len() == item_count(r),
    ensures
        run(s, ns) == (ForRangeCoroutine::Finished, pre + loop_lines(r.start as int, r.end as int, ns)),
    decreases ns.len(),
{
    if r.start < r.end {
        let s2 = step_of(s).0;
        let rest = Range { start: (r.start + 1) as i32, end: r.end };
        let s3 = settle_of(s2, SettleValue::Int(ns[0]));
        assert(s3 == ForRangeCoroutine::WaitingN { __iter: rest, i: r.start, __wait: Some(ns[0]) });
        let pre2 = seq![ForRangeLine::ItemN(r.start, ns[0])];
        lemma_run_from_head(s3, pre2, rest, ns.drop_first());
        assert(pre + seq![ForRangeLine::Item(r.start)] + (pre2 + loop_lines(rest.start as int, rest.end as int, ns.drop_first()))
            =~= pre + loop_lines(r.start as int, r.end as int, ns));
    } else {
        assert(run(s, ns) == (step_of(s).0, step_of(s).2));
    }
}

/// Driving the coroutine to its end prints what the `async fn` prints: its
/// first step prints `start` and waits for the range; with the range `r`
/// settled and then, item by item, the awaited values `ns`, it prints
/// `i={i}` and `i={i} n={n}` for each item `i` of `r` in order, then
/// `done`, and finishes.
pub proof fn lemma_for_range_runs_the_loop(r: Range<i32>, ns: Seq<i32>)
    requires
        ns.len() == item_count(r),
    ensures
        step_of(ForRangeCoroutine::NotStarted).2 == seq![ForRangeLine::Start],
        run(settle_of(step_of(ForRangeCoroutine::NotStarted).0, SettleValue::Range(r)), ns) == (
            ForRangeCoroutine::Finished,
            loop_lines(r.start as int, r.end as int, ns),
        ),
{
    let s = settle_of(step_of(ForRangeCoroutine::NotStarted).0, SettleValue::Range(r));
    assert(s == ForRangeCoroutine::WaitingIter0 { __wait: Some(r) });
    assert(Seq::<ForRangeLine>::empty() + head_step(r).2 =~= head_step(r).2);
    lemma_run_from_head(s, Seq::empty(), r, ns);
    assert(Seq::<ForRangeLine>::empty() + loop_lines(r.start as int, r.end as int, ns) =~= loop_lines(
        r.start as int,
        r.end as int,
        ns,
    ));
}

/// Driving the coroutine from `s` for `k` more steps after the first: step,
/// and while it then waits for `n`, settle the next of `ns` and step again,
/// at most `k` times. The state it stops in and what its last step reported.
pub open spec fn driven(s: ForRangeCoroutine, ns: Seq<i32>, k: nat) -> (ForRangeCoroutine, Step<()>)
    decreases k,
{
    let (s2, st, _) = step_of(s);
    if k > 0 && s2 is WaitingN && ns.len() > 0 {
        driven(settle_of(s2, SettleValue::Int(ns[0])), ns.drop_first(), (k - 1) as nat)
    } else {
        (s2, st)
    }
}

proof fn lemma_driven_from_head(s: ForRangeCoroutine, r: Range<i32>, ns: Seq<i32>, k: nat)
    requires
        step_of(s).0 == head_step(r).0,
        step_of(s).1 == head_step(r).1,
        ns.len() == item_count(r),
        k <= item_count(r),
    ensures
        ({
            let (s2, st) = driven(s, ns, k);
            if k < item_count(r) {
                st is Pending && (s2 matches ForRangeCoroutine::WaitingN { i, __wait, .. } && i == r.start + k
                    && __wait is None)
            } else {
                st is Ready && s2 is Finished
            }
        }),
    decreases k,
{
    if k > 0 {
        let s2 = step_of(s).0;
        let rest = Range { start: (r.start + 1) as i32, end: r.end };
        let s3 = settle_of(s2, SettleValue::Int(ns[0]));
        assert(s3 == ForRangeCoroutine::WaitingN { __iter: rest, i: r.start, __wait: Some(ns[0]) });
        lemma_driven_from_head(s3, rest, ns.drop_first(), (k - 1) as nat);
    }
}

/// Counting the steps of a full run: with the range `r` settled and then,
/// item by item, the awaited values `ns`, the `k`-th step after settling the
/// range (counting from 0) reports `Pending` and leaves the coroutine waiting
/// for `n` in the iteration for item `r.start + k`, for each of the items of
/// `r`; the step after the last item reports `Ready` and finishes.
pub proof fn lemma_for_range_pending_once_per_item(r: Range<i32>, ns: Seq<i32>, k: nat)
    requires
        ns.len() == item_count(r),
        k <= item_count(r),
    ensures
        ({
            let (s2, st) = driven(settle_of(step_of(ForRangeCoroutine::NotStarted).0, SettleValue::Range(r)), ns, k);
            if k < item_count(r) {
                st is Pending && (s2 matches ForRangeCoroutine::WaitingN { i, __wait, .. } && i == r.start + k
                    && __wait is None)
            } else {
                st is Ready && s2 is Finished
            }
        }),
{
    let s = settle_of(step_of(ForRangeCoroutine::NotStarted).0, SettleValue::Range(r));
    assert(s == ForRangeCoroutine::WaitingIter0 { __wait: Some(r) });
    lemma_driven_from_head(s, r, ns, k);
}

impl ForRangeCoroutine {
    /// Stores the settled value of the await the coroutine waits on. Settling
    /// a value of the wrong kind, or when not waiting, is a caller error.
    pub fn settle_wait(&mut self, value: SettleValue)
        requires
            settles(*old(self), value),
        ensures
            *final(self) == settle_of(*old(self), value),
    {
        match self {
            ForRangeCoroutine::WaitingIter0 { __wait } => {
                match value {
                    SettleValue::Range(r) => {
                        *__wait = Some(r);
                    },
                    SettleValue::Int(_) => {},
                }
            },
            ForRangeCoroutine::WaitingN { __wait, .. } => {
                match value {
                    SettleValue::Int(n) => {
                        *__wait = Some(n);
                    },
                    SettleValue::Range(_) => {},
                }
            },
            _ => {},
        }
    }

    /// Nothing of this coroutine is skipped by serialization: always `Hydrated`.
    pub fn rehydrate(&mut self) -> (r: ForRangeCoroutineRehydration)
        ensures
            r == ForRangeCoroutineRehydration::Hydrated,
            *final(self) == *old(self),
    {
        ForRangeCoroutineRehydration::Hydrated
    }

    /// The loop variable `i`, while an iteration waits for `n`.
    pub fn get_i(&self) -> (r: Option<&i32>)
        ensures
            match *self {
                ForRangeCoroutine::WaitingN { i, .. } => r == Some(&i),
                _ => r is None,
            },
    {
        match self {
            ForRangeCoroutine::WaitingN { i, .. } => Some(i),
            _ => None,
        }
    }

    /// Runs the coroutine to its next suspension or to its end, and reports
    /// the lines it printed on the way. Stepping while an await has not been
    /// settled is a caller error.
    pub fn step(&mut self) -> (r: (Result<Step<()>, ForRangeCoroutineRehydration>, Vec<ForRangeLine>))
        requires
            settled(*old(self)),
        ensures
            ({
                let (s2, st, lines) = step_of(*old(self));
                &&& *final(self) == s2
                &&& r.0 == Ok::<Step<()>, ForRangeCoroutineRehydration>(st)
                &&& r.1@ == lines
            }),
    {
        let mut lines: Vec<ForRangeLine> = Vec::new();
        let mut state = ForRangeCoroutine::Finished;
        core::mem::swap(self, &mut state);
        let head = match state {
            ForRangeCoroutine::NotStarted => {
                lines.push(ForRangeLine::Start);
                *self = ForRangeCoroutine::WaitingIter0 { __wait: None };
                return (Ok(Step::Pending), lines);
            },
            ForRangeCoroutine::WaitingIter0 { __wait } => __wait.unwrap(),
            ForRangeCoroutine::LoopHead0 { __iter } => __iter,
            ForRangeCoroutine::WaitingN { __iter, i, __wait } => {
                let n: i32 = __wait.unwrap();
                lines.push(ForRangeLine::ItemN(i, n));
                __iter
            },
            ForRangeCoroutine::AfterLoop0 {} => {
                lines.push(ForRangeLine::Done);
                *self = ForRangeCoroutine::Finished;
                return (Ok(Step::Ready(())), lines);
            },
            ForRangeCoroutine::Finished => {
                return (Ok(Step::Ready(())), lines);
            },
        };
        let ghost before = lines@;
        let mut iter = head;
        let ghost h = iter;
        match iter.next() {
            Some(i) => {
                lines.push(ForRangeLine::Item(i));
                assert(lines@ =~= before + seq![ForRangeLine::Item(h.start)]);
                *self = ForRangeCoroutine::WaitingN { __iter: iter, i, __wait: None };
                (Ok(Step::Pending), lines)
            },
            None => {
                lines.push(ForRangeLine::Done);
                assert(lines@ =~= before + seq![ForRangeLine::Done]);
                *self = ForRangeCoroutine::Finished;
                (Ok(Step::Ready(())), lines)
            },
        }
    }
}

} // verus!

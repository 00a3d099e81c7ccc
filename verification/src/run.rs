//! What the code of a step arm does, whatever the source's conditions and
//! matches come out as: the pieces it runs, in order, and the state change
//! or finish it ends with.
use vstd::prelude::*;
use crate::split::{AwaitPoint, ChainArm, SuspendKind};
use crate::steps::{
    body_code, chain_ok, chain_rest, continues_after, else_source, enters, goes_to, heads_at, joins_at,
    name_seq, resumes, return_rewrites_ok, runs_then_joins, sources_of, suspends_at, wait_arm_code,
    waiting_name, eval_piece, waits_at, all_run_then_join, text_seq, guards_at, steps_child, ArmBody, ArmCode, ArmHead, Code, Else, Operand,
};
use crate::plan::{caps_at, skip_only};
use crate::effects::{args_tys, awaited_base, call_of, point_effect};
use crate::split::kind_child;
use crate::syntax::{expr_id, pat_id, Arm, Stmt};

verus! {

/// How the source's tests come out: whether the condition `o` holds, and
/// whether the value of `o` matches an arm's head (its pattern and guard);
/// a `match` takes the first arm whose head matches, `_` matching any
/// value. For `NextItem`, whether the iterator yields
/// is the outcome of the local named after the item, whether a stepped
/// child coroutine is ready is the outcome of the local its value goes to,
/// and for a `let …
/// else`, whether its pattern matches is the outcome of the local holding
/// the settled value; `missing` says which skipped locals, by name, need
/// rehydration.
pub struct Outcomes {
    pub holds: spec_fn(Operand) -> bool,
    pub matches: spec_fn(Operand, ArmHead) -> bool,
    pub missing: spec_fn(Seq<char>) -> bool,
}

/// What running some code did: the pieces without control flow it ran,
/// in order, and the piece that ended the step or changed the state, if
/// one did (a `Goto`, `Finish`, or a failed `Guard`).
pub struct Run {
    pub trace: Seq<Code>,
    pub end: Option<Code>,
}

/// Running nothing.
pub open spec fn ran_nothing() -> Run {
    Run { trace: Seq::empty(), end: None }
}

/// What `rehydrate` reports in a state whose arm checks the skipped locals
/// `checks` in order and returns at the first that needs rehydration: the
/// index of that local, or none for success.
pub open spec fn rehydrate_report(checks: Seq<Seq<char>>, missing: spec_fn(Seq<char>) -> bool) -> Option<nat>
    decreases checks.len(),
{
    if checks.len() == 0 {
        None
    } else if missing(checks[0]) {
        Some(0)
    } else {
        match rehydrate_report(checks.drop_first(), missing) {
            Some(j) => Some(j + 1),
            None => None,
        }
    }
}

/// `rehydrate` reports the first of the checked locals that needs
/// rehydration, in the order checked, and success exactly when none does.
pub proof fn lemma_rehydrate_reports_first_missing(checks: Seq<Seq<char>>, missing: spec_fn(Seq<char>) -> bool)
    ensures
        match rehydrate_report(checks, missing) {
            Some(j) => j < checks.len() && missing(checks[j as int]) && forall|k: int| 0 <= k < j ==> !missing(
                #[trigger] checks[k],
            ),
            None => forall|k: int| 0 <= k < checks.len() ==> !missing(#[trigger] checks[k]),
        },
    decreases checks.len(),
{
    if checks.len() > 0 {
        lemma_rehydrate_reports_first_missing(checks.drop_first(), missing);
        if !missing(checks[0]) {
            match rehydrate_report(checks.drop_first(), missing) {
                Some(j) => {
                    assert forall|k: int| 0 <= k < j + 1 implies !missing(#[trigger] checks[k]) by {
                        if k > 0 {
                            assert(checks[k] == checks.drop_first()[k - 1]);
                        }
                    }
                },
                None => {
                    assert forall|k: int| 0 <= k < checks.len() implies !missing(#[trigger] checks[k]) by {
                        if k > 0 {
                            assert(checks[k] == checks.drop_first()[k - 1]);
                        }
                    }
                },
            }
        }
    }
}

/// Some skipped local that the waiting state of point `i` keeps needs
/// rehydration.
pub open spec fn some_missing(a: Seq<AwaitPoint>, i: int, o: Outcomes) -> bool {
    rehydrate_report(name_seq(skip_only(caps_at(a, i))), o.missing) is Some
}

/// Running `s` in order until a piece ends it.
pub open spec fn run(s: Seq<Code>, o: Outcomes) -> Run
    decreases s,
{
    if s.len() == 0 {
        ran_nothing()
    } else {
        let first = run_one(s[0], o);
        match first.end {
            Some(_) => first,
            None => {
                let rest = run(s.drop_first(), o);
                Run { trace: first.trace + rest.trace, end: rest.end }
            },
        }
    }
}

/// Running one piece.
pub open spec fn run_one(c: Code, o: Outcomes) -> Run
    decreases c,
{
    match c {
        Code::Goto { .. } => Run { trace: Seq::empty(), end: Some(c) },
        Code::Finish => Run { trace: Seq::empty(), end: Some(c) },
        Code::Guard { skips, .. } => if rehydrate_report(text_seq(skips@), o.missing) is Some {
            Run { trace: Seq::empty(), end: Some(c) }
        } else {
            ran_nothing()
        },
        Code::If { cond, then_code, else_code } => if (o.holds)(cond) {
            run(then_code@, o)
        } else {
            match else_code {
                Else::Block(b) => run(b@, o),
                Else::Expr(id) => Run { trace: seq![Code::ExprStmt(id)], end: None },
                Else::Nothing => ran_nothing(),
            }
        },
        Code::Match { scrutinee, arms } => {
            let j = first_match(o, scrutinee, heads(arms@));
            if j < arms@.len() {
                run_arm(arms@[j as int], o)
            } else {
                ran_nothing()
            }
        },
        Code::NextItem { item, some, none } => if (o.holds)(Operand::Local(item)) {
            run(some@, o)
        } else {
            run(none@, o)
        },
        Code::StepChild { tmp, ready, .. } => if (o.holds)(Operand::Local(tmp)) {
            run(ready@, o)
        } else {
            Run { trace: Seq::empty(), end: Some(c) }
        },
        Code::LetElse { tmp, else_code, .. } => if (o.holds)(Operand::Local(tmp)) {
            Run { trace: seq![c], end: None }
        } else {
            run(else_code@, o)
        },
        _ => Run { trace: seq![c], end: None },
    }
}

/// The heads of generated match arms.
pub open spec fn heads(arms: Seq<ArmCode>) -> Seq<ArmHead> {
    arms.map_values(|x: ArmCode| x.head)
}

/// The heads of source match arms, each as written.
pub open spec fn source_heads(arms: Seq<Arm>) -> Seq<ArmHead> {
    arms.map_values(|x: Arm| ArmHead::Source(x.id))
}

/// The index of the first of `hs` that a value of `s` matches; the length
/// of `hs` when none does.
pub open spec fn first_match(o: Outcomes, s: Operand, hs: Seq<ArmHead>) -> nat
    decreases hs.len(),
{
    if hs.len() == 0 {
        0
    } else if hs[0] is Wild || (o.matches)(s, hs[0]) {
        0
    } else {
        1 + first_match(o, s, hs.drop_first())
    }
}

/// Matching against arms one list after another.
pub proof fn lemma_first_match_concat(o: Outcomes, s: Operand, h1: Seq<ArmHead>, h2: Seq<ArmHead>)
    ensures
        first_match(o, s, h1) <= h1.len(),
        first_match(o, s, h1 + h2) == if first_match(o, s, h1) < h1.len() {
            first_match(o, s, h1)
        } else {
            h1.len() + first_match(o, s, h2)
        },
    decreases h1.len(),
{
    if h1.len() == 0 {
        assert(h1 + h2 =~= h2);
    } else {
        assert((h1 + h2)[0] == h1[0]);
        assert((h1 + h2).drop_first() =~= h1.drop_first() + h2);
        lemma_first_match_concat(o, s, h1.drop_first(), h2);
    }
}

/// Running the body of a match arm.
pub open spec fn run_arm(x: ArmCode, o: Outcomes) -> Run
    decreases x,
{
    match x.body {
        ArmBody::Code(b) => run(b@, o),
        ArmBody::Expr(id) => Run { trace: seq![Code::ExprStmt(id)], end: None },
        ArmBody::Unreachable => ran_nothing(),
    }
}

/// Running `s1` then `s2`: when `s1` runs through, what `s2` does follows.
pub proof fn lemma_run_concat(s1: Seq<Code>, s2: Seq<Code>, o: Outcomes)
    ensures
        run(s1 + s2, o) == (match run(s1, o).end {
            Some(_) => run(s1, o),
            None => (Run { trace: run(s1, o).trace + run(s2, o).trace, end: run(s2, o).end }),
        }),
    decreases s1.len(),
{
    if s1.len() == 0 {
        assert(s1 + s2 =~= s2);
        assert(Seq::<Code>::empty() + run(s2, o).trace =~= run(s2, o).trace);
    } else {
        assert((s1 + s2)[0] == s1[0]);
        assert((s1 + s2).drop_first() =~= s1.drop_first() + s2);
        lemma_run_concat(s1.drop_first(), s2, o);
        let f = run_one(s1[0], o);
        if f.end is None {
            let r1 = run(s1.drop_first(), o);
            if r1.end is None {
                assert(f.trace + (r1.trace + run(s2, o).trace) =~= (f.trace + r1.trace) + run(s2, o).trace);
            }
        }
    }
}

/// Pieces that run a statement or an expression of the source as written.
pub open spec fn plain(s: Seq<Code>) -> bool {
    forall|k: int| 0 <= k < s.len() ==> (#[trigger] s[k] is Source || s[k] is ExprStmt)
}

/// Such pieces run through, each in turn.
pub proof fn lemma_run_plain(s: Seq<Code>, o: Outcomes)
    requires
        plain(s),
    ensures
        run(s, o) == (Run { trace: s, end: None }),
    decreases s.len(),
{
    if s.len() > 0 {
        assert(s[0] is Source || s[0] is ExprStmt);
        assert(plain(s.drop_first())) by {
            assert forall|k: int| 0 <= k < s.drop_first().len() implies (#[trigger] s.drop_first()[k] is Source
                || s.drop_first()[k] is ExprStmt) by {
                assert(s.drop_first()[k] == s[k + 1]);
            }
        }
        lemma_run_plain(s.drop_first(), o);
        let f = run_one(s[0], o);
        assert(f.trace == seq![s[0]]);
        assert(seq![s[0]] + s.drop_first() =~= s);
        assert(run(s, o).trace =~= s);
    } else {
        assert(run(s, o).trace =~= s);
    }
}

/// The statements of a branch run as written.
pub proof fn lemma_sources_plain(s: Seq<Stmt>)
    ensures
        plain(sources_of(s)),
{
}

/// A state change alone ends the run at once.
pub proof fn lemma_run_goto(g: Code, o: Outcomes)
    requires
        (g is Goto),
    ensures
        run(seq![g], o) == (Run { trace: Seq::<Code>::empty(), end: Some(g) }),
{
    let s = seq![g];
    assert(s.len() == 1);
    assert(s[0] == g);
    let f = run_one(g, o);
    assert(f.end == Some(g));
    assert(f.trace =~= Seq::<Code>::empty());
}

/// Running plain pieces, then one piece that changes the state.
pub proof fn lemma_run_then(s: Seq<Code>, pre: Seq<Code>, o: Outcomes)
    requires
        plain(pre),
        s.len() == pre.len() + 1,
        s.take(pre.len() as int) == pre,
        (s.last() is Goto),
    ensures
        run(s, o) == (Run { trace: pre, end: Some(s.last()) }),
{
    let g = s.last();
    assert(s =~= pre + seq![g]);
    lemma_run_plain(pre, o);
    lemma_run_concat(pre, seq![g], o);
    lemma_run_goto(g, o);
    assert(run(s, o).trace =~= pre);
}

/// Running a branch's statements, then suspending: the statements and the
/// evaluation of the await's base run, then the state change.
pub proof fn lemma_run_then_suspend(s: Seq<Code>, pre: Seq<Code>, a: Seq<AwaitPoint>, i: int, o: Outcomes)
    requires
        0 <= i < a.len(),
        plain(pre),
        s.len() == pre.len() + 2,
        s.take(pre.len() as int) == pre,
        suspends_at(s.skip(pre.len() as int), a, i),
    ensures
        run(s, o) == (Run { trace: pre.push(eval_piece(a, i)), end: Some(s.last()) }),
{
    let n = pre.len() as int;
    let tail = s.skip(n);
    let e = tail[0];
    let g = tail[1];
    assert(s =~= pre + tail);
    assert(g == s.last());
    lemma_run_plain(pre, o);
    lemma_run_concat(pre, tail, o);
    assert(tail.drop_first() =~= seq![g]);
    lemma_run_goto(g, o);
    assert(run_one(e, o) == (Run { trace: seq![e], end: None }));
    assert(run(tail, o).trace =~= seq![e]);
    assert(run(tail, o).end == Some(g));
    assert(run(s, o).trace =~= pre.push(e));
}

/// A single piece runs as itself.
pub proof fn lemma_run_single(c: Code, o: Outcomes)
    ensures
        run(seq![c], o) == run_one(c, o),
{
    let s = seq![c];
    assert(s[0] == c);
    assert(s.drop_first() =~= Seq::<Code>::empty());
    let rest = run(s.drop_first(), o);
    assert(rest == ran_nothing());
    assert(run_one(c, o).trace + rest.trace =~= run_one(c, o).trace);
    if run_one(c, o).end is None {
        assert(run(s, o).trace =~= run_one(c, o).trace);
    }
}

/// The first of the earlier arms `prior` of a chain whose condition holds.
pub open spec fn first_holding(prior: Seq<ChainArm>, o: Outcomes) -> Option<nat>
    decreases prior.len(),
{
    if prior.len() == 0 {
        None
    } else if (o.holds)(Operand::Expr(expr_id(prior[0].cond))) {
        Some(0)
    } else {
        match first_holding(prior.drop_first(), o) {
            Some(k) => Some(k + 1),
            None => None,
        }
    }
}

/// The earlier arms of a chain: the first whose condition holds runs its
/// body and goes on to the join state; when none holds, what remains runs.
proof fn lemma_run_chain(c: Code, prior: Seq<ChainArm>, a: Seq<AwaitPoint>, i: int, o: Outcomes)
    requires
        chain_ok(c, prior, a, i),
    ensures
        match first_holding(prior, o) {
            Some(k) => k < prior.len() && run_one(c, o).trace == sources_of(prior[k as int].body@)
                && (run_one(c, o).end matches Some(g) && joins_at(g, a, i)),
            None => run_one(c, o) == run_one(chain_rest(c, prior), o),
        },
    decreases prior.len(),
{
    if prior.len() > 0 {
        if let Code::If { cond, then_code, else_code: Else::Block(ec) } = c {
            if (o.holds)(cond) {
                lemma_sources_plain(prior[0].body@);
                lemma_run_then(then_code@, sources_of(prior[0].body@), o);
            } else {
                assert(ec@ =~= seq![ec@[0]]);
                lemma_run_single(ec@[0], o);
                lemma_run_chain(ec@[0], prior.drop_first(), a, i, o);
                match first_holding(prior.drop_first(), o) {
                    Some(k) => {
                        assert(prior.drop_first()[k as int] == prior[k + 1int]);
                    },
                    None => {},
                }
            }
        }
    }
}

/// Entering a point whose await is in the `then` branch of `if cond`, the
/// arm of an `if … else if …` chain after the arms `prior`, under any
/// outcome of the conditions. After the statements before the point: when
/// an earlier arm's condition holds, the first such arm's body runs and
/// control goes on to the join state; when none does and `cond` holds, the
/// statements before the await run, the await's base is evaluated and the
/// coroutine suspends in the point's waiting state; otherwise the `else`
/// runs and control goes on to the join state.
pub proof fn lemma_entering_if_then(r: Seq<Code>, a: Seq<AwaitPoint>, i: int, o: Outcomes)
    requires
        0 <= i < a.len(),
        (a[i].kind is IfThen),
        enters(r, a, i),
    ensures
        match a[i].kind {
            SuspendKind::IfThen { prior, cond, before_await, else_branch, .. } => {
                let pre = sources_of(a[i].before@);
                match first_holding(prior@, o) {
                    Some(k) => {
                        &&& run(r, o).trace == pre + sources_of(prior@[k as int].body@)
                        &&& run(r, o).end matches Some(g) && joins_at(g, a, i)
                    },
                    None => if (o.holds)(Operand::Expr(expr_id(*cond))) {
                        &&& run(r, o).trace == pre + sources_of(before_await@).push(eval_piece(a, i))
                        &&& run(r, o).end matches Some(g) && waits_at(g, a, i)
                    } else {
                        &&& run(r, o).trace == pre + else_source(else_branch)
                        &&& run(r, o).end matches Some(g) && joins_at(g, a, i)
                    },
                }
            },
            _ => false,
        },
{
    if let SuspendKind::IfThen { prior, cond, before_await, else_branch, .. } = a[i].kind {
        let pre = sources_of(a[i].before@);
        let t = r.skip(pre.len() as int);
        assert(r =~= pre + t);
        lemma_sources_plain(a[i].before@);
        lemma_run_plain(pre, o);
        lemma_run_concat(pre, t, o);
        assert(t =~= seq![t[0]]);
        lemma_run_single(t[0], o);
        lemma_run_chain(t[0], prior@, a, i, o);
        if first_holding(prior@, o) is None {
            let inner = chain_rest(t[0], prior@);
            if let Code::If { cond: c, then_code, else_code: Else::Block(ec) } = inner {
                if (o.holds)(c) {
                    lemma_sources_plain(before_await@);
                    lemma_run_then_suspend(then_code@, sources_of(before_await@), a, i, o);
                } else {
                    assert(plain(else_source(else_branch)));
                    lemma_run_then(ec@, else_source(else_branch), o);
                }
            }
        }
    }
}

/// Entering a point whose await is in the final `else` block of an `if …
/// else if …` chain, after the arms `prior` and `if cond { then }`, under
/// any outcome of the conditions. After the statements before the point:
/// when an earlier arm's condition holds, the first such arm's body runs
/// and control goes on to the join state; when none does and `cond` holds,
/// `then` runs and control goes on to the join state; otherwise the
/// statements before the await run, the await's base is evaluated and the
/// coroutine suspends in the point's waiting state.
pub proof fn lemma_entering_if_else(r: Seq<Code>, a: Seq<AwaitPoint>, i: int, o: Outcomes)
    requires
        0 <= i < a.len(),
        (a[i].kind is IfElse),
        enters(r, a, i),
    ensures
        match a[i].kind {
            SuspendKind::IfElse { prior, cond, then_branch, before_await, .. } => {
                let pre = sources_of(a[i].before@);
                match first_holding(prior@, o) {
                    Some(k) => {
                        &&& run(r, o).trace == pre + sources_of(prior@[k as int].body@)
                        &&& run(r, o).end matches Some(g) && joins_at(g, a, i)
                    },
                    None => if (o.holds)(Operand::Expr(expr_id(*cond))) {
                        &&& run(r, o).trace == pre + sources_of(then_branch@)
                        &&& run(r, o).end matches Some(g) && joins_at(g, a, i)
                    } else {
                        &&& run(r, o).trace == pre + sources_of(before_await@).push(eval_piece(a, i))
                        &&& run(r, o).end matches Some(g) && waits_at(g, a, i)
                    },
                }
            },
            _ => false,
        },
{
    if let SuspendKind::IfElse { prior, cond, then_branch, before_await, .. } = a[i].kind {
        let pre = sources_of(a[i].before@);
        let t = r.skip(pre.len() as int);
        assert(r =~= pre + t);
        lemma_sources_plain(a[i].before@);
        lemma_run_plain(pre, o);
        lemma_run_concat(pre, t, o);
        assert(t =~= seq![t[0]]);
        lemma_run_single(t[0], o);
        lemma_run_chain(t[0], prior@, a, i, o);
        if first_holding(prior@, o) is None {
            let inner = chain_rest(t[0], prior@);
            if let Code::If { cond: c, then_code, else_code: Else::Block(ec) } = inner {
                if (o.holds)(c) {
                    lemma_sources_plain(then_branch@);
                    lemma_run_then(then_code@, sources_of(then_branch@), o);
                } else {
                    lemma_sources_plain(before_await@);
                    lemma_run_then_suspend(ec@, sources_of(before_await@), a, i, o);
                }
            }
        }
    }
}

/// The heads of the arms of the `match` of a point whose await is in one
/// arm's body: the arms before it and after it as written, and between them
/// the suspending arm's pattern and guard.
pub open spec fn match_arm_heads(k: SuspendKind) -> Seq<ArmHead> {
    match k {
        SuspendKind::MatchArm { arms_before, sus_pat, sus_guard, arms_after, .. } => source_heads(arms_before@).push(
            ArmHead::Pat { pat: pat_id(sus_pat), guard: crate::steps::guard_id(sus_guard) },
        ) + source_heads(arms_after@),
        _ => Seq::empty(),
    }
}

/// The arm a `match` on the scrutinee of point `i` takes is one of its arms.
pub open spec fn takes_an_arm(k: SuspendKind, o: Outcomes) -> bool {
    match k {
        SuspendKind::MatchArm { scrutinee, .. } => first_match(o, Operand::Expr(expr_id(*scrutinee)), match_arm_heads(k))
            < match_arm_heads(k).len(),
        _ => false,
    }
}

/// Entering a point whose await is in the body of one arm of a `match`,
/// under any outcome of the match, which takes the first arm whose pattern
/// and guard match. After the statements before the point: when an arm
/// before or after the suspending one is taken, its body runs
/// and control goes on to the join state; when the suspending arm is taken,
/// the statements before the await run, the await's base is evaluated and
/// the coroutine suspends in the point's waiting state.
pub proof fn lemma_entering_match_arm(r: Seq<Code>, a: Seq<AwaitPoint>, i: int, o: Outcomes)
    requires
        0 <= i < a.len(),
        takes_an_arm(a[i].kind, o),
        enters(r, a, i),
    ensures
        match a[i].kind {
            SuspendKind::MatchArm { scrutinee, arms_before, before_await, arms_after, .. } => {
                let pre = sources_of(a[i].before@);
                let j = first_match(o, Operand::Expr(expr_id(*scrutinee)), match_arm_heads(a[i].kind)) as int;
                let nb = arms_before@.len() as int;
                if j < nb {
                    &&& run(r, o).trace == pre + body_code(arms_before@[j].body)
                    &&& run(r, o).end matches Some(g) && joins_at(g, a, i)
                } else if j == nb {
                    &&& run(r, o).trace == pre + sources_of(before_await@).push(eval_piece(a, i))
                    &&& run(r, o).end matches Some(g) && waits_at(g, a, i)
                } else {
                    &&& run(r, o).trace == pre + body_code(arms_after@[j - nb - 1].body)
                    &&& run(r, o).end matches Some(g) && joins_at(g, a, i)
                }
            },
            _ => false,
        },
{
    if let SuspendKind::MatchArm { scrutinee, arms_before, before_await, arms_after, .. } = a[i].kind {
        let pre = sources_of(a[i].before@);
        let t = r.skip(pre.len() as int);
        assert(r =~= pre + t);
        lemma_sources_plain(a[i].before@);
        lemma_run_plain(pre, o);
        lemma_run_concat(pre, t, o);
        assert(t =~= seq![t[0]]);
        lemma_run_single(t[0], o);
        let nb = arms_before@.len() as int;
        if let Code::Match { arms, .. } = t[0] {
            lemma_match_arm_heads(arms@, a, i);
            let j = first_match(o, Operand::Expr(expr_id(*scrutinee)), match_arm_heads(a[i].kind)) as int;
            let x = arms@[j];
            if j < nb {
                assert(arms@.take(nb)[j] == x);
                assert(runs_then_joins(arms@.take(nb)[j], arms_before@[j], a, i));
                let e = arms_before@[j].body;
                assert(plain(body_code(e)));
                if let ArmBody::Code(b) = x.body {
                    lemma_run_then(b@, body_code(e), o);
                }
            } else if j == nb {
                if let ArmBody::Code(b) = x.body {
                    lemma_sources_plain(before_await@);
                    lemma_run_then_suspend(b@, sources_of(before_await@), a, i, o);
                }
            } else {
                let m = j - nb - 1;
                assert(arms@.skip(nb + 1)[m] == x);
                assert(runs_then_joins(arms@.skip(nb + 1)[m], arms_after@[m], a, i));
                let e = arms_after@[m].body;
                assert(plain(body_code(e)));
                if let ArmBody::Code(b) = x.body {
                    lemma_run_then(b@, body_code(e), o);
                }
            }
        }
    }
}

/// The heads of the inner `match` of a point whose await is one arm's whole
/// guard: the suspending arm's pattern, without its guard, then the arms
/// after it as written.
pub open spec fn guard_inner_heads(k: SuspendKind) -> Seq<ArmHead> {
    match k {
        SuspendKind::MatchGuard { sus_pat, arms_after, .. } => seq![ArmHead::Pat { pat: pat_id(sus_pat), guard: None }]
            + source_heads(arms_after@),
        _ => Seq::empty(),
    }
}

/// A `match` whose arm `sus_arm` has an awaited guard takes some arm: one
/// before the suspending arm, the suspending arm's pattern, or one after.
pub open spec fn guard_takes_an_arm(k: SuspendKind, o: Outcomes) -> bool {
    match k {
        SuspendKind::MatchGuard { arms_before, .. } => first_match(o, Operand::CloneScrut, source_heads(arms_before@))
            < arms_before@.len() || first_match(o, Operand::CloneScrut, guard_inner_heads(k)) < guard_inner_heads(k).len(),
        _ => false,
    }
}

/// Entering a point whose await is the whole guard of one arm of a
/// `match`, under any outcome of the match. After the statements before the
/// point, the scrutinee is evaluated once into a local; then the arms before
/// the suspending one are tested in order, each with its pattern and guard,
/// and the first that matches runs its body and goes on to the join state.
/// When none matches and the suspending arm's pattern does, the guard's
/// base is evaluated and the coroutine suspends in the point's waiting
/// state. Otherwise the arms after it are tested in order, and the first
/// that matches runs its body and goes on to the join state.
pub proof fn lemma_entering_match_guard(r: Seq<Code>, a: Seq<AwaitPoint>, i: int, o: Outcomes)
    requires
        0 <= i < a.len(),
        guard_takes_an_arm(a[i].kind, o),
        enters(r, a, i),
    ensures
        match a[i].kind {
            SuspendKind::MatchGuard { scrutinee, scrut_ty, arms_before, arms_after, .. } => {
                let pre = sources_of(a[i].before@).push(Code::LetScrut { ty: scrut_ty, expr: expr_id(*scrutinee) });
                let nb = arms_before@.len() as int;
                let k = first_match(o, Operand::CloneScrut, source_heads(arms_before@)) as int;
                let m = first_match(o, Operand::CloneScrut, guard_inner_heads(a[i].kind)) as int;
                if k < nb {
                    &&& run(r, o).trace == pre + body_code(arms_before@[k].body)
                    &&& run(r, o).end matches Some(g) && joins_at(g, a, i)
                } else if m == 0 {
                    &&& run(r, o).trace == pre.push(eval_piece(a, i))
                    &&& run(r, o).end matches Some(g) && waits_at(g, a, i)
                } else {
                    &&& run(r, o).trace == pre + body_code(arms_after@[m - 1].body)
                    &&& run(r, o).end matches Some(g) && joins_at(g, a, i)
                }
            },
            _ => false,
        },
{
    if let SuspendKind::MatchGuard { scrutinee, scrut_ty, arms_before, arms_after, .. } = a[i].kind {
        let pre0 = sources_of(a[i].before@);
        let t = r.skip(pre0.len() as int);
        assert(r =~= pre0 + t);
        lemma_sources_plain(a[i].before@);
        lemma_run_plain(pre0, o);
        lemma_run_concat(pre0, t, o);
        assert(t =~= seq![t[0]] + seq![t[1]]);
        lemma_run_concat(seq![t[0]], seq![t[1]], o);
        lemma_run_single(t[0], o);
        lemma_run_single(t[1], o);
        let nb = arms_before@.len() as int;
        let sh = source_heads(arms_before@);
        let k = first_match(o, Operand::CloneScrut, sh) as int;
        let m = first_match(o, Operand::CloneScrut, guard_inner_heads(a[i].kind)) as int;
        lemma_first_match_concat(o, Operand::CloneScrut, sh, seq![ArmHead::Wild]);
        if let Code::Match { arms, .. } = t[1] {
            assert forall|j: int| 0 <= j < arms@.len() implies heads(arms@)[j] == sh.push(ArmHead::Wild)[j] by {
                if j < nb {
                    assert(arms@.take(nb)[j] == arms@[j]);
                    assert(runs_then_joins(arms@.take(nb)[j], arms_before@[j], a, i));
                }
            }
            assert(heads(arms@) =~= sh + seq![ArmHead::Wild]);
            assert(first_match(o, Operand::CloneScrut, seq![ArmHead::Wild]) == 0);
            let j = first_match(o, Operand::CloneScrut, heads(arms@)) as int;
            if k < nb {
                assert(j == k);
                let x = arms@[j];
                assert(arms@.take(nb)[j] == x);
                assert(runs_then_joins(arms@.take(nb)[j], arms_before@[j], a, i));
                let e = arms_before@[j].body;
                assert(plain(body_code(e)));
                if let ArmBody::Code(b) = x.body {
                    lemma_run_then(b@, body_code(e), o);
                }
                assert(run(r, o).trace =~= pre0.push(Code::LetScrut { ty: scrut_ty, expr: expr_id(*scrutinee) }) + body_code(e));
            } else {
                assert(j == nb);
                if let ArmBody::Code(fb) = arms@[nb].body {
                    assert(fb@ =~= seq![fb@[0]]);
                    lemma_run_single(fb@[0], o);
                    if let Code::Match { arms: inner, .. } = fb@[0] {
                        let ih = guard_inner_heads(a[i].kind);
                        assert forall|q: int| 0 <= q < inner@.len() implies heads(inner@)[q] == ih[q] by {
                            if q > 0 {
                                assert(inner@.skip(1)[q - 1] == inner@[q]);
                                assert(runs_then_joins(inner@.skip(1)[q - 1], arms_after@[q - 1], a, i));
                            }
                        }
                        assert(heads(inner@) =~= ih);
                        if m == 0 {
                            if let ArmBody::Code(g) = inner@[0].body {
                                assert(g@.take(0) =~= Seq::<Code>::empty());
                                assert(g@.skip(0) =~= g@);
                                lemma_run_then_suspend(g@, Seq::empty(), a, i, o);
                                assert(Seq::<Code>::empty().push(eval_piece(a, i)) =~= seq![eval_piece(a, i)]);
                            }
                            assert(run(r, o).trace =~= pre0.push(Code::LetScrut { ty: scrut_ty, expr: expr_id(*scrutinee) }).push(eval_piece(a, i)));
                        } else {
                            let q = m - 1;
                            assert(inner@.skip(1)[q] == inner@[m]);
                            assert(runs_then_joins(inner@.skip(1)[q], arms_after@[q], a, i));
                            let e = arms_after@[q].body;
                            assert(plain(body_code(e)));
                            if let ArmBody::Code(b) = inner@[m].body {
                                lemma_run_then(b@, body_code(e), o);
                            }
                            assert(run(r, o).trace =~= pre0.push(Code::LetScrut { ty: scrut_ty, expr: expr_id(*scrutinee) }) + body_code(e));
                        }
                    }
                }
            }
        }
    }
}

/// The generated arms of a point whose await is in one arm's body have the
/// heads of the source arms.
proof fn lemma_match_arm_heads(arms: Seq<ArmCode>, a: Seq<AwaitPoint>, i: int)
    requires
        0 <= i < a.len(),
        a[i].kind matches SuspendKind::MatchArm { arms_before, sus_pat, sus_guard, arms_after, .. } && {
            let nb = arms_before@.len() as int;
            &&& arms.len() == nb + 1 + arms_after@.len()
            &&& all_run_then_join(arms.take(nb), arms_before@, a, i)
            &&& arms[nb].head == (ArmHead::Pat { pat: pat_id(sus_pat), guard: crate::steps::guard_id(sus_guard) })
            &&& all_run_then_join(arms.skip(nb + 1), arms_after@, a, i)
        },
    ensures
        heads(arms) == match_arm_heads(a[i].kind),
{
    if let SuspendKind::MatchArm { arms_before, arms_after, .. } = a[i].kind {
        let nb = arms_before@.len() as int;
        let mh = match_arm_heads(a[i].kind);
        assert forall|k: int| 0 <= k < arms.len() implies heads(arms)[k] == mh[k] by {
            if k < nb {
                assert(arms.take(nb)[k] == arms[k]);
                assert(runs_then_joins(arms.take(nb)[k], arms_before@[k], a, i));
            } else if k > nb {
                assert(arms.skip(nb + 1)[k - nb - 1] == arms[k]);
                assert(runs_then_joins(arms.skip(nb + 1)[k - nb - 1], arms_after@[k - nb - 1], a, i));
            }
        }
        assert(heads(arms) =~= mh);
    }
}

/// Whether a point suspends as soon as it is reached: an awaiting `let`,
/// an `if` whose condition is awaited, or a `match` whose scrutinee is.
pub open spec fn suspends_at_once(k: SuspendKind) -> bool {
    k is Plain || k is IfCondition || k is MatchScrutinee
}

/// Entering a point that suspends as soon as it is reached runs the
/// statements before it, evaluates the await's base and suspends in the
/// point's waiting state, whatever the outcomes of the tests.
pub proof fn lemma_entering_suspends(r: Seq<Code>, a: Seq<AwaitPoint>, i: int, o: Outcomes)
    requires
        0 <= i < a.len(),
        suspends_at_once(a[i].kind),
        enters(r, a, i),
    ensures
        run(r, o).trace == sources_of(a[i].before@).push(eval_piece(a, i)),
        run(r, o).end matches Some(g) && waits_at(g, a, i),
{
    let pre = sources_of(a[i].before@);
    lemma_sources_plain(a[i].before@);
    lemma_run_then_suspend(r, pre, a, i, o);
}

/// Entering a `loop` or `while` point runs the statements before it and
/// goes on to the loop's head state, whatever the outcomes of the tests.
pub proof fn lemma_entering_loop(r: Seq<Code>, a: Seq<AwaitPoint>, i: int, o: Outcomes)
    requires
        0 <= i < a.len(),
        (a[i].kind is Loop),
        enters(r, a, i),
    ensures
        run(r, o).trace == sources_of(a[i].before@),
        run(r, o).end matches Some(g) && heads_at(g, a, i),
{
    let pre = sources_of(a[i].before@);
    lemma_sources_plain(a[i].before@);
    assert(r.last() == r.skip(pre.len() as int)[0]);
    lemma_run_then(r, pre, o);
}

/// Whether a point resumes an awaiting `let` that is no `let … else` and
/// drives no child coroutine.
pub open spec fn resumes_plain_let(k: SuspendKind) -> bool {
    match k {
        SuspendKind::Plain { resume } => kind_child(k) is None && match resume.stmt {
            Stmt::Local { diverge: Some(_), .. } => false,
            _ => true,
        },
        _ => false,
    }
}

/// Resuming the waiting state of an awaiting `let` at point `i`. When a
/// skipped local it keeps needs rehydration, the rehydration check ends the
/// step and nothing runs. Otherwise the settled value is taken, the `let` runs
/// with it in its await's place, and then the step goes on exactly as the
/// code after the point does: it enters the next point, or, after the last
/// point, runs the remaining statements and finishes.
pub proof fn lemma_resuming_plain(b: Seq<Code>, a: Seq<AwaitPoint>, l: Seq<Stmt>, i: int, o: Outcomes)
    requires
        0 <= i < a.len(),
        resumes_plain_let(a[i].kind),
        wait_arm_code(b, a, l, i),
    ensures
        ({
            let g: int = if skip_only(caps_at(a, i)).len() > 0 { 1 } else { 0 };
            let after = b.skip(g + 2);
            &&& g + 2 <= b.len()
            &&& continues_after(after, a, l, i)
            &&& if some_missing(a, i, o) {
                run(b, o) == (Run { trace: Seq::<Code>::empty(), end: Some(b[0]) })
            } else {
                &&& b[g] matches Code::TakeWait(t) && t@ == a[i].tmp@
                &&& (a[i].kind matches SuspendKind::Plain { resume } && resumes(b[g + 1], resume, a[i].tmp@))
                &&& run(b, o).trace == seq![b[g], b[g + 1]] + run(after, o).trace
                &&& run(b, o).end == run(after, o).end
            }
        }),
{
    let g: int = if skip_only(caps_at(a, i)).len() > 0 { 1 } else { 0 };
    let rest = b.skip(g + 1);
    assert(rest.take(1)[0] == b[g + 1]);
    assert(rest.skip(1) =~= b.skip(g + 2));
    let after = b.skip(g + 2);
    let two = seq![b[g], b[g + 1]];
    assert(run(two, o) == (Run { trace: two, end: None })) by {
        assert(two[0] == b[g]);
        assert(two.drop_first() =~= seq![b[g + 1]]);
        lemma_run_single(b[g + 1], o);
        lemma_run_single(b[g], o);
        assert(seq![b[g]] + seq![b[g + 1]] =~= two);
        lemma_run_concat(seq![b[g]], seq![b[g + 1]], o);
    }
    lemma_run_concat(two, after, o);
    if g == 1 {
        assert(b =~= seq![b[0]] + (two + after));
        lemma_run_concat(seq![b[0]], two + after, o);
        lemma_run_single(b[0], o);
        if some_missing(a, i, o) {
            assert(run(b, o).trace =~= Seq::<Code>::empty());
        } else {
            assert(Seq::<Code>::empty() + run(two + after, o).trace =~= run(two + after, o).trace);
        }
    } else {
        assert(name_seq(skip_only(caps_at(a, i))) =~= Seq::<Seq<char>>::empty());
        assert(b =~= two + after);
    }
}

/// Entering a `for` point: after the statements before it, when the
/// iterable is awaited, its base is evaluated and the coroutine suspends in
/// the state that waits for the iterable; otherwise the iterator is made
/// from the iterable and control goes on to the loop's head state. The
/// outcomes of the tests play no part.
pub proof fn lemma_entering_for(r: Seq<Code>, a: Seq<AwaitPoint>, i: int, o: Outcomes)
    requires
        0 <= i < a.len(),
        (a[i].kind is For),
        enters(r, a, i),
    ensures
        match a[i].kind {
            SuspendKind::For { iter_await_base, .. } => {
                let pre = sources_of(a[i].before@);
                match iter_await_base {
                    Some(b) => {
                        &&& run(r, o).trace == pre.push(Code::EvalBase(crate::split::Base::Expr(b)))
                        &&& run(r, o).end matches Some(g) && goes_to(
                            g,
                            "WaitingIter"@ + crate::text::decimal(i as nat),
                            name_seq(crate::plan::join_at(a, i)),
                            true,
                            true,
                        )
                    },
                    None => {
                        &&& run(r, o).trace == pre.push(r[pre.len() as int])
                        &&& r[pre.len() as int] is IterFrom
                        &&& run(r, o).end matches Some(g) && heads_at(g, a, i)
                    },
                }
            },
            _ => false,
        },
{
    let pre = sources_of(a[i].before@);
    lemma_sources_plain(a[i].before@);
    let t = r.skip(pre.len() as int);
    assert(r =~= pre + t);
    lemma_run_plain(pre, o);
    lemma_run_concat(pre, t, o);
    assert(t =~= seq![t[0]] + seq![t[1]]);
    lemma_run_concat(seq![t[0]], seq![t[1]], o);
    lemma_run_single(t[0], o);
    lemma_run_goto(t[1], o);
    assert(run(t, o).trace =~= seq![t[0]]);
    assert(run(r, o).trace =~= pre.push(t[0]));
}

/// Resuming the waiting state of an awaiting `let … else` at point `i`,
/// with every skipped local it keeps present: the settled value is taken
/// and the statement runs with it in its await's place. When its pattern
/// matches, the step goes on exactly as the code after the point does;
/// otherwise its `else` block runs, rewritten so that a `return;` finishes
/// the coroutine, and what ends the block ends the step.
pub proof fn lemma_resuming_let_else(b: Seq<Code>, a: Seq<AwaitPoint>, l: Seq<Stmt>, i: int, o: Outcomes)
    requires
        0 <= i < a.len(),
        (a[i].kind is Plain),
        !resumes_plain_let(a[i].kind),
        kind_child(a[i].kind) is None,
        wait_arm_code(b, a, l, i),
        !some_missing(a, i, o),
    ensures
        ({
            let g: int = if skip_only(caps_at(a, i)).len() > 0 { 1 } else { 0 };
            let after = b.skip(g + 2);
            &&& g + 2 <= b.len()
            &&& continues_after(after, a, l, i)
            &&& b[g] matches Code::TakeWait(t) && t@ == a[i].tmp@
            &&& b[g + 1] matches Code::LetElse { tmp, else_code, .. } && tmp@ == a[i].tmp@ && (
            a[i].kind matches SuspendKind::Plain { resume } && (resume.stmt matches Stmt::Local { diverge: Some(d), .. }
                && return_rewrites_ok(else_code@, d@))) && if (o.holds)(Operand::Local(tmp)) {
                &&& run(b, o).trace == seq![b[g], b[g + 1]] + run(after, o).trace
                &&& run(b, o).end == run(after, o).end
            } else {
                run(else_code@, o).end is Some ==> {
                    &&& run(b, o).trace == seq![b[g]] + run(else_code@, o).trace
                    &&& run(b, o).end == run(else_code@, o).end
                }
            }
        }),
{
    let g: int = if skip_only(caps_at(a, i)).len() > 0 { 1 } else { 0 };
    let rest = b.skip(g + 1);
    assert(rest.take(1)[0] == b[g + 1]);
    assert(rest.skip(1) =~= b.skip(g + 2));
    let after = b.skip(g + 2);
    let tail = seq![b[g]] + (seq![b[g + 1]] + after);
    lemma_run_single(b[g], o);
    lemma_run_single(b[g + 1], o);
    lemma_run_concat(seq![b[g]], seq![b[g + 1]] + after, o);
    lemma_run_concat(seq![b[g + 1]], after, o);
    if let Code::LetElse { tmp, else_code, .. } = b[g + 1] {
        if (o.holds)(Operand::Local(tmp)) {
            assert(run(seq![b[g + 1]] + after, o).trace == seq![b[g + 1]] + run(after, o).trace);
            assert(run(tail, o).trace =~= seq![b[g], b[g + 1]] + run(after, o).trace);
        } else if run(else_code@, o).end is Some {
            assert(run(seq![b[g + 1]] + after, o) == run(else_code@, o));
        }
    }
    if g == 1 {
        assert(b =~= seq![b[0]] + tail);
        lemma_run_concat(seq![b[0]], tail, o);
        lemma_run_single(b[0], o);
        assert(Seq::<Code>::empty() + run(tail, o).trace =~= run(tail, o).trace);
    } else {
        assert(b =~= tail);
    }
}

/// Entering an awaiting `let` whose await calls a function `f` with
/// arguments whose types can be told runs the statements before it,
/// evaluates the arguments of the call into the effect variant `Call<F>`,
/// and ends the step reporting that call, in the point's waiting state
/// with an empty settle slot for the value the host computes.
pub proof fn lemma_entering_effect(r: Seq<Code>, a: Seq<AwaitPoint>, i: int, o: Outcomes)
    requires
        0 <= i < a.len(),
        (a[i].kind is Plain),
        point_effect(a, i) is Some,
        enters(r, a, i),
    ensures
        run(r, o).trace == sources_of(a[i].before@).push(Code::EvalEffect { point: i as usize }),
        run(r, o).end matches Some(g) && (g matches Code::Goto { target, moves, wait_none: true, suspend: true, effect: true }
            && target@ == waiting_name(a, i) && crate::steps::text_seq(moves@) == name_seq(caps_at(a, i))),
        point_effect(a, i) matches Some((v, args, tys)) && (awaited_base(a[i].kind) matches Some(b) && (call_of(b)
            matches Some((f, xs)) && v == "Call"@ + crate::text::upper_camel(f) && xs == args && tys.len() == args.len())),
{
    lemma_entering_suspends(r, a, i, o);
    if let Some(b) = awaited_base(a[i].kind) {
        if let Some((f, xs)) = call_of(b) {
            lemma_args_tys_len(xs, caps_at(a, i));
        }
    }
}

/// Resuming the waiting state of point `i` when a skipped local it keeps
/// needs rehydration: the check at the start of its arm ends the step
/// before anything else runs, putting back the same waiting state with all
/// its locals and, where it has one, its settle slot as it was; the step's
/// error is what `rehydrate` reports for that state, which checks the same
/// locals in the same order, so it names the first of them that needs
/// rehydration and is never success.
pub proof fn lemma_resuming_unhydrated(b: Seq<Code>, a: Seq<AwaitPoint>, l: Seq<Stmt>, i: int, o: Outcomes)
    requires
        0 <= i < a.len(),
        wait_arm_code(b, a, l, i),
        some_missing(a, i, o),
    ensures
        skip_only(caps_at(a, i)).len() > 0,
        guards_at(b[0], a, i),
        run(b, o) == (Run { trace: Seq::<Code>::empty(), end: Some(b[0]) }),
        rehydrate_report(name_seq(skip_only(caps_at(a, i))), o.missing) matches Some(j) && ({
            let c = name_seq(skip_only(caps_at(a, i)));
            &&& j < c.len()
            &&& (o.missing)(c[j as int])
            &&& forall|k: int| 0 <= k < j ==> !(o.missing)(#[trigger] c[k])
        }),
{
    let c = name_seq(skip_only(caps_at(a, i)));
    if skip_only(caps_at(a, i)).len() == 0 {
        assert(c =~= Seq::<Seq<char>>::empty());
    }
    lemma_rehydrate_reports_first_missing(c, o.missing);
    assert(b =~= seq![b[0]] + b.skip(1));
    lemma_run_concat(seq![b[0]], b.skip(1), o);
    lemma_run_single(b[0], o);
}

/// Resuming the waiting state of a point that drives a child coroutine,
/// with every skipped local it keeps present: the child is stepped. While
/// it is not ready, the step ends there, putting back the same waiting
/// state with all its locals (the child among them) and passing on the
/// child's `Pending` or, as a nested effect of the parent, its effect.
/// Once it is ready, its value takes the await's place and the point
/// resumes and ends as a settled awaiting `let` does.
pub proof fn lemma_resuming_child(b: Seq<Code>, a: Seq<AwaitPoint>, l: Seq<Stmt>, i: int, o: Outcomes)
    requires
        0 <= i < a.len(),
        kind_child(a[i].kind) is Some,
        wait_arm_code(b, a, l, i),
        !some_missing(a, i, o),
    ensures
        ({
            let g: int = if skip_only(caps_at(a, i)).len() > 0 { 1 } else { 0 };
            &&& b.len() == g + 1
            &&& steps_child(b[g], a, l, i, kind_child(a[i].kind)->Some_0)
            &&& b[g] matches Code::StepChild { variant, fields, tmp, ready, .. } && if (o.holds)(Operand::Local(tmp)) {
                run(b, o) == run(ready@, o)
            } else {
                &&& run(b, o) == (Run { trace: Seq::<Code>::empty(), end: Some(b[g]) })
                &&& variant@ == waiting_name(a, i)
                &&& text_seq(fields@) == name_seq(caps_at(a, i))
            }
        }),
{
    let g: int = if skip_only(caps_at(a, i)).len() > 0 { 1 } else { 0 };
    lemma_run_single(b[g], o);
    if g == 1 {
        assert(b =~= seq![b[0]] + seq![b[1]]);
        lemma_run_concat(seq![b[0]], seq![b[1]], o);
        lemma_run_single(b[0], o);
        assert(Seq::<Code>::empty() + run(seq![b[1]], o).trace =~= run(seq![b[1]], o).trace);
    } else {
        assert(b =~= seq![b[0]]);
    }
}

proof fn lemma_args_tys_len(args: Seq<crate::syntax::Expr>, env: Seq<crate::bindings::BindingView>)
    ensures
        args_tys(args, env) matches Some(tys) ==> tys.len() == args.len(),
    decreases args.len(),
{
    if args.len() > 0 {
        lemma_args_tys_len(args.drop_first(), env);
    }
}

} // verus!

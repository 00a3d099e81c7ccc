//! Laws that tie the states of a plan to what `settle_wait`, `rehydrate`
//! and the getters do in them, and to the locals the states keep.
use vstd::prelude::*;
use crate::bindings::{let_binding, skips_serde, upsert, BindingView};
use crate::syntax::{Hint, Stmt};
use crate::expand::{plan_of, Plan};
use crate::plan::{
    all_kept, all_variants, caps_at, getters_of, has_iter_await, has_name, is_internal, point_states_with,
    record_lets, states_with_from, upsert_names, Getter, GetterView, all_skips, point_rehyd_arms,
    rehyd_arms_from, skip_only, RehydArmView, all_of_caps, all_of_joins, upsert_all, head_caps, is_loop_kind, iter_ty_of, join_at, join_name,
    point_settles, point_variants, settles_from, wait_slot, waits, RehydArm, SettleArm, Variant,
    VariantView,
};
use crate::split::{needs_join_kind, SuspendKind};
use crate::steps::{lemma_offsets_bound, lemma_variants_suffix, state_offset};
use crate::syntax::{FnModel, Ty};
use crate::text::{decimal, upper_camel};

verus! {

// ---------------------------------------------------------------------------
// Where the states of a point stand.

/// The index, among the states of point `i`, of its waiting state.
pub open spec fn waiting_at(k: SuspendKind) -> int {
    if has_iter_await(k) { 1 } else { 0 }
}

/// The index, among the states of point `i`, of its loop head.
pub open spec fn head_at(k: SuspendKind) -> int {
    waiting_at(k) + if waits(k) { 1int } else { 0int }
}

/// The index, among the states of point `i`, of its join state.
pub open spec fn join_at_index(k: SuspendKind) -> int {
    head_at(k) + if is_loop_kind(k) { 1int } else { 0int }
}

/// The states of point `i`, one by one: the state waiting for an awaited
/// range, its waiting state, its loop head and its join state, each where
/// the point has one, in that order.
pub proof fn lemma_point_states(a: Seq<AwaitPoint>, i: int)
    requires
        0 <= i < a.len(),
    ensures
        ({
            let k = a[i].kind;
            let pv = point_variants(a, i);
            let join = join_at(a, i);
            &&& pv.len() == join_at_index(k) + if needs_join_kind(k) { 1int } else { 0int }
            &&& has_iter_await(k) ==> pv[0] == (VariantView {
                name: "WaitingIter"@ + decimal(i as nat),
                fields: join,
                wait: Some(iter_ty_of(k)),
            })
            &&& waits(k) ==> pv[waiting_at(k)] == (VariantView {
                name: "Waiting"@ + upper_camel(a[i].name@),
                fields: caps_at(a, i),
                wait: wait_slot(a, i),
            })
            &&& is_loop_kind(k) ==> pv[head_at(k)] == (VariantView {
                name: "LoopHead"@ + decimal(i as nat),
                fields: head_caps(k, join),
                wait: None,
            })
            &&& needs_join_kind(k) ==> pv[join_at_index(k)] == (VariantView {
                name: join_name(k, i as nat),
                fields: join,
                wait: None,
            })
        }),
{
}

use crate::split::AwaitPoint;

/// The position among all states of the `j`-th state of point `i`.
pub open spec fn state_index(a: Seq<AwaitPoint>, i: int, j: int) -> int {
    state_offset(a, i) + j
}

/// Every state but `NotStarted` and `Finished` is one of the states of a point.
pub proof fn lemma_state_of_point(a: Seq<AwaitPoint>, m: int)
    requires
        1 <= m < all_variants(a).len() - 1,
    ensures
        exists|i: int, j: int|
            0 <= i < a.len() && 0 <= j < point_variants(a, i).len() && m == #[trigger] state_index(a, i, j),
{
    lemma_from_point(a, 0, m - 1);
}

proof fn lemma_from_point(a: Seq<AwaitPoint>, i: int, t: int)
    requires
        0 <= i <= a.len(),
        0 <= t < crate::plan::variants_from(a, i).len(),
    ensures
        exists|i2: int, j: int|
            i <= i2 < a.len() && 0 <= j < point_variants(a, i2).len() && #[trigger] state_index(a, i2, j)
                == all_variants(a).len() - crate::plan::variants_from(a, i).len() - 1 + t,
    decreases a.len() - i,
{
    if i < a.len() {
        let pv = point_variants(a, i);
        assert(crate::plan::variants_from(a, i) == pv + crate::plan::variants_from(a, i + 1));
        if t < pv.len() {
            assert(state_index(a, i, t) == all_variants(a).len() - crate::plan::variants_from(a, i).len() - 1 + t);
        } else {
            lemma_from_point(a, i + 1, t - pv.len());
        }
    }
}

/// The arms of `settle_wait` of point `i`: for an awaited range, then for
/// its own await, each where the point has one.
pub proof fn lemma_point_settle_arms(a: Seq<AwaitPoint>, i: int)
    requires
        0 <= i < a.len(),
    ensures
        ({
            let k = a[i].kind;
            let ps = point_settles(a, i);
            &&& ps.len() == waiting_at(k) + if waits(k) { 1int } else { 0int }
            &&& has_iter_await(k) ==> ps[0] == (crate::plan::SettleView {
                variant: "WaitingIter"@ + decimal(i as nat),
                ty: iter_ty_of(k),
                by_clone: true,
                forward: false,
            })
            &&& waits(k) ==> ps[waiting_at(k)] == (crate::plan::SettleView {
                variant: "Waiting"@ + upper_camel(a[i].name@),
                ty: a[i].wait_ty,
                by_clone: false,
                forward: crate::split::kind_child(k) is Some,
            })
        }),
{
}

proof fn lemma_point_settles_in(a: Seq<AwaitPoint>, i0: int, i: int, q: int)
    requires
        0 <= i0 <= i < a.len(),
        0 <= q < point_settles(a, i).len(),
    ensures
        exists|t: int| 0 <= t < settles_from(a, i0).len() && #[trigger] settles_from(a, i0)[t] == point_settles(a, i)[q],
    decreases i - i0,
{
    let here = point_settles(a, i0);
    assert(settles_from(a, i0) == here + settles_from(a, i0 + 1));
    if i0 == i {
        assert(settles_from(a, i0)[q] == point_settles(a, i)[q]);
    } else {
        lemma_point_settles_in(a, i0 + 1, i, q);
        let t = choose|t: int| 0 <= t < settles_from(a, i0 + 1).len() && #[trigger] settles_from(a, i0 + 1)[t] == point_settles(a, i)[q];
        assert(settles_from(a, i0)[here.len() + t] == settles_from(a, i0 + 1)[t]);
    }
}

/// The state at position `m` of a plan, by its position among the states
/// of its point.
proof fn lemma_plan_state(p: Plan, m: int) -> (ij: (int, int))
    requires
        p.variants@.map_values(|v: Variant| v@) == all_variants(p.points@),
        1 <= m < p.variants@.len() - 1,
    ensures
        0 <= ij.0 < p.points@.len(),
        0 <= ij.1 < point_variants(p.points@, ij.0).len(),
        m == state_index(p.points@, ij.0, ij.1),
        p.variants@[m]@ == point_variants(p.points@, ij.0)[ij.1],
{
    let a = p.points@;
    assert(p.variants@.map_values(|v: Variant| v@)[m] == p.variants@[m]@);
    lemma_state_of_point(a, m);
    let (i, j) = choose|i: int, j: int|
        0 <= i < a.len() && 0 <= j < point_variants(a, i).len() && m == #[trigger] state_index(a, i, j);
    lemma_variants_suffix(a, i);
    assert(all_variants(a)[state_offset(a, i) + j] == point_variants(a, i)[j]);
    (i, j)
}


/// The state at the `j`-th place of point `i` waits for an awaited range
/// exactly when it is the first state of a `for` whose range is awaited.
proof fn lemma_range_wait_at(a: Seq<AwaitPoint>, i: int, j: int)
    requires
        0 <= i < a.len(),
        0 <= j < point_variants(a, i).len(),
    ensures
        is_range_wait(a, state_index(a, i, j)) == (has_iter_await(a[i].kind) && j == 0),
{
    let m = state_index(a, i, j);
    lemma_point_states(a, i);
    if has_iter_await(a[i].kind) && j == 0 {
        assert(m == state_index(a, i, 0));
    }
    if is_range_wait(a, m) {
        let i2 = choose|i2: int| 0 <= i2 < a.len() && has_iter_await(a[i2].kind) && m == #[trigger] state_index(a, i2, 0);
        lemma_point_states(a, i2);
        if i2 < i {
            crate::steps::lemma_offsets_grow(a, i2, i);
        } else if i2 > i {
            crate::steps::lemma_offsets_grow(a, i, i2);
        }
    }
}

/// Every state of a plan that holds a settle slot has an arm of
/// `settle_wait` for it: one that names the state, takes a value of the
/// slot's type and stores it in the slot, a clone of it exactly for the
/// state waiting for the awaited range of a `for` (a range is not `Copy`).
pub proof fn lemma_every_slot_is_settled(f: FnModel, pos: Seq<nat>, p: Plan, m: int)
    requires
        plan_of(f, pos, p),
        0 <= m < p.variants@.len(),
        p.variants@[m]@.wait is Some,
    ensures
        exists|s: int|
            0 <= s < p.settle_arms@.len() && #[trigger] p.settle_arms@[s]@.variant == p.variants@[m]@.name
                && p.settle_arms@[s]@.ty == p.variants@[m]@.wait->Some_0 && !p.settle_arms@[s]@.forward
                && p.settle_arms@[s]@.by_clone == is_range_wait(p.points@, m),
{
    lemma_slot_settled(p, m);
}

proof fn lemma_slot_settled(p: Plan, m: int)
    requires
        p.variants@.map_values(|v: Variant| v@) == all_variants(p.points@),
        p.settle_arms@.map_values(|s: SettleArm| s@) == settles_from(p.points@, 0),
        0 <= m < p.variants@.len(),
        p.variants@[m]@.wait is Some,
    ensures
        exists|s: int|
            0 <= s < p.settle_arms@.len() && #[trigger] p.settle_arms@[s]@.variant == p.variants@[m]@.name
                && p.settle_arms@[s]@.ty == p.variants@[m]@.wait->Some_0 && !p.settle_arms@[s]@.forward
                && p.settle_arms@[s]@.by_clone == is_range_wait(p.points@, m),
{
    let a = p.points@;
    let vs = all_variants(a);
    assert(p.variants@.map_values(|v: Variant| v@)[m] == p.variants@[m]@);
    assert(vs[0].wait is None);
    assert(vs[vs.len() - 1].wait is None);
    assert(vs.len() == p.variants@.len());
    assert(1 <= m < vs.len() - 1);
    let (i, j) = lemma_plan_state(p, m);
    let k = a[i].kind;
    let pv = point_variants(a, i);
    lemma_point_states(a, i);
    lemma_point_settle_arms(a, i);
    assert(pv[j].wait is Some);
    assert((has_iter_await(k) && j == 0) || (waits(k) && j == waiting_at(k)));
    let q: int = if has_iter_await(k) && j == 0 { 0 } else { waiting_at(k) };
    assert(0 <= q < point_settles(a, i).len());
    let sv = point_settles(a, i)[q];
    assert(sv.variant == pv[j].name && sv.ty == pv[j].wait->Some_0 && !sv.forward);
    lemma_range_wait_at(a, i, j);
    assert(sv.by_clone == is_range_wait(a, m));
    lemma_point_settles_in(a, 0, i, q);
    let t = choose|t: int| 0 <= t < settles_from(a, 0).len() && #[trigger] settles_from(a, 0)[t] == point_settles(a, i)[q];
    assert(p.settle_arms@.map_values(|x: SettleArm| x@)[t] == p.settle_arms@[t]@);
}

// ---------------------------------------------------------------------------
// Locals kept across an await in a match arm.

/// `s` has a binding named `x` of type `t`.
pub open spec fn has_binding(s: Seq<BindingView>, x: Seq<char>, t: Ty) -> bool {
    exists|q: int| 0 <= q < s.len() && #[trigger] s[q].name == x && s[q].ty == t
}

proof fn lemma_upsert_sets(live: Seq<BindingView>, b: BindingView)
    ensures
        has_binding(upsert(live, b), b.name, b.ty),
{
    crate::bindings::lemma_name_index(live, b.name);
    let r = upsert(live, b);
    match crate::bindings::name_index(live, b.name) {
        Some(k) => {
            assert(r[k as int].name == b.name && r[k as int].ty == b.ty);
        },
        None => {
            assert(r[live.len() as int] == b);
        },
    }
}

proof fn lemma_upsert_keeps(live: Seq<BindingView>, b: BindingView, x: Seq<char>, t: Ty)
    requires
        has_binding(live, x, t),
        b.name != x || b.ty == t,
    ensures
        has_binding(upsert(live, b), x, t),
{
    crate::bindings::lemma_name_index(live, b.name);
    let q = choose|q: int| 0 <= q < live.len() && #[trigger] live[q].name == x && live[q].ty == t;
    let r = upsert(live, b);
    match crate::bindings::name_index(live, b.name) {
        Some(k) => {
            assert(r[q].name == x && r[q].ty == t);
        },
        None => {
            assert(r[q] == live[q]);
        },
    }
}

proof fn lemma_upsert_keeps_name(live: Seq<BindingView>, b: BindingView, x: Seq<char>)
    requires
        has_name(live, x),
    ensures
        has_name(upsert(live, b), x),
{
    crate::bindings::lemma_name_index(live, b.name);
    let q = choose|q: int| 0 <= q < live.len() && #[trigger] live[q].name == x;
    let r = upsert(live, b);
    assert(r[q].name == x);
}

proof fn lemma_upsert_names_binds(live: Seq<BindingView>, ns: Seq<String>, t: Hint, x: Seq<char>)
    requires
        (exists|k: int| 0 <= k < ns.len() && #[trigger] ns[k]@ == x) || has_binding(live, x, Ty::Hinted(t)),
    ensures
        has_binding(upsert_names(live, ns, t), x, Ty::Hinted(t)),
    decreases ns.len(),
{
    if ns.len() == 0 {
    } else {
        let b = BindingView { name: ns[0]@, ty: Ty::Hinted(t), mutable: false };
        let next = upsert(live, b);
        if ns[0]@ == x {
            lemma_upsert_sets(live, b);
        } else if has_binding(live, x, Ty::Hinted(t)) {
            lemma_upsert_keeps(live, b, x, Ty::Hinted(t));
        } else {
            let k = choose|k: int| 0 <= k < ns.len() && #[trigger] ns[k]@ == x;
            assert(ns.drop_first()[k - 1]@ == x);
        }
        lemma_upsert_names_binds(next, ns.drop_first(), t, x);
    }
}

/// No typed `let` among `s` binds `x`.
pub open spec fn rebinds_none(s: Seq<Stmt>, x: Seq<char>) -> bool {
    forall|j: int| 0 <= j < s.len() ==> !(#[trigger] let_binding(s[j]) matches Some(b) && b.name@ == x)
}

proof fn lemma_record_lets_keeps(live: Seq<BindingView>, s: Seq<Stmt>, x: Seq<char>, t: Ty)
    requires
        has_binding(live, x, t),
        rebinds_none(s, x),
    ensures
        has_binding(record_lets(live, s), x, t),
    decreases s.len(),
{
    if s.len() > 0 {
        let next = match let_binding(s[0]) {
            Some(b) => upsert(live, b@),
            None => live,
        };
        if let Some(b) = let_binding(s[0]) {
            lemma_upsert_keeps(live, b@, x, t);
        }
        assert(rebinds_none(s.drop_first(), x)) by {
            assert forall|j: int| 0 <= j < s.drop_first().len() implies !(#[trigger] let_binding(s.drop_first()[j]) matches Some(b)
                && b.name@ == x) by {
                assert(s.drop_first()[j] == s[j + 1]);
            }
        }
        lemma_record_lets_keeps(next, s.drop_first(), x, t);
    }
}

proof fn lemma_record_lets_keeps_name(live: Seq<BindingView>, s: Seq<Stmt>, x: Seq<char>)
    requires
        has_name(live, x),
    ensures
        has_name(record_lets(live, s), x),
    decreases s.len(),
{
    if s.len() > 0 {
        let next = match let_binding(s[0]) {
            Some(b) => upsert(live, b@),
            None => live,
        };
        if let Some(b) = let_binding(s[0]) {
            lemma_upsert_keeps_name(live, b@, x);
        }
        lemma_record_lets_keeps_name(next, s.drop_first(), x);
    }
}

/// A local bound by the pattern of the `match` arm in whose body a point
/// suspends is kept by the point's waiting state, so the code after the
/// await still has it; where no typed `let` of the arm before the await
/// rebinds it, it is kept with the type of the scrutinee.
pub proof fn lemma_match_arm_bindings_kept(f: FnModel, pos: Seq<nat>, p: Plan, i: int, x: Seq<char>)
    requires
        plan_of(f, pos, p),
        0 <= i < p.points@.len(),
        p.points@[i].kind matches SuspendKind::MatchArm { pat_binds, .. } && exists|k: int|
            0 <= k < pat_binds@.len() && #[trigger] pat_binds@[k]@ == x,
    ensures
        ({
            let w = state_index(p.points@, i, 0);
            &&& 0 <= w < p.variants@.len()
            &&& p.variants@[w]@.name == "Waiting"@ + upper_camel(p.points@[i].name@)
            &&& has_name(p.variants@[w]@.fields, x)
            &&& p.points@[i].kind matches SuspendKind::MatchArm { scrut_ty, before_await, .. } && (rebinds_none(
                before_await@,
                x,
            ) ==> has_binding(p.variants@[w]@.fields, x, Ty::Hinted(scrut_ty)))
        }),
{
    lemma_match_arm_kept(p, i, x);
}

proof fn lemma_match_arm_kept(p: Plan, i: int, x: Seq<char>)
    requires
        p.variants@.map_values(|v: Variant| v@) == all_variants(p.points@),
        0 <= i < p.points@.len(),
        p.points@[i].kind matches SuspendKind::MatchArm { pat_binds, .. } && exists|k: int|
            0 <= k < pat_binds@.len() && #[trigger] pat_binds@[k]@ == x,
    ensures
        ({
            let w = state_index(p.points@, i, 0);
            &&& 0 <= w < p.variants@.len()
            &&& p.variants@[w]@.name == "Waiting"@ + upper_camel(p.points@[i].name@)
            &&& has_name(p.variants@[w]@.fields, x)
            &&& p.points@[i].kind matches SuspendKind::MatchArm { scrut_ty, before_await, .. } && (rebinds_none(
                before_await@,
                x,
            ) ==> has_binding(p.variants@[w]@.fields, x, Ty::Hinted(scrut_ty)))
        }),
{
    let a = p.points@;
    let k = a[i].kind;
    lemma_point_states(a, i);
    lemma_offsets_bound(a, i);
    lemma_variants_suffix(a, i);
    let w = state_index(a, i, 0);
    assert(all_variants(a)[state_offset(a, i) + 0] == point_variants(a, i)[0]);
    assert(p.variants@.map_values(|v: Variant| v@)[w] == p.variants@[w]@);
    if let SuspendKind::MatchArm { pat_binds, scrut_ty, before_await, .. } = k {
        let up = upsert_names(join_at(a, i), pat_binds@, scrut_ty);
        assert(caps_at(a, i) == record_lets(up, before_await@));
        lemma_upsert_names_binds(join_at(a, i), pat_binds@, scrut_ty, x);
        lemma_record_lets_keeps_name(up, before_await@, x);
        if rebinds_none(before_await@, x) {
            lemma_record_lets_keeps(up, before_await@, x, Ty::Hinted(scrut_ty));
        }
    }
}

// ---------------------------------------------------------------------------
// Getters.

proof fn lemma_getter_of(a: Seq<AwaitPoint>, kept: Seq<BindingView>, g: int)
    requires
        0 <= g < getters_of(a, kept).len(),
    ensures
        !is_internal(getters_of(a, kept)[g].field),
        getters_of(a, kept)[g].variants == states_with_from(a, 0, getters_of(a, kept)[g].field),
    decreases kept.len(),
{
    if kept.len() > 0 {
        let head: Seq<GetterView> = if is_internal(kept[0].name) {
            Seq::empty()
        } else {
            seq![GetterView {
                field: kept[0].name,
                getter: "get_"@ + kept[0].name,
                ty: kept[0].ty,
                variants: states_with_from(a, 0, kept[0].name),
            }]
        };
        assert(getters_of(a, kept) == head + getters_of(a, kept.drop_first()));
        if g >= head.len() {
            lemma_getter_of(a, kept.drop_first(), g - head.len());
            assert(getters_of(a, kept)[g] == getters_of(a, kept.drop_first())[g - head.len()]);
        }
    }
}

/// The states of point `i` that a getter of `n` lists, one by one.
proof fn lemma_point_states_with(a: Seq<AwaitPoint>, i: int, n: Seq<char>)
    requires
        0 <= i < a.len(),
    ensures
        ({
            let k = a[i].kind;
            let ps = point_states_with(a, i, n);
            let c1: int = if waits(k) && has_name(caps_at(a, i), n) { 1 } else { 0 };
            let c2: int = if needs_join_kind(k) && has_name(join_at(a, i), n) { 1 } else { 0 };
            let c3: int = if is_loop_kind(k) && has_name(join_at(a, i), n) { 1 } else { 0 };
            &&& ps.len() == c1 + c2 + c3
            &&& c1 == 1 ==> ps[0] == "Waiting"@ + upper_camel(a[i].name@)
            &&& c2 == 1 ==> ps[c1] == join_name(k, i as nat)
            &&& c3 == 1 ==> ps[c1 + c2] == "LoopHead"@ + decimal(i as nat)
        }),
{
}

proof fn lemma_point_states_with_in(a: Seq<AwaitPoint>, i0: int, i: int, n: Seq<char>, q: int)
    requires
        0 <= i0 <= i < a.len(),
        0 <= q < point_states_with(a, i, n).len(),
    ensures
        states_with_from(a, i0, n).contains(point_states_with(a, i, n)[q]),
    decreases i - i0,
{
    let here = point_states_with(a, i0, n);
    assert(states_with_from(a, i0, n) == here + states_with_from(a, i0 + 1, n));
    if i0 == i {
        assert(states_with_from(a, i0, n)[q] == point_states_with(a, i, n)[q]);
    } else {
        lemma_point_states_with_in(a, i0 + 1, i, n, q);
        let t = choose|t: int| 0 <= t < states_with_from(a, i0 + 1, n).len() && #[trigger] states_with_from(a, i0 + 1, n)[t]
            == point_states_with(a, i, n)[q];
        assert(states_with_from(a, i0, n)[here.len() + t] == states_with_from(a, i0 + 1, n)[t]);
    }
}

proof fn lemma_states_with_source(a: Seq<AwaitPoint>, i0: int, n: Seq<char>, t: int) -> (iq: (int, int))
    requires
        0 <= i0 <= a.len(),
        0 <= t < states_with_from(a, i0, n).len(),
    ensures
        i0 <= iq.0 < a.len(),
        0 <= iq.1 < point_states_with(a, iq.0, n).len(),
        states_with_from(a, i0, n)[t] == point_states_with(a, iq.0, n)[iq.1],
    decreases a.len() - i0,
{
    let here = point_states_with(a, i0, n);
    assert(states_with_from(a, i0, n) == here + states_with_from(a, i0 + 1, n));
    if t < here.len() {
        (i0, t)
    } else {
        let r = lemma_states_with_source(a, i0 + 1, n, t - here.len());
        assert(states_with_from(a, i0, n)[t] == states_with_from(a, i0 + 1, n)[t - here.len()]);
        r
    }
}

/// The state waiting for the awaited range of a `for` point sits at `m`.
pub open spec fn is_range_wait(a: Seq<AwaitPoint>, m: int) -> bool {
    exists|i: int| 0 <= i < a.len() && has_iter_await(a[i].kind) && m == #[trigger] state_index(a, i, 0)
}

proof fn lemma_head_caps_names(k: SuspendKind, join: Seq<BindingView>, n: Seq<char>)
    ensures
        has_name(join, n) ==> has_name(head_caps(k, join), n),
        has_name(head_caps(k, join), n) && !is_internal(n) ==> has_name(join, n),
{
    reveal_strlit("__iter");
    if has_name(join, n) {
        let q = choose|q: int| 0 <= q < join.len() && #[trigger] join[q].name == n;
        assert(head_caps(k, join)[q] == join[q]);
    }
    if has_name(head_caps(k, join), n) && !is_internal(n) {
        let q = choose|q: int| 0 <= q < head_caps(k, join).len() && #[trigger] head_caps(k, join)[q].name == n;
        if q < join.len() {
            assert(head_caps(k, join)[q] == join[q]);
        }
    }
}

/// Each getter lists every state that keeps its local, except the state
/// waiting for the awaited range of a `for`, where the local is not read.
pub proof fn lemma_getter_lists_states_keeping(f: FnModel, pos: Seq<nat>, p: Plan, g: int, m: int)
    requires
        plan_of(f, pos, p),
        0 <= g < p.getters@.len(),
        0 <= m < p.variants@.len(),
        has_name(p.variants@[m]@.fields, p.getters@[g]@.field),
        !is_range_wait(p.points@, m),
    ensures
        p.getters@[g]@.variants.contains(p.variants@[m]@.name),
{
    lemma_getter_lists(p, g, m);
}

proof fn lemma_getter_lists(p: Plan, g: int, m: int)
    requires
        p.variants@.map_values(|v: Variant| v@) == all_variants(p.points@),
        p.getters@.map_values(|x: Getter| x@) == getters_of(p.points@, all_kept(p.points@)),
        0 <= g < p.getters@.len(),
        0 <= m < p.variants@.len(),
        has_name(p.variants@[m]@.fields, p.getters@[g]@.field),
        !is_range_wait(p.points@, m),
    ensures
        p.getters@[g]@.variants.contains(p.variants@[m]@.name),
{
    let a = p.points@;
    let vs = all_variants(a);
    assert(p.variants@.map_values(|v: Variant| v@)[m] == p.variants@[m]@);
    assert(p.getters@.map_values(|x: Getter| x@)[g] == p.getters@[g]@);
    let n = p.getters@[g]@.field;
    lemma_getter_of(a, all_kept(a), g);
    assert(vs.len() == p.variants@.len());
    if m == 0 || m == vs.len() - 1 {
        assert(vs[m].fields.len() == 0);
    } else {
        let (i, j) = lemma_plan_state(p, m);
        let k = a[i].kind;
        let pv = point_variants(a, i);
        lemma_point_states(a, i);
        lemma_point_states_with(a, i, n);
        lemma_head_caps_names(k, join_at(a, i), n);
        assert(!(has_iter_await(k) && j == 0));
        let c1: int = if waits(k) && has_name(caps_at(a, i), n) { 1 } else { 0 };
        let c2: int = if needs_join_kind(k) && has_name(join_at(a, i), n) { 1 } else { 0 };
        let q: int = if waits(k) && j == waiting_at(k) {
            0
        } else if needs_join_kind(k) && j == join_at_index(k) {
            c1
        } else {
            c1 + c2
        };
        assert(point_states_with(a, i, n)[q] == pv[j].name);
        lemma_point_states_with_in(a, 0, i, n, q);
    }
}

/// Each state a getter lists is a declared state that keeps the getter's local.
pub proof fn lemma_getter_states_keep_it(f: FnModel, pos: Seq<nat>, p: Plan, g: int, t: int)
    requires
        plan_of(f, pos, p),
        0 <= g < p.getters@.len(),
        0 <= t < p.getters@[g]@.variants.len(),
    ensures
        exists|m: int|
            0 <= m < p.variants@.len() && #[trigger] p.variants@[m]@.name == p.getters@[g]@.variants[t] && has_name(
                p.variants@[m]@.fields,
                p.getters@[g]@.field,
            ),
{
    lemma_getter_states(p, g, t);
}

proof fn lemma_getter_states(p: Plan, g: int, t: int)
    requires
        p.variants@.map_values(|v: Variant| v@) == all_variants(p.points@),
        p.getters@.map_values(|x: Getter| x@) == getters_of(p.points@, all_kept(p.points@)),
        0 <= g < p.getters@.len(),
        0 <= t < p.getters@[g]@.variants.len(),
    ensures
        exists|m: int|
            0 <= m < p.variants@.len() && #[trigger] p.variants@[m]@.name == p.getters@[g]@.variants[t] && has_name(
                p.variants@[m]@.fields,
                p.getters@[g]@.field,
            ),
{
    let a = p.points@;
    assert(p.getters@.map_values(|x: Getter| x@)[g] == p.getters@[g]@);
    let n = p.getters@[g]@.field;
    lemma_getter_of(a, all_kept(a), g);
    let (i, q) = lemma_states_with_source(a, 0, n, t);
    let k = a[i].kind;
    let pv = point_variants(a, i);
    lemma_point_states(a, i);
    lemma_point_states_with(a, i, n);
    lemma_head_caps_names(k, join_at(a, i), n);
    lemma_offsets_bound(a, i);
    lemma_variants_suffix(a, i);
    let c1: int = if waits(k) && has_name(caps_at(a, i), n) { 1 } else { 0 };
    let c2: int = if needs_join_kind(k) && has_name(join_at(a, i), n) { 1 } else { 0 };
    let j: int = if c1 == 1 && q == 0 {
        waiting_at(k)
    } else if c2 == 1 && q == c1 {
        join_at_index(k)
    } else {
        head_at(k)
    };
    assert(pv[j].name == point_states_with(a, i, n)[q] && has_name(pv[j].fields, n));
    let m = state_offset(a, i) + j;
    assert(all_variants(a)[state_offset(a, i) + j] == pv[j]);
    assert(p.variants@.map_values(|v: Variant| v@)[m] == p.variants@[m]@);
}

// ---------------------------------------------------------------------------
// Rehydration.

/// The skipped locals of a list, in order: those of type `SkipSerde`.
pub open spec fn skipped_of(s: Seq<BindingView>) -> Seq<BindingView> {
    s.filter(|b: BindingView| skips_serde(b.ty))
}

proof fn lemma_skip_only_filter(s: Seq<BindingView>)
    ensures
        skip_only(s) == skipped_of(s),
    decreases s.len(),
{
    let pred = |b: BindingView| skips_serde(b.ty);
    reveal_with_fuel(Seq::filter, 2);
    if s.len() == 0 {
        assert(skipped_of(s) =~= Seq::<BindingView>::empty());
    } else {
        lemma_skip_only_filter(s.drop_first());
        let one = seq![s[0]];
        assert(s =~= one + s.drop_first());
        Seq::filter_distributes_over_add(one, s.drop_first(), pred);
        assert(one.drop_last() =~= Seq::<BindingView>::empty());
        assert(one.filter(pred) =~= (if skips_serde(s[0].ty) { one } else { Seq::<BindingView>::empty() }));
    }
}

/// The arms of `rehydrate` of point `i`, one by one.
proof fn lemma_point_rehyd(a: Seq<AwaitPoint>, i: int)
    requires
        0 <= i < a.len(),
    ensures
        ({
            let k = a[i].kind;
            let r = point_rehyd_arms(a, i);
            let c1: int = if waits(k) { 1 } else { 0 };
            let c2: int = if needs_join_kind(k) { 1 } else { 0 };
            let c3: int = if is_loop_kind(k) { 1 } else { 0 };
            &&& r.len() == c1 + c2 + c3
            &&& c1 == 1 ==> r[0] == (RehydArmView { variant: "Waiting"@ + upper_camel(a[i].name@), checks: skip_only(caps_at(a, i)) })
            &&& c2 == 1 ==> r[c1] == (RehydArmView { variant: join_name(k, i as nat), checks: skip_only(join_at(a, i)) })
            &&& c3 == 1 ==> r[c1 + c2] == (RehydArmView { variant: "LoopHead"@ + decimal(i as nat), checks: Seq::empty() })
        }),
{
}

proof fn lemma_point_rehyd_in(a: Seq<AwaitPoint>, i0: int, i: int, q: int)
    requires
        0 <= i0 <= i < a.len(),
        0 <= q < point_rehyd_arms(a, i).len(),
    ensures
        exists|t: int| 0 <= t < rehyd_arms_from(a, i0).len() && #[trigger] rehyd_arms_from(a, i0)[t] == point_rehyd_arms(a, i)[q],
    decreases i - i0,
{
    let here = point_rehyd_arms(a, i0);
    assert(rehyd_arms_from(a, i0) == here + rehyd_arms_from(a, i0 + 1));
    if i0 == i {
        assert(rehyd_arms_from(a, i0)[q] == point_rehyd_arms(a, i)[q]);
    } else {
        lemma_point_rehyd_in(a, i0 + 1, i, q);
        let t = choose|t: int| 0 <= t < rehyd_arms_from(a, i0 + 1).len() && #[trigger] rehyd_arms_from(a, i0 + 1)[t]
            == point_rehyd_arms(a, i)[q];
        assert(rehyd_arms_from(a, i0)[here.len() + t] == rehyd_arms_from(a, i0 + 1)[t]);
    }
}

/// `rehydrate` has an arm for the state `v` that checks exactly the
/// skipped locals it keeps, in the order it keeps them.
pub open spec fn checks_its_skips(p: Plan, v: VariantView) -> bool {
    exists|r: int|
        0 <= r < p.rehydration_arms@.len() && #[trigger] p.rehydration_arms@[r]@.variant == v.name
            && p.rehydration_arms@[r]@.checks == skipped_of(v.fields)
}

/// In the waiting state and the join state of every point, `rehydrate`
/// checks exactly the skipped locals (those of type `SkipSerde`) the state
/// keeps, in the order the state keeps them, whenever the state keeps one
/// or `rehydrate` checks anything at all; so it reports success there only
/// when every skipped local of the state is present. A loop head, as the
/// state the coroutine never rests in, has an arm that checks nothing.
pub proof fn lemma_rehydrate_checks_state_skips(f: FnModel, pos: Seq<nat>, p: Plan, i: int)
    requires
        plan_of(f, pos, p),
        0 <= i < p.points@.len(),
    ensures
        ({
            let a = p.points@;
            let k = a[i].kind;
            let w = p.variants@[state_index(a, i, waiting_at(k))]@;
            let jn = p.variants@[state_index(a, i, join_at_index(k))]@;
            let hd = p.variants@[state_index(a, i, head_at(k))]@;
            &&& waits(k) && (p.rehydration_arms@.len() > 0 || skipped_of(w.fields).len() > 0) ==> checks_its_skips(p, w)
            &&& needs_join_kind(k) && (p.rehydration_arms@.len() > 0 || skipped_of(jn.fields).len() > 0)
                ==> checks_its_skips(p, jn)
            &&& is_loop_kind(k) && p.rehydration_arms@.len() > 0 ==> exists|r: int|
                0 <= r < p.rehydration_arms@.len() && #[trigger] p.rehydration_arms@[r]@.variant == hd.name
                    && p.rehydration_arms@[r]@.checks.len() == 0
        }),
{
    lemma_rehydrate_checks(p, i);
}

proof fn lemma_rehydrate_checks(p: Plan, i: int)
    requires
        p.variants@.map_values(|v: Variant| v@) == all_variants(p.points@),
        p.rehydration_arms@.map_values(|x: RehydArm| x@) == if all_skips(p.points@).len() == 0 {
            Seq::empty()
        } else {
            rehyd_arms_from(p.points@, 0)
        },
        0 <= i < p.points@.len(),
    ensures
        ({
            let a = p.points@;
            let k = a[i].kind;
            let w = p.variants@[state_index(a, i, waiting_at(k))]@;
            let jn = p.variants@[state_index(a, i, join_at_index(k))]@;
            let hd = p.variants@[state_index(a, i, head_at(k))]@;
            &&& waits(k) && (p.rehydration_arms@.len() > 0 || skipped_of(w.fields).len() > 0) ==> checks_its_skips(p, w)
            &&& needs_join_kind(k) && (p.rehydration_arms@.len() > 0 || skipped_of(jn.fields).len() > 0)
                ==> checks_its_skips(p, jn)
            &&& is_loop_kind(k) && p.rehydration_arms@.len() > 0 ==> exists|r: int|
                0 <= r < p.rehydration_arms@.len() && #[trigger] p.rehydration_arms@[r]@.variant == hd.name
                    && p.rehydration_arms@[r]@.checks.len() == 0
        }),
{
    let a = p.points@;
    let k = a[i].kind;
    let pv = point_variants(a, i);
    let ra = point_rehyd_arms(a, i);
    lemma_point_states(a, i);
    lemma_point_rehyd(a, i);
    lemma_offsets_bound(a, i);
    lemma_variants_suffix(a, i);
    lemma_skip_only_filter(caps_at(a, i));
    lemma_skip_only_filter(join_at(a, i));
    let c1: int = if waits(k) { 1 } else { 0 };
    let c2: int = if needs_join_kind(k) { 1 } else { 0 };
    if waits(k) {
        let m = state_index(a, i, waiting_at(k));
        assert(all_variants(a)[state_offset(a, i) + waiting_at(k)] == pv[waiting_at(k)]);
        assert(p.variants@.map_values(|v: Variant| v@)[m] == p.variants@[m]@);
        if p.rehydration_arms@.len() > 0 || skipped_of(p.variants@[m]@.fields).len() > 0 {
            if skipped_of(p.variants@[m]@.fields).len() > 0 {
                crate::plan::lemma_skips_nonempty(a, i);
            }
            lemma_point_rehyd_in(a, 0, i, 0);
            let t = choose|t: int| 0 <= t < rehyd_arms_from(a, 0).len() && #[trigger] rehyd_arms_from(a, 0)[t] == ra[0];
            assert(p.rehydration_arms@.map_values(|x: RehydArm| x@)[t] == p.rehydration_arms@[t]@);
            assert(p.rehydration_arms@[t]@.variant == p.variants@[m]@.name);
            assert(p.rehydration_arms@[t]@.checks == skipped_of(p.variants@[m]@.fields));
        }
    }
    if needs_join_kind(k) {
        let m = state_index(a, i, join_at_index(k));
        assert(all_variants(a)[state_offset(a, i) + join_at_index(k)] == pv[join_at_index(k)]);
        assert(p.variants@.map_values(|v: Variant| v@)[m] == p.variants@[m]@);
        if p.rehydration_arms@.len() > 0 || skipped_of(p.variants@[m]@.fields).len() > 0 {
            if skipped_of(p.variants@[m]@.fields).len() > 0 {
                crate::plan::lemma_join_skips_nonempty(a, i);
            }
            lemma_point_rehyd_in(a, 0, i, c1);
            let t = choose|t: int| 0 <= t < rehyd_arms_from(a, 0).len() && #[trigger] rehyd_arms_from(a, 0)[t] == ra[c1];
            assert(p.rehydration_arms@.map_values(|x: RehydArm| x@)[t] == p.rehydration_arms@[t]@);
            assert(p.rehydration_arms@[t]@.variant == p.variants@[m]@.name);
            assert(p.rehydration_arms@[t]@.checks == skipped_of(p.variants@[m]@.fields));
        }
    }
    if is_loop_kind(k) && p.rehydration_arms@.len() > 0 {
        let m = state_index(a, i, head_at(k));
        assert(all_variants(a)[state_offset(a, i) + head_at(k)] == pv[head_at(k)]);
        assert(p.variants@.map_values(|v: Variant| v@)[m] == p.variants@[m]@);
        assert(p.rehydration_arms@.map_values(|x: RehydArm| x@).len() == p.rehydration_arms@.len());
        assert(all_skips(a).len() > 0);
        assert(ra[c1 + c2].variant == p.variants@[m]@.name);
        lemma_point_rehyd_in(a, 0, i, c1 + c2);
        let t = choose|t: int| 0 <= t < rehyd_arms_from(a, 0).len() && #[trigger] rehyd_arms_from(a, 0)[t] == ra[c1 + c2];
        assert(p.rehydration_arms@.map_values(|x: RehydArm| x@)[t] == p.rehydration_arms@[t]@);
        assert(p.rehydration_arms@[t]@.checks.len() == 0 && p.rehydration_arms@[t]@.variant == p.variants@[m]@.name);
    }
}

/// The waiting state of a point that drives a child coroutine has an arm of
/// `settle_wait` that names it and hands the value on to the child.
pub proof fn lemma_child_states_forward_settles(f: FnModel, pos: Seq<nat>, p: Plan, i: int)
    requires
        plan_of(f, pos, p),
        0 <= i < p.points@.len(),
        crate::split::kind_child(p.points@[i].kind) is Some,
    ensures
        ({
            let w = p.variants@[state_index(p.points@, i, waiting_at(p.points@[i].kind))]@;
            &&& w.wait is None
            &&& exists|s: int|
                0 <= s < p.settle_arms@.len() && #[trigger] p.settle_arms@[s]@.variant == w.name && p.settle_arms@[s]@.forward
        }),
{
    lemma_child_forward(p, i);
}

proof fn lemma_child_forward(p: Plan, i: int)
    requires
        p.variants@.map_values(|v: Variant| v@) == all_variants(p.points@),
        p.settle_arms@.map_values(|s: SettleArm| s@) == settles_from(p.points@, 0),
        0 <= i < p.points@.len(),
        crate::split::kind_child(p.points@[i].kind) is Some,
    ensures
        ({
            let w = p.variants@[state_index(p.points@, i, waiting_at(p.points@[i].kind))]@;
            &&& w.wait is None
            &&& exists|s: int|
                0 <= s < p.settle_arms@.len() && #[trigger] p.settle_arms@[s]@.variant == w.name && p.settle_arms@[s]@.forward
        }),
{
    let a = p.points@;
    let k = a[i].kind;
    let pv = point_variants(a, i);
    lemma_point_states(a, i);
    lemma_point_settle_arms(a, i);
    lemma_offsets_bound(a, i);
    lemma_variants_suffix(a, i);
    assert(waits(k));
    let m = state_index(a, i, waiting_at(k));
    assert(all_variants(a)[state_offset(a, i) + waiting_at(k)] == pv[waiting_at(k)]);
    assert(p.variants@.map_values(|v: Variant| v@)[m] == p.variants@[m]@);
    lemma_point_settles_in(a, 0, i, waiting_at(k));
    let t = choose|t: int| 0 <= t < settles_from(a, 0).len() && #[trigger] settles_from(a, 0)[t] == point_settles(a, i)[waiting_at(k)];
    assert(p.settle_arms@.map_values(|x: SettleArm| x@)[t] == p.settle_arms@[t]@);
    assert(p.settle_arms@[t]@.variant == p.variants@[m]@.name && p.settle_arms@[t]@.forward);
}

proof fn lemma_upsert_all_names(acc: Seq<BindingView>, s: Seq<BindingView>, x: Seq<char>)
    requires
        has_name(acc, x) || has_name(s, x),
    ensures
        has_name(upsert_all(acc, s), x),
    decreases s.len(),
{
    if s.len() > 0 {
        let next = upsert(acc, s[0]);
        if has_name(acc, x) {
            lemma_upsert_keeps_name(acc, s[0], x);
        } else if s[0].name == x {
            lemma_upsert_sets(acc, s[0]);
        } else {
            let q = choose|q: int| 0 <= q < s.len() && #[trigger] s[q].name == x;
            assert(s.drop_first()[q - 1].name == x);
        }
        lemma_upsert_all_names(next, s.drop_first(), x);
    }
}

proof fn lemma_all_of_caps_names(a: Seq<AwaitPoint>, acc: Seq<BindingView>, j: int, i: int, x: Seq<char>)
    requires
        0 <= j,
        has_name(acc, x) || (j <= i < a.len() && has_name(caps_at(a, i), x)),
    ensures
        has_name(all_of_caps(a, acc, j), x),
    decreases a.len() - j,
{
    if j < a.len() {
        let next = upsert_all(acc, caps_at(a, j));
        if has_name(acc, x) || i == j {
            lemma_upsert_all_names(acc, caps_at(a, j), x);
        }
        lemma_all_of_caps_names(a, next, j + 1, i, x);
    }
}

proof fn lemma_all_of_joins_names(a: Seq<AwaitPoint>, acc: Seq<BindingView>, j: int, i: int, x: Seq<char>)
    requires
        0 <= j,
        has_name(acc, x) || (j <= i < a.len() && has_name(join_at(a, i), x)),
    ensures
        has_name(all_of_joins(a, acc, j), x),
    decreases a.len() - j,
{
    if j < a.len() {
        let next = upsert_all(acc, join_at(a, j));
        if has_name(acc, x) || i == j {
            lemma_upsert_all_names(acc, join_at(a, j), x);
        }
        lemma_all_of_joins_names(a, next, j + 1, i, x);
    }
}

proof fn lemma_getters_of_cover(a: Seq<AwaitPoint>, kept: Seq<BindingView>, x: Seq<char>)
    requires
        has_name(kept, x),
        !is_internal(x),
    ensures
        exists|g: int| 0 <= g < getters_of(a, kept).len() && #[trigger] getters_of(a, kept)[g].field == x,
    decreases kept.len(),
{
    let head: Seq<GetterView> = if is_internal(kept[0].name) {
        Seq::empty()
    } else {
        seq![GetterView {
            field: kept[0].name,
            getter: "get_"@ + kept[0].name,
            ty: kept[0].ty,
            variants: states_with_from(a, 0, kept[0].name),
        }]
    };
    assert(getters_of(a, kept) == head + getters_of(a, kept.drop_first()));
    if kept[0].name == x {
        assert(getters_of(a, kept)[0].field == x);
    } else {
        let q = choose|q: int| 0 <= q < kept.len() && #[trigger] kept[q].name == x;
        assert(kept.drop_first()[q - 1].name == x);
        lemma_getters_of_cover(a, kept.drop_first(), x);
        let g = choose|g: int| 0 <= g < getters_of(a, kept.drop_first()).len() && #[trigger] getters_of(a, kept.drop_first())[g].field == x;
        assert(getters_of(a, kept)[head.len() + g] == getters_of(a, kept.drop_first())[g]);
    }
}

/// Every local that some state keeps, unless its name marks it internal
/// (it starts with `__`), has a getter.
pub proof fn lemma_kept_locals_have_getters(f: FnModel, pos: Seq<nat>, p: Plan, m: int, x: Seq<char>)
    requires
        plan_of(f, pos, p),
        0 <= m < p.variants@.len(),
        has_name(p.variants@[m]@.fields, x),
        !is_internal(x),
    ensures
        exists|g: int| 0 <= g < p.getters@.len() && #[trigger] p.getters@[g]@.field == x,
{
    lemma_kept_have_getters(p, m, x);
}

proof fn lemma_kept_have_getters(p: Plan, m: int, x: Seq<char>)
    requires
        p.variants@.map_values(|v: Variant| v@) == all_variants(p.points@),
        p.getters@.map_values(|x: Getter| x@) == getters_of(p.points@, all_kept(p.points@)),
        0 <= m < p.variants@.len(),
        has_name(p.variants@[m]@.fields, x),
        !is_internal(x),
    ensures
        exists|g: int| 0 <= g < p.getters@.len() && #[trigger] p.getters@[g]@.field == x,
{
    let a = p.points@;
    let vs = all_variants(a);
    assert(p.variants@.map_values(|v: Variant| v@)[m] == p.variants@[m]@);
    assert(vs.len() == p.variants@.len());
    if m == 0 || m == vs.len() - 1 {
        assert(vs[m].fields.len() == 0);
    } else {
        let (i, j) = lemma_plan_state(p, m);
        let k = a[i].kind;
        let pv = point_variants(a, i);
        lemma_point_states(a, i);
        lemma_head_caps_names(k, join_at(a, i), x);
        let caps0 = all_of_caps(a, Seq::empty(), 0);
        if waits(k) && j == waiting_at(k) {
            lemma_all_of_caps_names(a, Seq::empty(), 0, i, x);
            lemma_all_of_joins_names(a, caps0, 0, i, x);
        } else {
            assert(has_name(join_at(a, i), x));
            lemma_all_of_joins_names(a, caps0, 0, i, x);
        }
        lemma_getters_of_cover(a, all_kept(a), x);
        let g = choose|g: int| 0 <= g < getters_of(a, all_kept(a)).len() && #[trigger] getters_of(a, all_kept(a))[g].field == x;
        assert(p.getters@.map_values(|y: Getter| y@)[g] == p.getters@[g]@);
    }
}

// ---------------------------------------------------------------------------
// What a waiting state keeps.

/// Some typed `let` among `s` binds `x`.
pub open spec fn lets_bind(s: Seq<Stmt>, x: Seq<char>) -> bool {
    exists|t: int| 0 <= t < s.len() && (#[trigger] let_binding(s[t]) matches Some(b) && b.name@ == x)
}

/// What a point of kind `k` binds itself before it suspends: the typed
/// `let`s before the await in its branch or body, a `for`'s item and
/// iterator, the pattern bindings of the suspending `match` arm, the
/// scrutinee of a `match` whose guard awaits, and a child coroutine it drives.
pub open spec fn binds_before_suspending(k: SuspendKind, x: Seq<char>) -> bool {
    match k {
        SuspendKind::IfThen { before_await, .. } => lets_bind(before_await@, x),
        SuspendKind::IfElse { before_await, .. } => lets_bind(before_await@, x),
        SuspendKind::Loop { before_await, .. } => lets_bind(before_await@, x),
        SuspendKind::For { item, before_await, .. } => x == item@ || x == "__iter"@ || lets_bind(before_await@, x),
        SuspendKind::MatchArm { pat_binds, before_await, .. } => (exists|j: int|
            0 <= j < pat_binds@.len() && #[trigger] pat_binds@[j]@ == x) || lets_bind(before_await@, x),
        SuspendKind::MatchGuard { .. } => x == "__scrut"@,
        SuspendKind::Plain { .. } => crate::split::kind_child(k) is Some && x == "__child"@,
        _ => false,
    }
}

proof fn lemma_record_lets_binds(live: Seq<BindingView>, s: Seq<Stmt>, x: Seq<char>)
    requires
        has_name(live, x) || lets_bind(s, x),
    ensures
        has_name(record_lets(live, s), x),
    decreases s.len(),
{
    if s.len() > 0 {
        let next = match let_binding(s[0]) {
            Some(b) => upsert(live, b@),
            None => live,
        };
        if has_name(live, x) {
            if let Some(b) = let_binding(s[0]) {
                lemma_upsert_keeps_name(live, b@, x);
            }
        } else if let_binding(s[0]) matches Some(b) && b.name@ == x {
            if let Some(b) = let_binding(s[0]) {
                lemma_upsert_sets(live, b@);
            }
        } else {
            let t = choose|t: int| 0 <= t < s.len() && (#[trigger] let_binding(s[t]) matches Some(b) && b.name@ == x);
            assert(s.drop_first()[t - 1] == s[t]);
            assert(lets_bind(s.drop_first(), x));
        }
        lemma_record_lets_binds(next, s.drop_first(), x);
    }
}

proof fn lemma_upsert_names_keeps(live: Seq<BindingView>, ns: Seq<String>, t: Hint, x: Seq<char>)
    requires
        has_name(live, x),
    ensures
        has_name(upsert_names(live, ns, t), x),
    decreases ns.len(),
{
    if ns.len() > 0 {
        let b = BindingView { name: ns[0]@, ty: Ty::Hinted(t), mutable: false };
        lemma_upsert_keeps_name(live, b, x);
        lemma_upsert_names_keeps(upsert(live, b), ns.drop_first(), t, x);
    }
}

/// The waiting state of a point keeps what is live when the point is
/// reached and what the point binds before suspending.
proof fn lemma_caps_names(a: Seq<AwaitPoint>, i: int, x: Seq<char>)
    requires
        0 <= i < a.len(),
        has_name(join_at(a, i), x) || binds_before_suspending(a[i].kind, x),
    ensures
        has_name(caps_at(a, i), x),
{
    reveal_strlit("__iter");
    let join = join_at(a, i);
    let k = a[i].kind;
    match k {
        SuspendKind::IfThen { before_await, .. } => lemma_record_lets_binds(join, before_await@, x),
        SuspendKind::IfElse { before_await, .. } => lemma_record_lets_binds(join, before_await@, x),
        SuspendKind::Loop { before_await, .. } => lemma_record_lets_binds(join, before_await@, x),
        SuspendKind::For { item, source, before_await, .. } => {
            let b1 = BindingView { name: "__iter"@, ty: crate::inspect::iter_ty_of(source), mutable: true };
            let b2 = BindingView { name: item@, ty: crate::inspect::item_ty_of(source), mutable: false };
            let u1 = upsert(join, b1);
            let u2 = upsert(u1, b2);
            lemma_upsert_sets(join, b1);
            if has_name(join, x) {
                lemma_upsert_keeps_name(join, b1, x);
            }
            lemma_upsert_sets(u1, b2);
            if has_name(u1, x) {
                lemma_upsert_keeps_name(u1, b2, x);
            }
            lemma_record_lets_binds(u2, before_await@, x);
        },
        SuspendKind::MatchArm { scrut_ty, pat_binds, before_await, .. } => {
            let up = upsert_names(join, pat_binds@, scrut_ty);
            if has_name(join, x) {
                lemma_upsert_names_keeps(join, pat_binds@, scrut_ty, x);
            } else if exists|j: int| 0 <= j < pat_binds@.len() && #[trigger] pat_binds@[j]@ == x {
                lemma_upsert_names_binds(join, pat_binds@, scrut_ty, x);
            }
            lemma_record_lets_binds(up, before_await@, x);
        },
        SuspendKind::MatchGuard { scrut_ty, .. } => {
            let b = BindingView { name: "__scrut"@, ty: Ty::Hinted(scrut_ty), mutable: false };
            lemma_upsert_sets(join, b);
            if has_name(join, x) {
                lemma_upsert_keeps_name(join, b, x);
            }
        },
        SuspendKind::Plain { .. } => {
            if let Some(c) = crate::split::kind_child(k) {
                let b = BindingView { name: "__child"@, ty: c, mutable: true };
                lemma_upsert_sets(join, b);
                if has_name(join, x) {
                    lemma_upsert_keeps_name(join, b, x);
                }
            }
        },
        _ => {},
    }
}

/// The waiting state of point `i` keeps every local it needs after the
/// await: those bound by the statements since the previous point, those
/// the point binds itself before suspending, and everything the waiting
/// state of the previous point kept.
pub proof fn lemma_waiting_state_keeps(f: FnModel, pos: Seq<nat>, p: Plan, i: int, x: Seq<char>)
    requires
        plan_of(f, pos, p),
        0 <= i < p.points@.len(),
        waits(p.points@[i].kind),
        lets_bind(p.points@[i].before@, x) || binds_before_suspending(p.points@[i].kind, x) || (i > 0 && waits(
            p.points@[i - 1].kind,
        ) && has_name(p.variants@[state_index(p.points@, i - 1, waiting_at(p.points@[i - 1].kind))]@.fields, x)),
    ensures
        has_name(p.variants@[state_index(p.points@, i, waiting_at(p.points@[i].kind))]@.fields, x),
{
    lemma_waiting_keeps(p, i, x);
}

proof fn lemma_waiting_fields(p: Plan, i: int)
    requires
        p.variants@.map_values(|v: Variant| v@) == all_variants(p.points@),
        0 <= i < p.points@.len(),
        waits(p.points@[i].kind),
    ensures
        p.variants@[state_index(p.points@, i, waiting_at(p.points@[i].kind))]@.fields == caps_at(p.points@, i),
{
    let a = p.points@;
    let k = a[i].kind;
    lemma_point_states(a, i);
    lemma_offsets_bound(a, i);
    lemma_variants_suffix(a, i);
    let m = state_index(a, i, waiting_at(k));
    assert(all_variants(a)[state_offset(a, i) + waiting_at(k)] == point_variants(a, i)[waiting_at(k)]);
    assert(p.variants@.map_values(|v: Variant| v@)[m] == p.variants@[m]@);
}

proof fn lemma_waiting_keeps(p: Plan, i: int, x: Seq<char>)
    requires
        p.variants@.map_values(|v: Variant| v@) == all_variants(p.points@),
        0 <= i < p.points@.len(),
        waits(p.points@[i].kind),
        lets_bind(p.points@[i].before@, x) || binds_before_suspending(p.points@[i].kind, x) || (i > 0 && waits(
            p.points@[i - 1].kind,
        ) && has_name(p.variants@[state_index(p.points@, i - 1, waiting_at(p.points@[i - 1].kind))]@.fields, x)),
    ensures
        has_name(p.variants@[state_index(p.points@, i, waiting_at(p.points@[i].kind))]@.fields, x),
{
    let a = p.points@;
    lemma_waiting_fields(p, i);
    if i > 0 && waits(a[i - 1].kind) && has_name(
        p.variants@[state_index(a, i - 1, waiting_at(a[i - 1].kind))]@.fields,
        x,
    ) {
        lemma_waiting_fields(p, i - 1);
        let r1 = record_lets(caps_at(a, i - 1), crate::plan::resumed_stmts(a[i - 1].kind));
        lemma_record_lets_binds(caps_at(a, i - 1), crate::plan::resumed_stmts(a[i - 1].kind), x);
        lemma_record_lets_binds(r1, crate::split::join_of(a[i - 1].kind), x);
        assert(crate::plan::live_before(a, i) == record_lets(r1, crate::split::join_of(a[i - 1].kind)));
        lemma_record_lets_binds(crate::plan::live_before(a, i), a[i].before@, x);
    } else if lets_bind(a[i].before@, x) {
        lemma_record_lets_binds(crate::plan::live_before(a, i), a[i].before@, x);
    }
    lemma_caps_names(a, i, x);
}

} // verus!

//! The states of a coroutine: which locals each state keeps, and the
//! variants, settle arms, rehydration checks and getters built from them.
use vstd::prelude::*;
use crate::bindings::{
    clone_bindings, distinct_names, is_skip_serde, lemma_upsert, let_binding, names, skips_serde,
    typed_let_binding, upsert, upsert_binding, views, Binding, BindingView,
};
use crate::split::{AwaitPoint, SuspendKind};
use crate::syntax::{Hint, Stmt, Ty};
use crate::split::{needs_join, needs_join_kind};
use crate::text::{
    after_if_variant, after_loop_variant, after_match_variant, decimal, join_text,
    loop_head_variant, upper_camel, waiting_iter_variant, waiting_variant,
};

verus! {

// ---------------------------------------------------------------------------
// Live locals.

/// `live` with the typed `let` bindings of `s` recorded in order.
pub open spec fn record_lets(live: Seq<BindingView>, s: Seq<Stmt>) -> Seq<BindingView>
    decreases s.len(),
{
    if s.len() == 0 {
        live
    } else {
        record_lets(
            match let_binding(s[0]) {
                Some(b) => upsert(live, b@),
                None => live,
            },
            s.drop_first(),
        )
    }
}


/// Bindings a point makes live by itself, before it suspends, on top of the
/// locals live when it is reached (`join`).
pub open spec fn at_suspend(join: Seq<BindingView>, k: SuspendKind) -> Seq<BindingView> {
    match k {
        SuspendKind::IfThen { before_await, .. } => record_lets(join, before_await@),
        SuspendKind::IfElse { before_await, .. } => record_lets(join, before_await@),
        SuspendKind::Loop { before_await, .. } => record_lets(join, before_await@),
        SuspendKind::For { item, source, before_await, .. } => record_lets(
            upsert(
                upsert(join, BindingView { name: "__iter"@, ty: crate::inspect::iter_ty_of(source), mutable: true }),
                BindingView { name: item@, ty: crate::inspect::item_ty_of(source), mutable: false },
            ),
            before_await@,
        ),
        SuspendKind::MatchArm { scrut_ty, pat_binds, before_await, .. } => record_lets(
            upsert_names(join, pat_binds@, scrut_ty),
            before_await@,
        ),
        SuspendKind::MatchGuard { scrut_ty, .. } => upsert(
            join,
            BindingView { name: "__scrut"@, ty: Ty::Hinted(scrut_ty), mutable: false },
        ),
        SuspendKind::Plain { .. } => match crate::split::kind_child(k) {
            Some(c) => upsert(join, BindingView { name: "__child"@, ty: c, mutable: true }),
            None => join,
        },
        _ => join,
    }
}

/// `live` with each of `ns` recorded as an immutable binding of type `t`.
pub open spec fn upsert_names(live: Seq<BindingView>, ns: Seq<String>, t: Hint) -> Seq<BindingView>
    decreases ns.len(),
{
    if ns.len() == 0 {
        live
    } else {
        upsert_names(
            upsert(live, BindingView { name: ns[0]@, ty: Ty::Hinted(t), mutable: false }),
            ns.drop_first(),
            t,
        )
    }
}

/// The statements a point runs after it resumes: the resumed `let` and what follows it.
pub open spec fn resumed_stmts(k: SuspendKind) -> Seq<Stmt> {
    match k {
        SuspendKind::Plain { resume } => seq![resume.stmt],
        SuspendKind::IfThen { resume, after_await, .. } => seq![resume.stmt] + after_await@,
        SuspendKind::IfElse { resume, after_await, .. } => seq![resume.stmt] + after_await@,
        SuspendKind::Loop { resume, after_await, .. } => seq![resume.stmt] + after_await@,
        SuspendKind::MatchArm { resume, after_await, .. } => seq![resume.stmt] + after_await@,
        SuspendKind::For { resume, after_await, .. } => match resume {
            Some(r) => seq![r.stmt] + after_await@,
            None => after_await@,
        },
        _ => Seq::empty(),
    }
}

/// Locals live when point `i` is reached.
pub open spec fn live_before(a: Seq<AwaitPoint>, i: int) -> Seq<BindingView>
    decreases i, 0nat,
{
    if i <= 0 {
        Seq::empty()
    } else {
        record_lets(
            record_lets(caps_at(a, i - 1), resumed_stmts(a[i - 1].kind)),
            crate::split::join_of(a[i - 1].kind),
        )
    }
}

/// Locals kept in the join state after point `i` (those live once the
/// statements before it have run).
pub open spec fn join_at(a: Seq<AwaitPoint>, i: int) -> Seq<BindingView>
    decreases i, 1nat,
{
    record_lets(live_before(a, i), a[i].before@)
}

/// Locals kept while point `i` waits.
pub open spec fn caps_at(a: Seq<AwaitPoint>, i: int) -> Seq<BindingView>
    decreases i, 2nat,
{
    at_suspend(join_at(a, i), a[i].kind)
}

/// Names only grow and stay unique as `let` bindings are recorded.
pub proof fn lemma_record_lets(live: Seq<BindingView>, s: Seq<Stmt>)
    requires
        distinct_names(live),
    ensures
        distinct_names(record_lets(live, s)),
        names(live).subset_of(names(record_lets(live, s))),
    decreases s.len(),
{
    if s.len() > 0 {
        let next = match let_binding(s[0]) {
            Some(b) => upsert(live, b@),
            None => live,
        };
        if let Some(b) = let_binding(s[0]) {
            lemma_upsert(live, b@);
        }
        lemma_record_lets(next, s.drop_first());
    }
}

proof fn lemma_upsert_names(live: Seq<BindingView>, ns: Seq<String>, t: Hint)
    requires
        distinct_names(live),
    ensures
        distinct_names(upsert_names(live, ns, t)),
        names(live).subset_of(names(upsert_names(live, ns, t))),
    decreases ns.len(),
{
    if ns.len() > 0 {
        let b = BindingView { name: ns[0]@, ty: Ty::Hinted(t), mutable: false };
        lemma_upsert(live, b);
        lemma_upsert_names(upsert(live, b), ns.drop_first(), t);
    }
}

proof fn lemma_at_suspend(join: Seq<BindingView>, k: SuspendKind)
    requires
        distinct_names(join),
    ensures
        distinct_names(at_suspend(join, k)),
        names(join).subset_of(names(at_suspend(join, k))),
{
    match k {
        SuspendKind::IfThen { before_await, .. } => lemma_record_lets(join, before_await@),
        SuspendKind::IfElse { before_await, .. } => lemma_record_lets(join, before_await@),
        SuspendKind::Loop { before_await, .. } => lemma_record_lets(join, before_await@),
        SuspendKind::For { item, source, before_await, .. } => {
            let b1 = BindingView { name: "__iter"@, ty: crate::inspect::iter_ty_of(source), mutable: true };
            let b2 = BindingView { name: item@, ty: crate::inspect::item_ty_of(source), mutable: false };
            lemma_upsert(join, b1);
            lemma_upsert(upsert(join, b1), b2);
            lemma_record_lets(upsert(upsert(join, b1), b2), before_await@);
        },
        SuspendKind::MatchArm { scrut_ty, pat_binds, before_await, .. } => {
            lemma_upsert_names(join, pat_binds@, scrut_ty);
            lemma_record_lets(upsert_names(join, pat_binds@, scrut_ty), before_await@);
        },
        SuspendKind::MatchGuard { scrut_ty, .. } => {
            lemma_upsert(join, BindingView { name: "__scrut"@, ty: Ty::Hinted(scrut_ty), mutable: false });
        },
        SuspendKind::Plain { .. } => {
            if let Some(c) = crate::split::kind_child(k) {
                lemma_upsert(join, BindingView { name: "__child"@, ty: c, mutable: true });
            }
        },
        _ => {},
    }
}

/// Every state keeps its locals under distinct names, and a local once
/// kept stays kept: the waiting state of a point keeps all that its join
/// state keeps, and the next point's join state all that it keeps.
pub proof fn lemma_live_locals(a: Seq<AwaitPoint>, i: int)
    requires
        0 <= i < a.len(),
    ensures
        distinct_names(live_before(a, i)),
        distinct_names(join_at(a, i)),
        distinct_names(caps_at(a, i)),
        names(live_before(a, i)).subset_of(names(join_at(a, i))),
        names(join_at(a, i)).subset_of(names(caps_at(a, i))),
        names(caps_at(a, i)).subset_of(names(live_before(a, i + 1))),
        distinct_names(live_before(a, i + 1)),
    decreases i,
{
    if i > 0 {
        lemma_live_locals(a, i - 1);
    } else {
        assert(live_before(a, i) =~= Seq::<BindingView>::empty());
    }
    lemma_record_lets(live_before(a, i), a[i].before@);
    lemma_at_suspend(join_at(a, i), a[i].kind);
    lemma_record_lets(caps_at(a, i), resumed_stmts(a[i].kind));
    lemma_record_lets(
        record_lets(caps_at(a, i), resumed_stmts(a[i].kind)),
        crate::split::join_of(a[i].kind),
    );
    assert(live_before(a, i + 1) == record_lets(
        record_lets(caps_at(a, i), resumed_stmts(a[i].kind)),
        crate::split::join_of(a[i].kind),
    ));
}

/// Records the typed `let` bindings of `stmts` in `live`, in order.
pub fn record_stmt_lets(live: &mut Vec<Binding>, stmts: &Vec<Stmt>)
    ensures
        views(final(live)@) == record_lets(views(old(live)@), stmts@),
{
    let mut i: usize = 0;
    assert(stmts@.skip(0) =~= stmts@);
    while i < stmts.len()
        invariant
            0 <= i <= stmts.len(),
            record_lets(views(old(live)@), stmts@) == record_lets(views(live@), stmts@.skip(i as int)),
        decreases stmts.len() - i,
    {
        assert(stmts@.skip(i as int)[0] == stmts@[i as int]);
        assert(stmts@.skip(i as int).drop_first() =~= stmts@.skip(i + 1));
        match typed_let_binding(&stmts[i]) {
            Some(b) => upsert_binding(live, b),
            None => {},
        }
        i += 1;
    }
}

fn record_one_let(live: &mut Vec<Binding>, stmt: &Stmt)
    ensures
        views(final(live)@) == record_lets(views(old(live)@), seq![*stmt]),
{
    assert(seq![*stmt].drop_first() =~= Seq::<Stmt>::empty());
    reveal_with_fuel(record_lets, 2);
    match typed_let_binding(stmt) {
        Some(b) => upsert_binding(live, b),
        None => {},
    }
}

proof fn lemma_record_lets_concat(live: Seq<BindingView>, s1: Seq<Stmt>, s2: Seq<Stmt>)
    ensures
        record_lets(live, s1 + s2) == record_lets(record_lets(live, s1), s2),
    decreases s1.len(),
{
    if s1.len() == 0 {
        assert(s1 + s2 =~= s2);
    } else {
        let next = match let_binding(s1[0]) {
            Some(b) => upsert(live, b@),
            None => live,
        };
        assert((s1 + s2).drop_first() =~= s1.drop_first() + s2);
        lemma_record_lets_concat(next, s1.drop_first(), s2);
    }
}

/// Records the bindings of the statements a point runs after resuming.
fn record_resumed(live: &mut Vec<Binding>, k: &SuspendKind)
    ensures
        views(final(live)@) == record_lets(views(old(live)@), resumed_stmts(*k)),
{
    match k {
        SuspendKind::Plain { resume } => record_one_let(live, &resume.stmt),
        SuspendKind::IfThen { resume, after_await, .. } | SuspendKind::IfElse {
            resume,
            after_await,
            ..
        } | SuspendKind::Loop { resume, after_await, .. } | SuspendKind::MatchArm {
            resume,
            after_await,
            ..
        } => {
            proof {
                lemma_record_lets_concat(views(live@), seq![resume.stmt], after_await@);
            }
            record_one_let(live, &resume.stmt);
            record_stmt_lets(live, after_await);
        },
        SuspendKind::For { resume, after_await, .. } => match resume {
            Some(r) => {
                proof {
                    lemma_record_lets_concat(views(live@), seq![r.stmt], after_await@);
                }
                record_one_let(live, &r.stmt);
                record_stmt_lets(live, after_await);
            },
            None => record_stmt_lets(live, after_await),
        },
        _ => {
            assert(resumed_stmts(*k) =~= Seq::<Stmt>::empty());
        },
    }
}

/// Records the bindings of a point's join statements.
fn record_join(live: &mut Vec<Binding>, k: &SuspendKind)
    ensures
        views(final(live)@) == record_lets(views(old(live)@), crate::split::join_of(*k)),
{
    match k {
        SuspendKind::IfThen { join_stmts, .. } | SuspendKind::IfElse { join_stmts, .. }
        | SuspendKind::Loop { join_stmts, .. } | SuspendKind::For { join_stmts, .. }
        | SuspendKind::MatchArm { join_stmts, .. } | SuspendKind::MatchGuard { join_stmts, .. } =>
            record_stmt_lets(live, join_stmts),
        _ => {
            assert(crate::split::join_of(*k) =~= Seq::<Stmt>::empty());
        },
    }
}

/// Records the bindings a point makes live before it suspends.
fn record_suspend(live: &mut Vec<Binding>, k: &SuspendKind)
    ensures
        views(final(live)@) == at_suspend(views(old(live)@), *k),
{
    match k {
        SuspendKind::IfThen { before_await, .. } | SuspendKind::IfElse { before_await, .. }
        | SuspendKind::Loop { before_await, .. } => record_stmt_lets(live, before_await),
        SuspendKind::For { item, source, before_await, .. } => {
            upsert_binding(
                live,
                Binding { name: String::from_str("__iter"), ty: crate::inspect::iter_ty(source), mutable: true },
            );
            upsert_binding(
                live,
                Binding { name: item.clone(), ty: crate::inspect::item_ty(source), mutable: false },
            );
            record_stmt_lets(live, before_await);
        },
        SuspendKind::MatchArm { scrut_ty, pat_binds, before_await, .. } => {
            let mut j: usize = 0;
            assert(pat_binds@.skip(0) =~= pat_binds@);
            let ghost start = views(live@);
            while j < pat_binds.len()
                invariant
                    0 <= j <= pat_binds.len(),
                    upsert_names(start, pat_binds@, *scrut_ty) == upsert_names(views(live@), pat_binds@.skip(j as int), *scrut_ty),
                decreases pat_binds.len() - j,
            {
                assert(pat_binds@.skip(j as int)[0] == pat_binds@[j as int]);
                assert(pat_binds@.skip(j as int).drop_first() =~= pat_binds@.skip(j + 1));
                upsert_binding(
                    live,
                    Binding { name: pat_binds[j].clone(), ty: Ty::Hinted(*scrut_ty), mutable: false },
                );
                j += 1;
            }
            record_stmt_lets(live, before_await);
        },
        SuspendKind::MatchGuard { scrut_ty, .. } => {
            upsert_binding(
                live,
                Binding { name: String::from_str("__scrut"), ty: Ty::Hinted(*scrut_ty), mutable: false },
            );
        },
        SuspendKind::Plain { .. } => {
            if let Some(c) = crate::split::child_of(k) {
                upsert_binding(live, Binding { name: String::from_str("__child"), ty: c, mutable: true });
            }
        },
        _ => {},
    }
}

/// The locals each state keeps: for each point, those of its join state
/// (live once the statements before it ran) and those kept while it waits.
#[verifier::loop_isolation(false)]
pub fn live_bindings(awaits: &Vec<AwaitPoint>) -> (r: (Vec<Vec<Binding>>, Vec<Vec<Binding>>))
    ensures
        r.0@.len() == awaits@.len(),
        r.1@.len() == awaits@.len(),
        forall|i: int| 0 <= i < awaits@.len() ==> #[trigger] views(r.0@[i]@) == join_at(awaits@, i),
        forall|i: int| 0 <= i < awaits@.len() ==> #[trigger] views(r.1@[i]@) == caps_at(awaits@, i),
{
    let mut live: Vec<Binding> = Vec::new();
    let mut joins: Vec<Vec<Binding>> = Vec::new();
    let mut caps: Vec<Vec<Binding>> = Vec::new();
    let mut i: usize = 0;
    assert(views(live@) =~= live_before(awaits@, 0));
    while i < awaits.len()
        invariant
            0 <= i <= awaits.len(),
            joins@.len() == i,
            caps@.len() == i,
            views(live@) == live_before(awaits@, i as int),
            forall|j: int| 0 <= j < i ==> #[trigger] views(joins@[j]@) == join_at(awaits@, j),
            forall|j: int| 0 <= j < i ==> #[trigger] views(caps@[j]@) == caps_at(awaits@, j),
        decreases awaits.len() - i,
    {
        let ap = &awaits[i];
        record_stmt_lets(&mut live, &ap.before);
        joins.push(clone_bindings(&live));
        record_suspend(&mut live, &ap.kind);
        caps.push(clone_bindings(&live));
        record_resumed(&mut live, &ap.kind);
        record_join(&mut live, &ap.kind);
        assert(views(live@) == live_before(awaits@, i + 1));
        i += 1;
    }
    (joins, caps)
}

// ---------------------------------------------------------------------------
// States.

/// Points whose state loops back to a head state.
pub open spec fn is_loop_kind(k: SuspendKind) -> bool {
    k is Loop || k is For
}

/// Points after which control meets in an `AfterMatch` state.
pub open spec fn is_match_join_kind(k: SuspendKind) -> bool {
    k is MatchArm || k is MatchGuard
}

/// A `for` whose range is awaited.
pub open spec fn has_iter_await(k: SuspendKind) -> bool {
    k matches SuspendKind::For { iter_await_base: Some(_), .. }
}

/// A point that waits in a state named after it: all but a `for` whose body does not await.
pub open spec fn waits(k: SuspendKind) -> bool {
    !(k matches SuspendKind::For { has_body_await: false, .. })
}

/// Whether the point loops back to a head state.
pub fn is_loop(k: &SuspendKind) -> (r: bool)
    ensures
        r == is_loop_kind(*k),
{
    match k {
        SuspendKind::Loop { .. } | SuspendKind::For { .. } => true,
        _ => false,
    }
}

/// Whether the point is a `for` whose range is awaited.
pub fn for_has_iter_await(k: &SuspendKind) -> (r: bool)
    ensures
        r == has_iter_await(*k),
{
    match k {
        SuspendKind::For { iter_await_base: Some(_), .. } => true,
        _ => false,
    }
}

/// Whether the point waits in a state named after it.
pub fn waits_in_own_state(k: &SuspendKind) -> (r: bool)
    ensures
        r == waits(*k),
{
    match k {
        SuspendKind::For { has_body_await: false, .. } => false,
        _ => true,
    }
}

/// Name of the join state after point `index`.
pub open spec fn join_name(k: SuspendKind, index: nat) -> Seq<char> {
    if is_loop_kind(k) {
        "AfterLoop"@ + decimal(index)
    } else if is_match_join_kind(k) {
        "AfterMatch"@ + decimal(index)
    } else {
        "AfterIf"@ + decimal(index)
    }
}

/// Name of the join state after point `index`.
pub fn join_variant(k: &SuspendKind, index: usize) -> (r: String)
    ensures
        r@ == join_name(*k, index as nat),
{
    match k {
        SuspendKind::Loop { .. } | SuspendKind::For { .. } => after_loop_variant(index),
        SuspendKind::MatchArm { .. } | SuspendKind::MatchGuard { .. } => after_match_variant(index),
        _ => after_if_variant(index),
    }
}

/// The type an awaited iterable of a `for` point settles to.
pub open spec fn iter_ty_of(k: SuspendKind) -> Ty {
    match k {
        SuspendKind::For { source, .. } => crate::inspect::iterable_ty_of(source),
        _ => Ty::Hinted(Hint::Bool),
    }
}

/// Locals kept in a loop's head state: those of its join state, and for a
/// `for` its iterator as well.
pub open spec fn head_caps(k: SuspendKind, join: Seq<BindingView>) -> Seq<BindingView> {
    match k {
        SuspendKind::For { source, .. } => join.push(
            BindingView { name: "__iter"@, ty: crate::inspect::iter_ty_of(source), mutable: true },
        ),
        _ => join,
    }
}

/// Locals kept in a loop's head state.
pub fn loop_head_caps(k: &SuspendKind, join: &Vec<Binding>) -> (r: Vec<Binding>)
    ensures
        views(r@) == head_caps(*k, views(join@)),
{
    let mut caps = clone_bindings(join);
    match k {
        SuspendKind::For { source, .. } => {
            caps.push(Binding { name: String::from_str("__iter"), ty: crate::inspect::iter_ty(source), mutable: true });
            assert(views(caps@) =~= head_caps(*k, views(join@)));
        },
        _ => {},
    }
    caps
}

/// A state of the coroutine: its name, the locals it keeps, and for a
/// waiting state the type of the settled value it holds.
pub struct Variant {
    pub name: String,
    pub fields: Vec<Binding>,
    pub wait: Option<Ty>,
}

pub struct VariantView {
    pub name: Seq<char>,
    pub fields: Seq<BindingView>,
    pub wait: Option<Ty>,
}

impl View for Variant {
    type V = VariantView;

    open spec fn view(&self) -> VariantView {
        VariantView { name: self.name@, fields: views(self.fields@), wait: self.wait }
    }
}

/// The states point `i` contributes: waiting on an awaited range, waiting
/// on its own await, its loop head, its join state; each when it applies.
pub open spec fn point_variants(a: Seq<AwaitPoint>, i: int) -> Seq<VariantView> {
    let k = a[i].kind;
    let join = join_at(a, i);
    (if has_iter_await(k) {
        seq![VariantView { name: "WaitingIter"@ + decimal(i as nat), fields: join, wait: Some(iter_ty_of(k)) }]
    } else {
        Seq::empty()
    }) + (if waits(k) {
        seq![VariantView { name: "Waiting"@ + upper_camel(a[i].name@), fields: caps_at(a, i), wait: wait_slot(a, i) }]
    } else {
        Seq::empty()
    }) + (if is_loop_kind(k) {
        seq![VariantView { name: "LoopHead"@ + decimal(i as nat), fields: head_caps(k, join), wait: None }]
    } else {
        Seq::empty()
    }) + (if needs_join_kind(k) {
        seq![VariantView { name: join_name(k, i as nat), fields: join, wait: None }]
    } else {
        Seq::empty()
    })
}

/// The states of points `i..`.
pub open spec fn variants_from(a: Seq<AwaitPoint>, i: int) -> Seq<VariantView>
    decreases a.len() - i,
{
    if i >= a.len() || i < 0 {
        Seq::empty()
    } else {
        point_variants(a, i) + variants_from(a, i + 1)
    }
}

/// All states: `NotStarted`, those of each point in order, `Finished`.
pub open spec fn all_variants(a: Seq<AwaitPoint>) -> Seq<VariantView> {
    seq![VariantView { name: "NotStarted"@, fields: Seq::empty(), wait: None }] + variants_from(a, 0)
        + seq![VariantView { name: "Finished"@, fields: Seq::empty(), wait: None }]
}

fn push_point_variants(
    out: &mut Vec<Variant>,
    awaits: &Vec<AwaitPoint>,
    joins: &Vec<Vec<Binding>>,
    caps: &Vec<Vec<Binding>>,
    i: usize,
)
    requires
        i < awaits@.len(),
        joins@.len() == awaits@.len(),
        caps@.len() == awaits@.len(),
        views(joins@[i as int]@) == join_at(awaits@, i as int),
        views(caps@[i as int]@) == caps_at(awaits@, i as int),
    ensures
        final(out)@.map_values(|v: Variant| v@) == old(out)@.map_values(|v: Variant| v@) + point_variants(awaits@, i as int),
{
    let ghost start = old(out)@.map_values(|v: Variant| v@);
    let ap = &awaits[i];
    let ghost k = ap.kind;
    let ghost p1: Seq<VariantView> = if has_iter_await(k) {
        seq![VariantView { name: "WaitingIter"@ + decimal(i as nat), fields: join_at(awaits@, i as int), wait: Some(iter_ty_of(k)) }]
    } else {
        Seq::empty()
    };
    let ghost p2: Seq<VariantView> = if waits(k) {
        seq![VariantView { name: "Waiting"@ + upper_camel(ap.name@), fields: caps_at(awaits@, i as int), wait: wait_slot(awaits@, i as int) }]
    } else {
        Seq::empty()
    };
    let ghost p3: Seq<VariantView> = if is_loop_kind(k) {
        seq![VariantView { name: "LoopHead"@ + decimal(i as nat), fields: head_caps(k, join_at(awaits@, i as int)), wait: None }]
    } else {
        Seq::empty()
    };
    if for_has_iter_await(&ap.kind) {
        let t = match &ap.kind {
            SuspendKind::For { source, .. } => crate::inspect::iterable_ty(source),
            _ => Ty::Hinted(Hint::Bool),
        };
        out.push(Variant { name: waiting_iter_variant(i), fields: clone_bindings(&joins[i]), wait: Some(t) });
    }
    assert(out@.map_values(|v: Variant| v@) =~= start + p1);
    if waits_in_own_state(&ap.kind) {
        let slot = match crate::split::child_of(&ap.kind) {
            Some(_) => None,
            None => Some(ap.wait_ty.clone()),
        };
        out.push(Variant { name: waiting_variant(ap.name.as_str()), fields: clone_bindings(&caps[i]), wait: slot });
    }
    assert(out@.map_values(|v: Variant| v@) =~= start + p1 + p2);
    if is_loop(&ap.kind) {
        out.push(Variant { name: loop_head_variant(i), fields: loop_head_caps(&ap.kind, &joins[i]), wait: None });
    }
    assert(out@.map_values(|v: Variant| v@) =~= start + p1 + p2 + p3);
    if needs_join(&ap.kind) {
        out.push(Variant { name: join_variant(&ap.kind, i), fields: clone_bindings(&joins[i]), wait: None });
    }
    assert(out@.map_values(|v: Variant| v@) =~= start + point_variants(awaits@, i as int));
}

/// The states of the coroutine, in declaration order.
pub(crate) fn make_variants(
    awaits: &Vec<AwaitPoint>,
    joins: &Vec<Vec<Binding>>,
    caps: &Vec<Vec<Binding>>,
) -> (r: Vec<Variant>)
    requires
        joins@.len() == awaits@.len(),
        caps@.len() == awaits@.len(),
        forall|i: int| 0 <= i < awaits@.len() ==> #[trigger] views(joins@[i]@) == join_at(awaits@, i),
        forall|i: int| 0 <= i < awaits@.len() ==> #[trigger] views(caps@[i]@) == caps_at(awaits@, i),
    ensures
        r@.map_values(|v: Variant| v@) == all_variants(awaits@),
{
    let mut out: Vec<Variant> = Vec::new();
    let none: Vec<Binding> = Vec::new();
    assert(views(none@) =~= Seq::<BindingView>::empty());
    out.push(Variant { name: String::from_str("NotStarted"), fields: none, wait: None });
    let ghost head = out@.map_values(|v: Variant| v@);
    assert(head =~= seq![VariantView { name: "NotStarted"@, fields: Seq::empty(), wait: None }]);
    let mut i: usize = 0;
    while i < awaits.len()
        invariant
            0 <= i <= awaits@.len(),
            joins@.len() == awaits@.len(),
            caps@.len() == awaits@.len(),
            forall|j: int| 0 <= j < awaits@.len() ==> #[trigger] views(joins@[j]@) == join_at(awaits@, j),
            forall|j: int| 0 <= j < awaits@.len() ==> #[trigger] views(caps@[j]@) == caps_at(awaits@, j),
            head.len() == 1,
            head[0] == (VariantView { name: "NotStarted"@, fields: Seq::empty(), wait: None }),
            head + variants_from(awaits@, 0) == out@.map_values(|v: Variant| v@) + variants_from(awaits@, i as int),
        decreases awaits.len() - i,
    {
        let ghost before = out@.map_values(|v: Variant| v@);
        push_point_variants(&mut out, awaits, joins, caps, i);
        assert(before + variants_from(awaits@, i as int) =~= out@.map_values(|v: Variant| v@) + variants_from(awaits@, i + 1));
        i += 1;
    }
    let ghost before = out@.map_values(|v: Variant| v@);
    let none: Vec<Binding> = Vec::new();
    assert(views(none@) =~= Seq::<BindingView>::empty());
    out.push(Variant { name: String::from_str("Finished"), fields: none, wait: None });
    assert(variants_from(awaits@, i as int) =~= Seq::<VariantView>::empty());
    assert(out@.map_values(|v: Variant| v@) =~= all_variants(awaits@));
    out
}

// ---------------------------------------------------------------------------
// Settling awaits.

/// An arm of `settle_wait`: the waiting state it matches and the type of
/// the value; `by_clone` when the value is cloned (for a range) rather than
/// copied, `forward` when the state
/// drives a child coroutine, which the value is handed on to.
pub struct SettleArm {
    pub variant: String,
    pub ty: Ty,
    pub by_clone: bool,
    pub forward: bool,
}

pub struct SettleView {
    pub variant: Seq<char>,
    pub ty: Ty,
    pub by_clone: bool,
    pub forward: bool,
}

/// The settle slot of the state a settle arm matches: none when the value
/// is handed on to a child coroutine.
pub open spec fn settle_slot(sv: SettleView) -> Option<Ty> {
    if sv.forward {
        None
    } else {
        Some(sv.ty)
    }
}

/// The settle slot of the waiting state of point `i`: none when the point
/// drives a child coroutine, else one of its await's type.
pub open spec fn wait_slot(a: Seq<AwaitPoint>, i: int) -> Option<Ty> {
    if crate::split::kind_child(a[i].kind) is Some {
        None
    } else {
        Some(a[i].wait_ty)
    }
}

impl View for SettleArm {
    type V = SettleView;

    open spec fn view(&self) -> SettleView {
        SettleView { variant: self.variant@, ty: self.ty, by_clone: self.by_clone, forward: self.forward }
    }
}

/// The settle arms of point `i`: its awaited range, then its own await.
pub open spec fn point_settles(a: Seq<AwaitPoint>, i: int) -> Seq<SettleView> {
    let k = a[i].kind;
    (if has_iter_await(k) {
        seq![SettleView { variant: "WaitingIter"@ + decimal(i as nat), ty: iter_ty_of(k), by_clone: true, forward: false }]
    } else {
        Seq::empty()
    }) + (if waits(k) {
        seq![SettleView {
            variant: "Waiting"@ + upper_camel(a[i].name@),
            ty: a[i].wait_ty,
            by_clone: false,
            forward: crate::split::kind_child(k) is Some,
        }]
    } else {
        Seq::empty()
    })
}

pub open spec fn settles_from(a: Seq<AwaitPoint>, i: int) -> Seq<SettleView>
    decreases a.len() - i,
{
    if i >= a.len() || i < 0 {
        Seq::empty()
    } else {
        point_settles(a, i) + settles_from(a, i + 1)
    }
}

/// The arms of `settle_wait`, one per waiting state.
pub fn make_settle_arms(awaits: &Vec<AwaitPoint>) -> (r: Vec<SettleArm>)
    ensures
        r@.map_values(|s: SettleArm| s@) == settles_from(awaits@, 0),
{
    let mut out: Vec<SettleArm> = Vec::new();
    let mut i: usize = 0;
    assert(out@.map_values(|s: SettleArm| s@) =~= Seq::<SettleView>::empty());
    while i < awaits.len()
        invariant
            0 <= i <= awaits@.len(),
            settles_from(awaits@, 0) == out@.map_values(|s: SettleArm| s@) + settles_from(awaits@, i as int),
        decreases awaits.len() - i,
    {
        let ghost start = out@.map_values(|s: SettleArm| s@);
        let ap = &awaits[i];
        let ghost k = ap.kind;
        let ghost p1: Seq<SettleView> = if has_iter_await(k) {
            seq![SettleView { variant: "WaitingIter"@ + decimal(i as nat), ty: iter_ty_of(k), by_clone: true, forward: false }]
        } else {
            Seq::empty()
        };
        if for_has_iter_await(&ap.kind) {
            let t = match &ap.kind {
                SuspendKind::For { source, .. } => crate::inspect::iterable_ty(source),
                _ => Ty::Hinted(Hint::Bool),
            };
            out.push(SettleArm { variant: waiting_iter_variant(i), ty: t, by_clone: true, forward: false });
        }
        assert(out@.map_values(|s: SettleArm| s@) =~= start + p1);
        if waits_in_own_state(&ap.kind) {
            let forward = crate::split::child_of(&ap.kind).is_some();
            out.push(SettleArm { variant: waiting_variant(ap.name.as_str()), ty: ap.wait_ty.clone(), by_clone: false, forward });
        }
        assert(out@.map_values(|s: SettleArm| s@) =~= start + point_settles(awaits@, i as int));
        assert(start + settles_from(awaits@, i as int) =~= out@.map_values(|s: SettleArm| s@) + settles_from(awaits@, i + 1));
        i += 1;
    }
    assert(out@.map_values(|s: SettleArm| s@) + Seq::<SettleView>::empty() =~= out@.map_values(|s: SettleArm| s@));
    out
}

proof fn lemma_point_settle_declared(a: Seq<AwaitPoint>, i: int, j: int)
    requires
        0 <= i < a.len(),
        0 <= j < point_settles(a, i).len(),
    ensures
        exists|m: int| 0 <= m < point_variants(a, i).len() && #[trigger] point_variants(a, i)[m].name
            == point_settles(a, i)[j].variant && point_variants(a, i)[m].wait == settle_slot(point_settles(a, i)[j]),
{
    let k = a[i].kind;
    let ps = point_settles(a, i);
    let pv = point_variants(a, i);
    if has_iter_await(k) {
        if j == 0 {
            assert(pv[0].name == ps[0].variant);
        } else {
            assert(pv[1].name == ps[1].variant);
        }
    } else {
        assert(pv[0].name == ps[0].variant);
    }
}

proof fn lemma_settles_declared_from(a: Seq<AwaitPoint>, i: int, j: int)
    requires
        0 <= i <= a.len(),
        0 <= j < settles_from(a, i).len(),
    ensures
        exists|m: int| 0 <= m < variants_from(a, i).len() && #[trigger] variants_from(a, i)[m].name
            == settles_from(a, i)[j].variant && variants_from(a, i)[m].wait == settle_slot(settles_from(a, i)[j]),
    decreases a.len() - i,
{
    if i < a.len() {
        let ps = point_settles(a, i);
        let pv = point_variants(a, i);
        if j < ps.len() {
            lemma_point_settle_declared(a, i, j);
            let m = choose|m: int| 0 <= m < pv.len() && #[trigger] pv[m].name == ps[j].variant && pv[m].wait == settle_slot(ps[j]);
            assert(variants_from(a, i)[m] == pv[m]);
        } else {
            lemma_settles_declared_from(a, i + 1, j - ps.len());
            let m = choose|m: int| 0 <= m < variants_from(a, i + 1).len() && #[trigger] variants_from(a, i + 1)[m].name
                == settles_from(a, i + 1)[j - ps.len()].variant && variants_from(a, i + 1)[m].wait == settle_slot(settles_from(a, i + 1)[j - ps.len()]);
            assert(variants_from(a, i)[m + pv.len()] == variants_from(a, i + 1)[m]);
        }
    }
}

/// Every arm of `settle_wait` stores into a declared waiting state whose
/// settled value has the arm's type.
pub proof fn lemma_settle_arms_declared(a: Seq<AwaitPoint>, j: int)
    requires
        0 <= j < settles_from(a, 0).len(),
    ensures
        exists|m: int| 0 <= m < all_variants(a).len() && #[trigger] all_variants(a)[m].name
            == settles_from(a, 0)[j].variant && all_variants(a)[m].wait == settle_slot(settles_from(a, 0)[j]),
{
    lemma_settles_declared_from(a, 0, j);
    let m = choose|m: int| 0 <= m < variants_from(a, 0).len() && #[trigger] variants_from(a, 0)[m].name
        == settles_from(a, 0)[j].variant && variants_from(a, 0)[m].wait == settle_slot(settles_from(a, 0)[j]);
    assert(all_variants(a)[m + 1] == variants_from(a, 0)[m]);
}

// ---------------------------------------------------------------------------
// Rehydration and getters.

/// The bindings of `s` whose type is `SkipSerde`.
pub open spec fn skip_only(s: Seq<BindingView>) -> Seq<BindingView>
    decreases s.len(),
{
    if s.len() == 0 {
        Seq::empty()
    } else {
        (if skips_serde(s[0].ty) {
            seq![s[0]]
        } else {
            Seq::empty()
        }) + skip_only(s.drop_first())
    }
}

/// `acc` with each of `s` recorded in order.
pub open spec fn upsert_all(acc: Seq<BindingView>, s: Seq<BindingView>) -> Seq<BindingView>
    decreases s.len(),
{
    if s.len() == 0 {
        acc
    } else {
        upsert_all(upsert(acc, s[0]), s.drop_first())
    }
}

/// `acc` with the skipped bindings of every waiting state from point `i` on recorded.
pub open spec fn skips_of_caps(a: Seq<AwaitPoint>, acc: Seq<BindingView>, i: int) -> Seq<BindingView>
    decreases a.len() - i,
{
    if i >= a.len() || i < 0 {
        acc
    } else {
        skips_of_caps(a, upsert_all(acc, skip_only(caps_at(a, i))), i + 1)
    }
}

/// `acc` with the skipped bindings of every join state from point `i` on recorded.
pub open spec fn skips_of_joins(a: Seq<AwaitPoint>, acc: Seq<BindingView>, i: int) -> Seq<BindingView>
    decreases a.len() - i,
{
    if i >= a.len() || i < 0 {
        acc
    } else {
        skips_of_joins(a, upsert_all(acc, skip_only(join_at(a, i))), i + 1)
    }
}

/// Every skipped binding kept in some state, once each.
pub open spec fn all_skips(a: Seq<AwaitPoint>) -> Seq<BindingView> {
    skips_of_joins(a, skips_of_caps(a, Seq::empty(), 0), 0)
}

/// `acc` with every binding of every waiting state from point `i` on recorded.
pub open spec fn all_of_caps(a: Seq<AwaitPoint>, acc: Seq<BindingView>, i: int) -> Seq<BindingView>
    decreases a.len() - i,
{
    if i >= a.len() || i < 0 {
        acc
    } else {
        all_of_caps(a, upsert_all(acc, caps_at(a, i)), i + 1)
    }
}

/// `acc` with every binding of every join state from point `i` on recorded.
pub open spec fn all_of_joins(a: Seq<AwaitPoint>, acc: Seq<BindingView>, i: int) -> Seq<BindingView>
    decreases a.len() - i,
{
    if i >= a.len() || i < 0 {
        acc
    } else {
        all_of_joins(a, upsert_all(acc, join_at(a, i)), i + 1)
    }
}

/// Every binding kept in some state, once each.
pub open spec fn all_kept(a: Seq<AwaitPoint>) -> Seq<BindingView> {
    all_of_joins(a, all_of_caps(a, Seq::empty(), 0), 0)
}

/// The skipped bindings of a list.
pub fn skip_bindings(v: &Vec<Binding>) -> (r: Vec<Binding>)
    ensures
        views(r@) == skip_only(views(v@)),
{
    let mut out: Vec<Binding> = Vec::new();
    let mut i: usize = 0;
    assert(views(v@).skip(0) =~= views(v@));
    assert(views(out@) =~= Seq::<BindingView>::empty());
    while i < v.len()
        invariant
            0 <= i <= v.len(),
            skip_only(views(v@)) == views(out@) + skip_only(views(v@).skip(i as int)),
        decreases v.len() - i,
    {
        let ghost before = views(out@);
        assert(views(v@).skip(i as int)[0] == v@[i as int]@);
        assert(views(v@).skip(i as int).drop_first() =~= views(v@).skip(i + 1));
        if is_skip_serde(&v[i].ty) {
            out.push(v[i].clone());
        }
        assert(before + skip_only(views(v@).skip(i as int)) =~= views(out@) + skip_only(views(v@).skip(i + 1)));
        i += 1;
    }
    assert(views(out@) + Seq::<BindingView>::empty() =~= views(out@));
    out
}

/// Records every binding of `v` in `acc`, in order.
pub fn upsert_each(acc: &mut Vec<Binding>, v: &Vec<Binding>)
    ensures
        views(final(acc)@) == upsert_all(views(old(acc)@), views(v@)),
{
    let mut i: usize = 0;
    assert(views(v@).skip(0) =~= views(v@));
    while i < v.len()
        invariant
            0 <= i <= v.len(),
            upsert_all(views(old(acc)@), views(v@)) == upsert_all(views(acc@), views(v@).skip(i as int)),
        decreases v.len() - i,
    {
        assert(views(v@).skip(i as int)[0] == v@[i as int]@);
        assert(views(v@).skip(i as int).drop_first() =~= views(v@).skip(i + 1));
        upsert_binding(acc, v[i].clone());
        i += 1;
    }
}

/// Every skipped binding kept in some state: first those of the waiting
/// states, then those of the join states, each name once.
pub(crate) fn collect_skips(joins: &Vec<Vec<Binding>>, caps: &Vec<Vec<Binding>>, awaits: &Vec<AwaitPoint>) -> (r: Vec<Binding>)
    requires
        joins@.len() == awaits@.len(),
        caps@.len() == awaits@.len(),
        forall|i: int| 0 <= i < awaits@.len() ==> #[trigger] views(joins@[i]@) == join_at(awaits@, i),
        forall|i: int| 0 <= i < awaits@.len() ==> #[trigger] views(caps@[i]@) == caps_at(awaits@, i),
    ensures
        views(r@) == all_skips(awaits@),
{
    let mut out: Vec<Binding> = Vec::new();
    let mut i: usize = 0;
    assert(views(out@) =~= Seq::<BindingView>::empty());
    while i < caps.len()
        invariant
            0 <= i <= caps@.len(),
            caps@.len() == awaits@.len(),
            forall|j: int| 0 <= j < awaits@.len() ==> #[trigger] views(caps@[j]@) == caps_at(awaits@, j),
            skips_of_caps(awaits@, Seq::empty(), 0) == skips_of_caps(awaits@, views(out@), i as int),
        decreases caps.len() - i,
    {
        let sk = skip_bindings(&caps[i]);
        upsert_each(&mut out, &sk);
        i += 1;
    }
    let mut i: usize = 0;
    while i < joins.len()
        invariant
            0 <= i <= joins@.len(),
            joins@.len() == awaits@.len(),
            forall|j: int| 0 <= j < awaits@.len() ==> #[trigger] views(joins@[j]@) == join_at(awaits@, j),
            all_skips(awaits@) == skips_of_joins(awaits@, views(out@), i as int),
        decreases joins.len() - i,
    {
        let sk = skip_bindings(&joins[i]);
        upsert_each(&mut out, &sk);
        i += 1;
    }
    out
}

/// Every binding kept in some state: first those of the waiting states,
/// then those of the join states, each name once.
pub(crate) fn collect_all_bindings(joins: &Vec<Vec<Binding>>, caps: &Vec<Vec<Binding>>, awaits: &Vec<AwaitPoint>) -> (r: Vec<Binding>)
    requires
        joins@.len() == awaits@.len(),
        caps@.len() == awaits@.len(),
        forall|i: int| 0 <= i < awaits@.len() ==> #[trigger] views(joins@[i]@) == join_at(awaits@, i),
        forall|i: int| 0 <= i < awaits@.len() ==> #[trigger] views(caps@[i]@) == caps_at(awaits@, i),
    ensures
        views(r@) == all_kept(awaits@),
{
    let mut out: Vec<Binding> = Vec::new();
    let mut i: usize = 0;
    assert(views(out@) =~= Seq::<BindingView>::empty());
    while i < caps.len()
        invariant
            0 <= i <= caps@.len(),
            caps@.len() == awaits@.len(),
            forall|j: int| 0 <= j < awaits@.len() ==> #[trigger] views(caps@[j]@) == caps_at(awaits@, j),
            all_of_caps(awaits@, Seq::empty(), 0) == all_of_caps(awaits@, views(out@), i as int),
        decreases caps.len() - i,
    {
        upsert_each(&mut out, &caps[i]);
        i += 1;
    }
    let mut i: usize = 0;
    while i < joins.len()
        invariant
            0 <= i <= joins@.len(),
            joins@.len() == awaits@.len(),
            forall|j: int| 0 <= j < awaits@.len() ==> #[trigger] views(joins@[j]@) == join_at(awaits@, j),
            all_kept(awaits@) == all_of_joins(awaits@, views(out@), i as int),
        decreases joins.len() - i,
    {
        upsert_each(&mut out, &joins[i]);
        i += 1;
    }
    out
}

/// An arm of `rehydrate`: the state it matches and the skipped bindings it
/// checks for a missing value, in order.
pub struct RehydArm {
    pub variant: String,
    pub checks: Vec<Binding>,
}

pub struct RehydArmView {
    pub variant: Seq<char>,
    pub checks: Seq<BindingView>,
}

impl View for RehydArm {
    type V = RehydArmView;

    open spec fn view(&self) -> RehydArmView {
        RehydArmView { variant: self.variant@, checks: views(self.checks@) }
    }
}

/// The `rehydrate` arms of point `i`: its waiting state (where it has one), its join state,
/// its loop head (which checks nothing).
pub open spec fn point_rehyd_arms(a: Seq<AwaitPoint>, i: int) -> Seq<RehydArmView> {
    let k = a[i].kind;
    (if waits(k) {
        seq![RehydArmView { variant: "Waiting"@ + upper_camel(a[i].name@), checks: skip_only(caps_at(a, i)) }]
    } else {
        Seq::empty()
    }) + (if needs_join_kind(k) {
        seq![RehydArmView { variant: join_name(k, i as nat), checks: skip_only(join_at(a, i)) }]
    } else {
        Seq::empty()
    }) + (if is_loop_kind(k) {
        seq![RehydArmView { variant: "LoopHead"@ + decimal(i as nat), checks: Seq::empty() }]
    } else {
        Seq::empty()
    })
}

pub open spec fn rehyd_arms_from(a: Seq<AwaitPoint>, i: int) -> Seq<RehydArmView>
    decreases a.len() - i,
{
    if i >= a.len() || i < 0 {
        Seq::empty()
    } else {
        point_rehyd_arms(a, i) + rehyd_arms_from(a, i + 1)
    }
}

/// Where the `rehydrate` arms of point `i` start.
pub open spec fn rehyd_offset(a: Seq<AwaitPoint>, i: int) -> int {
    rehyd_arms_from(a, 0).len() - rehyd_arms_from(a, i).len()
}

proof fn lemma_rehyd_from_split(a: Seq<AwaitPoint>, j: int, i: int)
    requires
        0 <= j <= i <= a.len(),
    ensures
        rehyd_arms_from(a, j).len() >= rehyd_arms_from(a, i).len(),
        forall|t: int|
            0 <= t < rehyd_arms_from(a, i).len() ==> #[trigger] rehyd_arms_from(a, j)[rehyd_arms_from(a, j).len()
                - rehyd_arms_from(a, i).len() + t] == rehyd_arms_from(a, i)[t],
    decreases i - j,
{
    if j < i {
        lemma_rehyd_from_split(a, j + 1, i);
        let rj = rehyd_arms_from(a, j);
        let rj1 = rehyd_arms_from(a, j + 1);
        let ri = rehyd_arms_from(a, i);
        let p = point_rehyd_arms(a, j);
        assert(rj == p + rj1);
        assert forall|t: int| 0 <= t < ri.len() implies #[trigger] rj[rj.len() - ri.len() + t] == ri[t] by {
            assert(rj1[rj1.len() - ri.len() + t] == ri[t]);
            assert(rj[p.len() + (rj1.len() - ri.len() + t)] == rj1[rj1.len() - ri.len() + t]);
        }
    }
}

/// The `rehydrate` arms of point `i` sit at `rehyd_offset(a, i)`.
pub proof fn lemma_rehyd_arms_at(a: Seq<AwaitPoint>, i: int)
    requires
        0 <= i < a.len(),
    ensures
        0 <= rehyd_offset(a, i),
        rehyd_offset(a, i) + point_rehyd_arms(a, i).len() <= rehyd_arms_from(a, 0).len(),
        forall|t: int|
            0 <= t < point_rehyd_arms(a, i).len() ==> #[trigger] rehyd_arms_from(a, 0)[rehyd_offset(a, i) + t]
                == point_rehyd_arms(a, i)[t],
{
    lemma_rehyd_from_split(a, 0, i);
    assert(rehyd_arms_from(a, i) == point_rehyd_arms(a, i) + rehyd_arms_from(a, i + 1));
    assert forall|t: int| 0 <= t < point_rehyd_arms(a, i).len() implies #[trigger] rehyd_arms_from(a, 0)[rehyd_offset(a, i)
        + t] == point_rehyd_arms(a, i)[t] by {
        assert(rehyd_arms_from(a, i)[t] == point_rehyd_arms(a, i)[t]);
    }
}

proof fn lemma_upsert_len(acc: Seq<BindingView>, b: BindingView)
    ensures
        upsert(acc, b).len() >= acc.len(),
        upsert(acc, b).len() >= 1,
{
    crate::bindings::lemma_name_index(acc, b.name);
}

proof fn lemma_upsert_all_len(acc: Seq<BindingView>, s: Seq<BindingView>)
    ensures
        upsert_all(acc, s).len() >= acc.len(),
        s.len() > 0 ==> upsert_all(acc, s).len() > 0,
    decreases s.len(),
{
    if s.len() > 0 {
        lemma_upsert_len(acc, s[0]);
        lemma_upsert_all_len(upsert(acc, s[0]), s.drop_first());
    }
}

proof fn lemma_skips_of_caps_len(a: Seq<AwaitPoint>, acc: Seq<BindingView>, j: int, i: int)
    requires
        0 <= j,
    ensures
        skips_of_caps(a, acc, j).len() >= acc.len(),
        j <= i < a.len() && skip_only(caps_at(a, i)).len() > 0 ==> skips_of_caps(a, acc, j).len() > 0,
    decreases a.len() - j,
{
    if j < a.len() {
        let next = upsert_all(acc, skip_only(caps_at(a, j)));
        lemma_upsert_all_len(acc, skip_only(caps_at(a, j)));
        lemma_skips_of_caps_len(a, next, j + 1, i);
    }
}

proof fn lemma_skips_of_joins_len(a: Seq<AwaitPoint>, acc: Seq<BindingView>, j: int)
    requires
        0 <= j,
    ensures
        skips_of_joins(a, acc, j).len() >= acc.len(),
    decreases a.len() - j,
{
    if j < a.len() {
        lemma_upsert_all_len(acc, skip_only(join_at(a, j)));
        lemma_skips_of_joins_len(a, upsert_all(acc, skip_only(join_at(a, j))), j + 1);
    }
}

/// A waiting state that keeps a skipped local makes the coroutine's list of
/// skipped locals non-empty.
pub proof fn lemma_skips_nonempty(a: Seq<AwaitPoint>, i: int)
    requires
        0 <= i < a.len(),
        skip_only(caps_at(a, i)).len() > 0,
    ensures
        all_skips(a).len() > 0,
{
    lemma_skips_of_caps_len(a, Seq::empty(), 0, i);
    lemma_skips_of_joins_len(a, skips_of_caps(a, Seq::empty(), 0), 0);
}

proof fn lemma_skips_of_joins_has(a: Seq<AwaitPoint>, acc: Seq<BindingView>, j: int, i: int)
    requires
        0 <= j,
    ensures
        acc.len() > 0 || (j <= i < a.len() && skip_only(join_at(a, i)).len() > 0) ==> skips_of_joins(a, acc, j).len() > 0,
    decreases a.len() - j,
{
    lemma_skips_of_joins_len(a, acc, j);
    if j < a.len() {
        let next = upsert_all(acc, skip_only(join_at(a, j)));
        lemma_upsert_all_len(acc, skip_only(join_at(a, j)));
        lemma_skips_of_joins_has(a, next, j + 1, i);
    }
}

/// A join state that keeps a skipped local makes the coroutine's list of
/// skipped locals non-empty.
pub proof fn lemma_join_skips_nonempty(a: Seq<AwaitPoint>, i: int)
    requires
        0 <= i < a.len(),
        skip_only(join_at(a, i)).len() > 0,
    ensures
        all_skips(a).len() > 0,
{
    lemma_skips_of_joins_has(a, skips_of_caps(a, Seq::empty(), 0), 0, i);
}

/// The arms of `rehydrate` after the one for `NotStarted` and `Finished`.
pub(crate) fn make_rehydration_arms(
    awaits: &Vec<AwaitPoint>,
    joins: &Vec<Vec<Binding>>,
    caps: &Vec<Vec<Binding>>,
) -> (r: Vec<RehydArm>)
    requires
        joins@.len() == awaits@.len(),
        caps@.len() == awaits@.len(),
        forall|i: int| 0 <= i < awaits@.len() ==> #[trigger] views(joins@[i]@) == join_at(awaits@, i),
        forall|i: int| 0 <= i < awaits@.len() ==> #[trigger] views(caps@[i]@) == caps_at(awaits@, i),
    ensures
        r@.map_values(|x: RehydArm| x@) == rehyd_arms_from(awaits@, 0),
{
    let mut out: Vec<RehydArm> = Vec::new();
    let mut i: usize = 0;
    assert(out@.map_values(|x: RehydArm| x@) =~= Seq::<RehydArmView>::empty());
    while i < awaits.len()
        invariant
            0 <= i <= awaits@.len(),
            joins@.len() == awaits@.len(),
            caps@.len() == awaits@.len(),
            forall|j: int| 0 <= j < awaits@.len() ==> #[trigger] views(joins@[j]@) == join_at(awaits@, j),
            forall|j: int| 0 <= j < awaits@.len() ==> #[trigger] views(caps@[j]@) == caps_at(awaits@, j),
            rehyd_arms_from(awaits@, 0) == out@.map_values(|x: RehydArm| x@) + rehyd_arms_from(awaits@, i as int),
        decreases awaits.len() - i,
    {
        let ghost start = out@.map_values(|x: RehydArm| x@);
        let ap = &awaits[i];
        let ghost k = ap.kind;
        if waits_in_own_state(&ap.kind) {
            out.push(RehydArm { variant: waiting_variant(ap.name.as_str()), checks: skip_bindings(&caps[i]) });
        }
        let ghost p1 = out@.map_values(|x: RehydArm| x@);
        assert(p1 =~= start + (if waits(k) {
            seq![RehydArmView { variant: "Waiting"@ + upper_camel(ap.name@), checks: skip_only(caps_at(awaits@, i as int)) }]
        } else {
            Seq::empty()
        }));
        if needs_join(&ap.kind) {
            out.push(RehydArm { variant: join_variant(&ap.kind, i), checks: skip_bindings(&joins[i]) });
        }
        let ghost p2 = out@.map_values(|x: RehydArm| x@);
        assert(p2 =~= p1 + (if needs_join_kind(k) {
            seq![RehydArmView { variant: join_name(k, i as nat), checks: skip_only(join_at(awaits@, i as int)) }]
        } else {
            Seq::empty()
        }));
        if is_loop(&ap.kind) {
            let none: Vec<Binding> = Vec::new();
            assert(views(none@) =~= Seq::<BindingView>::empty());
            out.push(RehydArm { variant: loop_head_variant(i), checks: none });
        }
        assert(out@.map_values(|x: RehydArm| x@) =~= start + point_rehyd_arms(awaits@, i as int));
        assert(start + rehyd_arms_from(awaits@, i as int) =~= out@.map_values(|x: RehydArm| x@) + rehyd_arms_from(awaits@, i + 1));
        i += 1;
    }
    assert(out@.map_values(|x: RehydArm| x@) + Seq::<RehydArmView>::empty() =~= out@.map_values(|x: RehydArm| x@));
    out
}

/// Whether some binding of `s` is named `n`.
pub open spec fn has_name(s: Seq<BindingView>, n: Seq<char>) -> bool {
    exists|i: int| 0 <= i < s.len() && #[trigger] s[i].name == n
}

fn contains_name(v: &Vec<Binding>, n: &String) -> (r: bool)
    ensures
        r == has_name(views(v@), n@),
{
    let mut i: usize = 0;
    while i < v.len()
        invariant
            0 <= i <= v.len(),
            forall|j: int| 0 <= j < i ==> views(v@)[j].name != n@,
        decreases v.len() - i,
    {
        if v[i].name == *n {
            assert(views(v@)[i as int].name == n@);
            return true;
        }
        i += 1;
    }
    false
}

/// Names that start with `__` belong to the generated code and get no getter.
pub open spec fn is_internal(n: Seq<char>) -> bool {
    n.len() >= 2 && n[0] == '_' && n[1] == '_'
}

fn internal_name(n: &String) -> (r: bool)
    ensures
        r == is_internal(n@),
{
    let s = n.as_str();
    s.unicode_len() >= 2 && s.get_char(0) == '_' && s.get_char(1) == '_'
}

/// A getter `get_<field>` for a kept local: the states that keep it.
pub struct Getter {
    pub field: String,
    pub getter: String,
    pub ty: Ty,
    pub variants: Vec<String>,
}

pub struct GetterView {
    pub field: Seq<char>,
    pub getter: Seq<char>,
    pub ty: Ty,
    pub variants: Seq<Seq<char>>,
}

impl View for Getter {
    type V = GetterView;

    open spec fn view(&self) -> GetterView {
        GetterView {
            field: self.field@,
            getter: self.getter@,
            ty: self.ty,
            variants: self.variants@.map_values(|s: String| s@),
        }
    }
}

/// The states of point `i` that keep `n`: its waiting state (where it has
/// one), its join state, its loop head.
pub open spec fn point_states_with(a: Seq<AwaitPoint>, i: int, n: Seq<char>) -> Seq<Seq<char>> {
    let k = a[i].kind;
    (if waits(k) && has_name(caps_at(a, i), n) {
        seq!["Waiting"@ + upper_camel(a[i].name@)]
    } else {
        Seq::empty()
    }) + (if needs_join_kind(k) && has_name(join_at(a, i), n) {
        seq![join_name(k, i as nat)]
    } else {
        Seq::empty()
    }) + (if is_loop_kind(k) && has_name(join_at(a, i), n) {
        seq!["LoopHead"@ + decimal(i as nat)]
    } else {
        Seq::empty()
    })
}

pub open spec fn states_with_from(a: Seq<AwaitPoint>, i: int, n: Seq<char>) -> Seq<Seq<char>>
    decreases a.len() - i,
{
    if i >= a.len() || i < 0 {
        Seq::empty()
    } else {
        point_states_with(a, i, n) + states_with_from(a, i + 1, n)
    }
}

/// The getters: one per kept local that is not internal, in the order of
/// [`all_kept`], each listing the states that keep it.
pub open spec fn getters_of(a: Seq<AwaitPoint>, kept: Seq<BindingView>) -> Seq<GetterView>
    decreases kept.len(),
{
    if kept.len() == 0 {
        Seq::empty()
    } else {
        (if is_internal(kept[0].name) {
            Seq::empty()
        } else {
            seq![GetterView {
                field: kept[0].name,
                getter: "get_"@ + kept[0].name,
                ty: kept[0].ty,
                variants: states_with_from(a, 0, kept[0].name),
            }]
        }) + getters_of(a, kept.drop_first())
    }
}

fn states_with(
    awaits: &Vec<AwaitPoint>,
    joins: &Vec<Vec<Binding>>,
    caps: &Vec<Vec<Binding>>,
    n: &String,
) -> (r: Vec<String>)
    requires
        joins@.len() == awaits@.len(),
        caps@.len() == awaits@.len(),
        forall|i: int| 0 <= i < awaits@.len() ==> #[trigger] views(joins@[i]@) == join_at(awaits@, i),
        forall|i: int| 0 <= i < awaits@.len() ==> #[trigger] views(caps@[i]@) == caps_at(awaits@, i),
    ensures
        r@.map_values(|s: String| s@) == states_with_from(awaits@, 0, n@),
{
    let mut out: Vec<String> = Vec::new();
    let mut i: usize = 0;
    assert(out@.map_values(|s: String| s@) =~= Seq::<Seq<char>>::empty());
    while i < awaits.len()
        invariant
            0 <= i <= awaits@.len(),
            joins@.len() == awaits@.len(),
            caps@.len() == awaits@.len(),
            forall|j: int| 0 <= j < awaits@.len() ==> #[trigger] views(joins@[j]@) == join_at(awaits@, j),
            forall|j: int| 0 <= j < awaits@.len() ==> #[trigger] views(caps@[j]@) == caps_at(awaits@, j),
            states_with_from(awaits@, 0, n@) == out@.map_values(|s: String| s@) + states_with_from(awaits@, i as int, n@),
        decreases awaits.len() - i,
    {
        let ghost start = out@.map_values(|s: String| s@);
        let ap = &awaits[i];
        let ghost k = ap.kind;
        let in_join = contains_name(&joins[i], n);
        if waits_in_own_state(&ap.kind) && contains_name(&caps[i], n) {
            out.push(waiting_variant(ap.name.as_str()));
        }
        let ghost p1 = out@.map_values(|s: String| s@);
        assert(p1 =~= start + (if waits(k) && has_name(caps_at(awaits@, i as int), n@) {
            seq!["Waiting"@ + upper_camel(ap.name@)]
        } else {
            Seq::empty()
        }));
        if needs_join(&ap.kind) && in_join {
            out.push(join_variant(&ap.kind, i));
        }
        let ghost p2 = out@.map_values(|s: String| s@);
        assert(p2 =~= p1 + (if needs_join_kind(k) && has_name(join_at(awaits@, i as int), n@) {
            seq![join_name(k, i as nat)]
        } else {
            Seq::empty()
        }));
        if is_loop(&ap.kind) && in_join {
            out.push(loop_head_variant(i));
        }
        assert(out@.map_values(|s: String| s@) =~= start + point_states_with(awaits@, i as int, n@));
        assert(start + states_with_from(awaits@, i as int, n@) =~= out@.map_values(|s: String| s@)
            + states_with_from(awaits@, i + 1, n@));
        i += 1;
    }
    assert(out@.map_values(|s: String| s@) + Seq::<Seq<char>>::empty() =~= out@.map_values(|s: String| s@));
    out
}

/// The getters of the coroutine, for the kept locals `kept` (see [`all_kept`]).
pub(crate) fn make_getters(
    awaits: &Vec<AwaitPoint>,
    joins: &Vec<Vec<Binding>>,
    caps: &Vec<Vec<Binding>>,
    kept: &Vec<Binding>,
) -> (r: Vec<Getter>)
    requires
        joins@.len() == awaits@.len(),
        caps@.len() == awaits@.len(),
        forall|i: int| 0 <= i < awaits@.len() ==> #[trigger] views(joins@[i]@) == join_at(awaits@, i),
        forall|i: int| 0 <= i < awaits@.len() ==> #[trigger] views(caps@[i]@) == caps_at(awaits@, i),
    ensures
        r@.map_values(|g: Getter| g@) == getters_of(awaits@, views(kept@)),
{
    let mut out: Vec<Getter> = Vec::new();
    let mut i: usize = 0;
    assert(views(kept@).skip(0) =~= views(kept@));
    assert(out@.map_values(|g: Getter| g@) =~= Seq::<GetterView>::empty());
    while i < kept.len()
        invariant
            0 <= i <= kept@.len(),
            joins@.len() == awaits@.len(),
            caps@.len() == awaits@.len(),
            forall|j: int| 0 <= j < awaits@.len() ==> #[trigger] views(joins@[j]@) == join_at(awaits@, j),
            forall|j: int| 0 <= j < awaits@.len() ==> #[trigger] views(caps@[j]@) == caps_at(awaits@, j),
            getters_of(awaits@, views(kept@)) == out@.map_values(|g: Getter| g@) + getters_of(
                awaits@,
                views(kept@).skip(i as int),
            ),
        decreases kept.len() - i,
    {
        let ghost start = out@.map_values(|g: Getter| g@);
        assert(views(kept@).skip(i as int)[0] == kept@[i as int]@);
        assert(views(kept@).skip(i as int).drop_first() =~= views(kept@).skip(i + 1));
        let b = &kept[i];
        if !internal_name(&b.name) {
            let variants = states_with(awaits, joins, caps, &b.name);
            out.push(Getter {
                field: b.name.clone(),
                getter: join_text("get_", b.name.as_str()),
                ty: b.ty.clone(),
                variants,
            });
        }
        assert(start + getters_of(awaits@, views(kept@).skip(i as int)) =~= out@.map_values(|g: Getter| g@)
            + getters_of(awaits@, views(kept@).skip(i + 1)));
        i += 1;
    }
    assert(out@.map_values(|g: Getter| g@) + Seq::<GetterView>::empty() =~= out@.map_values(|g: Getter| g@));
    out
}

} // verus!

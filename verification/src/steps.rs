//! The body of the generated `step`: one arm per state, as code the
//! caller prints. Every state change in it names a declared state and
//! fills exactly that state's fields.
use vstd::prelude::*;
use crate::bindings::{names, views, Binding, BindingView};
use crate::plan::{
    all_variants, loop_head_caps, caps_at, for_has_iter_await, has_iter_await, head_caps, is_loop, is_loop_kind,
    iter_ty_of, join_at, join_name, join_variant, point_variants, skip_bindings, skip_only,
    variants_from, waits, waits_in_own_state, VariantView,
};
use crate::split::{kind_child, needs_join_kind};
use crate::effects::{effect_at, nested_name, point_effect};
use crate::text::{decimal, loop_head_variant, upper_camel, waiting_iter_variant, waiting_variant};
use crate::split::{AwaitPoint, Base, ChainArm, SuspendKind};
use crate::syntax::{expr_id, id_of_expr, id_of_stmt, pat_id, stmt_id, Arm, Expr, Hint, NodeKind, Stmt, Ty};

verus! {

/// A value the generated code reads.
pub enum Operand {
    /// An expression of the source, by id.
    Expr(usize),
    /// An expression of the source, by id, with the await at `path`
    /// replaced by the settled value `tmp`.
    Settled { expr: usize, path: Vec<usize>, tmp: String },
    /// A local of the generated code.
    Local(String),
    /// A clone of the stored match scrutinee `__scrut`.
    CloneScrut,
}

/// The `else` of a generated `if`.
pub enum Else {
    Nothing,
    Block(Vec<Code>),
    /// `else <expr>` with an `else` expression of the source, by id.
    Expr(usize),
}

/// What a generated match arm matches.
pub enum ArmHead {
    /// A source arm's attributes, pattern and guard, by the arm's id.
    Source(usize),
    /// A source pattern, by id, with an optional source guard expression.
    Pat { pat: usize, guard: Option<usize> },
    /// `_`.
    Wild,
}

/// What a generated match arm does.
pub enum ArmBody {
    Code(Vec<Code>),
    /// A source expression as the arm's value, by id.
    Expr(usize),
    /// The arm cannot be reached.
    Unreachable,
}

pub struct ArmCode {
    pub head: ArmHead,
    pub body: ArmBody,
}

/// Generated code.
#[allow(inconsistent_fields)]
pub enum Code {
    /// A statement of the source as written, by id.
    Source(usize),
    /// A source expression as a statement, followed by `;`.
    ExprStmt(usize),
    /// The awaiting `let` at `stmt`, with its await at `path` replaced by the local `tmp`.
    Resume { stmt: usize, path: Vec<usize>, tmp: String },
    /// The awaiting `let … else` at `stmt`, with its await at `path`
    /// replaced by the local `tmp` and its `else` block run as `else_code`.
    LetElse { stmt: usize, path: Vec<usize>, tmp: String, else_code: Vec<Code> },
    /// `let _ = <base>;`: what is evaluated before suspending.
    EvalBase(Base),
    /// `let __effect = <Effect>::<variant>(<args>);`: the external call that
    /// point number `point` reports, with its arguments evaluated.
    EvalEffect { point: usize },
    /// `let mut __child = <base>;`: the child coroutine a point drives.
    StartChild(Base),
    /// Steps the child coroutine `__child`. When it is ready, its value is
    /// bound to `tmp` and `ready` runs; when it is pending, the state goes
    /// back to `variant` with `fields` and the step ends with
    /// `Ok(Step::Pending)`, and with an effect of the child `e`, likewise
    /// with `Ok(Step::Effect(<Effect>::<nested>(e)))`.
    StepChild { variant: String, fields: Vec<String>, nested: String, tmp: String, ready: Vec<Code> },
    /// `let <tmp> = __wait.expect(..);`: the settled value.
    TakeWait(String),
    /// `let __iterable = __wait.expect(..); let mut __iter = __iterable.into_iter();`
    StartIter,
    /// `let mut __iter: <ty> = <expr>.into_iter();`
    IterFrom { ty: Ty, expr: usize },
    /// `let __scrut: <ty> = <expr>;`
    LetScrut { ty: Hint, expr: usize },
    /// If any of `skips` needs rehydration, restore `variant` with `fields`
    /// and, with `wait`, the settle slot, and end the step with `Err` of what
    /// `rehydrate` reports.
    Guard { variant: String, fields: Vec<String>, skips: Vec<String>, wait: bool },
    /// `*self = target { moves.., [__wait: None] }`, then suspend, ending
    /// the step with `Ok(Step::Pending)` (with `effect`,
    /// `Ok(Step::Effect(__effect))`), or go on to the next iteration.
    Goto { target: String, moves: Vec<String>, wait_none: bool, suspend: bool, effect: bool },
    /// `*self = Finished`, ending the step with `Ok(Step::Ready(()))`.
    Finish,
    If { cond: Operand, then_code: Vec<Code>, else_code: Else },
    Match { scrutinee: Operand, arms: Vec<ArmCode> },
    /// `match __iter.next() { Some(item) => some, None => none }`.
    NextItem { item: String, some: Vec<Code>, none: Vec<Code> },
}

/// One arm of `step`: the state it matches, the fields it binds (with
/// their mutability), whether it binds the settle slot, and its code.
pub struct StepArm {
    pub variant: String,
    pub fields: Vec<Binding>,
    pub binds_wait: bool,
    pub body: Vec<Code>,
}

/// The set of texts of a list of strings.
pub open spec fn texts(s: Seq<String>) -> Set<Seq<char>> {
    Set::new(|n: Seq<char>| exists|i: int| 0 <= i < s.len() && #[trigger] s[i]@ == n)
}

/// `vs` declares a state named `name` whose fields are named `fields` and
/// which has a settle slot exactly when `wait`.
pub open spec fn declares(vs: Seq<VariantView>, name: Seq<char>, fields: Set<Seq<char>>, wait: bool) -> bool {
    exists|m: int|
        0 <= m < vs.len() && #[trigger] vs[m].name == name && names(vs[m].fields) == fields && (
        vs[m].wait is Some) == wait
}

/// Every state change in `c` names a state of `vs` and fills exactly its
/// fields; it suspends exactly when it enters a waiting state, whose
/// settle slot it leaves empty, and otherwise steps on.
pub open spec fn code_ok(c: Code, vs: Seq<VariantView>) -> bool
    decreases c,
{
    match c {
        Code::Goto { target, moves, wait_none, suspend, effect } => declares(vs, target@, texts(moves@), wait_none)
            && suspend == wait_none && (effect ==> suspend),
        Code::Guard { variant, fields, wait, .. } => declares(vs, variant@, texts(fields@), wait),
        Code::StepChild { variant, fields, ready, .. } => declares(vs, variant@, texts(fields@), false) && codes_ok(
            ready@,
            vs,
        ),
        Code::If { then_code, else_code, .. } => codes_ok(then_code@, vs) && match else_code {
            Else::Block(b) => codes_ok(b@, vs),
            _ => true,
        },
        Code::Match { arms, .. } => arms_ok(arms@, vs),
        Code::NextItem { some, none, .. } => codes_ok(some@, vs) && codes_ok(none@, vs),
        Code::LetElse { else_code, .. } => codes_ok(else_code@, vs),
        _ => true,
    }
}

pub open spec fn codes_ok(s: Seq<Code>, vs: Seq<VariantView>) -> bool
    decreases s,
{
    if s.len() == 0 {
        true
    } else {
        code_ok(s[0], vs) && codes_ok(s.drop_first(), vs)
    }
}

pub open spec fn arms_ok(s: Seq<ArmCode>, vs: Seq<VariantView>) -> bool
    decreases s,
{
    if s.len() == 0 {
        true
    } else {
        (match s[0].body {
            ArmBody::Code(b) => codes_ok(b@, vs),
            _ => true,
        }) && arms_ok(s.drop_first(), vs)
    }
}

proof fn lemma_codes_ok_concat(s1: Seq<Code>, s2: Seq<Code>, vs: Seq<VariantView>)
    ensures
        codes_ok(s1 + s2, vs) == (codes_ok(s1, vs) && codes_ok(s2, vs)),
    decreases s1.len(),
{
    if s1.len() == 0 {
        assert(s1 + s2 =~= s2);
    } else {
        assert((s1 + s2).drop_first() =~= s1.drop_first() + s2);
        lemma_codes_ok_concat(s1.drop_first(), s2, vs);
    }
}

proof fn lemma_arms_ok_concat(s1: Seq<ArmCode>, s2: Seq<ArmCode>, vs: Seq<VariantView>)
    ensures
        arms_ok(s1 + s2, vs) == (arms_ok(s1, vs) && arms_ok(s2, vs)),
    decreases s1.len(),
{
    if s1.len() == 0 {
        assert(s1 + s2 =~= s2);
    } else {
        assert((s1 + s2).drop_first() =~= s1.drop_first() + s2);
        lemma_arms_ok_concat(s1.drop_first(), s2, vs);
    }
}

/// A state of point `i` is a state of the whole coroutine.
proof fn lemma_point_variant_declared(a: Seq<AwaitPoint>, i: int, m: int)
    requires
        0 <= i < a.len(),
        0 <= m < point_variants(a, i).len(),
    ensures
        exists|x: int| 0 <= x < all_variants(a).len() && #[trigger] all_variants(a)[x] == point_variants(a, i)[m],
{
    lemma_point_variant_in_from(a, 0, i, m);
    let x = choose|x: int| 0 <= x < variants_from(a, 0).len() && #[trigger] variants_from(a, 0)[x] == point_variants(a, i)[m];
    assert(all_variants(a)[x + 1] == variants_from(a, 0)[x]);
}

proof fn lemma_point_variant_in_from(a: Seq<AwaitPoint>, j: int, i: int, m: int)
    requires
        0 <= j <= i < a.len(),
        0 <= m < point_variants(a, i).len(),
    ensures
        exists|x: int| 0 <= x < variants_from(a, j).len() && #[trigger] variants_from(a, j)[x] == point_variants(a, i)[m],
    decreases i - j,
{
    if j == i {
        assert(variants_from(a, j)[m] == point_variants(a, i)[m]);
    } else {
        lemma_point_variant_in_from(a, j + 1, i, m);
        let x = choose|x: int| 0 <= x < variants_from(a, j + 1).len() && #[trigger] variants_from(a, j + 1)[x] == point_variants(a, i)[m];
        assert(variants_from(a, j)[x + point_variants(a, j).len()] == variants_from(a, j + 1)[x]);
    }
}

/// The names of a list of bindings, in order.
pub fn field_names(fields: &Vec<Binding>) -> (r: Vec<String>)
    ensures
        r@.map_values(|s: String| s@) == views(fields@).map_values(|b: BindingView| b.name),
        texts(r@) == names(views(fields@)),
{
    let mut out: Vec<String> = Vec::new();
    let mut i: usize = 0;
    while i < fields.len()
        invariant
            0 <= i <= fields.len(),
            out@.len() == i,
            forall|j: int| 0 <= j < i ==> #[trigger] out@[j]@ == fields@[j].name@,
        decreases fields.len() - i,
    {
        out.push(fields[i].name.clone());
        i += 1;
    }
    assert(out@.map_values(|s: String| s@) =~= views(fields@).map_values(|b: BindingView| b.name));
    assert forall|n: Seq<char>| texts(out@).contains(n) <==> names(views(fields@)).contains(n) by {
        if texts(out@).contains(n) {
            let j = choose|j: int| 0 <= j < out@.len() && #[trigger] out@[j]@ == n;
            assert(views(fields@)[j].name == n);
        }
        if names(views(fields@)).contains(n) {
            let j = choose|j: int| 0 <= j < views(fields@).len() && #[trigger] views(fields@)[j].name == n;
            assert(out@[j]@ == n);
        }
    }
    assert(texts(out@) =~= names(views(fields@)));
    out
}

// ---------------------------------------------------------------------------
// State changes.

/// The locals of each state, as computed for `a`.
pub open spec fn planned(a: Seq<AwaitPoint>, joins: Seq<Vec<Binding>>, caps: Seq<Vec<Binding>>) -> bool {
    &&& joins.len() == a.len()
    &&& caps.len() == a.len()
    &&& forall|i: int| 0 <= i < a.len() ==> #[trigger] views(joins[i]@) == join_at(a, i)
    &&& forall|i: int| 0 <= i < a.len() ==> #[trigger] views(caps[i]@) == caps_at(a, i)
}

/// `c` changes to the state named `target`, moving into it the locals
/// named in `fields`, with an empty settle slot when `wait`; it then
/// suspends when `suspend`, or else steps on.
pub open spec fn goes_to(c: Code, target: Seq<char>, fields: Seq<Seq<char>>, wait: bool, suspend: bool) -> bool {
    c matches Code::Goto { target: t, moves, wait_none, suspend: s, effect } && t@ == target && text_seq(moves@) == fields
        && wait_none == wait && s == suspend && !effect
}

/// The texts of a list of strings, in order.
pub open spec fn text_seq(s: Seq<String>) -> Seq<Seq<char>> {
    s.map_values(|x: String| x@)
}

/// The names of a list of bindings, in order.
pub open spec fn name_seq(s: Seq<BindingView>) -> Seq<Seq<char>> {
    s.map_values(|b: BindingView| b.name)
}

/// The locals a change to the loop head of point `i` moves: a `for`'s
/// iterator first, then the locals of the join state.
pub open spec fn head_moves(k: SuspendKind, join: Seq<BindingView>) -> Seq<Seq<char>> {
    match k {
        SuspendKind::For { .. } => seq!["__iter"@] + name_seq(join),
        _ => name_seq(join),
    }
}

/// The name of the state in which point `i` waits.
pub open spec fn waiting_name(a: Seq<AwaitPoint>, i: int) -> Seq<char> {
    "Waiting"@ + upper_camel(a[i].name@)
}

/// What point `i` evaluates before suspending: the arguments of the
/// external call it reports, or else its await's base.
pub open spec fn eval_piece(a: Seq<AwaitPoint>, i: int) -> Code {
    if kind_child(a[i].kind) is Some {
        Code::StartChild(a[i].base)
    } else if point_effect(a, i) is Some {
        Code::EvalEffect { point: i as usize }
    } else {
        Code::EvalBase(a[i].base)
    }
}

/// `c` leaves for the waiting state of point `i`, with its locals. For a
/// point that drives a child coroutine the step goes on there at once;
/// otherwise the settle slot is left empty and the step ends: with the
/// external call the point reports, or else with `Pending`.
pub open spec fn waits_at(c: Code, a: Seq<AwaitPoint>, i: int) -> bool {
    let child = kind_child(a[i].kind) is Some;
    c matches Code::Goto { target, moves, wait_none, suspend, effect } && target@ == waiting_name(a, i) && text_seq(
        moves@,
    ) == name_seq(caps_at(a, i)) && wait_none == !child && suspend == !child && effect == (point_effect(a, i) is Some)
}

/// Suspending at point `i`: its base (or the arguments of the external call
/// it reports) is evaluated, then the coroutine waits in the point's state,
/// keeping the locals live there.
pub open spec fn suspends_at(s: Seq<Code>, a: Seq<AwaitPoint>, i: int) -> bool {
    &&& s.len() == 2
    &&& s[0] == eval_piece(a, i)
    &&& waits_at(s[1], a, i)
}

/// Going on to the join state of point `i`.
pub open spec fn joins_at(c: Code, a: Seq<AwaitPoint>, i: int) -> bool {
    goes_to(c, join_name(a[i].kind, i as nat), name_seq(join_at(a, i)), false, false)
}

/// Going on to the loop head of point `i`.
pub open spec fn heads_at(c: Code, a: Seq<AwaitPoint>, i: int) -> bool {
    goes_to(c, "LoopHead"@ + decimal(i as nat), head_moves(a[i].kind, join_at(a, i)), false, false)
}

/// Suspending on the awaited range of the `for` at point `i`, whose base is `base`.
pub open spec fn suspends_on_range(s: Seq<Code>, a: Seq<AwaitPoint>, i: int, base: usize) -> bool {
    &&& s.len() == 2
    &&& s[0] == Code::EvalBase(Base::Expr(base))
    &&& goes_to(s[1], "WaitingIter"@ + decimal(i as nat), name_seq(join_at(a, i)), true, true)
}

/// `s` runs `pre`, then suspends at point `i`.
pub open spec fn then_suspends(s: Seq<Code>, pre: Seq<Code>, a: Seq<AwaitPoint>, i: int) -> bool {
    &&& s.len() == pre.len() + 2
    &&& s.take(pre.len() as int) == pre
    &&& suspends_at(s.skip(pre.len() as int), a, i)
}

/// `s` runs `pre`, then goes on to the join state of point `i`.
pub open spec fn then_joins(s: Seq<Code>, pre: Seq<Code>, a: Seq<AwaitPoint>, i: int) -> bool {
    &&& s.len() == pre.len() + 1
    &&& s.take(pre.len() as int) == pre
    &&& joins_at(s[pre.len() as int], a, i)
}

/// `s` runs `pre`, then goes on to the loop head of point `i`.
pub open spec fn then_heads(s: Seq<Code>, pre: Seq<Code>, a: Seq<AwaitPoint>, i: int) -> bool {
    &&& s.len() == pre.len() + 1
    &&& s.take(pre.len() as int) == pre
    &&& heads_at(s[pre.len() as int], a, i)
}

proof fn lemma_declared_at(a: Seq<AwaitPoint>, i: int, m: int, wait: bool)
    requires
        0 <= i < a.len(),
        0 <= m < point_variants(a, i).len(),
        (point_variants(a, i)[m].wait is Some) == wait,
    ensures
        declares(all_variants(a), point_variants(a, i)[m].name, names(point_variants(a, i)[m].fields), wait),
{
    lemma_point_variant_declared(a, i, m);
    let x = choose|x: int| 0 <= x < all_variants(a).len() && #[trigger] all_variants(a)[x] == point_variants(a, i)[m];
    assert(all_variants(a)[x].name == point_variants(a, i)[m].name);
}

/// Suspends in the waiting state of point `i`: evaluates the await's base
/// and stores the locals the state keeps, with an empty settle slot.
pub(crate) fn go_waiting(awaits: &Vec<AwaitPoint>, caps: &Vec<Vec<Binding>>, joins: &Vec<Vec<Binding>>, i: usize) -> (r: Vec<Code>)
    requires
        planned(awaits@, joins@, caps@),
        i < awaits@.len(),
        waits(awaits@[i as int].kind),
    ensures
        codes_ok(r@, all_variants(awaits@)),
        suspends_at(r@, awaits@, i as int),
{
    let ap = &awaits[i];
    let moves = field_names(&caps[i]);
    let target = waiting_variant(ap.name.as_str());
    proof {
        let k = ap.kind;
        let m: int = if has_iter_await(k) { 1 } else { 0 };
        assert(point_variants(awaits@, i as int)[m].name == target@);
        lemma_declared_at(awaits@, i as int, m, kind_child(k) is None);
    }
    let child = crate::split::child_of(&ap.kind).is_some();
    let effect = effect_at(awaits, caps, i).is_some();
    let mut v = Vec::new();
    if child {
        v.push(Code::StartChild(ap.base));
    } else if effect {
        v.push(Code::EvalEffect { point: i });
    } else {
        v.push(Code::EvalBase(ap.base));
    }
    v.push(Code::Goto { target, moves, wait_none: !child, suspend: !child, effect });
    proof {
        reveal_with_fuel(codes_ok, 3);
    }
    v
}

/// Goes on to the join state of point `i`.
pub(crate) fn goto_join(awaits: &Vec<AwaitPoint>, caps: &Vec<Vec<Binding>>, joins: &Vec<Vec<Binding>>, i: usize) -> (r: Code)
    requires
        planned(awaits@, joins@, caps@),
        i < awaits@.len(),
        needs_join_kind(awaits@[i as int].kind),
    ensures
        code_ok(r, all_variants(awaits@)),
        joins_at(r, awaits@, i as int),
{
    let ap = &awaits[i];
    let moves = field_names(&joins[i]);
    let target = join_variant(&ap.kind, i);
    proof {
        let k = ap.kind;
        let m: int = (if has_iter_await(k) { 1int } else { 0int }) + (if waits(k) { 1int } else { 0int })
            + (if is_loop_kind(k) { 1int } else { 0int });
        assert(point_variants(awaits@, i as int)[m].name == target@);
        lemma_declared_at(awaits@, i as int, m, false);
    }
    Code::Goto { target, moves, wait_none: false, suspend: false, effect: false }
}

/// Goes on to the loop head of point `i`, moving the iterator of a `for`.
pub(crate) fn goto_loop_head(awaits: &Vec<AwaitPoint>, caps: &Vec<Vec<Binding>>, joins: &Vec<Vec<Binding>>, i: usize) -> (r: Code)
    requires
        planned(awaits@, joins@, caps@),
        i < awaits@.len(),
        is_loop_kind(awaits@[i as int].kind),
    ensures
        code_ok(r, all_variants(awaits@)),
        heads_at(r, awaits@, i as int),
{
    let ap = &awaits[i];
    let names_j = field_names(&joins[i]);
    let target = loop_head_variant(i);
    let moves = match &ap.kind {
        SuspendKind::For { .. } => {
            let mut m = Vec::new();
            m.push(String::from_str("__iter"));
            let mut j: usize = 0;
            while j < names_j.len()
                invariant
                    0 <= j <= names_j.len(),
                    m@.len() == j + 1,
                    m@[0]@ == "__iter"@,
                    forall|t: int| 0 <= t < j ==> #[trigger] m@[t + 1]@ == names_j@[t]@,
                decreases names_j.len() - j,
            {
                m.push(names_j[j].clone());
                j += 1;
            }
            proof {
                let hc = head_caps(ap.kind, join_at(awaits@, i as int));
                let jv = join_at(awaits@, i as int);
                assert(hc == jv.push(BindingView { name: "__iter"@, ty: crate::inspect::iter_ty_of(ap.kind->source), mutable: true }));
                assert forall|n: Seq<char>| texts(m@).contains(n) <==> names(hc).contains(n) by {
                    if texts(m@).contains(n) {
                        let t = choose|t: int| 0 <= t < m@.len() && #[trigger] m@[t]@ == n;
                        if t == 0 {
                            assert(hc[jv.len() as int].name == n);
                        } else {
                            assert(m@[(t - 1) + 1]@ == names_j@[t - 1]@);
                            assert(texts(names_j@).contains(n));
                            let u = choose|u: int| 0 <= u < jv.len() && #[trigger] jv[u].name == n;
                            assert(hc[u].name == n);
                        }
                    }
                    if names(hc).contains(n) {
                        let u = choose|u: int| 0 <= u < hc.len() && #[trigger] hc[u].name == n;
                        if u == jv.len() {
                            assert(m@[0]@ == n);
                        } else {
                            assert(jv[u].name == n);
                            assert(names(jv).contains(n));
                            let t = choose|t: int| 0 <= t < names_j@.len() && #[trigger] names_j@[t]@ == n;
                            assert(m@[t + 1]@ == n);
                        }
                    }
                }
                assert(texts(m@) =~= names(hc));
                let want = seq!["__iter"@] + name_seq(jv);
                assert(text_seq(names_j@) == name_seq(jv));
                assert(text_seq(names_j@).len() == names_j@.len());
                assert(want.len() == m@.len());
                assert forall|k: int| 0 <= k < m@.len() implies #[trigger] text_seq(m@)[k] == want[k] by {
                    if k > 0 {
                        assert(m@[(k - 1) + 1]@ == names_j@[k - 1]@);
                        assert(text_seq(names_j@)[k - 1] == names_j@[k - 1]@);
                    }
                }
                assert(text_seq(m@) =~= want);
            }
            m
        },
        _ => names_j,
    };
    proof {
        let k = ap.kind;
        let m: int = (if has_iter_await(k) { 1int } else { 0int }) + (if waits(k) { 1int } else { 0int });
        assert(point_variants(awaits@, i as int)[m].name == target@);
        lemma_declared_at(awaits@, i as int, m, false);
    }
    Code::Goto { target, moves, wait_none: false, suspend: false, effect: false }
}

/// Suspends waiting on the awaited range of the `for` at point `i`.
pub(crate) fn go_waiting_iter(awaits: &Vec<AwaitPoint>, caps: &Vec<Vec<Binding>>, joins: &Vec<Vec<Binding>>, i: usize, base: usize) -> (r: Vec<Code>)
    requires
        planned(awaits@, joins@, caps@),
        i < awaits@.len(),
        has_iter_await(awaits@[i as int].kind),
    ensures
        codes_ok(r@, all_variants(awaits@)),
        suspends_on_range(r@, awaits@, i as int, base),
{
    let moves = field_names(&joins[i]);
    let target = waiting_iter_variant(i);
    proof {
        assert(point_variants(awaits@, i as int)[0].name == target@);
        lemma_declared_at(awaits@, i as int, 0, true);
    }
    let mut v = Vec::new();
    v.push(Code::EvalBase(Base::Expr(base)));
    v.push(Code::Goto { target, moves, wait_none: true, suspend: true, effect: false });
    proof {
        reveal_with_fuel(codes_ok, 3);
    }
    v
}

/// `c` checks, on resuming point `i`, whether any local of its waiting
/// state that serialization skips needs rehydration; if so it restores the
/// state with all its locals and reports what `rehydrate` reports.
pub open spec fn guards_at(c: Code, a: Seq<AwaitPoint>, i: int) -> bool {
    c matches Code::Guard { variant, fields, skips, wait } && variant@ == waiting_name(a, i) && text_seq(fields@)
        == name_seq(caps_at(a, i)) && text_seq(skips@) == name_seq(skip_only(caps_at(a, i))) && wait == (kind_child(
        a[i].kind,
    ) is None)
}

/// The rehydration check on entering the waiting state of point `i`, when
/// it keeps skipped locals.
pub(crate) fn rehydration_guard(awaits: &Vec<AwaitPoint>, caps: &Vec<Vec<Binding>>, joins: &Vec<Vec<Binding>>, i: usize) -> (r: Option<Code>)
    requires
        planned(awaits@, joins@, caps@),
        i < awaits@.len(),
        waits(awaits@[i as int].kind),
    ensures
        match r {
            Some(c) => code_ok(c, all_variants(awaits@)) && skip_only(caps_at(awaits@, i as int)).len() > 0
                && guards_at(c, awaits@, i as int),
            None => skip_only(caps_at(awaits@, i as int)).len() == 0,
        },
{
    let skips = skip_bindings(&caps[i]);
    if skips.len() == 0 {
        return None;
    }
    let ap = &awaits[i];
    let skip_names = field_names(&skips);
    let fields = field_names(&caps[i]);
    let variant = waiting_variant(ap.name.as_str());
    proof {
        let k = ap.kind;
        let m: int = if has_iter_await(k) { 1 } else { 0 };
        assert(point_variants(awaits@, i as int)[m].name == variant@);
        lemma_declared_at(awaits@, i as int, m, kind_child(k) is None);
    }
    let wait = crate::split::child_of(&ap.kind).is_none();
    Some(Code::Guard { variant, fields, skips: skip_names, wait })
}

// ---------------------------------------------------------------------------
// Code pieces.

/// Statements of the source emitted as written.
pub open spec fn sources_of(s: Seq<Stmt>) -> Seq<Code> {
    s.map_values(|x: Stmt| Code::Source(stmt_id(x)))
}

proof fn lemma_sources_ok(s: Seq<Stmt>, vs: Seq<VariantView>)
    ensures
        codes_ok(sources_of(s), vs),
    decreases s.len(),
{
    if s.len() > 0 {
        assert(sources_of(s).drop_first() =~= sources_of(s.drop_first()));
        assert(sources_of(s)[0] == Code::Source(stmt_id(s[0])));
        assert(code_ok(sources_of(s)[0], vs));
        lemma_sources_ok(s.drop_first(), vs);
        assert(codes_ok(sources_of(s).drop_first(), vs));
    } else {
        assert(sources_of(s).len() == 0);
    }
}

/// Statements of the source emitted as written.
pub fn sources(stmts: &Vec<Stmt>) -> (r: Vec<Code>)
    ensures
        r@ == sources_of(stmts@),
{
    let mut out: Vec<Code> = Vec::new();
    let mut i: usize = 0;
    while i < stmts.len()
        invariant
            0 <= i <= stmts.len(),
            out@ == sources_of(stmts@.take(i as int)),
        decreases stmts.len() - i,
    {
        out.push(Code::Source(id_of_stmt(&stmts[i])));
        i += 1;
        assert(out@ =~= sources_of(stmts@.take(i as int)));
    }
    assert(stmts@.take(stmts.len() as int) =~= stmts@);
    out
}

/// Appends `more` to `v`, keeping every state change well formed.
fn push_all(v: &mut Vec<Code>, more: Vec<Code>, Ghost(vs): Ghost<Seq<VariantView>>)
    requires
        codes_ok(old(v)@, vs),
        codes_ok(more@, vs),
    ensures
        final(v)@ == old(v)@ + more@,
        codes_ok(final(v)@, vs),
{
    let mut more = more;
    proof {
        lemma_codes_ok_concat(v@, more@, vs);
    }
    v.append(&mut more);
}

/// Appends one piece to `v`.
fn push_one(v: &mut Vec<Code>, c: Code, Ghost(vs): Ghost<Seq<VariantView>>)
    requires
        codes_ok(old(v)@, vs),
        code_ok(c, vs),
    ensures
        final(v)@ == old(v)@.push(c),
        codes_ok(final(v)@, vs),
{
    proof {
        reveal_with_fuel(codes_ok, 2);
        lemma_codes_ok_concat(v@, seq![c], vs);
        assert(v@ + seq![c] =~= v@.push(c));
    }
    v.push(c);
}

/// The code of an arm body run as statements: a block's statements as
/// written, any other body as one expression statement.
pub open spec fn body_code(e: Expr) -> Seq<Code> {
    match e {
        Expr::Block { stmts, .. } => sources_of(stmts@),
        _ => seq![Code::ExprStmt(expr_id(e))],
    }
}

/// `x` is the source arm `arm` with its body run, then the join of point `i`.
pub open spec fn runs_then_joins(x: ArmCode, arm: Arm, a: Seq<AwaitPoint>, i: int) -> bool {
    &&& x.head == ArmHead::Source(arm.id)
    &&& x.body matches ArmBody::Code(b) && then_joins(b@, body_code(arm.body), a, i)
}

/// Each of `xs` is the corresponding source arm run, then the join of point `i`.
pub open spec fn all_run_then_join(xs: Seq<ArmCode>, arms: Seq<Arm>, a: Seq<AwaitPoint>, i: int) -> bool {
    &&& xs.len() == arms.len()
    &&& forall|j: int| 0 <= j < arms.len() ==> #[trigger] runs_then_joins(xs[j], arms[j], a, i)
}

/// The source `else` of an `if`, run as it is, if there is one.
pub open spec fn else_source(e: Option<Box<Expr>>) -> Seq<Code> {
    match e {
        Some(x) => seq![Code::Source(expr_id(*x))],
        None => Seq::empty(),
    }
}

/// The id of an optional guard.
pub open spec fn guard_id(g: Option<Expr>) -> Option<usize> {
    match g {
        Some(x) => Some(expr_id(x)),
        None => None,
    }
}

/// `c` tests the conditions of the earlier arms `prior` of an `if … else
/// if …` chain in turn; the first that holds runs its arm's body, then goes
/// on to the join state of point `i`.
pub open spec fn chain_ok(c: Code, prior: Seq<ChainArm>, a: Seq<AwaitPoint>, i: int) -> bool
    decreases prior.len(),
{
    if prior.len() == 0 {
        true
    } else {
        c matches Code::If { cond, then_code, else_code: Else::Block(ec) } && cond == Operand::Expr(expr_id(prior[0].cond))
            && then_joins(then_code@, sources_of(prior[0].body@), a, i) && ec@.len() == 1
            && chain_ok(ec@[0], prior.drop_first(), a, i)
    }
}

/// The code that `c` runs when no condition of the earlier arms `prior` holds.
pub open spec fn chain_rest(c: Code, prior: Seq<ChainArm>) -> Code
    decreases prior.len(),
{
    if prior.len() == 0 {
        c
    } else {
        match c {
            Code::If { else_code: Else::Block(ec), .. } => if ec@.len() == 1 {
                chain_rest(ec@[0], prior.drop_first())
            } else {
                c
            },
            _ => c,
        }
    }
}

/// What entering point `i` runs once the statements before it have run:
/// its statement up to where it suspends, reaches its loop head, or, on a
/// path without the await, goes on to its join state.
pub open spec fn enters_point(t: Seq<Code>, a: Seq<AwaitPoint>, i: int) -> bool {
    match a[i].kind {
        SuspendKind::Plain { .. } | SuspendKind::IfCondition { .. } | SuspendKind::MatchScrutinee { .. } => suspends_at(t, a, i),
        SuspendKind::Loop { .. } => t.len() == 1 && heads_at(t[0], a, i),
        SuspendKind::For { source, iter_expr, iter_await_base, .. } => match iter_await_base {
            Some(b) => suspends_on_range(t, a, i, b),
            None => {
                &&& t.len() == 2
                &&& t[0] == (Code::IterFrom {
                    ty: crate::inspect::iter_ty_of(source),
                    expr: match iter_expr {
                        Some(e) => expr_id(*e),
                        None => 0,
                    },
                })
                &&& heads_at(t[1], a, i)
            },
        },
        SuspendKind::IfThen { prior, cond, before_await, else_branch, .. } => {
            &&& t.len() == 1
            &&& chain_ok(t[0], prior@, a, i)
            &&& chain_rest(t[0], prior@) matches Code::If { cond: c, then_code, else_code: Else::Block(ec) }
                && c == Operand::Expr(expr_id(*cond)) && then_suspends(then_code@, sources_of(before_await@), a, i)
                && then_joins(ec@, else_source(else_branch), a, i)
        },
        SuspendKind::IfElse { prior, cond, then_branch, before_await, .. } => {
            &&& t.len() == 1
            &&& chain_ok(t[0], prior@, a, i)
            &&& chain_rest(t[0], prior@) matches Code::If { cond: c, then_code, else_code: Else::Block(ec) }
                && c == Operand::Expr(expr_id(*cond)) && then_joins(then_code@, sources_of(then_branch@), a, i)
                && then_suspends(ec@, sources_of(before_await@), a, i)
        },
        SuspendKind::MatchArm { scrutinee, arms_before, sus_pat, sus_guard, before_await, arms_after, .. } => {
            let nb = arms_before@.len() as int;
            &&& t.len() == 1
            &&& t[0] matches Code::Match { scrutinee: sc, arms }
                && sc == Operand::Expr(expr_id(*scrutinee))
                && arms@.len() == nb + 1 + arms_after@.len()
                && all_run_then_join(arms@.take(nb), arms_before@, a, i)
                && arms@[nb].head == (ArmHead::Pat { pat: pat_id(sus_pat), guard: guard_id(sus_guard) })
                && (arms@[nb].body matches ArmBody::Code(b) && then_suspends(b@, sources_of(before_await@), a, i))
                && all_run_then_join(arms@.skip(nb + 1), arms_after@, a, i)
        },
        SuspendKind::MatchGuard { scrutinee, scrut_ty, arms_before, sus_pat, arms_after, .. } => {
            let nb = arms_before@.len() as int;
            &&& t.len() == 2
            &&& t[0] == (Code::LetScrut { ty: scrut_ty, expr: expr_id(*scrutinee) })
            &&& t[1] matches Code::Match { scrutinee: Operand::CloneScrut, arms }
                && arms@.len() == nb + 1
                && all_run_then_join(arms@.take(nb), arms_before@, a, i)
                && arms@[nb].head == ArmHead::Wild
                && (arms@[nb].body matches ArmBody::Code(fb) && fb@.len() == 1
                    && (fb@[0] matches Code::Match { scrutinee: Operand::CloneScrut, arms: inner }
                        && inner@.len() == 1 + arms_after@.len()
                        && inner@[0].head == (ArmHead::Pat { pat: pat_id(sus_pat), guard: None })
                        && (inner@[0].body matches ArmBody::Code(g) && suspends_at(g@, a, i))
                        && all_run_then_join(inner@.skip(1), arms_after@, a, i)))
        },
    }
}

/// Entering point `i`: the statements before it as written, then its statement.
pub open spec fn enters(r: Seq<Code>, a: Seq<AwaitPoint>, i: int) -> bool {
    let pre = sources_of(a[i].before@);
    &&& pre.len() <= r.len()
    &&& r.take(pre.len() as int) == pre
    &&& enters_point(r.skip(pre.len() as int), a, i)
}

/// An arm of the source, run and then followed by `then`: a block body's
/// statements as written, any other body as a statement.
fn sync_arm(arm: &Arm, then: Code, Ghost(vs): Ghost<Seq<VariantView>>) -> (r: ArmCode)
    requires
        code_ok(then, vs),
    ensures
        arms_ok(seq![r], vs),
        r.head == ArmHead::Source(arm.id),
        r.body matches ArmBody::Code(b) && b@ == body_code(arm.body).push(then),
{
    let mut body: Vec<Code> = match &arm.body {
        Expr::Block { stmts, .. } => {
            let v = sources(stmts);
            proof {
                lemma_sources_ok(stmts@, vs);
            }
            v
        },
        other => {
            let mut v = Vec::new();
            v.push(Code::ExprStmt(id_of_expr(other)));
            proof {
                reveal_with_fuel(codes_ok, 2);
            }
            v
        },
    };
    push_one(&mut body, then, Ghost(vs));
    proof {
        reveal_with_fuel(arms_ok, 2);
    }
    ArmCode { head: ArmHead::Source(arm.id), body: ArmBody::Code(body) }
}

/// Arms of the source, each run and followed by the join of point `i`.
fn sync_arms(
    arms: &Vec<Arm>,
    awaits: &Vec<AwaitPoint>,
    caps: &Vec<Vec<Binding>>,
    joins: &Vec<Vec<Binding>>,
    i: usize,
) -> (r: Vec<ArmCode>)
    requires
        planned(awaits@, joins@, caps@),
        i < awaits@.len(),
        needs_join_kind(awaits@[i as int].kind),
    ensures
        arms_ok(r@, all_variants(awaits@)),
        all_run_then_join(r@, arms@, awaits@, i as int),
{
    let ghost vs = all_variants(awaits@);
    let mut out: Vec<ArmCode> = Vec::new();
    let mut j: usize = 0;
    while j < arms.len()
        invariant
            0 <= j <= arms.len(),
            planned(awaits@, joins@, caps@),
            i < awaits@.len(),
            needs_join_kind(awaits@[i as int].kind),
            vs == all_variants(awaits@),
            arms_ok(out@, vs),
            out@.len() == j,
            forall|t: int| 0 <= t < j ==> #[trigger] runs_then_joins(out@[t], arms@[t], awaits@, i as int),
        decreases arms.len() - j,
    {
        let g = goto_join(awaits, caps, joins, i);
        let ghost gc = g;
        let a = sync_arm(&arms[j], g, Ghost(vs));
        proof {
            lemma_arms_ok_concat(out@, seq![a], vs);
            assert(out@ + seq![a] =~= out@.push(a));
            let pre = body_code(arms@[j as int].body);
            let ab = a.body;
            if let ArmBody::Code(b) = ab {
                assert(b@.take(pre.len() as int) =~= pre);
                assert(b@[pre.len() as int] == gc);
            }
            assert(runs_then_joins(a, arms@[j as int], awaits@, i as int));
        }
        out.push(a);
        j += 1;
    }
    out
}

/// Arms of the source as they are: pattern, guard and value.
fn plain_arms(arms: &Vec<Arm>, Ghost(vs): Ghost<Seq<VariantView>>) -> (r: Vec<ArmCode>)
    ensures
        arms_ok(r@, vs),
        r@.len() == arms@.len(),
        forall|j: int| 0 <= j < arms@.len() ==> #[trigger] r@[j] == (ArmCode {
            head: ArmHead::Source(arms@[j].id),
            body: ArmBody::Expr(expr_id(arms@[j].body)),
        }),
{
    let mut out: Vec<ArmCode> = Vec::new();
    let mut j: usize = 0;
    while j < arms.len()
        invariant
            0 <= j <= arms.len(),
            arms_ok(out@, vs),
            out@.len() == j,
            forall|t: int| 0 <= t < j ==> #[trigger] out@[t] == (ArmCode {
                head: ArmHead::Source(arms@[t].id),
                body: ArmBody::Expr(expr_id(arms@[t].body)),
            }),
        decreases arms.len() - j,
    {
        let a = ArmCode { head: ArmHead::Source(arms[j].id), body: ArmBody::Expr(id_of_expr(&arms[j].body)) };
        proof {
            reveal_with_fuel(arms_ok, 2);
            lemma_arms_ok_concat(out@, seq![a], vs);
            assert(out@ + seq![a] =~= out@.push(a));
        }
        out.push(a);
        j += 1;
    }
    out
}

// ---------------------------------------------------------------------------
// Entering, resuming and leaving points.

/// `inner` under the earlier arms `prior` of its `if … else if …` chain:
/// each arm's condition tested in turn, its body run, then the join state
/// of point `i`.
fn wrap_chain(
    prior: &Vec<ChainArm>,
    inner: Code,
    awaits: &Vec<AwaitPoint>,
    caps: &Vec<Vec<Binding>>,
    joins: &Vec<Vec<Binding>>,
    i: usize,
) -> (r: Code)
    requires
        planned(awaits@, joins@, caps@),
        i < awaits@.len(),
        needs_join_kind(awaits@[i as int].kind),
        code_ok(inner, all_variants(awaits@)),
    ensures
        code_ok(r, all_variants(awaits@)),
        chain_ok(r, prior@, awaits@, i as int),
        chain_rest(r, prior@) == inner,
{
    let ghost vs = all_variants(awaits@);
    let ghost p = prior@;
    let mut c = inner;
    let mut k: usize = prior.len();
    assert(p.skip(k as int) =~= Seq::<ChainArm>::empty());
    while k > 0
        invariant
            k <= prior.len(),
            prior@ == p,
            planned(awaits@, joins@, caps@),
            i < awaits@.len(),
            needs_join_kind(awaits@[i as int].kind),
            vs == all_variants(awaits@),
            code_ok(c, vs),
            chain_ok(c, p.skip(k as int), awaits@, i as int),
            chain_rest(c, p.skip(k as int)) == inner,
        decreases k,
    {
        k -= 1;
        let arm = &prior[k];
        let mut then_code = sources(&arm.body);
        proof {
            lemma_sources_ok(arm.body@, vs);
        }
        let ghost tpre = then_code@;
        let g = goto_join(awaits, caps, joins, i);
        let ghost gv = g;
        push_one(&mut then_code, g, Ghost(vs));
        assert(then_code@.take(tpre.len() as int) =~= tpre);
        assert(then_code@[tpre.len() as int] == gv);
        let ghost prev = c;
        let mut rest: Vec<Code> = Vec::new();
        push_one(&mut rest, c, Ghost(vs));
        assert(rest@ =~= seq![prev]);
        c = Code::If { cond: Operand::Expr(id_of_expr(&arm.cond)), then_code, else_code: Else::Block(rest) };
        proof {
            assert(p.skip(k as int)[0] == p[k as int]);
            assert(p.skip(k as int).drop_first() =~= p.skip(k + 1));
            assert(p.skip(k as int).len() > 0);
        }
    }
    assert(p.skip(0) =~= p);
    c
}

/// Runs the statements before point `i` and its own statement up to where
/// it suspends, joins or reaches its loop head.
pub(crate) fn enter_code(awaits: &Vec<AwaitPoint>, caps: &Vec<Vec<Binding>>, joins: &Vec<Vec<Binding>>, i: usize) -> (r: Vec<Code>)
    requires
        planned(awaits@, joins@, caps@),
        i < awaits@.len(),
    ensures
        codes_ok(r@, all_variants(awaits@)),
        enters(r@, awaits@, i as int),
{
    let ghost vs = all_variants(awaits@);
    let ap = &awaits[i];
    let mut out = sources(&ap.before);
    proof {
        lemma_sources_ok(ap.before@, vs);
    }
    let ghost pre = out@;
    let ghost n = pre.len() as int;
    let ghost a = awaits@;
    let ghost ii = i as int;
    match &ap.kind {
        SuspendKind::Plain { .. } | SuspendKind::IfCondition { .. } | SuspendKind::MatchScrutinee { .. } => {
            let w = go_waiting(awaits, caps, joins, i);
            let ghost wv = w@;
            push_all(&mut out, w, Ghost(vs));
            assert(out@.skip(n) =~= wv);
        },
        SuspendKind::Loop { .. } => {
            let g = goto_loop_head(awaits, caps, joins, i);
            let ghost gv = g;
            push_one(&mut out, g, Ghost(vs));
            assert(out@.skip(n) =~= seq![gv]);
        },
        SuspendKind::For { source, iter_expr, iter_await_base, .. } => {
            match iter_await_base {
                Some(b) => {
                    let w = go_waiting_iter(awaits, caps, joins, i, *b);
                    let ghost wv = w@;
                    push_all(&mut out, w, Ghost(vs));
                    assert(out@.skip(n) =~= wv);
                },
                None => {
                    let e = match iter_expr {
                        Some(e) => id_of_expr(e),
                        None => 0,
                    };
                    let first = Code::IterFrom { ty: crate::inspect::iter_ty(source), expr: e };
                    let ghost fv = first;
                    push_one(&mut out, first, Ghost(vs));
                    let g = goto_loop_head(awaits, caps, joins, i);
                    let ghost gv = g;
                    push_one(&mut out, g, Ghost(vs));
                    assert(out@.skip(n) =~= seq![fv, gv]);
                },
            }
        },
        SuspendKind::IfThen { prior, cond, before_await, else_branch, .. } => {
            let mut then_code = sources(before_await);
            proof {
                lemma_sources_ok(before_await@, vs);
            }
            let ghost tpre = then_code@;
            let w = go_waiting(awaits, caps, joins, i);
            let ghost wv = w@;
            push_all(&mut then_code, w, Ghost(vs));
            assert(then_code@.take(tpre.len() as int) =~= tpre);
            assert(then_code@.skip(tpre.len() as int) =~= wv);
            let mut else_code: Vec<Code> = Vec::new();
            match else_branch {
                Some(e) => {
                    push_one(&mut else_code, Code::Source(id_of_expr(e)), Ghost(vs));
                },
                None => {},
            }
            assert(else_code@ =~= else_source(*else_branch));
            let ghost epre = else_code@;
            let g = goto_join(awaits, caps, joins, i);
            let ghost gv = g;
            push_one(&mut else_code, g, Ghost(vs));
            assert(else_code@.take(epre.len() as int) =~= epre);
            assert(else_code@[epre.len() as int] == gv);
            let ghost tv = then_code@;
            let ghost ev = else_code@;
            let c = Code::If { cond: Operand::Expr(id_of_expr(cond)), then_code, else_code: Else::Block(else_code) };
            let ghost inner = c;
            let c = wrap_chain(prior, c, awaits, caps, joins, i);
            let ghost cv = c;
            push_one(&mut out, c, Ghost(vs));
            assert(out@.skip(n) =~= seq![cv]);
            assert(then_suspends(tv, sources_of(before_await@), a, ii));
            assert(then_joins(ev, else_source(*else_branch), a, ii));
            assert(chain_rest(cv, prior@) == inner);
        },
        SuspendKind::IfElse { prior, cond, then_branch, before_await, .. } => {
            let mut then_code = sources(then_branch);
            proof {
                lemma_sources_ok(then_branch@, vs);
            }
            let ghost tpre = then_code@;
            let g = goto_join(awaits, caps, joins, i);
            let ghost gv = g;
            push_one(&mut then_code, g, Ghost(vs));
            assert(then_code@.take(tpre.len() as int) =~= tpre);
            assert(then_code@[tpre.len() as int] == gv);
            let mut else_code = sources(before_await);
            proof {
                lemma_sources_ok(before_await@, vs);
            }
            let ghost epre = else_code@;
            let w = go_waiting(awaits, caps, joins, i);
            let ghost wv = w@;
            push_all(&mut else_code, w, Ghost(vs));
            assert(else_code@.take(epre.len() as int) =~= epre);
            assert(else_code@.skip(epre.len() as int) =~= wv);
            let ghost tv = then_code@;
            let ghost ev = else_code@;
            let c = Code::If { cond: Operand::Expr(id_of_expr(cond)), then_code, else_code: Else::Block(else_code) };
            let ghost inner = c;
            let c = wrap_chain(prior, c, awaits, caps, joins, i);
            let ghost cv = c;
            push_one(&mut out, c, Ghost(vs));
            assert(out@.skip(n) =~= seq![cv]);
            assert(then_joins(tv, sources_of(then_branch@), a, ii));
            assert(then_suspends(ev, sources_of(before_await@), a, ii));
            assert(chain_rest(cv, prior@) == inner);
        },
        SuspendKind::MatchArm { scrutinee, arms_before, sus_pat, sus_guard, before_await, arms_after, .. } => {
            let mut arms = sync_arms(arms_before, awaits, caps, joins, i);
            let ghost bv = arms@;
            let mut sus_body = sources(before_await);
            proof {
                lemma_sources_ok(before_await@, vs);
            }
            let ghost spre = sus_body@;
            let w = go_waiting(awaits, caps, joins, i);
            let ghost wv = w@;
            push_all(&mut sus_body, w, Ghost(vs));
            assert(sus_body@.take(spre.len() as int) =~= spre);
            assert(sus_body@.skip(spre.len() as int) =~= wv);
            let ghost sbv = sus_body@;
            let guard = match sus_guard {
                Some(g) => Some(id_of_expr(g)),
                None => None,
            };
            let sus = ArmCode {
                head: ArmHead::Pat { pat: crate::syntax::id_of_pat(sus_pat), guard },
                body: ArmBody::Code(sus_body),
            };
            let ghost susv = sus;
            proof {
                reveal_with_fuel(arms_ok, 2);
                lemma_arms_ok_concat(arms@, seq![sus], vs);
                assert(arms@ + seq![sus] =~= arms@.push(sus));
            }
            arms.push(sus);
            let mut after = sync_arms(arms_after, awaits, caps, joins, i);
            let ghost av = after@;
            proof {
                lemma_arms_ok_concat(arms@, after@, vs);
            }
            arms.append(&mut after);
            let ghost all = arms@;
            let nb = arms_before.len();
            assert(all.take(nb as int) =~= bv);
            assert(all[nb as int] == susv);
            assert(all.skip(nb + 1) =~= av);
            assert(guard == guard_id(*sus_guard));
            let c = Code::Match { scrutinee: Operand::Expr(id_of_expr(scrutinee)), arms };
            let ghost cv = c;
            push_one(&mut out, c, Ghost(vs));
            assert(out@.skip(n) =~= seq![cv]);
            assert(then_suspends(sbv, sources_of(before_await@), a, ii));
        },
        SuspendKind::MatchGuard { scrutinee, scrut_ty, arms_before, sus_pat, arms_after, .. } => {
            let first = Code::LetScrut { ty: *scrut_ty, expr: id_of_expr(scrutinee) };
            let ghost fv = first;
            push_one(&mut out, first, Ghost(vs));
            let w = go_waiting(awaits, caps, joins, i);
            let ghost wv = w@;
            let sus = ArmCode {
                head: ArmHead::Pat { pat: crate::syntax::id_of_pat(sus_pat), guard: None },
                body: ArmBody::Code(w),
            };
            let ghost susv = sus;
            let mut inner: Vec<ArmCode> = Vec::new();
            proof {
                reveal_with_fuel(arms_ok, 2);
            }
            inner.push(sus);
            let mut after = sync_arms(arms_after, awaits, caps, joins, i);
            let ghost av = after@;
            proof {
                lemma_arms_ok_concat(inner@, after@, vs);
            }
            inner.append(&mut after);
            let ghost iv = inner@;
            assert(iv[0] == susv);
            assert(iv.skip(1) =~= av);
            let mut fallback_body: Vec<Code> = Vec::new();
            let m = Code::Match { scrutinee: Operand::CloneScrut, arms: inner };
            let ghost mv = m;
            push_one(&mut fallback_body, m, Ghost(vs));
            let ghost fbv = fallback_body@;
            assert(fbv =~= seq![mv]);
            let fallback = ArmCode { head: ArmHead::Wild, body: ArmBody::Code(fallback_body) };
            let ghost fallv = fallback;
            let mut arms = sync_arms(arms_before, awaits, caps, joins, i);
            let ghost bv = arms@;
            proof {
                lemma_arms_ok_concat(arms@, seq![fallback], vs);
                assert(arms@ + seq![fallback] =~= arms@.push(fallback));
            }
            arms.push(fallback);
            let ghost all = arms@;
            assert(all.take(bv.len() as int) =~= bv);
            assert(all[bv.len() as int] == fallv);
            let c = Code::Match { scrutinee: Operand::CloneScrut, arms };
            let ghost cv = c;
            push_one(&mut out, c, Ghost(vs));
            assert(out@.skip(n) =~= seq![fv, cv]);
        },
    }
    assert(out@.take(n) =~= pre);
    out
}

/// Whether a `break` or `continue` with `label` leaves or repeats the loop
/// of a point of kind `k`: it has no label, or that loop's label.
pub open spec fn targets_loop(label: Option<String>, k: SuspendKind) -> bool {
    match label {
        None => true,
        Some(l) => match k {
            SuspendKind::Loop { label: Some(m), .. } => l@ == m@,
            SuspendKind::For { label: Some(m), .. } => l@ == m@,
            _ => false,
        },
    }
}

/// Whether a `break` or `continue` with `label` leaves or repeats the loop
/// of a point of kind `k`.
fn targets(label: &Option<String>, k: &SuspendKind) -> (r: bool)
    ensures
        r == targets_loop(*label, *k),
{
    match label {
        None => true,
        Some(l) => match k {
            SuspendKind::Loop { label: Some(m), .. } => crate::text::same_text(l.as_str(), m.as_str()),
            SuspendKind::For { label: Some(m), .. } => crate::text::same_text(l.as_str(), m.as_str()),
            _ => false,
        },
    }
}

/// `c` is the statement `st` after a loop's await, rewritten: a `break`
/// without a value that leaves the loop goes on to the join state of point
/// `i`, a `continue` that repeats it goes back to its head, an `if` is
/// rewritten branch by branch, anything else runs as written.
pub open spec fn loop_rewrite_ok(c: Code, st: Stmt, a: Seq<AwaitPoint>, i: int) -> bool
    decreases st,
{
    match st {
        Stmt::Expr { expr: Expr::Break { label, value: None, .. }, .. } => if targets_loop(label, a[i].kind) {
            joins_at(c, a, i)
        } else {
            c == Code::Source(stmt_id(st))
        },
        Stmt::Expr { expr: Expr::Break { .. }, .. } => c == Code::Source(stmt_id(st)),
        Stmt::Expr { expr: Expr::Continue { label, .. }, .. } => if targets_loop(label, a[i].kind) {
            heads_at(c, a, i)
        } else {
            c == Code::Source(stmt_id(st))
        },
        Stmt::Expr { expr: Expr::If { cond, then_branch, else_branch, .. }, .. } => {
            &&& c matches Code::If { cond: oc, then_code, else_code } && oc == Operand::Expr(expr_id(*cond))
                && loop_rewrites_ok(then_code@, then_branch@, a, i) && match else_branch {
                None => else_code is Nothing,
                Some(e) => match *e {
                    Expr::Block { stmts, .. } => else_code matches Else::Block(b) && loop_rewrites_ok(b@, stmts@, a, i),
                    other => else_code == Else::Expr(expr_id(other)),
                },
            }
        },
        _ => c == Code::Source(stmt_id(st)),
    }
}

/// `cs` are the statements `sts` after a loop's await, each rewritten.
pub open spec fn loop_rewrites_ok(cs: Seq<Code>, sts: Seq<Stmt>, a: Seq<AwaitPoint>, i: int) -> bool
    decreases sts,
{
    &&& cs.len() == sts.len()
    &&& sts.len() > 0 ==> loop_rewrites_ok(cs.drop_last(), sts.drop_last(), a, i) && loop_rewrite_ok(cs.last(), sts.last(), a, i)
}

/// One statement after a loop's await: a `break` that leaves the loop goes
/// to its join state, a `continue` that repeats it to its head, an `if` is
/// rewritten branch by branch, anything else is kept as written.
pub(crate) fn rewrite_loop_stmt(
    st: &Stmt,
    awaits: &Vec<AwaitPoint>,
    caps: &Vec<Vec<Binding>>,
    joins: &Vec<Vec<Binding>>,
    i: usize,
) -> (r: Code)
    requires
        planned(awaits@, joins@, caps@),
        i < awaits@.len(),
        needs_join_kind(awaits@[i as int].kind),
        is_loop_kind(awaits@[i as int].kind),
    ensures
        code_ok(r, all_variants(awaits@)),
        loop_rewrite_ok(r, *st, awaits@, i as int),
    decreases *st,
{
    let ghost vs = all_variants(awaits@);
    match st {
        Stmt::Expr { expr: Expr::Break { label, value: None, .. }, .. } => if targets(label, &awaits[i].kind) {
            goto_join(awaits, caps, joins, i)
        } else {
            Code::Source(id_of_stmt(st))
        },
        Stmt::Expr { expr: Expr::Continue { label, .. }, .. } => if targets(label, &awaits[i].kind) {
            goto_loop_head(awaits, caps, joins, i)
        } else {
            Code::Source(id_of_stmt(st))
        },
        Stmt::Expr { expr: Expr::If { cond, then_branch, else_branch, .. }, .. } => {
            assert(decreases_to!(*st => *then_branch));
            let then_code = rewrite_loop_stmts(then_branch, awaits, caps, joins, i);
            let else_code = match else_branch {
                None => Else::Nothing,
                Some(e) => match &**e {
                    Expr::Block { stmts, .. } => {
                        assert(decreases_to!(*st => *else_branch));
                        assert(decreases_to!(*else_branch => **e));
                        assert(decreases_to!(**e => *stmts));
                        Else::Block(rewrite_loop_stmts(stmts, awaits, caps, joins, i))
                    },
                    other => Else::Expr(id_of_expr(other)),
                },
            };
            Code::If { cond: Operand::Expr(id_of_expr(cond)), then_code, else_code }
        },
        other => Code::Source(id_of_stmt(other)),
    }
}

/// Statements after a loop's await, rewritten one by one.
pub(crate) fn rewrite_loop_stmts(
    stmts: &Vec<Stmt>,
    awaits: &Vec<AwaitPoint>,
    caps: &Vec<Vec<Binding>>,
    joins: &Vec<Vec<Binding>>,
    i: usize,
) -> (r: Vec<Code>)
    requires
        planned(awaits@, joins@, caps@),
        i < awaits@.len(),
        needs_join_kind(awaits@[i as int].kind),
        is_loop_kind(awaits@[i as int].kind),
    ensures
        codes_ok(r@, all_variants(awaits@)),
        loop_rewrites_ok(r@, stmts@, awaits@, i as int),
    decreases *stmts,
{
    let ghost vs = all_variants(awaits@);
    let mut out: Vec<Code> = Vec::new();
    let mut j: usize = 0;
    assert(decreases_to!(*stmts => stmts@));
    while j < stmts.len()
        invariant
            0 <= j <= stmts.len(),
            planned(awaits@, joins@, caps@),
            i < awaits@.len(),
            needs_join_kind(awaits@[i as int].kind),
            is_loop_kind(awaits@[i as int].kind),
            vs == all_variants(awaits@),
            codes_ok(out@, vs),
            loop_rewrites_ok(out@, stmts@.take(j as int), awaits@, i as int),
            decreases_to!(*stmts => stmts@),
        decreases stmts.len() - j,
    {
        assert(decreases_to!(stmts@ => stmts@[j as int]));
        let c = rewrite_loop_stmt(&stmts[j], awaits, caps, joins, i);
        let ghost before = out@;
        push_one(&mut out, c, Ghost(vs));
        proof {
            let t = stmts@.take(j + 1);
            assert(t.drop_last() =~= stmts@.take(j as int));
            assert(out@.drop_last() =~= before);
            assert(t.last() == stmts@[j as int]);
        }
        j += 1;
    }
    assert(stmts@.take(stmts.len() as int) =~= stmts@);
    out
}

fn copy_path(p: &Vec<usize>) -> (r: Vec<usize>)
    ensures
        r@ == p@,
{
    let mut out: Vec<usize> = Vec::new();
    let mut i: usize = 0;
    while i < p.len()
        invariant
            0 <= i <= p.len(),
            out@ == p@.take(i as int),
        decreases p.len() - i,
    {
        out.push(p[i]);
        i += 1;
        assert(out@ =~= p@.take(i as int));
    }
    assert(p@.take(p.len() as int) =~= p@);
    out
}

/// The resumed `let` of a point, with its await replaced by the settled value `tmp`.
fn resume_code(r: &crate::split::Resume, tmp: &String) -> (c: Code)
    ensures
        c matches Code::Resume { stmt, path, tmp: t } && stmt == stmt_id(r.stmt) && path@ == r.path@ && t@ == tmp@,
{
    Code::Resume { stmt: id_of_stmt(&r.stmt), path: copy_path(&r.path), tmp: tmp.clone() }
}

/// `c` is the awaiting `let` of `r`, with its await replaced by the settled value `tmp`.
pub open spec fn resumes(c: Code, r: crate::split::Resume, tmp: Seq<char>) -> bool {
    c matches Code::Resume { stmt, path, tmp: t } && stmt == stmt_id(r.stmt) && path@ == r.path@ && t@ == tmp
}

/// `c` is the awaiting `let … else` of `r`, with its await replaced by the
/// settled value `tmp` and its `else` block `b` rewritten.
pub open spec fn resumes_else(c: Code, r: crate::split::Resume, tmp: Seq<char>, b: Seq<Stmt>) -> bool {
    c matches Code::LetElse { stmt, path, tmp: t, else_code } && stmt == stmt_id(r.stmt) && path@ == r.path@ && t@
        == tmp && return_rewrites_ok(else_code@, b)
}

/// `c` is the statement `st` of a `let … else` block, rewritten: a `return`
/// without a value finishes the coroutine, an `if` is rewritten branch by
/// branch, anything else runs as written.
pub open spec fn return_rewrite_ok(c: Code, st: Stmt) -> bool
    decreases st,
{
    match st {
        Stmt::Expr { expr: Expr::Node { kind: NodeKind::Return, children, .. }, .. } => if children@.len() == 0 {
            c == Code::Finish
        } else {
            c == Code::Source(stmt_id(st))
        },
        Stmt::Expr { expr: Expr::If { cond, then_branch, else_branch, .. }, .. } => {
            &&& c matches Code::If { cond: oc, then_code, else_code } && oc == Operand::Expr(expr_id(*cond))
                && return_rewrites_ok(then_code@, then_branch@) && match else_branch {
                None => else_code is Nothing,
                Some(e) => match *e {
                    Expr::Block { stmts, .. } => else_code matches Else::Block(b) && return_rewrites_ok(b@, stmts@),
                    other => else_code == Else::Expr(expr_id(other)),
                },
            }
        },
        _ => c == Code::Source(stmt_id(st)),
    }
}

/// `cs` are the statements `sts` of a `let … else` block, each rewritten.
pub open spec fn return_rewrites_ok(cs: Seq<Code>, sts: Seq<Stmt>) -> bool
    decreases sts,
{
    &&& cs.len() == sts.len()
    &&& sts.len() > 0 ==> return_rewrites_ok(cs.drop_last(), sts.drop_last()) && return_rewrite_ok(cs.last(), sts.last())
}

/// One statement of a `let … else` block: a `return;` finishes the
/// coroutine, an `if` is rewritten branch by branch, anything else is kept
/// as written.
fn rewrite_return_stmt(st: &Stmt, Ghost(vs): Ghost<Seq<VariantView>>) -> (r: Code)
    ensures
        code_ok(r, vs),
        return_rewrite_ok(r, *st),
    decreases *st,
{
    match st {
        Stmt::Expr { expr: Expr::Node { kind, children, .. }, .. } => {
            if *kind == NodeKind::Return && children.len() == 0 {
                Code::Finish
            } else {
                Code::Source(id_of_stmt(st))
            }
        },
        Stmt::Expr { expr: Expr::If { cond, then_branch, else_branch, .. }, .. } => {
            assert(decreases_to!(*st => *then_branch));
            let then_code = rewrite_return_stmts(then_branch, Ghost(vs));
            let else_code = match else_branch {
                None => Else::Nothing,
                Some(e) => match &**e {
                    Expr::Block { stmts, .. } => {
                        assert(decreases_to!(*st => *else_branch));
                        assert(decreases_to!(*else_branch => **e));
                        assert(decreases_to!(**e => *stmts));
                        Else::Block(rewrite_return_stmts(stmts, Ghost(vs)))
                    },
                    other => Else::Expr(id_of_expr(other)),
                },
            };
            Code::If { cond: Operand::Expr(id_of_expr(cond)), then_code, else_code }
        },
        other => Code::Source(id_of_stmt(other)),
    }
}

/// The statements of a `let … else` block, rewritten one by one.
fn rewrite_return_stmts(stmts: &Vec<Stmt>, Ghost(vs): Ghost<Seq<VariantView>>) -> (r: Vec<Code>)
    ensures
        codes_ok(r@, vs),
        return_rewrites_ok(r@, stmts@),
    decreases *stmts,
{
    let mut out: Vec<Code> = Vec::new();
    let mut j: usize = 0;
    assert(decreases_to!(*stmts => stmts@));
    while j < stmts.len()
        invariant
            0 <= j <= stmts.len(),
            codes_ok(out@, vs),
            return_rewrites_ok(out@, stmts@.take(j as int)),
            decreases_to!(*stmts => stmts@),
        decreases stmts.len() - j,
    {
        assert(decreases_to!(stmts@ => stmts@[j as int]));
        let c = rewrite_return_stmt(&stmts[j], Ghost(vs));
        let ghost before = out@;
        push_one(&mut out, c, Ghost(vs));
        proof {
            let t = stmts@.take(j + 1);
            assert(t.drop_last() =~= stmts@.take(j as int));
            assert(out@.drop_last() =~= before);
            assert(t.last() == stmts@[j as int]);
        }
        j += 1;
    }
    assert(stmts@.take(stmts.len() as int) =~= stmts@);
    out
}

/// Each of `xs` is the corresponding source arm as written: pattern, guard and value.
pub open spec fn all_as_written(xs: Seq<ArmCode>, arms: Seq<Arm>) -> bool {
    &&& xs.len() == arms.len()
    &&& forall|j: int|
        0 <= j < arms.len() ==> #[trigger] xs[j] == (ArmCode {
            head: ArmHead::Source(arms[j].id),
            body: ArmBody::Expr(expr_id(arms[j].body)),
        })
}

/// `c` matches the stored scrutinee `__scrut` against `xs`.
pub open spec fn matches_scrut(c: Code, xs: Seq<ArmCode>) -> bool {
    c matches Code::Match { scrutinee: Operand::Local(sv), arms } && sv@ == "__scrut"@ && arms@ == xs
}

/// The condition an `if` point tests once resumed: the settled value `tmp`
/// itself, or the `if let` condition numbered `let_cond` with its await
/// replaced by it.
pub open spec fn settled_cond(cond: Operand, let_cond: Option<usize>, tmp: Seq<char>) -> bool {
    match let_cond {
        None => cond matches Operand::Local(l) && l@ == tmp,
        Some(c) => cond matches Operand::Settled { expr, path, tmp: t } && expr == c && path@
            == crate::inspect::let_val_path() && t@ == tmp,
    }
}

/// What point `i` runs once its await has been settled into its `tmp`:
/// the resumed `let` and what follows it in the point's block, or the
/// branch, arm or guard outcome the settled value selects.
pub open spec fn resumes_point(r: Seq<Code>, a: Seq<AwaitPoint>, i: int) -> bool {
    let tmp = a[i].tmp@;
    match a[i].kind {
        SuspendKind::Plain { resume } => r.len() == 1 && match resume.stmt {
            Stmt::Local { diverge: Some(b), .. } => resumes_else(r[0], resume, tmp, b@),
            _ => resumes(r[0], resume, tmp),
        },
        SuspendKind::IfCondition { let_cond, then_branch, else_branch } => {
            &&& r.len() == 1
            &&& r[0] matches Code::If { cond, then_code, else_code } && settled_cond(cond, let_cond, tmp)
                && then_code@ == sources_of(then_branch@) && else_code == match else_branch {
                Some(e) => Else::Expr(expr_id(*e)),
                None => Else::Nothing,
            }
        },
        SuspendKind::MatchScrutinee { arms, .. } => {
            &&& r.len() == 1
            &&& r[0] matches Code::Match { scrutinee: Operand::Local(l), arms: xs } && l@ == tmp && all_as_written(xs@, arms@)
        },
        SuspendKind::IfThen { resume, after_await, .. } => {
            &&& r.len() == 1 + after_await@.len()
            &&& resumes(r[0], resume, tmp)
            &&& r.skip(1) == sources_of(after_await@)
        },
        SuspendKind::IfElse { resume, after_await, .. } => {
            &&& r.len() == 1 + after_await@.len()
            &&& resumes(r[0], resume, tmp)
            &&& r.skip(1) == sources_of(after_await@)
        },
        SuspendKind::MatchArm { resume, after_await, .. } => {
            &&& r.len() == 1 + after_await@.len()
            &&& resumes(r[0], resume, tmp)
            &&& r.skip(1) == sources_of(after_await@)
        },
        SuspendKind::MatchGuard { sus_pat, sus_body, arms_after, .. } => {
            &&& r.len() == 1
            &&& r[0] matches Code::If { cond: Operand::Local(l), then_code, else_code: Else::Block(ec) } && l@ == tmp
                && then_code@.len() == 1 && matches_scrut(
                then_code@[0],
                seq![
                    ArmCode { head: ArmHead::Pat { pat: pat_id(sus_pat), guard: None }, body: ArmBody::Expr(expr_id(sus_body)) },
                    ArmCode { head: ArmHead::Wild, body: ArmBody::Unreachable },
                ],
            ) && if arms_after@.len() == 0 {
                ec@.len() == 0
            } else {
                ec@.len() == 1 && (ec@[0] matches Code::Match { scrutinee: Operand::Local(sv), arms: ys } && sv@ == "__scrut"@
                    && all_as_written(ys@, arms_after@))
            }
        },
        SuspendKind::Loop { resume, after_await, .. } => {
            &&& r.len() >= 1
            &&& resumes(r[0], resume, tmp)
            &&& loop_rewrites_ok(r.skip(1), after_await@, a, i)
        },
        SuspendKind::For { resume, after_await, .. } => match resume {
            Some(rs) => r.len() >= 1 && resumes(r[0], rs, tmp) && loop_rewrites_ok(r.skip(1), after_await@, a, i),
            None => loop_rewrites_ok(r, after_await@, a, i),
        },
    }
}

/// What point `i` runs once its await has been settled.
pub(crate) fn after_resume_code(awaits: &Vec<AwaitPoint>, caps: &Vec<Vec<Binding>>, joins: &Vec<Vec<Binding>>, i: usize) -> (r: Vec<Code>)
    requires
        planned(awaits@, joins@, caps@),
        i < awaits@.len(),
    ensures
        codes_ok(r@, all_variants(awaits@)),
        resumes_point(r@, awaits@, i as int),
{
    let ghost vs = all_variants(awaits@);
    let ap = &awaits[i];
    let mut out: Vec<Code> = Vec::new();
    match &ap.kind {
        SuspendKind::Plain { resume } => {
            let c = match &resume.stmt {
                Stmt::Local { diverge: Some(b), .. } => {
                    let else_code = rewrite_return_stmts(b, Ghost(vs));
                    Code::LetElse {
                        stmt: id_of_stmt(&resume.stmt),
                        path: copy_path(&resume.path),
                        tmp: ap.tmp.clone(),
                        else_code,
                    }
                },
                _ => resume_code(resume, &ap.tmp),
            };
            push_one(&mut out, c, Ghost(vs));
        },
        SuspendKind::IfCondition { let_cond, then_branch, else_branch } => {
            let then_code = sources(then_branch);
            proof {
                lemma_sources_ok(then_branch@, vs);
            }
            let else_code = match else_branch {
                Some(e) => Else::Expr(id_of_expr(e)),
                None => Else::Nothing,
            };
            let cond = match let_cond {
                None => Operand::Local(ap.tmp.clone()),
                Some(c) => {
                    let mut path: Vec<usize> = Vec::new();
                    path.push(0);
                    path.push(1);
                    assert(path@ =~= crate::inspect::let_val_path());
                    Operand::Settled { expr: *c, path, tmp: ap.tmp.clone() }
                },
            };
            push_one(&mut out, Code::If { cond, then_code, else_code }, Ghost(vs));
        },
        SuspendKind::MatchScrutinee { arms, .. } => {
            let xs = plain_arms(arms, Ghost(vs));
            assert(all_as_written(xs@, arms@));
            push_one(&mut out, Code::Match { scrutinee: Operand::Local(ap.tmp.clone()), arms: xs }, Ghost(vs));
        },
        SuspendKind::IfThen { resume, after_await, .. } | SuspendKind::IfElse { resume, after_await, .. }
        | SuspendKind::MatchArm { resume, after_await, .. } => {
            push_one(&mut out, resume_code(resume, &ap.tmp), Ghost(vs));
            let rest = sources(after_await);
            let ghost rv = rest@;
            proof {
                lemma_sources_ok(after_await@, vs);
            }
            push_all(&mut out, rest, Ghost(vs));
            assert(out@.skip(1) =~= rv);
        },
        SuspendKind::MatchGuard { sus_pat, sus_body, arms_after, .. } => {
            let mut inner: Vec<ArmCode> = Vec::new();
            inner.push(ArmCode {
                head: ArmHead::Pat { pat: crate::syntax::id_of_pat(sus_pat), guard: None },
                body: ArmBody::Expr(id_of_expr(sus_body)),
            });
            inner.push(ArmCode { head: ArmHead::Wild, body: ArmBody::Unreachable });
            proof {
                assert(inner@.drop_first().drop_first().len() == 0);
                assert(arms_ok(inner@.drop_first().drop_first(), vs));
                assert(arms_ok(inner@.drop_first(), vs));
                assert(arms_ok(inner@, vs));
            }
            let ghost iv = inner@;
            assert(iv =~= seq![
                ArmCode { head: ArmHead::Pat { pat: pat_id(*sus_pat), guard: None }, body: ArmBody::Expr(expr_id(*sus_body)) },
                ArmCode { head: ArmHead::Wild, body: ArmBody::Unreachable },
            ]);
            let mut then_code: Vec<Code> = Vec::new();
            let m = Code::Match { scrutinee: Operand::Local(String::from_str("__scrut")), arms: inner };
            assert(matches_scrut(m, iv));
            push_one(&mut then_code, m, Ghost(vs));
            let mut else_code: Vec<Code> = Vec::new();
            if arms_after.len() > 0 {
                let ys = plain_arms(arms_after, Ghost(vs));
                assert(all_as_written(ys@, arms_after@));
                push_one(&mut else_code, Code::Match { scrutinee: Operand::Local(String::from_str("__scrut")), arms: ys }, Ghost(vs));
            }
            push_one(&mut out, Code::If { cond: Operand::Local(ap.tmp.clone()), then_code, else_code: Else::Block(else_code) }, Ghost(vs));
        },
        SuspendKind::Loop { resume, after_await, .. } => {
            push_one(&mut out, resume_code(resume, &ap.tmp), Ghost(vs));
            let rest = rewrite_loop_stmts(after_await, awaits, caps, joins, i);
            let ghost rv = rest@;
            push_all(&mut out, rest, Ghost(vs));
            assert(out@.skip(1) =~= rv);
        },
        SuspendKind::For { resume, after_await, .. } => {
            match resume {
                Some(r) => {
                    push_one(&mut out, resume_code(r, &ap.tmp), Ghost(vs));
                },
                None => {},
            }
            let ghost pre = out@;
            let rest = rewrite_loop_stmts(after_await, awaits, caps, joins, i);
            let ghost rv = rest@;
            push_all(&mut out, rest, Ghost(vs));
            assert(out@.skip(pre.len() as int) =~= rv);
            assert(pre.len() == 0 ==> out@ =~= rv);
        },
    }
    out
}

/// What follows point `i` and its join: entering the next point, or the
/// statements after the last point as written and finishing.
pub open spec fn continues_after(t: Seq<Code>, a: Seq<AwaitPoint>, l: Seq<Stmt>, i: int) -> bool {
    if i + 1 < a.len() {
        enters(t, a, i + 1)
    } else {
        t == sources_of(l).push(Code::Finish)
    }
}

/// What follows once point `i` and its join are done: entering the next
/// point, or the statements after the last point and finishing.
pub(crate) fn join_tail(
    awaits: &Vec<AwaitPoint>,
    caps: &Vec<Vec<Binding>>,
    joins: &Vec<Vec<Binding>>,
    after_last: &Vec<Stmt>,
    i: usize,
) -> (r: Vec<Code>)
    requires
        planned(awaits@, joins@, caps@),
        i < awaits@.len(),
    ensures
        codes_ok(r@, all_variants(awaits@)),
        continues_after(r@, awaits@, after_last@, i as int),
{
    let ghost vs = all_variants(awaits@);
    if i >= awaits.len() - 1 {
        let mut out = sources(after_last);
        proof {
            lemma_sources_ok(after_last@, vs);
        }
        push_one(&mut out, Code::Finish, Ghost(vs));
        out
    } else {
        enter_code(awaits, caps, joins, i + 1)
    }
}

/// How the waiting state of point `i` ends once resumed: a loop goes back
/// to its head, a branch or arm goes on to its join state, anything else
/// continues after the point.
pub open spec fn ends_point(t: Seq<Code>, a: Seq<AwaitPoint>, l: Seq<Stmt>, i: int) -> bool {
    if is_loop_kind(a[i].kind) {
        t.len() == 1 && heads_at(t[0], a, i)
    } else if needs_join_kind(a[i].kind) {
        t.len() == 1 && joins_at(t[0], a, i)
    } else {
        continues_after(t, a, l, i)
    }
}

/// The code of the state that waits on the awaited range of point `i`:
/// take the settled range as the iterator and go to the loop head.
pub open spec fn iter_arm_code(b: Seq<Code>, a: Seq<AwaitPoint>, i: int) -> bool {
    &&& b.len() == 2
    &&& b[0] == Code::StartIter
    &&& heads_at(b[1], a, i)
}

/// The code of the waiting state of point `i`: the rehydration check when
/// the state keeps skipped locals, taking the settled value, what the
/// point runs once resumed, and how it ends.
pub open spec fn wait_arm_code(b: Seq<Code>, a: Seq<AwaitPoint>, l: Seq<Stmt>, i: int) -> bool {
    let g: int = if skip_only(caps_at(a, i)).len() > 0 { 1 } else { 0 };
    match kind_child(a[i].kind) {
        None => {
            let rest = b.skip(g + 1);
            let k: int = if is_loop_kind(a[i].kind) || needs_join_kind(a[i].kind) { rest.len() - 1 } else { 1 };
            &&& b.len() >= g + 1
            &&& g == 1 ==> guards_at(b[0], a, i)
            &&& b[g] matches Code::TakeWait(t) && t@ == a[i].tmp@
            &&& 0 <= k <= rest.len()
            &&& resumes_point(rest.take(k), a, i)
            &&& ends_point(rest.skip(k), a, l, i)
        },
        Some(c) => {
            &&& b.len() == g + 1
            &&& g == 1 ==> guards_at(b[0], a, i)
            &&& steps_child(b[g], a, l, i, c)
        },
    }
}

/// `x` steps the child coroutine of type `c` that point `i` drives:/// `x` steps the child coroutine of type `c` that point `i` drives: while
/// the child is not ready the state stays the point's waiting state with
/// its locals; once it is, its value is the settled value, and the point
/// resumes and ends as a settled awaiting `let` does.
pub open spec fn steps_child(x: Code, a: Seq<AwaitPoint>, l: Seq<Stmt>, i: int, c: Ty) -> bool {
    x matches Code::StepChild { variant, fields, nested, tmp, ready } && variant@ == waiting_name(a, i) && text_seq(fields@)
        == name_seq(caps_at(a, i)) && nested@ == nested_name(c) && tmp@ == a[i].tmp@ && ready@.len() >= 1
        && resumes_point(ready@.take(1), a, i) && ends_point(ready@.skip(1), a, l, i)
}

/// The code of the loop head of point `i`: a `for` takes the next item and
/// runs its body up to the await (or, without one, back to the head), or
/// leaves for its join state when the iterator is exhausted; a `loop` runs
/// its body up to the await, and a `while` does so while its condition
/// holds and otherwise leaves for its join state. A `break` or `continue`
/// of the loop in that part of the body goes to the join or head state.
pub open spec fn head_arm_code(b: Seq<Code>, a: Seq<AwaitPoint>, i: int) -> bool {
    match a[i].kind {
        SuspendKind::For { item, has_body_await, before_await, .. } => {
            &&& b.len() == 1
            &&& b[0] matches Code::NextItem { item: it, some, none } && it@ == item@ && (if has_body_await {
                rewritten_then_suspends(some@, before_await@, a, i)
            } else {
                rewritten_then_heads(some@, before_await@, a, i)
            }) && none@.len() == 1 && joins_at(none@[0], a, i)
        },
        SuspendKind::Loop { cond: None, before_await, .. } => rewritten_then_suspends(b, before_await@, a, i),
        SuspendKind::Loop { cond: Some(c), before_await, .. } => {
            &&& b.len() == 1
            &&& b[0] matches Code::If { cond: oc, then_code, else_code: Else::Block(ec) } && oc == Operand::Expr(expr_id(*c))
                && rewritten_then_suspends(then_code@, before_await@, a, i) && ec@.len() == 1 && joins_at(ec@[0], a, i)
        },
        _ => false,
    }
}

/// `s` runs the loop body's statements `before` the await of point `i`,
/// rewritten as after the await (a `break` or `continue` of the loop goes
/// to its join or head state), then suspends at the point.
pub open spec fn rewritten_then_suspends(s: Seq<Code>, before: Seq<Stmt>, a: Seq<AwaitPoint>, i: int) -> bool {
    &&& before.len() <= s.len()
    &&& loop_rewrites_ok(s.take(before.len() as int), before, a, i)
    &&& then_suspends(s, s.take(before.len() as int), a, i)
}

/// `s` runs the loop body's statements `before`, rewritten the same way,
/// then goes back to the head of the loop of point `i`.
pub open spec fn rewritten_then_heads(s: Seq<Code>, before: Seq<Stmt>, a: Seq<AwaitPoint>, i: int) -> bool {
    &&& before.len() <= s.len()
    &&& loop_rewrites_ok(s.take(before.len() as int), before, a, i)
    &&& then_heads(s, s.take(before.len() as int), a, i)
}

/// The code of the join state of point `i`: its join statements as
/// written, then what continues after the point.
pub open spec fn join_arm_code(b: Seq<Code>, a: Seq<AwaitPoint>, l: Seq<Stmt>, i: int) -> bool {
    let pre = sources_of(crate::split::join_of(a[i].kind));
    &&& pre.len() <= b.len()
    &&& b.take(pre.len() as int) == pre
    &&& continues_after(b.skip(pre.len() as int), a, l, i)
}

/// The code of state number `m` of point `i` (see [`point_variants`]).
pub open spec fn arm_code_at(b: Seq<Code>, a: Seq<AwaitPoint>, l: Seq<Stmt>, i: int, m: int) -> bool {
    let k = a[i].kind;
    let w0: int = if has_iter_await(k) { 1 } else { 0 };
    let h0: int = w0 + if waits(k) { 1int } else { 0int };
    let j0: int = h0 + if is_loop_kind(k) { 1int } else { 0int };
    if has_iter_await(k) && m == 0 {
        iter_arm_code(b, a, i)
    } else if waits(k) && m == w0 {
        wait_arm_code(b, a, l, i)
    } else if is_loop_kind(k) && m == h0 {
        head_arm_code(b, a, i)
    } else if needs_join_kind(k) && m == j0 {
        join_arm_code(b, a, l, i)
    } else {
        false
    }
}

/// The arm of `step` for state number `m` of point `i` (see [`point_variants`]),
/// aligned with that state.
pub open spec fn arm_matches(arm: StepArm, v: VariantView, vs: Seq<VariantView>) -> bool {
    &&& arm.variant@ == v.name
    &&& views(arm.fields@) == v.fields
    &&& arm.binds_wait == (v.wait is Some)
    &&& codes_ok(arm.body@, vs)
}

fn push_arm(out: &mut Vec<StepArm>, arm: StepArm, Ghost(v): Ghost<VariantView>, Ghost(vs): Ghost<Seq<VariantView>>)
    requires
        arm_matches(arm, v, vs),
    ensures
        final(out)@ == old(out)@.push(arm),
{
    out.push(arm);
}

/// The code of the state that waits on the awaited range of point `i`.
fn iter_arm_body(awaits: &Vec<AwaitPoint>, caps: &Vec<Vec<Binding>>, joins: &Vec<Vec<Binding>>, i: usize) -> (r: Vec<Code>)
    requires
        planned(awaits@, joins@, caps@),
        i < awaits@.len(),
        has_iter_await(awaits@[i as int].kind),
    ensures
        codes_ok(r@, all_variants(awaits@)),
        iter_arm_code(r@, awaits@, i as int),
{
    let ghost vs = all_variants(awaits@);
    let mut body: Vec<Code> = Vec::new();
    push_one(&mut body, Code::StartIter, Ghost(vs));
    let g = goto_loop_head(awaits, caps, joins, i);
    let ghost gv = g;
    push_one(&mut body, g, Ghost(vs));
    assert(body@ =~= seq![Code::StartIter, gv]);
    body
}

/// The code of the waiting state of point `i`.
fn wait_arm_body(
    awaits: &Vec<AwaitPoint>,
    caps: &Vec<Vec<Binding>>,
    joins: &Vec<Vec<Binding>>,
    after_last: &Vec<Stmt>,
    i: usize,
) -> (r: Vec<Code>)
    requires
        planned(awaits@, joins@, caps@),
        i < awaits@.len(),
        waits(awaits@[i as int].kind),
    ensures
        codes_ok(r@, all_variants(awaits@)),
        wait_arm_code(r@, awaits@, after_last@, i as int),
{
    let ghost vs = all_variants(awaits@);
    let ghost a = awaits@;
    let ghost l = after_last@;
    let ghost ii = i as int;
    let ap = &awaits[i];
    let mut body: Vec<Code> = Vec::new();
    let guard = rehydration_guard(awaits, caps, joins, i);
    let ghost gopt = guard;
    match guard {
        Some(g) => push_one(&mut body, g, Ghost(vs)),
        None => {},
    }
    let ghost gl = body@.len() as int;
    let ghost gb = body@;
    assert(gl == (if skip_only(caps_at(a, ii)).len() > 0 { 1int } else { 0int }));
    assert(gl == 1 ==> gb[0] == gopt->Some_0 && guards_at(gb[0], a, ii));
    match crate::split::child_of(&ap.kind) {
        Some(c) => {
            let res = after_resume_code(awaits, caps, joins, i);
            let ghost rv = res@;
            let mut ready = res;
            let t = join_tail(awaits, caps, joins, after_last, i);
            let ghost tv = t@;
            push_all(&mut ready, t, Ghost(vs));
            proof {
                assert(rv.len() == 1);
                assert(ready@.take(1) =~= rv);
                assert(ready@.skip(1) =~= tv);
                let ii = i as int;
                let m: int = if has_iter_await(ap.kind) { 1 } else { 0 };
                assert(point_variants(a, ii)[m].name == waiting_name(a, ii));
                lemma_declared_at(a, ii, m, false);
            }
            let x = Code::StepChild {
                variant: waiting_variant(ap.name.as_str()),
                fields: field_names(&caps[i]),
                nested: crate::effects::nested_variant(&c),
                tmp: ap.tmp.clone(),
                ready,
            };
            let ghost xv = x;
            push_one(&mut body, x, Ghost(vs));
            assert(body@[gl] == xv);
            return body;
        },
        None => {},
    }
    let tw = Code::TakeWait(ap.tmp.clone());
    let ghost twv = tw;
    push_one(&mut body, tw, Ghost(vs));
    let res = after_resume_code(awaits, caps, joins, i);
    let ghost rv = res@;
    push_all(&mut body, res, Ghost(vs));
    let ghost mid = body@;
    match &ap.kind {
        SuspendKind::Loop { .. } | SuspendKind::For { .. } => {
            let h = goto_loop_head(awaits, caps, joins, i);
            let ghost hv = h;
            push_one(&mut body, h, Ghost(vs));
            assert(body@.skip(mid.len() as int) =~= seq![hv]);
        },
        SuspendKind::IfThen { .. } | SuspendKind::IfElse { .. } | SuspendKind::MatchArm { .. }
        | SuspendKind::MatchGuard { .. } => {
            let h = goto_join(awaits, caps, joins, i);
            let ghost hv = h;
            push_one(&mut body, h, Ghost(vs));
            assert(body@.skip(mid.len() as int) =~= seq![hv]);
        },
        _ => {
            let t = join_tail(awaits, caps, joins, after_last, i);
            let ghost tv = t@;
            push_all(&mut body, t, Ghost(vs));
            assert(body@.skip(mid.len() as int) =~= tv);
        },
    }
    proof {
        let bv = body@;
        let ev = bv.skip(mid.len() as int);
        assert(ends_point(ev, a, l, ii));
        let rest = bv.skip(gl + 1);
        assert(rest.take(rv.len() as int) =~= rv);
        assert(rest.skip(rv.len() as int) =~= ev);
        assert(bv[gl] == twv);
        assert(gl == 1 ==> bv[0] == gb[0]);
        let k: int = if is_loop_kind(a[ii].kind) || needs_join_kind(a[ii].kind) { rest.len() - 1 } else { 1 };
        assert(k == rv.len());
    }
    body
}

/// The code of the loop head of point `i`.
fn head_arm_body(awaits: &Vec<AwaitPoint>, caps: &Vec<Vec<Binding>>, joins: &Vec<Vec<Binding>>, i: usize) -> (r: Vec<Code>)
    requires
        planned(awaits@, joins@, caps@),
        i < awaits@.len(),
        is_loop_kind(awaits@[i as int].kind),
    ensures
        codes_ok(r@, all_variants(awaits@)),
        head_arm_code(r@, awaits@, i as int),
{
    let ghost vs = all_variants(awaits@);
    let ap = &awaits[i];
    let mut body: Vec<Code> = Vec::new();
    match &ap.kind {
        SuspendKind::For { item, has_body_await, before_await, .. } => {
            let mut some = rewrite_loop_stmts(before_await, awaits, caps, joins, i);
            let ghost spre = some@;
            if *has_body_await {
                let w = go_waiting(awaits, caps, joins, i);
                let ghost wv = w@;
                push_all(&mut some, w, Ghost(vs));
                assert(some@.skip(spre.len() as int) =~= wv);
            } else {
                push_one(&mut some, goto_loop_head(awaits, caps, joins, i), Ghost(vs));
            }
            assert(some@.take(spre.len() as int) =~= spre);
            let mut none: Vec<Code> = Vec::new();
            push_one(&mut none, goto_join(awaits, caps, joins, i), Ghost(vs));
            let c = Code::NextItem { item: item.clone(), some, none };
            let ghost cv = c;
            push_one(&mut body, c, Ghost(vs));
            assert(body@ =~= seq![cv]);
        },
        SuspendKind::Loop { cond, before_await, .. } => {
            let b = rewrite_loop_stmts(before_await, awaits, caps, joins, i);
            let ghost bpre = b@;
            match cond {
                None => {
                    push_all(&mut body, b, Ghost(vs));
                    let w = go_waiting(awaits, caps, joins, i);
                    let ghost wv = w@;
                    push_all(&mut body, w, Ghost(vs));
                    assert(body@.take(bpre.len() as int) =~= bpre);
                    assert(body@.skip(bpre.len() as int) =~= wv);
                },
                Some(c) => {
                    let mut then_code = b;
                    let w = go_waiting(awaits, caps, joins, i);
                    let ghost wv = w@;
                    push_all(&mut then_code, w, Ghost(vs));
                    assert(then_code@.take(bpre.len() as int) =~= bpre);
                    assert(then_code@.skip(bpre.len() as int) =~= wv);
                    let mut else_code: Vec<Code> = Vec::new();
                    let g = goto_join(awaits, caps, joins, i);
                    let ghost gv = g;
                    push_one(&mut else_code, g, Ghost(vs));
                    assert(else_code@ =~= seq![gv]);
                    let ghost tv = then_code@;
                    let ghost ev = else_code@;
                    let code = Code::If { cond: Operand::Expr(id_of_expr(c)), then_code, else_code: Else::Block(else_code) };
                    let ghost cv = code;
                    push_one(&mut body, code, Ghost(vs));
                    assert(body@ =~= seq![cv]);
                    assert(then_suspends(tv, bpre, awaits@, i as int));
                },
            }
        },
        _ => {},
    }
    body
}

/// The code of the join state of point `i`.
fn join_arm_body(
    awaits: &Vec<AwaitPoint>,
    caps: &Vec<Vec<Binding>>,
    joins: &Vec<Vec<Binding>>,
    after_last: &Vec<Stmt>,
    i: usize,
) -> (r: Vec<Code>)
    requires
        planned(awaits@, joins@, caps@),
        i < awaits@.len(),
        needs_join_kind(awaits@[i as int].kind),
    ensures
        codes_ok(r@, all_variants(awaits@)),
        join_arm_code(r@, awaits@, after_last@, i as int),
{
    let ghost vs = all_variants(awaits@);
    let ap = &awaits[i];
    let join_stmts: &Vec<Stmt> = match &ap.kind {
        SuspendKind::IfThen { join_stmts, .. } | SuspendKind::IfElse { join_stmts, .. }
        | SuspendKind::Loop { join_stmts, .. } | SuspendKind::For { join_stmts, .. }
        | SuspendKind::MatchArm { join_stmts, .. } | SuspendKind::MatchGuard { join_stmts, .. } => join_stmts,
        _ => after_last,
    };
    assert(join_stmts@ == crate::split::join_of(ap.kind));
    let mut body = sources(join_stmts);
    proof {
        lemma_sources_ok(join_stmts@, vs);
    }
    let ghost jpre = body@;
    let t = join_tail(awaits, caps, joins, after_last, i);
    let ghost tv = t@;
    push_all(&mut body, t, Ghost(vs));
    assert(body@.take(jpre.len() as int) =~= jpre);
    assert(body@.skip(jpre.len() as int) =~= tv);
    body
}

/// The arms of `step` for the states of point `i`, in the order of those states.
fn point_step_arms(
    out: &mut Vec<StepArm>,
    awaits: &Vec<AwaitPoint>,
    caps: &Vec<Vec<Binding>>,
    joins: &Vec<Vec<Binding>>,
    after_last: &Vec<Stmt>,
    i: usize,
)
    requires
        planned(awaits@, joins@, caps@),
        i < awaits@.len(),
    ensures
        final(out)@.len() == old(out)@.len() + point_variants(awaits@, i as int).len(),
        forall|j: int| 0 <= j < old(out)@.len() ==> #[trigger] final(out)@[j] == old(out)@[j],
        forall|j: int|
            0 <= j < point_variants(awaits@, i as int).len() ==> #[trigger] arm_matches(
                final(out)@[old(out)@.len() + j],
                point_variants(awaits@, i as int)[j],
                all_variants(awaits@),
            ),
        forall|j: int|
            0 <= j < point_variants(awaits@, i as int).len() ==> #[trigger] arm_code_at(
                final(out)@[old(out)@.len() + j].body@,
                awaits@,
                after_last@,
                i as int,
                j,
            ),
{
    let ghost vs = all_variants(awaits@);
    let ghost pv = point_variants(awaits@, i as int);
    let ghost n0 = out@.len();
    let ghost a = awaits@;
    let ghost l = after_last@;
    let ghost ii = i as int;
    let ap = &awaits[i];
    let ghost mut m: int = 0;
    if for_has_iter_await(&ap.kind) {
        let body = iter_arm_body(awaits, caps, joins, i);
        assert(arm_code_at(body@, a, l, ii, m));
        let arm = StepArm { variant: waiting_iter_variant(i), fields: crate::bindings::clone_bindings(&joins[i]), binds_wait: true, body };
        push_arm(out, arm, Ghost(pv[m]), Ghost(vs));
        proof {
            m = m + 1;
        }
    }
    assert(forall|j: int| 0 <= j < m ==> #[trigger] arm_code_at(out@[n0 + j].body@, a, l, ii, j));
    assert(out@.len() == n0 + m);
    if waits_in_own_state(&ap.kind) {
        let body = wait_arm_body(awaits, caps, joins, after_last, i);
        assert(arm_code_at(body@, a, l, ii, m));
        let binds_wait = crate::split::child_of(&ap.kind).is_none();
        let arm = StepArm { variant: waiting_variant(ap.name.as_str()), fields: crate::bindings::clone_bindings(&caps[i]), binds_wait, body };
        push_arm(out, arm, Ghost(pv[m]), Ghost(vs));
        proof {
            m = m + 1;
        }
    }
    assert(forall|j: int| 0 <= j < m ==> #[trigger] arm_code_at(out@[n0 + j].body@, a, l, ii, j));
    assert(out@.len() == n0 + m);
    if is_loop(&ap.kind) {
        let body = head_arm_body(awaits, caps, joins, i);
        assert(arm_code_at(body@, a, l, ii, m));
        let arm = StepArm { variant: loop_head_variant(i), fields: loop_head_caps(&ap.kind, &joins[i]), binds_wait: false, body };
        push_arm(out, arm, Ghost(pv[m]), Ghost(vs));
        proof {
            m = m + 1;
        }
    }
    assert(forall|j: int| 0 <= j < m ==> #[trigger] arm_code_at(out@[n0 + j].body@, a, l, ii, j));
    assert(out@.len() == n0 + m);
    if crate::split::needs_join(&ap.kind) {
        let body = join_arm_body(awaits, caps, joins, after_last, i);
        assert(arm_code_at(body@, a, l, ii, m));
        let arm = StepArm { variant: join_variant(&ap.kind, i), fields: crate::bindings::clone_bindings(&joins[i]), binds_wait: false, body };
        push_arm(out, arm, Ghost(pv[m]), Ghost(vs));
        proof {
            m = m + 1;
        }
    }
    assert(forall|j: int| 0 <= j < m ==> #[trigger] arm_code_at(out@[n0 + j].body@, a, l, ii, j));
    assert(m == pv.len());
}

/// The arms of `step`, one per state and in the order of the states: each
/// binds exactly its state's fields, runs the code of its state (see
/// [`starts`] and [`arm_code_at`]), and every state change in it enters a
/// declared state with exactly that state's fields, suspending exactly when
/// it enters a waiting state.
pub(crate) fn step_arms(
    awaits: &Vec<AwaitPoint>,
    caps: &Vec<Vec<Binding>>,
    joins: &Vec<Vec<Binding>>,
    after_last: &Vec<Stmt>,
) -> (r: Vec<StepArm>)
    requires
        planned(awaits@, joins@, caps@),
    ensures
        r@.len() == all_variants(awaits@).len(),
        forall|j: int| 0 <= j < r@.len() ==> #[trigger] arm_matches(r@[j], all_variants(awaits@)[j], all_variants(awaits@)),
        starts(r@[0].body@, awaits@, after_last@),
        forall|i: int, j: int|
            0 <= i < awaits@.len() && 0 <= j < point_variants(awaits@, i).len() ==> #[trigger] arm_code_at(
                r@[state_offset(awaits@, i) + j].body@,
                awaits@,
                after_last@,
                i,
                j,
            ),
        r@.last().body@ == seq![Code::Finish],
{
    let ghost vs = all_variants(awaits@);
    let ghost a = awaits@;
    let ghost l = after_last@;
    let mut out: Vec<StepArm> = Vec::new();
    let mut start: Vec<Code> = Vec::new();
    if awaits.len() == 0 {
        let b = sources(after_last);
        proof {
            lemma_sources_ok(after_last@, vs);
        }
        push_all(&mut start, b, Ghost(vs));
        push_one(&mut start, Code::Finish, Ghost(vs));
    } else {
        push_all(&mut start, enter_code(awaits, caps, joins, 0), Ghost(vs));
        assert(start@ =~= Seq::<Code>::empty() + start@.skip(0));
    }
    assert(starts(start@, a, l));
    let none: Vec<Binding> = Vec::new();
    proof {
        assert(views(none@) =~= Seq::<BindingView>::empty());
    }
    out.push(StepArm { variant: String::from_str("NotStarted"), fields: none, binds_wait: false, body: start });
    assert(arm_matches(out@[0], vs[0], vs));
    let mut i: usize = 0;
    while i < awaits.len()
        invariant
            0 <= i <= awaits@.len(),
            planned(awaits@, joins@, caps@),
            vs == all_variants(awaits@),
            out@.len() == vs.len() - variants_from(awaits@, i as int).len() - 1,
            forall|j: int| 0 <= j < out@.len() ==> #[trigger] arm_matches(out@[j], vs[j], vs),
            a == awaits@,
            l == after_last@,
            out@.len() > 0,
            starts(out@[0].body@, a, l),
            forall|p: int, j: int|
                0 <= p < i && 0 <= j < point_variants(a, p).len() ==> #[trigger] arm_code_at(
                    out@[state_offset(a, p) + j].body@,
                    a,
                    l,
                    p,
                    j,
                ),
            forall|p: int| 0 <= p < i ==> state_offset(a, p) + point_variants(a, p).len() <= #[trigger] state_offset(a, p + 1),
        decreases awaits.len() - i,
    {
        let ghost n0 = out@.len();
        let ghost old_out = out@;
        point_step_arms(&mut out, awaits, caps, joins, after_last, i);
        proof {
            let pv = point_variants(awaits@, i as int);
            assert(n0 == state_offset(a, i as int));
            assert(variants_from(a, i as int) == pv + variants_from(a, i + 1));
            assert(state_offset(a, i + 1) == n0 + pv.len());
            assert forall|p: int, j: int|
                0 <= p <= i && 0 <= j < point_variants(a, p).len() implies #[trigger] arm_code_at(
                    out@[state_offset(a, p) + j].body@,
                    a,
                    l,
                    p,
                    j,
                ) by {
                if p < i {
                    lemma_offsets_grow(a, p, i as int);
                    assert(out@[state_offset(a, p) + j] == old_out[state_offset(a, p) + j]);
                } else {
                    assert(arm_code_at(out@[n0 + j].body@, a, l, p, j));
                }
            }
            assert(variants_from(awaits@, i as int) == pv + variants_from(awaits@, i + 1));
            assert forall|j: int| 0 <= j < out@.len() implies #[trigger] arm_matches(out@[j], vs[j], vs) by {
                if j < n0 {
                    assert(out@[j] == old_out[j]);
                } else {
                    let t = j - n0;
                    assert(arm_matches(out@[n0 + t], pv[t], vs));
                    assert(vs == seq![vs[0]] + variants_from(awaits@, 0) + seq![vs[vs.len() - 1]]);
                    lemma_variants_suffix(awaits@, i as int);
                    assert(vs[j] == pv[t]);
                }
            }
        }
        i += 1;
    }
    let empty: Vec<Binding> = Vec::new();
    proof {
        assert(views(empty@) =~= Seq::<BindingView>::empty());
    }
    let mut fin: Vec<Code> = Vec::new();
    push_one(&mut fin, Code::Finish, Ghost(vs));
    assert(fin@ =~= seq![Code::Finish]);
    let ghost old_out = out@;
    out.push(StepArm { variant: String::from_str("Finished"), fields: empty, binds_wait: false, body: fin });
    proof {
        assert(variants_from(awaits@, i as int).len() == 0);
        assert forall|j: int| 0 <= j < out@.len() implies #[trigger] arm_matches(out@[j], vs[j], vs) by {
            if j < old_out.len() {
                assert(out@[j] == old_out[j]);
            }
        }
        assert forall|p: int, j: int|
            0 <= p < a.len() && 0 <= j < point_variants(a, p).len() implies #[trigger] arm_code_at(
                out@[state_offset(a, p) + j].body@,
                a,
                l,
                p,
                j,
            ) by {
            lemma_offsets_grow(a, p, a.len() as int);
            assert(state_offset(a, a.len() as int) == old_out.len());
            assert(out@[state_offset(a, p) + j] == old_out[state_offset(a, p) + j]);
        }
    }
    out
}

/// Where the arms of the states of point `i` start among the arms of `step`.
pub open spec fn state_offset(a: Seq<AwaitPoint>, i: int) -> int {
    all_variants(a).len() - variants_from(a, i).len() - 1
}

/// The code of `NotStarted`: entering the first point, or, without points,
/// the whole body as written and finishing.
pub open spec fn starts(b: Seq<Code>, a: Seq<AwaitPoint>, l: Seq<Stmt>) -> bool {
    if a.len() == 0 {
        b == sources_of(l).push(Code::Finish)
    } else {
        enters(b, a, 0)
    }
}

/// The states of point `i` lie strictly between `NotStarted` and `Finished`.
pub proof fn lemma_offsets_bound(a: Seq<AwaitPoint>, i: int)
    requires
        0 <= i < a.len(),
    ensures
        1 <= state_offset(a, i),
        state_offset(a, i) + point_variants(a, i).len() <= all_variants(a).len() - 1,
{
    lemma_offsets_grow(a, i, a.len() as int);
}

pub proof fn lemma_offsets_grow(a: Seq<AwaitPoint>, p: int, i: int)
    requires
        0 <= p < i <= a.len(),
    ensures
        1 <= state_offset(a, p),
        state_offset(a, p) + point_variants(a, p).len() <= state_offset(a, i),
    decreases i - p,
{
    lemma_variants_from_split(a, 0, p);
    assert(variants_from(a, p) == point_variants(a, p) + variants_from(a, p + 1));
    if p + 1 < i {
        lemma_offsets_grow(a, p + 1, i);
    }
}

/// The states of point `i` sit at `state_offset(a, i)` among all states.
pub proof fn lemma_variants_suffix(a: Seq<AwaitPoint>, i: int)
    requires
        0 <= i < a.len(),
    ensures
        ({
            let vs = all_variants(a);
            let off = vs.len() - variants_from(a, i).len() - 1;
            forall|t: int| 0 <= t < point_variants(a, i).len() ==> #[trigger] vs[off + t] == point_variants(a, i)[t]
        }),
{
    let vs = all_variants(a);
    let vf = variants_from(a, i);
    lemma_variants_from_split(a, 0, i);
    let pre = variants_from(a, 0).len() - vf.len();
    assert forall|t: int| 0 <= t < point_variants(a, i).len() implies #[trigger] vs[vs.len() - vf.len() - 1 + t] == point_variants(a, i)[t] by {
        assert(vf[t] == point_variants(a, i)[t]);
        assert(variants_from(a, 0)[pre + t] == vf[t]);
        assert(vs[1 + pre + t] == variants_from(a, 0)[pre + t]);
    }
}

proof fn lemma_variants_from_split(a: Seq<AwaitPoint>, j: int, i: int)
    requires
        0 <= j <= i <= a.len(),
    ensures
        variants_from(a, j).len() >= variants_from(a, i).len(),
        forall|t: int| 0 <= t < variants_from(a, i).len() ==> #[trigger] variants_from(a, j)[variants_from(a, j).len() - variants_from(a, i).len() + t] == variants_from(a, i)[t],
    decreases i - j,
{
    if j < i {
        lemma_variants_from_split(a, j + 1, i);
        let vj = variants_from(a, j);
        let vj1 = variants_from(a, j + 1);
        let vi = variants_from(a, i);
        let p = point_variants(a, j);
        assert(vj == p + vj1);
        assert forall|t: int| 0 <= t < vi.len() implies #[trigger] vj[vj.len() - vi.len() + t] == vi[t] by {
            assert(vj1[vj1.len() - vi.len() + t] == vi[t]);
            assert(vj[p.len() + (vj1.len() - vi.len() + t)] == vj1[vj1.len() - vi.len() + t]);
        }
    } else {
        assert forall|t: int| 0 <= t < variants_from(a, i).len() implies #[trigger] variants_from(a, j)[variants_from(a, j).len() - variants_from(a, i).len() + t] == variants_from(a, i)[t] by {}
    }
}

} // verus!

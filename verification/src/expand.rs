//! Planning a coroutine from an `async fn`: everything the generated state
//! enum, `settle_wait`, `rehydrate`, the getters and `step` are made of.
use vstd::prelude::*;
use crate::bindings::{let_binding, typed_let_binding, views, Binding, BindingView};
use crate::error::{err, error, CorotError, ErrorKind, Site};
use crate::plan::{
    all_kept, all_skips, all_variants, caps_at, collect_all_bindings, collect_skips, getters_of,
    has_iter_await, lemma_rehyd_arms_at, lemma_skips_nonempty, live_bindings, make_getters,
    make_rehydration_arms, make_settle_arms, make_variants, point_rehyd_arms, point_variants,
    rehyd_arms_from, rehyd_offset, settles_from, skip_only, waits, Getter, RehydArm, SettleArm,
    Variant,
};
use crate::split::{
    assign_join_stmts, joins_assigned, layout, lemma_split_resumes_its_awaits, lemma_statements_kept,
    resume_of, resumes_await_of, split_awaits, split_into, split_scan, AwaitPoint,
};
use crate::steps::{
    enters, arm_code_at, arm_matches, lemma_offsets_bound, lemma_variants_suffix, planned, starts, state_offset,
    step_arms, Code, StepArm,
};
use crate::syntax::{id_of_stmt, stmt_id, FnModel, Stmt};
use crate::effects::{effect_at, effect_list, effect_planned, effect_variants, variant_views, EffectCall, EffectVariant};
use crate::text::{coroutine_name, upper_camel};

verus! {

/// Everything a coroutine is generated from.
pub struct Plan {
    /// The function, which now returns the state enum in `NotStarted`.
    pub fn_name: String,
    /// The parameters, which `NotStarted` keeps until the first step.
    pub params: Vec<Binding>,
    /// The state enum: the attribute's `name`, else `<FnName>Coroutine`.
    pub enum_name: String,
    /// The enum of the external calls that `step` reports as effects: the
    /// attribute's `effect`, else `<EnumName>Effect`.
    pub effect_name: String,
    /// The variants of the effect enum: one per function an await calls,
    /// and one per type of child coroutine an await drives, which carries
    /// that child's effects.
    pub effects: Vec<EffectVariant>,
    /// For each suspension point, the external call it reports, if any.
    pub point_effects: Vec<Option<EffectCall>>,
    /// What `rehydrate` returns: `<EnumName>Rehydration`.
    pub rehydration_name: String,
    /// The suspension points, with join statements assigned.
    pub points: Vec<AwaitPoint>,
    /// Statements after the last point that no join state runs.
    pub after_last: Vec<Stmt>,
    /// Locals of each point's join state.
    pub joins: Vec<Vec<Binding>>,
    /// Locals of each point's waiting state.
    pub caps: Vec<Vec<Binding>>,
    /// The states, in declaration order.
    pub variants: Vec<Variant>,
    /// Whether the coroutine has a `settle_wait` method: exactly when it
    /// has a suspension point.
    pub has_settle_wait: bool,
    /// The arms of `settle_wait`.
    pub settle_arms: Vec<SettleArm>,
    /// The skipped locals `rehydrate` can report; none means `rehydrate`
    /// always reports success.
    pub skips: Vec<Binding>,
    /// The arms of `rehydrate` besides `NotStarted | Finished`; none when
    /// there are no skipped locals.
    pub rehydration_arms: Vec<RehydArm>,
    /// The getters of kept locals.
    pub getters: Vec<Getter>,
    /// The arms of `step`, one per state.
    pub step_arms: Vec<StepArm>,
}

/// Whether each parameter binds a plain identifier, or the first that does not.
pub open spec fn params_check(ps: Seq<Stmt>) -> Result<(), CorotError>
    decreases ps.len(),
{
    if ps.len() == 0 {
        Ok(())
    } else if let_binding(ps[0]) is None {
        Err(err(ErrorKind::NotIdentPattern, Site::Stmt(stmt_id(ps[0]))))
    } else {
        params_check(ps.drop_first())
    }
}

/// The locals the parameters bind, in order.
pub open spec fn param_bindings(ps: Seq<Stmt>) -> Seq<BindingView> {
    ps.map_values(|s: Stmt| let_binding(s)->Some_0@)
}

/// The state enum's name: the one the attribute gives, else the function's
/// name in upper camel case followed by `Coroutine`.
pub open spec fn enum_name_of(f: FnModel) -> Seq<char> {
    match f.enum_name {
        Some(n) => n@,
        None => upper_camel(f.name@) + "Coroutine"@,
    }
}

/// The effect enum's name: the one the attribute gives, else the state
/// enum's name followed by `Effect`.
pub open spec fn effect_name_of(f: FnModel) -> Seq<char> {
    match f.effect_name {
        Some(e) => e@,
        None => enum_name_of(f) + "Effect"@,
    }
}

/// The statements a coroutine runs: the parameters received, then the body.
pub open spec fn fn_stmts(f: FnModel) -> Seq<Stmt> {
    f.params@ + f.body@
}

/// Whether `f` can be made a coroutine: it must be `async`, take no `self`,
/// bind each parameter to an identifier, and its awaits must all stand at
/// suspension points; then the positions of those points among the
/// parameters and the body.
pub open spec fn check_fn(f: FnModel) -> Result<Seq<nat>, CorotError> {
    if !f.is_async {
        Err(err(ErrorKind::NotAsync, Site::FnToken))
    } else if f.has_receiver {
        Err(err(ErrorKind::HasInputs, Site::Inputs))
    } else {
        match params_check(f.params@) {
            Err(x) => Err(x),
            Ok(_) => split_scan(fn_stmts(f), 0),
        }
    }
}

/// `p` is the plan of `f`, whose suspension points are at `pos`.
pub open spec fn plan_of(f: FnModel, pos: Seq<nat>, p: Plan) -> bool {
    &&& exists|a: Seq<AwaitPoint>, l: Seq<Stmt>| #[trigger] split_into(fn_stmts(f), pos, a, l) && joins_assigned(a, l, p.points@, p.after_last@)
    &&& views(p.params@) == param_bindings(f.params@)
    &&& p.fn_name@ == f.name@
    &&& p.enum_name@ == enum_name_of(f)
    &&& p.effect_name@ == effect_name_of(f)
    &&& p.point_effects@.len() == p.points@.len()
    &&& forall|i: int| 0 <= i < p.points@.len() ==> #[trigger] effect_planned(p.point_effects@[i], p.points@, i)
    &&& variant_views(p.effects@) == effect_list(p.points@, p.points@.len() as int)
    &&& p.rehydration_name@ == p.enum_name@ + "Rehydration"@
    &&& planned(p.points@, p.joins@, p.caps@)
    &&& p.variants@.map_values(|v: Variant| v@) == all_variants(p.points@)
    &&& p.has_settle_wait == (p.points@.len() > 0)
    &&& p.settle_arms@.map_values(|s: SettleArm| s@) == settles_from(p.points@, 0)
    &&& views(p.skips@) == all_skips(p.points@)
    &&& p.rehydration_arms@.map_values(|x: RehydArm| x@) == if all_skips(p.points@).len() == 0 {
        Seq::empty()
    } else {
        rehyd_arms_from(p.points@, 0)
    }
    &&& p.getters@.map_values(|g: Getter| g@) == getters_of(p.points@, all_kept(p.points@))
    &&& p.step_arms@.len() == all_variants(p.points@).len()
    &&& forall|j: int| 0 <= j < p.step_arms@.len() ==> #[trigger] arm_matches(
        p.step_arms@[j],
        all_variants(p.points@)[j],
        all_variants(p.points@),
    )
    &&& starts(p.step_arms@[0].body@, p.points@, p.after_last@)
    &&& forall|i: int, j: int|
        0 <= i < p.points@.len() && 0 <= j < point_variants(p.points@, i).len() ==> #[trigger] arm_code_at(
            p.step_arms@[state_offset(p.points@, i) + j].body@,
            p.points@,
            p.after_last@,
            i,
            j,
        )
    &&& p.step_arms@.last().body@ == seq![Code::Finish]
}

/// A plan keeps the function's top-level statements: run in the order of
/// its states (each point's preceding statements, the point's statement,
/// its join statements, then what follows the last point), they are the
/// parameters received and the body, each statement once.
pub proof fn lemma_plan_keeps_statements(f: FnModel, pos: Seq<nat>, p: Plan)
    requires
        plan_of(f, pos, p),
    ensures
        fn_stmts(f) == layout(fn_stmts(f), pos, p.points@, 0, p.after_last@),
{
    let (a, l) = choose|a: Seq<AwaitPoint>, l: Seq<Stmt>|
        #[trigger] split_into(fn_stmts(f), pos, a, l) && joins_assigned(a, l, p.points@, p.after_last@);
    lemma_statements_kept(fn_stmts(f), pos, a, l, p.points@, p.after_last@);
}

/// Resuming a waiting state that keeps skipped locals first checks them the
/// way `rehydrate` does for that state: the check at the start of the
/// state's arm of `step` tests exactly the locals that the state's arm of
/// `rehydrate` tests, in the same order. So when the check finds one
/// missing, `rehydrate` reports it, never success.
pub proof fn lemma_resume_check_matches_rehydrate(f: FnModel, pos: Seq<nat>, p: Plan, i: int)
    requires
        plan_of(f, pos, p),
        0 <= i < p.points@.len(),
        waits(p.points@[i].kind),
        skip_only(caps_at(p.points@, i)).len() > 0,
    ensures
        ({
            let a = p.points@;
            let w = state_offset(a, i) + if has_iter_await(a[i].kind) { 1int } else { 0int };
            let r = p.rehydration_arms@[rehyd_offset(a, i)]@;
            &&& 0 <= w < p.step_arms@.len()
            &&& 0 <= rehyd_offset(a, i) < p.rehydration_arms@.len()
            &&& p.step_arms@[w].variant@ == r.variant
            &&& p.step_arms@[w].body@[0] matches Code::Guard { variant, skips, .. } && variant@ == r.variant
                && skips@.map_values(|s: String| s@) == r.checks.map_values(|b: BindingView| b.name)
        }),
{
    let a = p.points@;
    let l = p.after_last@;
    let k = a[i].kind;
    let m: int = if has_iter_await(k) { 1 } else { 0 };
    let w = state_offset(a, i) + m;
    lemma_variants_suffix(a, i);
    lemma_offsets_bound(a, i);
    assert(arm_code_at(p.step_arms@[state_offset(a, i) + m].body@, a, l, i, m));
    assert(arm_matches(p.step_arms@[w], all_variants(a)[w], all_variants(a)));
    assert(all_variants(a)[w] == point_variants(a, i)[m]);
    lemma_skips_nonempty(a, i);
    lemma_rehyd_arms_at(a, i);
    let ro = rehyd_offset(a, i);
    assert(p.rehydration_arms@.map_values(|x: RehydArm| x@) == rehyd_arms_from(a, 0));
    assert(p.rehydration_arms@[ro]@ == rehyd_arms_from(a, 0)[ro + 0]);
    assert(rehyd_arms_from(a, 0)[ro + 0] == point_rehyd_arms(a, i)[0]);
}

/// Every point of a plan resumes the very await it suspended on: entering
/// the point evaluates the base of the await that its resumed `let` has at
/// the resume path, and the settled value takes that await's place.
pub proof fn lemma_plan_resumes_its_awaits(f: FnModel, pos: Seq<nat>, p: Plan, i: int)
    requires
        plan_of(f, pos, p),
        0 <= i < p.points@.len(),
        resume_of(p.points@[i].kind) is Some,
    ensures
        resumes_await_of(resume_of(p.points@[i].kind)->Some_0, p.points@[i].base),
{
    let (a, l) = choose|a: Seq<AwaitPoint>, l: Seq<Stmt>|
        #[trigger] split_into(fn_stmts(f), pos, a, l) && joins_assigned(a, l, p.points@, p.after_last@);
    lemma_split_resumes_its_awaits(fn_stmts(f), pos, a, l, p.points@, p.after_last@, i);
}

/// The first step of a coroutine with a suspension point runs the code
/// that enters its first point: the statements before it, then the point's
/// own statement up to where it suspends, joins or reaches its loop head
/// (what that code does under any outcome of its tests is stated in
/// `crate::run`).
pub proof fn lemma_first_step_enters_first_point(f: FnModel, pos: Seq<nat>, p: Plan)
    requires
        plan_of(f, pos, p),
        p.points@.len() > 0,
    ensures
        enters(p.step_arms@[0].body@, p.points@, 0),
{
}

/// Plans the coroutine for `f`, or says why `f` cannot be one.
pub fn expand_corot(f: FnModel) -> (r: Result<Plan, CorotError>)
    ensures
        match r {
            Err(x) => check_fn(f) == Err::<Seq<nat>, CorotError>(x),
            Ok(p) => check_fn(f) matches Ok(pos) && plan_of(f, pos, p),
        },
{
    if !f.is_async {
        return Err(error(ErrorKind::NotAsync, Site::FnToken));
    }
    if f.has_receiver {
        return Err(error(ErrorKind::HasInputs, Site::Inputs));
    }
    let ghost body = fn_stmts(f);
    let ghost ps = f.params@;
    let FnModel { name, params: param_stmts, body: body_stmts, enum_name: given_name, effect_name: given_effect, .. } = f;
    let mut params: Vec<Binding> = Vec::new();
    let mut k: usize = 0;
    assert(ps.skip(0) =~= ps);
    assert(views(params@) =~= param_bindings(ps.take(0)));
    while k < param_stmts.len()
        invariant
            0 <= k <= param_stmts.len(),
            param_stmts@ == ps,
            f.is_async,
            !f.has_receiver,
            f.params@ == ps,
            params_check(ps) == params_check(ps.skip(k as int)),
            views(params@) == param_bindings(ps.take(k as int)),
        decreases param_stmts.len() - k,
    {
        assert(ps.skip(k as int)[0] == ps[k as int]);
        assert(ps.skip(k as int).drop_first() =~= ps.skip(k + 1));
        match typed_let_binding(&param_stmts[k]) {
            Some(b) => {
                let ghost before = views(params@);
                let ghost old_params = params@;
                assert(before.len() == k);
                params.push(b);
                assert(params@ == old_params.push(b));
                assert(views(params@).len() == k + 1);
                assert(b@ == let_binding(ps[k as int])->Some_0@);
                assert forall|j: int| 0 <= j < k + 1 implies #[trigger] views(params@)[j] == param_bindings(ps.take(k + 1))[j] by {
                    if j < k {
                        assert(params@[j] == old_params[j]);
                        assert(views(params@)[j] == before[j]);
                        assert(before[j] == param_bindings(ps.take(k as int))[j]);
                    }
                }
                assert(views(params@) =~= param_bindings(ps.take(k + 1)));
            },
            None => {
                return Err(error(ErrorKind::NotIdentPattern, Site::Stmt(id_of_stmt(&param_stmts[k]))));
            },
        }
        k += 1;
    }
    assert(ps.take(ps.len() as int) =~= ps);
    let mut stmts = param_stmts;
    let mut rest = body_stmts;
    stmts.append(&mut rest);
    assert(stmts@ =~= body);
    let (awaits0, after0) = match split_awaits(stmts) {
        Ok(x) => x,
        Err(x) => {
            return Err(x);
        },
    };
    let ghost a0 = awaits0@;
    let ghost l0 = after0@;
    let (points, after_last) = assign_join_stmts(awaits0, after0);
    let (joins, caps) = live_bindings(&points);
    let mut point_effects: Vec<Option<EffectCall>> = Vec::new();
    let mut e: usize = 0;
    while e < points.len()
        invariant
            0 <= e <= points.len(),
            planned(points@, joins@, caps@),
            point_effects@.len() == e,
            forall|j: int| 0 <= j < e ==> #[trigger] effect_planned(point_effects@[j], points@, j),
        decreases points.len() - e,
    {
        assert(views(caps@[e as int]@) == caps_at(points@, e as int));
        let x = effect_at(&points, &caps, e);
        point_effects.push(x);
        e += 1;
    }
    let effects = effect_variants(&point_effects, &points);
    let variants = make_variants(&points, &joins, &caps);
    let settle_arms = make_settle_arms(&points);
    let has_settle_wait = points.len() > 0;
    let skips = collect_skips(&joins, &caps, &points);
    let rehydration_arms = if skips.len() == 0 {
        Vec::new()
    } else {
        make_rehydration_arms(&points, &joins, &caps)
    };
    let kept = collect_all_bindings(&joins, &caps, &points);
    let getters = make_getters(&points, &joins, &caps, &kept);
    let steps = step_arms(&points, &caps, &joins, &after_last);
    let enum_name = match given_name {
        Some(n) => n,
        None => coroutine_name(name.as_str()),
    };
    let effect_name = match given_effect {
        Some(e) => e,
        None => {
            let mut e = enum_name.clone();
            e.append("Effect");
            e
        },
    };
    let mut rehydration_name = enum_name.clone();
    rehydration_name.append("Rehydration");
    let p = Plan {
        fn_name: name,
        params,
        enum_name,
        effect_name,
        effects,
        point_effects,
        rehydration_name,
        points,
        after_last,
        joins,
        caps,
        variants,
        has_settle_wait,
        settle_arms,
        skips,
        rehydration_arms,
        getters,
        step_arms: steps,
    };
    proof {
        let pos = split_scan(body, 0)->Ok_0;
        assert(split_into(body, pos, a0, l0) && joins_assigned(a0, l0, p.points@, p.after_last@));
        if all_skips(p.points@).len() == 0 {
            assert(p.rehydration_arms@.map_values(|x: RehydArm| x@) =~= Seq::<crate::plan::RehydArmView>::empty());
        }
    }
    Ok(p)
}

} // verus!

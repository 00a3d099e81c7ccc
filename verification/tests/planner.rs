use corot_rs::bindings::{is_skip_serde, simple_pat_idents, typed_let_binding, upsert_binding, Binding};
use corot_rs::error::{CorotError, ErrorKind, Site};
use corot_rs::expand::{expand_corot, Plan};
use corot_rs::inspect::{
    bare_await_base, check_simple_match_pat, infer_match_scrut_ty, int_lit_suffix_type,
    pattern_type_hint, range_types, split_first_await, suffix_int_type, unwrap_parens,
};
use corot_rs::split::{split_awaits, Base, SuspendKind};
use corot_rs::steps::{Code, Else, Operand};
use corot_rs::syntax::{
    contains_await, stmt_contains_await, Arm, Expr, FnModel, Hint, IntTy, Lit, NodeKind, Pat, Stmt,
    Ty,
};

struct Ids(usize);

impl Ids {
    fn next(&mut self) -> usize {
        self.0 += 1;
        self.0
    }
}

fn opaque(ids: &mut Ids) -> Expr {
    Expr::Opaque { id: ids.next() }
}

fn int_lit(ids: &mut Ids, suffix: &str) -> Expr {
    Expr::Lit { id: ids.next(), lit: Lit::Int { suffix: suffix.to_string() } }
}

fn awaited(ids: &mut Ids, base: Expr) -> Expr {
    Expr::Await { id: ids.next(), base: Box::new(base) }
}

fn node(ids: &mut Ids, kind: NodeKind, children: Vec<Expr>) -> Expr {
    Expr::Node { id: ids.next(), kind, children }
}

fn written(ids: &mut Ids, last: &str) -> Ty {
    Ty::Written { id: ids.next(), last_segment: Some(last.to_string()) }
}

fn ident_pat(ids: &mut Ids, name: &str, mutable: bool) -> Pat {
    Pat::Ident { id: ids.next(), name: name.to_string(), mutable, sub: None }
}

fn typed_let(ids: &mut Ids, name: &str, ty: &str, init: Expr) -> Stmt {
    let inner = ident_pat(ids, name, false);
    let ty = written(ids, ty);
    Stmt::Local {
        id: ids.next(),
        pat: Pat::Typed { id: ids.next(), pat: Box::new(inner), ty },
        init: Some(init),
        diverge: None,
    }
}

fn macro_stmt(ids: &mut Ids) -> Stmt {
    Stmt::Other { id: ids.next() }
}

fn expr_stmt(ids: &mut Ids, expr: Expr) -> Stmt {
    Stmt::Expr { id: ids.next(), expr }
}

fn async_fn(name: &str, body: Vec<Stmt>) -> FnModel {
    FnModel {
        is_async: true,
        has_receiver: false,
        name: name.to_string(),
        enum_name: None,
        effect_name: None,
        params: vec![],
        body,
    }
}

fn names_of(bs: &[Binding]) -> Vec<String> {
    bs.iter().map(|b| b.name.clone()).collect()
}

/// `async fn checkout()` of the serde example: two plain awaits, a skipped handle.
fn checkout(ids: &mut Ids) -> FnModel {
    let user_init = {
        let f = opaque(ids);
        let a = int_lit(ids, "");
        node(ids, NodeKind::Call, vec![f, a])
    };
    let user = typed_let(ids, "user", "UserId", user_init);
    let db_init = {
        let f = opaque(ids);
        let a = opaque(ids);
        node(ids, NodeKind::Call, vec![f, a])
    };
    let db = typed_let(ids, "db", "SkipSerde", db_init);
    let p1 = macro_stmt(ids);
    let rows_init = {
        let recv = opaque(ids);
        let arg = opaque(ids);
        let call = node(ids, NodeKind::MethodCall, vec![recv, arg]);
        awaited(ids, call)
    };
    let rows = typed_let(ids, "rows", "i32", rows_init);
    let p2 = macro_stmt(ids);
    let total_init = {
        let f = opaque(ids);
        let a = opaque(ids);
        let call = node(ids, NodeKind::Call, vec![f, a]);
        awaited(ids, call)
    };
    let total = typed_let(ids, "total", "f64", total_init);
    let p3 = macro_stmt(ids);
    async_fn("checkout", vec![user, db, p1, rows, p2, total, p3])
}

/// `async fn for_range()`: an awaited range and an await in the body.
fn for_range_fn(ids: &mut Ids) -> FnModel {
    let start = macro_stmt(ids);
    let range = {
        let lo = int_lit(ids, "");
        let hi = int_lit(ids, "");
        Expr::Range { id: ids.next(), start: Some(Box::new(lo)), end: Some(Box::new(hi)) }
    };
    let paren = Expr::Paren { id: ids.next(), inner: Box::new(range), group: false };
    let iterable = awaited(ids, paren);
    let pat = ident_pat(ids, "i", false);
    let b1 = macro_stmt(ids);
    let unit = node(ids, NodeKind::Tuple, vec![]);
    let n_init = awaited(ids, unit);
    let b2 = typed_let(ids, "n", "i32", n_init);
    let b3 = macro_stmt(ids);
    let for_expr = Expr::ForLoop { id: ids.next(), label: None, pat, iterable: Box::new(iterable), body: vec![b1, b2, b3] };
    let for_stmt = expr_stmt(ids, for_expr);
    let done = macro_stmt(ids);
    async_fn("for_range", vec![start, for_stmt, done])
}

fn plan_of(f: FnModel) -> Plan {
    match expand_corot(f) {
        Ok(p) => p,
        Err(e) => panic!("unexpected refusal {:?}", e),
    }
}

fn refusal(f: FnModel) -> CorotError {
    match expand_corot(f) {
        Ok(_) => panic!("expected a refusal"),
        Err(e) => e,
    }
}

#[test]
fn checkout_states_keep_live_locals() {
    let mut ids = Ids(0);
    let p = plan_of(checkout(&mut ids));
    assert_eq!(p.fn_name, "checkout");
    assert_eq!(p.enum_name, "CheckoutCoroutine");
    assert_eq!(p.rehydration_name, "CheckoutCoroutineRehydration");
    let names: Vec<String> = p.variants.iter().map(|v| v.name.clone()).collect();
    assert_eq!(names, vec!["NotStarted", "WaitingRows", "WaitingTotal", "Finished"]);
    assert_eq!(names_of(&p.variants[1].fields), vec!["user", "db"]);
    assert_eq!(names_of(&p.variants[2].fields), vec!["user", "db", "rows"]);
    assert!(p.variants[0].wait.is_none());
    assert!(p.variants[1].wait.is_some());
    assert_eq!(p.after_last.len(), 1);
}

#[test]
fn checkout_rehydration_and_getters() {
    let mut ids = Ids(0);
    let p = plan_of(checkout(&mut ids));
    assert_eq!(names_of(&p.skips), vec!["db"]);
    assert_eq!(p.rehydration_arms.len(), 2);
    assert_eq!(p.rehydration_arms[0].variant, "WaitingRows");
    assert_eq!(names_of(&p.rehydration_arms[0].checks), vec!["db"]);
    assert_eq!(p.rehydration_arms[1].variant, "WaitingTotal");
    let getters: Vec<(String, Vec<String>)> =
        p.getters.iter().map(|g| (g.getter.clone(), g.variants.clone())).collect();
    assert_eq!(
        getters,
        vec![
            ("get_user".to_string(), vec!["WaitingRows".to_string(), "WaitingTotal".to_string()]),
            ("get_db".to_string(), vec!["WaitingRows".to_string(), "WaitingTotal".to_string()]),
            ("get_rows".to_string(), vec!["WaitingTotal".to_string()]),
        ]
    );
}

#[test]
fn checkout_step_arms_follow_states() {
    let mut ids = Ids(0);
    let p = plan_of(checkout(&mut ids));
    assert_eq!(p.step_arms.len(), p.variants.len());
    for (arm, v) in p.step_arms.iter().zip(p.variants.iter()) {
        assert_eq!(arm.variant, v.name);
        assert_eq!(names_of(&arm.fields), names_of(&v.fields));
        assert_eq!(arm.binds_wait, v.wait.is_some());
    }
    // Waiting on `rows` checks the skipped handle before anything else.
    assert!(matches!(p.step_arms[1].body[0], Code::Guard { .. }));
    assert!(matches!(p.step_arms[1].body[1], Code::TakeWait(ref t) if t == "__await_rows"));
    // The last waiting state runs the trailing statement and finishes.
    let last = &p.step_arms[2].body;
    assert!(matches!(last[last.len() - 1], Code::Finish));
    let settles: Vec<String> = p.settle_arms.iter().map(|s| s.variant.clone()).collect();
    assert_eq!(settles, vec!["WaitingRows", "WaitingTotal"]);
}

#[test]
fn for_range_plan_matches_its_expansion() {
    let mut ids = Ids(0);
    let p = plan_of(for_range_fn(&mut ids));
    assert_eq!(p.enum_name, "ForRangeCoroutine");
    let names: Vec<String> = p.variants.iter().map(|v| v.name.clone()).collect();
    assert_eq!(
        names,
        vec!["NotStarted", "WaitingIter0", "WaitingN", "LoopHead0", "AfterLoop0", "Finished"]
    );
    assert_eq!(names_of(&p.variants[1].fields), Vec::<String>::new());
    assert_eq!(names_of(&p.variants[2].fields), vec!["__iter", "i"]);
    assert_eq!(names_of(&p.variants[3].fields), vec!["__iter"]);
    assert!(p.variants[3].fields[0].mutable);
    assert!(matches!(p.variants[1].wait, Some(Ty::RangeOf(IntTy::I32))));
    assert!(p.after_last.is_empty());
    let settles: Vec<(String, bool)> =
        p.settle_arms.iter().map(|s| (s.variant.clone(), s.by_clone)).collect();
    assert_eq!(settles, vec![("WaitingIter0".to_string(), true), ("WaitingN".to_string(), false)]);
    let getters: Vec<(String, Vec<String>)> =
        p.getters.iter().map(|g| (g.getter.clone(), g.variants.clone())).collect();
    assert_eq!(getters, vec![("get_i".to_string(), vec!["WaitingN".to_string()])]);
    assert!(p.skips.is_empty());
    assert!(p.rehydration_arms.is_empty());
    assert_eq!(p.step_arms.len(), 6);
    assert!(matches!(p.step_arms[3].body[0], Code::NextItem { .. }));
}

/// `for i in iter::<Vec<i32>>(<arg>) { let n: i32 = ().await; }`, the
/// vector type's node id, the iterable's id and the awaited base's id.
fn for_vec_fn(ids: &mut Ids, awaited_vec: bool) -> (FnModel, usize, usize, usize) {
    let vec_ty = written(ids, "Vec");
    let vec_ty_id = ids.0;
    let helper = Expr::IterHelper { id: ids.next(), ty: vec_ty };
    let unit = node(ids, NodeKind::Tuple, vec![]);
    let base_id = ids.0;
    let arg = if awaited_vec { awaited(ids, unit) } else { unit };
    let iterable = node(ids, NodeKind::Call, vec![helper, arg]);
    let iterable_id = ids.0;
    let pat = ident_pat(ids, "i", false);
    let unit = node(ids, NodeKind::Tuple, vec![]);
    let n_init = awaited(ids, unit);
    let n = typed_let(ids, "n", "i32", n_init);
    let print = macro_stmt(ids);
    let for_expr = Expr::ForLoop { id: ids.next(), label: None, pat, iterable: Box::new(iterable), body: vec![n, print] };
    let for_stmt = expr_stmt(ids, for_expr);
    (async_fn("for_vec", vec![for_stmt]), vec_ty_id, iterable_id, base_id)
}

#[test]
fn for_over_awaited_iter_helper_waits_on_the_iterable() {
    let mut ids = Ids(0);
    let (f, vec_ty_id, _, base_id) = for_vec_fn(&mut ids, true);
    let p = plan_of(f);
    let names: Vec<String> = p.variants.iter().map(|v| v.name.clone()).collect();
    assert_eq!(
        names,
        vec!["NotStarted", "WaitingIter0", "WaitingN", "LoopHead0", "AfterLoop0", "Finished"]
    );
    match &p.points[0].kind {
        SuspendKind::For { iter_await_base, iter_expr, .. } => {
            assert_eq!(*iter_await_base, Some(base_id));
            assert!(iter_expr.is_none());
        }
        _ => panic!("expected a for point"),
    }
    // The settled value is the vector; the loop goes through its iterator.
    assert!(matches!(p.variants[1].wait, Some(Ty::Written { id, .. }) if id == vec_ty_id));
    assert_eq!(names_of(&p.variants[2].fields), vec!["__iter", "i"]);
    match (&p.variants[2].fields[0].ty, &p.variants[2].fields[1].ty) {
        (Ty::IntoIter(t), Ty::Item(u)) => {
            assert!(matches!(**t, Ty::Written { id, .. } if id == vec_ty_id));
            assert!(matches!(**u, Ty::Written { id, .. } if id == vec_ty_id));
        }
        _ => panic!("unexpected field types"),
    }
    assert!(matches!(p.step_arms[1].body[..], [Code::StartIter, ..]));
}

#[test]
fn for_over_iter_helper_starts_its_iterator() {
    let mut ids = Ids(0);
    let (f, vec_ty_id, iterable_id, _) = for_vec_fn(&mut ids, false);
    let p = plan_of(f);
    let names: Vec<String> = p.variants.iter().map(|v| v.name.clone()).collect();
    assert_eq!(names, vec!["NotStarted", "WaitingN", "LoopHead0", "AfterLoop0", "Finished"]);
    match &p.step_arms[0].body[..] {
        [Code::IterFrom { ty: Ty::IntoIter(t), expr }, Code::Goto { target, .. }] => {
            assert!(matches!(**t, Ty::Written { id, .. } if id == vec_ty_id));
            assert_eq!(*expr, iterable_id);
            assert_eq!(target, "LoopHead0");
        }
        _ => panic!("expected the iterator to start"),
    }
}

#[test]
fn iter_helper_around_a_non_bare_await_is_refused() {
    let mut ids = Ids(0);
    let vec_ty = written(&mut ids, "Vec");
    let helper = Expr::IterHelper { id: ids.next(), ty: vec_ty };
    let base = opaque(&mut ids);
    let aw = awaited(&mut ids, base);
    let arg = node(&mut ids, NodeKind::MethodCall, vec![aw]);
    let arg_id = ids.0;
    let iterable = node(&mut ids, NodeKind::Call, vec![helper, arg]);
    let pat = ident_pat(&mut ids, "i", false);
    let for_expr = Expr::ForLoop { id: ids.next(), label: None, pat, iterable: Box::new(iterable), body: vec![] };
    let st = expr_stmt(&mut ids, for_expr);
    assert_eq!(
        refusal(async_fn("f", vec![st])),
        CorotError { kind: ErrorKind::IterableNotBare, site: Site::Expr(arg_id) }
    );
}

#[test]
fn refuses_sync_fn_and_self() {
    let mut ids = Ids(0);
    let mut f = checkout(&mut ids);
    f.is_async = false;
    assert_eq!(refusal(f).kind, ErrorKind::NotAsync);
    let mut g = checkout(&mut ids);
    g.has_receiver = true;
    assert_eq!(refusal(g), CorotError { kind: ErrorKind::HasInputs, site: Site::Inputs });
}

#[test]
fn attribute_names_override_the_enums() {
    let mut ids = Ids(0);
    let body = |ids: &mut Ids| {
        let base = opaque(ids);
        let init = awaited(ids, base);
        vec![typed_let(ids, "n", "i32", init), macro_stmt(ids)]
    };
    let mut f = async_fn("go_sanctuary_corot", body(&mut ids));
    f.enum_name = Some("GoSanctuary".to_string());
    f.effect_name = Some("GoSanctuaryEffect".to_string());
    let p = plan_of(f);
    assert_eq!(p.enum_name, "GoSanctuary");
    assert_eq!(p.effect_name, "GoSanctuaryEffect");
    assert_eq!(p.rehydration_name, "GoSanctuaryRehydration");

    let mut f = async_fn("leaf_corot", body(&mut ids));
    f.enum_name = Some("Leaf".to_string());
    let p = plan_of(f);
    assert_eq!(p.enum_name, "Leaf");
    assert_eq!(p.effect_name, "LeafEffect");

    let p = plan_of(async_fn("chat", body(&mut ids)));
    assert_eq!(p.enum_name, "ChatCoroutine");
    assert_eq!(p.effect_name, "ChatCoroutineEffect");
    assert_eq!(p.rehydration_name, "ChatCoroutineRehydration");
}

fn path(ids: &mut Ids, name: &str) -> Expr {
    Expr::Path { id: ids.next(), name: name.to_string(), single: true }
}

/// `let <bind>: i32 = <f>(<args>).await;`, with the ids of the arguments.
fn call_let(ids: &mut Ids, bind: &str, f: &str, args: Vec<Expr>) -> (Stmt, Vec<usize>) {
    let arg_ids: Vec<usize> = args
        .iter()
        .map(|a| match a {
            Expr::Lit { id, .. } | Expr::Path { id, .. } | Expr::Node { id, .. } => *id,
            _ => unreachable!(),
        })
        .collect();
    let callee = path(ids, f);
    let mut children = vec![callee];
    children.extend(args);
    let call = node(ids, NodeKind::Call, children);
    let init = awaited(ids, call);
    (typed_let(ids, bind, "i32", init), arg_ids)
}

#[test]
fn awaited_calls_are_reported_as_effects() {
    // async fn chat() { let reply: i32 = send_message(1).await; …; let n: i32 = fetch_user(7).await; …;
    //                   let again: i32 = send_message(2).await; }
    let mut ids = Ids(0);
    let one = int_lit(&mut ids, "");
    let (reply, reply_args) = call_let(&mut ids, "reply", "send_message", vec![one]);
    let m1 = macro_stmt(&mut ids);
    let seven = int_lit(&mut ids, "");
    let (n, _) = call_let(&mut ids, "n", "fetch_user", vec![seven]);
    let m2 = macro_stmt(&mut ids);
    let two = int_lit(&mut ids, "");
    let (again, _) = call_let(&mut ids, "again", "send_message", vec![two]);
    let p = plan_of(async_fn("chat", vec![reply, m1, n, m2, again]));
    assert_eq!(p.effect_name, "ChatCoroutineEffect");
    let variants: Vec<String> = p.effects.iter().map(|v| v.name.clone()).collect();
    assert_eq!(variants, vec!["CallSendMessage", "CallFetchUser"]);
    assert!(matches!(p.effects[0].fields[..], [Ty::Hinted(Hint::Int(IntTy::I32))]));
    match &p.point_effects[0] {
        Some(c) => {
            assert_eq!(c.variant, "CallSendMessage");
            assert_eq!(c.args, reply_args);
        }
        None => panic!("expected an effect"),
    }
    assert!(p.point_effects.iter().all(|e| e.is_some()));
    // Entering the first point evaluates the call's arguments and reports it.
    match &p.step_arms[0].body[..] {
        [Code::EvalEffect { point: 0 }, Code::Goto { target, suspend: true, effect: true, .. }] => {
            assert_eq!(target, "WaitingReply");
        }
        _ => panic!("expected the effect to be reported"),
    }
}

/// `let _: () = <base>.await;`
fn wild_let(ids: &mut Ids, base: Expr) -> Stmt {
    let wild = Pat::Wild { id: ids.next() };
    let unit = Ty::Written { id: ids.next(), last_segment: None };
    let init = awaited(ids, base);
    Stmt::Local {
        id: ids.next(),
        pat: Pat::Typed { id: ids.next(), pat: Box::new(wild), ty: unit },
        init: Some(init),
        diverge: None,
    }
}

#[test]
fn an_awaited_unit_let_is_a_point() {
    // async fn tick() { let _: () = ().await; }
    let mut ids = Ids(0);
    let unit = node(&mut ids, NodeKind::Tuple, vec![]);
    let st = wild_let(&mut ids, unit);
    let p = plan_of(async_fn("tick", vec![st]));
    let names: Vec<String> = p.variants.iter().map(|v| v.name.clone()).collect();
    assert_eq!(names, vec!["NotStarted", "WaitingLet0", "Finished"]);
    assert!(p.variants[1].wait.is_some());
    assert!(p.point_effects[0].is_none());
    assert!(!p.settle_arms[0].forward);
}

#[test]
fn an_awaited_child_coroutine_is_driven() {
    // async fn mid() { let _: () = corot_rs::call::<LeafCoroutine>(leaf()).await; }
    let mut ids = Ids(0);
    let leaf_ty = written(&mut ids, "LeafCoroutine");
    let helper = Expr::CallHelper { id: ids.next(), ty: leaf_ty };
    let callee = opaque(&mut ids);
    let leaf_call = node(&mut ids, NodeKind::Call, vec![callee]);
    let base = node(&mut ids, NodeKind::Call, vec![helper, leaf_call]);
    let base_id = ids.0;
    let st = wild_let(&mut ids, base);
    let p = plan_of(async_fn("mid", vec![st]));
    assert!(p.has_settle_wait);
    // The waiting state keeps the child and has no settle slot of its own.
    let waiting = &p.variants[1];
    assert_eq!(waiting.name, "WaitingLet0");
    assert!(waiting.wait.is_none());
    assert!(waiting.fields.iter().any(|b| b.name == "__child" && b.mutable));
    // A settled value is handed on to the child.
    assert_eq!(p.settle_arms.len(), 1);
    assert_eq!(p.settle_arms[0].variant, "WaitingLet0");
    assert!(p.settle_arms[0].forward);
    // The child's effects are passed up as a nested effect.
    let variants: Vec<String> = p.effects.iter().map(|v| v.name.clone()).collect();
    assert_eq!(variants, vec!["NestedLeafCoroutine"]);
    assert!(matches!(p.effects[0].fields[..], [Ty::EffectOf(_)]));
    // Entering the point starts the child and steps on into the waiting state.
    match &p.step_arms[0].body[..] {
        [Code::StartChild(Base::Expr(b)), Code::Goto { target, suspend: false, wait_none: false, effect: false, .. }] => {
            assert_eq!(*b, base_id);
            assert_eq!(target, "WaitingLet0");
        }
        _ => panic!("expected the child to be started"),
    }
    // The waiting state steps the child.
    let stepped = p.step_arms[1].body.iter().find_map(|c| match c {
        Code::StepChild { variant, nested, ready, .. } => Some((variant.clone(), nested.clone(), ready.len())),
        _ => None,
    });
    match stepped {
        Some((variant, nested, ready)) => {
            assert_eq!(variant, "WaitingLet0");
            assert_eq!(nested, "NestedLeafCoroutine");
            assert!(ready > 0);
        }
        None => panic!("expected the child to be stepped"),
    }
}

#[test]
fn effect_arguments_take_the_types_of_kept_locals() {
    // async fn with_local(user_id: i32) { let reply: i32 = send_message(user_id).await; }
    let mut ids = Ids(0);
    let uid_init = opaque(&mut ids);
    let param = typed_let(&mut ids, "user_id", "i32", uid_init);
    let uid_ty_id = ids.0 - 2;
    let uid = path(&mut ids, "user_id");
    let (reply, _) = call_let(&mut ids, "reply", "send_message", vec![uid]);
    let mut f = async_fn("with_local", vec![reply]);
    f.params = vec![param];
    let p = plan_of(f);
    assert!(matches!(p.effects[0].fields[..], [Ty::Written { id, .. }] if id == uid_ty_id));
    // An argument whose type cannot be told leaves the await a settle await.
    let mut ids = Ids(100);
    let unknown = opaque(&mut ids);
    let arg = node(&mut ids, NodeKind::MethodCall, vec![unknown]);
    let (x, _) = call_let(&mut ids, "x", "lookup", vec![arg]);
    let p = plan_of(async_fn("settles", vec![x]));
    assert!(p.effects.is_empty());
    assert!(p.point_effects[0].is_none());
    assert!(matches!(p.step_arms[0].body[..], [Code::EvalBase(_), Code::Goto { effect: false, .. }]));
}

#[test]
fn parameters_are_kept_from_the_start() {
    // async fn greet(name: String) { …; let n: i32 = ().await; … }
    let mut ids = Ids(0);
    let name_init = opaque(&mut ids);
    let param = typed_let(&mut ids, "name", "String", name_init);
    let param_id = stmt_id_of(&param);
    let before = macro_stmt(&mut ids);
    let unit = node(&mut ids, NodeKind::Tuple, vec![]);
    let n_init = awaited(&mut ids, unit);
    let n = typed_let(&mut ids, "n", "i32", n_init);
    let after = macro_stmt(&mut ids);
    let mut f = async_fn("greet", vec![before, n, after]);
    f.params = vec![param];
    let p = plan_of(f);
    assert_eq!(names_of(&p.params), vec!["name"]);
    let names: Vec<String> = p.variants.iter().map(|v| v.name.clone()).collect();
    assert_eq!(names, vec!["NotStarted", "WaitingN", "Finished"]);
    // The parameter is received first and kept while waiting.
    assert!(matches!(p.step_arms[0].body[0], Code::Source(id) if id == param_id));
    assert_eq!(names_of(&p.variants[1].fields), vec!["name"]);
    let getters: Vec<String> = p.getters.iter().map(|g| g.getter.clone()).collect();
    assert_eq!(getters, vec!["get_name"]);
}

#[test]
fn parameter_bound_by_a_pattern_is_refused() {
    let mut ids = Ids(0);
    let wild = Pat::Wild { id: ids.next() };
    let ty = written(&mut ids, "i32");
    let init = opaque(&mut ids);
    let param = Stmt::Local {
        id: ids.next(),
        pat: Pat::Typed { id: ids.next(), pat: Box::new(wild), ty },
        init: Some(init),
        diverge: None,
    };
    let param_id = stmt_id_of(&param);
    let mut f = async_fn("f", vec![]);
    f.params = vec![param];
    assert_eq!(refusal(f), CorotError { kind: ErrorKind::NotIdentPattern, site: Site::Stmt(param_id) });
}

#[test]
fn refuses_await_in_plain_expression_statement() {
    let mut ids = Ids(0);
    let base = opaque(&mut ids);
    let e = awaited(&mut ids, base);
    let st = expr_stmt(&mut ids, e);
    let id = match &st {
        Stmt::Expr { id, .. } => *id,
        _ => unreachable!(),
    };
    let err = refusal(async_fn("f", vec![st]));
    assert_eq!(err, CorotError { kind: ErrorKind::UnsupportedPlacement, site: Site::Stmt(id) });
}

#[test]
fn refuses_untyped_await_binding_and_awaiting_let_else() {
    let mut ids = Ids(0);
    let base = opaque(&mut ids);
    let init = awaited(&mut ids, base);
    let pat = ident_pat(&mut ids, "x", false);
    let st = Stmt::Local { id: ids.next(), pat, init: Some(init), diverge: None };
    assert_eq!(refusal(async_fn("f", vec![st])).kind, ErrorKind::UntypedAwaitBinding);
    let base = opaque(&mut ids);
    let init = awaited(&mut ids, base);
    let pat = ident_pat(&mut ids, "y", false);
    let st = Stmt::Local { id: ids.next(), pat, init: Some(init), diverge: Some(vec![]) };
    // Without `val::<T>(…)` the settled type is unknown.
    assert_eq!(refusal(async_fn("g", vec![st])).kind, ErrorKind::LetElseAwait);
}

/// `let Some(x) = corot_rs::val::<Option<i32>>(().await) else { p; return; };`
fn let_else_init(ids: &mut Ids) -> (Stmt, usize, usize, usize) {
    let opt_ty = written(ids, "Option");
    let opt_ty_id = ids.0;
    let helper = Expr::ValHelper { id: ids.next(), ty: opt_ty };
    let unit = node(ids, NodeKind::Tuple, vec![]);
    let base_id = ids.0;
    let aw = awaited(ids, unit);
    let init = node(ids, NodeKind::Call, vec![helper, aw]);
    let pat = Pat::Other { id: ids.next() };
    let p1 = macro_stmt(ids);
    let ret = node(ids, NodeKind::Return, vec![]);
    let ret_stmt = expr_stmt(ids, ret);
    let st = Stmt::Local { id: ids.next(), pat, init: Some(init), diverge: Some(vec![p1, ret_stmt]) };
    let st_id = ids.0;
    (st, opt_ty_id, base_id, st_id)
}

#[test]
fn let_else_on_an_awaited_value_waits_then_finishes_on_return() {
    let mut ids = Ids(0);
    let (st, opt_ty_id, base_id, st_id) = let_else_init(&mut ids);
    let after = macro_stmt(&mut ids);
    let p = plan_of(async_fn("let_else_init", vec![st, after]));
    let names: Vec<String> = p.variants.iter().map(|v| v.name.clone()).collect();
    assert_eq!(names, vec!["NotStarted", "WaitingLet0", "Finished"]);
    assert_eq!(p.points[0].base, Base::Expr(base_id));
    assert!(matches!(p.points[0].wait_ty, Ty::Written { id, .. } if id == opt_ty_id));
    match &p.step_arms[1].body[..] {
        [Code::TakeWait(t), Code::LetElse { stmt, path, tmp, else_code }, Code::Source(_), Code::Finish] => {
            assert_eq!(t, "__await_let0");
            assert_eq!(*stmt, st_id);
            assert_eq!(path, &vec![1]);
            assert_eq!(tmp, "__await_let0");
            // The `else` block's `return;` finishes the coroutine.
            assert!(matches!(else_code[..], [Code::Source(_), Code::Finish]));
        }
        _ => panic!("expected the resumed let-else"),
    }
}

#[test]
fn let_else_with_an_awaiting_else_block_is_refused() {
    let mut ids = Ids(0);
    let base = opaque(&mut ids);
    let inner = awaited(&mut ids, base);
    let n = typed_let(&mut ids, "n", "i32", inner);
    let init = opaque(&mut ids);
    let pat = Pat::Other { id: ids.next() };
    let st = Stmt::Local { id: ids.next(), pat, init: Some(init), diverge: Some(vec![n]) };
    let id = ids.0;
    assert_eq!(
        refusal(async_fn("let_else_diverge", vec![st])),
        CorotError { kind: ErrorKind::UnsupportedPlacement, site: Site::Stmt(id) }
    );
}

#[test]
fn let_else_without_await_is_a_plain_statement() {
    let mut ids = Ids(0);
    let init = opaque(&mut ids);
    let pat = ident_pat(&mut ids, "y", false);
    let st = Stmt::Local { id: ids.next(), pat, init: Some(init), diverge: Some(vec![]) };
    let p = plan_of(async_fn("g", vec![st]));
    assert!(p.points.is_empty());
    assert_eq!(p.after_last.len(), 1);
}

#[test]
fn if_let_on_an_awaited_value_waits_for_the_scrutinee() {
    // if let Some(x) = corot_rs::val::<Option<i32>>(().await) { p } else { q }
    let mut ids = Ids(0);
    let opt_ty = written(&mut ids, "Option");
    let opt_ty_id = ids.0;
    let helper = Expr::ValHelper { id: ids.next(), ty: opt_ty };
    let unit = node(&mut ids, NodeKind::Tuple, vec![]);
    let base_id = ids.0;
    let aw = awaited(&mut ids, unit);
    let call = node(&mut ids, NodeKind::Call, vec![helper, aw]);
    let cond = node(&mut ids, NodeKind::Let, vec![call]);
    let cond_id = ids.0;
    let p1 = macro_stmt(&mut ids);
    let q = Expr::Block { id: ids.next(), stmts: vec![] };
    let e = Expr::If { id: ids.next(), cond: Box::new(cond), then_branch: vec![p1], else_branch: Some(Box::new(q)) };
    let st = expr_stmt(&mut ids, e);
    let p = plan_of(async_fn("if_let_scrutinee", vec![st]));
    let names: Vec<String> = p.variants.iter().map(|v| v.name.clone()).collect();
    assert_eq!(names, vec!["NotStarted", "WaitingCond0", "Finished"]);
    assert_eq!(p.points[0].base, Base::Expr(base_id));
    assert!(matches!(p.points[0].wait_ty, Ty::Written { id, .. } if id == opt_ty_id));
    assert!(matches!(p.points[0].kind, SuspendKind::IfCondition { let_cond: Some(c), .. } if c == cond_id));
    // Resumed, the `if let` tests its condition with the settled value in the await's place.
    match &p.step_arms[1].body[..] {
        [Code::TakeWait(t), Code::If { cond: Operand::Settled { expr, path, tmp }, .. }, Code::Finish] => {
            assert_eq!(t, "__await_cond0");
            assert_eq!(*expr, cond_id);
            assert_eq!(path, &vec![0, 1]);
            assert_eq!(tmp, "__await_cond0");
        }
        _ => panic!("expected the settled if let"),
    }
}

#[test]
fn refuses_non_bare_if_condition() {
    let mut ids = Ids(0);
    let base = opaque(&mut ids);
    let aw = awaited(&mut ids, base);
    let one = int_lit(&mut ids, "");
    let cond = node(&mut ids, NodeKind::Binary, vec![aw, one]);
    let e = Expr::If { id: ids.next(), cond: Box::new(cond), then_branch: vec![], else_branch: None };
    let st = expr_stmt(&mut ids, e);
    assert_eq!(refusal(async_fn("g", vec![st])).kind, ErrorKind::IfConditionNotBare);
}

#[test]
fn labeled_loop_await_breaks_and_continues_by_label() {
    // 'outer: loop { let n: i32 = ().await; if c { break 'outer; } break 'other; continue 'outer; }
    let mut ids = Ids(0);
    let base = opaque(&mut ids);
    let init = awaited(&mut ids, base);
    let n = typed_let(&mut ids, "n", "i32", init);
    let brk = Expr::Break { id: ids.next(), label: Some("outer".to_string()), value: None };
    let brk_stmt = expr_stmt(&mut ids, brk);
    let c = opaque(&mut ids);
    let cond_if = Expr::If { id: ids.next(), cond: Box::new(c), then_branch: vec![brk_stmt], else_branch: None };
    let if_stmt = expr_stmt(&mut ids, cond_if);
    let other = Expr::Break { id: ids.next(), label: Some("other".to_string()), value: None };
    let other_stmt = expr_stmt(&mut ids, other);
    let other_id = ids.0;
    let cont = Expr::Continue { id: ids.next(), label: Some("outer".to_string()) };
    let cont_stmt = expr_stmt(&mut ids, cont);
    let l = Expr::Loop {
        id: ids.next(),
        label: Some("outer".to_string()),
        body: vec![n, if_stmt, other_stmt, cont_stmt],
    };
    let st = expr_stmt(&mut ids, l);
    let p = plan_of(async_fn("labeled_break", vec![st]));
    let names: Vec<String> = p.variants.iter().map(|v| v.name.clone()).collect();
    assert_eq!(names, vec!["NotStarted", "WaitingN", "LoopHead0", "AfterLoop0", "Finished"]);
    let body = &p.step_arms[1].body;
    // `break 'outer` leaves for the join state.
    assert!(body.iter().any(|c| matches!(c, Code::If { then_code, .. }
        if matches!(then_code[..], [Code::Goto { ref target, suspend: false, .. }] if target == "AfterLoop0"))));
    // `break 'other` is not this loop's and is kept as written.
    assert!(body.iter().any(|c| matches!(c, Code::Source(id) if *id == other_id)));
    // `continue 'outer` goes back to the loop head.
    assert!(body.iter().any(|c| matches!(c, Code::Goto { target, suspend: false, .. } if target == "LoopHead0")));
}

#[test]
fn break_before_the_await_leaves_the_loop() {
    // loop { if done { break; } let x: i32 = ().await; }
    let mut ids = Ids(0);
    let brk = Expr::Break { id: ids.next(), label: None, value: None };
    let brk_stmt = expr_stmt(&mut ids, brk);
    let done = opaque(&mut ids);
    let check = Expr::If { id: ids.next(), cond: Box::new(done), then_branch: vec![brk_stmt], else_branch: None };
    let check_stmt = expr_stmt(&mut ids, check);
    let base = opaque(&mut ids);
    let init = awaited(&mut ids, base);
    let x = typed_let(&mut ids, "x", "i32", init);
    let l = Expr::Loop { id: ids.next(), label: None, body: vec![check_stmt, x] };
    let st = expr_stmt(&mut ids, l);
    let p = plan_of(async_fn("poll_until_done", vec![st]));
    let names: Vec<String> = p.variants.iter().map(|v| v.name.clone()).collect();
    assert_eq!(names, vec!["NotStarted", "WaitingX", "LoopHead0", "AfterLoop0", "Finished"]);
    match &p.step_arms[2].body[..] {
        [Code::If { then_code, .. }, Code::EvalBase(_), Code::Goto { target, suspend: true, .. }] => {
            assert!(matches!(then_code[..], [Code::Goto { ref target, suspend: false, .. }] if target == "AfterLoop0"));
            assert_eq!(target, "WaitingX");
        }
        _ => panic!("expected the head to test, then suspend"),
    }
}

#[test]
fn labeled_loop_without_await_is_a_plain_statement() {
    let mut ids = Ids(0);
    let brk = Expr::Break { id: ids.next(), label: Some("outer".to_string()), value: None };
    let b = expr_stmt(&mut ids, brk);
    let l = Expr::Loop { id: ids.next(), label: Some("outer".to_string()), body: vec![b] };
    let st = expr_stmt(&mut ids, l);
    let p = plan_of(async_fn("f", vec![st]));
    assert!(p.points.is_empty());
}

#[test]
fn while_await_loops_through_its_head() {
    // let mut n: i32 = 0; while n < 3 { let x: i32 = ().await; n += 1; }
    let mut ids = Ids(0);
    let zero = int_lit(&mut ids, "");
    let n = typed_let(&mut ids, "n", "i32", zero);
    let cond = opaque(&mut ids);
    let cond_id = ids.0;
    let unit = node(&mut ids, NodeKind::Tuple, vec![]);
    let x_init = awaited(&mut ids, unit);
    let x = typed_let(&mut ids, "x", "i32", x_init);
    let inc = opaque(&mut ids);
    let inc_stmt = expr_stmt(&mut ids, inc);
    let w = Expr::While { id: ids.next(), label: None, cond: Box::new(cond), body: vec![x, inc_stmt] };
    let st = expr_stmt(&mut ids, w);
    let done = macro_stmt(&mut ids);
    let p = plan_of(async_fn("while_body_await", vec![n, st, done]));
    let names: Vec<String> = p.variants.iter().map(|v| v.name.clone()).collect();
    assert_eq!(names, vec!["NotStarted", "WaitingX", "LoopHead0", "AfterLoop0", "Finished"]);
    // The head tests the condition: true waits for `x`, false leaves the loop.
    match &p.step_arms[2].body[0] {
        Code::If { cond: corot_rs::steps::Operand::Expr(c), then_code, else_code } => {
            assert_eq!(*c, cond_id);
            assert_eq!(then_code.len(), 2);
            assert!(matches!(then_code[1], Code::Goto { ref target, suspend: true, .. } if target == "WaitingX"));
            match else_code {
                corot_rs::steps::Else::Block(b) => {
                    assert!(matches!(b[0], Code::Goto { ref target, suspend: false, .. } if target == "AfterLoop0"));
                }
                _ => panic!("expected the loop exit"),
            }
        }
        _ => panic!("expected the loop condition"),
    }
    // After the await the body goes back to the head.
    let wait = &p.step_arms[1].body;
    assert!(matches!(wait[wait.len() - 1], Code::Goto { ref target, .. } if target == "LoopHead0"));
    // The join state runs the statement after the loop and finishes.
    assert!(matches!(p.step_arms[3].body[..], [Code::Source(_), Code::Finish]));
}

#[test]
fn if_condition_await_becomes_bool_point() {
    let mut ids = Ids(0);
    let base = opaque(&mut ids);
    let base_id = match &base {
        Expr::Opaque { id } => *id,
        _ => unreachable!(),
    };
    let aw = awaited(&mut ids, base);
    let e = Expr::If { id: ids.next(), cond: Box::new(aw), then_branch: vec![], else_branch: None };
    let st = expr_stmt(&mut ids, e);
    let (points, after) = split_awaits(vec![st]).unwrap();
    assert_eq!(points.len(), 1);
    assert_eq!(points[0].name, "cond0");
    assert_eq!(points[0].tmp, "__await_cond0");
    assert!(matches!(points[0].wait_ty, Ty::Hinted(Hint::Bool)));
    assert_eq!(points[0].base, Base::Expr(base_id));
    assert!(matches!(points[0].kind, SuspendKind::IfCondition { .. }));
    assert!(after.is_empty());
}

/// `if a { p } else if b { q; let n: i32 = ().await; r } else { z }` then `tail`.
fn else_if_chain(ids: &mut Ids, await_in_final_else: bool) -> (FnModel, usize, usize) {
    let c1 = opaque(ids);
    let c1_id = ids.0;
    let p1 = macro_stmt(ids);
    let c2 = opaque(ids);
    let c2_id = ids.0;
    let q = macro_stmt(ids);
    let base = opaque(ids);
    let init = awaited(ids, base);
    let n = typed_let(ids, "n", "i32", init);
    let r = macro_stmt(ids);
    let z = macro_stmt(ids);
    let (second, last) = if await_in_final_else {
        (vec![q], vec![z, n, r])
    } else {
        (vec![q, n, r], vec![z])
    };
    let last = Expr::Block { id: ids.next(), stmts: last };
    let inner = Expr::If { id: ids.next(), cond: Box::new(c2), then_branch: second, else_branch: Some(Box::new(last)) };
    let e = Expr::If { id: ids.next(), cond: Box::new(c1), then_branch: vec![p1], else_branch: Some(Box::new(inner)) };
    let st = expr_stmt(ids, e);
    let tail = macro_stmt(ids);
    (async_fn("await_in_else_if", vec![st, tail]), c1_id, c2_id)
}

#[test]
fn await_in_else_if_arm_suspends_there() {
    let mut ids = Ids(0);
    let (f, c1_id, c2_id) = else_if_chain(&mut ids, false);
    let p = plan_of(f);
    let names: Vec<String> = p.variants.iter().map(|v| v.name.clone()).collect();
    assert_eq!(names, vec!["NotStarted", "WaitingN", "AfterIf0", "Finished"]);
    match &p.points[0].kind {
        SuspendKind::IfThen { prior, cond, before_await, after_await, join_stmts, .. } => {
            assert_eq!(prior.len(), 1);
            assert!(matches!(prior[0].cond, Expr::Opaque { id } if id == c1_id));
            assert_eq!(prior[0].body.len(), 1);
            assert!(matches!(**cond, Expr::Opaque { id } if id == c2_id));
            assert_eq!(before_await.len(), 1);
            assert_eq!(after_await.len(), 1);
            assert_eq!(join_stmts.len(), 1);
        }
        _ => panic!("expected an IfThen point"),
    }
    // Entering: `if a { p; -> AfterIf0 } else { if b { q; -> WaitingN } else { z; -> AfterIf0 } }`.
    match &p.step_arms[0].body[..] {
        [Code::If { then_code, else_code: Else::Block(rest), .. }] => {
            assert!(matches!(then_code[..], [Code::Source(_), Code::Goto { ref target, suspend: false, .. }] if target == "AfterIf0"));
            match &rest[..] {
                [Code::If { then_code, else_code: Else::Block(z), .. }] => {
                    assert!(matches!(then_code[..], [Code::Source(_), Code::EvalBase(_), Code::Goto { ref target, suspend: true, .. }] if target == "WaitingN"));
                    assert!(matches!(z[..], [Code::Source(_), Code::Goto { ref target, suspend: false, .. }] if target == "AfterIf0"));
                }
                _ => panic!("expected the else-if arm"),
            }
        }
        _ => panic!("expected the chain"),
    }
}

#[test]
fn await_in_final_else_of_a_chain_suspends_there() {
    let mut ids = Ids(0);
    let (f, c1_id, c2_id) = else_if_chain(&mut ids, true);
    let p = plan_of(f);
    match &p.points[0].kind {
        SuspendKind::IfElse { prior, cond, then_branch, before_await, after_await, .. } => {
            assert_eq!(prior.len(), 1);
            assert!(matches!(prior[0].cond, Expr::Opaque { id } if id == c1_id));
            assert!(matches!(**cond, Expr::Opaque { id } if id == c2_id));
            assert_eq!(then_branch.len(), 1);
            assert_eq!(before_await.len(), 1);
            assert_eq!(after_await.len(), 1);
        }
        _ => panic!("expected an IfElse point"),
    }
    match &p.step_arms[0].body[..] {
        [Code::If { else_code: Else::Block(rest), .. }] => match &rest[..] {
            [Code::If { then_code, else_code: Else::Block(z), .. }] => {
                assert!(matches!(then_code[..], [Code::Source(_), Code::Goto { ref target, .. }] if target == "AfterIf0"));
                assert!(matches!(z[..], [Code::Source(_), Code::EvalBase(_), Code::Goto { ref target, suspend: true, .. }] if target == "WaitingN"));
            }
            _ => panic!("expected the else-if arm"),
        },
        _ => panic!("expected the chain"),
    }
}

#[test]
fn if_then_await_gets_join_state() {
    let mut ids = Ids(0);
    let cond = opaque(&mut ids);
    let pre = macro_stmt(&mut ids);
    let base = opaque(&mut ids);
    let init = awaited(&mut ids, base);
    let x = typed_let(&mut ids, "x", "u8", init);
    let post = macro_stmt(&mut ids);
    let e = Expr::If { id: ids.next(), cond: Box::new(cond), then_branch: vec![pre, x, post], else_branch: None };
    let st = expr_stmt(&mut ids, e);
    let tail = macro_stmt(&mut ids);
    let p = plan_of(async_fn("f", vec![st, tail]));
    let names: Vec<String> = p.variants.iter().map(|v| v.name.clone()).collect();
    assert_eq!(names, vec!["NotStarted", "WaitingX", "AfterIf0", "Finished"]);
    match &p.points[0].kind {
        SuspendKind::IfThen { before_await, after_await, join_stmts, .. } => {
            assert_eq!(before_await.len(), 1);
            assert_eq!(after_await.len(), 1);
            assert_eq!(join_stmts.len(), 1);
        }
        _ => panic!("expected an await in the then branch"),
    }
    assert!(p.after_last.is_empty());
}

#[test]
fn match_scrutinee_type_from_literals() {
    let mut ids = Ids(0);
    let base = opaque(&mut ids);
    let scrut = awaited(&mut ids, base);
    let p1 = Pat::Lit { id: ids.next(), lit: Lit::Int { suffix: "u64".to_string() } };
    let b1 = opaque(&mut ids);
    let p2 = Pat::Wild { id: ids.next() };
    let b2 = opaque(&mut ids);
    let arms = vec![
        Arm { id: ids.next(), pat: p1, guard: None, body: b1 },
        Arm { id: ids.next(), pat: p2, guard: None, body: b2 },
    ];
    let m = Expr::Match { id: ids.next(), scrutinee: Box::new(scrut), arms };
    let st = expr_stmt(&mut ids, m);
    let (points, _) = split_awaits(vec![st]).unwrap();
    assert_eq!(points[0].name, "scrut0");
    assert!(matches!(points[0].wait_ty, Ty::Hinted(Hint::Int(IntTy::U64))));
}

#[test]
fn match_without_literal_cannot_be_typed() {
    let mut ids = Ids(0);
    let base = opaque(&mut ids);
    let scrut = awaited(&mut ids, base);
    let p = Pat::Wild { id: ids.next() };
    let b = opaque(&mut ids);
    let arms = vec![Arm { id: ids.next(), pat: p, guard: None, body: b }];
    let m = Expr::Match { id: ids.next(), scrutinee: Box::new(scrut), arms };
    let st = expr_stmt(&mut ids, m);
    assert_eq!(
        refusal(async_fn("f", vec![st])),
        CorotError { kind: ErrorKind::CannotInferScrutinee, site: Site::CallSite }
    );
}

#[test]
fn match_guard_await_stores_scrutinee() {
    let mut ids = Ids(0);
    let scrut = opaque(&mut ids);
    let p1 = Pat::Lit { id: ids.next(), lit: Lit::Int { suffix: String::new() } };
    let b1 = opaque(&mut ids);
    let gbase = opaque(&mut ids);
    let guard = awaited(&mut ids, gbase);
    let p2 = ident_pat(&mut ids, "n", false);
    let b2 = opaque(&mut ids);
    let p3 = Pat::Wild { id: ids.next() };
    let b3 = opaque(&mut ids);
    let arms = vec![
        Arm { id: ids.next(), pat: p1, guard: None, body: b1 },
        Arm { id: ids.next(), pat: p2, guard: Some(guard), body: b2 },
        Arm { id: ids.next(), pat: p3, guard: None, body: b3 },
    ];
    let m = Expr::Match { id: ids.next(), scrutinee: Box::new(scrut), arms };
    let st = expr_stmt(&mut ids, m);
    let p = plan_of(async_fn("f", vec![st]));
    let names: Vec<String> = p.variants.iter().map(|v| v.name.clone()).collect();
    assert_eq!(names, vec!["NotStarted", "WaitingGuard0", "AfterMatch0", "Finished"]);
    assert_eq!(names_of(&p.variants[1].fields), vec!["__scrut"]);
    assert!(p.getters.is_empty());
}

#[test]
fn loop_await_has_head_and_join() {
    let mut ids = Ids(0);
    let base = opaque(&mut ids);
    let init = awaited(&mut ids, base);
    let v = typed_let(&mut ids, "v", "i32", init);
    let brk = Expr::Break { id: ids.next(), label: None, value: None };
    let brk_stmt = expr_stmt(&mut ids, brk);
    let l = Expr::Loop { id: ids.next(), label: None, body: vec![v, brk_stmt] };
    let st = expr_stmt(&mut ids, l);
    let p = plan_of(async_fn("spin", vec![st]));
    let names: Vec<String> = p.variants.iter().map(|v| v.name.clone()).collect();
    assert_eq!(names, vec!["NotStarted", "WaitingV", "LoopHead0", "AfterLoop0", "Finished"]);
    // After resuming, the `break` leaves for the join state.
    let body = &p.step_arms[1].body;
    assert!(body.iter().any(|c| matches!(c, Code::Goto { target, .. } if target == "AfterLoop0")));
}

#[test]
fn split_first_await_paths() {
    let mut ids = Ids(0);
    let f = opaque(&mut ids);
    let a = opaque(&mut ids);
    let inner = opaque(&mut ids);
    let inner_id = match &inner {
        Expr::Opaque { id } => *id,
        _ => unreachable!(),
    };
    let b = awaited(&mut ids, inner);
    let call = node(&mut ids, NodeKind::Call, vec![f, a, b]);
    let (path, base) = split_first_await(&call).unwrap();
    assert_eq!(path, vec![2]);
    assert!(matches!(base, Expr::Opaque { id } if *id == inner_id));
    let paren = Expr::Paren { id: ids.next(), inner: Box::new(call), group: true };
    let one = int_lit(&mut ids, "");
    let bin = node(&mut ids, NodeKind::Binary, vec![paren, one]);
    assert_eq!(split_first_await(&bin).unwrap().0, vec![0, 0, 2]);
}

#[test]
fn split_first_await_refuses_struct_literal() {
    let mut ids = Ids(0);
    let base = opaque(&mut ids);
    let aw = awaited(&mut ids, base);
    let st = node(&mut ids, NodeKind::Struct, vec![aw]);
    let id = match &st {
        Expr::Node { id, .. } => *id,
        _ => unreachable!(),
    };
    assert_eq!(
        split_first_await(&st).err(),
        Some(CorotError { kind: ErrorKind::CannotSplit, site: Site::Expr(id) })
    );
}

#[test]
fn await_detection() {
    let mut ids = Ids(0);
    let base = opaque(&mut ids);
    let aw = awaited(&mut ids, base);
    let blk = Expr::Block { id: ids.next(), stmts: vec![] };
    assert!(!contains_await(&blk));
    let st = expr_stmt(&mut ids, aw);
    let blk2 = Expr::Block { id: ids.next(), stmts: vec![st] };
    assert!(contains_await(&blk2));
    let closure = opaque(&mut ids);
    assert!(!contains_await(&closure));
    let s = Stmt::Local { id: ids.next(), pat: Pat::Wild { id: ids.next() }, init: None, diverge: None };
    assert!(!stmt_contains_await(&s));
}

#[test]
fn bare_base_and_parens() {
    let mut ids = Ids(0);
    let base = opaque(&mut ids);
    let aw = awaited(&mut ids, base);
    let p = Expr::Paren { id: ids.next(), inner: Box::new(aw), group: false };
    assert!(matches!(bare_await_base(&p), Some(Expr::Opaque { .. })));
    let q = Expr::Paren { id: ids.next(), inner: Box::new(p), group: true };
    assert!(matches!(unwrap_parens(&q), Expr::Await { .. }));
    let lit = int_lit(&mut ids, "");
    assert!(bare_await_base(&lit).is_none());
}

#[test]
fn literal_suffix_types() {
    assert_eq!(suffix_int_type(""), Some(IntTy::I32));
    assert_eq!(suffix_int_type("usize"), Some(IntTy::Usize));
    assert_eq!(suffix_int_type("u8"), None);
    assert_eq!(int_lit_suffix_type("u8"), IntTy::I32);
    assert_eq!(int_lit_suffix_type("i64"), IntTy::I64);
}

#[test]
fn range_item_types() {
    let mut ids = Ids(0);
    let lo = int_lit(&mut ids, "");
    let hi = int_lit(&mut ids, "u64");
    let r = Expr::Range { id: ids.next(), start: Some(Box::new(lo)), end: Some(Box::new(hi)) };
    assert_eq!(range_types(&r), Ok(IntTy::I32));
    let lo = int_lit(&mut ids, "u8");
    let hi = int_lit(&mut ids, "u64");
    let r = Expr::Range { id: ids.next(), start: Some(Box::new(lo)), end: Some(Box::new(hi)) };
    assert_eq!(range_types(&r), Ok(IntTy::U64));
    let r = Expr::Range { id: ids.next(), start: None, end: None };
    assert_eq!(range_types(&r), Ok(IntTy::I32));
    let lo = int_lit(&mut ids, "isize");
    let r = Expr::Range { id: ids.next(), start: Some(Box::new(lo)), end: None };
    assert_eq!(range_types(&r), Ok(IntTy::Isize));
    let v = opaque(&mut ids);
    let vid = match &v {
        Expr::Opaque { id } => *id,
        _ => unreachable!(),
    };
    assert_eq!(range_types(&v), Err(CorotError { kind: ErrorKind::ForNotRange, site: Site::Expr(vid) }));
}

#[test]
fn pattern_hints_and_simplicity() {
    let mut ids = Ids(0);
    let b = Pat::Lit { id: ids.next(), lit: Lit::Bool };
    assert_eq!(pattern_type_hint(&b), Ok(Some(Hint::Bool)));
    let w = Pat::Wild { id: ids.next() };
    let c = Pat::Lit { id: ids.next(), lit: Lit::Char };
    let or = Pat::Or { id: ids.next(), cases: vec![w, c] };
    assert_eq!(pattern_type_hint(&or), Ok(Some(Hint::Char)));
    let s = Pat::Lit { id: ids.next(), lit: Lit::Other };
    assert_eq!(pattern_type_hint(&s).unwrap_err().kind, ErrorKind::UnsupportedLiteralPattern);
    let o = Pat::Other { id: ids.next() };
    assert_eq!(check_simple_match_pat(&o).unwrap_err().kind, ErrorKind::PatternNotSimple);
    let q = Pat::Path { id: ids.next(), qualified: true };
    assert!(check_simple_match_pat(&q).is_err());
    let p = Pat::Path { id: ids.next(), qualified: false };
    assert!(check_simple_match_pat(&p).is_ok());
}

#[test]
fn conflicting_literal_hints() {
    let mut ids = Ids(0);
    let p1 = Pat::Lit { id: ids.next(), lit: Lit::Bool };
    let b1 = opaque(&mut ids);
    let p2 = Pat::Lit { id: ids.next(), lit: Lit::Int { suffix: String::new() } };
    let p2_id = match &p2 {
        Pat::Lit { id, .. } => *id,
        _ => unreachable!(),
    };
    let b2 = opaque(&mut ids);
    let arms = vec![
        Arm { id: ids.next(), pat: p1, guard: None, body: b1 },
        Arm { id: ids.next(), pat: p2, guard: None, body: b2 },
    ];
    assert_eq!(
        infer_match_scrut_ty(&arms),
        Err(CorotError { kind: ErrorKind::ConflictingHints, site: Site::Pat(p2_id) })
    );
}

#[test]
fn or_pattern_names_without_repeats() {
    let mut ids = Ids(0);
    let a = ident_pat(&mut ids, "a", false);
    let b = ident_pat(&mut ids, "b", false);
    let a2 = ident_pat(&mut ids, "a", false);
    let or = Pat::Or { id: ids.next(), cases: vec![a, b, a2] };
    assert_eq!(simple_pat_idents(&or), vec!["a".to_string(), "b".to_string()]);
}

#[test]
fn bindings_merge_by_name() {
    let mut ids = Ids(0);
    let mut live = Vec::new();
    let t1 = written(&mut ids, "i32");
    upsert_binding(&mut live, Binding { name: "x".to_string(), ty: t1, mutable: false });
    let t2 = written(&mut ids, "u8");
    upsert_binding(&mut live, Binding { name: "y".to_string(), ty: t2, mutable: false });
    let t3 = written(&mut ids, "i64");
    upsert_binding(&mut live, Binding { name: "x".to_string(), ty: t3, mutable: true });
    assert_eq!(names_of(&live), vec!["x", "y"]);
    assert!(live[0].mutable);
    assert!(matches!(&live[0].ty, Ty::Written { last_segment: Some(s), .. } if s == "i64"));
}

#[test]
fn skip_serde_types_and_typed_lets() {
    let mut ids = Ids(0);
    let s = written(&mut ids, "SkipSerde");
    assert!(is_skip_serde(&s));
    let t = written(&mut ids, "SkipSerdeX");
    assert!(!is_skip_serde(&t));
    assert!(!is_skip_serde(&Ty::RangeOf(IntTy::I32)));
    let init = opaque(&mut ids);
    let st = typed_let(&mut ids, "conn", "SkipSerde", init);
    let b = typed_let_binding(&st).unwrap();
    assert_eq!(b.name, "conn");
    assert!(is_skip_serde(&b.ty));
    let m = macro_stmt(&mut ids);
    assert!(typed_let_binding(&m).is_none());
}

fn stmt_id_of(s: &Stmt) -> usize {
    match s {
        Stmt::Local { id, .. } | Stmt::Expr { id, .. } | Stmt::Other { id } => *id,
    }
}

fn goto_of(c: &Code) -> (String, Vec<String>, bool, bool) {
    match c {
        Code::Goto { target, moves, wait_none, suspend, .. } => {
            let mut m = moves.clone();
            m.sort();
            (target.clone(), m, *wait_none, *suspend)
        }
        _ => panic!("expected a state change"),
    }
}

#[test]
fn for_range_step_code_matches_its_expansion() {
    let mut ids = Ids(0);
    let f = for_range_fn(&mut ids);
    let start_id = stmt_id_of(&f.body[0]);
    let done_id = stmt_id_of(&f.body[2]);
    let (range_id, b1_id, b2_id, b3_id) = match &f.body[1] {
        Stmt::Expr { expr: Expr::ForLoop { iterable, body, .. }, .. } => {
            let range_id = match &**iterable {
                Expr::Await { base, .. } => match &**base {
                    Expr::Paren { inner, .. } => match &**inner {
                        Expr::Range { id, .. } => *id,
                        _ => unreachable!(),
                    },
                    _ => unreachable!(),
                },
                _ => unreachable!(),
            };
            (range_id, stmt_id_of(&body[0]), stmt_id_of(&body[1]), stmt_id_of(&body[2]))
        }
        _ => unreachable!(),
    };
    let p = plan_of(f);
    // NotStarted: `println!("start"); let _ = 0..3;` then wait for the range.
    let s = &p.step_arms[0].body;
    assert_eq!(s.len(), 3);
    assert!(matches!(s[0], Code::Source(id) if id == start_id));
    assert!(matches!(s[1], Code::EvalBase(Base::Expr(id)) if id == range_id));
    assert_eq!(goto_of(&s[2]), ("WaitingIter0".to_string(), vec![], true, true));
    // WaitingIter0: the settled range becomes the iterator.
    let s = &p.step_arms[1].body;
    assert!(matches!(s[0], Code::StartIter));
    assert_eq!(goto_of(&s[1]), ("LoopHead0".to_string(), vec!["__iter".to_string()], false, false));
    // WaitingN: take `n`, resume its `let`, print, back to the head.
    let s = &p.step_arms[2].body;
    assert_eq!(s.len(), 4);
    assert!(matches!(s[0], Code::TakeWait(ref t) if t == "__await_n"));
    match &s[1] {
        Code::Resume { stmt, path, tmp } => {
            assert_eq!(*stmt, b2_id);
            assert!(path.is_empty());
            assert_eq!(tmp, "__await_n");
        }
        _ => panic!("expected the resumed let"),
    }
    assert!(matches!(s[2], Code::Source(id) if id == b3_id));
    assert_eq!(goto_of(&s[3]), ("LoopHead0".to_string(), vec!["__iter".to_string()], false, false));
    // LoopHead0: next item, print, wait for `n`; at the end, leave the loop.
    match &p.step_arms[3].body[0] {
        Code::NextItem { item, some, none } => {
            assert_eq!(item, "i");
            assert_eq!(some.len(), 3);
            assert!(matches!(some[0], Code::Source(id) if id == b1_id));
            assert!(matches!(some[1], Code::EvalBase(Base::Expr(_))));
            assert_eq!(
                goto_of(&some[2]),
                ("WaitingN".to_string(), vec!["__iter".to_string(), "i".to_string()], true, true)
            );
            assert_eq!(none.len(), 1);
            assert_eq!(goto_of(&none[0]), ("AfterLoop0".to_string(), vec![], false, false));
        }
        _ => panic!("expected the loop head"),
    }
    // AfterLoop0: `println!("done");` and finish; Finished just finishes.
    let s = &p.step_arms[4].body;
    assert_eq!(s.len(), 2);
    assert!(matches!(s[0], Code::Source(id) if id == done_id));
    assert!(matches!(s[1], Code::Finish));
    assert!(matches!(p.step_arms[5].body[..], [Code::Finish]));
}

#[test]
fn plan_keeps_every_statement_in_order() {
    let mut ids = Ids(0);
    let f = checkout(&mut ids);
    let body_ids: Vec<usize> = f.body.iter().map(stmt_id_of).collect();
    let p = plan_of(f);
    // checkout's points are its statements 3 and 5; nothing joins.
    let mut laid_out: Vec<usize> = Vec::new();
    for (pt, pos) in p.points.iter().zip([3usize, 5]) {
        laid_out.extend(pt.before.iter().map(stmt_id_of));
        laid_out.push(body_ids[pos]);
    }
    laid_out.extend(p.after_last.iter().map(stmt_id_of));
    assert_eq!(laid_out, body_ids);
}

#[test]
fn resuming_checks_what_rehydrate_checks() {
    let mut ids = Ids(0);
    let p = plan_of(checkout(&mut ids));
    for (w, r) in [(1usize, 0usize), (2, 1)] {
        assert_eq!(p.step_arms[w].variant, p.rehydration_arms[r].variant);
        match &p.step_arms[w].body[0] {
            Code::Guard { variant, skips, .. } => {
                assert_eq!(*variant, p.rehydration_arms[r].variant);
                assert_eq!(*skips, names_of(&p.rehydration_arms[r].checks));
            }
            _ => panic!("expected the rehydration check"),
        }
    }
}

#[test]
fn points_resume_the_await_they_suspended_on() {
    let mut ids = Ids(0);
    let f = checkout(&mut ids);
    let (rows_base, rows_stmt) = match &f.body[3] {
        Stmt::Local { id, init: Some(Expr::Await { base, .. }), .. } => match &**base {
            Expr::Node { id: b, .. } => (*b, *id),
            _ => unreachable!(),
        },
        _ => unreachable!(),
    };
    let p = plan_of(f);
    assert_eq!(p.points[0].base, Base::Expr(rows_base));
    // Entering evaluates that base; resuming replaces the await at the root of the `let`.
    let enter = &p.step_arms[0].body;
    assert!(enter.iter().any(|c| matches!(c, Code::EvalBase(Base::Expr(b)) if *b == rows_base)));
    match &p.step_arms[1].body[2] {
        Code::Resume { stmt, path, tmp } => {
            assert_eq!(*stmt, rows_stmt);
            assert!(path.is_empty());
            assert_eq!(tmp, "__await_rows");
        }
        _ => panic!("expected the resumed let"),
    }
}

fn each_goto(codes: &[Code], out: &mut Vec<(bool, bool)>) {
    for c in codes {
        match c {
            Code::Goto { wait_none, suspend, .. } => out.push((*wait_none, *suspend)),
            Code::If { then_code, else_code, .. } => {
                each_goto(then_code, out);
                if let corot_rs::steps::Else::Block(b) = else_code {
                    each_goto(b, out);
                }
            }
            Code::Match { arms, .. } => {
                for a in arms {
                    if let corot_rs::steps::ArmBody::Code(b) = &a.body {
                        each_goto(b, out);
                    }
                }
            }
            Code::NextItem { some, none, .. } => {
                each_goto(some, out);
                each_goto(none, out);
            }
            _ => {}
        }
    }
}

#[test]
fn step_suspends_exactly_when_entering_a_waiting_state() {
    let mut ids = Ids(0);
    let p = plan_of(for_range_fn(&mut ids));
    let mut gotos = Vec::new();
    for arm in &p.step_arms {
        each_goto(&arm.body, &mut gotos);
    }
    assert!(!gotos.is_empty());
    assert!(gotos.iter().all(|(w, s)| w == s));
    assert!(gotos.iter().any(|(w, _)| *w));
    assert!(gotos.iter().any(|(w, _)| !*w));
}

#[test]
fn split_without_an_await_reports_where_it_stops() {
    let mut ids = Ids(0);
    let a = int_lit(&mut ids, "");
    let b = int_lit(&mut ids, "");
    let b_id = ids.0;
    let bin = node(&mut ids, NodeKind::Binary, vec![a, b]);
    // A binary node goes right when its left operand does not await.
    assert_eq!(
        split_first_await(&bin).err(),
        Some(CorotError { kind: ErrorKind::CannotSplit, site: Site::Expr(b_id) })
    );
    let f = opaque(&mut ids);
    let x = opaque(&mut ids);
    let call = node(&mut ids, NodeKind::Call, vec![f, x]);
    assert_eq!(
        split_first_await(&call).err(),
        Some(CorotError { kind: ErrorKind::AwaitNotInList, site: Site::CallSite })
    );
    let inner = opaque(&mut ids);
    let inner_id = ids.0;
    let neg = node(&mut ids, NodeKind::Unary, vec![inner]);
    assert_eq!(
        split_first_await(&neg).err(),
        Some(CorotError { kind: ErrorKind::CannotSplit, site: Site::Expr(inner_id) })
    );
}

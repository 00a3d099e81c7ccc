use corot_rs::error::{CorotError, ErrorKind, Site};
use corot_rs::expand::expand_corot;
use corot_rs::syntax::{Arm, Expr, FnModel, Lit, NodeKind, Pat, Stmt, Ty};

struct Ids(usize);

impl Ids {
    fn next(&mut self) -> usize {
        self.0 += 1;
        self.0
    }
}

fn opaque(ids: &mut Ids) -> Expr {
    Expr::Opaque { id: ids.next() }
}

fn awaited(ids: &mut Ids) -> Expr {
    let base = opaque(ids);
    Expr::Await { id: ids.next(), base: Box::new(base) }
}

fn typed_let(ids: &mut Ids, name: &str, init: Expr) -> Stmt {
    let inner = Pat::Ident { id: ids.next(), name: name.to_string(), mutable: false, sub: None };
    let ty = Ty::Written { id: ids.next(), last_segment: Some("i32".to_string()) };
    Stmt::Local {
        id: ids.next(),
        pat: Pat::Typed { id: ids.next(), pat: Box::new(inner), ty },
        init: Some(init),
        diverge: None,
    }
}

fn expr_stmt(ids: &mut Ids, expr: Expr) -> Stmt {
    Stmt::Expr { id: ids.next(), expr }
}

fn int_pat(ids: &mut Ids) -> Pat {
    Pat::Lit { id: ids.next(), lit: Lit::Int { suffix: String::new() } }
}

fn arm(ids: &mut Ids, pat: Pat, guard: Option<Expr>, body: Expr) -> Arm {
    Arm { id: ids.next(), pat, guard, body }
}

fn arm_id(a: &Arm) -> usize {
    a.id
}

fn refusal(body: Vec<Stmt>) -> CorotError {
    let f = FnModel {
        is_async: true,
        has_receiver: false,
        name: "f".to_string(),
        enum_name: None,
        effect_name: None,
        params: vec![],
        body,
    };
    match expand_corot(f) {
        Ok(_) => panic!("expected a refusal"),
        Err(e) => e,
    }
}

fn stmt_id(s: &Stmt) -> usize {
    match s {
        Stmt::Local { id, .. } | Stmt::Expr { id, .. } | Stmt::Other { id } => *id,
    }
}

#[test]
fn if_with_awaits_in_two_parts() {
    let mut ids = Ids(0);
    let cond = awaited(&mut ids);
    let init = awaited(&mut ids);
    let x = typed_let(&mut ids, "x", init);
    let e = Expr::If { id: ids.next(), cond: Box::new(cond), then_branch: vec![x], else_branch: None };
    let st = expr_stmt(&mut ids, e);
    let id = stmt_id(&st);
    assert_eq!(refusal(vec![st]), CorotError { kind: ErrorKind::IfManyAwaits, site: Site::Stmt(id) });
}

#[test]
fn await_in_else_if_condition() {
    let mut ids = Ids(0);
    let inner_cond = awaited(&mut ids);
    let cond_id = ids.0;
    let inner = Expr::If { id: ids.next(), cond: Box::new(inner_cond), then_branch: vec![], else_branch: None };
    let cond = opaque(&mut ids);
    let e = Expr::If { id: ids.next(), cond: Box::new(cond), then_branch: vec![], else_branch: Some(Box::new(inner)) };
    let st = expr_stmt(&mut ids, e);
    assert_eq!(refusal(vec![st]), CorotError { kind: ErrorKind::ElseIfAwait, site: Site::Expr(cond_id) });
}

#[test]
fn awaits_in_two_arms_of_an_else_if_chain() {
    let mut ids = Ids(0);
    let i1 = awaited(&mut ids);
    let a = typed_let(&mut ids, "a", i1);
    let i2 = awaited(&mut ids);
    let b = typed_let(&mut ids, "b", i2);
    let c2 = opaque(&mut ids);
    let last = Expr::Block { id: ids.next(), stmts: vec![b] };
    let inner = Expr::If { id: ids.next(), cond: Box::new(c2), then_branch: vec![a], else_branch: Some(Box::new(last)) };
    let inner_id = ids.0;
    let c1 = opaque(&mut ids);
    let e = Expr::If { id: ids.next(), cond: Box::new(c1), then_branch: vec![], else_branch: Some(Box::new(inner)) };
    let st = expr_stmt(&mut ids, e);
    assert_eq!(refusal(vec![st]), CorotError { kind: ErrorKind::IfManyAwaits, site: Site::Expr(inner_id) });
}

#[test]
fn branch_await_outside_typed_let() {
    let mut ids = Ids(0);
    let aw = awaited(&mut ids);
    let inner = expr_stmt(&mut ids, aw);
    let inner_id = stmt_id(&inner);
    let cond = opaque(&mut ids);
    let e = Expr::If { id: ids.next(), cond: Box::new(cond), then_branch: vec![inner], else_branch: None };
    let st = expr_stmt(&mut ids, e);
    assert_eq!(refusal(vec![st]), CorotError { kind: ErrorKind::BranchAwaitNotLet, site: Site::Stmt(inner_id) });
}

#[test]
fn branch_with_two_awaits() {
    let mut ids = Ids(0);
    let i1 = awaited(&mut ids);
    let a = typed_let(&mut ids, "a", i1);
    let i2 = awaited(&mut ids);
    let b = typed_let(&mut ids, "b", i2);
    let b_id = stmt_id(&b);
    let cond = opaque(&mut ids);
    let e = Expr::If { id: ids.next(), cond: Box::new(cond), then_branch: vec![a, b], else_branch: None };
    let st = expr_stmt(&mut ids, e);
    assert_eq!(refusal(vec![st]), CorotError { kind: ErrorKind::BranchManyAwaits, site: Site::Stmt(b_id) });
}

#[test]
fn match_with_two_awaiting_guards() {
    let mut ids = Ids(0);
    let scrut = opaque(&mut ids);
    let p1 = int_pat(&mut ids);
    let g1 = awaited(&mut ids);
    let b1 = opaque(&mut ids);
    let a1 = arm(&mut ids, p1, Some(g1), b1);
    let p2 = Pat::Wild { id: ids.next() };
    let g2 = awaited(&mut ids);
    let b2 = opaque(&mut ids);
    let a2 = arm(&mut ids, p2, Some(g2), b2);
    let second = arm_id(&a2);
    let m = Expr::Match { id: ids.next(), scrutinee: Box::new(scrut), arms: vec![a1, a2] };
    let st = expr_stmt(&mut ids, m);
    assert_eq!(refusal(vec![st]), CorotError { kind: ErrorKind::MatchManyGuards, site: Site::Arm(second) });
}

#[test]
fn match_with_two_awaiting_arms() {
    let mut ids = Ids(0);
    let scrut = opaque(&mut ids);
    let p1 = int_pat(&mut ids);
    let b1 = awaited(&mut ids);
    let a1 = arm(&mut ids, p1, None, b1);
    let p2 = Pat::Wild { id: ids.next() };
    let b2 = awaited(&mut ids);
    let a2 = arm(&mut ids, p2, None, b2);
    let second = arm_id(&a2);
    let m = Expr::Match { id: ids.next(), scrutinee: Box::new(scrut), arms: vec![a1, a2] };
    let st = expr_stmt(&mut ids, m);
    assert_eq!(refusal(vec![st]), CorotError { kind: ErrorKind::MatchManyArms, site: Site::Arm(second) });
}

#[test]
fn match_scrutinee_await_inside_expression() {
    let mut ids = Ids(0);
    let aw = awaited(&mut ids);
    let one = opaque(&mut ids);
    let scrut = Expr::Node { id: ids.next(), kind: NodeKind::Binary, children: vec![aw, one] };
    let scrut_id = ids.0;
    let p = int_pat(&mut ids);
    let b = opaque(&mut ids);
    let a = arm(&mut ids, p, None, b);
    let m = Expr::Match { id: ids.next(), scrutinee: Box::new(scrut), arms: vec![a] };
    let st = expr_stmt(&mut ids, m);
    assert_eq!(
        refusal(vec![st]),
        CorotError { kind: ErrorKind::MatchScrutineeNotBare, site: Site::Expr(scrut_id) }
    );
}

#[test]
fn match_guard_await_inside_expression() {
    let mut ids = Ids(0);
    let scrut = opaque(&mut ids);
    let aw = awaited(&mut ids);
    let other = opaque(&mut ids);
    let guard = Expr::Node { id: ids.next(), kind: NodeKind::Binary, children: vec![aw, other] };
    let guard_id = ids.0;
    let p = int_pat(&mut ids);
    let b = opaque(&mut ids);
    let a = arm(&mut ids, p, Some(guard), b);
    let m = Expr::Match { id: ids.next(), scrutinee: Box::new(scrut), arms: vec![a] };
    let st = expr_stmt(&mut ids, m);
    assert_eq!(refusal(vec![st]), CorotError { kind: ErrorKind::MatchGuardNotBare, site: Site::Expr(guard_id) });
}

#[test]
fn match_awaiting_in_scrutinee_and_arm() {
    let mut ids = Ids(0);
    let scrut = awaited(&mut ids);
    let p = int_pat(&mut ids);
    let b = awaited(&mut ids);
    let a = arm(&mut ids, p, None, b);
    let m = Expr::Match { id: ids.next(), scrutinee: Box::new(scrut), arms: vec![a] };
    let st = expr_stmt(&mut ids, m);
    let id = stmt_id(&st);
    assert_eq!(refusal(vec![st]), CorotError { kind: ErrorKind::MatchManyAwaits, site: Site::Stmt(id) });
}

#[test]
fn match_pattern_that_tells_no_type() {
    let mut ids = Ids(0);
    let scrut = awaited(&mut ids);
    let p = Pat::Other { id: ids.next() };
    let p_id = ids.0;
    let b = opaque(&mut ids);
    let a = arm(&mut ids, p, None, b);
    let m = Expr::Match { id: ids.next(), scrutinee: Box::new(scrut), arms: vec![a] };
    let st = expr_stmt(&mut ids, m);
    assert_eq!(
        refusal(vec![st]),
        CorotError { kind: ErrorKind::CannotInferFromPattern, site: Site::Pat(p_id) }
    );
}

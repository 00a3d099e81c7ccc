//! Splitting a function body at its suspension points.
//!
//! A suspension point is a typed `let` whose initializer awaits, a `let …
//! else` awaiting through `val::<T>(…)`, or an `if … else if …` chain,
//! `loop`, `while`, `for` or `match` statement holding a single await in a
//! supported position.
use vstd::prelude::*;
use crate::bindings::{ident_of, pat_ident};
use crate::error::{err, error, CorotError, ErrorKind, Site};
use crate::inspect::{await_base_at, await_split, child, lemma_split_reaches_await, split_first_await, subexpr};
use crate::syntax::{
    contains_await, expr_id, guard_contains_await, guard_has_await, Arm, has_await, id_of_expr, id_of_pat, id_of_stmt, opt_has_await,
    stmt_contains_await, stmt_has_await, stmt_id, stmts_contain_await, stmts_have_await, Expr,
    Hint, IntTy, Pat, Stmt, Ty,
};
use crate::inspect::{
    iter_check, iter_source, iterable_ty, iterable_ty_of, let_val_await, let_val_awaited, val_await, val_awaited,
    IterSource,
};
use crate::inspect::{
    bare_await_base, bare_base, check_simple_match_pat, infer_from, infer_match_scrut_ty,
    range_item, range_types, simple_pat, strip_parens, unwrap_parens,
};
use crate::bindings::{pat_names, simple_pat_idents};
use crate::text::{decimal, join_text};

verus! {

/// What is evaluated before suspending: the awaited expression, or `()`.
#[derive(PartialEq, Eq, Structural, Clone, Copy, Debug)]
pub enum Base {
    Expr(usize),
    Unit,
}

/// An awaiting `let` statement, to be emitted with the await at `path`
/// replaced by the settled value.
pub struct Resume {
    pub stmt: Stmt,
    pub path: Vec<usize>,
}

/// An awaiting `let name: Ty = …;` statement taken apart.
pub struct PlainAwait {
    pub name: String,
    pub tmp: String,
    pub wait_ty: Ty,
    pub base: usize,
    pub resume: Resume,
}

/// Whether `s` is an awaiting typed `let`: `Ok(false)` when it is no
/// awaiting `let` at all (a `let … else` included), an error when it is one
/// of an unsupported form.
pub open spec fn plain_let_check(s: Stmt) -> Result<bool, CorotError> {
    match s {
        Stmt::Local { pat, init: Some(e), diverge, .. } => if !has_await(e) || diverge is Some {
            Ok(false)
        } else {
            match pat {
                Pat::Typed { pat: inner, .. } => match ident_of(*inner) {
                    Err(x) => Err(x),
                    Ok(_) => match await_split(e) {
                        Err(x) => Err(x),
                        Ok(_) => Ok(true),
                    },
                },
                _ => Err(err(ErrorKind::UntypedAwaitBinding, Site::Pat(crate::syntax::pat_id(pat)))),
            }
        },
        _ => Ok(false),
    }
}

/// The parts of an awaiting `let`: its name, the name of the settled value
/// `__await_<name>`, its declared type as the await's output type, the base
/// of its first await, and the statement itself with the path to that await.
pub open spec fn plain_fields(
    s: Stmt,
    name: String,
    tmp: String,
    wait_ty: Ty,
    base: usize,
    resume: Resume,
) -> bool {
    match s {
        Stmt::Local { pat: Pat::Typed { pat: inner, ty, .. }, init: Some(e), .. } => {
            &&& ident_of(*inner) matches Ok(n) && n@ == name@
            &&& tmp@ == "__await_"@ + name@
            &&& wait_ty == ty
            &&& await_split(e) == Ok::<Seq<usize>, CorotError>(resume.path@)
            &&& await_base_at(e, resume.path@) matches Some(b) && expr_id(b) == base
            &&& resume.stmt == s
        },
        _ => false,
    }
}

pub open spec fn plain_of(s: Stmt, p: PlainAwait) -> bool {
    plain_fields(s, p.name, p.tmp, p.wait_ty, p.base, p.resume)
}

/// Takes an awaiting typed `let` apart; any other statement comes back unchanged.
pub fn as_plain_await_let(stmt: Stmt) -> (r: Result<Result<PlainAwait, Stmt>, CorotError>)
    ensures
        match r {
            Ok(Ok(p)) => plain_let_check(stmt) == Ok::<bool, CorotError>(true) && plain_of(stmt, p),
            Ok(Err(back)) => plain_let_check(stmt) == Ok::<bool, CorotError>(false) && back == stmt,
            Err(x) => plain_let_check(stmt) == Err::<bool, CorotError>(x),
        },
{
    let (name, wait_ty, path, base) = match &stmt {
        Stmt::Local { pat, init: Some(e), diverge, .. } => {
            if !contains_await(e) || diverge.is_some() {
                return Ok(Err(stmt));
            }
            match pat {
                Pat::Typed { pat: inner, ty, .. } => {
                    let name = match pat_ident(inner) {
                        Ok(n) => n,
                        Err(x) => {
                            return Err(x);
                        },
                    };
                    match split_first_await(e) {
                        Ok((path, b)) => (name, ty.clone(), path, id_of_expr(b)),
                        Err(x) => {
                            return Err(x);
                        },
                    }
                },
                _ => {
                    return Err(error(ErrorKind::UntypedAwaitBinding, Site::Pat(id_of_pat(pat))));
                },
            }
        },
        _ => {
            return Ok(Err(stmt));
        },
    };
    let tmp = join_text("__await_", name.as_str());
    Ok(Ok(PlainAwait { name, tmp, wait_ty, base, resume: Resume { stmt, path } }))
}

/// Whether `s` is an awaiting `let … else`: `Ok(false)` when it is no
/// `let … else` whose initializer awaits; otherwise its initializer must be
/// `val::<T>(base.await)`, which tells the settled type, and its `else`
/// block must not await.
pub open spec fn let_else_check(s: Stmt) -> Result<bool, CorotError> {
    match s {
        Stmt::Local { id, init: Some(e), diverge: Some(b), .. } => if !has_await(e) {
            Ok(false)
        } else if stmts_have_await(b@) || val_await(e) is None {
            Err(err(ErrorKind::LetElseAwait, Site::Stmt(id)))
        } else {
            Ok(true)
        },
        _ => Ok(false),
    }
}

/// Where the await of an awaiting `let … else` is in its initializer.
pub open spec fn val_arg_path() -> Seq<usize> {
    seq![1usize]
}

/// What an awaiting `let … else` becomes as point number `index`: a point
/// named `let<index>` waiting on the type `val::<T>` tells, that resumes the
/// statement with its await replaced.
pub open spec fn let_else_point(s: Stmt, index: nat, ap: AwaitPoint) -> bool {
    match s {
        Stmt::Local { init: Some(e), .. } => {
            &&& ap.name@ == indexed_name("let"@, index)
            &&& ap.tmp@ == "__await_"@ + ap.name@
            &&& val_await(e) matches Some((ty, b)) && ap.wait_ty == ty && ap.base == Base::Expr(expr_id(b))
            &&& ap.kind matches SuspendKind::Plain { resume } && resume.stmt == s && resume.path@ == val_arg_path()
        },
        _ => false,
    }
}

/// Takes an awaiting `let … else` apart as point number `index`; any other
/// statement comes back unchanged.
pub fn as_await_let_else_stmt(stmt: Stmt, index: usize) -> (r: Result<Result<AwaitPoint, Stmt>, CorotError>)
    ensures
        match r {
            Ok(Ok(ap)) => let_else_check(stmt) == Ok::<bool, CorotError>(true) && let_else_point(stmt, index as nat, ap)
                && ap.before@.len() == 0,
            Ok(Err(back)) => let_else_check(stmt) == Ok::<bool, CorotError>(false) && back == stmt,
            Err(x) => let_else_check(stmt) == Err::<bool, CorotError>(x),
        },
{
    let (wait_ty, base) = match &stmt {
        Stmt::Local { id, init: Some(e), diverge: Some(b), .. } => {
            if !contains_await(e) {
                return Ok(Err(stmt));
            }
            if stmts_contain_await(b) {
                return Err(error(ErrorKind::LetElseAwait, Site::Stmt(*id)));
            }
            match val_awaited(e) {
                Some((ty, b)) => (ty.clone(), id_of_expr(b)),
                None => {
                    return Err(error(ErrorKind::LetElseAwait, Site::Stmt(*id)));
                },
            }
        },
        _ => {
            return Ok(Err(stmt));
        },
    };
    let name = crate::text::indexed("let", index);
    let tmp = join_text("__await_", name.as_str());
    let mut path: Vec<usize> = Vec::new();
    path.push(1);
    assert(path@ =~= val_arg_path());
    Ok(Ok(AwaitPoint {
        name,
        tmp,
        wait_ty,
        base: Base::Expr(base),
        before: Vec::new(),
        kind: SuspendKind::Plain { resume: Resume { stmt, path } },
    }))
}

/// Whether `s` is `let _: T = <initializer with an await>;`, whose settled
/// value is discarded: `Ok(false)` when it is not, an error when its await
/// cannot be split out.
pub open spec fn wild_let_check(s: Stmt) -> Result<bool, CorotError> {
    match s {
        Stmt::Local { pat: Pat::Typed { pat: inner, .. }, init: Some(e), diverge: None, .. } => if has_await(e)
            && (*inner is Wild) {
            match await_split(e) {
                Ok(_) => Ok(true),
                Err(x) => Err(x),
            }
        } else {
            Ok(false)
        },
        _ => Ok(false),
    }
}

/// What `let _: T = …;` becomes as point number `index`: a point named
/// `let<index>` waiting on `T`, that resumes the statement with its first
/// await replaced.
pub open spec fn wild_let_point(s: Stmt, index: nat, ap: AwaitPoint) -> bool {
    match s {
        Stmt::Local { pat: Pat::Typed { ty, .. }, init: Some(e), .. } => {
            &&& ap.name@ == indexed_name("let"@, index)
            &&& ap.tmp@ == "__await_"@ + ap.name@
            &&& ap.wait_ty == ty
            &&& ap.kind matches SuspendKind::Plain { resume } && resume.stmt == s && await_split(e) == Ok::<
                Seq<usize>,
                CorotError,
            >(resume.path@) && (await_base_at(e, resume.path@) matches Some(b) && ap.base == Base::Expr(expr_id(b)))
        },
        _ => false,
    }
}

/// Takes `let _: T = …await…;` apart as point number `index`; any other
/// statement comes back unchanged.
pub fn as_await_wild_let_stmt(stmt: Stmt, index: usize) -> (r: Result<Result<AwaitPoint, Stmt>, CorotError>)
    ensures
        match r {
            Ok(Ok(ap)) => wild_let_check(stmt) == Ok::<bool, CorotError>(true) && wild_let_point(stmt, index as nat, ap)
                && ap.before@.len() == 0,
            Ok(Err(back)) => wild_let_check(stmt) == Ok::<bool, CorotError>(false) && back == stmt,
            Err(x) => wild_let_check(stmt) == Err::<bool, CorotError>(x),
        },
{
    let (wait_ty, path, base) = match &stmt {
        Stmt::Local { pat: Pat::Typed { pat: inner, ty, .. }, init: Some(e), diverge: None, .. } => {
            let wild = match &**inner {
                Pat::Wild { .. } => true,
                _ => false,
            };
            if !wild || !contains_await(e) {
                return Ok(Err(stmt));
            }
            match split_first_await(e) {
                Ok((path, b)) => (ty.clone(), path, id_of_expr(b)),
                Err(x) => {
                    return Err(x);
                },
            }
        },
        _ => {
            return Ok(Err(stmt));
        },
    };
    let name = crate::text::indexed("let", index);
    let tmp = join_text("__await_", name.as_str());
    Ok(Ok(AwaitPoint {
        name,
        tmp,
        wait_ty,
        base: Base::Expr(base),
        before: Vec::new(),
        kind: SuspendKind::Plain { resume: Resume { stmt, path } },
    }))
}

/// Where the single await of a branch is: the index of the awaiting `let`,
/// scanning from `i` with `found` the index found so far.
pub open spec fn extract_from(s: Seq<Stmt>, i: nat, found: Option<nat>) -> Result<nat, CorotError>
    decreases s.len() - i,
{
    if i >= s.len() {
        match found {
            Some(k) => Ok(k),
            None => Err(err(ErrorKind::BranchWithoutAwait, Site::CallSite)),
        }
    } else {
        match found {
            None => match plain_let_check(s[i as int]) {
                Err(x) => Err(x),
                Ok(true) => extract_from(s, i + 1, Some(i)),
                Ok(false) => if stmt_has_await(s[i as int]) {
                    Err(err(ErrorKind::BranchAwaitNotLet, Site::Stmt(stmt_id(s[i as int]))))
                } else {
                    extract_from(s, i + 1, None)
                },
            },
            Some(k) => if stmt_has_await(s[i as int]) {
                Err(err(ErrorKind::BranchManyAwaits, Site::Stmt(stmt_id(s[i as int]))))
            } else {
                extract_from(s, i + 1, Some(k))
            },
        }
    }
}

/// Where the single await of a branch is.
pub open spec fn extract_check(s: Seq<Stmt>) -> Result<nat, CorotError> {
    extract_from(s, 0, None)
}

/// A branch split at its awaiting `let`: the statements before, the `let`,
/// the statements after.
pub open spec fn extracted(
    s: Seq<Stmt>,
    before: Seq<Stmt>,
    name: String,
    tmp: String,
    wait_ty: Ty,
    base: usize,
    resume: Resume,
    after: Seq<Stmt>,
) -> bool {
    &&& extract_check(s) == Ok::<nat, CorotError>(before.len())
    &&& before.len() < s.len()
    &&& before == s.take(before.len() as int)
    &&& after == s.skip(before.len() + 1 as int)
    &&& plain_fields(s[before.len() as int], name, tmp, wait_ty, base, resume)
}

proof fn lemma_extract_found(s: Seq<Stmt>, i: nat, k: nat)
    requires
        k < i,
        k < s.len(),
    ensures
        extract_from(s, i, Some(k)) matches Ok(j) ==> j == k,
    decreases s.len() - i,
{
    if i < s.len() {
        lemma_extract_found(s, i + 1, k);
    }
}

/// Splits a branch at its only awaiting typed `let`.
#[verifier::loop_isolation(false)]
pub fn extract_single_await(stmts: Vec<Stmt>) -> (r: Result<(Vec<Stmt>, PlainAwait, Vec<Stmt>), CorotError>)
    ensures
        match r {
            Ok((b, p, a)) => extracted(stmts@, b@, p.name, p.tmp, p.wait_ty, p.base, p.resume, a@),
            Err(x) => extract_check(stmts@) == Err::<nat, CorotError>(x),
        },
{
    let ghost s = stmts@;
    assert(s.len() == stmts.len());
    assert(s.skip(0) =~= s);
    assert(s.take(0) =~= Seq::<Stmt>::empty());
    let mut rest = stmts;
    let mut before: Vec<Stmt> = Vec::new();
    let mut found: Option<PlainAwait> = None;
    let mut after: Vec<Stmt> = Vec::new();
    let ghost mut k: nat = 0;
    let mut i: usize = 0;
    while rest.len() > 0
        invariant
            rest@ == s.skip(i as int),
            i <= s.len(),
            s.len() <= usize::MAX,
            match found {
                None => after@.len() == 0 && before@ == s.take(i as int) && extract_check(s) == extract_from(s, i as nat, None),
                Some(p) => k < i && before@ == s.take(k as int) && after@ == s.subrange(k + 1 as int, i as int)
                    && extract_from(s, (k + 1) as nat, Some(k)) == extract_from(s, i as nat, Some(k))
                    && extract_check(s) == extract_from(s, (k + 1) as nat, Some(k))
                    && plain_of(s[k as int], p),
            },
        decreases rest.len(),
    {
        let st = rest.remove(0);
        assert(st == s[i as int]);
        assert(rest@ =~= s.skip(i + 1));
        if found.is_none() {
            match as_plain_await_let(st) {
                Err(x) => {
                    assert(extract_from(s, i as nat, None) == Err::<nat, CorotError>(x));
                    return Err(x);
                },
                Ok(Ok(p)) => {
                    proof {
                        k = i as nat;
                    }
                    found = Some(p);
                    assert(after@ =~= s.subrange(k + 1 as int, i + 1 as int));
                },
                Ok(Err(back)) => {
                    if stmt_contains_await(&back) {
                        return Err(error(ErrorKind::BranchAwaitNotLet, Site::Stmt(id_of_stmt(&back))));
                    }
                    before.push(back);
                    assert(before@ =~= s.take(i + 1));
                },
            }
        } else {
            if stmt_contains_await(&st) {
                assert(extract_from(s, i as nat, Some(k)) == Err::<nat, CorotError>(
                    err(ErrorKind::BranchManyAwaits, Site::Stmt(stmt_id(st))),
                ));
                return Err(error(ErrorKind::BranchManyAwaits, Site::Stmt(id_of_stmt(&st))));
            }
            after.push(st);
            assert(after@ =~= s.subrange(k + 1 as int, i + 1 as int));
        }
        i += 1;
    }
    match found {
        Some(p) => {
            proof {
                lemma_extract_found(s, (k + 1) as nat, k);
                assert(after@ =~= s.skip(k + 1 as int));
            }
            Ok((before, p, after))
        },
        None => Err(error(ErrorKind::BranchWithoutAwait, Site::CallSite)),
    }
}

// ---------------------------------------------------------------------------
// Suspension points.

/// An earlier arm of an `if … else if …` chain: its condition and its body.
pub struct ChainArm {
    pub cond: Expr,
    pub body: Vec<Stmt>,
}

/// How a suspension point suspends and resumes.
#[allow(inconsistent_fields)]
pub enum SuspendKind {
    /// A top-level `let name: Ty = <expr with await>;`.
    Plain { resume: Resume },
    /// `if base.await { then } else { else }`: the settled bool is the
    /// condition; or, with `let_cond` the id of the condition,
    /// `if let PAT = val::<T>(base.await) { … }`: the settled value is the
    /// scrutinee.
    IfCondition { let_cond: Option<usize>, then_branch: Vec<Stmt>, else_branch: Option<Box<Expr>> },
    /// The await is in the `then` branch of `if cond`, itself the arm of an
    /// `if … else if …` chain reached when the conditions of the `prior`
    /// arms fail.
    IfThen {
        prior: Vec<ChainArm>,
        cond: Box<Expr>,
        before_await: Vec<Stmt>,
        resume: Resume,
        after_await: Vec<Stmt>,
        else_branch: Option<Box<Expr>>,
        join_stmts: Vec<Stmt>,
    },
    /// The await is in the final `else` block, after `if cond { then }`
    /// and the `prior` arms of the chain.
    IfElse {
        prior: Vec<ChainArm>,
        cond: Box<Expr>,
        then_branch: Vec<Stmt>,
        before_await: Vec<Stmt>,
        resume: Resume,
        after_await: Vec<Stmt>,
        join_stmts: Vec<Stmt>,
    },
    /// `loop { before; let name: Ty = ….await; after }`, or with `cond`
    /// the same body under `while cond`.
    Loop {
        label: Option<String>,
        cond: Option<Box<Expr>>,
        before_await: Vec<Stmt>,
        resume: Resume,
        after_await: Vec<Stmt>,
        join_stmts: Vec<Stmt>,
    },
    /// `for item in range { … }` or `for item in iter::<T>(…) { … }`, the
    /// iterable itself possibly awaited.
    For {
        label: Option<String>,
        item: String,
        source: IterSource,
        iter_expr: Option<Box<Expr>>,
        iter_await_base: Option<usize>,
        has_body_await: bool,
        before_await: Vec<Stmt>,
        resume: Option<Resume>,
        after_await: Vec<Stmt>,
        join_stmts: Vec<Stmt>,
    },
    /// `match base.await { arms }`: the settled value is the scrutinee.
    MatchScrutinee { scrut_ty: Hint, arms: Vec<crate::syntax::Arm> },
    /// The await is in one arm's body.
    MatchArm {
        scrutinee: Box<Expr>,
        scrut_ty: Hint,
        pat_binds: Vec<String>,
        arms_before: Vec<crate::syntax::Arm>,
        sus_arm: usize,
        sus_pat: Pat,
        sus_guard: Option<Expr>,
        before_await: Vec<Stmt>,
        resume: Resume,
        after_await: Vec<Stmt>,
        arms_after: Vec<crate::syntax::Arm>,
        join_stmts: Vec<Stmt>,
    },
    /// The await is one arm's whole guard.
    MatchGuard {
        scrutinee: Box<Expr>,
        scrut_ty: Hint,
        arms_before: Vec<crate::syntax::Arm>,
        sus_arm: usize,
        sus_pat: Pat,
        sus_body: Expr,
        arms_after: Vec<crate::syntax::Arm>,
        join_stmts: Vec<Stmt>,
    },
}

/// A suspension point: the name its state is called after, the name of the
/// settled value, the await's output type, what is evaluated before
/// suspending, the statements since the previous point, and its kind.
pub struct AwaitPoint {
    pub name: String,
    pub tmp: String,
    pub wait_ty: Ty,
    pub base: Base,
    pub before: Vec<Stmt>,
    pub kind: SuspendKind,
}

/// Whether an `if` statement suspends (`Ok(true)`), does not (`Ok(false)`),
/// or holds awaits in an unsupported way.
pub open spec fn if_check(s: Stmt) -> Result<bool, CorotError> {
    match s {
        Stmt::Expr { id, expr: Expr::If { cond, then_branch, else_branch, .. } } => {
            let c = has_await(*cond);
            let t = stmts_have_await(then_branch@);
            let e = opt_has_await(else_branch);
            if !c && !t && !e {
                Ok(false)
            } else if c && !t && !e {
                if bare_base(*cond) is Some || let_val_await(*cond) is Some {
                    Ok(true)
                } else {
                    Err(err(ErrorKind::IfConditionNotBare, Site::Expr(expr_id(*cond))))
                }
            } else if !c && t && !e {
                match extract_check(then_branch@) {
                    Ok(_) => Ok(true),
                    Err(x) => Err(x),
                }
            } else if !c && !t && e {
                match else_branch {
                    Some(b) => else_check(*b),
                    None => Ok(false),
                }
            } else {
                Err(err(ErrorKind::IfManyAwaits, Site::Stmt(id)))
            }
        },
        _ => Ok(false),
    }
}

/// Whether the `else` of an `if` holding the statement's await suspends:
/// a block with a single awaiting `let`, or an `else if` whose condition
/// holds no await and whose await stands in one branch the same way.
pub open spec fn else_check(e: Expr) -> Result<bool, CorotError>
    decreases e,
{
    match e {
        Expr::Block { stmts, .. } => match extract_check(stmts@) {
            Ok(_) => Ok(true),
            Err(x) => Err(x),
        },
        Expr::If { id, cond, then_branch, else_branch } => {
            let t = stmts_have_await(then_branch@);
            let x = opt_has_await(else_branch);
            if has_await(*cond) {
                Err(err(ErrorKind::ElseIfAwait, Site::Expr(expr_id(*cond))))
            } else if t && x {
                Err(err(ErrorKind::IfManyAwaits, Site::Expr(id)))
            } else if t {
                match extract_check(then_branch@) {
                    Ok(_) => Ok(true),
                    Err(x) => Err(x),
                }
            } else {
                match else_branch {
                    Some(b) => else_check(*b),
                    None => Err(err(ErrorKind::IfManyAwaits, Site::Expr(id))),
                }
            }
        },
        other => Err(err(ErrorKind::ElseIfAwait, Site::Expr(expr_id(other)))),
    }
}

/// What the awaiting `else` `e` of a chain whose earlier arms are `prior`
/// becomes: an `IfElse` point for a block after the chain's last `if`,
/// otherwise the point of the `else if` arm that holds the await.
pub open spec fn else_point(
    e: Expr,
    cond: Box<Expr>,
    then_branch: Vec<Stmt>,
    prior: Seq<ChainArm>,
    name: String,
    tmp: String,
    wait_ty: Ty,
    base: Base,
    kind: SuspendKind,
) -> bool
    decreases e,
{
    match e {
        Expr::Block { stmts, .. } => match kind {
            SuspendKind::IfElse { prior: p2, cond: c2, then_branch: t2, before_await, resume, after_await, join_stmts } => {
                &&& p2@ == prior
                &&& c2 == cond
                &&& t2 == then_branch
                &&& join_stmts@.len() == 0
                &&& base matches Base::Expr(b) && extracted(stmts@, before_await@, name, tmp, wait_ty, b, resume, after_await@)
            },
            _ => false,
        },
        Expr::If { cond: c1, then_branch: t1, else_branch: e1, .. } => {
            let prior1 = prior.push(ChainArm { cond: *cond, body: then_branch });
            if stmts_have_await(t1@) {
                match kind {
                    SuspendKind::IfThen { prior: p2, cond: c2, before_await, resume, after_await, else_branch: e2, join_stmts } => {
                        &&& p2@ == prior1
                        &&& c2 == c1
                        &&& e2 == e1
                        &&& join_stmts@.len() == 0
                        &&& base matches Base::Expr(b) && extracted(t1@, before_await@, name, tmp, wait_ty, b, resume, after_await@)
                    },
                    _ => false,
                }
            } else {
                match e1 {
                    Some(b) => else_point(*b, c1, t1, prior1, name, tmp, wait_ty, base, kind),
                    None => false,
                }
            }
        },
        _ => false,
    }
}

/// The name of an indexed point: `prefix` and the point's index.
pub open spec fn indexed_name(prefix: Seq<char>, index: nat) -> Seq<char> {
    prefix + decimal(index)
}

/// What an `if` statement that suspends becomes, as point number `index`.
pub open spec fn if_point(s: Stmt, index: nat, ap: AwaitPoint) -> bool {
    match s {
        Stmt::Expr { expr: Expr::If { cond, then_branch, else_branch, .. }, .. } => {
            let c = has_await(*cond);
            let t = stmts_have_await(then_branch@);
            if c {
                &&& ap.name@ == indexed_name("cond"@, index)
                &&& ap.tmp@ == "__await_"@ + ap.name@
                &&& match bare_base(*cond) {
                    Some(b) => {
                        &&& ap.wait_ty == Ty::Hinted(Hint::Bool)
                        &&& ap.base == Base::Expr(expr_id(b))
                        &&& ap.kind == SuspendKind::IfCondition { let_cond: None, then_branch, else_branch }
                    },
                    None => {
                        &&& let_val_await(*cond) matches Some((ty, b)) && ap.wait_ty == ty && ap.base == Base::Expr(expr_id(b))
                        &&& ap.kind == SuspendKind::IfCondition { let_cond: Some(expr_id(*cond)), then_branch, else_branch }
                    },
                }
            } else if t {
                match ap.kind {
                    SuspendKind::IfThen { prior, cond: c2, before_await, resume, after_await, else_branch: e2, join_stmts } => {
                        &&& prior@.len() == 0
                        &&& c2 == cond
                        &&& e2 == else_branch
                        &&& join_stmts@.len() == 0
                        &&& ap.base matches Base::Expr(b) && extracted(then_branch@, before_await@, ap.name, ap.tmp, ap.wait_ty, b, resume, after_await@)
                    },
                    _ => false,
                }
            } else {
                else_branch matches Some(eb) && else_point(*eb, cond, then_branch, Seq::empty(), ap.name, ap.tmp, ap.wait_ty, ap.base, ap.kind)
            }
        },
        _ => false,
    }
}

/// Takes a suspending `if` statement apart as point number `index`; any
/// other statement comes back unchanged.
pub fn as_await_if_stmt(stmt: Stmt, index: usize) -> (r: Result<Result<AwaitPoint, Stmt>, CorotError>)
    ensures
        match r {
            Ok(Ok(ap)) => if_check(stmt) == Ok::<bool, CorotError>(true) && if_point(stmt, index as nat, ap)
                && ap.before@.len() == 0,
            Ok(Err(back)) => if_check(stmt) == Ok::<bool, CorotError>(false) && back == stmt,
            Err(x) => if_check(stmt) == Err::<bool, CorotError>(x),
        },
{
    match stmt {
        Stmt::Expr { id, expr } => match expr {
            Expr::If { id: if_id, cond, then_branch, else_branch } => {
                let c = contains_await(&cond);
                let t = stmts_contain_await(&then_branch);
                let e = match &else_branch {
                    Some(b) => contains_await(b),
                    None => false,
                };
                if !c && !t && !e {
                    Ok(Err(Stmt::Expr { id, expr: Expr::If { id: if_id, cond, then_branch, else_branch } }))
                } else if c && !t && !e {
                    let (wait_ty, base, let_cond) = match bare_await_base(&cond) {
                        Some(b) => (Ty::Hinted(Hint::Bool), id_of_expr(b), None),
                        None => match let_val_awaited(&cond) {
                            Some((ty, b)) => (ty.clone(), id_of_expr(b), Some(id_of_expr(&cond))),
                            None => {
                                return Err(error(ErrorKind::IfConditionNotBare, Site::Expr(id_of_expr(&cond))));
                            },
                        },
                    };
                    let name = crate::text::indexed("cond", index);
                    let tmp = join_text("__await_", name.as_str());
                    Ok(Ok(AwaitPoint {
                        name,
                        tmp,
                        wait_ty,
                        base: Base::Expr(base),
                        before: Vec::new(),
                        kind: SuspendKind::IfCondition { let_cond, then_branch, else_branch },
                    }))
                } else if !c && t && !e {
                    match extract_single_await(then_branch) {
                        Ok((before_await, p, after_await)) => Ok(Ok(AwaitPoint {
                            name: p.name,
                            tmp: p.tmp,
                            wait_ty: p.wait_ty,
                            base: Base::Expr(p.base),
                            before: Vec::new(),
                            kind: SuspendKind::IfThen {
                                prior: Vec::new(),
                                cond,
                                before_await,
                                resume: p.resume,
                                after_await,
                                else_branch,
                                join_stmts: Vec::new(),
                            },
                        })),
                        Err(x) => Err(x),
                    }
                } else if !c && !t && e {
                    match else_branch {
                        Some(b) => match else_chain(*b, cond, then_branch, Vec::new()) {
                            Ok(ap) => Ok(Ok(ap)),
                            Err(x) => Err(x),
                        },
                        None => Err(error(ErrorKind::IfManyAwaits, Site::Stmt(id))),
                    }
                } else {
                    Err(error(ErrorKind::IfManyAwaits, Site::Stmt(id)))
                }
            },
            other => Ok(Err(Stmt::Expr { id, expr: other })),
        },
        other => Ok(Err(other)),
    }
}

/// Takes the awaiting `else` `e` of a chain apart, the chain's last `if`
/// being `if cond { then_branch }` after the arms `prior`.
fn else_chain(e: Expr, cond: Box<Expr>, then_branch: Vec<Stmt>, prior: Vec<ChainArm>) -> (r: Result<AwaitPoint, CorotError>)
    requires
        has_await(e),
    ensures
        match r {
            Ok(ap) => else_check(e) == Ok::<bool, CorotError>(true) && else_point(e, cond, then_branch, prior@, ap.name, ap.tmp, ap.wait_ty, ap.base, ap.kind)
                && ap.before@.len() == 0,
            Err(x) => else_check(e) == Err::<bool, CorotError>(x),
        },
    decreases e,
{
    let ghost e0 = e;
    match e {
        Expr::Block { stmts, .. } => match extract_single_await(stmts) {
            Ok((before_await, p, after_await)) => Ok(AwaitPoint {
                name: p.name,
                tmp: p.tmp,
                wait_ty: p.wait_ty,
                base: Base::Expr(p.base),
                before: Vec::new(),
                kind: SuspendKind::IfElse {
                    prior,
                    cond,
                    then_branch,
                    before_await,
                    resume: p.resume,
                    after_await,
                    join_stmts: Vec::new(),
                },
            }),
            Err(x) => Err(x),
        },
        Expr::If { id, cond: c1, then_branch: t1, else_branch: e1 } => {
            if contains_await(&c1) {
                return Err(error(ErrorKind::ElseIfAwait, Site::Expr(id_of_expr(&c1))));
            }
            let t = stmts_contain_await(&t1);
            let x = match &e1 {
                Some(b) => contains_await(b),
                None => false,
            };
            if t && x {
                return Err(error(ErrorKind::IfManyAwaits, Site::Expr(id)));
            }
            assert(has_await(e0) == (has_await(*c1) || stmts_have_await(t1@) || opt_has_await(e1)));
            assert(!t ==> opt_has_await(e1));
            let mut prior1 = prior;
            prior1.push(ChainArm { cond: *cond, body: then_branch });
            if t {
                match extract_single_await(t1) {
                    Ok((before_await, p, after_await)) => Ok(AwaitPoint {
                        name: p.name,
                        tmp: p.tmp,
                        wait_ty: p.wait_ty,
                        base: Base::Expr(p.base),
                        before: Vec::new(),
                        kind: SuspendKind::IfThen {
                            prior: prior1,
                            cond: c1,
                            before_await,
                            resume: p.resume,
                            after_await,
                            else_branch: e1,
                            join_stmts: Vec::new(),
                        },
                    }),
                    Err(x) => Err(x),
                }
            } else {
                match e1 {
                    Some(b) => {
                        assert(decreases_to!(e0 => *b));
                        assert(has_await(*b));
                        else_chain(*b, c1, t1, prior1)
                    },
                    None => Err(error(ErrorKind::IfManyAwaits, Site::Expr(id))),
                }
            }
        },
        other => Err(error(ErrorKind::ElseIfAwait, Site::Expr(id_of_expr(&other)))),
    }
}

/// Whether a `loop` or `while` statement suspends: its body holds an
/// await (a `while` condition holds none).
pub open spec fn loop_check(s: Stmt) -> Result<bool, CorotError> {
    match s {
        Stmt::Expr { expr: Expr::Loop { body, .. }, .. } => if !stmts_have_await(body@) {
            Ok(false)
        } else {
            match extract_check(body@) {
                Ok(_) => Ok(true),
                Err(x) => Err(x),
            }
        },
        Stmt::Expr { expr: Expr::While { cond, body, .. }, .. } => if has_await(*cond) || !stmts_have_await(body@) {
            Ok(false)
        } else {
            match extract_check(body@) {
                Ok(_) => Ok(true),
                Err(x) => Err(x),
            }
        },
        _ => Ok(false),
    }
}

/// What a suspending `loop` or `while` statement becomes.
pub open spec fn loop_point(s: Stmt, ap: AwaitPoint) -> bool {
    match s {
        Stmt::Expr { expr: Expr::Loop { label: l, body, .. }, .. } => match ap.kind {
            SuspendKind::Loop { label, cond, before_await, resume, after_await, join_stmts } => {
                &&& label == l
                &&& cond is None
                &&& join_stmts@.len() == 0
                &&& ap.base matches Base::Expr(b) && extracted(body@, before_await@, ap.name, ap.tmp, ap.wait_ty, b, resume, after_await@)
            },
            _ => false,
        },
        Stmt::Expr { expr: Expr::While { label: l, cond: wc, body, .. }, .. } => match ap.kind {
            SuspendKind::Loop { label, cond, before_await, resume, after_await, join_stmts } => {
                &&& label == l
                &&& cond == Some(wc)
                &&& join_stmts@.len() == 0
                &&& ap.base matches Base::Expr(b) && extracted(body@, before_await@, ap.name, ap.tmp, ap.wait_ty, b, resume, after_await@)
            },
            _ => false,
        },
        _ => false,
    }
}

/// Takes a suspending `loop` or `while` statement apart; any other statement comes back unchanged.
pub fn as_await_loop_stmt(stmt: Stmt) -> (r: Result<Result<AwaitPoint, Stmt>, CorotError>)
    ensures
        match r {
            Ok(Ok(ap)) => loop_check(stmt) == Ok::<bool, CorotError>(true) && loop_point(stmt, ap)
                && ap.before@.len() == 0,
            Ok(Err(back)) => loop_check(stmt) == Ok::<bool, CorotError>(false) && back == stmt,
            Err(x) => loop_check(stmt) == Err::<bool, CorotError>(x),
        },
{
    match stmt {
        Stmt::Expr { id, expr } => match expr {
            Expr::Loop { id: loop_id, label, body } => {
                if !stmts_contain_await(&body) {
                    return Ok(Err(Stmt::Expr { id, expr: Expr::Loop { id: loop_id, label, body } }));
                }
                match extract_single_await(body) {
                    Ok((before_await, p, after_await)) => Ok(Ok(AwaitPoint {
                        name: p.name,
                        tmp: p.tmp,
                        wait_ty: p.wait_ty,
                        base: Base::Expr(p.base),
                        before: Vec::new(),
                        kind: SuspendKind::Loop {
                            label,
                            cond: None,
                            before_await,
                            resume: p.resume,
                            after_await,
                            join_stmts: Vec::new(),
                        },
                    })),
                    Err(x) => Err(x),
                }
            },
            Expr::While { id: loop_id, label, cond, body } => {
                if contains_await(&cond) || !stmts_contain_await(&body) {
                    return Ok(Err(Stmt::Expr { id, expr: Expr::While { id: loop_id, label, cond, body } }));
                }
                match extract_single_await(body) {
                    Ok((before_await, p, after_await)) => Ok(Ok(AwaitPoint {
                        name: p.name,
                        tmp: p.tmp,
                        wait_ty: p.wait_ty,
                        base: Base::Expr(p.base),
                        before: Vec::new(),
                        kind: SuspendKind::Loop {
                            label,
                            cond: Some(cond),
                            before_await,
                            resume: p.resume,
                            after_await,
                            join_stmts: Vec::new(),
                        },
                    })),
                    Err(x) => Err(x),
                }
            },
            other => Ok(Err(Stmt::Expr { id, expr: other })),
        },
        other => Ok(Err(other)),
    }
}

/// Whether a `for` statement suspends: its iterable is a range literal,
/// possibly awaited as a whole, or `iter::<T>(…)`, possibly around a bare
/// await (see [`iter_check`]), its pattern a plain identifier, and its body
/// holds at most one awaiting `let`.
pub open spec fn for_check(s: Stmt) -> Result<bool, CorotError> {
    match s {
        Stmt::Expr { expr: Expr::ForLoop { pat, iterable, body, .. }, .. } => {
            let hi = has_await(*iterable);
            let hb = stmts_have_await(body@);
            if !hi && !hb {
                Ok(false)
            } else {
                match ident_of(pat) {
                    Err(x) => Err(x),
                    Ok(_) => match iter_check(*iterable) {
                        Err(x) => Err(x),
                        Ok(_) => if hb {
                            match extract_check(body@) {
                                Ok(_) => Ok(true),
                                Err(x) => Err(x),
                            }
                        } else {
                            Ok(true)
                        },
                    },
                }
            }
        },
        _ => Ok(false),
    }
}

/// What a suspending `for` statement becomes. Without an await in the body
/// the point is named `iter` and waits on the iterable's type.
pub open spec fn for_point(s: Stmt, ap: AwaitPoint) -> bool {
    match s {
        Stmt::Expr { expr: Expr::ForLoop { label: l, pat, iterable, body, .. }, .. } => match ap.kind {
            SuspendKind::For { label, item, source, iter_expr, iter_await_base, has_body_await, before_await, resume, after_await, join_stmts } => {
                &&& label == l
                &&& ident_of(pat) matches Ok(n) && n@ == item@
                &&& has_body_await == stmts_have_await(body@)
                &&& join_stmts@.len() == 0
                &&& iter_check(*iterable) matches Ok((src, awaited)) && src == source && match awaited {
                    Some(b) => {
                        &&& iter_expr is None
                        &&& iter_await_base == Some(expr_id(strip_parens(b)))
                    },
                    None => {
                        &&& iter_expr == Some(iterable)
                        &&& iter_await_base is None
                    },
                }
                &&& if has_body_await {
                    resume matches Some(rs) && ap.base matches Base::Expr(b) && extracted(body@, before_await@, ap.name, ap.tmp, ap.wait_ty, b, rs, after_await@)
                } else {
                    &&& ap.name@ == "iter"@
                    &&& ap.tmp@ == "__await_iter"@
                    &&& ap.wait_ty == iterable_ty_of(source)
                    &&& ap.base == match iter_await_base {
                        Some(b) => Base::Expr(b),
                        None => Base::Unit,
                    }
                    &&& before_await@ == body@
                    &&& resume is None
                    &&& after_await@.len() == 0
                }
            },
            _ => false,
        },
        _ => false,
    }
}

/// Takes a suspending `for` statement apart; any other statement comes back unchanged.
pub fn as_await_for_stmt(stmt: Stmt) -> (r: Result<Result<AwaitPoint, Stmt>, CorotError>)
    ensures
        match r {
            Ok(Ok(ap)) => for_check(stmt) == Ok::<bool, CorotError>(true) && for_point(stmt, ap)
                && ap.before@.len() == 0,
            Ok(Err(back)) => for_check(stmt) == Ok::<bool, CorotError>(false) && back == stmt,
            Err(x) => for_check(stmt) == Err::<bool, CorotError>(x),
        },
{
    match stmt {
        Stmt::Expr { id, expr } => match expr {
            Expr::ForLoop { id: for_id, label, pat, iterable, body } => {
                let hi = contains_await(&iterable);
                let hb = stmts_contain_await(&body);
                if !hi && !hb {
                    return Ok(Err(Stmt::Expr { id, expr: Expr::ForLoop { id: for_id, label, pat, iterable, body } }));
                }
                let item = match pat_ident(&pat) {
                    Ok(n) => n,
                    Err(x) => {
                        return Err(x);
                    },
                };
                let (source, iter_await_base) = match iter_source(&iterable) {
                    Ok(x) => x,
                    Err(x) => {
                        return Err(x);
                    },
                };
                let iter_expr = match iter_await_base {
                    Some(_) => None,
                    None => Some(iterable),
                };
                if hb {
                    match extract_single_await(body) {
                        Ok((before_await, p, after_await)) => Ok(Ok(AwaitPoint {
                            name: p.name,
                            tmp: p.tmp,
                            wait_ty: p.wait_ty,
                            base: Base::Expr(p.base),
                            before: Vec::new(),
                            kind: SuspendKind::For {
                                label,
                                item,
                                source,
                                iter_expr,
                                iter_await_base,
                                has_body_await: true,
                                before_await,
                                resume: Some(p.resume),
                                after_await,
                                join_stmts: Vec::new(),
                            },
                        })),
                        Err(x) => Err(x),
                    }
                } else {
                    let base = match iter_await_base {
                        Some(b) => Base::Expr(b),
                        None => Base::Unit,
                    };
                    Ok(Ok(AwaitPoint {
                        name: String::from_str("iter"),
                        tmp: String::from_str("__await_iter"),
                        wait_ty: iterable_ty(&source),
                        base,
                        before: Vec::new(),
                        kind: SuspendKind::For {
                            label,
                            item,
                            source,
                            iter_expr,
                            iter_await_base,
                            has_body_await: false,
                            before_await: body,
                            resume: None,
                            after_await: Vec::new(),
                            join_stmts: Vec::new(),
                        },
                    }))
                }
            },
            other => Ok(Err(Stmt::Expr { id, expr: other })),
        },
        other => Ok(Err(other)),
    }
}

/// Where the awaits of a match's arms are: the arm whose body awaits and the
/// arm whose guard awaits, scanning from arm `i`; more than one of either is refused.
pub open spec fn arm_scan(arms: Seq<Arm>, i: nat, ai: Option<nat>, gi: Option<nat>) -> Result<
    (Option<nat>, Option<nat>),
    CorotError,
>
    decreases arms.len() - i,
{
    if i >= arms.len() {
        Ok((ai, gi))
    } else {
        let a = arms[i as int];
        if guard_has_await(a) && gi is Some {
            Err(err(ErrorKind::MatchManyGuards, Site::Arm(a.id)))
        } else {
            let gi2 = if guard_has_await(a) {
                Some(i)
            } else {
                gi
            };
            if has_await(a.body) && ai is Some {
                Err(err(ErrorKind::MatchManyArms, Site::Arm(a.id)))
            } else {
                let ai2 = if has_await(a.body) {
                    Some(i)
                } else {
                    ai
                };
                arm_scan(arms, i + 1, ai2, gi2)
            }
        }
    }
}

/// The statements of an arm body: a block's statements, or the body as one statement.
pub open spec fn body_stmts(e: Expr) -> Seq<Stmt> {
    match e {
        Expr::Block { stmts, .. } => stmts@,
        _ => seq![Stmt::Expr { id: expr_id(e), expr: e }],
    }
}

/// The statements of an arm body: a block's statements, or the body as one statement.
pub fn expr_as_stmts(e: Expr) -> (r: Vec<Stmt>)
    ensures
        r@ == body_stmts(e),
{
    match e {
        Expr::Block { stmts, .. } => stmts,
        other => {
            let id = id_of_expr(&other);
            let mut v = Vec::new();
            v.push(Stmt::Expr { id, expr: other });
            assert(v@ =~= body_stmts(e));
            v
        },
    }
}

/// Whether a `match` statement suspends: on its whole scrutinee, in one arm
/// body, or on one arm's whole guard; the scrutinee type must be inferable
/// from literal patterns.
pub open spec fn match_check(s: Stmt) -> Result<bool, CorotError> {
    match s {
        Stmt::Expr { id, expr: Expr::Match { scrutinee, arms, .. } } => {
            let sh = has_await(*scrutinee);
            match arm_scan(arms@, 0, None, None) {
                Err(x) => Err(x),
                Ok((ai, gi)) => if !sh && ai is None && gi is None {
                    Ok(false)
                } else if sh && ai is None && gi is None {
                    match bare_base(*scrutinee) {
                        None => Err(err(ErrorKind::MatchScrutineeNotBare, Site::Expr(expr_id(*scrutinee)))),
                        Some(_) => match infer_from(arms@, None) {
                            Err(x) => Err(x),
                            Ok(_) => Ok(true),
                        },
                    }
                } else if !sh && ai is Some && gi is None {
                    let sus = arms@[ai->0 as int];
                    match infer_from(arms@, None) {
                        Err(x) => Err(x),
                        Ok(_) => if guard_has_await(sus) {
                            Err(err(ErrorKind::MatchGuardAndBody, Site::Arm(sus.id)))
                        } else {
                            match simple_pat(sus.pat) {
                                Err(x) => Err(x),
                                Ok(_) => match extract_check(body_stmts(sus.body)) {
                                    Err(x) => Err(x),
                                    Ok(_) => Ok(true),
                                },
                            }
                        },
                    }
                } else if !sh && ai is None && gi is Some {
                    let sus = arms@[gi->0 as int];
                    match infer_from(arms@, None) {
                        Err(x) => Err(x),
                        Ok(_) => if has_await(sus.body) {
                            Err(err(ErrorKind::MatchGuardAndBody, Site::Arm(sus.id)))
                        } else {
                            match simple_pat(sus.pat) {
                                Err(x) => Err(x),
                                Ok(_) => match sus.guard {
                                    Some(g) => match bare_base(g) {
                                        Some(_) => Ok(true),
                                        None => Err(err(ErrorKind::MatchGuardNotBare, Site::Expr(expr_id(g)))),
                                    },
                                    None => Ok(true),
                                },
                            }
                        },
                    }
                } else {
                    Err(err(ErrorKind::MatchManyAwaits, Site::Stmt(id)))
                },
            }
        },
        _ => Ok(false),
    }
}

/// What a suspending `match` statement becomes, as point number `index`.
pub open spec fn match_point(s: Stmt, index: nat, ap: AwaitPoint) -> bool {
    match s {
        Stmt::Expr { expr: Expr::Match { scrutinee, arms, .. }, .. } => {
            let (ai, gi) = arm_scan(arms@, 0, None, None)->Ok_0;
            if has_await(*scrutinee) {
                &&& ap.name@ == indexed_name("scrut"@, index)
                &&& ap.tmp@ == "__await_"@ + ap.name@
                &&& bare_base(*scrutinee) matches Some(b) && ap.base == Base::Expr(expr_id(b))
                &&& infer_from(arms@, None) matches Ok(t) && ap.wait_ty == Ty::Hinted(t)
                    && ap.kind == SuspendKind::MatchScrutinee { scrut_ty: t, arms }
            } else if ai is Some {
                let k = ai->0 as int;
                let sus = arms@[k];
                match ap.kind {
                    SuspendKind::MatchArm { scrutinee: s2, scrut_ty, pat_binds, arms_before, sus_arm, sus_pat, sus_guard, before_await, resume, after_await, arms_after, join_stmts } => {
                        &&& s2 == scrutinee
                        &&& infer_from(arms@, None) == Ok::<Hint, CorotError>(scrut_ty)
                        &&& pat_binds@ == pat_names(sus.pat)
                        &&& arms_before@ == arms@.take(k)
                        &&& arms_after@ == arms@.skip(k + 1)
                        &&& sus_arm == sus.id
                        &&& sus_pat == sus.pat
                        &&& sus_guard == sus.guard
                        &&& join_stmts@.len() == 0
                        &&& ap.base matches Base::Expr(b) && extracted(body_stmts(sus.body), before_await@, ap.name, ap.tmp, ap.wait_ty, b, resume, after_await@)
                    },
                    _ => false,
                }
            } else {
                let k = gi->0 as int;
                let sus = arms@[k];
                &&& ap.name@ == indexed_name("guard"@, index)
                &&& ap.tmp@ == "__await_"@ + ap.name@
                &&& ap.wait_ty == Ty::Hinted(Hint::Bool)
                &&& sus.guard matches Some(g) && (bare_base(g) matches Some(b) && ap.base == Base::Expr(expr_id(b)))
                &&& match ap.kind {
                    SuspendKind::MatchGuard { scrutinee: s2, scrut_ty, arms_before, sus_arm, sus_pat, sus_body, arms_after, join_stmts } => {
                        &&& s2 == scrutinee
                        &&& infer_from(arms@, None) == Ok::<Hint, CorotError>(scrut_ty)
                        &&& arms_before@ == arms@.take(k)
                        &&& arms_after@ == arms@.skip(k + 1)
                        &&& sus_arm == sus.id
                        &&& sus_pat == sus.pat
                        &&& sus_body == sus.body
                        &&& join_stmts@.len() == 0
                    },
                    _ => false,
                }
            }
        },
        _ => false,
    }
}

fn scan_arms(arms: &Vec<Arm>) -> (r: Result<(Option<usize>, Option<usize>), CorotError>)
    ensures
        match r {
            Ok((ai, gi)) => arm_scan(arms@, 0, None, None) == Ok::<(Option<nat>, Option<nat>), CorotError>(
                (
                    match ai {
                        Some(k) => Some(k as nat),
                        None => None,
                    },
                    match gi {
                        Some(k) => Some(k as nat),
                        None => None,
                    },
                ),
            ) && (ai matches Some(k) ==> k < arms.len() && has_await(arms@[k as int].body)) && (
            gi matches Some(k) ==> k < arms.len() && guard_has_await(arms@[k as int])),
            Err(x) => arm_scan(arms@, 0, None, None) == Err::<(Option<nat>, Option<nat>), CorotError>(x),
        },
{
    let mut ai: Option<usize> = None;
    let mut gi: Option<usize> = None;
    let mut i: usize = 0;
    while i < arms.len()
        invariant
            0 <= i <= arms.len(),
            ai matches Some(k) ==> k < i && has_await(arms@[k as int].body),
            gi matches Some(k) ==> k < i && guard_has_await(arms@[k as int]),
            arm_scan(arms@, 0, None, None) == arm_scan(
                arms@,
                i as nat,
                match ai {
                    Some(k) => Some(k as nat),
                    None => None,
                },
                match gi {
                    Some(k) => Some(k as nat),
                    None => None,
                },
            ),
        decreases arms.len() - i,
    {
        let a = &arms[i];
        if guard_contains_await(a) {
            if gi.is_some() {
                return Err(error(ErrorKind::MatchManyGuards, Site::Arm(a.id)));
            }
            gi = Some(i);
        }
        if contains_await(&a.body) {
            if ai.is_some() {
                return Err(error(ErrorKind::MatchManyArms, Site::Arm(a.id)));
            }
            ai = Some(i);
        }
        i += 1;
    }
    Ok((ai, gi))
}

/// Takes a suspending `match` statement apart as point number `index`; any
/// other statement comes back unchanged.
pub fn as_await_match_stmt(stmt: Stmt, index: usize) -> (r: Result<Result<AwaitPoint, Stmt>, CorotError>)
    ensures
        match r {
            Ok(Ok(ap)) => match_check(stmt) == Ok::<bool, CorotError>(true) && match_point(stmt, index as nat, ap)
                && ap.before@.len() == 0,
            Ok(Err(back)) => match_check(stmt) == Ok::<bool, CorotError>(false) && back == stmt,
            Err(x) => match_check(stmt) == Err::<bool, CorotError>(x),
        },
{
    match stmt {
        Stmt::Expr { id, expr } => match expr {
            Expr::Match { id: match_id, scrutinee, arms } => {
                let sh = contains_await(&scrutinee);
                let (ai, gi) = match scan_arms(&arms) {
                    Ok(p) => p,
                    Err(x) => {
                        return Err(x);
                    },
                };
                if !sh && ai.is_none() && gi.is_none() {
                    return Ok(Err(Stmt::Expr { id, expr: Expr::Match { id: match_id, scrutinee, arms } }));
                }
                if sh && ai.is_none() && gi.is_none() {
                    let base = match bare_await_base(&scrutinee) {
                        Some(b) => id_of_expr(b),
                        None => {
                            return Err(error(ErrorKind::MatchScrutineeNotBare, Site::Expr(id_of_expr(&scrutinee))));
                        },
                    };
                    let scrut_ty = match infer_match_scrut_ty(&arms) {
                        Ok(t) => t,
                        Err(x) => {
                            return Err(x);
                        },
                    };
                    let name = crate::text::indexed("scrut", index);
                    let tmp = join_text("__await_", name.as_str());
                    return Ok(Ok(AwaitPoint {
                        name,
                        tmp,
                        wait_ty: Ty::Hinted(scrut_ty),
                        base: Base::Expr(base),
                        before: Vec::new(),
                        kind: SuspendKind::MatchScrutinee { scrut_ty, arms },
                    }));
                }
                if !sh && ai.is_some() && gi.is_none() {
                    let k = ai.unwrap();
                    let scrut_ty = match infer_match_scrut_ty(&arms) {
                        Ok(t) => t,
                        Err(x) => {
                            return Err(x);
                        },
                    };
                    if guard_contains_await(&arms[k]) {
                        return Err(error(ErrorKind::MatchGuardAndBody, Site::Arm(arms[k].id)));
                    }
                    match check_simple_match_pat(&arms[k].pat) {
                        Ok(()) => {},
                        Err(x) => {
                            return Err(x);
                        },
                    }
                    let pat_binds = simple_pat_idents(&arms[k].pat);
                    let ghost all = arms@;
                    let mut arms = arms;
                    let arms_after = arms.split_off(k + 1);
                    let sus = arms.pop().unwrap();
                    assert(sus == all[k as int]);
                    assert(arms@ =~= all.take(k as int));
                    let Arm { id: sus_arm, pat: sus_pat, guard: sus_guard, body } = sus;
                    let stmts = expr_as_stmts(body);
                    return match extract_single_await(stmts) {
                        Ok((before_await, p, after_await)) => Ok(Ok(AwaitPoint {
                            name: p.name,
                            tmp: p.tmp,
                            wait_ty: p.wait_ty,
                            base: Base::Expr(p.base),
                            before: Vec::new(),
                            kind: SuspendKind::MatchArm {
                                scrutinee,
                                scrut_ty,
                                pat_binds,
                                arms_before: arms,
                                sus_arm,
                                sus_pat,
                                sus_guard,
                                before_await,
                                resume: p.resume,
                                after_await,
                                arms_after,
                                join_stmts: Vec::new(),
                            },
                        })),
                        Err(x) => Err(x),
                    };
                }
                if !sh && ai.is_none() && gi.is_some() {
                    let k = gi.unwrap();
                    let scrut_ty = match infer_match_scrut_ty(&arms) {
                        Ok(t) => t,
                        Err(x) => {
                            return Err(x);
                        },
                    };
                    if contains_await(&arms[k].body) {
                        return Err(error(ErrorKind::MatchGuardAndBody, Site::Arm(arms[k].id)));
                    }
                    match check_simple_match_pat(&arms[k].pat) {
                        Ok(()) => {},
                        Err(x) => {
                            return Err(x);
                        },
                    }
                    let base = match &arms[k].guard {
                        Some(g) => match bare_await_base(g) {
                            Some(b) => id_of_expr(b),
                            None => {
                                return Err(error(ErrorKind::MatchGuardNotBare, Site::Expr(id_of_expr(g))));
                            },
                        },
                        None => 0,
                    };
                    let ghost all = arms@;
                    let mut arms = arms;
                    let arms_after = arms.split_off(k + 1);
                    let sus = arms.pop().unwrap();
                    assert(sus == all[k as int]);
                    assert(arms@ =~= all.take(k as int));
                    let Arm { id: sus_arm, pat: sus_pat, guard: _, body: sus_body } = sus;
                    let name = crate::text::indexed("guard", index);
                    let tmp = join_text("__await_", name.as_str());
                    return Ok(Ok(AwaitPoint {
                        name,
                        tmp,
                        wait_ty: Ty::Hinted(Hint::Bool),
                        base: Base::Expr(base),
                        before: Vec::new(),
                        kind: SuspendKind::MatchGuard {
                            scrutinee,
                            scrut_ty,
                            arms_before: arms,
                            sus_arm,
                            sus_pat,
                            sus_body,
                            arms_after,
                            join_stmts: Vec::new(),
                        },
                    }));
                }
                Err(error(ErrorKind::MatchManyAwaits, Site::Stmt(id)))
            },
            other => Ok(Err(Stmt::Expr { id, expr: other })),
        },
        other => Ok(Err(other)),
    }
}

// ---------------------------------------------------------------------------
// Whole bodies.

/// Whether a statement is a suspension point (`Ok(true)`), is not one
/// (`Ok(false)`), or holds awaits in a way that is refused.
pub open spec fn await_check(s: Stmt) -> Result<bool, CorotError> {
    match let_else_check(s) {
        Err(x) => Err(x),
        Ok(true) => Ok(true),
        Ok(false) => await_check_plain(s),
    }
}

/// [`await_check`] for a statement that is no awaiting `let … else`.
pub open spec fn await_check_plain(s: Stmt) -> Result<bool, CorotError> {
    match wild_let_check(s) {
        Err(x) => Err(x),
        Ok(true) => Ok(true),
        Ok(false) => await_check_named(s),
    }
}

/// [`await_check`] for a statement that is no awaiting `let _` either.
pub open spec fn await_check_named(s: Stmt) -> Result<bool, CorotError> {
    match plain_let_check(s) {
        Err(x) => Err(x),
        Ok(true) => Ok(true),
        Ok(false) => match if_check(s) {
            Err(x) => Err(x),
            Ok(true) => Ok(true),
            Ok(false) => match loop_check(s) {
                Err(x) => Err(x),
                Ok(true) => Ok(true),
                Ok(false) => match for_check(s) {
                    Err(x) => Err(x),
                    Ok(true) => Ok(true),
                    Ok(false) => match_check(s),
                },
            },
        },
    }
}

/// What a suspending statement becomes as point number `index`.
pub open spec fn point_of(s: Stmt, index: nat, ap: AwaitPoint) -> bool {
    if let_else_check(s) == Ok::<bool, CorotError>(true) {
        let_else_point(s, index, ap)
    } else if wild_let_check(s) == Ok::<bool, CorotError>(true) {
        wild_let_point(s, index, ap)
    } else if plain_let_check(s) == Ok::<bool, CorotError>(true) {
        match ap.kind {
            SuspendKind::Plain { resume } => ap.base matches Base::Expr(b) && plain_fields(
                s,
                ap.name,
                ap.tmp,
                ap.wait_ty,
                b,
                resume,
            ),
            _ => false,
        }
    } else if if_check(s) == Ok::<bool, CorotError>(true) {
        if_point(s, index, ap)
    } else if loop_check(s) == Ok::<bool, CorotError>(true) {
        loop_point(s, ap)
    } else if for_check(s) == Ok::<bool, CorotError>(true) {
        for_point(s, ap)
    } else {
        match_point(s, index, ap)
    }
}

/// Takes a suspending statement apart as point number `index`; any other
/// statement comes back unchanged.
pub fn as_await_stmt(stmt: Stmt, index: usize) -> (r: Result<Result<AwaitPoint, Stmt>, CorotError>)
    ensures
        match r {
            Ok(Ok(ap)) => await_check(stmt) == Ok::<bool, CorotError>(true) && point_of(stmt, index as nat, ap)
                && ap.before@.len() == 0,
            Ok(Err(back)) => await_check(stmt) == Ok::<bool, CorotError>(false) && back == stmt,
            Err(x) => await_check(stmt) == Err::<bool, CorotError>(x),
        },
{
    let stmt = match as_await_let_else_stmt(stmt, index) {
        Err(x) => {
            return Err(x);
        },
        Ok(Ok(ap)) => {
            return Ok(Ok(ap));
        },
        Ok(Err(back)) => back,
    };
    let stmt = match as_await_wild_let_stmt(stmt, index) {
        Err(x) => {
            return Err(x);
        },
        Ok(Ok(ap)) => {
            return Ok(Ok(ap));
        },
        Ok(Err(back)) => back,
    };
    let stmt = match as_plain_await_let(stmt) {
        Err(x) => {
            return Err(x);
        },
        Ok(Ok(p)) => {
            return Ok(Ok(AwaitPoint {
                name: p.name,
                tmp: p.tmp,
                wait_ty: p.wait_ty,
                base: Base::Expr(p.base),
                before: Vec::new(),
                kind: SuspendKind::Plain { resume: p.resume },
            }));
        },
        Ok(Err(back)) => back,
    };
    let stmt = match as_await_if_stmt(stmt, index) {
        Err(x) => {
            return Err(x);
        },
        Ok(Ok(ap)) => {
            return Ok(Ok(ap));
        },
        Ok(Err(back)) => back,
    };
    let stmt = match as_await_loop_stmt(stmt) {
        Err(x) => {
            return Err(x);
        },
        Ok(Ok(ap)) => {
            return Ok(Ok(ap));
        },
        Ok(Err(back)) => back,
    };
    let stmt = match as_await_for_stmt(stmt) {
        Err(x) => {
            return Err(x);
        },
        Ok(Ok(ap)) => {
            return Ok(Ok(ap));
        },
        Ok(Err(back)) => back,
    };
    as_await_match_stmt(stmt, index)
}

/// The positions of the suspension points among `s[i..]`, or the first refusal.
pub open spec fn split_scan(s: Seq<Stmt>, i: nat) -> Result<Seq<nat>, CorotError>
    decreases s.len() - i,
{
    if i >= s.len() {
        Ok(Seq::empty())
    } else {
        match await_check(s[i as int]) {
            Err(x) => Err(x),
            Ok(true) => match split_scan(s, i + 1) {
                Ok(rest) => Ok(seq![i] + rest),
                Err(x) => Err(x),
            },
            Ok(false) => if stmt_has_await(s[i as int]) {
                Err(err(ErrorKind::UnsupportedPlacement, Site::Stmt(stmt_id(s[i as int]))))
            } else {
                split_scan(s, i + 1)
            },
        }
    }
}

/// Where the statements before the `j`-th point start.
pub open spec fn seg_start(pos: Seq<nat>, j: int) -> int {
    if j <= 0 {
        0
    } else {
        pos[j - 1] + 1 as int
    }
}

/// A body split at the points at positions `pos`: point `j` describes the
/// statement at `pos[j]` as point number `j` and holds the statements since
/// the previous point; the rest follow the last point.
pub open spec fn split_into(s: Seq<Stmt>, pos: Seq<nat>, awaits: Seq<AwaitPoint>, after_last: Seq<Stmt>) -> bool {
    &&& awaits.len() == pos.len()
    &&& forall|j: int| #![trigger pos[j]] 0 <= j < pos.len() ==> seg_start(pos, j) <= pos[j] < s.len()
    &&& forall|j: int|
        #![trigger awaits[j]]
        0 <= j < awaits.len() ==> point_of(s[pos[j] as int], j as nat, awaits[j]) && awaits[j].before@
            == s.subrange(seg_start(pos, j), pos[j] as int)
    &&& after_last == s.skip(seg_start(pos, pos.len() as int))
}

/// Splits a function body at its suspension points: each point with the
/// statements that precede it, and the statements after the last one.
#[verifier::loop_isolation(false)]
#[verifier::rlimit(40)]
#[verifier::spinoff_prover]
pub fn split_awaits(stmts: Vec<Stmt>) -> (r: Result<(Vec<AwaitPoint>, Vec<Stmt>), CorotError>)
    ensures
        match r {
            Ok((awaits, after_last)) => split_scan(stmts@, 0) matches Ok(pos) && split_into(
                stmts@,
                pos,
                awaits@,
                after_last@,
            ),
            Err(x) => split_scan(stmts@, 0) == Err::<Seq<nat>, CorotError>(x),
        },
{
    let ghost s = stmts@;
    assert(s.len() == stmts.len());
    let ghost mut pos: Seq<nat> = Seq::empty();
    let mut rest = stmts;
    let mut awaits: Vec<AwaitPoint> = Vec::new();
    let mut current: Vec<Stmt> = Vec::new();
    let mut i: usize = 0;
    assert(s.skip(0) =~= s);
    while rest.len() > 0
        invariant
            rest@ == s.skip(i as int),
            i <= s.len(),
            s.len() <= usize::MAX,
            awaits@.len() == pos.len(),
            forall|j: int| #![trigger pos[j]] 0 <= j < pos.len() ==> seg_start(pos, j) <= pos[j] < i,
            seg_start(pos, pos.len() as int) <= i,
            forall|j: int|
                #![trigger awaits@[j]]
                0 <= j < awaits@.len() ==> point_of(s[pos[j] as int], j as nat, awaits@[j]) && awaits@[j].before@
                    == s.subrange(seg_start(pos, j), pos[j] as int),
            current@ == s.subrange(seg_start(pos, pos.len() as int), i as int),
            split_scan(s, 0) == match split_scan(s, i as nat) {
                Ok(r) => Ok(pos + r),
                Err(x) => Err(x),
            },
        decreases rest.len(),
    {
        let st = rest.remove(0);
        assert(st == s[i as int]);
        assert(rest@ =~= s.skip(i + 1));
        let index = awaits.len();
        match as_await_stmt(st, index) {
            Err(x) => {
                return Err(x);
            },
            Ok(Ok(ap)) => {
                let mut ap = ap;
                ap.before = current;
                current = Vec::new();
                let ghost old_pos = pos;
                proof {
                    pos = pos.push(i as nat);
                    assert forall|j: int| 0 <= j < old_pos.len() implies seg_start(pos, j) == seg_start(old_pos, j) by {}
                    assert(pos + split_scan(s, (i + 1) as nat)->Ok_0 =~= old_pos + (seq![i as nat] + split_scan(s, (i + 1) as nat)->Ok_0));
                }
                awaits.push(ap);
                assert(current@ =~= s.subrange(seg_start(pos, pos.len() as int), i + 1));
            },
            Ok(Err(back)) => {
                if stmt_contains_await(&back) {
                    return Err(error(ErrorKind::UnsupportedPlacement, Site::Stmt(id_of_stmt(&back))));
                }
                current.push(back);
                assert(current@ =~= s.subrange(seg_start(pos, pos.len() as int), i + 1));
            },
        }
        i += 1;
    }
    assert(s.skip(seg_start(pos, pos.len() as int)) =~= current@);
    assert(pos + Seq::<nat>::empty() =~= pos);
    Ok((awaits, current))
}

// ---------------------------------------------------------------------------
// Joins.

/// Kinds after whose statement control meets again in a join state.
pub open spec fn needs_join_kind(k: SuspendKind) -> bool {
    match k {
        SuspendKind::IfThen { .. } | SuspendKind::IfElse { .. } | SuspendKind::Loop { .. }
        | SuspendKind::For { .. } | SuspendKind::MatchArm { .. } | SuspendKind::MatchGuard {
            ..
        } => true,
        _ => false,
    }
}

/// Whether control meets again after this kind of point.
pub fn needs_join(k: &SuspendKind) -> (r: bool)
    ensures
        r == needs_join_kind(*k),
{
    match k {
        SuspendKind::IfThen { .. } | SuspendKind::IfElse { .. } | SuspendKind::Loop { .. }
        | SuspendKind::For { .. } | SuspendKind::MatchArm { .. } | SuspendKind::MatchGuard {
            ..
        } => true,
        _ => false,
    }
}

/// The statements run in a join state, for kinds that have one.
pub open spec fn join_of(k: SuspendKind) -> Seq<Stmt> {
    match k {
        SuspendKind::IfThen { join_stmts, .. } => join_stmts@,
        SuspendKind::IfElse { join_stmts, .. } => join_stmts@,
        SuspendKind::Loop { join_stmts, .. } => join_stmts@,
        SuspendKind::For { join_stmts, .. } => join_stmts@,
        SuspendKind::MatchArm { join_stmts, .. } => join_stmts@,
        SuspendKind::MatchGuard { join_stmts, .. } => join_stmts@,
        _ => Seq::empty(),
    }
}

/// `a` and `b` differ at most in their join statements.
pub open spec fn same_but_join(a: SuspendKind, b: SuspendKind) -> bool {
    match (a, b) {
        (
            SuspendKind::IfThen { prior, cond, before_await, resume, after_await, else_branch, .. },
            SuspendKind::IfThen { prior: p2, cond: c2, before_await: b2, resume: r2, after_await: a2, else_branch: e2, .. },
        ) => prior == p2 && cond == c2 && before_await == b2 && resume == r2 && after_await == a2 && else_branch == e2,
        (
            SuspendKind::IfElse { prior, cond, then_branch, before_await, resume, after_await, .. },
            SuspendKind::IfElse { prior: p2, cond: c2, then_branch: t2, before_await: b2, resume: r2, after_await: a2, .. },
        ) => prior == p2 && cond == c2 && then_branch == t2 && before_await == b2 && resume == r2 && after_await == a2,
        (
            SuspendKind::Loop { label, cond, before_await, resume, after_await, .. },
            SuspendKind::Loop { label: l2, cond: c2, before_await: b2, resume: r2, after_await: a2, .. },
        ) => label == l2 && cond == c2 && before_await == b2 && resume == r2 && after_await == a2,
        (
            SuspendKind::For { label, item, source, iter_expr, iter_await_base, has_body_await, before_await, resume, after_await, .. },
            SuspendKind::For { label: l2, item: i2, source: s2, iter_expr: x2, iter_await_base: ib2, has_body_await: h2, before_await: b2, resume: r2, after_await: a2, .. },
        ) => label == l2 && item == i2 && source == s2 && iter_expr == x2 && iter_await_base == ib2 && has_body_await == h2
            && before_await == b2 && resume == r2 && after_await == a2,
        (
            SuspendKind::MatchArm { scrutinee, scrut_ty, pat_binds, arms_before, sus_arm, sus_pat, sus_guard, before_await, resume, after_await, arms_after, .. },
            SuspendKind::MatchArm { scrutinee: s2, scrut_ty: t2, pat_binds: p2, arms_before: ab2, sus_arm: sa2, sus_pat: sp2, sus_guard: sg2, before_await: b2, resume: r2, after_await: a2, arms_after: aa2, .. },
        ) => scrutinee == s2 && scrut_ty == t2 && pat_binds == p2 && arms_before == ab2 && sus_arm == sa2
            && sus_pat == sp2 && sus_guard == sg2 && before_await == b2 && resume == r2 && after_await == a2
            && arms_after == aa2,
        (
            SuspendKind::MatchGuard { scrutinee, scrut_ty, arms_before, sus_arm, sus_pat, sus_body, arms_after, .. },
            SuspendKind::MatchGuard { scrutinee: s2, scrut_ty: t2, arms_before: ab2, sus_arm: sa2, sus_pat: sp2, sus_body: sb2, arms_after: aa2, .. },
        ) => scrutinee == s2 && scrut_ty == t2 && arms_before == ab2 && sus_arm == sa2 && sus_pat == sp2
            && sus_body == sb2 && arms_after == aa2,
        _ => a == b,
    }
}

/// `k` with `join` as its join statements.
fn set_join(k: SuspendKind, join: Vec<Stmt>) -> (r: SuspendKind)
    requires
        needs_join_kind(k),
    ensures
        same_but_join(k, r),
        needs_join_kind(r),
        join_of(r) == join@,
{
    match k {
        SuspendKind::IfThen { prior, cond, before_await, resume, after_await, else_branch, .. } =>
            SuspendKind::IfThen { prior, cond, before_await, resume, after_await, else_branch, join_stmts: join },
        SuspendKind::IfElse { prior, cond, then_branch, before_await, resume, after_await, .. } =>
            SuspendKind::IfElse { prior, cond, then_branch, before_await, resume, after_await, join_stmts: join },
        SuspendKind::Loop { label, cond, before_await, resume, after_await, .. } =>
            SuspendKind::Loop { label, cond, before_await, resume, after_await, join_stmts: join },
        SuspendKind::For { label, item, source, iter_expr, iter_await_base, has_body_await, before_await, resume, after_await, .. } =>
            SuspendKind::For {
                label,
                item,
                source,
                iter_expr,
                iter_await_base,
                has_body_await,
                before_await,
                resume,
                after_await,
                join_stmts: join,
            },
        SuspendKind::MatchArm { scrutinee, scrut_ty, pat_binds, arms_before, sus_arm, sus_pat, sus_guard, before_await, resume, after_await, arms_after, .. } =>
            SuspendKind::MatchArm {
                scrutinee,
                scrut_ty,
                pat_binds,
                arms_before,
                sus_arm,
                sus_pat,
                sus_guard,
                before_await,
                resume,
                after_await,
                arms_after,
                join_stmts: join,
            },
        SuspendKind::MatchGuard { scrutinee, scrut_ty, arms_before, sus_arm, sus_pat, sus_body, arms_after, .. } =>
            SuspendKind::MatchGuard {
                scrutinee,
                scrut_ty,
                arms_before,
                sus_arm,
                sus_pat,
                sus_body,
                arms_after,
                join_stmts: join,
            },
        other => other,
    }
}

/// The statements that follow point `i` until the next point or the end.
pub open spec fn follows(a: Seq<AwaitPoint>, after_last: Seq<Stmt>, i: int) -> Seq<Stmt> {
    if i + 1 < a.len() {
        a[i + 1].before@
    } else {
        after_last
    }
}

/// The points after moving, for each point that joins, the statements that
/// follow it into its join state.
pub open spec fn joins_assigned(
    a: Seq<AwaitPoint>,
    after_last: Seq<Stmt>,
    out: Seq<AwaitPoint>,
    out_after: Seq<Stmt>,
) -> bool {
    &&& out.len() == a.len()
    &&& forall|i: int|
        #![trigger out[i]]
        0 <= i < a.len() ==> {
            &&& out[i].name == a[i].name
            &&& out[i].tmp == a[i].tmp
            &&& out[i].wait_ty == a[i].wait_ty
            &&& out[i].base == a[i].base
            &&& same_but_join(a[i].kind, out[i].kind)
            &&& needs_join_kind(out[i].kind) == needs_join_kind(a[i].kind)
            &&& (needs_join_kind(a[i].kind) ==> join_of(out[i].kind) == follows(a, after_last, i))
            &&& out[i].before@ == if i > 0 && needs_join_kind(a[i - 1].kind) {
                Seq::empty()
            } else {
                a[i].before@
            }
        }
    &&& out_after == if a.len() > 0 && needs_join_kind(a[a.len() - 1].kind) {
        Seq::empty()
    } else {
        after_last
    }
}

/// Moves the statements that follow each joining point (up to the next
/// point, or the end of the body) into that point's join state.
#[verifier::loop_isolation(false)]
pub fn assign_join_stmts(awaits: Vec<AwaitPoint>, after_last: Vec<Stmt>) -> (r: (Vec<AwaitPoint>, Vec<Stmt>))
    ensures
        joins_assigned(awaits@, after_last@, r.0@, r.1@),
{
    let ghost a = awaits@;
    let ghost l = after_last@;
    let n = awaits.len();
    // Take each point apart, keeping the statements before it aside.
    let mut rest = awaits;
    let mut heads: Vec<(String, String, Ty, Base, SuspendKind)> = Vec::new();
    let mut befores: Vec<Vec<Stmt>> = Vec::new();
    while rest.len() > 0
        invariant
            heads@.len() == befores@.len(),
            heads@.len() + rest@.len() == n,
            n == a.len(),
            rest@ == a.skip(heads@.len() as int),
            forall|j: int|
                #![trigger heads@[j]]
                0 <= j < heads@.len() ==> heads@[j] == (a[j].name, a[j].tmp, a[j].wait_ty, a[j].base, a[j].kind),
            forall|j: int| #![trigger befores@[j]] 0 <= j < befores@.len() ==> befores@[j]@ == a[j].before@,
        decreases rest.len(),
    {
        let ap = rest.remove(0);
        assert(ap == a[heads@.len() as int]);
        assert(rest@ =~= a.skip(heads@.len() + 1 as int));
        let AwaitPoint { name, tmp, wait_ty, base, before, kind } = ap;
        heads.push((name, tmp, wait_ty, base, kind));
        befores.push(before);
    }
    let ghost bs0 = befores@;
    befores.push(after_last);
    assert(befores@ == bs0.push(after_last));
    assert(befores@.len() == n + 1);
    assert(forall|j: int| 0 <= j < n ==> befores@[j]@ == a[j].before@);
    assert(befores@[n as int]@ == l);
    // Rebuild, handing what follows a joining point to its join state.
    let mut out: Vec<AwaitPoint> = Vec::new();
    let ghost bs1 = befores@;
    let mut cur_before = befores.remove(0);
    assert(cur_before == bs1[0]);
    assert(forall|j: int| 0 <= j < befores@.len() ==> befores@[j] == bs1[j + 1]);
    assert(cur_before@ == if 0 < n { a[0].before@ } else { l });
    let mut i: usize = 0;
    while i < n
        invariant
            0 <= i <= n,
            n == a.len(),
            heads@.len() == n - i,
            befores@.len() == n - i,
            forall|j: int|
                #![trigger heads@[j]]
                0 <= j < heads@.len() ==> heads@[j] == (a[j + i].name, a[j + i].tmp, a[j + i].wait_ty, a[j + i].base, a[j + i].kind),
            forall|j: int|
                #![trigger befores@[j]]
                0 <= j < befores@.len() ==> befores@[j]@ == if j + i + 1 < n {
                    a[j + i + 1].before@
                } else {
                    l
                },
            cur_before@ == if i > 0 && needs_join_kind(a[i - 1].kind) {
                Seq::empty()
            } else if i < n {
                a[i as int].before@
            } else {
                l
            },
            out@.len() == i,
            forall|j: int|
                #![trigger out@[j]]
                0 <= j < i ==> {
                    &&& out@[j].name == a[j].name
                    &&& out@[j].tmp == a[j].tmp
                    &&& out@[j].wait_ty == a[j].wait_ty
                    &&& out@[j].base == a[j].base
                    &&& same_but_join(a[j].kind, out@[j].kind)
                    &&& needs_join_kind(out@[j].kind) == needs_join_kind(a[j].kind)
                    &&& (needs_join_kind(a[j].kind) ==> join_of(out@[j].kind) == follows(a, l, j))
                    &&& out@[j].before@ == if j > 0 && needs_join_kind(a[j - 1].kind) {
                        Seq::empty()
                    } else {
                        a[j].before@
                    }
                },
        decreases n - i,
    {
        let (name, tmp, wait_ty, base, kind) = heads.remove(0);
        let next = befores.remove(0);
        let joins = needs_join(&kind);
        let (kind, next_before) = if joins {
            (set_join(kind, next), Vec::new())
        } else {
            (kind, next)
        };
        proof {
            if !joins {
                assert(same_but_join(a[i as int].kind, kind));
            }
        }
        out.push(AwaitPoint { name, tmp, wait_ty, base, before: cur_before, kind });
        cur_before = next_before;
        i += 1;
        proof {
            assert forall|j: int| #![trigger heads@[j]] 0 <= j < heads@.len() implies heads@[j] == (
                a[j + i].name,
                a[j + i].tmp,
                a[j + i].wait_ty,
                a[j + i].base,
                a[j + i].kind,
            ) by {}
        }
    }
    (out, cur_before)
}

// ---------------------------------------------------------------------------
// What splitting keeps.

/// The top-level statements of a body as the planned states run them, from
/// point `j` on: each point's preceding statements, the point's own
/// statement (at `pos`), its join statements; then `last`.
pub open spec fn layout(s: Seq<Stmt>, pos: Seq<nat>, out: Seq<AwaitPoint>, j: int, last: Seq<Stmt>) -> Seq<Stmt>
    decreases out.len() - j,
{
    if j < 0 || j >= out.len() {
        last
    } else {
        out[j].before@ + seq![s[pos[j] as int]] + join_of(out[j].kind) + layout(s, pos, out, j + 1, last)
    }
}

/// The statements a state runs between point `j` and the next point.
spec fn next_before(out: Seq<AwaitPoint>, out_after: Seq<Stmt>, j: int) -> Seq<Stmt> {
    if j + 1 < out.len() {
        out[j + 1].before@
    } else {
        out_after
    }
}

/// Where the statements after point `j` end.
spec fn next_pos(s: Seq<Stmt>, pos: Seq<nat>, j: int) -> int {
    if j + 1 < pos.len() {
        pos[j + 1] as int
    } else {
        s.len() as int
    }
}

/// What the layout needs of a split body, as plain sequence facts.
spec fn glued(s: Seq<Stmt>, pos: Seq<nat>, out: Seq<AwaitPoint>, out_after: Seq<Stmt>) -> bool {
    &&& pos.len() == out.len()
    &&& forall|j: int| #![trigger pos[j]] 0 <= j < pos.len() ==> pos[j] < next_pos(s, pos, j) <= s.len()
    &&& forall|j: int|
        #![trigger out[j]]
        0 <= j < out.len() ==> join_of(out[j].kind) + next_before(out, out_after, j) == s.subrange(
            pos[j] + 1int,
            next_pos(s, pos, j),
        )
    &&& out.len() > 0 ==> out[0].before@ == s.subrange(0, pos[0] as int)
    &&& out.len() == 0 ==> out_after == s
}

#[verifier::rlimit(40)]
#[verifier::spinoff_prover]
proof fn lemma_glued(
    s: Seq<Stmt>,
    pos: Seq<nat>,
    a: Seq<AwaitPoint>,
    l: Seq<Stmt>,
    out: Seq<AwaitPoint>,
    out_after: Seq<Stmt>,
)
    requires
        split_into(s, pos, a, l),
        joins_assigned(a, l, out, out_after),
    ensures
        glued(s, pos, out, out_after),
{
    let n = pos.len() as int;
    assert forall|j: int| #![trigger pos[j]] 0 <= j < n implies pos[j] < next_pos(s, pos, j) <= s.len() by {
        assert(seg_start(pos, j) <= pos[j] < s.len());
        if j + 1 < n {
            assert(seg_start(pos, j + 1) <= pos[j + 1] < s.len());
        }
    }
    assert forall|j: int|
        #![trigger out[j]]
        0 <= j < n implies join_of(out[j].kind) + next_before(out, out_after, j) == s.subrange(
            pos[j] + 1int,
            next_pos(s, pos, j),
        ) by {
        assert(seg_start(pos, j) <= pos[j] < s.len());
        let mid = if j + 1 < n { a[j + 1].before@ } else { l };
        if j + 1 < n {
            assert(seg_start(pos, j + 1) <= pos[j + 1] < s.len());
            assert(a[j + 1].before@ == s.subrange(seg_start(pos, j + 1), pos[j + 1] as int));
            assert(out[j + 1].before@ == out[j + 1].before@);
        } else {
            assert(l == s.skip(seg_start(pos, n)));
            assert(s.skip(pos[j] + 1int) =~= s.subrange(pos[j] + 1int, s.len() as int));
        }
        assert(out[j].kind == out[j].kind);
        if needs_join_kind(a[j].kind) {
            assert(join_of(out[j].kind) == follows(a, l, j));
            assert(next_before(out, out_after, j) =~= Seq::<Stmt>::empty());
            assert(join_of(out[j].kind) + next_before(out, out_after, j) =~= mid);
        } else {
            assert(!needs_join_kind(out[j].kind));
            assert(join_of(out[j].kind) =~= Seq::<Stmt>::empty());
            assert(next_before(out, out_after, j) == mid);
            assert(join_of(out[j].kind) + next_before(out, out_after, j) =~= mid);
        }
    }
    if n > 0 {
        assert(seg_start(pos, 0) <= pos[0] < s.len());
        assert(out[0].before@ == a[0].before@);
    } else {
        assert(s.skip(0) =~= s);
    }
}

#[verifier::rlimit(40)]
#[verifier::spinoff_prover]
proof fn lemma_layout_tail(s: Seq<Stmt>, pos: Seq<nat>, out: Seq<AwaitPoint>, out_after: Seq<Stmt>, j: int)
    requires
        glued(s, pos, out, out_after),
        0 <= j < out.len(),
    ensures
        seq![s[pos[j] as int]] + join_of(out[j].kind) + layout(s, pos, out, j + 1, out_after) == s.skip(pos[j] as int),
    decreases out.len() - j,
{
    let pj = pos[j] as int;
    let q = next_pos(s, pos, j);
    assert(pj < q <= s.len());
    assert(join_of(out[j].kind) + next_before(out, out_after, j) == s.subrange(pj + 1, q));
    let rest = layout(s, pos, out, j + 1, out_after);
    if j + 1 < out.len() {
        lemma_layout_tail(s, pos, out, out_after, j + 1);
        assert(rest == out[j + 1].before@ + (seq![s[q]] + join_of(out[j + 1].kind) + layout(s, pos, out, j + 2, out_after)));
        assert(seq![s[pj]] + join_of(out[j].kind) + rest =~= seq![s[pj]] + (join_of(out[j].kind) + next_before(out, out_after, j)) + s.skip(q));
        assert(seq![s[pj]] + s.subrange(pj + 1, q) + s.skip(q) =~= s.skip(pj));
    } else {
        assert(rest == out_after);
        assert(seq![s[pj]] + join_of(out[j].kind) + rest =~= seq![s[pj]] + (join_of(out[j].kind) + next_before(out, out_after, j)));
        assert(seq![s[pj]] + s.subrange(pj + 1, q) =~= s.skip(pj));
    }
}

/// Splitting a body at its points and handing the statements that follow a
/// joining point to its join state keeps every top-level statement exactly
/// once and in order: the body is each point's preceding statements, the
/// point's statement and its join statements, one point after the other,
/// then the statements after the last point.
pub proof fn lemma_statements_kept(
    s: Seq<Stmt>,
    pos: Seq<nat>,
    a: Seq<AwaitPoint>,
    l: Seq<Stmt>,
    out: Seq<AwaitPoint>,
    out_after: Seq<Stmt>,
)
    requires
        split_into(s, pos, a, l),
        joins_assigned(a, l, out, out_after),
    ensures
        s == layout(s, pos, out, 0, out_after),
{
    lemma_glued(s, pos, a, l, out, out_after);
    if out.len() > 0 {
        lemma_layout_tail(s, pos, out, out_after, 0);
        let p0 = pos[0] as int;
        assert(p0 < next_pos(s, pos, 0) <= s.len());
        assert(layout(s, pos, out, 0, out_after) == out[0].before@ + (seq![s[p0]] + join_of(out[0].kind) + layout(s, pos, out, 1, out_after)));
        assert(s.subrange(0, p0) + s.skip(p0) =~= s);
    }
}


/// The coroutine type `C` when `b` is `call::<C>(child)`, possibly in
/// parentheses, with `C` written as a path.
pub open spec fn child_call(b: Expr) -> Option<Ty> {
    match strip_parens(b) {
        Expr::Node { kind: crate::syntax::NodeKind::Call, children, .. } => if children@.len() == 2 {
            match children@[0] {
                Expr::CallHelper { ty, .. } => match ty {
                    Ty::Written { last_segment: Some(_), .. } => Some(ty),
                    _ => None,
                },
                _ => None,
            }
        } else {
            None
        },
        _ => None,
    }
}

/// The child coroutine type `C` when a point of kind `k` is an awaiting
/// `let` (no `let … else`) whose await's base is `call::<C>(child)`: such a
/// point drives the child to completion.
pub open spec fn kind_child(k: SuspendKind) -> Option<Ty> {
    match k {
        SuspendKind::Plain { resume } => match resume.stmt {
            Stmt::Local { init: Some(e), diverge: None, .. } => match await_base_at(e, resume.path@) {
                Some(b) => child_call(b),
                None => None,
            },
            _ => None,
        },
        _ => None,
    }
}

/// The sub-expression at `path` when it is an await: its base.
pub fn base_at<'a>(e: &'a Expr, path: &Vec<usize>) -> (r: Option<&'a Expr>)
    ensures
        match r {
            Some(b) => await_base_at(*e, path@) == Some(*b),
            None => await_base_at(*e, path@) is None,
        },
{
    let mut at: &Expr = e;
    let mut j: usize = 0;
    assert(path@.skip(0) =~= path@);
    while j < path.len()
        invariant
            0 <= j <= path.len(),
            subexpr(*e, path@) == subexpr(*at, path@.skip(j as int)),
        decreases path.len() - j,
    {
        assert(path@.skip(j as int)[0] == path@[j as int]);
        assert(path@.skip(j as int).drop_first() =~= path@.skip(j + 1));
        let k = path[j];
        let next: &Expr = match at {
            Expr::Paren { inner, .. } => if k == 0 {
                &**inner
            } else {
                return None;
            },
            Expr::Node { children, .. } => if k < children.len() {
                &children[k]
            } else {
                return None;
            },
            _ => {
                return None;
            },
        };
        at = next;
        j += 1;
    }
    assert(path@.skip(j as int) =~= Seq::<usize>::empty());
    match at {
        Expr::Await { base, .. } => Some(&**base),
        _ => None,
    }
}

/// The child coroutine type a point of kind `k` drives, if any.
pub fn child_of(k: &SuspendKind) -> (r: Option<Ty>)
    ensures
        r == kind_child(*k),
{
    match k {
        SuspendKind::Plain { resume } => match &resume.stmt {
            Stmt::Local { init: Some(e), diverge: None, .. } => match base_at(e, &resume.path) {
                Some(b) => match unwrap_parens(b) {
                    Expr::Node { kind, children, .. } => {
                        if *kind != crate::syntax::NodeKind::Call || children.len() != 2 {
                            return None;
                        }
                        match &children[0] {
                            Expr::CallHelper { ty, .. } => match ty {
                                Ty::Written { last_segment: Some(_), .. } => Some(ty.clone()),
                                _ => None,
                            },
                            _ => None,
                        }
                    },
                    _ => None,
                },
                None => None,
            },
            _ => None,
        },
        _ => None,
    }
}

/// The awaiting `let` a point resumes, for the kinds that resume one.
pub open spec fn resume_of(k: SuspendKind) -> Option<Resume> {
    match k {
        SuspendKind::Plain { resume } => Some(resume),
        SuspendKind::IfThen { resume, .. } => Some(resume),
        SuspendKind::IfElse { resume, .. } => Some(resume),
        SuspendKind::Loop { resume, .. } => Some(resume),
        SuspendKind::MatchArm { resume, .. } => Some(resume),
        SuspendKind::For { resume, .. } => resume,
        _ => None,
    }
}

/// The await that the resumed `let` of `r` has at its path stands there,
/// and its base is the expression numbered `base`.
pub open spec fn resumes_await_of(r: Resume, base: Base) -> bool {
    r.stmt matches Stmt::Local { init: Some(e), .. } && (subexpr(e, r.path@) matches Some(Expr::Await { base: b, .. })
        && base == Base::Expr(expr_id(*b)))
}

proof fn lemma_plain_fields_resume(s: Stmt, name: String, tmp: String, wait_ty: Ty, base: usize, resume: Resume)
    requires
        plain_fields(s, name, tmp, wait_ty, base, resume),
    ensures
        resumes_await_of(resume, Base::Expr(base)),
{
    if let Stmt::Local { init: Some(e), .. } = s {
        lemma_split_reaches_await(e);
    }
}

proof fn lemma_else_resumes_its_await(e: Expr, cond: Box<Expr>, then_branch: Vec<Stmt>, prior: Seq<ChainArm>, ap: AwaitPoint)
    requires
        else_point(e, cond, then_branch, prior, ap.name, ap.tmp, ap.wait_ty, ap.base, ap.kind),
    ensures
        resume_of(ap.kind) matches Some(r) && resumes_await_of(r, ap.base),
    decreases e,
{
    match e {
        Expr::Block { stmts, .. } => {
            if let SuspendKind::IfElse { before_await, resume, .. } = ap.kind {
                if let Base::Expr(b) = ap.base {
                    lemma_plain_fields_resume(stmts@[before_await@.len() as int], ap.name, ap.tmp, ap.wait_ty, b, resume);
                }
            }
        },
        Expr::If { cond: c1, then_branch: t1, else_branch: e1, .. } => {
            let prior1 = prior.push(ChainArm { cond: *cond, body: then_branch });
            if stmts_have_await(t1@) {
                if let SuspendKind::IfThen { before_await, resume, .. } = ap.kind {
                    if let Base::Expr(b) = ap.base {
                        lemma_plain_fields_resume(t1@[before_await@.len() as int], ap.name, ap.tmp, ap.wait_ty, b, resume);
                    }
                }
            } else if let Some(b) = e1 {
                lemma_else_resumes_its_await(*b, c1, t1, prior1, ap);
            }
        },
        _ => {},
    }
}

/// A point resumes the very await it suspended on: when it is entered it
/// evaluates the base of the await that its resumed `let` has at the
/// resume path, and the settled value takes that await's place.
pub proof fn lemma_point_resumes_its_await(s: Stmt, index: nat, ap: AwaitPoint)
    requires
        point_of(s, index, ap),
        resume_of(ap.kind) is Some,
    ensures
        resumes_await_of(resume_of(ap.kind)->Some_0, ap.base),
{
    let r = resume_of(ap.kind)->Some_0;
    if let_else_check(s) == Ok::<bool, CorotError>(true) {
        if let Stmt::Local { init: Some(e), .. } = s {
            let p = val_arg_path();
            assert(p.len() == 1 && p[0] == 1);
            assert(p.drop_first() =~= Seq::<usize>::empty());
            if let Some(c) = child(e, 1) {
                assert(subexpr(c, p.drop_first()) == Some(c));
            }
        }
    } else if wild_let_check(s) == Ok::<bool, CorotError>(true) {
        if let Stmt::Local { init: Some(e), .. } = s {
            lemma_split_reaches_await(e);
        }
    } else if plain_let_check(s) == Ok::<bool, CorotError>(true) {
        if let SuspendKind::Plain { resume } = ap.kind {
            if let Base::Expr(b) = ap.base {
                lemma_plain_fields_resume(s, ap.name, ap.tmp, ap.wait_ty, b, resume);
            }
        }
    } else if if_check(s) == Ok::<bool, CorotError>(true) {
        if let Stmt::Expr { expr: Expr::If { cond, then_branch, else_branch, .. }, .. } = s {
            assert(if_point(s, index, ap));
            if has_await(*cond) {
            } else if stmts_have_await(then_branch@) {
                if let SuspendKind::IfThen { before_await, resume, .. } = ap.kind {
                    if let Base::Expr(b) = ap.base {
                        let t = then_branch@;
                        lemma_plain_fields_resume(t[before_await@.len() as int], ap.name, ap.tmp, ap.wait_ty, b, resume);
                    }
                }
            } else if let Some(eb) = else_branch {
                lemma_else_resumes_its_await(*eb, cond, then_branch, Seq::empty(), ap);
            }
        }
    } else if loop_check(s) == Ok::<bool, CorotError>(true) {
        if let Stmt::Expr { expr: Expr::Loop { body, .. }, .. } = s {
            if let SuspendKind::Loop { before_await, resume, .. } = ap.kind {
                if let Base::Expr(b) = ap.base {
                    lemma_plain_fields_resume(body@[before_await@.len() as int], ap.name, ap.tmp, ap.wait_ty, b, resume);
                }
            }
        }
        if let Stmt::Expr { expr: Expr::While { body, .. }, .. } = s {
            if let SuspendKind::Loop { before_await, resume, .. } = ap.kind {
                if let Base::Expr(b) = ap.base {
                    lemma_plain_fields_resume(body@[before_await@.len() as int], ap.name, ap.tmp, ap.wait_ty, b, resume);
                }
            }
        }
    } else if for_check(s) == Ok::<bool, CorotError>(true) {
        if let Stmt::Expr { expr: Expr::ForLoop { body, .. }, .. } = s {
            if let SuspendKind::For { before_await, resume: Some(rs), has_body_await, .. } = ap.kind {
                if has_body_await {
                    if let Base::Expr(b) = ap.base {
                        lemma_plain_fields_resume(body@[before_await@.len() as int], ap.name, ap.tmp, ap.wait_ty, b, rs);
                    }
                }
            }
        }
    } else {
        if let Stmt::Expr { expr: Expr::Match { scrutinee, arms, .. }, .. } = s {
            let (ai, gi) = arm_scan(arms@, 0, None, None)->Ok_0;
            if !has_await(*scrutinee) && ai is Some {
                let sus = arms@[ai->0 as int];
                if let SuspendKind::MatchArm { before_await, resume, .. } = ap.kind {
                    if let Base::Expr(b) = ap.base {
                        lemma_plain_fields_resume(body_stmts(sus.body)[before_await@.len() as int], ap.name, ap.tmp, ap.wait_ty, b, resume);
                    }
                }
            }
        }
    }
}


/// Handing statements to a join state changes no resumed `let`.
pub proof fn lemma_same_but_join_resume(k1: SuspendKind, k2: SuspendKind)
    requires
        same_but_join(k1, k2),
    ensures
        resume_of(k1) == resume_of(k2),
{
}

/// Once join statements are handed out, every point still resumes the
/// await it suspended on.
pub proof fn lemma_split_resumes_its_awaits(
    s: Seq<Stmt>,
    pos: Seq<nat>,
    a: Seq<AwaitPoint>,
    l: Seq<Stmt>,
    out: Seq<AwaitPoint>,
    out_after: Seq<Stmt>,
    i: int,
)
    requires
        split_into(s, pos, a, l),
        joins_assigned(a, l, out, out_after),
        0 <= i < out.len(),
        resume_of(out[i].kind) is Some,
    ensures
        resumes_await_of(resume_of(out[i].kind)->Some_0, out[i].base),
{
    assert(point_of(s[pos[i] as int], i as nat, a[i]));
    assert(out[i].base == a[i].base);
    lemma_same_but_join_resume(a[i].kind, out[i].kind);
    lemma_point_resumes_its_await(s[pos[i] as int], i as nat, a[i]);
}

} // verus!

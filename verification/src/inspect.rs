//! Reading the syntax model: where the first await is, what types literals
//! and patterns tell, which bindings a statement introduces.
use vstd::prelude::*;
use crate::error::{err, error, CorotError, ErrorKind, Site};
use crate::syntax::{
    contains_await, expr_id, exprs_have_await, has_await, id_of_expr, id_of_pat, pat_id, Arm,
    Expr, Hint, IntTy, Lit, NodeKind, Pat, Stmt, Ty,
};
use crate::text::same_text;

verus! {

// ---------------------------------------------------------------------------
// Awaits in expressions.

/// The base of `e` when `e` is `base.await`, possibly in parentheses.
pub open spec fn bare_base(e: Expr) -> Option<Expr>
    decreases e,
{
    match e {
        Expr::Await { base, .. } => Some(*base),
        Expr::Paren { inner, .. } => bare_base(*inner),
        _ => None,
    }
}

/// The base of a bare `expr.await`, looking through parentheses.
pub fn bare_await_base(e: &Expr) -> (r: Option<&Expr>)
    ensures
        match r {
            Some(b) => bare_base(*e) == Some(*b),
            None => bare_base(*e) is None,
        },
    decreases *e,
{
    match e {
        Expr::Await { base, .. } => Some(&**base),
        Expr::Paren { inner, .. } => {
            assert(decreases_to!(*e => **inner));
            bare_await_base(inner)
        },
        _ => None,
    }
}

/// `e` without the parentheses around it.
pub open spec fn strip_parens(e: Expr) -> Expr
    decreases e,
{
    match e {
        Expr::Paren { inner, .. } => strip_parens(*inner),
        _ => e,
    }
}

/// `e` without the parentheses around it.
pub fn unwrap_parens(e: &Expr) -> (r: &Expr)
    ensures
        *r == strip_parens(*e),
    decreases *e,
{
    match e {
        Expr::Paren { inner, .. } => {
            assert(decreases_to!(*e => **inner));
            unwrap_parens(inner)
        },
        _ => e,
    }
}

/// Node kinds inside which an await can be split out.
pub open spec fn splittable(k: NodeKind) -> bool {
    !(k == NodeKind::Let || k == NodeKind::Repeat || k == NodeKind::Return || k
        == NodeKind::Struct || k == NodeKind::Yield)
}

/// Index of the first expression of `s` that holds an await.
pub open spec fn first_await_index(s: Seq<Expr>) -> Option<nat>
    decreases s.len(),
{
    if s.len() == 0 {
        None
    } else if has_await(s[0]) {
        Some(0)
    } else {
        match first_await_index(s.drop_first()) {
            Some(k) => Some(k + 1),
            None => None,
        }
    }
}

/// Which child of a splittable node the split goes into: the left operand
/// of a binary node when it holds an await and else the right one, the
/// only operand of a unary node, and otherwise the first child that holds
/// an await.
pub open spec fn split_child(kind: NodeKind, cs: Seq<Expr>) -> Option<nat> {
    if (kind == NodeKind::Assign || kind == NodeKind::Binary || kind == NodeKind::Index) && cs.len() == 2 {
        if has_await(cs[0]) {
            Some(0)
        } else {
            Some(1)
        }
    } else if (kind == NodeKind::Cast || kind == NodeKind::Field || kind == NodeKind::Reference || kind
        == NodeKind::Try || kind == NodeKind::Unary) && cs.len() == 1 {
        Some(0)
    } else {
        first_await_index(cs)
    }
}

/// The path of child indices from `e` down to the await that is taken out
/// first (see [`split_child`]), or why there is none.
pub open spec fn await_split(e: Expr) -> Result<Seq<usize>, CorotError>
    decreases e,
{
    match e {
        Expr::Await { .. } => Ok(Seq::empty()),
        Expr::Paren { inner, .. } => match await_split(*inner) {
            Ok(p) => Ok(seq![0usize] + p),
            Err(x) => Err(x),
        },
        Expr::Node { id, kind, children } => if splittable(kind) {
            match split_child(kind, children@) {
                Some(k) => if k < children@.len() {
                    match await_split(children@[k as int]) {
                        Ok(p) => Ok(seq![k as usize] + p),
                        Err(x) => Err(x),
                    }
                } else {
                    Err(err(ErrorKind::AwaitNotInList, Site::CallSite))
                },
                None => Err(err(ErrorKind::AwaitNotInList, Site::CallSite)),
            }
        } else {
            Err(err(ErrorKind::CannotSplit, Site::Expr(id)))
        },
        _ => Err(err(ErrorKind::CannotSplit, Site::Expr(expr_id(e)))),
    }
}

/// The direct sub-expression of `e` at index `k`, for the nodes a split
/// path goes through.
pub open spec fn child(e: Expr, k: usize) -> Option<Expr> {
    match e {
        Expr::Paren { inner, .. } => if k == 0 {
            Some(*inner)
        } else {
            None
        },
        Expr::Node { children, .. } => if k < children@.len() {
            Some(children@[k as int])
        } else {
            None
        },
        _ => None,
    }
}

/// The sub-expression of `e` at `path`.
pub open spec fn subexpr(e: Expr, path: Seq<usize>) -> Option<Expr>
    decreases path.len(),
{
    if path.len() == 0 {
        Some(e)
    } else {
        match child(e, path[0]) {
            Some(c) => subexpr(c, path.drop_first()),
            None => None,
        }
    }
}

/// The base of the await at `path` in `e`.
pub open spec fn await_base_at(e: Expr, path: Seq<usize>) -> Option<Expr> {
    match subexpr(e, path) {
        Some(Expr::Await { base, .. }) => Some(*base),
        _ => None,
    }
}

proof fn lemma_first_await_index(s: Seq<Expr>)
    ensures
        first_await_index(s) matches Some(k) ==> k < s.len() && has_await(s[k as int]),
        first_await_index(s) is None ==> !exprs_have_await(s),
    decreases s.len(),
{
    if s.len() > 0 {
        lemma_first_await_index(s.drop_first());
    }
}

/// A split path leads to an await of the expression.
pub proof fn lemma_split_reaches_await(e: Expr)
    ensures
        await_split(e) matches Ok(p) ==> subexpr(e, p) matches Some(a) && a is Await,
    decreases e,
{
    match e {
        Expr::Paren { inner, .. } => {
            lemma_split_reaches_await(*inner);
            if let Ok(p) = await_split(*inner) {
                let q = seq![0usize] + p;
                assert(q[0] == 0);
                assert(q.drop_first() =~= p);
                assert(subexpr(e, q) == subexpr(*inner, p));
            }
        },
        Expr::Node { kind, children, .. } => {
            lemma_first_await_index(children@);
            if let Some(k) = split_child(kind, children@) {
                if k < children@.len() {
                    assert(decreases_to!(e => children));
                    lemma_split_reaches_await(children@[k as int]);
                    if let Ok(p) = await_split(children@[k as int]) {
                        let q = seq![k as usize] + p;
                        assert(children@.len() == children.len());
                        assert(q[0] == k);
                        assert(q.drop_first() =~= p);
                        assert(subexpr(e, q) == subexpr(children@[k as int], p));
                    }
                }
            }
        },
        _ => {},
    }
}

fn first_await_child(v: &Vec<Expr>) -> (r: Option<usize>)
    ensures
        match r {
            Some(k) => first_await_index(v@) == Some(k as nat) && k < v@.len(),
            None => first_await_index(v@) is None,
        },
{
    let mut i: usize = 0;
    assert(v@.skip(0) =~= v@);
    while i < v.len()
        invariant
            0 <= i <= v.len(),
            forall|j: int| 0 <= j < i ==> !has_await(#[trigger] v@[j]),
            first_await_index(v@) == match first_await_index(v@.skip(i as int)) {
                Some(k) => Some((k + i) as nat),
                None => None::<nat>,
            },
        decreases v.len() - i,
    {
        assert(v@.skip(i as int)[0] == v@[i as int]);
        assert(v@.skip(i as int).drop_first() =~= v@.skip(i + 1));
        if contains_await(&v[i]) {
            return Some(i);
        }
        i += 1;
    }
    assert(v@.skip(i as int).len() == 0);
    None
}

/// Finds the await that is taken out first and gives its path and its base.
pub fn split_first_await(e: &Expr) -> (r: Result<(Vec<usize>, &Expr), CorotError>)
    ensures
        match r {
            Ok((p, b)) => await_split(*e) == Ok::<Seq<usize>, CorotError>(p@) && await_base_at(*e, p@) == Some(*b),
            Err(x) => await_split(*e) == Err::<Seq<usize>, CorotError>(x),
        },
    decreases *e,
{
    proof {
        lemma_split_reaches_await(*e);
    }
    match e {
        Expr::Await { base, .. } => Ok((Vec::new(), &**base)),
        Expr::Paren { inner, .. } => {
            assert(decreases_to!(*e => **inner));
            match split_first_await(inner) {
                Ok((p, b)) => {
                    let mut q = p;
                    q.insert(0, 0);
                    assert(q@ =~= seq![0usize] + p@);
                    assert(q@.drop_first() =~= p@);
                    Ok((q, b))
                },
                Err(x) => Err(x),
            }
        },
        Expr::Node { id, kind, children } => {
            let can = match kind {
                NodeKind::Let | NodeKind::Repeat | NodeKind::Return | NodeKind::Struct
                | NodeKind::Yield => false,
                _ => true,
            };
            if !can {
                return Err(error(ErrorKind::CannotSplit, Site::Expr(*id)));
            }
            let binary = match kind {
                NodeKind::Assign | NodeKind::Binary | NodeKind::Index => true,
                _ => false,
            };
            let unary = match kind {
                NodeKind::Cast | NodeKind::Field | NodeKind::Reference | NodeKind::Try | NodeKind::Unary => true,
                _ => false,
            };
            let choice = if binary && children.len() == 2 {
                if contains_await(&children[0]) {
                    Some(0)
                } else {
                    Some(1)
                }
            } else if unary && children.len() == 1 {
                Some(0)
            } else {
                first_await_child(children)
            };
            assert(choice == match split_child(*kind, children@) {
                Some(k) => Some(k as usize),
                None => None::<usize>,
            });
            match choice {
                Some(k) => {
                    assert(decreases_to!(*e => *children));
                    assert(decreases_to!(*children => children@));
                    assert(decreases_to!(children@ => children@[k as int]));
                    match split_first_await(&children[k]) {
                        Ok((p, b)) => {
                            let mut q = p;
                            q.insert(0, k);
                            assert(q@ =~= seq![k] + p@);
                            assert(q@.drop_first() =~= p@);
                            Ok((q, b))
                        },
                        Err(x) => Err(x),
                    }
                },
                None => Err(error(ErrorKind::AwaitNotInList, Site::CallSite)),
            }
        },
        _ => Err(error(ErrorKind::CannotSplit, Site::Expr(id_of_expr(e)))),
    }
}

// ---------------------------------------------------------------------------
// Types told by literals.

/// The integer type a literal suffix names, if it names one.
pub open spec fn suffix_int(s: Seq<char>) -> Option<IntTy> {
    if s == ""@ || s == "i32"@ {
        Some(IntTy::I32)
    } else if s == "i64"@ {
        Some(IntTy::I64)
    } else if s == "u32"@ {
        Some(IntTy::U32)
    } else if s == "u64"@ {
        Some(IntTy::U64)
    } else if s == "usize"@ {
        Some(IntTy::Usize)
    } else if s == "isize"@ {
        Some(IntTy::Isize)
    } else {
        None
    }
}

/// The integer type a literal suffix names, if it names one.
pub fn suffix_int_type(s: &str) -> (r: Option<IntTy>)
    ensures
        r == suffix_int(s@),
{
    if same_text(s, "") || same_text(s, "i32") {
        Some(IntTy::I32)
    } else if same_text(s, "i64") {
        Some(IntTy::I64)
    } else if same_text(s, "u32") {
        Some(IntTy::U32)
    } else if same_text(s, "u64") {
        Some(IntTy::U64)
    } else if same_text(s, "usize") {
        Some(IntTy::Usize)
    } else if same_text(s, "isize") {
        Some(IntTy::Isize)
    } else {
        None
    }
}

/// The type of an integer literal pattern: the suffix's type, `i32` otherwise.
pub open spec fn int_lit_suffix(s: Seq<char>) -> IntTy {
    match suffix_int(s) {
        Some(t) => t,
        None => IntTy::I32,
    }
}

/// The type of an integer literal pattern: the suffix's type, `i32` otherwise.
pub fn int_lit_suffix_type(s: &str) -> (r: IntTy)
    ensures
        r == int_lit_suffix(s@),
{
    match suffix_int_type(s) {
        Some(t) => t,
        None => IntTy::I32,
    }
}

/// The integer type of a range end that is an integer literal with a known suffix.
pub open spec fn end_int(e: Option<Box<Expr>>) -> Option<IntTy> {
    match e {
        Some(b) => match *b {
            Expr::Lit { lit: Lit::Int { suffix }, .. } => suffix_int(suffix@),
            _ => None,
        },
        None => None,
    }
}

/// The integer type of a range end that is an integer literal with a known suffix.
pub fn int_lit_type(e: &Option<Box<Expr>>) -> (r: Option<IntTy>)
    ensures
        r == end_int(*e),
{
    match e {
        Some(b) => match &**b {
            Expr::Lit { lit: Lit::Int { suffix }, .. } => suffix_int_type(suffix.as_str()),
            _ => None,
        },
        None => None,
    }
}

/// The item type of a range literal (inside at most one pair of parentheses):
/// the type of its start literal, else of its end literal, else `i32`.
pub open spec fn range_item(e: Expr) -> Result<IntTy, CorotError> {
    let inner = match e {
        Expr::Paren { inner, .. } => *inner,
        _ => e,
    };
    match inner {
        Expr::Range { start, end, .. } => Ok(
            match end_int(start) {
                Some(t) => t,
                None => match end_int(end) {
                    Some(t) => t,
                    None => IntTy::I32,
                },
            },
        ),
        _ => Err(err(ErrorKind::ForNotRange, Site::Expr(expr_id(inner)))),
    }
}

/// The item type of a range literal; the iterator type is the range of it.
pub fn range_types(e: &Expr) -> (r: Result<IntTy, CorotError>)
    ensures
        r == range_item(*e),
{
    let inner: &Expr = match e {
        Expr::Paren { inner, .. } => &**inner,
        _ => e,
    };
    match inner {
        Expr::Range { start, end, .. } => {
            let t = match int_lit_type(start) {
                Some(t) => t,
                None => match int_lit_type(end) {
                    Some(t) => t,
                    None => IntTy::I32,
                },
            };
            Ok(t)
        },
        _ => Err(error(ErrorKind::ForNotRange, Site::Expr(id_of_expr(inner)))),
    }
}

/// The type `T` and the awaited base when `e` is the condition
/// `let PAT = val::<T>(base.await)` of an `if let`.
pub open spec fn let_val_await(e: Expr) -> Option<(Ty, Expr)> {
    match e {
        Expr::Node { kind: NodeKind::Let, children, .. } => if children@.len() == 1 {
            match children@[0] {
                Expr::Node { kind: NodeKind::Call, children: args, .. } => if args@.len() == 2 {
                    match (args@[0], args@[1]) {
                        (Expr::ValHelper { ty, .. }, Expr::Await { base, .. }) => Some((ty, *base)),
                        _ => None,
                    }
                } else {
                    None
                },
                _ => None,
            }
        } else {
            None
        },
        _ => None,
    }
}

/// The type `T` and the awaited base when `e` is `val::<T>(base.await)`.
pub open spec fn val_await(e: Expr) -> Option<(Ty, Expr)> {
    match e {
        Expr::Node { kind: NodeKind::Call, children: args, .. } => if args@.len() == 2 {
            match (args@[0], args@[1]) {
                (Expr::ValHelper { ty, .. }, Expr::Await { base, .. }) => Some((ty, *base)),
                _ => None,
            }
        } else {
            None
        },
        _ => None,
    }
}

/// The type and awaited base of `val::<T>(base.await)`.
pub fn val_awaited(e: &Expr) -> (r: Option<(&Ty, &Expr)>)
    ensures
        match r {
            Some((t, b)) => val_await(*e) == Some((*t, *b)),
            None => val_await(*e) is None,
        },
{
    match e {
        Expr::Node { kind, children: args, .. } => {
            if *kind != NodeKind::Call || args.len() != 2 {
                return None;
            }
            match (&args[0], &args[1]) {
                (Expr::ValHelper { ty, .. }, Expr::Await { base, .. }) => Some((ty, &**base)),
                _ => None,
            }
        },
        _ => None,
    }
}

/// Where the await of such a condition is: the scrutinee's argument.
pub open spec fn let_val_path() -> Seq<usize> {
    seq![0usize, 1usize]
}

/// The type and awaited base of an `if let PAT = val::<T>(base.await)` condition.
pub fn let_val_awaited(e: &Expr) -> (r: Option<(&Ty, &Expr)>)
    ensures
        match r {
            Some((t, b)) => let_val_await(*e) == Some((*t, *b)),
            None => let_val_await(*e) is None,
        },
{
    match e {
        Expr::Node { kind, children, .. } => {
            if *kind != NodeKind::Let || children.len() != 1 {
                return None;
            }
            match &children[0] {
                Expr::Node { kind: k2, children: args, .. } => {
                    if *k2 != NodeKind::Call || args.len() != 2 {
                        return None;
                    }
                    match (&args[0], &args[1]) {
                        (Expr::ValHelper { ty, .. }, Expr::Await { base, .. }) => Some((ty, &**base)),
                        _ => None,
                    }
                },
                _ => None,
            }
        },
        _ => None,
    }
}

/// What a `for` loop iterates, as far as its type can be told: a range of
/// an integer type, or a `T` given by `iter::<T>(…)`.
pub enum IterSource {
    Range(IntTy),
    Written(Ty),
}

/// The type `T` and the argument of `e` when `e` is `iter::<T>(arg)`,
/// possibly in parentheses.
pub open spec fn iter_call(e: Expr) -> Option<(Ty, Expr)> {
    match strip_parens(e) {
        Expr::Node { kind: NodeKind::Call, children, .. } => if children@.len() == 2 {
            match children@[0] {
                Expr::IterHelper { ty, .. } => Some((ty, children@[1])),
                _ => None,
            }
        } else {
            None
        },
        _ => None,
    }
}

/// What a `for` loop with an await in it iterates, and the awaited base
/// when the iterable itself is awaited: `iter::<T>(arg)` gives `T`, awaited
/// when `arg` is a bare await; otherwise the iterable, or the base it
/// awaits, must be a range literal.
pub open spec fn iter_check(e: Expr) -> Result<(IterSource, Option<Expr>), CorotError> {
    match iter_call(e) {
        Some((ty, arg)) => if !has_await(arg) {
            Ok((IterSource::Written(ty), None))
        } else {
            match bare_base(arg) {
                Some(b) => Ok((IterSource::Written(ty), Some(b))),
                None => Err(err(ErrorKind::IterableNotBare, Site::Expr(expr_id(arg)))),
            }
        },
        None => match bare_base(e) {
            Some(b) => match range_item(b) {
                Ok(t) => Ok((IterSource::Range(t), Some(b))),
                Err(x) => Err(x),
            },
            None => match range_item(e) {
                Ok(t) => Ok((IterSource::Range(t), None)),
                Err(x) => Err(x),
            },
        },
    }
}

/// The type and argument of `iter::<T>(arg)`.
fn iter_helper_call(e: &Expr) -> (r: Option<(&Ty, &Expr)>)
    ensures
        match r {
            Some((t, a)) => iter_call(*e) == Some((*t, *a)),
            None => iter_call(*e) is None,
        },
{
    match unwrap_parens(e) {
        Expr::Node { kind, children, .. } => {
            if *kind == NodeKind::Call && children.len() == 2 {
                match &children[0] {
                    Expr::IterHelper { ty, .. } => Some((ty, &children[1])),
                    _ => None,
                }
            } else {
                None
            }
        },
        _ => None,
    }
}

/// What a `for` loop iterates, with the id of the awaited base (its
/// parentheses stripped) when the iterable is awaited.
pub fn iter_source(e: &Expr) -> (r: Result<(IterSource, Option<usize>), CorotError>)
    ensures
        match r {
            Ok((src, b)) => iter_check(*e) matches Ok((s2, b2)) && src == s2 && b == match b2 {
                Some(x) => Some(expr_id(strip_parens(x))),
                None => None,
            },
            Err(x) => iter_check(*e) == Err::<(IterSource, Option<Expr>), CorotError>(x),
        },
{
    match iter_helper_call(e) {
        Some((ty, arg)) => {
            if !contains_await(arg) {
                Ok((IterSource::Written(ty.clone()), None))
            } else {
                match bare_await_base(arg) {
                    Some(b) => Ok((IterSource::Written(ty.clone()), Some(id_of_expr(unwrap_parens(b))))),
                    None => Err(error(ErrorKind::IterableNotBare, Site::Expr(id_of_expr(arg)))),
                }
            }
        },
        None => match bare_await_base(e) {
            Some(b) => match range_types(b) {
                Ok(t) => Ok((IterSource::Range(t), Some(id_of_expr(unwrap_parens(b))))),
                Err(x) => Err(x),
            },
            None => match range_types(e) {
                Ok(t) => Ok((IterSource::Range(t), None)),
                Err(x) => Err(x),
            },
        },
    }
}

/// The type of the iterator a `for` loop goes through.
pub open spec fn iter_ty_of(s: IterSource) -> Ty {
    match s {
        IterSource::Range(t) => Ty::RangeOf(t),
        IterSource::Written(ty) => Ty::IntoIter(Box::new(ty)),
    }
}

/// The type of the items a `for` loop binds.
pub open spec fn item_ty_of(s: IterSource) -> Ty {
    match s {
        IterSource::Range(t) => Ty::Hinted(Hint::Int(t)),
        IterSource::Written(ty) => Ty::Item(Box::new(ty)),
    }
}

/// The type of the iterable itself, which an awaited iterable settles to.
pub open spec fn iterable_ty_of(s: IterSource) -> Ty {
    match s {
        IterSource::Range(t) => Ty::RangeOf(t),
        IterSource::Written(ty) => ty,
    }
}

/// The type of the iterator a `for` loop goes through.
pub fn iter_ty(s: &IterSource) -> (r: Ty)
    ensures
        r == iter_ty_of(*s),
{
    match s {
        IterSource::Range(t) => Ty::RangeOf(*t),
        IterSource::Written(ty) => Ty::IntoIter(Box::new(ty.clone())),
    }
}

/// The type of the items a `for` loop binds.
pub fn item_ty(s: &IterSource) -> (r: Ty)
    ensures
        r == item_ty_of(*s),
{
    match s {
        IterSource::Range(t) => Ty::Hinted(Hint::Int(*t)),
        IterSource::Written(ty) => Ty::Item(Box::new(ty.clone())),
    }
}

/// The type of the iterable itself.
pub fn iterable_ty(s: &IterSource) -> (r: Ty)
    ensures
        r == iterable_ty_of(*s),
{
    match s {
        IterSource::Range(t) => Ty::RangeOf(*t),
        IterSource::Written(ty) => ty.clone(),
    }
}

// ---------------------------------------------------------------------------
// Types and names told by patterns.

/// The type a pattern tells, if any.
pub open spec fn pat_hint(p: Pat) -> Result<Option<Hint>, CorotError>
    decreases p,
{
    match p {
        Pat::Lit { id, lit } => match lit {
            Lit::Int { suffix } => Ok(Some(Hint::Int(int_lit_suffix(suffix@)))),
            Lit::Bool => Ok(Some(Hint::Bool)),
            Lit::Char => Ok(Some(Hint::Char)),
            Lit::Other => Err(err(ErrorKind::UnsupportedLiteralPattern, Site::Pat(id))),
        },
        Pat::Or { cases, .. } => or_hint(cases@),
        Pat::Ident { sub, .. } => match sub {
            Some(s) => pat_hint(*s),
            None => Ok(None),
        },
        Pat::Wild { .. } => Ok(None),
        Pat::Path { .. } => Ok(None),
        _ => Err(err(ErrorKind::CannotInferFromPattern, Site::Pat(pat_id(p)))),
    }
}

/// The type the first alternative that tells one tells.
pub open spec fn or_hint(s: Seq<Pat>) -> Result<Option<Hint>, CorotError>
    decreases s,
{
    if s.len() == 0 {
        Ok(None)
    } else {
        match pat_hint(s[0]) {
            Err(x) => Err(x),
            Ok(Some(t)) => Ok(Some(t)),
            Ok(None) => or_hint(s.drop_first()),
        }
    }
}

/// The type a pattern tells, if any.
pub fn pattern_type_hint(p: &Pat) -> (r: Result<Option<Hint>, CorotError>)
    ensures
        r == pat_hint(*p),
    decreases *p,
{
    match p {
        Pat::Lit { id, lit } => match lit {
            Lit::Int { suffix } => Ok(Some(Hint::Int(int_lit_suffix_type(suffix.as_str())))),
            Lit::Bool => Ok(Some(Hint::Bool)),
            Lit::Char => Ok(Some(Hint::Char)),
            Lit::Other => Err(error(ErrorKind::UnsupportedLiteralPattern, Site::Pat(*id))),
        },
        Pat::Or { cases, .. } => {
            assert(decreases_to!(*p => *cases));
            assert(decreases_to!(*cases => cases@));
            let mut i: usize = 0;
            assert(cases@.skip(0) =~= cases@);
            while i < cases.len()
                invariant
                    0 <= i <= cases.len(),
                    pat_hint(*p) == or_hint(cases@.skip(i as int)),
                    decreases_to!(*p => cases@),
                decreases cases.len() - i,
            {
                assert(cases@.skip(i as int)[0] == cases@[i as int]);
                assert(cases@.skip(i as int).drop_first() =~= cases@.skip(i + 1));
                assert(decreases_to!(cases@ => cases@[i as int]));
                match pattern_type_hint(&cases[i]) {
                    Err(x) => {
                        return Err(x);
                    },
                    Ok(Some(t)) => {
                        return Ok(Some(t));
                    },
                    Ok(None) => {},
                }
                i += 1;
            }
            Ok(None)
        },
        Pat::Ident { sub, .. } => match sub {
            Some(s) => {
                assert(decreases_to!(*p => *sub));
                assert(decreases_to!(*sub => **s));
                pattern_type_hint(s)
            },
            None => Ok(None),
        },
        Pat::Wild { .. } => Ok(None),
        Pat::Path { .. } => Ok(None),
        _ => Err(error(ErrorKind::CannotInferFromPattern, Site::Pat(id_of_pat(p)))),
    }
}

/// The scrutinee type the arms' patterns agree on.
pub open spec fn infer_from(arms: Seq<Arm>, found: Option<Hint>) -> Result<Hint, CorotError>
    decreases arms.len(),
{
    if arms.len() == 0 {
        match found {
            Some(t) => Ok(t),
            None => Err(err(ErrorKind::CannotInferScrutinee, Site::CallSite)),
        }
    } else {
        match pat_hint(arms[0].pat) {
            Err(x) => Err(x),
            Ok(Some(t)) => match found {
                Some(prev) => if prev != t {
                    Err(err(ErrorKind::ConflictingHints, Site::Pat(pat_id(arms[0].pat))))
                } else {
                    infer_from(arms.drop_first(), found)
                },
                None => infer_from(arms.drop_first(), Some(t)),
            },
            Ok(None) => infer_from(arms.drop_first(), found),
        }
    }
}

/// The scrutinee type of a `match`, from the literal patterns of its arms;
/// all such patterns must agree and at least one must be there.
pub fn infer_match_scrut_ty(arms: &Vec<Arm>) -> (r: Result<Hint, CorotError>)
    ensures
        r == infer_from(arms@, None),
{
    let mut found: Option<Hint> = None;
    let mut i: usize = 0;
    assert(arms@.skip(0) =~= arms@);
    while i < arms.len()
        invariant
            0 <= i <= arms.len(),
            infer_from(arms@, None) == infer_from(arms@.skip(i as int), found),
        decreases arms.len() - i,
    {
        assert(arms@.skip(i as int)[0] == arms@[i as int]);
        assert(arms@.skip(i as int).drop_first() =~= arms@.skip(i + 1));
        match pattern_type_hint(&arms[i].pat) {
            Err(x) => {
                return Err(x);
            },
            Ok(Some(t)) => match found {
                Some(prev) => {
                    if prev != t {
                        return Err(
                            error(ErrorKind::ConflictingHints, Site::Pat(id_of_pat(&arms[i].pat))),
                        );
                    }
                },
                None => {
                    found = Some(t);
                },
            },
            Ok(None) => {},
        }
        i += 1;
    }
    match found {
        Some(t) => Ok(t),
        None => Err(error(ErrorKind::CannotInferScrutinee, Site::CallSite)),
    }
}

/// Whether a suspending arm's pattern is simple: an identifier (with a
/// simple sub-pattern), a literal, an unqualified path, `_`, or `|` of those.
pub open spec fn simple_pat(p: Pat) -> Result<(), CorotError>
    decreases p,
{
    match p {
        Pat::Ident { sub, .. } => match sub {
            Some(s) => simple_pat(*s),
            None => Ok(()),
        },
        Pat::Wild { .. } => Ok(()),
        Pat::Lit { .. } => Ok(()),
        Pat::Path { qualified, id } => if !qualified {
            Ok(())
        } else {
            Err(err(ErrorKind::PatternNotSimple, Site::Pat(id)))
        },
        Pat::Or { cases, .. } => simple_pats(cases@),
        _ => Err(err(ErrorKind::PatternNotSimple, Site::Pat(pat_id(p)))),
    }
}

pub open spec fn simple_pats(s: Seq<Pat>) -> Result<(), CorotError>
    decreases s,
{
    if s.len() == 0 {
        Ok(())
    } else {
        match simple_pat(s[0]) {
            Err(x) => Err(x),
            Ok(()) => simple_pats(s.drop_first()),
        }
    }
}

/// Checks that a suspending arm's pattern is simple.
pub fn check_simple_match_pat(p: &Pat) -> (r: Result<(), CorotError>)
    ensures
        r == simple_pat(*p),
    decreases *p,
{
    match p {
        Pat::Ident { sub, .. } => match sub {
            Some(s) => {
                assert(decreases_to!(*p => *sub));
                assert(decreases_to!(*sub => **s));
                check_simple_match_pat(s)
            },
            None => Ok(()),
        },
        Pat::Wild { .. } => Ok(()),
        Pat::Lit { .. } => Ok(()),
        Pat::Path { qualified, id } => if !*qualified {
            Ok(())
        } else {
            Err(error(ErrorKind::PatternNotSimple, Site::Pat(*id)))
        },
        Pat::Or { cases, .. } => {
            assert(decreases_to!(*p => *cases));
            assert(decreases_to!(*cases => cases@));
            let mut i: usize = 0;
            assert(cases@.skip(0) =~= cases@);
            while i < cases.len()
                invariant
                    0 <= i <= cases.len(),
                    simple_pat(*p) == simple_pats(cases@.skip(i as int)),
                    decreases_to!(*p => cases@),
                decreases cases.len() - i,
            {
                assert(cases@.skip(i as int)[0] == cases@[i as int]);
                assert(cases@.skip(i as int).drop_first() =~= cases@.skip(i + 1));
                assert(decreases_to!(cases@ => cases@[i as int]));
                match check_simple_match_pat(&cases[i]) {
                    Err(x) => {
                        return Err(x);
                    },
                    Ok(()) => {},
                }
                i += 1;
            }
            Ok(())
        },
        _ => Err(error(ErrorKind::PatternNotSimple, Site::Pat(id_of_pat(p)))),
    }
}

} // verus!

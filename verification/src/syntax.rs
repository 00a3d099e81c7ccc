//! The part of a function body that the coroutine planner reads, as plain
//! values. Every node carries the id under which the caller keeps the
//! parsed syntax, so that a plan can name the pieces it reuses.
use vstd::prelude::*;

verus! {

/// Integer types that a literal suffix can name.
#[derive(PartialEq, Eq, Structural, Clone, Copy, Debug)]
pub enum IntTy {
    I32,
    I64,
    U32,
    U64,
    Usize,
    Isize,
}

/// A type inferred from a literal pattern.
#[derive(PartialEq, Eq, Structural, Clone, Copy, Debug)]
pub enum Hint {
    Bool,
    Char,
    Int(IntTy),
}

/// A type as the planner sees it.
pub enum Ty {
    /// A type written in the source, with the identifier of its last path
    /// segment when it is a path type.
    Written { id: usize, last_segment: Option<String> },
    /// `bool`, `char` or an integer type chosen by inference.
    Hinted(Hint),
    /// `::std::ops::Range<int>` for an inferred integer type.
    RangeOf(IntTy),
    /// `<T as IntoIterator>::IntoIter`: what iterating a `T` goes through.
    IntoIter(Box<Ty>),
    /// `<T as IntoIterator>::Item`: what iterating a `T` yields.
    Item(Box<Ty>),
    /// The effect enum of the coroutine type `C`: `C`'s path with `Effect`
    /// after its last segment.
    EffectOf(Box<Ty>),
}

impl Clone for Ty {
    fn clone(&self) -> (r: Self)
        ensures
            r == *self,
        decreases *self,
    {
        match self {
            Ty::Written { id, last_segment } => {
                let seg = match last_segment {
                    Some(s) => Some(s.clone()),
                    None => None,
                };
                Ty::Written { id: *id, last_segment: seg }
            },
            Ty::Hinted(h) => Ty::Hinted(*h),
            Ty::RangeOf(t) => Ty::RangeOf(*t),
            Ty::IntoIter(t) => {
                assert(decreases_to!(*self => **t));
                Ty::IntoIter(Box::new((**t).clone()))
            },
            Ty::Item(t) => {
                assert(decreases_to!(*self => **t));
                Ty::Item(Box::new((**t).clone()))
            },
            Ty::EffectOf(t) => {
                assert(decreases_to!(*self => **t));
                Ty::EffectOf(Box::new((**t).clone()))
            },
        }
    }
}

/// A literal.
pub enum Lit {
    /// An integer literal with its suffix (empty when there is none).
    Int { suffix: String },
    Bool,
    Char,
    Other,
}

/// A pattern.
pub enum Pat {
    /// `name`, `mut name` or `name @ sub`.
    Ident { id: usize, name: String, mutable: bool, sub: Option<Box<Pat>> },
    /// `pat: Ty`.
    Typed { id: usize, pat: Box<Pat>, ty: Ty },
    Wild { id: usize },
    Lit { id: usize, lit: Lit },
    /// A path pattern; `qualified` when it has a `<T as Trait>::` self part.
    Path { id: usize, qualified: bool },
    Or { id: usize, cases: Vec<Pat> },
    Other { id: usize },
}

/// Expression nodes whose sub-expressions are plain children.
#[derive(PartialEq, Eq, Structural, Clone, Copy, Debug)]
pub enum NodeKind {
    Array,
    Assign,
    Binary,
    Call,
    Cast,
    Field,
    Index,
    Let,
    MethodCall,
    Reference,
    Repeat,
    Return,
    Struct,
    Try,
    Tuple,
    Unary,
    Yield,
}

/// An expression.
pub enum Expr {
    /// `base.await`.
    Await { id: usize, base: Box<Expr> },
    /// `( inner )`, or an invisible group when `group`.
    Paren { id: usize, inner: Box<Expr>, group: bool },
    Lit { id: usize, lit: Lit },
    /// `start..end`, either end optional.
    Range { id: usize, start: Option<Box<Expr>>, end: Option<Box<Expr>> },
    /// A node of `kind` whose sub-expressions are `children`, in source order
    /// (for a call the callee first, for a method call the receiver first;
    /// for a struct literal the field values).
    Node { id: usize, kind: NodeKind, children: Vec<Expr> },
    /// A block, an `unsafe` block or a `try` block.
    Block { id: usize, stmts: Vec<Stmt> },
    If { id: usize, cond: Box<Expr>, then_branch: Vec<Stmt>, else_branch: Option<Box<Expr>> },
    /// `loop { body }`, with its label's name when it has one.
    Loop { id: usize, label: Option<String>, body: Vec<Stmt> },
    ForLoop { id: usize, label: Option<String>, pat: Pat, iterable: Box<Expr>, body: Vec<Stmt> },
    /// `while cond { body }`.
    While { id: usize, label: Option<String>, cond: Box<Expr>, body: Vec<Stmt> },
    Match { id: usize, scrutinee: Box<Expr>, arms: Vec<Arm> },
    /// `break`, with the name of the label it leaves and a value.
    Break { id: usize, label: Option<String>, value: Option<Box<Expr>> },
    /// `continue`, with the name of the label it goes back to.
    Continue { id: usize, label: Option<String> },
    /// The path `corot_rs::iter::<T>` of the runtime helper that tells the
    /// type `T` of a `for` loop's iterable.
    IterHelper { id: usize, ty: Ty },
    /// The path `corot_rs::call::<C>` of the runtime helper that tells the
    /// type `C` of a child coroutine.
    CallHelper { id: usize, ty: Ty },
    /// The path `corot_rs::val::<T>` of the runtime helper that tells the
    /// type `T` of an `if let` scrutinee.
    ValHelper { id: usize, ty: Ty },
    /// A path without generic arguments: the name of its last segment, and
    /// `single` when that is the whole path (a local or a function in scope).
    Path { id: usize, name: String, single: bool },
    /// Anything the planner does not look into: other paths, macros, closures,
    /// `async` and `const` blocks, …
    Opaque { id: usize },
}

/// A `match` arm.
pub struct Arm {
    pub id: usize,
    pub pat: Pat,
    pub guard: Option<Expr>,
    pub body: Expr,
}

/// A statement.
pub enum Stmt {
    /// `let pat = init;`, or, with `diverge` the statements of its `else`
    /// block, `let pat = init else { … };`.
    Local { id: usize, pat: Pat, init: Option<Expr>, diverge: Option<Vec<Stmt>> },
    /// An expression statement, with or without semicolon.
    Expr { id: usize, expr: Expr },
    /// An item or a macro statement.
    Other { id: usize },
}

/// The function a coroutine is made from.
pub struct FnModel {
    pub is_async: bool,
    /// The function takes `self`.
    pub has_receiver: bool,
    pub name: String,
    /// The state enum's name given by the attribute's `name = …`.
    pub enum_name: Option<String>,
    /// The effect enum's name given by the attribute's `effect = …`.
    pub effect_name: Option<String>,
    /// Each parameter `pat: Ty` as the statement `let pat: Ty = <argument>;`
    /// that receives it when the coroutine starts.
    pub params: Vec<Stmt>,
    pub body: Vec<Stmt>,
}

pub open spec fn expr_id(e: Expr) -> usize {
    match e {
        Expr::Await { id, .. } => id,
        Expr::Paren { id, .. } => id,
        Expr::Lit { id, .. } => id,
        Expr::Range { id, .. } => id,
        Expr::Node { id, .. } => id,
        Expr::Block { id, .. } => id,
        Expr::If { id, .. } => id,
        Expr::Loop { id, .. } => id,
        Expr::ForLoop { id, .. } => id,
        Expr::While { id, .. } => id,
        Expr::Match { id, .. } => id,
        Expr::Break { id, .. } => id,
        Expr::Continue { id, .. } => id,
        Expr::IterHelper { id, .. } => id,
        Expr::CallHelper { id, .. } => id,
        Expr::Path { id, .. } => id,
        Expr::ValHelper { id, .. } => id,
        Expr::Opaque { id } => id,
    }
}

/// The id of an expression node.
pub fn id_of_expr(e: &Expr) -> (r: usize)
    ensures
        r == expr_id(*e),
{
    match e {
        Expr::Await { id, .. } => *id,
        Expr::Paren { id, .. } => *id,
        Expr::Lit { id, .. } => *id,
        Expr::Range { id, .. } => *id,
        Expr::Node { id, .. } => *id,
        Expr::Block { id, .. } => *id,
        Expr::If { id, .. } => *id,
        Expr::Loop { id, .. } => *id,
        Expr::ForLoop { id, .. } => *id,
        Expr::While { id, .. } => *id,
        Expr::Match { id, .. } => *id,
        Expr::Break { id, .. } => *id,
        Expr::Continue { id, .. } => *id,
        Expr::IterHelper { id, .. } => *id,
        Expr::CallHelper { id, .. } => *id,
        Expr::Path { id, .. } => *id,
        Expr::ValHelper { id, .. } => *id,
        Expr::Opaque { id } => *id,
    }
}

pub open spec fn pat_id(p: Pat) -> usize {
    match p {
        Pat::Ident { id, .. } => id,
        Pat::Typed { id, .. } => id,
        Pat::Wild { id } => id,
        Pat::Lit { id, .. } => id,
        Pat::Path { id, .. } => id,
        Pat::Or { id, .. } => id,
        Pat::Other { id } => id,
    }
}

/// The id of a pattern node.
pub fn id_of_pat(p: &Pat) -> (r: usize)
    ensures
        r == pat_id(*p),
{
    match p {
        Pat::Ident { id, .. } => *id,
        Pat::Typed { id, .. } => *id,
        Pat::Wild { id } => *id,
        Pat::Lit { id, .. } => *id,
        Pat::Path { id, .. } => *id,
        Pat::Or { id, .. } => *id,
        Pat::Other { id } => *id,
    }
}

pub open spec fn stmt_id(s: Stmt) -> usize {
    match s {
        Stmt::Local { id, .. } => id,
        Stmt::Expr { id, .. } => id,
        Stmt::Other { id } => id,
    }
}

/// The id of a statement.
pub fn id_of_stmt(s: &Stmt) -> (r: usize)
    ensures
        r == stmt_id(*s),
{
    match s {
        Stmt::Local { id, .. } => *id,
        Stmt::Expr { id, .. } => *id,
        Stmt::Other { id } => *id,
    }
}

// ---------------------------------------------------------------------------
// Where awaits are.

/// Whether an `.await` occurs in `e`, outside closures, `async` and `const` blocks.
pub open spec fn has_await(e: Expr) -> bool
    decreases e,
{
    match e {
        Expr::Await { .. } => true,
        Expr::Paren { inner, .. } => has_await(*inner),
        Expr::Lit { .. } => false,
        Expr::Range { start, end, .. } => opt_has_await(start) || opt_has_await(end),
        Expr::Node { children, .. } => exprs_have_await(children@),
        Expr::Block { stmts, .. } => stmts_have_await(stmts@),
        Expr::If { cond, then_branch, else_branch, .. } => has_await(*cond) || stmts_have_await(
            then_branch@,
        ) || opt_has_await(else_branch),
        Expr::Loop { body, .. } => stmts_have_await(body@),
        Expr::ForLoop { iterable, body, .. } => has_await(*iterable) || stmts_have_await(body@),
        Expr::While { cond, body, .. } => has_await(*cond) || stmts_have_await(body@),
        Expr::Match { scrutinee, arms, .. } => has_await(*scrutinee) || arms_have_await(arms@),
        Expr::Break { value, .. } => opt_has_await(value),
        Expr::Continue { .. } => false,
        Expr::IterHelper { .. } => false,
        Expr::ValHelper { .. } => false,
        Expr::Path { .. } => false,
        Expr::CallHelper { .. } => false,
        Expr::Opaque { .. } => false,
    }
}

pub open spec fn opt_has_await(e: Option<Box<Expr>>) -> bool
    decreases e,
{
    match e {
        Some(b) => has_await(*b),
        None => false,
    }
}

pub open spec fn exprs_have_await(s: Seq<Expr>) -> bool
    decreases s,
{
    if s.len() == 0 {
        false
    } else {
        has_await(s[0]) || exprs_have_await(s.drop_first())
    }
}

pub open spec fn stmts_have_await(s: Seq<Stmt>) -> bool
    decreases s,
{
    if s.len() == 0 {
        false
    } else {
        stmt_has_await(s[0]) || stmts_have_await(s.drop_first())
    }
}

pub open spec fn arms_have_await(s: Seq<Arm>) -> bool
    decreases s,
{
    if s.len() == 0 {
        false
    } else {
        arm_has_await(s[0]) || arms_have_await(s.drop_first())
    }
}

/// An arm holds an await in its body or its guard.
pub open spec fn arm_has_await(a: Arm) -> bool
    decreases a,
{
    has_await(a.body) || match a.guard {
        Some(g) => has_await(g),
        None => false,
    }
}

pub open spec fn guard_has_await(a: Arm) -> bool
    decreases a,
{
    match a.guard {
        Some(g) => has_await(g),
        None => false,
    }
}

/// A statement holds an await in its `let` initializer or `else` block,
/// or in its expression.
pub open spec fn stmt_has_await(s: Stmt) -> bool
    decreases s,
{
    match s {
        Stmt::Local { init, diverge, .. } => (match init {
            Some(e) => has_await(e),
            None => false,
        }) || (match diverge {
            Some(b) => stmts_have_await(b@),
            None => false,
        }),
        Stmt::Expr { expr, .. } => has_await(expr),
        Stmt::Other { .. } => false,
    }
}

/// Whether `e` contains an `.await`.
pub fn contains_await(e: &Expr) -> (r: bool)
    ensures
        r == has_await(*e),
    decreases *e,
{
    match e {
        Expr::Await { .. } => true,
        Expr::Paren { inner, .. } => {
            assert(decreases_to!(*e => **inner));
            contains_await(inner)
        },
        Expr::Lit { .. } => false,
        Expr::Range { start, end, .. } => {
            assert(decreases_to!(*e => *start));
            assert(decreases_to!(*e => *end));
            opt_contains_await(start) || opt_contains_await(end)
        },
        Expr::Node { children, .. } => {
            assert(decreases_to!(*e => *children));
            exprs_contain_await(children)
        },
        Expr::Block { stmts, .. } => {
            assert(decreases_to!(*e => *stmts));
            stmts_contain_await(stmts)
        },
        Expr::If { cond, then_branch, else_branch, .. } => {
            assert(decreases_to!(*e => **cond));
            assert(decreases_to!(*e => *then_branch));
            assert(decreases_to!(*e => *else_branch));
            contains_await(cond) || stmts_contain_await(then_branch) || opt_contains_await(
                else_branch,
            )
        },
        Expr::Loop { body, .. } => {
            assert(decreases_to!(*e => *body));
            stmts_contain_await(body)
        },
        Expr::ForLoop { iterable, body, .. } => {
            assert(decreases_to!(*e => **iterable));
            assert(decreases_to!(*e => *body));
            contains_await(iterable) || stmts_contain_await(body)
        },
        Expr::While { cond, body, .. } => {
            assert(decreases_to!(*e => **cond));
            assert(decreases_to!(*e => *body));
            contains_await(cond) || stmts_contain_await(body)
        },
        Expr::Match { scrutinee, arms, .. } => {
            assert(decreases_to!(*e => **scrutinee));
            assert(decreases_to!(*e => *arms));
            contains_await(scrutinee) || arms_contain_await(arms)
        },
        Expr::Break { value, .. } => {
            assert(decreases_to!(*e => *value));
            opt_contains_await(value)
        },
        Expr::Continue { .. } => false,
        Expr::IterHelper { .. } => false,
        Expr::ValHelper { .. } => false,
        Expr::Path { .. } => false,
        Expr::CallHelper { .. } => false,
        Expr::Opaque { .. } => false,
    }
}

fn opt_contains_await(e: &Option<Box<Expr>>) -> (r: bool)
    ensures
        r == opt_has_await(*e),
    decreases *e,
{
    match e {
        Some(b) => {
            assert(decreases_to!(*e => **b));
            contains_await(b)
        },
        None => false,
    }
}

fn exprs_contain_await(v: &Vec<Expr>) -> (r: bool)
    ensures
        r == exprs_have_await(v@),
    decreases *v,
{
    let mut i: usize = 0;
    assert(v@.skip(0) =~= v@);
    assert(decreases_to!(*v => v@));
    while i < v.len()
        invariant
            0 <= i <= v.len(),
            exprs_have_await(v@) == exprs_have_await(v@.skip(i as int)),
            decreases_to!(*v => v@),
        decreases v.len() - i,
    {
        assert(v@.skip(i as int).drop_first() =~= v@.skip(i + 1));
        assert(decreases_to!(*v => v@[i as int]));
        if contains_await(&v[i]) {
            return true;
        }
        i += 1;
    }
    false
}

/// Whether any statement of `v` contains an `.await`.
pub fn stmts_contain_await(v: &Vec<Stmt>) -> (r: bool)
    ensures
        r == stmts_have_await(v@),
    decreases *v,
{
    let mut i: usize = 0;
    assert(v@.skip(0) =~= v@);
    assert(decreases_to!(*v => v@));
    while i < v.len()
        invariant
            0 <= i <= v.len(),
            stmts_have_await(v@) == stmts_have_await(v@.skip(i as int)),
            decreases_to!(*v => v@),
        decreases v.len() - i,
    {
        assert(v@.skip(i as int).drop_first() =~= v@.skip(i + 1));
        assert(decreases_to!(*v => v@[i as int]));
        if stmt_contains_await(&v[i]) {
            return true;
        }
        i += 1;
    }
    false
}

fn arms_contain_await(v: &Vec<Arm>) -> (r: bool)
    ensures
        r == arms_have_await(v@),
    decreases *v,
{
    let mut i: usize = 0;
    assert(v@.skip(0) =~= v@);
    assert(decreases_to!(*v => v@));
    while i < v.len()
        invariant
            0 <= i <= v.len(),
            arms_have_await(v@) == arms_have_await(v@.skip(i as int)),
            decreases_to!(*v => v@),
        decreases v.len() - i,
    {
        assert(v@.skip(i as int).drop_first() =~= v@.skip(i + 1));
        assert(decreases_to!(*v => v@[i as int]));
        if arm_contains_await(&v[i]) {
            return true;
        }
        i += 1;
    }
    false
}

/// Whether an arm's body or guard contains an `.await`.
pub fn arm_contains_await(a: &Arm) -> (r: bool)
    ensures
        r == arm_has_await(*a),
    decreases *a,
{
    assert(decreases_to!(*a => a.body));
    if contains_await(&a.body) {
        return true;
    }
    match &a.guard {
        Some(g) => {
            assert(decreases_to!(*a => a.guard));
            assert(decreases_to!(a.guard => *g));
            contains_await(g)
        },
        None => false,
    }
}

/// Whether an arm's guard contains an `.await`.
pub fn guard_contains_await(a: &Arm) -> (r: bool)
    ensures
        r == guard_has_await(*a),
    decreases *a,
{
    match &a.guard {
        Some(g) => {
            assert(decreases_to!(*a => a.guard));
            assert(decreases_to!(a.guard => *g));
            contains_await(g)
        },
        None => false,
    }
}

/// Whether a statement contains an `.await`.
pub fn stmt_contains_await(s: &Stmt) -> (r: bool)
    ensures
        r == stmt_has_await(*s),
    decreases *s,
{
    match s {
        Stmt::Local { init, diverge, .. } => {
            let i = match init {
                Some(e) => {
                    assert(decreases_to!(*s => *init));
                    assert(decreases_to!(*init => *e));
                    contains_await(e)
                },
                None => false,
            };
            i || match diverge {
                Some(b) => {
                    assert(decreases_to!(*s => *diverge));
                    assert(decreases_to!(*diverge => *b));
                    stmts_contain_await(b)
                },
                None => false,
            }
        },
        Stmt::Expr { expr, .. } => {
            assert(decreases_to!(*s => *expr));
            contains_await(expr)
        },
        Stmt::Other { .. } => false,
    }
}

} // verus!

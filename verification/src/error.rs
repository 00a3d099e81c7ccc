//! Why a function cannot be made into a coroutine, and where.
use vstd::prelude::*;

verus! {

/// What is wrong.
#[derive(PartialEq, Eq, Structural, Clone, Copy, Debug)]
pub enum ErrorKind {
    /// The function is not `async`.
    NotAsync,
    /// The function takes `self`.
    HasInputs,
    /// An await stands where no suspension point is recognised.
    UnsupportedPlacement,
    /// `let … else` whose initializer awaits other than as the argument of
    /// `val::<T>(…)`, or whose `else` block awaits too.
    LetElseAwait,
    /// An awaiting `let` whose pattern is not `name: Type`.
    UntypedAwaitBinding,
    /// The await in an `if` condition is neither the whole condition nor
    /// the argument of `val::<T>(…)` in an `if let` scrutinee.
    IfConditionNotBare,
    /// Awaits in more than one part of an `if`.
    IfManyAwaits,
    /// Awaits in more than one match guard.
    MatchManyGuards,
    /// Awaits in more than one match arm body.
    MatchManyArms,
    /// The await in a match scrutinee is not the whole scrutinee.
    MatchScrutineeNotBare,
    /// An await in both the guard and the body of one arm.
    MatchGuardAndBody,
    /// The await in a match guard is not the whole guard.
    MatchGuardNotBare,
    /// Awaits in more than one part of a `match`.
    MatchManyAwaits,
    /// A suspending match arm whose pattern is not simple.
    PatternNotSimple,
    /// Literal patterns of different types in one `match`.
    ConflictingHints,
    /// No literal pattern tells the scrutinee type.
    CannotInferScrutinee,
    /// A literal pattern of a kind that tells no type.
    UnsupportedLiteralPattern,
    /// A pattern that no type can be read from.
    CannotInferFromPattern,
    /// The iterable of an awaiting `for` is neither a range literal nor
    /// `iter::<T>(…)`.
    ForNotRange,
    /// The await in `iter::<T>(…)` is not its whole argument.
    IterableNotBare,
    /// An await in the condition of an `else if`, or an `else` of an
    /// unexpected form.
    ElseIfAwait,
    /// An await inside a branch that is not a typed `let`.
    BranchAwaitNotLet,
    /// More than one await inside a branch.
    BranchManyAwaits,
    /// A branch expected to hold an await holds none.
    BranchWithoutAwait,
    /// An await inside an expression that cannot be split there.
    CannotSplit,
    /// A list expected to hold an await holds none.
    AwaitNotInList,
    /// A binding pattern that is not a plain identifier.
    NotIdentPattern,
}

/// Where it is: a node of the function, by the id it was given, or the
/// function as a whole.
#[derive(PartialEq, Eq, Structural, Clone, Copy, Debug)]
pub enum Site {
    CallSite,
    FnToken,
    Inputs,
    Stmt(usize),
    Expr(usize),
    Pat(usize),
    Arm(usize),
}

#[derive(PartialEq, Eq, Structural, Clone, Copy, Debug)]
pub struct CorotError {
    pub kind: ErrorKind,
    pub site: Site,
}

pub open spec fn err(kind: ErrorKind, site: Site) -> CorotError {
    CorotError { kind, site }
}

/// An error of `kind` at `site`.
pub fn error(kind: ErrorKind, site: Site) -> (r: CorotError)
    ensures
        r == err(kind, site),
{
    CorotError { kind, site }
}

} // verus!

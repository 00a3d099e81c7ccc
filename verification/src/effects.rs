//! External calls: an await whose base calls a function, such as
//! `send_message(1).await`, is reported by `step` as an effect for the host
//! to perform, instead of a plain settle await.
use vstd::prelude::*;
use crate::bindings::{Binding, BindingView};
use crate::inspect::{await_base_at, int_lit_suffix, int_lit_suffix_type, strip_parens, unwrap_parens};
use crate::plan::caps_at;
use crate::split::{base_at, child_of, kind_child, resume_of, AwaitPoint, SuspendKind};
use crate::syntax::{expr_id, id_of_expr, Expr, Hint, Lit, NodeKind, Stmt, Ty};
use crate::text::{prefixed_camel, same_text, upper_camel};

verus! {

/// The function called and its arguments when `base` is a call of a path,
/// possibly in parentheses.
pub open spec fn call_of(base: Expr) -> Option<(Seq<char>, Seq<Expr>)> {
    match strip_parens(base) {
        Expr::Node { kind: NodeKind::Call, children, .. } => if children@.len() >= 1 {
            match children@[0] {
                Expr::Path { name, .. } => Some((name@, children@.skip(1))),
                _ => None,
            }
        } else {
            None
        },
        _ => None,
    }
}

/// The type of the first local of `env` named `n`.
pub open spec fn lookup(env: Seq<BindingView>, n: Seq<char>) -> Option<Ty>
    decreases env.len(),
{
    if env.len() == 0 {
        None
    } else if env[0].name == n {
        Some(env[0].ty)
    } else {
        lookup(env.drop_first(), n)
    }
}

/// The type of an argument of an external call, when it can be told: an
/// integer (of its suffix's type, `i32` otherwise), `bool` or `char`
/// literal, or a local of `env` named alone, possibly in parentheses.
pub open spec fn arg_ty(e: Expr, env: Seq<BindingView>) -> Option<Ty>
    decreases e,
{
    match e {
        Expr::Lit { lit: Lit::Int { suffix }, .. } => Some(Ty::Hinted(Hint::Int(int_lit_suffix(suffix@)))),
        Expr::Lit { lit: Lit::Bool, .. } => Some(Ty::Hinted(Hint::Bool)),
        Expr::Lit { lit: Lit::Char, .. } => Some(Ty::Hinted(Hint::Char)),
        Expr::Paren { inner, .. } => arg_ty(*inner, env),
        Expr::Path { name, single: true, .. } => lookup(env, name@),
        _ => None,
    }
}

/// The types of all of `args`, when each can be told.
pub open spec fn args_tys(args: Seq<Expr>, env: Seq<BindingView>) -> Option<Seq<Ty>>
    decreases args.len(),
{
    if args.len() == 0 {
        Some(Seq::empty())
    } else {
        match (arg_ty(args[0], env), args_tys(args.drop_first(), env)) {
            (Some(t), Some(ts)) => Some(seq![t] + ts),
            _ => None,
        }
    }
}

/// The base of the await that a point's resumed `let` has.
pub open spec fn awaited_base(k: SuspendKind) -> Option<Expr> {
    match resume_of(k) {
        Some(r) => match r.stmt {
            Stmt::Local { init: Some(e), .. } => await_base_at(e, r.path@),
            _ => None,
        },
        None => None,
    }
}

/// What point `i` reports when it suspends: for an await in a `let` whose
/// base calls a function `f` with arguments whose types can be told (from
/// the locals kept at the point), the effect variant `Call<F>`, the
/// arguments and their types; `None` for a settle await.
pub open spec fn point_effect(a: Seq<AwaitPoint>, i: int) -> Option<(Seq<char>, Seq<Expr>, Seq<Ty>)> {
    match awaited_base(a[i].kind) {
        Some(b) => match call_of(b) {
            Some((f, args)) => match args_tys(args, caps_at(a, i)) {
                Some(tys) => Some(("Call"@ + upper_camel(f), args, tys)),
                None => None,
            },
            None => None,
        },
        None => None,
    }
}

/// An external call a point reports: the effect variant, the ids of the
/// arguments, and their types.
pub struct EffectCall {
    pub variant: String,
    pub args: Vec<usize>,
    pub tys: Vec<Ty>,
}

/// `x` is what point `i` of `a` reports, as computed.
pub open spec fn effect_planned(x: Option<EffectCall>, a: Seq<AwaitPoint>, i: int) -> bool {
    match (x, point_effect(a, i)) {
        (None, None) => true,
        (Some(c), Some((v, args, tys))) => c.variant@ == v && c.args@ == args.map_values(|e: Expr| expr_id(e))
            && c.tys@ == tys,
        _ => false,
    }
}

/// A variant of the effect enum: its name and the types of its fields.
pub struct EffectVariant {
    pub name: String,
    pub fields: Vec<Ty>,
}

/// The name of the effect variant that passes on the effects of a child
/// coroutine of type `c`: `Nested` and the last segment of `c`'s path.
pub open spec fn nested_name(c: Ty) -> Seq<char> {
    match c {
        Ty::Written { last_segment: Some(s), .. } => "Nested"@ + s@,
        _ => "Nested"@,
    }
}

/// The name of the effect variant that passes on a child's effects.
pub fn nested_variant(c: &Ty) -> (r: String)
    ensures
        r@ == nested_name(*c),
{
    match c {
        Ty::Written { last_segment: Some(s), .. } => crate::text::join_text("Nested", s.as_str()),
        _ => String::from_str("Nested"),
    }
}

/// The effect variant point `i` brings: for an external call, the call's
/// variant with the types of its arguments; for a child coroutine of type
/// `C`, the variant that passes on `C`'s effects.
pub open spec fn point_variant(a: Seq<AwaitPoint>, i: int) -> Option<(Seq<char>, Seq<Ty>)> {
    match point_effect(a, i) {
        Some((v, _, tys)) => Some((v, tys)),
        None => match kind_child(a[i].kind) {
            Some(c) => Some((nested_name(c), seq![Ty::EffectOf(Box::new(c))])),
            None => None,
        },
    }
}

/// The variants of the effect enum for the first `n` points: one for each
/// function called, typed by its first call, and one for each type of
/// child coroutine driven.
pub open spec fn effect_list(a: Seq<AwaitPoint>, n: int) -> Seq<(Seq<char>, Seq<Ty>)>
    decreases n,
{
    if n <= 0 {
        Seq::empty()
    } else {
        let prev = effect_list(a, n - 1);
        match point_variant(a, n - 1) {
            Some((v, tys)) => if exists|k: int| 0 <= k < prev.len() && #[trigger] prev[k].0 == v {
                prev
            } else {
                prev.push((v, tys))
            },
            None => prev,
        }
    }
}

/// The type of the first local of `env` named `n`.
fn lookup_ty(env: &Vec<Binding>, n: &str) -> (r: Option<Ty>)
    ensures
        r == lookup(crate::bindings::views(env@), n@),
{
    let ghost vs = crate::bindings::views(env@);
    let mut j: usize = 0;
    assert(vs.skip(0) =~= vs);
    while j < env.len()
        invariant
            0 <= j <= env.len(),
            vs == crate::bindings::views(env@),
            lookup(vs, n@) == lookup(vs.skip(j as int), n@),
        decreases env.len() - j,
    {
        assert(vs.skip(j as int)[0] == vs[j as int]);
        assert(vs.skip(j as int).drop_first() =~= vs.skip(j + 1));
        assert(vs[j as int] == env@[j as int]@);
        if same_text(env[j].name.as_str(), n) {
            return Some(env[j].ty.clone());
        }
        j += 1;
    }
    None
}

/// The type of an argument of an external call, when it can be told.
fn arg_type(e: &Expr, env: &Vec<Binding>) -> (r: Option<Ty>)
    ensures
        r == arg_ty(*e, crate::bindings::views(env@)),
    decreases *e,
{
    match e {
        Expr::Lit { lit: Lit::Int { suffix }, .. } => Some(Ty::Hinted(Hint::Int(int_lit_suffix_type(suffix.as_str())))),
        Expr::Lit { lit: Lit::Bool, .. } => Some(Ty::Hinted(Hint::Bool)),
        Expr::Lit { lit: Lit::Char, .. } => Some(Ty::Hinted(Hint::Char)),
        Expr::Paren { inner, .. } => {
            assert(decreases_to!(*e => **inner));
            arg_type(inner, env)
        },
        Expr::Path { name, single, .. } => if *single {
            lookup_ty(env, name.as_str())
        } else {
            None
        },
        _ => None,
    }
}

/// The external call point `i` reports, if it is one.
#[verifier::loop_isolation(false)]
pub fn effect_at(awaits: &Vec<AwaitPoint>, caps: &Vec<Vec<Binding>>, i: usize) -> (r: Option<EffectCall>)
    requires
        i < awaits@.len(),
        caps@.len() == awaits@.len(),
        crate::bindings::views(caps@[i as int]@) == caps_at(awaits@, i as int),
    ensures
        effect_planned(r, awaits@, i as int),
{
    let env = &caps[i];
    let ghost envv = crate::bindings::views(env@);
    let ap = &awaits[i];
    let r = match &ap.kind {
        SuspendKind::Plain { resume } | SuspendKind::IfThen { resume, .. } | SuspendKind::IfElse { resume, .. }
        | SuspendKind::Loop { resume, .. } | SuspendKind::MatchArm { resume, .. } => resume,
        SuspendKind::For { resume: Some(resume), .. } => resume,
        _ => {
            return None;
        },
    };
    assert(resume_of(ap.kind) == Some(*r));
    let e = match &r.stmt {
        Stmt::Local { init: Some(e), .. } => e,
        _ => {
            return None;
        },
    };
    let b = match base_at(e, &r.path) {
        Some(b) => b,
        None => {
            return None;
        },
    };
    assert(awaited_base(ap.kind) == Some(*b));
    let (f, children) = match unwrap_parens(b) {
        Expr::Node { kind, children, .. } => {
            if *kind != NodeKind::Call || children.len() < 1 {
                return None;
            }
            match &children[0] {
                Expr::Path { name, .. } => (name, children),
                _ => {
                    return None;
                },
            }
        },
        _ => {
            return None;
        },
    };
    let ghost args = children@.skip(1);
    assert(call_of(*b) == Some((f@, args)));
    assert(envv == caps_at(awaits@, i as int));
    let mut ids: Vec<usize> = Vec::new();
    let mut tys: Vec<Ty> = Vec::new();
    let mut k: usize = 1;
    assert(args.skip(0) =~= args);
    while k < children.len()
        invariant
            1 <= k <= children.len(),
            args == children@.skip(1),
            ids@ == args.take(k - 1).map_values(|x: Expr| expr_id(x)),
            args_tys(args, envv) == match args_tys(args.skip(k - 1), envv) {
                Some(rest) => Some(tys@ + rest),
                None => None,
            },
            envv == crate::bindings::views(env@),
        decreases children.len() - k,
    {
        let ghost j = k - 1;
        assert(args.skip(j)[0] == children@[k as int]);
        assert(args.skip(j).drop_first() =~= args.skip(j + 1));
        match arg_type(&children[k], env) {
            Some(t) => {
                proof {
                    match args_tys(args.skip(j + 1), envv) {
                        Some(rest) => {
                            assert(tys@.push(t) + rest =~= tys@ + (seq![t] + rest));
                        },
                        None => {},
                    }
                }
                tys.push(t);
                ids.push(id_of_expr(&children[k]));
                assert(ids@ =~= args.take(k as int).map_values(|x: Expr| expr_id(x)));
            },
            None => {
                assert(args_tys(args.skip(j), envv) is None);
                assert(args_tys(args, envv) is None);
                assert(envv == caps_at(awaits@, i as int));
                assert(awaited_base(awaits@[i as int].kind) == Some(*b));
                return None;
            },
        }
        k += 1;
    }
    assert(args.skip(k - 1) =~= Seq::<Expr>::empty());
    assert(args.take(k - 1) =~= args);
    assert(tys@ + Seq::<Ty>::empty() =~= tys@);
    let variant = prefixed_camel("Call", f.as_str());
    Some(EffectCall { variant, args: ids, tys })
}

/// The names and field types of effect variants.
pub open spec fn variant_views(v: Seq<EffectVariant>) -> Seq<(Seq<char>, Seq<Ty>)> {
    v.map_values(|x: EffectVariant| (x.name@, x.fields@))
}

fn clone_tys(v: &Vec<Ty>) -> (r: Vec<Ty>)
    ensures
        r@ == v@,
{
    let mut out: Vec<Ty> = Vec::new();
    let mut j: usize = 0;
    while j < v.len()
        invariant
            0 <= j <= v.len(),
            out@ == v@.take(j as int),
        decreases v.len() - j,
    {
        out.push(v[j].clone());
        j += 1;
        assert(out@ =~= v@.take(j as int));
    }
    assert(v@.take(v.len() as int) =~= v@);
    out
}

/// The variants of the effect enum: one for each function called, typed by
/// its first call.
pub fn effect_variants(effects: &Vec<Option<EffectCall>>, awaits: &Vec<AwaitPoint>) -> (r: Vec<EffectVariant>)
    requires
        effects@.len() == awaits@.len(),
        forall|i: int| 0 <= i < awaits@.len() ==> #[trigger] effect_planned(effects@[i], awaits@, i),
    ensures
        variant_views(r@) == effect_list(awaits@, awaits@.len() as int),
{
    let ghost a = awaits@;
    let mut out: Vec<EffectVariant> = Vec::new();
    let mut i: usize = 0;
    assert(variant_views(out@) =~= effect_list(a, 0));
    while i < effects.len()
        invariant
            0 <= i <= effects.len(),
            a == awaits@,
            effects@.len() == a.len(),
            forall|j: int| 0 <= j < a.len() ==> #[trigger] effect_planned(effects@[j], a, j),
            variant_views(out@) == effect_list(a, i as int),
        decreases effects.len() - i,
    {
        assert(effect_planned(effects@[i as int], a, i as int));
        let entry: Option<(String, Vec<Ty>)> = match &effects[i] {
            Some(c) => Some((c.variant.clone(), clone_tys(&c.tys))),
            None => match child_of(&awaits[i].kind) {
                Some(c) => {
                    let mut tys: Vec<Ty> = Vec::new();
                    let n = nested_variant(&c);
                    tys.push(Ty::EffectOf(Box::new(c)));
                    Some((n, tys))
                },
                None => None,
            },
        };
        match entry {
            Some((name, tys)) => {
                let ghost prev = effect_list(a, i as int);
                assert(point_variant(a, i as int) == Some((name@, tys@)));
                let mut k: usize = 0;
                let mut found = false;
                while k < out.len()
                    invariant
                        0 <= k <= out.len(),
                        variant_views(out@) == prev,
                        found ==> exists|m: int| 0 <= m < prev.len() && #[trigger] prev[m].0 == name@,
                        !found ==> forall|m: int| 0 <= m < k ==> #[trigger] prev[m].0 != name@,
                    decreases out.len() - k,
                {
                    if !found && same_text(out[k].name.as_str(), name.as_str()) {
                        found = true;
                        assert(prev[k as int].0 == name@);
                    }
                    k += 1;
                }
                if !found {
                    let ghost nv = name@;
                    let ghost tv = tys@;
                    out.push(EffectVariant { name, fields: tys });
                    assert(variant_views(out@) =~= prev.push((nv, tv)));
                }
            },
            None => {},
        }
        i += 1;
    }
    out
}

} // verus!

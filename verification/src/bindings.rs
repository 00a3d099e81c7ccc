//! Locals that live across awaits: the typed bindings statements introduce
//! and the ordered, name-unique lists they are collected into.
use vstd::prelude::*;
use crate::error::{err, error, CorotError, ErrorKind, Site};
use crate::syntax::{id_of_pat, pat_id, Pat, Stmt, Ty};
use crate::text::same_text;

verus! {

/// A local kept in a state: its name, its type, and whether it is bound `mut`.
pub struct Binding {
    pub name: String,
    pub ty: Ty,
    pub mutable: bool,
}

impl Clone for Binding {
    fn clone(&self) -> (r: Self)
        ensures
            r == *self,
    {
        Binding { name: self.name.clone(), ty: self.ty.clone(), mutable: self.mutable }
    }
}

/// A copy of a list of bindings.
pub fn clone_bindings(v: &Vec<Binding>) -> (r: Vec<Binding>)
    ensures
        r@ == v@,
{
    let mut out: Vec<Binding> = Vec::new();
    let mut i: usize = 0;
    while i < v.len()
        invariant
            0 <= i <= v.len(),
            out@ == v@.take(i as int),
        decreases v.len() - i,
    {
        out.push(v[i].clone());
        i += 1;
        assert(out@ =~= v@.take(i as int));
    }
    assert(v@.take(v.len() as int) =~= v@);
    out
}

/// Whether `ty` is the `SkipSerde` wrapper: a path type whose last segment is `SkipSerde`.
pub open spec fn skips_serde(ty: Ty) -> bool {
    match ty {
        Ty::Written { last_segment: Some(seg), .. } => seg@ == "SkipSerde"@,
        _ => false,
    }
}

/// Whether `ty` is the `SkipSerde` wrapper, which serialization leaves out.
pub fn is_skip_serde(ty: &Ty) -> (r: bool)
    ensures
        r == skips_serde(*ty),
{
    match ty {
        Ty::Written { last_segment: Some(seg), .. } => same_text(seg.as_str(), "SkipSerde"),
        _ => false,
    }
}

/// The binding a `let name: Ty = …;` or `let mut name: Ty = …;` introduces.
pub open spec fn let_binding(s: Stmt) -> Option<Binding> {
    match s {
        Stmt::Local { pat: Pat::Typed { pat, ty, .. }, .. } => match *pat {
            Pat::Ident { name, mutable, .. } => Some(Binding { name, ty, mutable }),
            _ => None,
        },
        _ => None,
    }
}

/// The binding a typed `let` introduces, if the statement is one.
pub fn typed_let_binding(s: &Stmt) -> (r: Option<Binding>)
    ensures
        r == let_binding(*s),
{
    match s {
        Stmt::Local { pat: Pat::Typed { pat, ty, .. }, .. } => match &**pat {
            Pat::Ident { name, mutable, .. } => Some(
                Binding { name: name.clone(), ty: ty.clone(), mutable: *mutable },
            ),
            _ => None,
        },
        _ => None,
    }
}

/// The name a plain identifier pattern binds.
pub open spec fn ident_of(p: Pat) -> Result<String, CorotError> {
    match p {
        Pat::Ident { name, .. } => Ok(name),
        _ => Err(err(ErrorKind::NotIdentPattern, Site::Pat(pat_id(p)))),
    }
}

/// The name a plain identifier pattern binds; any other pattern is refused.
pub fn pat_ident(p: &Pat) -> (r: Result<String, CorotError>)
    ensures
        r == ident_of(*p),
{
    match p {
        Pat::Ident { name, .. } => Ok(name.clone()),
        _ => Err(error(ErrorKind::NotIdentPattern, Site::Pat(id_of_pat(p)))),
    }
}

/// Whether some text of `s` is `n`.
pub open spec fn has_text(s: Seq<String>, n: Seq<char>) -> bool {
    exists|i: int| 0 <= i < s.len() && #[trigger] s[i]@ == n
}

/// `acc` followed by those of `new` not already there, first occurrences kept.
pub open spec fn add_new(acc: Seq<String>, new: Seq<String>) -> Seq<String>
    decreases new.len(),
{
    if new.len() == 0 {
        acc
    } else {
        add_new(
            if has_text(acc, new[0]@) {
                acc
            } else {
                acc.push(new[0])
            },
            new.drop_first(),
        )
    }
}

/// The names a simple match pattern binds: an identifier's own name (not
/// those of its sub-pattern), and for `|` the names of each alternative in
/// order without repeats.
pub open spec fn pat_names(p: Pat) -> Seq<String>
    decreases p,
{
    match p {
        Pat::Ident { name, .. } => seq![name],
        Pat::Or { cases, .. } => or_names(cases@, Seq::empty()),
        _ => Seq::empty(),
    }
}

pub open spec fn or_names(cases: Seq<Pat>, acc: Seq<String>) -> Seq<String>
    decreases cases,
{
    if cases.len() == 0 {
        acc
    } else {
        or_names(cases.drop_first(), add_new(acc, pat_names(cases[0])))
    }
}

fn contains_text(v: &Vec<String>, n: &String) -> (r: bool)
    ensures
        r == has_text(v@, n@),
{
    let mut i: usize = 0;
    while i < v.len()
        invariant
            0 <= i <= v.len(),
            forall|j: int| 0 <= j < i ==> v@[j]@ != n@,
        decreases v.len() - i,
    {
        if v[i] == *n {
            return true;
        }
        i += 1;
    }
    false
}

/// The names a simple match pattern binds, in order and without repeats.
pub fn simple_pat_idents(p: &Pat) -> (r: Vec<String>)
    ensures
        r@ == pat_names(*p),
    decreases *p,
{
    match p {
        Pat::Ident { name, .. } => {
            let mut v = Vec::new();
            v.push(name.clone());
            assert(v@ =~= seq![*name]);
            v
        },
        Pat::Or { cases, .. } => {
            assert(decreases_to!(*p => *cases));
            assert(decreases_to!(*cases => cases@));
            let mut out: Vec<String> = Vec::new();
            let mut i: usize = 0;
            assert(cases@.skip(0) =~= cases@);
            while i < cases.len()
                invariant
                    0 <= i <= cases.len(),
                    pat_names(*p) == or_names(cases@.skip(i as int), out@),
                    decreases_to!(*p => cases@),
                decreases cases.len() - i,
            {
                assert(cases@.skip(i as int)[0] == cases@[i as int]);
                assert(cases@.skip(i as int).drop_first() =~= cases@.skip(i + 1));
                assert(decreases_to!(cases@ => cases@[i as int]));
                let ids = simple_pat_idents(&cases[i]);
                let mut j: usize = 0;
                assert(ids@.skip(0) =~= ids@);
                while j < ids.len()
                    invariant
                        0 <= j <= ids.len(),
                        pat_names(*p) == or_names(
                            cases@.skip(i + 1),
                            add_new(out@, ids@.skip(j as int)),
                        ),
                    decreases ids.len() - j,
                {
                    assert(ids@.skip(j as int)[0] == ids@[j as int]);
                    assert(ids@.skip(j as int).drop_first() =~= ids@.skip(j + 1));
                    if !contains_text(&out, &ids[j]) {
                        out.push(ids[j].clone());
                    }
                    j += 1;
                }
                i += 1;
            }
            out
        },
        _ => Vec::new(),
    }
}

// ---------------------------------------------------------------------------
// Name-unique binding lists.

/// A binding as its name's text, its type and its mutability.
pub struct BindingView {
    pub name: Seq<char>,
    pub ty: Ty,
    pub mutable: bool,
}

impl View for Binding {
    type V = BindingView;

    open spec fn view(&self) -> BindingView {
        BindingView { name: self.name@, ty: self.ty, mutable: self.mutable }
    }
}

/// The views of a list of bindings.
pub open spec fn views(s: Seq<Binding>) -> Seq<BindingView> {
    s.map_values(|b: Binding| b@)
}

/// Index of the binding named `n`, the first if there are several.
pub open spec fn name_index(s: Seq<BindingView>, n: Seq<char>) -> Option<nat>
    decreases s.len(),
{
    if s.len() == 0 {
        None
    } else if s[0].name == n {
        Some(0)
    } else {
        match name_index(s.drop_first(), n) {
            Some(k) => Some(k + 1),
            None => None,
        }
    }
}

/// `live` with `b` recorded: a binding of the same name takes `b`'s type and
/// becomes `mut` if either was; otherwise `b` is appended.
pub open spec fn upsert(live: Seq<BindingView>, b: BindingView) -> Seq<BindingView> {
    match name_index(live, b.name) {
        Some(i) => live.update(
            i as int,
            BindingView { name: live[i as int].name, ty: b.ty, mutable: live[i as int].mutable || b.mutable },
        ),
        None => live.push(b),
    }
}

/// No two bindings share a name.
pub open spec fn distinct_names(s: Seq<BindingView>) -> bool {
    forall|i: int, j: int| 0 <= i < j < s.len() ==> #[trigger] s[i].name != #[trigger] s[j].name
}

/// The names of a binding list.
pub open spec fn names(s: Seq<BindingView>) -> Set<Seq<char>> {
    Set::new(|n: Seq<char>| exists|i: int| 0 <= i < s.len() && #[trigger] s[i].name == n)
}

pub(crate) proof fn lemma_name_index(s: Seq<BindingView>, n: Seq<char>)
    ensures
        name_index(s, n) matches Some(k) ==> k < s.len() && s[k as int].name == n && forall|
            j: int,
        | 0 <= j < k ==> s[j].name != n,
        name_index(s, n) is None ==> forall|j: int| 0 <= j < s.len() ==> s[j].name != n,
    decreases s.len(),
{
    if s.len() > 0 {
        lemma_name_index(s.drop_first(), n);
        if s[0].name != n {
            assert forall|j: int| 0 < j < s.len() implies s[j].name == s.drop_first()[j - 1].name by {}
        }
    }
}

/// Recording a binding keeps names unique, keeps every name in its place
/// and adds exactly the recorded name.
pub proof fn lemma_upsert(live: Seq<BindingView>, b: BindingView)
    requires
        distinct_names(live),
    ensures
        distinct_names(upsert(live, b)),
        names(upsert(live, b)) == names(live).insert(b.name),
        upsert(live, b).len() >= live.len(),
        forall|i: int| 0 <= i < live.len() ==> #[trigger] upsert(live, b)[i].name == live[i].name,
{
    lemma_name_index(live, b.name);
    let r = upsert(live, b);
    assert forall|i: int| 0 <= i < live.len() implies #[trigger] r[i].name == live[i].name by {}
    assert forall|n: Seq<char>| names(r).contains(n) <==> names(live).insert(b.name).contains(n) by {
        if names(r).contains(n) {
            let i = choose|i: int| 0 <= i < r.len() && #[trigger] r[i].name == n;
            if i < live.len() {
                assert(live[i].name == n);
            }
        }
        if names(live).contains(n) {
            let i = choose|i: int| 0 <= i < live.len() && #[trigger] live[i].name == n;
            assert(r[i].name == n);
        }
        if n == b.name {
            match name_index(live, b.name) {
                Some(k) => {
                    assert(r[k as int].name == n);
                },
                None => {
                    assert(r[live.len() as int].name == n);
                },
            }
        }
    }
    assert(names(r) =~= names(live).insert(b.name));
}

/// Records `b` in `live` (see [`upsert`]).
pub fn upsert_binding(live: &mut Vec<Binding>, b: Binding)
    ensures
        views(final(live)@) == upsert(views(old(live)@), b@),
{
    let ghost v0 = views(live@);
    proof {
        lemma_name_index(v0, b@.name);
    }
    let mut i: usize = 0;
    while i < live.len()
        invariant
            0 <= i <= live.len(),
            live@ == old(live)@,
            v0 == views(live@),
            forall|j: int| 0 <= j < i ==> live@[j]@.name != b@.name,
        decreases live.len() - i,
    {
        if live[i].name == b.name {
            proof {
                lemma_name_index(v0, b@.name);
                match name_index(v0, b@.name) {
                    Some(k) => {
                        if k < i {
                            assert(v0[k as int].name != b@.name);
                        }
                        if k > i {
                            assert(v0[i as int].name != b@.name);
                        }
                        assert(k == i);
                    },
                    None => {
                        assert(v0[i as int].name != b@.name);
                    },
                }
            }
            let merged = Binding {
                name: live[i].name.clone(),
                ty: b.ty,
                mutable: live[i].mutable || b.mutable,
            };
            live.set(i, merged);
            assert(views(live@) =~= upsert(v0, b@));
            return;
        }
        i += 1;
    }
    proof {
        lemma_name_index(v0, b@.name);
        if let Some(k) = name_index(v0, b@.name) {
            assert(v0[k as int].name != b@.name);
        }
    }
    live.push(b);
    assert(views(live@) =~= upsert(v0, b@));
}

} // verus!

//! A scoped environment: a stack of frames, each binding names to literals.
//!
//! Lookup searches from the innermost frame outward. `set` binds in the
//! innermost frame; `assign` overwrites the innermost existing binding and
//! does nothing when the name is bound nowhere.
use crate::ast::lit::{Lit, LitV};
use crate::helpers::str_eqs;
use vstd::prelude::*;

verus! {

/// The mathematical model of an environment: frames bottom-to-top, each a
/// map from names to literal values.
pub type EnvV = Seq<Map<Seq<char>, LitV>>;

/// The map a frame's entry list denotes; later entries win.
pub open spec fn frame_view(f: Seq<(String, Lit)>) -> Map<Seq<char>, LitV>
    decreases f.len(),
{
    if f.len() == 0 {
        Map::empty()
    } else {
        frame_view(f.drop_last()).insert(f.last().0@, f.last().1@)
    }
}

/// Entry keys within a frame are pairwise distinct.
pub open spec fn frame_uniq(f: Seq<(String, Lit)>) -> bool {
    forall|j: int, k: int| 0 <= j < k < f.len() ==> f[j].0@ != f[k].0@
}

/// Every value held in the frame is well formed.
pub open spec fn frame_vals_wf(f: Seq<(String, Lit)>) -> bool {
    forall|j: int| 0 <= j < f.len() ==> (#[trigger] f[j].1)@.wf()
}

/// The binding of `n`: the innermost frame that holds it decides.
pub open spec fn spec_env_get(env: EnvV, n: Seq<char>) -> Option<LitV>
    decreases env.len(),
{
    if env.len() == 0 {
        None
    } else if env.last().contains_key(n) {
        Some(env.last()[n])
    } else {
        spec_env_get(env.drop_last(), n)
    }
}

/// Binding `n` in the innermost frame (no frame: no change).
pub open spec fn spec_env_set(env: EnvV, n: Seq<char>, v: LitV) -> EnvV {
    if env.len() == 0 {
        env
    } else {
        env.update(env.len() - 1, env.last().insert(n, v))
    }
}

/// Overwriting the innermost existing binding of `n`; unchanged when `n`
/// is bound nowhere.
pub open spec fn spec_env_assign(env: EnvV, n: Seq<char>, v: LitV) -> EnvV
    decreases env.len(),
{
    if env.len() == 0 {
        env
    } else if env.last().contains_key(n) {
        env.update(env.len() - 1, env.last().insert(n, v))
    } else {
        spec_env_assign(env.drop_last(), n, v).push(env.last())
    }
}

/// A scoped environment backed by a stack of entry lists.
pub struct ASTEnvironment {
    stack: Vec<Vec<(String, Lit)>>,
}

impl View for ASTEnvironment {
    type V = EnvV;

    closed spec fn view(&self) -> EnvV {
        self.stack@.map_values(|f: Vec<(String, Lit)>| frame_view(f@))
    }
}

/// No key appears twice in `f` and the scanned entry's key misses `n`:
/// the frame map misses `n`.
proof fn lemma_frame_view_absent(f: Seq<(String, Lit)>, n: Seq<char>)
    requires
        forall|j: int| 0 <= j < f.len() ==> (#[trigger] f[j].0)@ != n,
    ensures
        !frame_view(f).contains_key(n),
    decreases f.len(),
{
    if f.len() > 0 {
        lemma_frame_view_absent(f.drop_last(), n);
    }
}

/// A matching entry under unique keys decides the frame map's value.
proof fn lemma_frame_view_present(f: Seq<(String, Lit)>, j: int, n: Seq<char>)
    requires
        frame_uniq(f),
        0 <= j < f.len(),
        f[j].0@ == n,
    ensures
        frame_view(f).contains_key(n),
        frame_view(f)[n] == f[j].1@,
    decreases f.len(),
{
    if j == f.len() - 1 {
    } else {
        lemma_frame_view_present(f.drop_last(), j, n);
        assert(f.last().0@ != n);
    }
}

/// Replacing the entry that holds a key updates the frame map at that key.
proof fn lemma_frame_view_update(f: Seq<(String, Lit)>, j: int, e: (String, Lit))
    requires
        frame_uniq(f),
        0 <= j < f.len(),
        f[j].0@ == e.0@,
    ensures
        frame_view(f.update(j, e)) =~= frame_view(f).insert(e.0@, e.1@),
    decreases f.len(),
{
    let n = e.0@;
    if j == f.len() - 1 {
        assert(f.update(j, e).drop_last() =~= f.drop_last());
        assert(f.update(j, e).last() == e);
    } else {
        assert(f.update(j, e).drop_last() =~= f.drop_last().update(j, e));
        lemma_frame_view_update(f.drop_last(), j, e);
        assert(f.last().0@ != n);
        assert(f.update(j, e).last() == f.last());
    }
}

/// Appending a fresh entry inserts its binding.
proof fn lemma_frame_view_push(f: Seq<(String, Lit)>, e: (String, Lit))
    ensures
        frame_view(f.push(e)) =~= frame_view(f).insert(e.0@, e.1@),
{
    assert(f.push(e).drop_last() =~= f);
}

/// Finds the first entry whose key equals `var`.
fn frame_find(f: &Vec<(String, Lit)>, var: &str) -> (r: Option<usize>)
    ensures
        match r {
            Some(j) => j < f@.len() && f@[j as int].0@ == var@,
            None => forall|k: int| 0 <= k < f@.len() ==> (#[trigger] f@[k].0)@ != var@,
        },
{
    let mut j: usize = 0;
    while j < f.len()
        invariant
            j <= f@.len(),
            forall|k: int| 0 <= k < j ==> (#[trigger] f@[k].0)@ != var@,
        decreases f@.len() - j,
    {
        if str_eqs(f[j].0.as_str(), var) {
            return Some(j);
        }
        j += 1;
    }
    None
}

impl ASTEnvironment {
    /// The representation invariant: per-frame unique keys, well-formed
    /// values.
    pub closed spec fn inv(&self) -> bool {
        forall|i: int|
            0 <= i < self.stack@.len() ==> frame_uniq(#[trigger] self.stack@[i]@) && frame_vals_wf(
                self.stack@[i]@,
            )
    }

    /// A fresh environment with exactly one (global) frame.
    pub fn new() -> (r: ASTEnvironment)
        ensures
            r@ =~= seq![Map::<Seq<char>, LitV>::empty()],
            r.inv(),
    {
        let mut stack: Vec<Vec<(String, Lit)>> = Vec::new();
        stack.push(Vec::new());
        let r = ASTEnvironment { stack };
        proof {
            assert(r@.len() == 1);
            assert(r@[0] =~= Map::<Seq<char>, LitV>::empty());
        }
        r
    }

    /// The value bound to `var` in the innermost frame that binds it.
    pub fn get(&self, var: &str) -> (r: Option<Lit>)
        requires
            self.inv(),
        ensures
            match r {
                Some(l) => spec_env_get(self@, var@) == Some(l@) && l.wf(),
                None => spec_env_get(self@, var@) is None,
            },
    {
        let mut i: usize = self.stack.len();
        proof {
            assert(self@.take(i as int) =~= self@);
        }
        while i > 0
            invariant
                self.inv(),
                i <= self.stack@.len(),
                self@.len() == self.stack@.len(),
                spec_env_get(self@, var@) == spec_env_get(self@.take(i as int), var@),
            decreases i,
        {
            i -= 1;
            let fr = &self.stack[i];
            proof {
                assert(self@[i as int] == frame_view(fr@));
                assert(self@.take(i + 1).last() == self@[i as int]);
                assert(self@.take(i + 1).drop_last() =~= self@.take(i as int));
            }
            match frame_find(fr, var) {
                Some(j) => {
                    proof {
                        lemma_frame_view_present(fr@, j as int, var@);
                    }
                    return Some(fr[j].1.duplicate());
                },
                None => {
                    proof {
                        lemma_frame_view_absent(fr@, var@);
                    }
                },
            }
        }
        proof {
            assert(self@.take(0) =~= Seq::<Map<Seq<char>, LitV>>::empty());
        }
        None
    }

    /// Binds `var` in the innermost frame, inserting or overwriting.
    pub fn set(&mut self, var: &str, value: Lit)
        requires
            old(self).inv(),
            value.wf(),
        ensures
            final(self).inv(),
            final(self)@ =~= spec_env_set(old(self)@, var@, value@),
    {
        let n = self.stack.len();
        if n > 0 {
            let mut fr = self.stack.pop().unwrap();
            proof {
                assert(old(self).stack@[n - 1] == fr);
                assert(self.stack@ =~= old(self).stack@.drop_last());
            }
            match frame_find(&fr, var) {
                Some(j) => {
                    let entry = (var.to_owned(), value);
                    proof {
                        lemma_frame_view_update(fr@, j as int, entry);
                    }
                    let ghost fr0 = fr@;
                    fr.set(j, entry);
                    proof {
                        assert(fr@ =~= fr0.update(j as int, fr@[j as int]));
                        assert(frame_uniq(fr@)) by {
                            assert(forall|a: int, b: int|
                                0 <= a < b < fr@.len() ==> (#[trigger] fr@[a].0)@ != (
                                #[trigger] fr@[b].0)@) by {
                                assert(forall|a: int|
                                    0 <= a < fr@.len() && a != j ==> fr@[a] == fr0[a]);
                                assert(fr@[j as int].0@ == fr0[j as int].0@);
                            }
                        }
                    }
                    self.stack.push(fr);
                },
                None => {
                    let entry = (var.to_owned(), value);
                    proof {
                        lemma_frame_view_push(fr@, entry);
                    }
                    let ghost fr0 = fr@;
                    fr.push(entry);
                    proof {
                        assert(fr@ =~= fr0.push(fr@.last()));
                        assert(frame_uniq(fr@)) by {
                            assert(forall|a: int| 0 <= a < fr0.len() ==> fr@[a] == fr0[a]);
                            assert(fr@.last().0@ == var@);
                        }
                    }
                    self.stack.push(fr);
                },
            }
            proof {
                assert(self@ =~= spec_env_set(old(self)@, var@, value@));
            }
        }
    }

    /// Overwrites the innermost existing binding of `var`; does nothing
    /// when no frame binds it.
    pub fn assign(&mut self, var: &str, value: Lit)
        requires
            old(self).inv(),
            value.wf(),
        ensures
            final(self).inv(),
            final(self)@ =~= spec_env_assign(old(self)@, var@, value@),
    {
        let ghost val0 = value;
        let mut i: usize = self.stack.len();
        proof {
            assert(old(self)@.skip(i as int) =~= Seq::<Map<Seq<char>, LitV>>::empty());
        }
        while i > 0
            invariant
                self.inv(),
                *self == *old(self),
                value == val0,
                val0@.wf(),
                i <= self.stack@.len(),
                self@.len() == self.stack@.len(),
                forall|k: int|
                    i <= k < self@.len() ==> !(#[trigger] self@[k]).contains_key(var@),
            decreases i,
        {
            i -= 1;
            let fr = &self.stack[i];
            proof {
                assert(self@[i as int] == frame_view(fr@));
            }
            match frame_find(fr, var) {
                Some(j) => {
                    proof {
                        lemma_frame_view_present(fr@, j as int, var@);
                    }
                    let mut fr = self.stack.remove(i);
                    let entry = (var.to_owned(), value);
                    proof {
                        lemma_frame_view_update(fr@, j as int, entry);
                    }
                    let ghost fr0 = fr@;
                    fr.set(j, entry);
                    proof {
                        assert(fr@ =~= fr0.update(j as int, fr@[j as int]));
                        assert(frame_uniq(fr@)) by {
                            assert(forall|a: int|
                                0 <= a < fr@.len() && a != j ==> fr@[a] == fr0[a]);
                            assert(fr@[j as int].0@ == fr0[j as int].0@);
                        }
                    }
                    self.stack.insert(i, fr);
                    proof {
                        assert(self.stack@ =~= old(self).stack@.update(i as int, self.stack@[i as int]));
                        lemma_env_assign_found(old(self)@, i as int, var@, value@);
                        assert(self@ =~= old(self)@.update(i as int, frame_view(fr@)));
                        assert(frame_vals_wf(fr@)) by {
                            assert(frame_vals_wf(fr0));
                            assert(fr@[j as int] == entry);
                            assert(entry.1 == value);
                            assert forall|a: int| 0 <= a < fr@.len() implies (
                            #[trigger] fr@[a].1)@.wf() by {
                                if a != j {
                                    assert(fr@[a] == fr0[a]);
                                    assert(fr0[a].1@.wf());
                                } else {
                                    assert(fr@[a].1 == val0);
                                    assert(val0@.wf());
                                }
                            }
                        }
                        assert(forall|t: int|
                            0 <= t < self.stack@.len() && t != i ==> self.stack@[t]
                                == old(self).stack@[t]);
                    }
                    return ;
                },
                None => {
                    proof {
                        lemma_frame_view_absent(fr@, var@);
                    }
                },
            }
        }
        proof {
            lemma_env_assign_missing(self@, var@);
        }
    }

    /// Opens a new innermost frame.
    pub fn push(&mut self)
        requires
            old(self).inv(),
        ensures
            final(self).inv(),
            final(self)@ =~= old(self)@.push(Map::<Seq<char>, LitV>::empty()),
    {
        self.stack.push(Vec::new());
        proof {
            assert(self@.last() =~= Map::<Seq<char>, LitV>::empty());
            assert(self@ =~= old(self)@.push(self@.last()));
        }
    }

    /// Closes the innermost frame; on an empty environment does nothing.
    pub fn pop(&mut self)
        requires
            old(self).inv(),
        ensures
            final(self).inv(),
            old(self)@.len() > 0 ==> final(self)@ =~= old(self)@.drop_last(),
            old(self)@.len() == 0 ==> final(self)@ =~= old(self)@,
    {
        let _ = self.stack.pop();
    }

    /// How many frames are open.
    pub fn len(&self) -> (r: usize)
        ensures
            r == self@.len(),
    {
        self.stack.len()
    }

    /// Whether no frame is open.
    pub fn is_empty(&self) -> (r: bool)
        ensures
            r == (self@.len() == 0),
    {
        self.stack.len() == 0
    }
}

/// When every frame above `i` misses `n` and frame `i` holds it, the
/// assignment updates exactly frame `i`.
proof fn lemma_env_assign_found(env: EnvV, i: int, n: Seq<char>, v: LitV)
    requires
        0 <= i < env.len(),
        env[i].contains_key(n),
        forall|k: int| i < k < env.len() ==> !(#[trigger] env[k]).contains_key(n),
    ensures
        spec_env_assign(env, n, v) =~= env.update(i, env[i].insert(n, v)),
    decreases env.len(),
{
    if i == env.len() - 1 {
    } else {
        assert(!env.last().contains_key(n));
        lemma_env_assign_found(env.drop_last(), i, n, v);
        assert(env.drop_last().update(i, env[i].insert(n, v)).push(env.last()) =~= env.update(
            i,
            env[i].insert(n, v),
        ));
    }
}

/// When no frame holds `n`, the assignment changes nothing.
proof fn lemma_env_assign_missing(env: EnvV, n: Seq<char>)
    requires
        forall|k: int| 0 <= k < env.len() ==> !(#[trigger] env[k]).contains_key(n),
    ensures
        spec_env_assign(env, n, LitV::Nil) =~= env,
        forall|v: LitV| spec_env_assign(env, n, v) =~= env,
    decreases env.len(),
{
    assert forall|v: LitV| spec_env_assign(env, n, v) =~= env by {
        lemma_env_assign_missing_one(env, n, v);
    }
    lemma_env_assign_missing_one(env, n, LitV::Nil);
}

proof fn lemma_env_assign_missing_one(env: EnvV, n: Seq<char>, v: LitV)
    requires
        forall|k: int| 0 <= k < env.len() ==> !(#[trigger] env[k]).contains_key(n),
    ensures
        spec_env_assign(env, n, v) =~= env,
    decreases env.len(),
{
    if env.len() > 0 {
        lemma_env_assign_missing_one(env.drop_last(), n, v);
        assert(env.drop_last().push(env.last()) =~= env);
    }
}

} // verus!

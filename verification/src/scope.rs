//! The scope chain: a stack of frames, each mapping variable names to
//! values. Lookup searches innermost-first; assignment overwrites the
//! nearest binding or creates one in the innermost frame.

use vstd::prelude::*;

use crate::data::{Data, DataV};

verus! {

/// One frame of the scope chain. The pairs carry distinct names, so the
/// frame denotes a finite map from name to value.
pub struct Scope {
    vars: Vec<(String, Data)>,
}

/// The map a sequence of name/value pairs denotes; a later pair for the
/// same name would win, but well-formed frames hold each name once.
pub open spec fn map_of(s: Seq<(String, Data)>) -> Map<Seq<char>, DataV>
    decreases s.len(),
{
    if s.len() == 0 {
        Map::empty()
    } else {
        map_of(s.drop_last()).insert(s.last().0@, s.last().1@)
    }
}

/// Whether a sequence of pairs holds each name at most once.
pub open spec fn distinct_keys(s: Seq<(String, Data)>) -> bool {
    forall|i: int, j: int| 0 <= i < j < s.len() ==> s[i].0@ != s[j].0@
}

/// What a map holds at a key, if anything.
pub open spec fn map_get(m: Map<Seq<char>, DataV>, k: Seq<char>) -> Option<DataV> {
    if m.contains_key(k) {
        Some(m[k])
    } else {
        None
    }
}

proof fn lemma_map_of_contains(s: Seq<(String, Data)>, k: Seq<char>)
    ensures
        map_of(s).contains_key(k) <==> exists|i: int| 0 <= i < s.len() && s[i].0@ == k,
    decreases s.len(),
{
    if s.len() > 0 {
        lemma_map_of_contains(s.drop_last(), k);
        if s.last().0@ == k {
            assert(s[s.len() - 1].0@ == k);
        } else {
            if exists|i: int| 0 <= i < s.len() && s[i].0@ == k {
                let i = choose|i: int| 0 <= i < s.len() && s[i].0@ == k;
                assert(s.drop_last()[i] == s[i]);
            }
        }
    }
}

proof fn lemma_map_of_value(s: Seq<(String, Data)>, i: int)
    requires
        distinct_keys(s),
        0 <= i < s.len(),
    ensures
        map_of(s).contains_key(s[i].0@),
        map_of(s)[s[i].0@] == s[i].1@,
    decreases s.len(),
{
    if i == s.len() - 1 {
    } else {
        assert(distinct_keys(s.drop_last()));
        assert(s.drop_last()[i] == s[i]);
        lemma_map_of_value(s.drop_last(), i);
        assert(s[i].0@ != s.last().0@);
    }
}

proof fn lemma_map_of_update(s: Seq<(String, Data)>, i: int, v: Data)
    requires
        distinct_keys(s),
        0 <= i < s.len(),
    ensures
        map_of(s.update(i, (s[i].0, v))) == map_of(s).insert(s[i].0@, v@),
    decreases s.len(),
{
    let t = s.update(i, (s[i].0, v));
    if i == s.len() - 1 {
        assert(t.drop_last() =~= s.drop_last());
        assert(map_of(t) =~= map_of(s).insert(s[i].0@, v@));
    } else {
        assert(distinct_keys(s.drop_last()));
        assert(s.drop_last()[i] == s[i]);
        lemma_map_of_update(s.drop_last(), i, v);
        assert(t.drop_last() =~= s.drop_last().update(i, (s[i].0, v)));
        assert(t.last() == s.last());
        assert(s[i].0@ != s.last().0@);
        assert(map_of(t) =~= map_of(s).insert(s[i].0@, v@));
    }
}

impl View for Scope {
    type V = Map<Seq<char>, DataV>;

    closed spec fn view(&self) -> Map<Seq<char>, DataV> {
        map_of(self.vars@)
    }
}

impl Scope {
    /// Whether the frame holds each name at most once.
    pub closed spec fn wf(&self) -> bool {
        distinct_keys(self.vars@)
    }

    /// An empty frame.
    pub fn new() -> (r: Scope)
        ensures
            r@ == Map::<Seq<char>, DataV>::empty(),
            r.wf(),
    {
        Scope { vars: Vec::new() }
    }

    /// The value bound to a name in this frame, cloned, if any.
    pub fn get(&self, name: &str) -> (r: Option<Data>)
        requires
            self.wf(),
        ensures
            r.deep_view() == map_get(self@, name@),
    {
        let mut i: usize = 0;
        while i < self.vars.len()
            invariant
                self.wf(),
                i <= self.vars@.len(),
                forall|j: int| 0 <= j < i ==> self.vars@[j].0@ != name@,
            decreases self.vars@.len() - i,
        {
            if str_eq(self.vars[i].0.as_str(), name) {
                proof {
                    lemma_map_of_value(self.vars@, i as int);
                }
                return Some(self.vars[i].1.clone());
            }
            i += 1;
        }
        proof {
            lemma_map_of_contains(self.vars@, name@);
        }
        None
    }

    /// Whether this frame binds a name.
    pub fn contains(&self, name: &str) -> (r: bool)
        requires
            self.wf(),
        ensures
            r == self@.contains_key(name@),
    {
        proof {
            lemma_map_of_contains(self.vars@, name@);
        }
        let mut i: usize = 0;
        while i < self.vars.len()
            invariant
                self.wf(),
                i <= self.vars@.len(),
                forall|j: int| 0 <= j < i ==> self.vars@[j].0@ != name@,
            decreases self.vars@.len() - i,
        {
            if str_eq(self.vars[i].0.as_str(), name) {
                proof {
                    lemma_map_of_contains(self.vars@, name@);
                }
                return true;
            }
            i += 1;
        }
        proof {
            lemma_map_of_contains(self.vars@, name@);
        }
        false
    }

    /// Bind a name in this frame, overwriting any previous binding.
    pub fn set(&mut self, name: &str, val: Data)
        requires
            old(self).wf(),
        ensures
            final(self).wf(),
            final(self)@ == old(self)@.insert(name@, val@),
    {
        let n = self.vars.len();
        let mut i: usize = 0;
        while i < n
            invariant
                self.wf(),
                n == self.vars@.len(),
                i <= n,
                self.vars@ == old(self).vars@,
                forall|j: int| 0 <= j < i ==> self.vars@[j].0@ != name@,
            decreases n - i,
        {
            if str_eq(self.vars[i].0.as_str(), name) {
                proof {
                    lemma_map_of_value(self.vars@, i as int);
                    lemma_map_of_update(self.vars@, i as int, val);
                }
                self.vars[i].1 = val;
                assert(self.vars@ =~= old(self).vars@.update(
                    i as int,
                    (old(self).vars@[i as int].0, val),
                ));
                return ;
            }
            i += 1;
        }
        proof {
            lemma_map_of_contains(self.vars@, name@);
        }
        self.vars.push((name.to_owned(), val));
        proof {
            assert(self.vars@.drop_last() =~= old(self).vars@);
        }
    }
}

/// Relies on `str`'s `PartialEq`: true exactly when the two slices hold the
/// same characters.
#[verifier::external_body]
pub(crate) fn str_eq(a: &str, b: &str) -> (r: bool)
    ensures
        r == (a@ == b@),
{
    a == b
}

/// The whole scope chain: at least one frame, innermost last.
pub struct ScopeTree {
    pub frames: Vec<Scope>,
}

/// The innermost frame that binds a name: the largest index whose frame
/// holds the name, or -1 when none does.
pub open spec fn spec_lookup_frame(env: Seq<Map<Seq<char>, DataV>>, k: Seq<char>) -> int
    decreases env.len(),
{
    if env.len() == 0 {
        -1
    } else if env.last().contains_key(k) {
        env.len() - 1
    } else {
        spec_lookup_frame(env.drop_last(), k)
    }
}

/// The value a lookup of a name yields: the binding of the innermost frame
/// that holds one.
pub open spec fn spec_lookup(env: Seq<Map<Seq<char>, DataV>>, k: Seq<char>) -> Option<DataV> {
    let i = spec_lookup_frame(env, k);
    if i < 0 {
        None
    } else {
        Some(env[i][k])
    }
}

/// What an assignment does to the chain: overwrite the binding in the
/// innermost frame that has one, else bind in the innermost frame.
pub open spec fn spec_assign(
    env: Seq<Map<Seq<char>, DataV>>,
    k: Seq<char>,
    v: DataV,
) -> Seq<Map<Seq<char>, DataV>> {
    let i = spec_lookup_frame(env, k);
    if i >= 0 {
        env.update(i, env[i].insert(k, v))
    } else if env.len() > 0 {
        env.update(env.len() - 1, env.last().insert(k, v))
    } else {
        env
    }
}

proof fn lemma_lookup_frame_below(env: Seq<Map<Seq<char>, DataV>>, k: Seq<char>, i: int)
    requires
        0 <= i <= env.len(),
        forall|j: int| i <= j < env.len() ==> !env[j].contains_key(k),
    ensures
        spec_lookup_frame(env, k) == spec_lookup_frame(env.subrange(0, i), k),
    decreases env.len() - i,
{
    if i == env.len() {
        assert(env.subrange(0, i) =~= env);
    } else {
        assert(!env.last().contains_key(k));
        assert(env.drop_last() =~= env.subrange(0, env.len() - 1));
        lemma_lookup_frame_below(env.subrange(0, env.len() - 1), k, i);
        assert(env.subrange(0, env.len() - 1).subrange(0, i) =~= env.subrange(0, i));
    }
}

/// The innermost frame that binds a name is a real frame and binds it.
pub proof fn lemma_lookup_frame_range(env: Seq<Map<Seq<char>, DataV>>, k: Seq<char>)
    ensures
        -1 <= spec_lookup_frame(env, k) < env.len(),
        spec_lookup_frame(env, k) >= 0 ==> env[spec_lookup_frame(env, k)].contains_key(k),
    decreases env.len(),
{
    if env.len() > 0 && !env.last().contains_key(k) {
        lemma_lookup_frame_range(env.drop_last(), k);
        let f = spec_lookup_frame(env.drop_last(), k);
        if f >= 0 {
            assert(env.drop_last()[f] == env[f]);
        }
    }
}

/// What an assignment does to frame domains: every frame but the
/// innermost keeps its domain exactly, and the innermost at most gains the
/// assigned name.
pub proof fn lemma_assign_domains(env: Seq<Map<Seq<char>, DataV>>, k: Seq<char>, v: DataV)
    ensures
        spec_assign(env, k, v).len() == env.len(),
        forall|i: int|
            0 <= i < env.len() - 1 ==> #[trigger] spec_assign(env, k, v)[i].dom() == env[i].dom(),
        env.len() >= 1 ==> env.last().dom().subset_of(spec_assign(env, k, v).last().dom()),
{
    lemma_lookup_frame_range(env, k);
    let f = spec_lookup_frame(env, k);
    if f >= 0 {
        assert(env[f].insert(k, v).dom() =~= env[f].dom());
    } else if env.len() >= 1 {
        assert(env.last().dom().subset_of(env.last().insert(k, v).dom()));
    }
}

impl View for ScopeTree {
    type V = Seq<Map<Seq<char>, DataV>>;

    open spec fn view(&self) -> Seq<Map<Seq<char>, DataV>> {
        Seq::new(self.frames@.len(), |i: int| self.frames@[i]@)
    }
}

impl ScopeTree {
    /// Whether every frame is well-formed and at least one frame exists.
    pub open spec fn wf(&self) -> bool {
        &&& self.frames@.len() >= 1
        &&& forall|i: int| 0 <= i < self.frames@.len() ==> self.frames@[i].wf()
    }

    /// A chain of one empty frame.
    pub fn new() -> (r: ScopeTree)
        ensures
            r.wf(),
            r@ =~= seq![Map::<Seq<char>, DataV>::empty()],
    {
        let mut frames: Vec<Scope> = Vec::new();
        frames.push(Scope::new());
        ScopeTree { frames }
    }

    /// The value bound to a name, searching frames innermost-first; the
    /// first binding found is cloned and returned.
    pub fn var(&self, name: &str) -> (r: Option<Data>)
        requires
            self.wf(),
        ensures
            r.deep_view() == spec_lookup(self@, name@),
    {
        let mut i: usize = self.frames.len();
        while i > 0
            invariant
                self.wf(),
                i <= self.frames@.len(),
                forall|j: int| i <= j < self@.len() ==> !self@[j].contains_key(name@),
            decreases i,
        {
            i -= 1;
            match self.frames[i].get(name) {
                Some(d) => {
                    proof {
                        lemma_lookup_frame_below(self@, name@, i + 1);
                        assert(self@.subrange(0, i + 1).last() == self@[i as int]);
                        assert(spec_lookup_frame(self@, name@) == i as int);
                    }
                    return Some(d);
                },
                None => {},
            }
        }
        proof {
            lemma_lookup_frame_below(self@, name@, 0);
        }
        None
    }

    /// Assign a value to a name: overwrite the innermost existing binding,
    /// or create one in the innermost frame.
    pub fn set_var(&mut self, name: &str, val: Data)
        requires
            old(self).wf(),
        ensures
            final(self).wf(),
            final(self)@ == spec_assign(old(self)@, name@, val@),
            final(self)@.len() == old(self)@.len(),
    {
        let ghost env = self@;
        let mut i: usize = self.frames.len();
        while i > 0
            invariant
                self.wf(),
                env == old(self)@,
                self@ == env,
                i <= self.frames@.len(),
                forall|j: int| i <= j < self@.len() ==> !self@[j].contains_key(name@),
            decreases i,
        {
            i -= 1;
            if self.frames[i].contains(name) {
                proof {
                    lemma_lookup_frame_below(env, name@, i + 1);
                    assert(env.subrange(0, i + 1).last() == env[i as int]);
                    assert(spec_lookup_frame(env, name@) == i as int);
                }
                let frame = &mut self.frames[i];
                frame.set(name, val);
                proof {
                    assert(self@ =~= spec_assign(env, name@, val@));
                }
                return ;
            }
        }
        proof {
            lemma_lookup_frame_below(env, name@, 0);
            assert(spec_lookup_frame(env, name@) == -1);
        }
        let last = self.frames.len() - 1;
        let frame = &mut self.frames[last];
        frame.set(name, val);
        proof {
            assert(self@ =~= spec_assign(env, name@, val@));
        }
    }
}

} // verus!

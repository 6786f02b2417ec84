//! The environment: lexically nested binding frames held in an arena and
//! addressed by index.
//!
//! A frame maps identifiers to values and links to its parent frame by
//! index; the root frame has no parent. A frame also carries the list of
//! imported module frames (consulted after the parent chain fails) and a
//! `binding_context` flag set while a top-level definition executes.
//!
//! Frames are never removed while an engine lives; dropping the engine (or
//! clearing its bindings) releases them all. The mathematical model of an
//! environment is a sequence of frame models whose binding lists are read
//! as maps.

use vstd::prelude::*;

use crate::ast::str_eq;
use crate::errors::{ErrorKind, SteelErr};
use crate::values::{clone_value, Prim, Value, ValueModel};

verus! {

broadcast use vstd::seq::group_seq_axioms, vstd::std_specs::vec::group_vec_axioms;

/// One binding frame.
#[derive(Debug)]
pub struct Frame {
    /// Bindings in insertion order; a later entry for the same name
    /// shadows an earlier one.
    pub bindings: Vec<(String, Value)>,
    /// Parent frame index; `None` for a root frame.
    pub parent: Option<usize>,
    /// Imported module frames, consulted after the parent chain.
    pub modules: Vec<usize>,
    /// Whether this frame is currently executing a top-level definition.
    pub binding_context: bool,
}

/// Model of one frame: bindings as a map.
#[verifier::ext_equal]
pub struct FrameModel {
    pub bindings: Map<Seq<char>, ValueModel>,
    pub parent: Option<int>,
    pub modules: Seq<int>,
    pub binding_context: bool,
}

/// The map an association list denotes: later entries win.
pub open spec fn assoc_map(s: Seq<(Seq<char>, ValueModel)>) -> Map<Seq<char>, ValueModel>
    decreases s.len(),
{
    if s.len() == 0 {
        Map::empty()
    } else {
        assoc_map(s.drop_last()).insert(s.last().0, s.last().1)
    }
}

impl View for Frame {
    type V = FrameModel;

    open spec fn view(&self) -> FrameModel {
        FrameModel {
            bindings: assoc_map(self.bindings.deep_view()),
            parent: match self.parent {
                Some(p) => Some(p as int),
                None => None,
            },
            modules: Seq::new(self.modules@.len(), |i: int| self.modules@[i] as int),
            binding_context: self.binding_context,
        }
    }
}

impl DeepView for Frame {
    type V = FrameModel;

    open spec fn deep_view(&self) -> FrameModel {
        self@
    }
}

/// The whole environment: an arena of frames. Index 0 is the root frame of
/// the engine that owns it.
#[derive(Debug)]
pub struct Env {
    pub frames: Vec<Frame>,
}

/// Model of the environment.
#[verifier::ext_equal]
pub struct EnvModel {
    pub frames: Seq<FrameModel>,
}

impl View for Env {
    type V = EnvModel;

    open spec fn view(&self) -> EnvModel {
        EnvModel { frames: self.frames.deep_view() }
    }
}

impl EnvModel {
    /// Structural soundness: parent links point strictly downward, so
    /// lookups terminate, and module links are valid frame indices.
    pub open spec fn wf(self) -> bool {
        forall|i: int|
            0 <= i < self.frames.len() ==> (#[trigger] self.frames[i]).wf_at(
                i,
                self.frames.len() as int,
            )
    }

    /// The environment after inserting a binding into frame `i`.
    pub open spec fn define_at(self, i: int, name: Seq<char>, v: ValueModel) -> EnvModel {
        EnvModel {
            frames: self.frames.update(
                i,
                FrameModel { bindings: self.frames[i].bindings.insert(name, v), ..self.frames[i] },
            ),
        }
    }

    /// The environment after appending a fresh frame with the given parent.
    pub open spec fn push_frame(self, parent: int) -> EnvModel {
        EnvModel {
            frames: self.frames.push(
                FrameModel {
                    bindings: Map::empty(),
                    parent: Some(parent),
                    modules: Seq::empty(),
                    binding_context: false,
                },
            ),
        }
    }
}

impl FrameModel {
    /// The parent of a frame stored at index `i` lies strictly below `i`;
    /// its module imports lie anywhere in the arena of `n` frames.
    pub open spec fn wf_at(self, i: int, n: int) -> bool {
        &&& (self.parent matches Some(p) ==> 0 <= p < i)
        &&& (forall|k: int| 0 <= k < self.modules.len() ==> 0 <= #[trigger] self.modules[k] < n)
    }
}

/// The binding of `name` in the chain from frame `i` upward: the frame's
/// own bindings first, then its parents'. Module imports are not consulted.
pub open spec fn chain_lookup(env: EnvModel, i: int, name: Seq<char>) -> Option<ValueModel>
    decreases i + 1,
{
    if !(0 <= i < env.frames.len()) {
        None
    } else if env.frames[i].bindings.contains_key(name) {
        Some(env.frames[i].bindings[name])
    } else {
        match env.frames[i].parent {
            Some(p) => if 0 <= p < i {
                chain_lookup(env, p, name)
            } else {
                None
            },
            None => None,
        }
    }
}

/// The binding of `name` among the module frames imported along the chain
/// from frame `i` upward: each frame's imports are tried in order, own
/// imports before the parent's. Only a module frame's own bindings are
/// read: they are its exports.
pub open spec fn module_lookup(env: EnvModel, i: int, name: Seq<char>) -> Option<ValueModel>
    decreases i + 1,
{
    if !(0 <= i < env.frames.len()) {
        None
    } else {
        match module_find(env, env.frames[i].modules, 0, name) {
            Some(v) => Some(v),
            None => match env.frames[i].parent {
                Some(p) => if 0 <= p < i {
                    module_lookup(env, p, name)
                } else {
                    None
                },
                None => None,
            },
        }
    }
}

/// The binding of `name` in the exports of `mods[k..]`: only each module
/// frame's own bindings are read, so no recursion through frames arises.
pub open spec fn module_find(env: EnvModel, mods: Seq<int>, k: int, name: Seq<char>) -> Option<
    ValueModel,
>
    decreases mods.len() - k,
{
    if k < 0 || k >= mods.len() {
        None
    } else {
        let m = mods[k];
        if 0 <= m < env.frames.len() && env.frames[m].bindings.contains_key(name) {
            Some(env.frames[m].bindings[name])
        } else {
            module_find(env, mods, k + 1, name)
        }
    }
}

/// Full lookup: the chain first, then imported modules, as the evaluator
/// sees it from frame `i`.
pub open spec fn lookup_model(env: EnvModel, i: int, name: Seq<char>) -> Option<ValueModel> {
    match chain_lookup(env, i, name) {
        Some(v) => Some(v),
        None => module_lookup(env, i, name),
    }
}

/// The environment after `set!` of `name` from frame `i`: the nearest
/// binding along the parent chain is rebound; `None` when there is none.
pub open spec fn set_model(env: EnvModel, i: int, name: Seq<char>, v: ValueModel) -> Option<
    EnvModel,
>
    decreases i + 1,
{
    if !(0 <= i < env.frames.len()) {
        None
    } else if env.frames[i].bindings.contains_key(name) {
        Some(env.define_at(i, name, v))
    } else {
        match env.frames[i].parent {
            Some(p) => if 0 <= p < i {
                set_model(env, p, name, v)
            } else {
                None
            },
            None => None,
        }
    }
}

/// Taking a prefix of an association list then reading it as a map is the
/// same as inserting the next entry into the shorter prefix's map.
proof fn lemma_assoc_take_step(s: Seq<(Seq<char>, ValueModel)>, i: int)
    requires
        0 <= i < s.len(),
    ensures
        assoc_map(s.take(i + 1)) == assoc_map(s.take(i)).insert(s[i].0, s[i].1),
{
    assert(s.take(i + 1).drop_last() =~= s.take(i));
    assert(s.take(i + 1).last() == s[i]);
}

/// Scanning an association list from the end finds exactly the map's
/// binding. Stated over the prefix up to `n`.
proof fn lemma_assoc_prefix(s: Seq<(Seq<char>, ValueModel)>, n: int, name: Seq<char>)
    requires
        0 <= n <= s.len(),
        forall|j: int| n <= j < s.len() ==> (#[trigger] s[j]).0 != name,
    ensures
        assoc_map(s).contains_key(name) == assoc_map(s.take(n)).contains_key(name),
        assoc_map(s).contains_key(name) ==> assoc_map(s)[name] == assoc_map(s.take(n))[name],
    decreases s.len() - n,
{
    if n < s.len() {
        lemma_assoc_prefix(s, n + 1, name);
        lemma_assoc_take_step(s, n);
    } else {
        assert(s.take(n) =~= s);
    }
}

/// Updating the last occurrence of a key rewrites the map binding.
proof fn lemma_assoc_update(s: Seq<(Seq<char>, ValueModel)>, i: int, e: (Seq<char>, ValueModel))
    requires
        0 <= i < s.len(),
        s[i].0 == e.0,
        forall|j: int| i < j < s.len() ==> (#[trigger] s[j]).0 != e.0,
    ensures
        assoc_map(s.update(i, e)) == assoc_map(s).insert(e.0, e.1),
    decreases s.len(),
{
    let t = s.update(i, e);
    if i == s.len() - 1 {
        assert(t.drop_last() =~= s.drop_last());
        assert(t.last() == e);
        assert(s.last().0 == e.0);
        assert(assoc_map(s.drop_last()).insert(s.last().0, s.last().1).insert(e.0, e.1)
            =~= assoc_map(s.drop_last()).insert(e.0, e.1));
    } else {
        lemma_assoc_update(s.drop_last(), i, e);
        assert(t.drop_last() =~= s.drop_last().update(i, e));
        assert(t.last() == s.last());
        assert(assoc_map(s.drop_last()).insert(e.0, e.1).insert(s.last().0, s.last().1)
            =~= assoc_map(s.drop_last()).insert(s.last().0, s.last().1).insert(e.0, e.1));
    }
}

/// Finds the last binding of `name` in a frame's list: its index and value.
fn find_binding(bindings: &Vec<(String, Value)>, name: &String) -> (r: Option<usize>)
    ensures
        (match r {
            Some(i) => {
                &&& i < bindings@.len()
                &&& bindings.deep_view()[i as int].0 == name@
                &&& (forall|j: int|
                    i < j < bindings@.len() ==> (#[trigger] bindings.deep_view()[j]).0 != name@)
                &&& assoc_map(bindings.deep_view()).contains_key(name@)
                &&& assoc_map(bindings.deep_view())[name@] == bindings.deep_view()[i as int].1
            },
            None => !assoc_map(bindings.deep_view()).contains_key(name@),
        }),
{
    let ghost s = bindings.deep_view();
    let mut i: usize = bindings.len();
    while i > 0
        invariant
            i <= bindings@.len(),
            s == bindings.deep_view(),
            s.len() == bindings@.len(),
            forall|j: int| i <= j < s.len() ==> (#[trigger] s[j]).0 != name@,
        decreases i,
    {
        i = i - 1;
        if str_eq(&bindings[i].0, name) {
            proof {
                lemma_assoc_prefix(s, i + 1, name@);
                lemma_assoc_take_step(s, i as int);
            }
            return Some(i);
        }
    }
    proof {
        lemma_assoc_prefix(s, 0, name@);
        assert(s.take(0) =~= Seq::<(Seq<char>, ValueModel)>::empty());
    }
    None
}

impl Env {
    /// An environment holding a single empty root frame.
    pub fn empty_root() -> (r: Env)
        ensures
            r@.frames.len() == 1,
            r@.frames[0].bindings == Map::<Seq<char>, ValueModel>::empty(),
            r@.frames[0].parent is None,
            r@.frames[0].modules == Seq::<int>::empty(),
            !r@.frames[0].binding_context,
            r@.wf(),
            r@ == empty_env_model(),
    {
        let mut frames: Vec<Frame> = Vec::new();
        frames.push(
            Frame { bindings: Vec::new(), parent: None, modules: Vec::new(), binding_context: false },
        );
        let r = Env { frames };
        proof {
            assert(r@.frames[0].modules =~= Seq::<int>::empty());
            assert(r@.frames[0].bindings =~= Map::<Seq<char>, ValueModel>::empty());
            assert(r@.frames =~= empty_env_model().frames);
        }
        r
    }

    /// Number of frames in the arena.
    pub fn frame_count(&self) -> (r: usize)
        ensures
            r == self@.frames.len(),
    {
        self.frames.len()
    }

    /// Appends a fresh empty frame whose parent is `parent`.
    pub fn new_frame(&mut self, parent: usize) -> (r: usize)
        requires
            parent < old(self)@.frames.len(),
        ensures
            r == old(self)@.frames.len(),
            final(self)@ == old(self)@.push_frame(parent as int),
            old(self)@.wf() ==> final(self)@.wf(),
    {
        let idx = self.frames.len();
        self.frames.push(
            Frame {
                bindings: Vec::new(),
                parent: Some(parent),
                modules: Vec::new(),
                binding_context: false,
            },
        );
        proof {
            let f = self@.frames.last();
            assert(f.bindings =~= Map::<Seq<char>, ValueModel>::empty());
            assert(f.modules =~= Seq::<int>::empty());
            assert(self@.frames =~= old(self)@.push_frame(parent as int).frames);
            if old(self)@.wf() {
                let n = self@.frames.len() as int;
                assert forall|i: int| 0 <= i < n implies (#[trigger] self@.frames[i]).wf_at(i, n)
                    by {
                    if i < old(self)@.frames.len() {
                        assert(old(self)@.frames[i].wf_at(i, n - 1));
                    }
                }
            }
        }
        idx
    }

    /// Binds `name` to `v` in frame `frame`, shadowing any earlier binding.
    pub fn define(&mut self, frame: usize, name: String, v: Value)
        requires
            frame < old(self)@.frames.len(),
        ensures
            final(self)@ == old(self)@.define_at(frame as int, name@, v@),
            final(self)@.frames.len() == old(self)@.frames.len(),
            old(self)@.wf() ==> final(self)@.wf(),
    {
        let ghost pre = self@;
        let ghost nv = name@;
        let ghost vv = v@;
        let f = &mut self.frames[frame];
        f.bindings.push((name, v));
        proof {
            let i = frame as int;
            let sb = old(self).frames@[i].bindings.deep_view();
            let nb = self.frames@[i].bindings.deep_view();
            assert(nb.drop_last() =~= sb);
            assert(nb.last() == (nv, vv));
            assert(pre.frames[i].bindings == assoc_map(sb));
            assert(self@.frames[i].bindings == assoc_map(sb).insert(nv, vv));
            assert(self@.frames =~= pre.define_at(i, nv, vv).frames);
            if pre.wf() {
                let n = self@.frames.len() as int;
                assert forall|k: int| 0 <= k < n implies (#[trigger] self@.frames[k]).wf_at(k, n)
                    by {
                    assert(pre.frames[k].wf_at(k, n));
                }
            }
        }
    }

    /// Searches the exports of the module frames imported by frame `i`.
    fn module_scan(&self, i: usize, name: &String) -> (r: Option<Value>)
        requires
            self@.wf(),
            i < self@.frames.len(),
        ensures
            (match module_find(self@, self@.frames[i as int].modules, 0, name@) {
                Some(v) => r matches Some(rv) && rv@ == v,
                None => r is None,
            }),
    {
        let ghost mods = self@.frames[i as int].modules;
        let mut k: usize = 0;
        let n = self.frames[i].modules.len();
        proof {
            assert(mods.len() == n as int);
        }
        while k < n
            invariant
                self@.wf(),
                i < self@.frames.len(),
                k <= n,
                n == self.frames@[i as int].modules@.len(),
                mods == self@.frames[i as int].modules,
                module_find(self@, mods, 0, name@) == module_find(self@, mods, k as int, name@),
            decreases n - k,
        {
            let m = self.frames[i].modules[k];
            proof {
                assert(self@.frames[i as int].wf_at(i as int, self@.frames.len() as int));
                assert(mods[k as int] == m as int);
            }
            if let Some(idx) = find_binding(&self.frames[m].bindings, name) {
                let v = clone_value(&self.frames[m].bindings[idx].1);
                return Some(v);
            }
            k = k + 1;
        }
        None
    }

    /// Looks the name up from frame `frame`: the frame, its parents, then
    /// the imported modules along that chain; `FreeIdentifier` if absent.
    pub fn lookup(&self, frame: usize, name: &String) -> (r: Result<Value, SteelErr>)
        requires
            self@.wf(),
            frame < self@.frames.len(),
        ensures
            (match lookup_model(self@, frame as int, name@) {
                Some(v) => r matches Ok(rv) && rv@ == v,
                None => r matches Err(e) && e@ == ErrorKind::FreeIdentifier,
            }),
    {
        let mut i = frame;
        loop
            invariant
                self@.wf(),
                i < self@.frames.len(),
                chain_lookup(self@, frame as int, name@) == chain_lookup(self@, i as int, name@),
            ensures
                chain_lookup(self@, frame as int, name@) is None,
            decreases i,
        {
            if let Some(idx) = find_binding(&self.frames[i].bindings, name) {
                let v = clone_value(&self.frames[i].bindings[idx].1);
                return Ok(v);
            }
            proof {
                assert(self@.frames[i as int].wf_at(i as int, self@.frames.len() as int));
            }
            match self.frames[i].parent {
                Some(p) => {
                    i = p;
                },
                None => {
                    break ;
                },
            }
        }
        // The chain is exhausted: consult imported modules along the chain.
        let mut j = frame;
        loop
            invariant
                self@.wf(),
                j < self@.frames.len(),
                chain_lookup(self@, frame as int, name@) is None,
                module_lookup(self@, frame as int, name@) == module_lookup(self@, j as int, name@),
            ensures
                module_lookup(self@, frame as int, name@) is None,
            decreases j,
        {
            if let Some(v) = self.module_scan(j, name) {
                return Ok(v);
            }
            proof {
                assert(self@.frames[j as int].wf_at(j as int, self@.frames.len() as int));
            }
            match self.frames[j].parent {
                Some(p) => {
                    j = p;
                },
                None => {
                    break ;
                },
            }
        }
        Err(SteelErr::new(ErrorKind::FreeIdentifier, name.clone()))
    }

    /// Rebinds the nearest binding of `name` in scope from frame `frame`;
    /// `FreeIdentifier` when no binding exists.
    pub fn set(&mut self, frame: usize, name: String, v: Value) -> (r: Result<(), SteelErr>)
        requires
            old(self)@.wf(),
            frame < old(self)@.frames.len(),
        ensures
            final(self)@.wf(),
            final(self)@.frames.len() == old(self)@.frames.len(),
            (match set_model(old(self)@, frame as int, name@, v@) {
                Some(env2) => r matches Ok(u) && final(self)@ == env2,
                None => r matches Err(e) && e@ == ErrorKind::FreeIdentifier && final(self)@ == old(
                    self,
                )@,
            }),
    {
        let ghost pre = self@;
        let mut i = frame;
        loop
            invariant
                pre == old(self)@,
                self@ == pre,
                pre.wf(),
                i < pre.frames.len(),
                set_model(pre, frame as int, name@, v@) == set_model(pre, i as int, name@, v@),
            ensures
                self@ == pre,
                set_model(pre, frame as int, name@, v@) is None,
            decreases i,
        {
            let found = find_binding(&self.frames[i].bindings, &name);
            if let Some(idx) = found {
                let ghost sb = self.frames@[i as int].bindings.deep_view();
                let ghost nv = name@;
                let ghost vv = v@;
                let fr = &mut self.frames[i];
                let slot = &mut fr.bindings[idx];
                *slot = (name, v);
                proof {
                    let nb = self.frames@[i as int].bindings.deep_view();
                    assert(nb =~= sb.update(idx as int, (nv, vv)));
                    lemma_assoc_update(sb, idx as int, (nv, vv));
                    assert(self@.frames[i as int].bindings == assoc_map(sb).insert(nv, vv));
                    assert(self@.frames =~= pre.define_at(i as int, nv, vv).frames);
                    let n = self@.frames.len() as int;
                    assert forall|k: int| 0 <= k < n implies (#[trigger] self@.frames[k]).wf_at(
                        k,
                        n,
                    ) by {
                        assert(pre.frames[k].wf_at(k, n));
                    }
                }
                return Ok(());
            }
            proof {
                assert(pre.frames[i as int].wf_at(i as int, pre.frames.len() as int));
            }
            match self.frames[i].parent {
                Some(p) => {
                    i = p;
                },
                None => {
                    break ;
                },
            }
        }
        Err(SteelErr::new(ErrorKind::FreeIdentifier, name))
    }

    /// True when `frame` is a root frame (it has no parent).
    pub fn is_root(&self, frame: usize) -> (r: bool)
        requires
            frame < self@.frames.len(),
        ensures
            r == (self@.frames[frame as int].parent is None),
    {
        self.frames[frame].parent.is_none()
    }

    /// Reads the binding-context flag of a frame.
    pub fn is_binding_context(&self, frame: usize) -> (r: bool)
        requires
            frame < self@.frames.len(),
        ensures
            r == self@.frames[frame as int].binding_context,
    {
        self.frames[frame].binding_context
    }

    /// Sets the binding-context flag of a frame.
    pub fn set_binding_context(&mut self, frame: usize, value: bool)
        requires
            frame < old(self)@.frames.len(),
        ensures
            final(self)@.frames =~= old(self)@.frames.update(
                frame as int,
                FrameModel { binding_context: value, ..old(self)@.frames[frame as int] },
            ),
            old(self)@.wf() ==> final(self)@.wf(),
    {
        let ghost pre = self@;
        let fr = &mut self.frames[frame];
        fr.binding_context = value;
        proof {
            assert(final(fr)@ == FrameModel {
                binding_context: value,
                ..pre.frames[frame as int]
            });
            if pre.wf() {
                let n = self@.frames.len() as int;
                assert forall|k: int| 0 <= k < n implies (#[trigger] self@.frames[k]).wf_at(k, n)
                    by {
                    assert(pre.frames[k].wf_at(k, n));
                }
            }
        }
    }

    /// Records `module_frame` as an import of `frame`, consulted by lookups
    /// after the parent chain.
    pub fn add_module(&mut self, frame: usize, module_frame: usize)
        requires
            frame < old(self)@.frames.len(),
            module_frame < old(self)@.frames.len(),
        ensures
            final(self)@.frames =~= old(self)@.frames.update(
                frame as int,
                FrameModel {
                    modules: old(self)@.frames[frame as int].modules.push(module_frame as int),
                    ..old(self)@.frames[frame as int]
                },
            ),
            old(self)@.wf() ==> final(self)@.wf(),
    {
        let ghost pre = self@;
        let fr = &mut self.frames[frame];
        fr.modules.push(module_frame);
        proof {
            assert(final(fr)@.modules =~= pre.frames[frame as int].modules.push(
                module_frame as int,
            ));
            if pre.wf() {
                let n = self@.frames.len() as int;
                assert forall|k: int| 0 <= k < n implies (#[trigger] self@.frames[k]).wf_at(k, n)
                    by {
                    assert(pre.frames[k].wf_at(k, n));
                }
            }
        }
    }

    /// Clears the bindings of every frame; the frame structure remains.
    /// This is the teardown path: it releases everything the session bound.
    pub fn clear_bindings(&mut self)
        ensures
            final(self)@.frames.len() == old(self)@.frames.len(),
            forall|i: int|
                0 <= i < final(self)@.frames.len() ==> (#[trigger] final(self)@.frames[i]).bindings
                    == Map::<Seq<char>, ValueModel>::empty(),
            old(self)@.wf() ==> final(self)@.wf(),
    {
        let ghost pre = self@;
        let n = self.frames.len();
        let mut i: usize = 0;
        while i < n
            invariant
                n == self@.frames.len(),
                self@.frames.len() == pre.frames.len(),
                i <= n,
                forall|k: int|
                    0 <= k < i as int ==> (#[trigger] self@.frames[k]).bindings == Map::<
                        Seq<char>,
                        ValueModel,
                    >::empty(),
                forall|k: int|
                    i as int <= k < n as int ==> #[trigger] self@.frames[k] == pre.frames[k],
                forall|k: int|
                    0 <= k < n as int ==> (#[trigger] self@.frames[k]).parent == pre.frames[
                        k
                    ].parent && self@.frames[k].modules == pre.frames[k].modules,
            decreases n - i,
        {
            let ghost snap = self@;
            let fr = &mut self.frames[i];
            fr.bindings = Vec::new();
            proof {
                let ii = i as int;
                assert(self@.frames[ii].bindings =~= Map::<Seq<char>, ValueModel>::empty());
                assert(forall|k: int|
                    0 <= k < n as int && k != ii ==> #[trigger] self@.frames[k] == snap.frames[k]);
                assert(self@.frames[ii].parent == snap.frames[ii].parent);
                assert(self@.frames[ii].modules == snap.frames[ii].modules);
            }
            i = i + 1;
        }
        proof {
            if pre.wf() {
                let m = self@.frames.len() as int;
                assert forall|k: int| 0 <= k < m implies (#[trigger] self@.frames[k]).wf_at(k, m)
                    by {
                    assert(pre.frames[k].wf_at(k, m));
                }
            }
        }
    }
}

/// The bindings every engine starts from: the built-in primitives under
/// their source names.
pub open spec fn default_bindings() -> Map<Seq<char>, ValueModel> {
    Map::empty().insert("+"@, ValueModel::Func(Prim::Add)).insert(
        "-"@,
        ValueModel::Func(Prim::Sub),
    ).insert("*"@, ValueModel::Func(Prim::Mul)).insert("/"@, ValueModel::Func(Prim::Div)).insert(
        "="@,
        ValueModel::Func(Prim::NumEq),
    ).insert("<"@, ValueModel::Func(Prim::Lt)).insert(">"@, ValueModel::Func(Prim::Gt)).insert(
        "<="@,
        ValueModel::Func(Prim::Leq),
    ).insert(">="@, ValueModel::Func(Prim::Geq)).insert(
        "list"@,
        ValueModel::Func(Prim::ListNew),
    ).insert("cons"@, ValueModel::Func(Prim::Cons)).insert(
        "car"@,
        ValueModel::Func(Prim::Car),
    ).insert("cdr"@, ValueModel::Func(Prim::Cdr)).insert(
        "null?"@,
        ValueModel::Func(Prim::IsNull),
    )
}

/// The model of a bare environment: one root frame with no bindings.
pub open spec fn empty_env_model() -> EnvModel {
    EnvModel {
        frames: seq![
            FrameModel {
                bindings: Map::empty(),
                parent: None,
                modules: Seq::empty(),
                binding_context: false,
            },
        ],
    }
}

/// The model of a default environment: one root frame holding the
/// primitives.
pub open spec fn default_env_model() -> EnvModel {
    EnvModel {
        frames: seq![
            FrameModel {
                bindings: default_bindings(),
                parent: None,
                modules: Seq::empty(),
                binding_context: false,
            },
        ],
    }
}

impl Env {
    /// The default environment: a root frame binding the primitives.
    pub fn default_env() -> (r: Env)
        ensures
            r@ == default_env_model(),
            r@.wf(),
            r@.frames.len() == 1,
    {
        let mut env = Env::empty_root();
        env.define(0, "+".to_owned(), Value::FuncV(Prim::Add));
        env.define(0, "-".to_owned(), Value::FuncV(Prim::Sub));
        env.define(0, "*".to_owned(), Value::FuncV(Prim::Mul));
        env.define(0, "/".to_owned(), Value::FuncV(Prim::Div));
        env.define(0, "=".to_owned(), Value::FuncV(Prim::NumEq));
        env.define(0, "<".to_owned(), Value::FuncV(Prim::Lt));
        env.define(0, ">".to_owned(), Value::FuncV(Prim::Gt));
        env.define(0, "<=".to_owned(), Value::FuncV(Prim::Leq));
        env.define(0, ">=".to_owned(), Value::FuncV(Prim::Geq));
        env.define(0, "list".to_owned(), Value::FuncV(Prim::ListNew));
        env.define(0, "cons".to_owned(), Value::FuncV(Prim::Cons));
        env.define(0, "car".to_owned(), Value::FuncV(Prim::Car));
        env.define(0, "cdr".to_owned(), Value::FuncV(Prim::Cdr));
        env.define(0, "null?".to_owned(), Value::FuncV(Prim::IsNull));
        proof {
            assert(env@.frames =~= default_env_model().frames);
        }
        env
    }
}

} // verus!

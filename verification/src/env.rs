use vstd::prelude::*;
use std::rc::Rc;
use crate::object::Object;
use crate::object::ObjModel;

verus! {

/// One binding frame as the contracts see it: an optional parent link, a
/// liveness flag, and a map from symbol names to values.
pub ghost struct FrameModel {
    pub parent: Option<usize>,
    pub alive: bool,
    pub map: Map<Seq<char>, ObjModel>,
}

/// One executable binding frame.  The bindings sit in insertion order; the
/// latest binding of a name shadows the earlier ones.  A frame is created
/// alive and is retired when the procedure call that owns it returns, which
/// is how the evaluator models closures holding their defining scope only
/// weakly.
pub struct Frame {
    pub parent: Option<usize>,
    pub alive: bool,
    pub bindings: Vec<(String, Rc<Object>)>,
}

/// The bindings of a frame as a map; later entries win.
pub open spec fn assoc(s: Seq<(String, Rc<Object>)>) -> Map<Seq<char>, ObjModel>
    decreases s.len(),
{
    if s.len() == 0 {
        Map::<Seq<char>, ObjModel>::empty()
    } else {
        assoc(s.drop_last()).insert(s.last().0@, s.last().1@)
    }
}

impl View for Frame {
    type V = FrameModel;

    open spec fn view(&self) -> FrameModel {
        FrameModel { parent: self.parent, alive: self.alive, map: assoc(self.bindings@) }
    }
}

/// The whole store of environment frames.  Frames are addressed by index;
/// parent links always point at older (smaller) indices, so every lexical
/// chain is finite.  The root (global) frame sits at index zero and has no
/// parent.
pub struct Env {
    pub frames: Vec<Frame>,
}

impl View for Env {
    type V = Seq<FrameModel>;

    open spec fn view(&self) -> Seq<FrameModel> {
        Seq::new(self.frames@.len(), |i: int| self.frames@[i]@)
    }
}

pub open spec fn frame_ok(env: Seq<FrameModel>, f: int) -> bool {
    0 <= f < env.len()
}

pub open spec fn frame_alive(env: Seq<FrameModel>, f: int) -> bool {
    frame_ok(env, f) && env[f].alive
}

/// Well-formedness: every parent link points at a strictly older frame.
pub open spec fn env_wf(env: Seq<FrameModel>) -> bool {
    forall|i: int|
        0 <= i < env.len() ==> match (#[trigger] env[i]).parent {
            Some(p) => (p as int) < i,
            None => true,
        }
}

/// Name resolution: the binding in frame `f` if present, otherwise the
/// binding along the parent chain; `None` once the chain is exhausted.
pub open spec fn lookup_in(env: Seq<FrameModel>, f: int, name: Seq<char>) -> Option<ObjModel>
    decreases f,
{
    if !frame_ok(env, f) {
        None
    } else if env[f].map.contains_key(name) {
        Some(env[f].map[name])
    } else {
        match env[f].parent {
            Some(p) => if (p as int) < f {
                lookup_in(env, p as int, name)
            } else {
                None
            },
            None => None,
        }
    }
}

/// Appending a frame never changes name resolution in the frames that were
/// already there.
pub proof fn lemma_lookup_push(env: Seq<FrameModel>, fm: FrameModel, f: int, name: Seq<char>)
    requires
        0 <= f < env.len(),
    ensures
        lookup_in(env.push(fm), f, name) == lookup_in(env, f, name),
    decreases f,
{
    let env2 = env.push(fm);
    assert(env2[f] == env[f]);
    match env[f].parent {
        Some(p) => {
            if (p as int) < f {
                lemma_lookup_push(env, fm, p as int, name);
            }
        },
        None => {},
    }
}

/// Changing a younger frame never changes name resolution that starts at an
/// older frame: parent links only ever point backwards.
pub proof fn lemma_lookup_update_newer(
    env: Seq<FrameModel>,
    g: int,
    fm: FrameModel,
    f: int,
    name: Seq<char>,
)
    requires
        env_wf(env),
        0 <= f < env.len(),
        f < g < env.len(),
    ensures
        lookup_in(env.update(g, fm), f, name) == lookup_in(env, f, name),
    decreases f,
{
    let env2 = env.update(g, fm);
    assert(env2[f] == env[f]);
    match env[f].parent {
        Some(p) => {
            if (p as int) < f {
                lemma_lookup_update_newer(env, g, fm, p as int, name);
            }
        },
        None => {},
    }
}

impl Env {
    pub open spec fn wf(&self) -> bool {
        env_wf(self@)
    }

    /// A fresh store holding only the root (global) frame, which is alive,
    /// parentless and empty.
    pub fn new() -> (e: Env)
        ensures
            e@ == seq![FrameModel { parent: None, alive: true, map: Map::<Seq<char>, ObjModel>::empty() }],
            e.wf(),
    {
        let mut frames: Vec<Frame> = Vec::new();
        frames.push(Frame { parent: None, alive: true, bindings: Vec::new() });
        let e = Env { frames };
        proof {
            assert(e@ =~= seq![
                FrameModel { parent: None, alive: true, map: Map::<Seq<char>, ObjModel>::empty() },
            ]);
        }
        e
    }

    /// Whether `frame` names a frame that is still alive.
    pub fn alive_frame(&self, frame: usize) -> (r: bool)
        ensures
            r == frame_alive(self@, frame as int),
    {
        frame < self.frames.len() && self.frames[frame].alive
    }

    /// Opens an activation frame whose parent is `parent` and whose bindings
    /// are exactly the given ones.
    pub fn push_frame_with(&mut self, parent: usize, bindings: Vec<(String, Rc<Object>)>) -> (idx:
        usize)
        requires
            parent < old(self)@.len(),
        ensures
            idx == old(self)@.len(),
            final(self)@ == old(self)@.push(
                FrameModel { parent: Some(parent), alive: true, map: assoc(bindings@) },
            ),
            old(self).wf() ==> final(self).wf(),
    {
        let ghost bs = bindings@;
        let idx = self.frames.len();
        self.frames.push(Frame { parent: Some(parent), alive: true, bindings });
        proof {
            assert(self@ =~= old(self)@.push(
                FrameModel { parent: Some(parent), alive: true, map: assoc(bs) },
            ));
            if old(self).wf() {
                assert(forall|i: int|
                    0 <= i < old(self)@.len() ==> self@[i] == old(self)@[i]);
                assert(self.wf());
            }
        }
        idx
    }

    /// Retires a frame: the call that owned it has returned, so closures that
    /// captured it can no longer use it.
    pub fn retire(&mut self, frame: usize)
        requires
            frame < old(self)@.len(),
        ensures
            final(self)@ == old(self)@.update(
                frame as int,
                FrameModel { alive: false, ..old(self)@[frame as int] },
            ),
            old(self).wf() ==> final(self).wf(),
    {
        self.frames[frame].alive = false;
        proof {
            assert(self@ =~= old(self)@.update(
                frame as int,
                FrameModel { alive: false, ..old(self)@[frame as int] },
            ));
            if old(self).wf() {
                assert(forall|i: int|
                    0 <= i < self@.len() && i != frame ==> self@[i] == old(self)@[i]);
                assert(self.wf());
            }
        }
    }

    /// Binds `name` to `object` in `frame` alone, shadowing any binding of
    /// the same name in that frame or its ancestors; the previous binding of
    /// the name in this frame, if any, is handed back.
    pub fn insert(&mut self, frame: usize, name: String, object: Rc<Object>) -> (r: Option<
        Rc<Object>,
    >)
        requires
            frame < old(self)@.len(),
        ensures
            final(self)@ == old(self)@.update(
                frame as int,
                FrameModel {
                    map: old(self)@[frame as int].map.insert(name@, object@),
                    ..old(self)@[frame as int]
                },
            ),
            old(self).wf() ==> final(self).wf(),
            match r {
                Some(o) => old(self)@[frame as int].map.contains_key(name@) && old(
                    self,
                )@[frame as int].map[name@] == o@,
                None => !old(self)@[frame as int].map.contains_key(name@),
            },
    {
        let ghost nm = name@;
        let ghost ob = object@;
        let ghost oldb = self.frames@[frame as int].bindings@;
        let previous = Self::scan(&self.frames[frame].bindings, &name);
        self.frames[frame].bindings.push((name, object));
        proof {
            assert(self.frames@[frame as int].bindings@ =~= oldb.push((name, object)));
            assert(oldb.push((name, object)).drop_last() =~= oldb);
            assert(assoc(self.frames@[frame as int].bindings@) == assoc(oldb).insert(nm, ob));
            assert(self@ =~= old(self)@.update(
                frame as int,
                FrameModel {
                    map: old(self)@[frame as int].map.insert(nm, ob),
                    ..old(self)@[frame as int]
                },
            ));
            if old(self).wf() {
                assert(forall|i: int|
                    0 <= i < self@.len() && i != frame ==> self@[i] == old(self)@[i]);
                assert(self@[frame as int].parent == old(self)@[frame as int].parent);
                assert(self.wf());
            }
        }
        previous
    }

    fn scan(bindings: &Vec<(String, Rc<Object>)>, name: &String) -> (r: Option<Rc<Object>>)
        ensures
            match r {
                Some(o) => assoc(bindings@).contains_key(name@) && assoc(bindings@)[name@] == o@,
                None => !assoc(bindings@).contains_key(name@),
            },
    {
        let mut i: usize = bindings.len();
        proof {
            assert(bindings@.take(i as int) =~= bindings@);
        }
        while i > 0
            invariant
                0 <= i <= bindings@.len(),
                assoc(bindings@).contains_key(name@) == assoc(bindings@.take(i as int)).contains_key(
                    name@,
                ),
                assoc(bindings@).contains_key(name@) ==> assoc(bindings@)[name@] == assoc(
                    bindings@.take(i as int),
                )[name@],
            decreases i,
        {
            let j = i - 1;
            proof {
                assert(bindings@.take(j + 1).drop_last() =~= bindings@.take(j as int));
                assert(bindings@.take(j + 1).last() == bindings@[j as int]);
            }
            let hit = crate::strutil::str_eq(bindings[j].0.as_str(), name.as_str());
            if hit {
                return Some(bindings[j].1.clone());
            }
            i = j;
        }
        proof {
            assert(bindings@.take(0) =~= Seq::<(String, Rc<Object>)>::empty());
        }
        None
    }

    /// Resolves `name` starting at `frame`: the binding in that frame if it
    /// has one, otherwise the nearest binding along the lexical parent
    /// chain, otherwise absent.
    pub fn lookup(&self, frame: usize, name: &String) -> (r: Option<Rc<Object>>)
        requires
            self.wf(),
            frame < self@.len(),
        ensures
            match r {
                Some(o) => lookup_in(self@, frame as int, name@) == Some(o@),
                None => lookup_in(self@, frame as int, name@) is None,
            },
        decreases frame,
    {
        match Self::scan(&self.frames[frame].bindings, name) {
            Some(o) => Some(o),
            None => {
                let par = self.frames[frame].parent;
                match par {
                    Some(p) => {
                        proof {
                            assert(frame_ok(self@, frame as int));
                            assert(self@[frame as int].parent == Some(p));
                        }
                        self.lookup(p, name)
                    },
                    None => None,
                }
            },
        }
    }
}

} // verus!

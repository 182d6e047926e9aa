use vstd::prelude::*;
use crate::model::{closing_record, copy_path, path_view, value_record, PathStep, Record, RecordV, Scalar, ScalarV, StepV};

verus! {

/// What the walker remembers of an open container besides its path step.
#[derive(Clone, Copy, PartialEq, Eq, Structural, Debug)]
pub enum Frame {
    Array,
    /// `keyed` is false until the object's first key has been read.
    Object { keyed: bool },
}

/// The mathematical state of a walk: the current path and one frame per
/// open container, innermost last.
pub struct WalkState {
    pub path: Seq<StepV>,
    pub frames: Seq<Frame>,
}

/// One parser callback, as the walker sees it.
pub enum Event {
    /// A scalar node.
    Leaf(ScalarV),
    /// An array starts.
    BeginArray,
    /// An element of the innermost array has been read in full.
    ElementDone,
    /// The innermost array has no more elements.
    EndArray,
    /// An object starts.
    BeginMap,
    /// The next key of the innermost object; its value follows.
    Key(Seq<char>),
    /// The innermost object has no more entries.
    EndMap,
}

impl WalkState {
    pub open spec fn in_array(self) -> bool {
        &&& self.path.len() > 0
        &&& self.frames.len() > 0
        &&& self.path.last() is Index
        &&& self.frames.last() == Frame::Array
    }

    pub open spec fn in_map(self) -> bool {
        &&& self.path.len() > 0
        &&& self.frames.len() > 0
        &&& self.path.last() is Key
        &&& self.frames.last() is Object
    }

    pub open spec fn enter(self, s: StepV, f: Frame) -> WalkState {
        WalkState { path: self.path.push(s), frames: self.frames.push(f) }
    }

    pub open spec fn leave(self) -> WalkState {
        WalkState { path: self.path.drop_last(), frames: self.frames.drop_last() }
    }

    pub open spec fn replace(self, s: StepV, f: Frame) -> WalkState {
        self.leave().enter(s, f)
    }

    /// The index of the innermost array's current element.
    pub open spec fn index(self) -> nat {
        self.path.last()->Index_0
    }
}

/// What one event does to the state, and the records it emits;
/// `None` where the event cannot come in that state.
pub open spec fn step(s: WalkState, e: Event) -> Option<(WalkState, Seq<RecordV>)> {
    match e {
        Event::Leaf(v) => Some((s, seq![value_record(s.path, v)])),
        Event::BeginArray => Some((s.enter(StepV::Index(0), Frame::Array), seq![])),
        Event::ElementDone => if s.in_array() {
            Some((s.replace(StepV::Index(s.index() + 1), Frame::Array), seq![]))
        } else {
            None
        },
        Event::EndArray => if s.in_array() {
            let p = s.path.drop_last();
            if s.index() == 0 {
                Some((s.leave(), seq![value_record(p, ScalarV::EmptyArray)]))
            } else {
                Some((s.leave(), seq![closing_record(p.push(StepV::Index((s.index() - 1) as nat)))]))
            }
        } else {
            None
        },
        Event::BeginMap => Some((s.enter(StepV::Key(Seq::empty()), Frame::Object { keyed: false }), seq![])),
        Event::Key(k) => if s.in_map() {
            Some((s.replace(StepV::Key(k), Frame::Object { keyed: true }), seq![]))
        } else {
            None
        },
        Event::EndMap => if s.in_map() {
            if s.frames.last() == (Frame::Object { keyed: true }) {
                Some((s.leave(), seq![closing_record(s.path)]))
            } else {
                Some((s.leave(), seq![value_record(s.path.drop_last(), ScalarV::EmptyObject)]))
            }
        } else {
            None
        },
    }
}

/// Runs events one after another; `None` if one of them cannot come.
pub open spec fn run(s: WalkState, es: Seq<Event>) -> Option<(WalkState, Seq<RecordV>)>
    decreases es.len(),
{
    if es.len() == 0 {
        Some((s, Seq::empty()))
    } else {
        match step(s, es[0]) {
            None => None,
            Some((s1, r1)) => match run(s1, es.drop_first()) {
                None => None,
                Some((s2, r2)) => Some((s2, r1 + r2)),
            },
        }
    }
}

/// The traversal engine: it keeps the current path and the open containers,
/// and turns each parser callback into the records it stands for.
pub struct Walker {
    path: Vec<PathStep>,
    frames: Vec<Frame>,
}

impl View for Walker {
    type V = WalkState;

    closed spec fn view(&self) -> WalkState {
        WalkState { path: path_view(self.path@), frames: self.frames@ }
    }
}

impl Walker {
    /// A walker at the root of a document.
    pub fn new() -> (w: Walker)
        ensures
            w@.path == Seq::<StepV>::empty(),
            w@.frames == Seq::<Frame>::empty(),
    {
        let w = Walker { path: Vec::new(), frames: Vec::new() };
        assert(w@.path =~= Seq::<StepV>::empty());
        w
    }

    /// The number of open containers.
    pub fn depth(&self) -> (r: usize)
        ensures
            r == self@.frames.len(),
    {
        self.frames.len()
    }

    /// True when no container is open.
    pub fn at_root(&self) -> (r: bool)
        ensures
            r == (self@.path.len() == 0 && self@.frames.len() == 0),
    {
        self.path.len() == 0 && self.frames.len() == 0
    }

    /// True when the innermost open container is an array.
    pub fn in_array(&self) -> (r: bool)
        ensures
            r == self@.in_array(),
    {
        let n = self.path.len();
        let m = self.frames.len();
        if n == 0 || m == 0 {
            return false;
        }
        match (&self.path[n - 1], self.frames[m - 1]) {
            (PathStep::Index(_), Frame::Array) => true,
            _ => false,
        }
    }

    /// True when the innermost open container is an object.
    pub fn in_map(&self) -> (r: bool)
        ensures
            r == self@.in_map(),
    {
        let n = self.path.len();
        let m = self.frames.len();
        if n == 0 || m == 0 {
            return false;
        }
        match (&self.path[n - 1], self.frames[m - 1]) {
            (PathStep::Key(_), Frame::Object { .. }) => true,
            _ => false,
        }
    }

    /// True when the innermost open container is an array whose index can
    /// still grow by one.
    pub fn can_advance(&self) -> (r: bool)
        ensures
            r == (self@.in_array() && self@.index() < usize::MAX),
    {
        if !self.in_array() {
            return false;
        }
        match &self.path[self.path.len() - 1] {
            PathStep::Index(i) => *i < usize::MAX,
            PathStep::Key(_) => false,
        }
    }

    fn push_step(&mut self, s: PathStep, f: Frame)
        ensures
            final(self)@ == old(self)@.enter(s@, f),
    {
        self.path.push(s);
        self.frames.push(f);
        assert(path_view(self.path@) =~= path_view(old(self).path@).push(s@));
    }

    fn pop_step(&mut self) -> (r: PathStep)
        requires
            old(self)@.path.len() > 0,
            old(self)@.frames.len() > 0,
        ensures
            final(self)@ == old(self)@.leave(),
            r@ == old(self)@.path.last(),
    {
        let r = self.path.pop().unwrap();
        self.frames.pop();
        assert(path_view(self.path@) =~= path_view(old(self).path@).drop_last());
        r
    }

    fn snapshot(&self, value: Option<Scalar>) -> (r: Record)
        ensures
            r@.path == self@.path,
            r@.value == (match value {
                Some(v) => Some(v@),
                None => None::<ScalarV>,
            }),
    {
        Record { path: copy_path(&self.path), value }
    }

    /// A scalar node: its value record, at the current path.
    pub fn scalar(&mut self, v: Scalar) -> (r: Record)
        ensures
            step(old(self)@, Event::Leaf(v@)) == Some((final(self)@, seq![r@])),
            final(self)@ == old(self)@,
            r@ == value_record(old(self)@.path, v@),
    {
        self.snapshot(Some(v))
    }

    /// An array starts: its first element will be at index 0.
    pub fn begin_array(&mut self)
        ensures
            step(old(self)@, Event::BeginArray) == Some((final(self)@, Seq::<RecordV>::empty())),
    {
        self.push_step(PathStep::Index(0), Frame::Array);
    }

    /// An element of the innermost array is done: the next one is one index on.
    pub fn element_done(&mut self)
        requires
            old(self)@.in_array(),
            old(self)@.index() < usize::MAX,
        ensures
            step(old(self)@, Event::ElementDone) == Some((final(self)@, Seq::<RecordV>::empty())),
    {
        let s = self.pop_step();
        match s {
            PathStep::Index(i) => self.push_step(PathStep::Index(i + 1), Frame::Array),
            PathStep::Key(_) => {},
        }
    }

    /// The innermost array ends: an empty-array value record at its own path,
    /// or a closing record at the path of its last element.
    pub fn end_array(&mut self) -> (r: Record)
        requires
            old(self)@.in_array(),
        ensures
            step(old(self)@, Event::EndArray) == Some((final(self)@, seq![r@])),
            final(self)@ == old(self)@.leave(),
            r@ == (if old(self)@.index() == 0 {
                value_record(old(self)@.path.drop_last(), ScalarV::EmptyArray)
            } else {
                closing_record(old(self)@.path.drop_last().push(StepV::Index((old(self)@.index() - 1) as nat)))
            }),
    {
        let s = self.pop_step();
        match s {
            PathStep::Index(i) => {
                if i == 0 {
                    self.snapshot(Some(Scalar::EmptyArray))
                } else {
                    let mut r = self.snapshot(None);
                    r.path.push(PathStep::Index(i - 1));
                    assert(r@.path =~= self@.path.push(StepV::Index((i - 1) as nat)));
                    r
                }
            },
            PathStep::Key(_) => self.snapshot(None),
        }
    }

    /// An object starts; no key has been read yet.
    pub fn begin_map(&mut self)
        ensures
            step(old(self)@, Event::BeginMap) == Some((final(self)@, Seq::<RecordV>::empty())),
    {
        let k = String::new();
        self.push_step(PathStep::Key(k), Frame::Object { keyed: false });
        assert(self@ == old(self)@.enter(StepV::Key(Seq::empty()), Frame::Object { keyed: false }));
    }

    /// The next key of the innermost object: its value will be at this key.
    pub fn map_key(&mut self, key: String)
        requires
            old(self)@.in_map(),
        ensures
            step(old(self)@, Event::Key(key@)) == Some((final(self)@, Seq::<RecordV>::empty())),
    {
        self.pop_step();
        self.push_step(PathStep::Key(key), Frame::Object { keyed: true });
    }

    /// The innermost object ends: an empty-object value record at its own
    /// path, or a closing record at the path of its last entry.
    pub fn end_map(&mut self) -> (r: Record)
        requires
            old(self)@.in_map(),
        ensures
            step(old(self)@, Event::EndMap) == Some((final(self)@, seq![r@])),
            final(self)@ == old(self)@.leave(),
            r@ == (if old(self)@.frames.last() == (Frame::Object { keyed: true }) {
                closing_record(old(self)@.path)
            } else {
                value_record(old(self)@.path.drop_last(), ScalarV::EmptyObject)
            }),
    {
        let keyed = self.frames[self.frames.len() - 1] == (Frame::Object { keyed: true });
        if keyed {
            let r = self.snapshot(None);
            self.pop_step();
            r
        } else {
            self.pop_step();
            self.snapshot(Some(Scalar::EmptyObject))
        }
    }
}

} // verus!

use vstd::prelude::*;

verus! {

/// One step of a path: an array index or an object key.
#[derive(Debug)]
pub enum PathStep {
    Index(usize),
    Key(String),
}

/// The value carried by a value record.
///
/// A number is held as its decimal text, as the parser rendered it.
#[derive(Debug)]
pub enum Scalar {
    Null,
    Boolean(bool),
    Number(String),
    Text(String),
    EmptyArray,
    EmptyObject,
}

/// A record: a path and, for a value record, the value found there.
/// A record without a value closes the container whose last child is at `path`.
#[derive(Debug)]
pub struct Record {
    pub path: Vec<PathStep>,
    pub value: Option<Scalar>,
}

/// Mathematical form of a path step.
pub enum StepV {
    Index(nat),
    Key(Seq<char>),
}

/// Mathematical form of a record value.
pub enum ScalarV {
    Null,
    Boolean(bool),
    Number(Seq<char>),
    Text(Seq<char>),
    EmptyArray,
    EmptyObject,
}

/// Mathematical form of a record.
pub struct RecordV {
    pub path: Seq<StepV>,
    pub value: Option<ScalarV>,
}

impl View for PathStep {
    type V = StepV;

    open spec fn view(&self) -> StepV {
        match self {
            PathStep::Index(i) => StepV::Index(*i as nat),
            PathStep::Key(k) => StepV::Key(k@),
        }
    }
}

impl View for Scalar {
    type V = ScalarV;

    open spec fn view(&self) -> ScalarV {
        match self {
            Scalar::Null => ScalarV::Null,
            Scalar::Boolean(b) => ScalarV::Boolean(*b),
            Scalar::Number(n) => ScalarV::Number(n@),
            Scalar::Text(t) => ScalarV::Text(t@),
            Scalar::EmptyArray => ScalarV::EmptyArray,
            Scalar::EmptyObject => ScalarV::EmptyObject,
        }
    }
}

pub open spec fn path_view(p: Seq<PathStep>) -> Seq<StepV> {
    p.map_values(|s: PathStep| s@)
}

impl View for Record {
    type V = RecordV;

    open spec fn view(&self) -> RecordV {
        RecordV {
            path: path_view(self.path@),
            value: match self.value {
                Some(v) => Some(v@),
                None => None,
            },
        }
    }
}

pub open spec fn value_record(path: Seq<StepV>, v: ScalarV) -> RecordV {
    RecordV { path, value: Some(v) }
}

pub open spec fn closing_record(path: Seq<StepV>) -> RecordV {
    RecordV { path, value: None }
}

impl PathStep {
    /// A copy of this step.
    pub fn copy(&self) -> (r: PathStep)
        ensures
            r@ == self@,
    {
        match self {
            PathStep::Index(i) => PathStep::Index(*i),
            PathStep::Key(k) => PathStep::Key(k.clone()),
        }
    }
}

/// A copy of a path, step by step.
pub fn copy_path(path: &Vec<PathStep>) -> (r: Vec<PathStep>)
    ensures
        path_view(r@) == path_view(path@),
{
    let mut r: Vec<PathStep> = Vec::new();
    let mut i: usize = 0;
    while i < path.len()
        invariant
            i <= path.len(),
            r@.len() == i,
            forall|j: int| 0 <= j < i ==> (#[trigger] r@[j])@ == path@[j]@,
        decreases path.len() - i,
    {
        let s = path[i].copy();
        r.push(s);
        i += 1;
    }
    assert(path_view(r@) =~= path_view(path@));
    r
}

} // verus!

use vstd::prelude::*;
use vstd::string::StringExecFns;
use crate::model::{PathStep, Record, RecordV, Scalar, ScalarV, StepV};

verus! {

/// The text that `Debug` gives a string: the characters in double quotes,
/// with quotes, backslashes and control characters escaped.
pub uninterp spec fn debug_quoted(s: Seq<char>) -> Seq<char>;

/// Relies on `<str as Debug>::fmt`, whose output depends on the characters alone.
#[verifier::external_body]
fn quote(s: &str) -> (r: String)
    ensures
        r@ == debug_quoted(s@),
{
    format!("{:?}", s)
}

pub open spec fn digit_char(d: nat) -> char {
    if d == 0 { '0' } else if d == 1 { '1' } else if d == 2 { '2' } else if d == 3 { '3' }
    else if d == 4 { '4' } else if d == 5 { '5' } else if d == 6 { '6' } else if d == 7 { '7' }
    else if d == 8 { '8' } else { '9' }
}

/// The decimal digits of `n`, most significant first, without leading zeros.
pub open spec fn decimal(n: nat) -> Seq<char>
    decreases n,
{
    if n < 10 {
        seq![digit_char(n)]
    } else {
        decimal(n / 10).push(digit_char(n % 10))
    }
}

/// Relies on `<usize as Display>::fmt`: the decimal digits of the number.
#[verifier::external_body]
fn decimal_text(n: usize) -> (r: String)
    ensures
        r@ == decimal(n as nat),
{
    format!("{}", n)
}

/// How one path step is written: an index in decimal, a key quoted.
pub open spec fn step_text(s: StepV) -> Seq<char> {
    match s {
        StepV::Index(i) => decimal(i),
        StepV::Key(k) => debug_quoted(k),
    }
}

/// Texts written one after another with commas between them.
pub open spec fn joined(ts: Seq<Seq<char>>) -> Seq<char>
    decreases ts.len(),
{
    if ts.len() == 0 {
        Seq::empty()
    } else if ts.len() == 1 {
        ts[0]
    } else {
        joined(ts.drop_last()) + ","@ + ts.last()
    }
}

/// A line from its path text and, for a value record, its value text.
pub open spec fn framed(steps: Seq<char>, value: Option<Seq<char>>) -> Seq<char> {
    "["@ + "["@ + steps + "]"@ + match value {
        Some(v) => ","@ + v,
        None => Seq::empty(),
    } + "]"@
}

pub open spec fn texts_view(ts: Seq<String>) -> Seq<Seq<char>> {
    ts.map_values(|t: String| t@)
}

/// How a record value is written.
pub open spec fn value_text(v: ScalarV) -> Seq<char> {
    match v {
        ScalarV::Null => "null"@,
        ScalarV::Boolean(b) => if b { "true"@ } else { "false"@ },
        ScalarV::Number(t) => t,
        ScalarV::Text(t) => debug_quoted(t),
        ScalarV::EmptyArray => "[]"@,
        ScalarV::EmptyObject => "{}"@,
    }
}

/// The line of a record: `[[steps]]` for a closing record and
/// `[[steps],value]` for a value record.
pub open spec fn line_of(r: RecordV) -> Seq<char> {
    framed(
        joined(r.path.map_values(|s: StepV| step_text(s))),
        match r.value {
            Some(v) => Some(value_text(v)),
            None => None,
        },
    )
}

/// Puts a line together from the texts of its path steps and, for a value
/// record, the text of its value.
pub fn assemble_line(steps: &Vec<String>, value: &Option<String>) -> (r: String)
    ensures
        r@ == framed(joined(texts_view(steps@)), match value {
            Some(v) => Some(v@),
            None => None,
        }),
{
    let mut out = String::from_str("[");
    out.append("[");
    let n = steps.len();
    let mut i: usize = 0;
    while i < n
        invariant
            n == steps@.len(),
            i <= n,
            out@ == "["@ + "["@ + joined(texts_view(steps@.subrange(0, i as int))),
        decreases n - i,
    {
        let ghost done = texts_view(steps@.subrange(0, i as int));
        let ghost next = texts_view(steps@.subrange(0, i + 1));
        assert(next.drop_last() =~= done);
        assert(next.last() == steps@[i as int]@);
        if i != 0 {
            out.append(",");
        }
        out.append(steps[i].as_str());
        if i == 0 {
            assert(done =~= Seq::<Seq<char>>::empty());
        }
        assert(out@ =~= "["@ + "["@ + joined(next));
        i += 1;
    }
    assert(steps@.subrange(0, n as int) =~= steps@);
    out.append("]");
    match value {
        Some(v) => {
            out.append(",");
            out.append(v.as_str());
        },
        None => {},
    }
    out.append("]");
    out
}

impl PathStep {
    /// This step as it is written in a line.
    pub fn to_text(&self) -> (r: String)
        ensures
            r@ == step_text(self@),
    {
        match self {
            PathStep::Index(i) => decimal_text(*i),
            PathStep::Key(k) => quote(k.as_str()),
        }
    }
}

impl Scalar {
    /// This value as it is written in a line.
    pub fn to_text(&self) -> (r: String)
        ensures
            r@ == value_text(self@),
    {
        match self {
            Scalar::Null => String::from_str("null"),
            Scalar::Boolean(b) => if *b { String::from_str("true") } else { String::from_str("false") },
            Scalar::Number(t) => t.clone(),
            Scalar::Text(t) => quote(t.as_str()),
            Scalar::EmptyArray => String::from_str("[]"),
            Scalar::EmptyObject => String::from_str("{}"),
        }
    }
}

impl Record {
    /// The line that stands for this record.
    pub fn to_line(&self) -> (r: String)
        ensures
            r@ == line_of(self@),
    {
        let mut texts: Vec<String> = Vec::new();
        let n = self.path.len();
        let mut i: usize = 0;
        while i < n
            invariant
                n == self.path@.len(),
                i <= n,
                texts@.len() == i,
                forall|j: int| 0 <= j < i ==> (#[trigger] texts@[j])@ == step_text(self.path@[j]@),
            decreases n - i,
        {
            let t = self.path[i].to_text();
            texts.push(t);
            i += 1;
        }
        let value = match &self.value {
            Some(v) => Some(v.to_text()),
            None => None,
        };
        let r = assemble_line(&texts, &value);
        assert(texts_view(texts@) =~= self@.path.map_values(|s: StepV| step_text(s)));
        r
    }
}

} // verus!

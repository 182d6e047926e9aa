use vstd::prelude::*;
use crate::model::{closing_record, value_record, RecordV, ScalarV, StepV};
use crate::walker::{run, step, Event, Frame, WalkState};

verus! {

/// The mathematical form of a document: a tree of scalars, arrays and
/// objects, with object entries in the order the parser read them.
pub enum Node {
    Leaf(ScalarV),
    Array(Seq<Node>),
    Object(Seq<(Seq<char>, Node)>),
}

/// The parser callbacks that a document produces.
pub open spec fn events_of(n: Node) -> Seq<Event>
    decreases n,
{
    match n {
        Node::Leaf(v) => seq![Event::Leaf(v)],
        Node::Array(cs) => seq![Event::BeginArray] + elements_events(cs) + seq![Event::EndArray],
        Node::Object(es) => seq![Event::BeginMap] + entries_events(es) + seq![Event::EndMap],
    }
}

pub open spec fn elements_events(cs: Seq<Node>) -> Seq<Event>
    decreases cs,
{
    if cs.len() == 0 {
        Seq::empty()
    } else {
        events_of(cs[0]) + seq![Event::ElementDone] + elements_events(cs.subrange(1, cs.len() as int))
    }
}

pub open spec fn entries_events(es: Seq<(Seq<char>, Node)>) -> Seq<Event>
    decreases es,
{
    if es.len() == 0 {
        Seq::empty()
    } else {
        seq![Event::Key(es[0].0)] + events_of(es[0].1) + entries_events(es.subrange(1, es.len() as int))
    }
}

/// The records of the node `n` found at path `p`, in the order they are emitted.
pub open spec fn records_of(n: Node, p: Seq<StepV>) -> Seq<RecordV>
    decreases n,
{
    match n {
        Node::Leaf(v) => seq![value_record(p, v)],
        Node::Array(cs) => if cs.len() == 0 {
            seq![value_record(p, ScalarV::EmptyArray)]
        } else {
            elements_records(cs, p, 0) + seq![closing_record(p.push(StepV::Index((cs.len() - 1) as nat)))]
        },
        Node::Object(es) => if es.len() == 0 {
            seq![value_record(p, ScalarV::EmptyObject)]
        } else {
            entries_records(es, p) + seq![closing_record(p.push(StepV::Key(es.last().0)))]
        },
    }
}

/// The records of array elements `cs`, the first of which is at index `k` under `p`.
pub open spec fn elements_records(cs: Seq<Node>, p: Seq<StepV>, k: nat) -> Seq<RecordV>
    decreases cs,
{
    if cs.len() == 0 {
        Seq::empty()
    } else {
        records_of(cs[0], p.push(StepV::Index(k)))
            + elements_records(cs.subrange(1, cs.len() as int), p, k + 1)
    }
}

/// The records of object entries `es` under `p`.
pub open spec fn entries_records(es: Seq<(Seq<char>, Node)>, p: Seq<StepV>) -> Seq<RecordV>
    decreases es,
{
    if es.len() == 0 {
        Seq::empty()
    } else {
        records_of(es[0].1, p.push(StepV::Key(es[0].0)))
            + entries_records(es.subrange(1, es.len() as int), p)
    }
}

/// The state of a walker that has no container open.
pub open spec fn root() -> WalkState {
    WalkState { path: Seq::empty(), frames: Seq::empty() }
}

/// Runs `b` after the outcome `r` of an earlier run.
pub open spec fn then_run(r: Option<(WalkState, Seq<RecordV>)>, b: Seq<Event>) -> Option<(WalkState, Seq<RecordV>)> {
    match r {
        None => None,
        Some((s1, r1)) => match run(s1, b) {
            None => None,
            Some((s2, r2)) => Some((s2, r1 + r2)),
        },
    }
}

proof fn lemma_run_append(s: WalkState, a: Seq<Event>, b: Seq<Event>)
    ensures
        run(s, a + b) == then_run(run(s, a), b),
    decreases a.len(),
{
    if a.len() == 0 {
        assert(a + b =~= b);
        match run(s, b) {
            None => {},
            Some((s2, r2)) => {
                assert(Seq::<RecordV>::empty() + r2 =~= r2);
            },
        }
    } else {
        assert((a + b)[0] == a[0]);
        assert((a + b).drop_first() =~= a.drop_first() + b);
        match step(s, a[0]) {
            None => {},
            Some((s1, r1)) => {
                lemma_run_append(s1, a.drop_first(), b);
                match run(s1, a.drop_first()) {
                    None => {},
                    Some((s2, r2)) => {
                        match run(s2, b) {
                            None => {},
                            Some((s3, r3)) => {
                                assert(r1 + (r2 + r3) =~= (r1 + r2) + r3);
                            },
                        }
                    },
                }
            },
        }
    }
}

proof fn lemma_run_one(s: WalkState, e: Event)
    ensures
        run(s, seq![e]) == step(s, e),
{
    let es = seq![e];
    assert(es.drop_first() =~= Seq::<Event>::empty());
    assert(es[0] == e);
    match step(s, e) {
        None => {},
        Some((s1, r1)) => {
            assert(run(s1, Seq::<Event>::empty()) == Some((s1, Seq::<RecordV>::empty())));
            assert(r1 + Seq::<RecordV>::empty() =~= r1);
        },
    }
}

/// Walking a node from any state emits exactly its records at the current
/// path and leaves the state as it found it.
proof fn lemma_walk(s: WalkState, n: Node)
    ensures
        run(s, events_of(n)) == Some((s, records_of(n, s.path))),
    decreases n,
{
    match n {
        Node::Leaf(v) => {
            lemma_run_one(s, Event::Leaf(v));
        },
        Node::Array(cs) => {
            let s1 = s.enter(StepV::Index(0), Frame::Array);
            let mid = elements_events(cs);
            assert(events_of(n) == seq![Event::BeginArray] + mid + seq![Event::EndArray]);
            lemma_run_append(s, seq![Event::BeginArray] + mid, seq![Event::EndArray]);
            lemma_run_append(s, seq![Event::BeginArray], mid);
            lemma_run_one(s, Event::BeginArray);
            lemma_walk_elements(s.path, s.frames, cs, 0);
            let s2 = s.enter(StepV::Index(cs.len()), Frame::Array);
            lemma_run_one(s2, Event::EndArray);
            assert(s2.leave().path =~= s.path);
            assert(s2.leave().frames =~= s.frames);
            assert(Seq::<RecordV>::empty() + elements_records(cs, s.path, 0) =~= elements_records(cs, s.path, 0));
            if cs.len() == 0 {
                assert(elements_records(cs, s.path, 0) =~= Seq::<RecordV>::empty());
                assert(Seq::<RecordV>::empty() + seq![value_record(s.path, ScalarV::EmptyArray)]
                    =~= seq![value_record(s.path, ScalarV::EmptyArray)]);
            }
        },
        Node::Object(es) => {
            let s1 = s.enter(StepV::Key(Seq::empty()), Frame::Object { keyed: false });
            let mid = entries_events(es);
            assert(events_of(n) == seq![Event::BeginMap] + mid + seq![Event::EndMap]);
            lemma_run_append(s, seq![Event::BeginMap] + mid, seq![Event::EndMap]);
            lemma_run_append(s, seq![Event::BeginMap], mid);
            lemma_run_one(s, Event::BeginMap);
            lemma_walk_entries(s.path, s.frames, es, Seq::empty(), false);
            assert(Seq::<RecordV>::empty() + entries_records(es, s.path) =~= entries_records(es, s.path));
            if es.len() == 0 {
                lemma_run_one(s1, Event::EndMap);
                assert(s1.leave().path =~= s.path);
                assert(s1.leave().frames =~= s.frames);
                assert(s1.path.drop_last() =~= s.path);
                assert(entries_records(es, s.path) =~= Seq::<RecordV>::empty());
                assert(Seq::<RecordV>::empty() + seq![value_record(s.path, ScalarV::EmptyObject)]
                    =~= seq![value_record(s.path, ScalarV::EmptyObject)]);
            } else {
                let s2 = s.enter(StepV::Key(es.last().0), Frame::Object { keyed: true });
                lemma_run_one(s2, Event::EndMap);
                assert(s2.leave().path =~= s.path);
                assert(s2.leave().frames =~= s.frames);
            }
        },
    }
}

proof fn lemma_walk_elements(p: Seq<StepV>, f: Seq<Frame>, cs: Seq<Node>, k: nat)
    ensures
        run(WalkState { path: p, frames: f }.enter(StepV::Index(k), Frame::Array), elements_events(cs))
            == Some((WalkState { path: p, frames: f }.enter(StepV::Index(k + cs.len()), Frame::Array),
                elements_records(cs, p, k))),
    decreases cs,
{
    let base = WalkState { path: p, frames: f };
    let s = base.enter(StepV::Index(k), Frame::Array);
    if cs.len() == 0 {
    } else {
        let rest = cs.subrange(1, cs.len() as int);
        lemma_walk(s, cs[0]);
        lemma_run_append(s, events_of(cs[0]) + seq![Event::ElementDone], elements_events(rest));
        lemma_run_append(s, events_of(cs[0]), seq![Event::ElementDone]);
        lemma_run_one(s, Event::ElementDone);
        let s1 = base.enter(StepV::Index(k + 1), Frame::Array);
        assert(s.replace(StepV::Index(k + 1), Frame::Array).path =~= s1.path);
        assert(s.replace(StepV::Index(k + 1), Frame::Array).frames =~= s1.frames);
        lemma_walk_elements(p, f, rest, k + 1);
        assert(records_of(cs[0], s.path) + Seq::<RecordV>::empty() =~= records_of(cs[0], s.path));
    }
}

proof fn lemma_walk_entries(p: Seq<StepV>, f: Seq<Frame>, es: Seq<(Seq<char>, Node)>, x: Seq<char>, keyed: bool)
    ensures
        run(WalkState { path: p, frames: f }.enter(StepV::Key(x), Frame::Object { keyed }), entries_events(es))
            == Some((if es.len() == 0 {
                WalkState { path: p, frames: f }.enter(StepV::Key(x), Frame::Object { keyed })
            } else {
                WalkState { path: p, frames: f }.enter(StepV::Key(es.last().0), Frame::Object { keyed: true })
            }, entries_records(es, p))),
    decreases es,
{
    let base = WalkState { path: p, frames: f };
    let s = base.enter(StepV::Key(x), Frame::Object { keyed });
    if es.len() == 0 {
    } else {
        let rest = es.subrange(1, es.len() as int);
        let s1 = base.enter(StepV::Key(es[0].0), Frame::Object { keyed: true });
        lemma_run_append(s, seq![Event::Key(es[0].0)] + events_of(es[0].1), entries_events(rest));
        lemma_run_append(s, seq![Event::Key(es[0].0)], events_of(es[0].1));
        lemma_run_one(s, Event::Key(es[0].0));
        assert(s.replace(StepV::Key(es[0].0), Frame::Object { keyed: true }).path =~= s1.path);
        assert(s.replace(StepV::Key(es[0].0), Frame::Object { keyed: true }).frames =~= s1.frames);
        lemma_walk(s1, es[0].1);
        lemma_walk_entries(p, f, rest, es[0].0, true);
        assert(Seq::<RecordV>::empty() + records_of(es[0].1, s1.path) =~= records_of(es[0].1, s1.path));
        if rest.len() > 0 {
            assert(rest.last() == es.last());
        }
    }
}

/// After the callbacks of a complete document, a walker that started at the
/// root is back at the root, with an empty path, and has emitted exactly the
/// document's records.
pub proof fn lemma_document_returns_to_root(n: Node)
    ensures
        run(root(), events_of(n)) == Some((root(), records_of(n, Seq::empty()))),
{
    lemma_walk(root(), n);
}

/// Two documents walked one after the other give the records of the first,
/// then those of the second, each computed from the root alone.
pub proof fn lemma_documents_in_sequence(d1: Node, d2: Node)
    ensures
        run(root(), events_of(d1) + events_of(d2))
            == Some((root(), records_of(d1, Seq::empty()) + records_of(d2, Seq::empty()))),
{
    lemma_run_append(root(), events_of(d1), events_of(d2));
    lemma_walk(root(), d1);
    lemma_walk(root(), d2);
}

pub open spec fn is_value_record(r: RecordV) -> bool {
    r.value is Some
}

pub open spec fn is_closing_record(r: RecordV) -> bool {
    r.value is None
}

/// The number of value records in `rs`.
pub open spec fn value_count(rs: Seq<RecordV>) -> nat {
    rs.filter(|r: RecordV| is_value_record(r)).len()
}

/// The number of closing records in `rs`.
pub open spec fn closing_count(rs: Seq<RecordV>) -> nat {
    rs.filter(|r: RecordV| is_closing_record(r)).len()
}

/// The scalars of a document, counting an empty array or object as one.
pub open spec fn scalar_nodes(n: Node) -> nat
    decreases n,
{
    match n {
        Node::Leaf(_) => 1,
        Node::Array(cs) => if cs.len() == 0 { 1 } else { elements_scalar_nodes(cs) },
        Node::Object(es) => if es.len() == 0 { 1 } else { entries_scalar_nodes(es) },
    }
}

pub open spec fn elements_scalar_nodes(cs: Seq<Node>) -> nat
    decreases cs,
{
    if cs.len() == 0 {
        0
    } else {
        scalar_nodes(cs[0]) + elements_scalar_nodes(cs.subrange(1, cs.len() as int))
    }
}

pub open spec fn entries_scalar_nodes(es: Seq<(Seq<char>, Node)>) -> nat
    decreases es,
{
    if es.len() == 0 {
        0
    } else {
        scalar_nodes(es[0].1) + entries_scalar_nodes(es.subrange(1, es.len() as int))
    }
}

/// The arrays and objects of a document that have at least one child.
pub open spec fn nonempty_composites(n: Node) -> nat
    decreases n,
{
    match n {
        Node::Leaf(_) => 0,
        Node::Array(cs) => if cs.len() == 0 { 0 } else { 1 + elements_nonempty_composites(cs) },
        Node::Object(es) => if es.len() == 0 { 0 } else { 1 + entries_nonempty_composites(es) },
    }
}

pub open spec fn elements_nonempty_composites(cs: Seq<Node>) -> nat
    decreases cs,
{
    if cs.len() == 0 {
        0
    } else {
        nonempty_composites(cs[0]) + elements_nonempty_composites(cs.subrange(1, cs.len() as int))
    }
}

pub open spec fn entries_nonempty_composites(es: Seq<(Seq<char>, Node)>) -> nat
    decreases es,
{
    if es.len() == 0 {
        0
    } else {
        nonempty_composites(es[0].1) + entries_nonempty_composites(es.subrange(1, es.len() as int))
    }
}

proof fn lemma_counts_add(a: Seq<RecordV>, b: Seq<RecordV>)
    ensures
        value_count(a + b) == value_count(a) + value_count(b),
        closing_count(a + b) == closing_count(a) + closing_count(b),
{
    Seq::filter_distributes_over_add(a, b, |r: RecordV| is_value_record(r));
    Seq::filter_distributes_over_add(a, b, |r: RecordV| is_closing_record(r));
}

proof fn lemma_counts_one(r: RecordV)
    ensures
        value_count(seq![r]) == (if r.value is Some { 1nat } else { 0nat }),
        closing_count(seq![r]) == (if r.value is None { 1nat } else { 0nat }),
{
    reveal_with_fuel(Seq::filter, 2);
    assert(seq![r].drop_last() =~= Seq::<RecordV>::empty());
}

/// A document's records hold one value record per scalar (an empty array or
/// object counting as a scalar) and one closing record per non-empty array
/// or object.
pub proof fn lemma_record_counts(n: Node, p: Seq<StepV>)
    ensures
        value_count(records_of(n, p)) == scalar_nodes(n),
        closing_count(records_of(n, p)) == nonempty_composites(n),
    decreases n,
{
    match n {
        Node::Leaf(v) => {
            lemma_counts_one(value_record(p, v));
        },
        Node::Array(cs) => {
            if cs.len() == 0 {
                lemma_counts_one(value_record(p, ScalarV::EmptyArray));
            } else {
                let c = closing_record(p.push(StepV::Index((cs.len() - 1) as nat)));
                lemma_counts_add(elements_records(cs, p, 0), seq![c]);
                lemma_counts_one(c);
                lemma_elements_counts(cs, p, 0);
            }
        },
        Node::Object(es) => {
            if es.len() == 0 {
                lemma_counts_one(value_record(p, ScalarV::EmptyObject));
            } else {
                let c = closing_record(p.push(StepV::Key(es.last().0)));
                lemma_counts_add(entries_records(es, p), seq![c]);
                lemma_counts_one(c);
                lemma_entries_counts(es, p);
            }
        },
    }
}

proof fn lemma_elements_counts(cs: Seq<Node>, p: Seq<StepV>, k: nat)
    ensures
        value_count(elements_records(cs, p, k)) == elements_scalar_nodes(cs),
        closing_count(elements_records(cs, p, k)) == elements_nonempty_composites(cs),
    decreases cs,
{
    if cs.len() == 0 {
        assert(Seq::<RecordV>::empty().filter(|r: RecordV| is_value_record(r)) =~= Seq::<RecordV>::empty());
        assert(Seq::<RecordV>::empty().filter(|r: RecordV| is_closing_record(r)) =~= Seq::<RecordV>::empty());
    } else {
        let rest = cs.subrange(1, cs.len() as int);
        lemma_record_counts(cs[0], p.push(StepV::Index(k)));
        lemma_elements_counts(rest, p, k + 1);
        lemma_counts_add(records_of(cs[0], p.push(StepV::Index(k))), elements_records(rest, p, k + 1));
    }
}

proof fn lemma_entries_counts(es: Seq<(Seq<char>, Node)>, p: Seq<StepV>)
    ensures
        value_count(entries_records(es, p)) == entries_scalar_nodes(es),
        closing_count(entries_records(es, p)) == entries_nonempty_composites(es),
    decreases es,
{
    if es.len() == 0 {
        assert(Seq::<RecordV>::empty().filter(|r: RecordV| is_value_record(r)) =~= Seq::<RecordV>::empty());
        assert(Seq::<RecordV>::empty().filter(|r: RecordV| is_closing_record(r)) =~= Seq::<RecordV>::empty());
    } else {
        let rest = es.subrange(1, es.len() as int);
        lemma_record_counts(es[0].1, p.push(StepV::Key(es[0].0)));
        lemma_entries_counts(rest, p);
        lemma_counts_add(records_of(es[0].1, p.push(StepV::Key(es[0].0))), entries_records(rest, p));
    }
}

} // verus!

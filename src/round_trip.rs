use vstd::prelude::*;
use crate::model::{closing_record, value_record, RecordV, ScalarV, StepV};
use crate::document::{elements_records, entries_records, records_of, Node};

verus! {

/// The scalar that a node stands for in a value record: a leaf's value, or
/// the sentinel of an empty array or object; `None` for a non-empty one.
pub open spec fn scalar_of(n: Node) -> Option<ScalarV> {
    match n {
        Node::Leaf(v) => Some(v),
        Node::Array(cs) => if cs.len() == 0 { Some(ScalarV::EmptyArray) } else { None },
        Node::Object(es) => if es.len() == 0 { Some(ScalarV::EmptyObject) } else { None },
    }
}

/// Following the relative path `q` from `n` leads to a node whose scalar is `v`.
pub open spec fn holds_at(n: Node, q: Seq<StepV>, v: ScalarV) -> bool
    decreases q.len(), n,
{
    if q.len() == 0 {
        scalar_of(n) == Some(v)
    } else {
        match n {
            Node::Leaf(_) => false,
            Node::Array(cs) => match q[0] {
                StepV::Index(i) => i < cs.len() && holds_at(cs[i as int], q.drop_first(), v),
                StepV::Key(_) => false,
            },
            Node::Object(es) => match q[0] {
                StepV::Index(_) => false,
                StepV::Key(k) => entry_holds(es, k, q.drop_first(), v),
            },
        }
    }
}

/// Some entry of `es` has key `k`, and `rest` leads from its value to `v`.
pub open spec fn entry_holds(es: Seq<(Seq<char>, Node)>, k: Seq<char>, rest: Seq<StepV>, v: ScalarV) -> bool
    decreases rest.len() + 1, es,
{
    if es.len() == 0 {
        false
    } else {
        (es[0].0 == k && holds_at(es[0].1, rest, v))
            || entry_holds(es.subrange(1, es.len() as int), k, rest, v)
    }
}

proof fn lemma_entry_holds(es: Seq<(Seq<char>, Node)>, j: int, rest: Seq<StepV>, v: ScalarV)
    requires
        0 <= j < es.len(),
        holds_at(es[j].1, rest, v),
    ensures
        entry_holds(es, es[j].0, rest, v),
    decreases j,
{
    if j > 0 {
        let tail = es.subrange(1, es.len() as int);
        assert(tail[j - 1] == es[j]);
        lemma_entry_holds(tail, j - 1, rest, v);
    }
}

/// The value record `r` lies under `p`, and the rest of its path leads from
/// `n` to the scalar it carries.
pub open spec fn located(n: Node, p: Seq<StepV>, r: RecordV) -> bool {
    &&& r.value is Some
    &&& p.len() <= r.path.len()
    &&& r.path.subrange(0, p.len() as int) == p
    &&& holds_at(n, r.path.subrange(p.len() as int, r.path.len() as int), r.value->Some_0)
}

proof fn lemma_lift_index(cs: Seq<Node>, p: Seq<StepV>, j: int, r: RecordV)
    requires
        0 <= j < cs.len(),
        located(cs[j], p.push(StepV::Index(j as nat)), r),
    ensures
        located(Node::Array(cs), p, r),
{
    let pj = p.push(StepV::Index(j as nat));
    let q = r.path.subrange(p.len() as int, r.path.len() as int);
    assert(r.path.subrange(0, p.len() as int) =~= pj.subrange(0, p.len() as int));
    assert(pj.subrange(0, p.len() as int) =~= p);
    assert(r.path[p.len() as int] == pj[p.len() as int]);
    assert(q[0] == StepV::Index(j as nat));
    assert(q.drop_first() =~= r.path.subrange(pj.len() as int, r.path.len() as int));
}

proof fn lemma_lift_key(es: Seq<(Seq<char>, Node)>, p: Seq<StepV>, j: int, r: RecordV)
    requires
        0 <= j < es.len(),
        located(es[j].1, p.push(StepV::Key(es[j].0)), r),
    ensures
        located(Node::Object(es), p, r),
{
    let pj = p.push(StepV::Key(es[j].0));
    let q = r.path.subrange(p.len() as int, r.path.len() as int);
    assert(r.path.subrange(0, p.len() as int) =~= pj.subrange(0, p.len() as int));
    assert(pj.subrange(0, p.len() as int) =~= p);
    assert(r.path[p.len() as int] == pj[p.len() as int]);
    assert(q[0] == StepV::Key(es[j].0));
    assert(q.drop_first() =~= r.path.subrange(pj.len() as int, r.path.len() as int));
    let v = r.value->Some_0;
    lemma_entry_holds(es, j, q.drop_first(), v);
}

proof fn lemma_sound(n: Node, p: Seq<StepV>)
    ensures
        forall|i: int| 0 <= i < records_of(n, p).len() && (#[trigger] records_of(n, p)[i]).value is Some
            ==> located(n, p, records_of(n, p)[i]),
    decreases n,
{
    match n {
        Node::Leaf(v) => {
            let r = value_record(p, v);
            assert(r.path.subrange(0, p.len() as int) =~= p);
            assert(r.path.subrange(p.len() as int, r.path.len() as int) =~= Seq::<StepV>::empty());
        },
        Node::Array(cs) => {
            if cs.len() == 0 {
                let r = value_record(p, ScalarV::EmptyArray);
                assert(r.path.subrange(0, p.len() as int) =~= p);
                assert(r.path.subrange(p.len() as int, r.path.len() as int) =~= Seq::<StepV>::empty());
            } else {
                let a = elements_records(cs, p, 0);
                let c = closing_record(p.push(StepV::Index((cs.len() - 1) as nat)));
                lemma_sound_elements(cs, p, 0);
                assert forall|i: int| 0 <= i < records_of(n, p).len() && (#[trigger] records_of(n, p)[i]).value is Some
                    implies located(n, p, records_of(n, p)[i]) by {
                    if i < a.len() {
                        assert(records_of(n, p)[i] == a[i]);
                        let j = choose|j: int| 0 <= j < cs.len()
                            && #[trigger] located(cs[j], p.push(StepV::Index(j as nat)), a[i]);
                        lemma_lift_index(cs, p, j, a[i]);
                    } else {
                        assert(records_of(n, p)[i] == c);
                    }
                }
            }
        },
        Node::Object(es) => {
            if es.len() == 0 {
                let r = value_record(p, ScalarV::EmptyObject);
                assert(r.path.subrange(0, p.len() as int) =~= p);
                assert(r.path.subrange(p.len() as int, r.path.len() as int) =~= Seq::<StepV>::empty());
            } else {
                let a = entries_records(es, p);
                let c = closing_record(p.push(StepV::Key(es.last().0)));
                lemma_sound_entries(es, p);
                assert forall|i: int| 0 <= i < records_of(n, p).len() && (#[trigger] records_of(n, p)[i]).value is Some
                    implies located(n, p, records_of(n, p)[i]) by {
                    if i < a.len() {
                        assert(records_of(n, p)[i] == a[i]);
                        let j = choose|j: int| 0 <= j < es.len()
                            && #[trigger] located(es[j].1, p.push(StepV::Key(es[j].0)), a[i]);
                        lemma_lift_key(es, p, j, a[i]);
                    } else {
                        assert(records_of(n, p)[i] == c);
                    }
                }
            }
        },
    }
}

proof fn lemma_sound_elements(cs: Seq<Node>, p: Seq<StepV>, k: nat)
    ensures
        forall|i: int| 0 <= i < elements_records(cs, p, k).len()
            && (#[trigger] elements_records(cs, p, k)[i]).value is Some
            ==> exists|j: int| 0 <= j < cs.len()
                && #[trigger] located(cs[j], p.push(StepV::Index((k + j) as nat)), elements_records(cs, p, k)[i]),
    decreases cs,
{
    if cs.len() > 0 {
        let rest = cs.subrange(1, cs.len() as int);
        let a = records_of(cs[0], p.push(StepV::Index(k)));
        let b = elements_records(rest, p, k + 1);
        lemma_sound(cs[0], p.push(StepV::Index(k)));
        lemma_sound_elements(rest, p, k + 1);
        assert forall|i: int| 0 <= i < elements_records(cs, p, k).len()
            && (#[trigger] elements_records(cs, p, k)[i]).value is Some
            implies exists|j: int| 0 <= j < cs.len()
                && #[trigger] located(cs[j], p.push(StepV::Index((k + j) as nat)), elements_records(cs, p, k)[i]) by {
            let r = elements_records(cs, p, k)[i];
            if i < a.len() {
                assert(r == a[i]);
                assert(located(cs[0], p.push(StepV::Index((k + 0) as nat)), r));
            } else {
                assert(r == b[i - a.len()]);
                let j = choose|j: int| 0 <= j < rest.len()
                    && #[trigger] located(rest[j], p.push(StepV::Index((k + 1 + j) as nat)), b[i - a.len()]);
                assert(rest[j] == cs[j + 1]);
                assert(located(cs[j + 1], p.push(StepV::Index((k + (j + 1)) as nat)), r));
            }
        }
    }
}

proof fn lemma_sound_entries(es: Seq<(Seq<char>, Node)>, p: Seq<StepV>)
    ensures
        forall|i: int| 0 <= i < entries_records(es, p).len()
            && (#[trigger] entries_records(es, p)[i]).value is Some
            ==> exists|j: int| 0 <= j < es.len()
                && #[trigger] located(es[j].1, p.push(StepV::Key(es[j].0)), entries_records(es, p)[i]),
    decreases es,
{
    if es.len() > 0 {
        let rest = es.subrange(1, es.len() as int);
        let a = records_of(es[0].1, p.push(StepV::Key(es[0].0)));
        let b = entries_records(rest, p);
        lemma_sound(es[0].1, p.push(StepV::Key(es[0].0)));
        lemma_sound_entries(rest, p);
        assert forall|i: int| 0 <= i < entries_records(es, p).len()
            && (#[trigger] entries_records(es, p)[i]).value is Some
            implies exists|j: int| 0 <= j < es.len()
                && #[trigger] located(es[j].1, p.push(StepV::Key(es[j].0)), entries_records(es, p)[i]) by {
            let r = entries_records(es, p)[i];
            if i < a.len() {
                assert(r == a[i]);
                assert(located(es[0].1, p.push(StepV::Key(es[0].0)), r));
            } else {
                assert(r == b[i - a.len()]);
                let j = choose|j: int| 0 <= j < rest.len()
                    && #[trigger] located(rest[j].1, p.push(StepV::Key(rest[j].0)), b[i - a.len()]);
                assert(rest[j] == es[j + 1]);
                assert(located(es[j + 1].1, p.push(StepV::Key(es[j + 1].0)), r));
            }
        }
    }
}

proof fn lemma_entry_witness(es: Seq<(Seq<char>, Node)>, k: Seq<char>, rest: Seq<StepV>, v: ScalarV) -> (j: int)
    requires
        entry_holds(es, k, rest, v),
    ensures
        0 <= j < es.len(),
        es[j].0 == k,
        holds_at(es[j].1, rest, v),
    decreases es.len(),
{
    if es[0].0 == k && holds_at(es[0].1, rest, v) {
        0
    } else {
        let tail = es.subrange(1, es.len() as int);
        let j = lemma_entry_witness(tail, k, rest, v);
        assert(tail[j] == es[j + 1]);
        j + 1
    }
}

proof fn lemma_contains_concat(a: Seq<RecordV>, b: Seq<RecordV>, x: RecordV)
    requires
        a.contains(x) || b.contains(x),
    ensures
        (a + b).contains(x),
{
    if a.contains(x) {
        let i = choose|i: int| 0 <= i < a.len() && a[i] == x;
        assert((a + b)[i] == x);
    } else {
        let i = choose|i: int| 0 <= i < b.len() && b[i] == x;
        assert((a + b)[a.len() + i] == x);
    }
}

proof fn lemma_elements_contain(cs: Seq<Node>, p: Seq<StepV>, k: nat, j: int, x: RecordV)
    requires
        0 <= j < cs.len(),
        records_of(cs[j], p.push(StepV::Index((k + j) as nat))).contains(x),
    ensures
        elements_records(cs, p, k).contains(x),
    decreases cs,
{
    let rest = cs.subrange(1, cs.len() as int);
    if j > 0 {
        assert(rest[j - 1] == cs[j]);
        assert((k + 1 + (j - 1)) as nat == (k + j) as nat);
        lemma_elements_contain(rest, p, k + 1, j - 1, x);
    }
    lemma_contains_concat(records_of(cs[0], p.push(StepV::Index(k))), elements_records(rest, p, k + 1), x);
}

proof fn lemma_entries_contain(es: Seq<(Seq<char>, Node)>, p: Seq<StepV>, j: int, x: RecordV)
    requires
        0 <= j < es.len(),
        records_of(es[j].1, p.push(StepV::Key(es[j].0))).contains(x),
    ensures
        entries_records(es, p).contains(x),
    decreases es,
{
    let rest = es.subrange(1, es.len() as int);
    if j > 0 {
        assert(rest[j - 1] == es[j]);
        lemma_entries_contain(rest, p, j - 1, x);
    }
    lemma_contains_concat(records_of(es[0].1, p.push(StepV::Key(es[0].0))), entries_records(rest, p), x);
}

proof fn lemma_complete(n: Node, p: Seq<StepV>, q: Seq<StepV>, v: ScalarV)
    requires
        holds_at(n, q, v),
    ensures
        records_of(n, p).contains(value_record(p + q, v)),
    decreases q.len(), n,
{
    if q.len() == 0 {
        assert(p + q =~= p);
        assert(records_of(n, p)[0] == value_record(p, v));
    } else {
        let rest = q.drop_first();
        match n {
            Node::Leaf(_) => {},
            Node::Array(cs) => {
                let i = q[0]->Index_0;
                let pi = p.push(StepV::Index(i));
                lemma_complete(cs[i as int], pi, rest, v);
                assert(pi + rest =~= p + q);
                lemma_elements_contain(cs, p, 0, i as int, value_record(p + q, v));
                lemma_contains_concat(elements_records(cs, p, 0),
                    seq![closing_record(p.push(StepV::Index((cs.len() - 1) as nat)))], value_record(p + q, v));
            },
            Node::Object(es) => {
                let k = q[0]->Key_0;
                let j = lemma_entry_witness(es, k, rest, v);
                let pk = p.push(StepV::Key(k));
                lemma_complete(es[j].1, pk, rest, v);
                assert(pk + rest =~= p + q);
                lemma_entries_contain(es, p, j, value_record(p + q, v));
                lemma_contains_concat(entries_records(es, p),
                    seq![closing_record(p.push(StepV::Key(es.last().0)))], value_record(p + q, v));
            },
        }
    }
}

/// The value records of a document are exactly its scalars, each at its
/// path, so they are enough to rebuild the document: every value record
/// under `p` carries the scalar found by following the rest of its path from
/// the root, and every scalar of the document (an empty array or object
/// counting as one) has a value record at `p` followed by its path.
pub proof fn lemma_value_records_are_scalars(n: Node, p: Seq<StepV>)
    ensures
        forall|i: int| 0 <= i < records_of(n, p).len() && (#[trigger] records_of(n, p)[i]).value is Some
            ==> located(n, p, records_of(n, p)[i]),
        forall|q: Seq<StepV>, v: ScalarV| #[trigger] holds_at(n, q, v)
            ==> records_of(n, p).contains(value_record(p + q, v)),
{
    lemma_sound(n, p);
    assert forall|q: Seq<StepV>, v: ScalarV| #[trigger] holds_at(n, q, v)
        implies records_of(n, p).contains(value_record(p + q, v)) by {
        lemma_complete(n, p, q, v);
    }
}

} // verus!

use vstd::prelude::*;

verus! {

/// Where the producer side of the hand-off stands.
#[derive(Clone, Copy, PartialEq, Eq, Structural, Debug)]
pub enum Phase {
    /// Parsing and handing records over.
    Running,
    /// A document failed to parse and the error has been handed over.
    Failed,
    /// The consumer stopped taking records.
    Abandoned,
}

/// What the producer hears while it works.
pub enum Signal {
    /// The walker produced a record.
    Record,
    /// The parser failed on the current document.
    ParseError,
    /// A hand-off found no consumer.
    ConsumerGone,
}

/// What reaches the consumer.
pub enum Delivery {
    Record,
    Error,
}

/// The next phase after a signal, and what is handed over for it.
pub open spec fn react(ph: Phase, s: Signal) -> (Phase, Option<Delivery>) {
    if ph == Phase::Running {
        match s {
            Signal::Record => (Phase::Running, Some(Delivery::Record)),
            Signal::ParseError => (Phase::Failed, Some(Delivery::Error)),
            Signal::ConsumerGone => (Phase::Abandoned, None),
        }
    } else {
        (ph, None)
    }
}

/// The phase after a run of signals.
pub open spec fn phase_after(ph: Phase, ss: Seq<Signal>) -> Phase
    decreases ss.len(),
{
    if ss.len() == 0 {
        ph
    } else {
        phase_after(react(ph, ss[0]).0, ss.drop_first())
    }
}

/// What a run of signals hands over, in order.
pub open spec fn deliveries(ph: Phase, ss: Seq<Signal>) -> Seq<Delivery>
    decreases ss.len(),
{
    if ss.len() == 0 {
        Seq::empty()
    } else {
        let (next, d) = react(ph, ss[0]);
        match d {
            Some(x) => seq![x] + deliveries(next, ss.drop_first()),
            None => deliveries(next, ss.drop_first()),
        }
    }
}

/// The producer's decisions: whether to hand a record or an error over, and
/// whether to go on parsing.
pub struct Producer {
    phase: Phase,
}

impl View for Producer {
    type V = Phase;

    closed spec fn view(&self) -> Phase {
        self.phase
    }
}

impl Producer {
    /// A producer that has not handed anything over yet.
    pub fn new() -> (r: Producer)
        ensures
            r@ == Phase::Running,
    {
        Producer { phase: Phase::Running }
    }

    pub fn phase(&self) -> (r: Phase)
        ensures
            r == self@,
    {
        self.phase
    }

    /// True while parsing should go on.
    pub fn running(&self) -> (r: bool)
        ensures
            r == (self@ == Phase::Running),
    {
        self.phase == Phase::Running
    }

    /// The walker produced a record: true if it is to be handed over.
    pub fn offer_record(&mut self) -> (send: bool)
        ensures
            react(old(self)@, Signal::Record) == (final(self)@,
                if send { Some(Delivery::Record) } else { None::<Delivery> }),
    {
        self.phase == Phase::Running
    }

    /// The current document failed to parse: true if the error is to be
    /// handed over. Nothing is handed over after it.
    pub fn parse_failed(&mut self) -> (send: bool)
        ensures
            react(old(self)@, Signal::ParseError) == (final(self)@,
                if send { Some(Delivery::Error) } else { None::<Delivery> }),
    {
        if self.phase == Phase::Running {
            self.phase = Phase::Failed;
            true
        } else {
            false
        }
    }

    /// A hand-off found no consumer: stop quietly.
    pub fn consumer_gone(&mut self)
        ensures
            react(old(self)@, Signal::ConsumerGone) == (final(self)@, None::<Delivery>),
    {
        if self.phase == Phase::Running {
            self.phase = Phase::Abandoned;
        }
    }
}

proof fn lemma_stopped_delivers_nothing(ph: Phase, ss: Seq<Signal>)
    requires
        ph != Phase::Running,
    ensures
        deliveries(ph, ss) == Seq::<Delivery>::empty(),
        phase_after(ph, ss) == ph,
    decreases ss.len(),
{
    if ss.len() > 0 {
        lemma_stopped_delivers_nothing(ph, ss.drop_first());
    }
}

/// At most one error is ever handed over, and nothing follows it: in what a
/// run hands over, an error can only be the last item.
pub proof fn lemma_error_is_last(ph: Phase, ss: Seq<Signal>)
    ensures
        forall|i: int| 0 <= i < deliveries(ph, ss).len() && #[trigger] deliveries(ph, ss)[i] is Error
            ==> i == deliveries(ph, ss).len() - 1,
    decreases ss.len(),
{
    if ss.len() > 0 {
        let (next, d) = react(ph, ss[0]);
        let rest = deliveries(next, ss.drop_first());
        lemma_error_is_last(next, ss.drop_first());
        match d {
            Some(Delivery::Error) => {
                lemma_stopped_delivers_nothing(next, ss.drop_first());
                assert(deliveries(ph, ss) =~= seq![Delivery::Error]);
            },
            Some(Delivery::Record) => {
                assert forall|i: int| 0 <= i < deliveries(ph, ss).len() && #[trigger] deliveries(ph, ss)[i] is Error
                    implies i == deliveries(ph, ss).len() - 1 by {
                    assert(deliveries(ph, ss)[i] == (seq![Delivery::Record] + rest)[i]);
                    if i > 0 {
                        assert(rest[i - 1] is Error);
                    }
                }
            },
            None => {},
        }
    }
}

/// Once a hand-off finds no consumer, the producer hands nothing more over,
/// an error included: the run hands over what it had before that signal,
/// and it ends abandoned, not failed, unless it had already stopped.
pub proof fn lemma_consumer_gone_stops(ph: Phase, ss: Seq<Signal>, k: int)
    requires
        0 <= k < ss.len(),
        ss[k] is ConsumerGone,
    ensures
        deliveries(ph, ss) == deliveries(ph, ss.subrange(0, k)),
        phase_after(ph, ss) == (if phase_after(ph, ss.subrange(0, k)) == Phase::Running {
            Phase::Abandoned
        } else {
            phase_after(ph, ss.subrange(0, k))
        }),
    decreases k,
{
    let (next, d) = react(ph, ss[0]);
    if k == 0 {
        assert(ss.subrange(0, 0) =~= Seq::<Signal>::empty());
        if ph == Phase::Running {
            lemma_stopped_delivers_nothing(Phase::Abandoned, ss.drop_first());
        } else {
            lemma_stopped_delivers_nothing(ph, ss.drop_first());
        }
    } else {
        lemma_consumer_gone_stops(next, ss.drop_first(), k - 1);
        let pre = ss.subrange(0, k);
        assert(pre[0] == ss[0]);
        assert(pre.drop_first() =~= ss.drop_first().subrange(0, k - 1));
    }
}

} // verus!

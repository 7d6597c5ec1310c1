//! The producer side of the delivery channel, as a state machine.
//!
//! Decoded events drive a phase: while `Streaming`, every delta is sent
//! verbatim and the first `Done` sends one in-band sentinel value and
//! moves to `Completed`; a stream that ends without a sentinel is
//! `Closed`. Both terminal phases are absorbing: nothing is ever sent
//! from them. The unverified shell owns the actual bounded channel and
//! performs each send this machine prescribes, in order.

use vstd::prelude::*;

use crate::decode::{done_lit, views_of, DecodedEvent, EventView};
use vstd::string::StringExecFns;

verus! {

/// The producer's phase: streaming, completed with a sentinel, or
/// closed without one.
#[derive(PartialEq, Eq, Structural, Clone, Copy, Debug)]
pub enum StreamPhase {
    /// Deltas are flowing; nothing terminal has happened.
    Streaming,
    /// The sentinel was sent; nothing further is ever sent.
    Completed,
    /// The stream ended without a sentinel; nothing further is ever sent.
    Closed,
}

/// What one event does to the phase and what it puts on the channel.
pub open spec fn spec_step(phase: StreamPhase, ev: EventView) -> (StreamPhase, Option<Seq<char>>) {
    match phase {
        StreamPhase::Streaming => match ev {
            EventView::Delta(t) => (StreamPhase::Streaming, Some(t)),
            EventView::Done => (StreamPhase::Completed, Some(done_lit())),
            EventView::Ignored => (StreamPhase::Streaming, None),
        },
        _ => (phase, None),
    }
}

/// A send, as the (possibly empty) sequence of channel values it makes.
pub open spec fn opt_sends(out: Option<Seq<char>>) -> Seq<Seq<char>> {
    match out {
        Some(t) => seq![t],
        None => Seq::<Seq<char>>::empty(),
    }
}

/// The final phase and the whole channel traffic of a run of events.
pub open spec fn spec_run(phase: StreamPhase, evs: Seq<EventView>) -> (
    StreamPhase,
    Seq<Seq<char>>,
)
    decreases evs.len(),
{
    if evs.len() == 0 {
        (phase, Seq::<Seq<char>>::empty())
    } else {
        let first = spec_step(phase, evs[0]);
        let rest = spec_run(first.0, evs.drop_first());
        (rest.0, opt_sends(first.1) + rest.1)
    }
}

/// The view of an optional channel value.
pub open spec fn opt_view(o: Option<String>) -> Option<Seq<char>> {
    match o {
        Some(s) => Some(s@),
        None => None,
    }
}

/// The in-band sentinel value sent on the channel, matching the wire
/// sentinel `[DONE]`.
pub fn sentinel_text() -> (r: String)
    ensures
        r@ == done_lit(),
{
    let r = String::from_str("[DONE]");
    proof {
        reveal_strlit("[DONE]");
        assert(r@ =~= done_lit());
    }
    r
}

/// Applies one decoded event: the next phase, and the value (if any)
/// the producer must send on the delivery channel.
pub fn step(phase: StreamPhase, event: &DecodedEvent) -> (r: (StreamPhase, Option<String>))
    ensures
        (r.0, opt_view(r.1)) == spec_step(phase, event@),
{
    match phase {
        StreamPhase::Streaming => match event {
            DecodedEvent::Delta(t) => (StreamPhase::Streaming, Some(t.clone())),
            DecodedEvent::Done => (StreamPhase::Completed, Some(sentinel_text())),
            DecodedEvent::Ignored => (StreamPhase::Streaming, None),
        },
        StreamPhase::Completed => (StreamPhase::Completed, None),
        StreamPhase::Closed => (StreamPhase::Closed, None),
    }
}

/// Ends the stream without a sentinel: a producer still streaming
/// closes; one already terminal stays as it is.
pub open spec fn spec_close(phase: StreamPhase) -> StreamPhase {
    match phase {
        StreamPhase::Streaming => StreamPhase::Closed,
        _ => phase,
    }
}

/// Marks the end of input on a stream that saw no sentinel frame.
pub fn close(phase: StreamPhase) -> (r: StreamPhase)
    ensures
        r == spec_close(phase),
{
    match phase {
        StreamPhase::Streaming => StreamPhase::Closed,
        StreamPhase::Completed => StreamPhase::Completed,
        StreamPhase::Closed => StreamPhase::Closed,
    }
}

/// Running one batch from `p`, then another, is running their
/// concatenation: batching events does not change the channel traffic.
pub proof fn lemma_run_append(p: StreamPhase, a: Seq<EventView>, b: Seq<EventView>)
    ensures
        spec_run(p, a + b).0 == spec_run(spec_run(p, a).0, b).0,
        spec_run(p, a + b).1 == spec_run(p, a).1 + spec_run(spec_run(p, a).0, b).1,
    decreases a.len(),
{
    if a.len() == 0 {
        assert(a + b =~= b);
        assert(Seq::<Seq<char>>::empty() + spec_run(p, b).1 =~= spec_run(p, b).1);
    } else {
        let first = spec_step(p, a[0]);
        assert((a + b)[0] == a[0]);
        assert((a + b).drop_first() =~= a.drop_first() + b);
        lemma_run_append(first.0, a.drop_first(), b);
        assert(opt_sends(first.1) + (spec_run(first.0, a.drop_first()).1 + spec_run(
            spec_run(p, a).0,
            b,
        ).1) =~= (opt_sends(first.1) + spec_run(first.0, a.drop_first()).1) + spec_run(
            spec_run(p, a).0,
            b,
        ).1);
    }
}

/// Runs a batch of decoded events from `phase`, collecting every value
/// the producer must send, in order.
pub fn pump_events(phase: StreamPhase, events: &Vec<DecodedEvent>) -> (r: (
    StreamPhase,
    Vec<String>,
))
    ensures
        r.0 == spec_run(phase, views_of(events@)).0,
        r.1.deep_view() == spec_run(phase, views_of(events@)).1,
{
    let mut cur = phase;
    let mut sends: Vec<String> = Vec::new();
    let mut i: usize = 0;
    proof {
        assert(views_of(events@).take(0) =~= Seq::<EventView>::empty());
        assert(sends.deep_view() =~= Seq::<Seq<char>>::empty());
    }
    while i < events.len()
        invariant
            i <= events@.len(),
            cur == spec_run(phase, views_of(events@).take(i as int)).0,
            sends.deep_view() == spec_run(phase, views_of(events@).take(i as int)).1,
        decreases events@.len() - i,
    {
        let ghost evs = views_of(events@);
        let ghost done_part = evs.take(i as int);
        let (next, out) = step(cur, &events[i]);
        proof {
            assert(evs[i as int] == events@[i as int]@);
            assert(evs.take((i + 1) as int) =~= done_part + seq![evs[i as int]]);
            lemma_run_append(phase, done_part, seq![evs[i as int]]);
            let e = evs[i as int];
            assert(seq![e].drop_first() =~= Seq::<EventView>::empty());
            assert(seq![e][0] == e);
            assert(spec_run(spec_step(cur, e).0, seq![e].drop_first()).0 == spec_step(cur, e).0);
            assert(spec_run(spec_step(cur, e).0, seq![e].drop_first()).1
                == Seq::<Seq<char>>::empty());
            assert(spec_run(cur, seq![e]).0 == spec_step(cur, e).0);
            assert(spec_run(cur, seq![e]).1 =~= opt_sends(spec_step(cur, e).1));
        }
        let ghost sends0 = sends.deep_view();
        match out {
            Some(s) => {
                let ghost sv = s@;
                sends.push(s);
                proof {
                    assert(sends.deep_view() =~= sends0 + seq![sv]);
                }
            },
            None => {
                proof {
                    assert(sends.deep_view() =~= sends0 + Seq::<Seq<char>>::empty());
                }
            },
        }
        cur = next;
        i = i + 1;
    }
    proof {
        assert(views_of(events@).take(events@.len() as int) =~= views_of(events@));
    }
    (cur, sends)
}

/// The texts of the delta events, in order.
pub open spec fn delta_texts(evs: Seq<EventView>) -> Seq<Seq<char>>
    decreases evs.len(),
{
    if evs.len() == 0 {
        Seq::<Seq<char>>::empty()
    } else {
        (match evs[0] {
            EventView::Delta(t) => seq![t],
            _ => Seq::<Seq<char>>::empty(),
        }) + delta_texts(evs.drop_first())
    }
}

/// The index of the first `Done` event, if any.
pub open spec fn first_done(evs: Seq<EventView>) -> Option<int>
    decreases evs.len(),
{
    if evs.len() == 0 {
        None
    } else if evs[0] is Done {
        Some(0)
    } else {
        match first_done(evs.drop_first()) {
            Some(k) => Some(k + 1),
            None => None,
        }
    }
}

/// An ignored frame produces no channel traffic, whatever the phase.
pub proof fn lemma_ignored_sends_nothing(phase: StreamPhase)
    ensures
        spec_step(phase, EventView::Ignored).1 is None,
        spec_step(phase, EventView::Ignored).0 == phase,
{
}

/// When there is a first `Done`, its index lies in the sequence and
/// carries a `Done`.
pub proof fn lemma_first_done_bounds(evs: Seq<EventView>)
    ensures
        match first_done(evs) {
            Some(k) => 0 <= k < evs.len() && evs[k] is Done,
            None => true,
        },
    decreases evs.len(),
{
    if evs.len() > 0 && !(evs[0] is Done) {
        lemma_first_done_bounds(evs.drop_first());
    }
}

/// A terminal phase is absorbing: once completed or closed, no run of
/// further events sends anything or moves the phase.
pub proof fn lemma_terminal_silent(phase: StreamPhase, evs: Seq<EventView>)
    requires
        phase != StreamPhase::Streaming,
    ensures
        spec_run(phase, evs).0 == phase,
        spec_run(phase, evs).1 == Seq::<Seq<char>>::empty(),
    decreases evs.len(),
{
    if evs.len() > 0 {
        lemma_terminal_silent(phase, evs.drop_first());
        assert(Seq::<Seq<char>>::empty() + Seq::<Seq<char>>::empty()
            =~= Seq::<Seq<char>>::empty());
    }
}

/// Sentinel termination: however a stream's events look, the channel
/// carries the deltas that precede the first `Done`, in order, then —
/// exactly when a `Done` occurred — one sentinel value, and nothing at
/// all after that; deltas after the first `Done` are never sent.
pub proof fn lemma_sentinel_terminal(evs: Seq<EventView>)
    ensures
        match first_done(evs) {
            Some(k) => spec_run(StreamPhase::Streaming, evs).1 == delta_texts(evs.take(k))
                + seq![done_lit()] && spec_run(StreamPhase::Streaming, evs).0
                == StreamPhase::Completed,
            None => spec_run(StreamPhase::Streaming, evs).1 == delta_texts(evs) && spec_run(
                StreamPhase::Streaming,
                evs,
            ).0 == StreamPhase::Streaming,
        },
    decreases evs.len(),
{
    if evs.len() == 0 {
    } else {
        let rest = evs.drop_first();
        match evs[0] {
            EventView::Done => {
                lemma_terminal_silent(StreamPhase::Completed, rest);
                assert(evs.take(0) =~= Seq::<EventView>::empty());
                assert(seq![done_lit()] + Seq::<Seq<char>>::empty() =~= seq![done_lit()]);
                assert(Seq::<Seq<char>>::empty() + seq![done_lit()] =~= seq![done_lit()]);
            },
            EventView::Delta(t) => {
                lemma_sentinel_terminal(rest);
                lemma_first_done_bounds(rest);
                match first_done(rest) {
                    Some(k) => {
                        assert(first_done(evs) == Some(k + 1));
                        assert(evs.take(k + 1).drop_first() =~= rest.take(k));
                        assert(evs.take(k + 1)[0] == evs[0]);
                        assert(delta_texts(evs.take(k + 1)) == seq![t] + delta_texts(rest.take(k)));
                        assert(seq![t] + (delta_texts(rest.take(k)) + seq![done_lit()]) =~= (
                        seq![t] + delta_texts(rest.take(k))) + seq![done_lit()]);
                    },
                    None => {
                        assert(delta_texts(evs) == seq![t] + delta_texts(rest));
                    },
                }
            },
            EventView::Ignored => {
                lemma_sentinel_terminal(rest);
                lemma_first_done_bounds(rest);
                match first_done(rest) {
                    Some(k) => {
                        assert(first_done(evs) == Some(k + 1));
                        assert(evs.take(k + 1).drop_first() =~= rest.take(k));
                        assert(evs.take(k + 1)[0] == evs[0]);
                        assert(delta_texts(evs.take(k + 1)) == Seq::<Seq<char>>::empty()
                            + delta_texts(rest.take(k)));
                        assert(Seq::<Seq<char>>::empty() + (delta_texts(rest.take(k))
                            + seq![done_lit()]) =~= (Seq::<Seq<char>>::empty() + delta_texts(
                            rest.take(k),
                        )) + seq![done_lit()]);
                    },
                    None => {
                        assert(delta_texts(evs) == Seq::<Seq<char>>::empty() + delta_texts(rest));
                    },
                }
            },
        }
    }
}

} // verus!

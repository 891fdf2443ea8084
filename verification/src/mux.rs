//! Outbound multiplexer: per-connection arbitration between the payload
//! channel and the control channel, serialized onto one socket write path.
//!
//! The multiplexer holds two bounded queues. Each step hands out exactly one
//! whole queued message — never a fragment — so the caller performs one
//! complete write-and-flush per step. The caller's selection bit alternates
//! (or follows readiness) to keep the two sources fairly served; whichever
//! source is chosen, messages of one source leave in the order they were
//! enqueued.

use vstd::prelude::*;

verus! {

/// Capacity of each per-connection queue.
pub const CHANNEL_CAPACITY: usize = 100;

/// What is written to a client socket.
pub enum OutboundMessage {
    /// A complete text frame, as UTF-8 bytes.
    Text(Vec<u8>),
    /// A protocol-level liveness probe.
    Ping,
    /// A close with its reason.
    Close(Vec<u8>),
}

pub ghost enum OutboundMessageV {
    Text(Seq<u8>),
    Ping,
    Close(Seq<u8>),
}

impl View for OutboundMessage {
    type V = OutboundMessageV;

    open spec fn view(&self) -> OutboundMessageV {
        match self {
            OutboundMessage::Text(s) => OutboundMessageV::Text(s@),
            OutboundMessage::Ping => OutboundMessageV::Ping,
            OutboundMessage::Close(s) => OutboundMessageV::Close(s@),
        }
    }
}

/// Which queue a message left through.
#[derive(Clone, Copy, Debug, PartialEq, Eq, Structural)]
pub enum MuxSource {
    Payload,
    Control,
}

/// The messages of one source, in emission order.
pub open spec fn spec_proj(
    emitted: Seq<(MuxSource, OutboundMessageV)>,
    src: MuxSource,
) -> Seq<OutboundMessageV>
    decreases emitted,
{
    if emitted.len() == 0 {
        Seq::empty()
    } else {
        (if emitted[0].0 == src {
            seq![emitted[0].1]
        } else {
            Seq::empty()
        }) + spec_proj(emitted.drop_first(), src)
    }
}

pub proof fn lemma_proj_snoc(
    emitted: Seq<(MuxSource, OutboundMessageV)>,
    p: (MuxSource, OutboundMessageV),
    src: MuxSource,
)
    ensures
        spec_proj(emitted.push(p), src) =~= spec_proj(emitted, src) + (if p.0 == src {
            seq![p.1]
        } else {
            Seq::empty()
        }),
    decreases emitted,
{
    if emitted.len() == 0 {
        assert(emitted.push(p)[0] == p);
        assert(emitted.push(p).drop_first() =~= Seq::<(MuxSource, OutboundMessageV)>::empty());
        assert(spec_proj(emitted.push(p).drop_first(), src) =~= Seq::<OutboundMessageV>::empty());
        assert(spec_proj(emitted, src) =~= Seq::<OutboundMessageV>::empty());
    } else {
        assert(emitted.push(p)[0] == emitted[0]);
        assert(emitted.push(p).drop_first() =~= emitted.drop_first().push(p));
        lemma_proj_snoc(emitted.drop_first(), p, src);
    }
}

/// Which source a step serves, given the chosen preference and which
/// queues are ready: the preferred ready source, else the other ready one.
pub open spec fn spec_choose_source(
    payload_len: nat,
    control_len: nat,
    prefer_control: bool,
) -> Option<MuxSource> {
    if payload_len == 0 && control_len == 0 {
        None
    } else if prefer_control && control_len > 0 {
        Some(MuxSource::Control)
    } else if !prefer_control && payload_len > 0 {
        Some(MuxSource::Payload)
    } else if control_len > 0 {
        Some(MuxSource::Control)
    } else {
        Some(MuxSource::Payload)
    }
}

pub ghost struct MultiplexerV {
    /// Messages waiting on the payload queue, front first.
    pub payload: Seq<OutboundMessageV>,
    /// Messages waiting on the control queue, front first.
    pub control: Seq<OutboundMessageV>,
    /// Every message ever accepted onto the payload queue.
    pub enq_payload: Seq<OutboundMessageV>,
    /// Every message ever accepted onto the control queue.
    pub enq_control: Seq<OutboundMessageV>,
    /// Every message handed out for writing, with its source, in order.
    pub emitted: Seq<(MuxSource, OutboundMessageV)>,
}

/// The step handed one whole message out: it came off the front of its own
/// queue, joined the emission log with its source, and nothing else moved.
pub open spec fn spec_step_result(
    pre: MultiplexerV,
    post: MultiplexerV,
    src: MuxSource,
    mv: OutboundMessageV,
) -> bool {
    post.emitted == pre.emitted.push((src, mv)) && post.enq_payload == pre.enq_payload
        && post.enq_control == pre.enq_control && (if src == MuxSource::Payload {
        pre.payload.len() > 0 && mv == pre.payload[0] && post.payload == pre.payload.drop_first()
            && post.control == pre.control
    } else {
        pre.control.len() > 0 && mv == pre.control[0] && post.control == pre.control.drop_first()
            && post.payload == pre.payload
    })
}

/// The per-connection multiplexer state.
pub struct Multiplexer {
    payload: Vec<OutboundMessage>,
    control: Vec<OutboundMessage>,
    enq_payload: Ghost<Seq<OutboundMessageV>>,
    enq_control: Ghost<Seq<OutboundMessageV>>,
    emitted: Ghost<Seq<(MuxSource, OutboundMessageV)>>,
}

impl View for Multiplexer {
    type V = MultiplexerV;

    closed spec fn view(&self) -> MultiplexerV {
        MultiplexerV {
            payload: self.payload@.map_values(|m: OutboundMessage| m@),
            control: self.control@.map_values(|m: OutboundMessage| m@),
            enq_payload: self.enq_payload@,
            enq_control: self.enq_control@,
            emitted: self.emitted@,
        }
    }
}

impl Multiplexer {
    /// Everything ever enqueued has either been emitted through its own
    /// source, in order, or still waits in its queue; the queues are
    /// bounded.
    pub open spec fn wf(&self) -> bool {
        self@.enq_payload == spec_proj(self@.emitted, MuxSource::Payload) + self@.payload
            && self@.enq_control == spec_proj(self@.emitted, MuxSource::Control) + self@.control
            && self@.payload.len() <= CHANNEL_CAPACITY && self@.control.len() <= CHANNEL_CAPACITY
    }

    pub fn new() -> (r: Self)
        ensures
            r.wf(),
            r@.payload == Seq::<OutboundMessageV>::empty(),
            r@.control == Seq::<OutboundMessageV>::empty(),
            r@.enq_payload == Seq::<OutboundMessageV>::empty(),
            r@.enq_control == Seq::<OutboundMessageV>::empty(),
            r@.emitted == Seq::<(MuxSource, OutboundMessageV)>::empty(),
    {
        let r = Multiplexer {
            payload: Vec::new(),
            control: Vec::new(),
            enq_payload: Ghost(Seq::empty()),
            enq_control: Ghost(Seq::empty()),
            emitted: Ghost(Seq::empty()),
        };
        proof {
            assert(r@.payload =~= Seq::<OutboundMessageV>::empty());
            assert(r@.control =~= Seq::<OutboundMessageV>::empty());
            assert(spec_proj(r@.emitted, MuxSource::Payload) + r@.payload =~= Seq::<
                OutboundMessageV,
            >::empty());
            assert(spec_proj(r@.emitted, MuxSource::Control) + r@.control =~= Seq::<
                OutboundMessageV,
            >::empty());
        }
        r
    }

    /// Accept a message onto the payload queue; a full queue refuses it
    /// unchanged (backpressure).
    pub fn enqueue_payload(&mut self, m: OutboundMessage) -> (r: bool)
        requires
            old(self).wf(),
        ensures
            final(self).wf(),
            r == (old(self)@.payload.len() < CHANNEL_CAPACITY),
            r ==> final(self)@ == (MultiplexerV {
                payload: old(self)@.payload.push(m@),
                enq_payload: old(self)@.enq_payload.push(m@),
                ..old(self)@
            }),
            !r ==> final(self)@ == old(self)@,
    {
        if self.payload.len() >= CHANNEL_CAPACITY {
            return false;
        }
        let ghost mv = m@;
        let ghost old_view = self@;
        self.payload.push(m);
        proof {
            self.enq_payload@ = self.enq_payload@.push(mv);
            assert(self@.payload =~= old_view.payload.push(mv));
            assert(spec_proj(self@.emitted, MuxSource::Payload) + self@.payload =~= (spec_proj(
                old_view.emitted,
                MuxSource::Payload,
            ) + old_view.payload).push(mv));
        }
        true
    }

    /// Accept a message onto the control queue; a full queue refuses it
    /// unchanged.
    pub fn enqueue_control(&mut self, m: OutboundMessage) -> (r: bool)
        requires
            old(self).wf(),
        ensures
            final(self).wf(),
            r == (old(self)@.control.len() < CHANNEL_CAPACITY),
            r ==> final(self)@ == (MultiplexerV {
                control: old(self)@.control.push(m@),
                enq_control: old(self)@.enq_control.push(m@),
                ..old(self)@
            }),
            !r ==> final(self)@ == old(self)@,
    {
        if self.control.len() >= CHANNEL_CAPACITY {
            return false;
        }
        let ghost mv = m@;
        let ghost old_view = self@;
        self.control.push(m);
        proof {
            self.enq_control@ = self.enq_control@.push(mv);
            assert(self@.control =~= old_view.control.push(mv));
            assert(spec_proj(self@.emitted, MuxSource::Control) + self@.control =~= (spec_proj(
                old_view.emitted,
                MuxSource::Control,
            ) + old_view.control).push(mv));
        }
        true
    }

    /// Hand out the next message to write: the front of the source that
    /// `spec_choose_source` picks for the given preference, whole, with
    /// both queues otherwise untouched. With both queues empty, nothing.
    pub fn step(&mut self, prefer_control: bool) -> (r: Option<(MuxSource, OutboundMessage)>)
        requires
            old(self).wf(),
        ensures
            final(self).wf(),
            r is None ==> old(self)@.payload.len() == 0 && old(self)@.control.len() == 0
                && final(self)@ == old(self)@,
            (r matches Some((src, m)) ==> spec_choose_source(
                old(self)@.payload.len(),
                old(self)@.control.len(),
                prefer_control,
            ) == Some(src) && spec_step_result(old(self)@, final(self)@, src, m@)),
    {
        let from_control: bool = if prefer_control {
            self.control.len() > 0
        } else {
            self.payload.len() == 0 && self.control.len() > 0
        };
        let ghost old_view = self@;
        if from_control {
            let m = self.control.remove(0);
            let ghost mv = m@;
            proof {
                self.emitted@ = self.emitted@.push((MuxSource::Control, mv));
                lemma_proj_snoc(old_view.emitted, (MuxSource::Control, mv), MuxSource::Control);
                lemma_proj_snoc(old_view.emitted, (MuxSource::Control, mv), MuxSource::Payload);
                assert(self@.control =~= old_view.control.drop_first());
                assert(self@.payload =~= old_view.payload);
                assert(old_view.control =~= seq![old_view.control[0]]
                    + old_view.control.drop_first());
                assert(spec_proj(self@.emitted, MuxSource::Control) + self@.control
                    =~= old_view.enq_control);
                assert(spec_proj(self@.emitted, MuxSource::Payload) + self@.payload
                    =~= old_view.enq_payload);
            }
            Some((MuxSource::Control, m))
        } else if self.payload.len() > 0 {
            let m = self.payload.remove(0);
            let ghost mv = m@;
            proof {
                self.emitted@ = self.emitted@.push((MuxSource::Payload, mv));
                lemma_proj_snoc(old_view.emitted, (MuxSource::Payload, mv), MuxSource::Control);
                lemma_proj_snoc(old_view.emitted, (MuxSource::Payload, mv), MuxSource::Payload);
                assert(self@.payload =~= old_view.payload.drop_first());
                assert(self@.control =~= old_view.control);
                assert(old_view.payload =~= seq![old_view.payload[0]]
                    + old_view.payload.drop_first());
                assert(spec_proj(self@.emitted, MuxSource::Payload) + self@.payload
                    =~= old_view.enq_payload);
                assert(spec_proj(self@.emitted, MuxSource::Control) + self@.control
                    =~= old_view.enq_control);
            }
            Some((MuxSource::Payload, m))
        } else {
            None
        }
    }

    /// How many messages wait on the payload queue.
    pub fn payload_len(&self) -> (r: usize)
        ensures
            r == self@.payload.len(),
    {
        self.payload.len()
    }

    /// How many messages wait on the control queue.
    pub fn control_len(&self) -> (r: usize)
        ensures
            r == self@.control.len(),
    {
        self.control.len()
    }
}

/// Some emitted message of this source stands at `k` in the projection.
pub proof fn lemma_proj_membership(
    emitted: Seq<(MuxSource, OutboundMessageV)>,
    src: MuxSource,
    i: int,
)
    requires
        0 <= i < emitted.len(),
        emitted[i].0 == src,
    ensures
        exists|k: int|
            0 <= k < spec_proj(emitted, src).len() && spec_proj(emitted, src)[k] == emitted[i].1,
    decreases emitted.len(),
{
    if i == 0 {
        assert(spec_proj(emitted, src)[0] == emitted[0].1);
    } else {
        lemma_proj_membership(emitted.drop_first(), src, i - 1);
        let k = choose|k: int|
            0 <= k < spec_proj(emitted.drop_first(), src).len() && spec_proj(
                emitted.drop_first(),
                src,
            )[k] == emitted.drop_first()[i - 1].1;
        let off: int = if emitted[0].0 == src {
            1
        } else {
            0
        };
        assert(spec_proj(emitted, src)[k + off] == spec_proj(emitted.drop_first(), src)[k]);
    }
}

/// No cross-source interleaving corruption: every message handed out for
/// writing is, whole and unchanged, a message that was enqueued on its own
/// source, and the messages of each source leave as a prefix of that
/// source's enqueue order.
pub proof fn lemma_no_interleaving(m: &Multiplexer)
    requires
        m.wf(),
    ensures
        spec_proj(m@.emitted, MuxSource::Payload) == m@.enq_payload.take(
            m@.enq_payload.len() - m@.payload.len(),
        ),
        spec_proj(m@.emitted, MuxSource::Control) == m@.enq_control.take(
            m@.enq_control.len() - m@.control.len(),
        ),
        forall|i: int|
            0 <= i < m@.emitted.len() && (#[trigger] m@.emitted[i]).0 == MuxSource::Payload
                ==> exists|k: int|
                0 <= k < m@.enq_payload.len() && #[trigger] m@.enq_payload[k] == m@.emitted[i].1,
        forall|i: int|
            0 <= i < m@.emitted.len() && (#[trigger] m@.emitted[i]).0 == MuxSource::Control
                ==> exists|k: int|
                0 <= k < m@.enq_control.len() && #[trigger] m@.enq_control[k] == m@.emitted[i].1,
{
    let pp = spec_proj(m@.emitted, MuxSource::Payload);
    let pc = spec_proj(m@.emitted, MuxSource::Control);
    assert(pp =~= m@.enq_payload.take(m@.enq_payload.len() - m@.payload.len()));
    assert(pc =~= m@.enq_control.take(m@.enq_control.len() - m@.control.len()));
    assert forall|i: int|
        0 <= i < m@.emitted.len() && (#[trigger] m@.emitted[i]).0 == MuxSource::Payload
            implies exists|k: int|
        0 <= k < m@.enq_payload.len() && #[trigger] m@.enq_payload[k] == m@.emitted[i].1 by {
        lemma_proj_membership(m@.emitted, MuxSource::Payload, i);
        let k = choose|k: int| 0 <= k < pp.len() && pp[k] == m@.emitted[i].1;
        assert(m@.enq_payload[k] == pp[k]);
    }
    assert forall|i: int|
        0 <= i < m@.emitted.len() && (#[trigger] m@.emitted[i]).0 == MuxSource::Control
            implies exists|k: int|
        0 <= k < m@.enq_control.len() && #[trigger] m@.enq_control[k] == m@.emitted[i].1 by {
        lemma_proj_membership(m@.emitted, MuxSource::Control, i);
        let k = choose|k: int| 0 <= k < pc.len() && pc[k] == m@.emitted[i].1;
        assert(m@.enq_control[k] == pc[k]);
    }
}

} // verus!

//! Upstream stream adapter: the per-request logic between decoded upstream
//! events and the connection's payload channel.
//!
//! For every content delta the adapter forwards exactly one text frame, in
//! event arrival order. A message delta carrying a non-empty stop reason
//! produces one terminal notification frame and ends the request: nothing
//! is forwarded after it. A message stop ends the request gracefully with
//! no frame. It also builds the request document one prompt sends upstream,
//! and the single error frame surfaced when the upstream call fails.

use vstd::prelude::*;
use vstd::utf8::encode_utf8;
use crate::events::{
    ClaudeMessage, ClaudeMessageV, ClaudeStreamApiRequest, ClaudeStreamApiRequestV, StreamEvent,
    StreamEventV,
};
use crate::json::{
    ascii_bytes, ascii_view, jv_entries_view, jv_seq_view, spec_dec, spec_ser, to_json_bytes,
    JsonV, JsonValue,
};

verus! {

/// The terminal notification frame for a stop reason.
pub open spec fn spec_stop_notice(reason: Seq<char>) -> Seq<u8> {
    encode_utf8("\nStop reason: "@) + encode_utf8(reason)
}

/// Whether an event ends the request: a message stop, or a message delta
/// carrying a non-empty stop reason.
pub open spec fn spec_terminal(e: StreamEventV) -> bool {
    ||| e is MessageStop
    ||| (e matches StreamEventV::MessageDelta { delta, .. } && delta.stop_reason matches Some(r)
        && r.len() > 0)
}

/// What one event forwards to the payload channel: a content delta's text,
/// or the terminal notification, or nothing.
pub open spec fn spec_forward(e: StreamEventV) -> Option<Seq<u8>> {
    match e {
        StreamEventV::ContentBlockDelta { delta, .. } => Some(encode_utf8(delta.text)),
        StreamEventV::MessageDelta { delta, .. } => match delta.stop_reason {
            Some(r) => if r.len() > 0 {
                Some(spec_stop_notice(r))
            } else {
                None
            },
            None => None,
        },
        _ => None,
    }
}

/// Per-request adapter state: set once the request has ended.
pub struct UpstreamAdapter {
    pub done: bool,
}

/// The frames a whole event sequence forwards, with the final done flag:
/// each event's forward while the request lives, nothing once it ended.
pub open spec fn spec_adapter_run(done: bool, evs: Seq<StreamEventV>) -> (Seq<Seq<u8>>, bool)
    decreases evs.len(),
{
    if evs.len() == 0 {
        (Seq::empty(), done)
    } else {
        let first: Seq<Seq<u8>> = if done {
            Seq::empty()
        } else {
            match spec_forward(evs[0]) {
                Some(f) => seq![f],
                None => Seq::empty(),
            }
        };
        let done2 = done || spec_terminal(evs[0]);
        let rest = spec_adapter_run(done2, evs.drop_first());
        (first + rest.0, rest.1)
    }
}

/// The texts of the content deltas in a sequence, in arrival order.
pub open spec fn spec_delta_texts(evs: Seq<StreamEventV>) -> Seq<Seq<u8>>
    decreases evs.len(),
{
    if evs.len() == 0 {
        Seq::empty()
    } else {
        (match evs[0] {
            StreamEventV::ContentBlockDelta { delta, .. } => seq![encode_utf8(delta.text)],
            _ => Seq::empty(),
        }) + spec_delta_texts(evs.drop_first())
    }
}

/// Payload order is upstream arrival order: while no terminal event
/// arrives, the adapter forwards exactly one frame per content delta,
/// holding its text, in the order the deltas arrived, and nothing else.
pub proof fn lemma_forwards_in_arrival_order(evs: Seq<StreamEventV>)
    requires
        forall|i: int| 0 <= i < evs.len() ==> !spec_terminal(#[trigger] evs[i]),
    ensures
        spec_adapter_run(false, evs).0 == spec_delta_texts(evs),
        !spec_adapter_run(false, evs).1,
    decreases evs.len(),
{
    if evs.len() > 0 {
        assert(!spec_terminal(evs[0]));
        assert(forall|i: int|
            0 <= i < evs.drop_first().len() ==> #[trigger] evs.drop_first()[i] == evs[i + 1]);
        lemma_forwards_in_arrival_order(evs.drop_first());
        match spec_forward(evs[0]) {
            Some(f) => {
                assert(evs[0] is ContentBlockDelta);
                assert(spec_adapter_run(false, evs).0 =~= spec_delta_texts(evs));
            },
            None => {
                assert(!(evs[0] is ContentBlockDelta));
                assert(spec_adapter_run(false, evs).0 =~= spec_delta_texts(evs));
            },
        }
    }
}

/// An ended request forwards nothing, whatever else arrives.
pub proof fn lemma_done_emits_nothing(evs: Seq<StreamEventV>)
    ensures
        spec_adapter_run(true, evs).0 == Seq::<Seq<u8>>::empty(),
        spec_adapter_run(true, evs).1,
    decreases evs.len(),
{
    if evs.len() > 0 {
        lemma_done_emits_nothing(evs.drop_first());
        assert(spec_adapter_run(true, evs).0 =~= Seq::<Seq<u8>>::empty());
    }
}

impl UpstreamAdapter {
    pub fn new() -> (r: Self)
        ensures
            !r.done,
    {
        UpstreamAdapter { done: false }
    }

    /// Take one upstream event: what to forward, if anything. Forwarding
    /// stops for good at the terminal event.
    pub fn on_event(&mut self, ev: &StreamEvent) -> (r: Option<Vec<u8>>)
        ensures
            final(self).done == (old(self).done || spec_terminal(ev@)),
            old(self).done ==> r is None,
            !old(self).done ==> match r {
                Some(f) => spec_forward(ev@) == Some(f@),
                None => spec_forward(ev@) is None,
            },
    {
        if self.done {
            return None;
        }
        match ev {
            StreamEvent::ContentBlockDelta { delta, .. } => {
                let f = delta.text.as_str().as_bytes_vec();
                Some(f)
            },
            StreamEvent::MessageDelta { delta, .. } => match &delta.stop_reason {
                Some(reason) => {
                    if reason.as_str().is_empty() {
                        None
                    } else {
                        self.done = true;
                        let mut f = "\nStop reason: ".as_bytes_vec();
                        let mut rb = reason.as_str().as_bytes_vec();
                        f.append(&mut rb);
                        Some(f)
                    }
                },
                None => None,
            },
            StreamEvent::MessageStop => {
                self.done = true;
                None
            },
            _ => None,
        }
    }

    /// Take a whole sequence of upstream events, in order.
    pub fn run_events(&mut self, evs: &Vec<StreamEvent>) -> (r: Vec<Vec<u8>>)
        ensures
            ({
                let run = spec_adapter_run(
                    old(self).done,
                    evs@.map_values(|e: StreamEvent| e@),
                );
                r@.map_values(|f: Vec<u8>| f@) == run.0 && final(self).done == run.1
            }),
    {
        let ghost evsv = evs@.map_values(|e: StreamEvent| e@);
        let mut out: Vec<Vec<u8>> = Vec::new();
        let mut i: usize = 0;
        proof {
            assert(evsv.skip(0) =~= evsv);
            assert(out@.map_values(|f: Vec<u8>| f@) =~= Seq::<Seq<u8>>::empty());
            let run = spec_adapter_run(self.done, evsv);
            assert(Seq::<Seq<u8>>::empty() + run.0 =~= run.0);
        }
        while i < evs.len()
            invariant
                0 <= i <= evs@.len(),
                evsv == evs@.map_values(|e: StreamEvent| e@),
                evsv.len() == evs@.len(),
                ({
                    let whole = spec_adapter_run(old(self).done, evsv);
                    let rest = spec_adapter_run(self.done, evsv.skip(i as int));
                    whole.0 == out@.map_values(|f: Vec<u8>| f@) + rest.0 && whole.1 == rest.1
                }),
            decreases evs@.len() - i,
        {
            proof {
                assert(evsv.skip(i as int)[0] == evsv[i as int]);
                assert(evsv[i as int] == evs@[i as int]@);
                assert(evsv.skip(i as int).drop_first() =~= evsv.skip(i + 1));
            }
            let ghost gout = out@;
            let ghost pre_done = self.done;
            let f = self.on_event(&evs[i]);
            match f {
                Some(frame) => {
                    let ghost gf = frame@;
                    out.push(frame);
                    proof {
                        assert(out@.map_values(|f: Vec<u8>| f@) =~= gout.map_values(
                            |f: Vec<u8>| f@,
                        ).push(gf));
                        let rest2 = spec_adapter_run(self.done, evsv.skip(i + 1));
                        assert(gout.map_values(|f: Vec<u8>| f@) + (seq![gf] + rest2.0)
                            =~= out@.map_values(|f: Vec<u8>| f@) + rest2.0);
                    }
                },
                None => {
                    proof {
                        let rest2 = spec_adapter_run(self.done, evsv.skip(i + 1));
                        assert(spec_adapter_run(pre_done, evsv.skip(i as int)).0 =~= Seq::<
                            Seq<u8>,
                        >::empty() + rest2.0);
                    }
                },
            }
            i = i + 1;
        }
        proof {
            assert(evsv.skip(evsv.len() as int) =~= Seq::<StreamEventV>::empty());
            assert(out@.map_values(|f: Vec<u8>| f@) + Seq::<Seq<u8>>::empty() =~= out@.map_values(
                |f: Vec<u8>| f@,
            ));
        }
        out
    }
}

/// The JSON document of one chat message.
pub open spec fn spec_message_doc(m: ClaudeMessageV) -> JsonV {
    JsonV::Obj(
        seq![
            (ascii_view("role"), JsonV::Str(encode_utf8(m.role))),
            (ascii_view("content"), JsonV::Str(encode_utf8(m.content))),
        ],
    )
}

/// The JSON document of the upstream request.
pub open spec fn spec_request_doc(r: ClaudeStreamApiRequestV) -> JsonV {
    JsonV::Obj(
        seq![
            (ascii_view("model"), JsonV::Str(encode_utf8(r.model))),
            (ascii_view("max_tokens"), JsonV::Int(r.max_tokens as int)),
            (
                ascii_view("messages"),
                JsonV::Arr(r.messages.map_values(|m: ClaudeMessageV| spec_message_doc(m))),
            ),
            (ascii_view("stream"), JsonV::Bool(r.stream)),
        ],
    )
}

/// The serialized upstream request.
pub open spec fn spec_request_json(r: ClaudeStreamApiRequestV) -> Seq<u8> {
    spec_ser(spec_request_doc(r))
}

/// The request one prompt produces: the configured model, a 1024-token
/// budget, a single user message holding the prompt, and streaming on.
pub fn build_upstream_request(model: &str, prompt: String) -> (r: ClaudeStreamApiRequest)
    ensures
        r.model@ == model@,
        r.max_tokens == 1024,
        r.stream,
        r.messages@.len() == 1,
        r.messages@[0].role@ == "user"@,
        r.messages@[0].content@ == prompt@,
{
    let mut messages: Vec<ClaudeMessage> = Vec::new();
    messages.push(ClaudeMessage { role: String::from_str("user"), content: prompt });
    ClaudeStreamApiRequest {
        model: model.to_owned(),
        max_tokens: 1024,
        messages,
        stream: true,
    }
}

fn message_doc(m: &ClaudeMessage) -> (r: JsonValue)
    ensures
        r@ == spec_message_doc(m@),
{
    proof {
        reveal_strlit("role");
        reveal_strlit("content");
    }
    let mut entries: Vec<(Vec<u8>, JsonValue)> = Vec::new();
    entries.push((ascii_bytes("role"), JsonValue::Str(m.role.as_str().as_bytes_vec())));
    entries.push((ascii_bytes("content"), JsonValue::Str(m.content.as_str().as_bytes_vec())));
    let r = JsonValue::Obj(entries);
    proof {
        crate::json::lemma_entries_view_props(r->Obj_0@);
        assert(r@->Obj_0 =~= spec_message_doc(m@)->Obj_0);
    }
    r
}

/// Serialize the upstream request document.
pub fn request_json_bytes(req: &ClaudeStreamApiRequest) -> (r: Vec<u8>)
    ensures
        r@ == spec_request_json(req@),
{
    proof {
        reveal_strlit("model");
        reveal_strlit("max_tokens");
        reveal_strlit("messages");
        reveal_strlit("stream");
    }
    let mut msgs: Vec<JsonValue> = Vec::new();
    let ghost msgdocs = req@.messages.map_values(|m: ClaudeMessageV| spec_message_doc(m));
    let mut i: usize = 0;
    proof {
        assert(jv_seq_view(msgs@) =~= msgdocs.take(0));
    }
    while i < req.messages.len()
        invariant
            0 <= i <= req.messages@.len(),
            msgdocs == req@.messages.map_values(|m: ClaudeMessageV| spec_message_doc(m)),
            msgdocs.len() == req.messages@.len(),
            jv_seq_view(msgs@) == msgdocs.take(i as int),
        decreases req.messages@.len() - i,
    {
        let d = message_doc(&req.messages[i]);
        let ghost gmsgs = msgs@;
        let ghost gd = d@;
        msgs.push(d);
        proof {
            crate::json::lemma_seq_view_push(gmsgs, msgs@[gmsgs.len() as int]);
            assert(crate::json::jv_view(msgs@[gmsgs.len() as int]) == gd);
            assert(gd == msgdocs[i as int]);
            assert(jv_seq_view(msgs@) =~= msgdocs.take(i as int).push(msgdocs[i as int]));
            assert(msgdocs.take(i as int).push(msgdocs[i as int]) =~= msgdocs.take(i + 1));
        }
        i = i + 1;
    }
    proof {
        assert(msgdocs.take(msgdocs.len() as int) =~= msgdocs);
    }
    let mut entries: Vec<(Vec<u8>, JsonValue)> = Vec::new();
    entries.push((ascii_bytes("model"), JsonValue::Str(req.model.as_str().as_bytes_vec())));
    entries.push((ascii_bytes("max_tokens"), JsonValue::Int(req.max_tokens as i64)));
    entries.push((ascii_bytes("messages"), JsonValue::Arr(msgs)));
    entries.push((ascii_bytes("stream"), JsonValue::Bool(req.stream)));
    let doc = JsonValue::Obj(entries);
    proof {
        crate::json::lemma_entries_view_props(doc->Obj_0@);
        assert(doc@->Obj_0 =~= spec_request_doc(req@)->Obj_0);
    }
    to_json_bytes(&doc)
}

/// Whether an upstream HTTP status is success.
pub fn status_is_success(status: u16) -> (r: bool)
    ensures
        r == (200 <= status < 300),
{
    200 <= status && status < 300
}

/// The single error frame surfaced when the upstream answers with a
/// non-success status; the response body is carried as detail.
pub open spec fn spec_upstream_error_frame(status: u16, body: Seq<char>) -> Seq<u8> {
    encode_utf8("Upstream API error ("@) + spec_dec(status as int) + encode_utf8("): "@)
        + encode_utf8(body) + encode_utf8("\n"@)
}

pub fn upstream_error_frame(status: u16, body: &str) -> (r: Vec<u8>)
    ensures
        r@ == spec_upstream_error_frame(status, body@),
{
    let mut out = "Upstream API error (".as_bytes_vec();
    crate::json::write_dec(status as u64, &mut out);
    let mut mid = "): ".as_bytes_vec();
    out.append(&mut mid);
    let mut bb = body.as_bytes_vec();
    out.append(&mut bb);
    let mut nl = "\n".as_bytes_vec();
    out.append(&mut nl);
    proof {
        assert(out@ =~= spec_upstream_error_frame(status, body@));
    }
    out
}

/// The single error frame surfaced when the upstream cannot be reached.
pub open spec fn spec_connect_error_frame(detail: Seq<char>) -> Seq<u8> {
    encode_utf8("Error connecting to upstream API: "@) + encode_utf8(detail) + encode_utf8("\n"@)
}

pub fn connect_error_frame(detail: &str) -> (r: Vec<u8>)
    ensures
        r@ == spec_connect_error_frame(detail@),
{
    let mut out = "Error connecting to upstream API: ".as_bytes_vec();
    let mut db = detail.as_bytes_vec();
    out.append(&mut db);
    let mut nl = "\n".as_bytes_vec();
    out.append(&mut nl);
    proof {
        assert(out@ =~= spec_connect_error_frame(detail@));
    }
    out
}

} // verus!
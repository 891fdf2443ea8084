//! Bridge orchestrator: routing, the per-connection session machine, and
//! the frames the bridge answers with.
//!
//! Session policy: while a prompt is streaming, a second prompt on the same
//! connection is rejected with an explicit error frame rather than queued —
//! the simplest correct model, and it avoids unbounded per-connection
//! queuing. An upstream failure is surfaced as exactly one error frame and
//! returns the session to its idle state: the connection stays registered
//! and usable for a later prompt.

use vstd::prelude::*;
use vstd::utf8::{decode_utf8, encode_utf8, valid_utf8};
use crate::json::{
    ascii_bytes, ascii_view, spec_json, spec_obj_get, spec_ser, to_json_bytes, JsonV, JsonValue,
    parse_json, jv_entries_view,
};
use crate::registry::{ConnState, Connection, Registry, RegistryError, ClientInfo};
use crate::keepalive::KeepAlive;

verus! {

/// Where a request is routed.
#[derive(Clone, Copy, Debug, PartialEq, Eq, Structural)]
pub enum Route {
    EchoApi,
    LlmApi,
    Index,
    StaticFile,
    Health,
    NotFound,
}

/// The routing table over method and path bytes.
pub open spec fn spec_classify_route(method: Seq<u8>, path: Seq<u8>) -> Route {
    if method == ascii_view("POST") && path == ascii_view("/api/echo") {
        Route::EchoApi
    } else if method == ascii_view("POST") && path == ascii_view("/api/llm") {
        Route::LlmApi
    } else if method == ascii_view("GET") && path == ascii_view("/") {
        Route::Index
    } else if method == ascii_view("GET") && path.len() >= 8 && path.subrange(0, 8) == ascii_view(
        "/static/",
    ) {
        Route::StaticFile
    } else if method == ascii_view("GET") && path == ascii_view("/health") {
        Route::Health
    } else {
        Route::NotFound
    }
}

fn slice_is(s: &[u8], name: &str) -> (r: bool)
    requires
        vstd::string::is_ascii(name),
    ensures
        r == (s@ == ascii_view(name)),
{
    broadcast use vstd::string::is_ascii_spec_bytes;

    let nb = name.as_bytes();
    proof {
        assert(nb@ =~= ascii_view(name));
    }
    if s.len() != nb.len() {
        proof {
            assert(s@.len() != ascii_view(name).len());
        }
        return false;
    }
    let mut i: usize = 0;
    while i < s.len()
        invariant
            0 <= i <= s@.len(),
            s@.len() == nb@.len(),
            nb@ == ascii_view(name),
            forall|k: int| 0 <= k < i ==> s@[k] == nb@[k],
        decreases s@.len() - i,
    {
        if s[i] != nb[i] {
            return false;
        }
        i = i + 1;
    }
    proof {
        assert(s@ =~= nb@);
    }
    true
}

fn slice_starts_with(s: &[u8], name: &str) -> (r: bool)
    requires
        vstd::string::is_ascii(name),
    ensures
        r == (s@.len() >= ascii_view(name).len() && s@.subrange(
            0,
            ascii_view(name).len() as int,
        ) == ascii_view(name)),
{
    broadcast use vstd::string::is_ascii_spec_bytes;

    let nb = name.as_bytes();
    proof {
        assert(nb@ =~= ascii_view(name));
    }
    if s.len() < nb.len() {
        return false;
    }
    let mut i: usize = 0;
    while i < nb.len()
        invariant
            0 <= i <= nb@.len(),
            s@.len() >= nb@.len(),
            nb@ == ascii_view(name),
            forall|k: int| 0 <= k < i ==> s@[k] == nb@[k],
        decreases nb@.len() - i,
    {
        if s[i] != nb[i] {
            proof {
                assert(s@.subrange(0, nb@.len() as int)[i as int] != nb@[i as int]);
            }
            return false;
        }
        i = i + 1;
    }
    proof {
        assert(s@.subrange(0, nb@.len() as int) =~= nb@);
    }
    true
}

/// Route a request by its method and path.
pub fn classify_route(method: &str, path: &str) -> (r: Route)
    ensures
        r == spec_classify_route(
            vstd::string::StringSliceAdditionalSpecFns::spec_bytes(method),
            vstd::string::StringSliceAdditionalSpecFns::spec_bytes(path),
        ),
{
    proof {
        reveal_strlit("POST");
        reveal_strlit("GET");
        reveal_strlit("/api/echo");
        reveal_strlit("/api/llm");
        reveal_strlit("/");
        reveal_strlit("/static/");
        reveal_strlit("/health");
    }
    let m = method.as_bytes();
    let p = path.as_bytes();
    if slice_is(m, "POST") && slice_is(p, "/api/echo") {
        Route::EchoApi
    } else if slice_is(m, "POST") && slice_is(p, "/api/llm") {
        Route::LlmApi
    } else if slice_is(m, "GET") && slice_is(p, "/") {
        Route::Index
    } else if slice_is(m, "GET") && slice_starts_with(p, "/static/") {
        Route::StaticFile
    } else if slice_is(m, "GET") && slice_is(p, "/health") {
        Route::Health
    } else {
        Route::NotFound
    }
}

/// The bytes after the last dot of a file name; the whole name when it has
/// no dot.
pub open spec fn spec_ext(s: Seq<u8>) -> Seq<u8>
    decreases s.len(),
{
    if s.len() == 0 {
        Seq::empty()
    } else if s[s.len() - 1] == 0x2e {
        Seq::empty()
    } else {
        spec_ext(s.drop_last()).push(s[s.len() - 1])
    }
}

proof fn lemma_ext_no_dot(s: Seq<u8>, k: int)
    requires
        0 <= k <= s.len(),
        forall|i: int| k <= i < s.len() ==> s[i] != 0x2e,
        k == 0 || s[k - 1] == 0x2e,
    ensures
        spec_ext(s) =~= s.skip(k),
    decreases s.len(),
{
    if s.len() == k {
        if k > 0 {
            assert(s[s.len() - 1] == 0x2e);
        }
    } else {
        assert(s[s.len() - 1] != 0x2e);
        assert(forall|i: int| k <= i < s.drop_last().len() ==> s.drop_last()[i] != 0x2e);
        if k > 0 {
            assert(s.drop_last()[k - 1] == s[k - 1]);
        }
        lemma_ext_no_dot(s.drop_last(), k);
        assert(s.drop_last().skip(k).push(s[s.len() - 1]) =~= s.skip(k));
    }
}

/// The served content type by file extension.
pub open spec fn spec_content_type(ext: Seq<u8>) -> Seq<char> {
    if ext == ascii_view("html") {
        "text/html"@
    } else if ext == ascii_view("js") {
        "application/javascript"@
    } else if ext == ascii_view("css") {
        "text/css"@
    } else {
        "application/octet-stream"@
    }
}

/// Content type for a static file, by the extension after its last dot.
pub fn content_type_for(path: &str) -> (r: &'static str)
    ensures
        r@ == spec_content_type(
            spec_ext(vstd::string::StringSliceAdditionalSpecFns::spec_bytes(path)),
        ),
{
    proof {
        reveal_strlit("html");
        reveal_strlit("js");
        reveal_strlit("css");
    }
    let b = path.as_bytes();
    let mut k: usize = b.len();
    while k > 0
        invariant
            0 <= k <= b@.len(),
            forall|i: int| k <= i < b@.len() ==> b@[i] != 0x2e,
        ensures
            0 <= k <= b@.len(),
            forall|i: int| k <= i < b@.len() ==> b@[i] != 0x2e,
            k == 0 || b@[k - 1] == 0x2e,
        decreases k,
    {
        if b[k - 1] == 0x2e {
            break ;
        }
        k = k - 1;
    }
    let ext: &[u8] = if k > 0 {
        proof {
            lemma_ext_no_dot(b@, k as int);
        }
        slice_tail(b, k)
    } else {
        proof {
            lemma_ext_no_dot(b@, 0);
            assert(b@.skip(0) =~= b@);
        }
        b
    };
    if slice_is(ext, "html") {
        "text/html"
    } else if slice_is(ext, "js") {
        "application/javascript"
    } else if slice_is(ext, "css") {
        "text/css"
    } else {
        "application/octet-stream"
    }
}

fn slice_tail<'a>(b: &'a [u8], from: usize) -> (r: &'a [u8])
    requires
        from <= b@.len(),
    ensures
        r@ == b@.skip(from as int),
{
    let (_, t) = b.split_at(from);
    proof {
        assert(t@ =~= b@.skip(from as int));
    }
    t
}

/// A parsed client text frame.
pub enum ClientRequest {
    /// `{"type":"ECHO","message": m}`: echo `m` back.
    Echo(String),
    /// `{"prompt": p}`: begin a streaming cycle for `p`.
    Prompt(String),
    /// Anything else, malformed JSON included.
    Invalid,
}

pub ghost enum ClientRequestV {
    Echo(Seq<char>),
    Prompt(Seq<char>),
    Invalid,
}

impl View for ClientRequest {
    type V = ClientRequestV;

    open spec fn view(&self) -> ClientRequestV {
        match self {
            ClientRequest::Echo(m) => ClientRequestV::Echo(m@),
            ClientRequest::Prompt(p) => ClientRequestV::Prompt(p@),
            ClientRequest::Invalid => ClientRequestV::Invalid,
        }
    }
}

/// What a client text frame asks for: a tagged echo, a prompt submission,
/// or nothing recognizable.
pub open spec fn spec_client_request(b: Seq<u8>) -> ClientRequestV {
    match spec_json(b) {
        Some(JsonV::Obj(e)) => {
            if spec_obj_get(e, ascii_view("type")) matches Some(JsonV::Str(t)) && t == encode_utf8(
                "ECHO"@,
            ) {
                match spec_obj_get(e, ascii_view("message")) {
                    Some(JsonV::Str(mb)) => if valid_utf8(mb) {
                        ClientRequestV::Echo(decode_utf8(mb))
                    } else {
                        ClientRequestV::Invalid
                    },
                    _ => ClientRequestV::Invalid,
                }
            } else {
                match spec_obj_get(e, ascii_view("prompt")) {
                    Some(JsonV::Str(pb)) => if valid_utf8(pb) {
                        ClientRequestV::Prompt(decode_utf8(pb))
                    } else {
                        ClientRequestV::Invalid
                    },
                    _ => ClientRequestV::Invalid,
                }
            }
        },
        _ => ClientRequestV::Invalid,
    }
}

/// Parse one client text frame.
pub fn parse_client_frame(frame: &Vec<u8>) -> (r: ClientRequest)
    ensures
        r@ == spec_client_request(frame@),
{
    proof {
        reveal_strlit("type");
        reveal_strlit("message");
        reveal_strlit("prompt");
        reveal_strlit("ECHO");
    }
    broadcast use vstd::string::is_ascii_spec_bytes;

    proof {
        assert(encode_utf8("ECHO"@) =~= ascii_view("ECHO")) by {
            vstd::utf8::is_ascii_chars_encode_utf8("ECHO"@);
        }
    }
    let j = match parse_json(frame) {
        Some(j) => j,
        None => {
            return ClientRequest::Invalid;
        },
    };
    match &j {
        JsonValue::Obj(_) => {
            let is_echo = match crate::json::obj_get(&j, "type") {
                Some(JsonValue::Str(t)) => crate::events::tag_is(t, "ECHO"),
                _ => false,
            };
            if is_echo {
                match crate::json::obj_get(&j, "message") {
                    Some(mv) => match mv {
                        JsonValue::Str(_) => match crate::events::json_str_value(mv) {
                            Some(m) => ClientRequest::Echo(m),
                            None => ClientRequest::Invalid,
                        },
                        _ => ClientRequest::Invalid,
                    },
                    _ => ClientRequest::Invalid,
                }
            } else {
                match crate::json::obj_get(&j, "prompt") {
                    Some(pv) => match pv {
                        JsonValue::Str(_) => match crate::events::json_str_value(pv) {
                            Some(p) => ClientRequest::Prompt(p),
                            None => ClientRequest::Invalid,
                        },
                        _ => ClientRequest::Invalid,
                    },
                    _ => ClientRequest::Invalid,
                }
            }
        },
        _ => ClientRequest::Invalid,
    }
}

/// The echo reply document: the tag first, then the message, unchanged.
pub open spec fn spec_echo_doc(m: Seq<char>) -> JsonV {
    JsonV::Obj(
        seq![
            (ascii_view("type"), JsonV::Str(encode_utf8("ECHO"@))),
            (ascii_view("message"), JsonV::Str(encode_utf8(m))),
        ],
    )
}

/// The serialized echo reply.
pub open spec fn spec_echo_frame(m: Seq<char>) -> Seq<u8> {
    spec_ser(spec_echo_doc(m))
}

/// Build the echo reply for a message.
pub fn echo_frame(m: &str) -> (r: Vec<u8>)
    ensures
        r@ == spec_echo_frame(m@),
{
    proof {
        reveal_strlit("type");
        reveal_strlit("message");
    }
    let mut entries: Vec<(Vec<u8>, JsonValue)> = Vec::new();
    entries.push((ascii_bytes("type"), JsonValue::Str("ECHO".as_bytes_vec())));
    entries.push((ascii_bytes("message"), JsonValue::Str(m.as_bytes_vec())));
    let doc = JsonValue::Obj(entries);
    proof {
        crate::json::lemma_entries_view_props(doc->Obj_0@);
        assert(doc@->Obj_0 =~= spec_echo_doc(m@)->Obj_0);
    }
    to_json_bytes(&doc)
}

/// The error frame document for a protocol or upstream error.
pub open spec fn spec_error_doc(msg: Seq<char>) -> JsonV {
    JsonV::Obj(seq![(ascii_view("error"), JsonV::Str(encode_utf8(msg)))])
}

/// The serialized error frame `{"error": msg}`.
pub open spec fn spec_error_frame(msg: Seq<char>) -> Seq<u8> {
    spec_ser(spec_error_doc(msg))
}

/// Build an error frame; the connection outlives it.
pub fn error_frame(msg: &str) -> (r: Vec<u8>)
    ensures
        r@ == spec_error_frame(msg@),
{
    proof {
        reveal_strlit("error");
    }
    let mut entries: Vec<(Vec<u8>, JsonValue)> = Vec::new();
    entries.push((ascii_bytes("error"), JsonValue::Str(msg.as_bytes_vec())));
    let doc = JsonValue::Obj(entries);
    proof {
        crate::json::lemma_entries_view_props(doc->Obj_0@);
        assert(doc@->Obj_0 =~= spec_error_doc(msg@)->Obj_0);
    }
    to_json_bytes(&doc)
}

/// What the session does with one client frame.
pub enum ClientAction {
    /// Write one reply frame; the session stays open.
    Reply(Vec<u8>),
    /// Begin the streaming cycle for this prompt.
    StartStreaming(String),
    /// The session is closing; the frame is dropped.
    Drop,
}

pub ghost enum ClientActionV {
    Reply(Seq<u8>),
    StartStreaming(Seq<char>),
    Drop,
}

impl View for ClientAction {
    type V = ClientActionV;

    open spec fn view(&self) -> ClientActionV {
        match self {
            ClientAction::Reply(f) => ClientActionV::Reply(f@),
            ClientAction::StartStreaming(p) => ClientActionV::StartStreaming(p@),
            ClientAction::Drop => ClientActionV::Drop,
        }
    }
}

/// The session machine on one client frame. An echo is answered in any
/// open state; a prompt begins streaming from the idle state and is
/// rejected with an error frame while one is already streaming; malformed
/// input is answered with an error frame and never closes the session.
pub open spec fn spec_on_client_frame(st: ConnState, req: ClientRequestV) -> (
    ConnState,
    ClientActionV,
) {
    match st {
        ConnState::Active => match req {
            ClientRequestV::Echo(m) => (ConnState::Active, ClientActionV::Reply(spec_echo_frame(m))),
            ClientRequestV::Prompt(p) => (
                ConnState::AwaitingUpstream,
                ClientActionV::StartStreaming(p),
            ),
            ClientRequestV::Invalid => (
                ConnState::Active,
                ClientActionV::Reply(spec_error_frame("unrecognized request"@)),
            ),
        },
        ConnState::AwaitingUpstream => match req {
            ClientRequestV::Echo(m) => (
                ConnState::AwaitingUpstream,
                ClientActionV::Reply(spec_echo_frame(m)),
            ),
            ClientRequestV::Prompt(_) => (
                ConnState::AwaitingUpstream,
                ClientActionV::Reply(spec_error_frame("a prompt is already streaming"@)),
            ),
            ClientRequestV::Invalid => (
                ConnState::AwaitingUpstream,
                ClientActionV::Reply(spec_error_frame("unrecognized request"@)),
            ),
        },
        _ => (st, ClientActionV::Drop),
    }
}

/// Take one client text frame in the given session state.
pub fn on_client_frame(st: ConnState, frame: &Vec<u8>) -> (r: (ConnState, ClientAction))
    ensures
        r.0 == spec_on_client_frame(st, spec_client_request(frame@)).0,
        r.1@ == spec_on_client_frame(st, spec_client_request(frame@)).1,
{
    let req = parse_client_frame(frame);
    match st {
        ConnState::Active => match req {
            ClientRequest::Echo(m) => (ConnState::Active, ClientAction::Reply(echo_frame(m.as_str()))),
            ClientRequest::Prompt(p) => (ConnState::AwaitingUpstream, ClientAction::StartStreaming(p)),
            ClientRequest::Invalid => (
                ConnState::Active,
                ClientAction::Reply(error_frame("unrecognized request")),
            ),
        },
        ConnState::AwaitingUpstream => match req {
            ClientRequest::Echo(m) => (
                ConnState::AwaitingUpstream,
                ClientAction::Reply(echo_frame(m.as_str())),
            ),
            ClientRequest::Prompt(_) => (
                ConnState::AwaitingUpstream,
                ClientAction::Reply(error_frame("a prompt is already streaming")),
            ),
            ClientRequest::Invalid => (
                ConnState::AwaitingUpstream,
                ClientAction::Reply(error_frame("unrecognized request")),
            ),
        },
        _ => (st, ClientAction::Drop),
    }
}

/// The upstream answered a prompt's request with this status: success keeps
/// the stream going; failure surfaces exactly one error frame and returns
/// the session to idle — the connection stays registered.
pub fn on_upstream_status(st: ConnState, status: u16, body: &str) -> (r: (
    ConnState,
    Option<Vec<u8>>,
))
    requires
        st == ConnState::AwaitingUpstream,
    ensures
        200 <= status < 300 ==> r.0 == ConnState::AwaitingUpstream && r.1 is None,
        !(200 <= status < 300) ==> r.0 == ConnState::Active && (r.1 matches Some(f) && f@
            == crate::adapter::spec_upstream_error_frame(status, body@)),
{
    if crate::adapter::status_is_success(status) {
        (ConnState::AwaitingUpstream, None)
    } else {
        (ConnState::Active, Some(crate::adapter::upstream_error_frame(status, body)))
    }
}

/// The upstream could not be reached: one error frame, and the session
/// returns to idle.
pub fn on_upstream_connect_error(st: ConnState, detail: &str) -> (r: (ConnState, Vec<u8>))
    requires
        st == ConnState::AwaitingUpstream,
    ensures
        r.0 == ConnState::Active,
        r.1@ == crate::adapter::spec_connect_error_frame(detail@),
{
    (ConnState::Active, crate::adapter::connect_error_frame(detail))
}

/// The streaming cycle ended — terminal event, graceful upstream close, or
/// after a surfaced failure: the session is idle again.
pub fn on_upstream_end(st: ConnState) -> (r: ConnState)
    ensures
        st == ConnState::AwaitingUpstream ==> r == ConnState::Active,
        st != ConnState::AwaitingUpstream ==> r == st,
{
    match st {
        ConnState::AwaitingUpstream => ConnState::Active,
        other => other,
    }
}

/// Accept one connection: register it idle, its timer and accounting
/// started at `now_ms`. Refused — id collision or admission limit — the
/// directory is unchanged and the listener answers the attempt instead.
pub fn accept_connection(
    reg: &mut Registry,
    id: u128,
    path: &str,
    ip: &str,
    now_ms: u64,
) -> (r: Result<(), RegistryError>)
    requires
        old(reg).wf(),
    ensures
        final(reg).wf(),
        old(reg)@.contains_key(id) ==> r == Result::<(), RegistryError>::Err(
            RegistryError::AlreadyRegistered,
        ) && final(reg)@ == old(reg)@,
        !old(reg)@.contains_key(id) && old(reg)@.len() >= crate::registry::MAX_CONNECTIONS ==> r
            == Result::<(), RegistryError>::Err(RegistryError::AtCapacity)
            && final(reg)@ == old(reg)@,
        !old(reg)@.contains_key(id) && old(reg)@.len() < crate::registry::MAX_CONNECTIONS ==> r
            == Result::<(), RegistryError>::Ok(()) && final(reg)@.contains_key(id)
            && final(reg)@[id].state == ConnState::Active
            && final(reg)@[id].timer.last_active == now_ms
            && final(reg)@[id].info.id == id
            && final(reg)@.dom() == old(reg)@.dom().insert(id),
{
    let conn = Connection {
        state: ConnState::Active,
        timer: KeepAlive::new(now_ms),
        info: ClientInfo::new(id, path, ip, now_ms),
    };
    let r = reg.register(id, conn);
    proof {
        if !old(reg)@.contains_key(id) && old(reg)@.len() < crate::registry::MAX_CONNECTIONS {
            assert(final(reg)@.dom() =~= old(reg)@.dom().insert(id));
        }
    }
    r
}

} // verus!
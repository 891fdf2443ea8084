//! Typed stream events decoded from upstream SSE frames, and the request
//! document sent upstream.
//!
//! Decoding is lenient on absent fields (a missing string is empty, a missing
//! index is zero, a missing object is empty) and strict on present ones: a
//! field of the wrong type, an unknown tag, or a string that is not valid
//! UTF-8 makes the whole frame undecodable, which callers treat as a
//! recoverable diagnostic.

use vstd::prelude::*;
use vstd::utf8::{decode_utf8, valid_utf8};
use crate::json::{ascii_view, spec_obj_get, JsonV, JsonValue, obj_get};

verus! {

/// One chat message of the upstream request.
pub struct ClaudeMessage {
    pub role: String,
    pub content: String,
}

/// The request document sent upstream for one prompt.
pub struct ClaudeStreamApiRequest {
    pub model: String,
    pub max_tokens: u32,
    pub messages: Vec<ClaudeMessage>,
    pub stream: bool,
}

/// Token accounting attached to upstream events.
pub struct ClaudeUsage {
    pub input_tokens: Option<u32>,
    pub output_tokens: Option<u32>,
}

/// Opening payload of a message.
pub struct MessageStart {
    pub id: String,
    pub message_type: String,
    pub role: String,
    pub content: Vec<ContentBlock>,
    pub model: String,
    pub stop_reason: Option<String>,
    pub stop_sequence: Option<String>,
    pub usage: ClaudeUsage,
}

/// One block of message content.
pub struct ContentBlock {
    pub block_type: String,
    pub text: String,
}

/// An incremental text fragment.
pub struct Delta {
    pub delta_type: String,
    pub text: String,
}

/// Closing metadata of a message.
pub struct MessageDeltaContent {
    pub stop_reason: Option<String>,
    pub stop_sequence: Option<String>,
}

/// Tagged variant decoded from one upstream SSE frame.
pub enum StreamEvent {
    MessageStart { message: MessageStart },
    ContentBlockStart { index: usize, content_block: ContentBlock },
    ContentBlockDelta { index: usize, delta: Delta },
    ContentBlockStop { index: usize },
    MessageDelta { delta: MessageDeltaContent, usage: ClaudeUsage },
    MessageStop,
    Ping,
}

pub ghost struct ClaudeMessageV {
    pub role: Seq<char>,
    pub content: Seq<char>,
}

pub ghost struct ClaudeStreamApiRequestV {
    pub model: Seq<char>,
    pub max_tokens: u32,
    pub messages: Seq<ClaudeMessageV>,
    pub stream: bool,
}

pub ghost struct ClaudeUsageV {
    pub input_tokens: Option<u32>,
    pub output_tokens: Option<u32>,
}

pub ghost struct ContentBlockV {
    pub block_type: Seq<char>,
    pub text: Seq<char>,
}

pub ghost struct DeltaV {
    pub delta_type: Seq<char>,
    pub text: Seq<char>,
}

pub ghost struct MessageDeltaContentV {
    pub stop_reason: Option<Seq<char>>,
    pub stop_sequence: Option<Seq<char>>,
}

pub ghost struct MessageStartV {
    pub id: Seq<char>,
    pub message_type: Seq<char>,
    pub role: Seq<char>,
    pub content: Seq<ContentBlockV>,
    pub model: Seq<char>,
    pub stop_reason: Option<Seq<char>>,
    pub stop_sequence: Option<Seq<char>>,
    pub usage: ClaudeUsageV,
}

pub ghost enum StreamEventV {
    MessageStart { message: MessageStartV },
    ContentBlockStart { index: usize, content_block: ContentBlockV },
    ContentBlockDelta { index: usize, delta: DeltaV },
    ContentBlockStop { index: usize },
    MessageDelta { delta: MessageDeltaContentV, usage: ClaudeUsageV },
    MessageStop,
    Ping,
}

/// View of an optional string.
pub open spec fn opt_str_view(o: Option<String>) -> Option<Seq<char>> {
    match o {
        Some(s) => Some(s@),
        None => None,
    }
}

impl View for ClaudeMessage {
    type V = ClaudeMessageV;

    open spec fn view(&self) -> ClaudeMessageV {
        ClaudeMessageV { role: self.role@, content: self.content@ }
    }
}

impl View for ClaudeStreamApiRequest {
    type V = ClaudeStreamApiRequestV;

    open spec fn view(&self) -> ClaudeStreamApiRequestV {
        ClaudeStreamApiRequestV {
            model: self.model@,
            max_tokens: self.max_tokens,
            messages: self.messages@.map_values(|m: ClaudeMessage| m@),
            stream: self.stream,
        }
    }
}

impl View for ClaudeUsage {
    type V = ClaudeUsageV;

    open spec fn view(&self) -> ClaudeUsageV {
        ClaudeUsageV { input_tokens: self.input_tokens, output_tokens: self.output_tokens }
    }
}

impl View for ContentBlock {
    type V = ContentBlockV;

    open spec fn view(&self) -> ContentBlockV {
        ContentBlockV { block_type: self.block_type@, text: self.text@ }
    }
}

impl View for Delta {
    type V = DeltaV;

    open spec fn view(&self) -> DeltaV {
        DeltaV { delta_type: self.delta_type@, text: self.text@ }
    }
}

impl View for MessageDeltaContent {
    type V = MessageDeltaContentV;

    open spec fn view(&self) -> MessageDeltaContentV {
        MessageDeltaContentV {
            stop_reason: opt_str_view(self.stop_reason),
            stop_sequence: opt_str_view(self.stop_sequence),
        }
    }
}

impl View for MessageStart {
    type V = MessageStartV;

    open spec fn view(&self) -> MessageStartV {
        MessageStartV {
            id: self.id@,
            message_type: self.message_type@,
            role: self.role@,
            content: self.content@.map_values(|b: ContentBlock| b@),
            model: self.model@,
            stop_reason: opt_str_view(self.stop_reason),
            stop_sequence: opt_str_view(self.stop_sequence),
            usage: self.usage@,
        }
    }
}

impl View for StreamEvent {
    type V = StreamEventV;

    open spec fn view(&self) -> StreamEventV {
        match self {
            StreamEvent::MessageStart { message } => StreamEventV::MessageStart {
                message: message@,
            },
            StreamEvent::ContentBlockStart { index, content_block } => {
                StreamEventV::ContentBlockStart { index: *index, content_block: content_block@ }
            },
            StreamEvent::ContentBlockDelta { index, delta } => StreamEventV::ContentBlockDelta {
                index: *index,
                delta: delta@,
            },
            StreamEvent::ContentBlockStop { index } => StreamEventV::ContentBlockStop {
                index: *index,
            },
            StreamEvent::MessageDelta { delta, usage } => StreamEventV::MessageDelta {
                delta: delta@,
                usage: usage@,
            },
            StreamEvent::MessageStop => StreamEventV::MessageStop,
            StreamEvent::Ping => StreamEventV::Ping,
        }
    }
}

/// Relies on `String::from_utf8`: it succeeds exactly on valid UTF-8 input
/// and returns the string holding that input's decoding.
#[verifier::external_body]
fn string_from_utf8(v: Vec<u8>) -> (r: Option<String>)
    ensures
        r is Some <==> valid_utf8(v@),
        r is Some ==> r.unwrap()@ == decode_utf8(v@),
{
    String::from_utf8(v).ok()
}

fn copy_bytes(b: &Vec<u8>) -> (r: Vec<u8>)
    ensures
        r@ == b@,
{
    let mut out: Vec<u8> = Vec::new();
    let mut i: usize = 0;
    while i < b.len()
        invariant
            0 <= i <= b@.len(),
            out@ == b@.subrange(0, i as int),
        decreases b@.len() - i,
    {
        out.push(b[i]);
        proof {
            assert(b@.subrange(0, i as int).push(b@[i as int]) =~= b@.subrange(0, i + 1));
        }
        i = i + 1;
    }
    proof {
        assert(b@.subrange(0, b@.len() as int) =~= b@);
    }
    out
}

/// The characters of a JSON string value, or none when the value is not a
/// string of valid UTF-8.
pub open spec fn spec_json_str(j: JsonV) -> Option<Seq<char>> {
    match j {
        JsonV::Str(b) => if valid_utf8(b) {
            Some(decode_utf8(b))
        } else {
            None
        },
        _ => None,
    }
}

/// A string field: absent means empty, present must be a UTF-8 string.
pub open spec fn spec_str_field(entries: Seq<(Seq<u8>, JsonV)>, key: Seq<u8>) -> Option<
    Seq<char>,
> {
    match spec_obj_get(entries, key) {
        None => Some(Seq::empty()),
        Some(j) => spec_json_str(j),
    }
}

/// An optional string field: absent or null means none.
pub open spec fn spec_opt_str_field(entries: Seq<(Seq<u8>, JsonV)>, key: Seq<u8>) -> Option<
    Option<Seq<char>>,
> {
    match spec_obj_get(entries, key) {
        None => Some(None),
        Some(JsonV::Null) => Some(None),
        Some(j) => match spec_json_str(j) {
            Some(s) => Some(Some(s)),
            None => None,
        },
    }
}

/// An index field: absent means zero, present must be a machine-sized
/// non-negative integer.
pub open spec fn spec_index_field(entries: Seq<(Seq<u8>, JsonV)>, key: Seq<u8>) -> Option<usize> {
    match spec_obj_get(entries, key) {
        None => Some(0),
        Some(JsonV::Int(n)) => if 0 <= n <= usize::MAX {
            Some(n as usize)
        } else {
            None
        },
        Some(_) => None,
    }
}

/// An optional token count: absent or null means none.
pub open spec fn spec_u32_opt_field(entries: Seq<(Seq<u8>, JsonV)>, key: Seq<u8>) -> Option<
    Option<u32>,
> {
    match spec_obj_get(entries, key) {
        None => Some(None),
        Some(JsonV::Null) => Some(None),
        Some(JsonV::Int(n)) => if 0 <= n <= u32::MAX {
            Some(Some(n as u32))
        } else {
            None
        },
        Some(_) => None,
    }
}

/// A usage value: an object of optional token counts; an absent field is
/// empty usage.
pub open spec fn spec_usage_of_json(j: JsonV) -> Option<ClaudeUsageV> {
    match j {
        JsonV::Obj(e) => match (
            spec_u32_opt_field(e, ascii_view("input_tokens")),
            spec_u32_opt_field(e, ascii_view("output_tokens")),
        ) {
            (Some(a), Some(b)) => Some(ClaudeUsageV { input_tokens: a, output_tokens: b }),
            _ => None,
        },
        _ => None,
    }
}

pub open spec fn spec_usage_field(entries: Seq<(Seq<u8>, JsonV)>, key: Seq<u8>) -> Option<
    ClaudeUsageV,
> {
    match spec_obj_get(entries, key) {
        None => Some(ClaudeUsageV { input_tokens: None, output_tokens: None }),
        Some(j) => spec_usage_of_json(j),
    }
}

/// One content block: an object of a type and a text.
pub open spec fn spec_content_block_of_json(j: JsonV) -> Option<ContentBlockV> {
    match j {
        JsonV::Obj(e) => match (
            spec_str_field(e, ascii_view("type")),
            spec_str_field(e, ascii_view("text")),
        ) {
            (Some(t), Some(x)) => Some(ContentBlockV { block_type: t, text: x }),
            _ => None,
        },
        _ => None,
    }
}

pub open spec fn spec_content_blocks(items: Seq<JsonV>) -> Option<Seq<ContentBlockV>>
    decreases items,
{
    if items.len() == 0 {
        Some(Seq::empty())
    } else {
        match (spec_content_block_of_json(items[0]), spec_content_blocks(items.drop_first())) {
            (Some(b), Some(rest)) => Some(seq![b] + rest),
            _ => None,
        }
    }
}

pub open spec fn spec_content_field(entries: Seq<(Seq<u8>, JsonV)>, key: Seq<u8>) -> Option<
    Seq<ContentBlockV>,
> {
    match spec_obj_get(entries, key) {
        None => Some(Seq::empty()),
        Some(JsonV::Arr(items)) => spec_content_blocks(items),
        Some(_) => None,
    }
}

/// A delta value: an object of a type and a text; absent means empty.
pub open spec fn spec_delta_field(entries: Seq<(Seq<u8>, JsonV)>, key: Seq<u8>) -> Option<DeltaV> {
    match spec_obj_get(entries, key) {
        None => Some(DeltaV { delta_type: Seq::empty(), text: Seq::empty() }),
        Some(JsonV::Obj(e)) => match (
            spec_str_field(e, ascii_view("type")),
            spec_str_field(e, ascii_view("text")),
        ) {
            (Some(t), Some(x)) => Some(DeltaV { delta_type: t, text: x }),
            _ => None,
        },
        Some(_) => None,
    }
}

/// Closing metadata: an object of optional strings; absent means empty.
pub open spec fn spec_message_delta_field(entries: Seq<(Seq<u8>, JsonV)>, key: Seq<u8>) -> Option<
    MessageDeltaContentV,
> {
    match spec_obj_get(entries, key) {
        None => Some(MessageDeltaContentV { stop_reason: None, stop_sequence: None }),
        Some(JsonV::Obj(e)) => match (
            spec_opt_str_field(e, ascii_view("stop_reason")),
            spec_opt_str_field(e, ascii_view("stop_sequence")),
        ) {
            (Some(r), Some(q)) => Some(MessageDeltaContentV { stop_reason: r, stop_sequence: q }),
            _ => None,
        },
        Some(_) => None,
    }
}

/// The opening payload: an object of the message's header fields; absent
/// means all-empty.
pub open spec fn spec_message_start_field(entries: Seq<(Seq<u8>, JsonV)>, key: Seq<u8>) -> Option<
    MessageStartV,
> {
    match spec_obj_get(entries, key) {
        None => Some(
            MessageStartV {
                id: Seq::empty(),
                message_type: Seq::empty(),
                role: Seq::empty(),
                content: Seq::empty(),
                model: Seq::empty(),
                stop_reason: None,
                stop_sequence: None,
                usage: ClaudeUsageV { input_tokens: None, output_tokens: None },
            },
        ),
        Some(JsonV::Obj(e)) => match (
            spec_str_field(e, ascii_view("id")),
            spec_str_field(e, ascii_view("type")),
            spec_str_field(e, ascii_view("role")),
            spec_str_field(e, ascii_view("model")),
        ) {
            (Some(id), Some(mt), Some(role), Some(model)) => match (
                spec_content_field(e, ascii_view("content")),
                spec_opt_str_field(e, ascii_view("stop_reason")),
                spec_opt_str_field(e, ascii_view("stop_sequence")),
                spec_usage_field(e, ascii_view("usage")),
            ) {
                (Some(content), Some(sr), Some(sq), Some(usage)) => Some(
                    MessageStartV {
                        id: id,
                        message_type: mt,
                        role: role,
                        content: content,
                        model: model,
                        stop_reason: sr,
                        stop_sequence: sq,
                        usage: usage,
                    },
                ),
                _ => None,
            },
            _ => None,
        },
        Some(_) => None,
    }
}

/// The event denoted by one decoded JSON document, or none when the
/// document does not carry a known tagged event.
pub open spec fn spec_event_of_json(j: JsonV) -> Option<StreamEventV> {
    match j {
        JsonV::Obj(entries) => match spec_obj_get(entries, ascii_view("type")) {
            Some(JsonV::Str(tag)) => {
                if tag == ascii_view("message_start") {
                    match spec_message_start_field(entries, ascii_view("message")) {
                        Some(m) => Some(StreamEventV::MessageStart { message: m }),
                        None => None,
                    }
                } else if tag == ascii_view("content_block_start") {
                    match (
                        spec_index_field(entries, ascii_view("index")),
                        spec_obj_get(entries, ascii_view("content_block")),
                    ) {
                        (Some(i), Some(cb)) => match spec_content_block_of_json(cb) {
                            Some(b) => Some(
                                StreamEventV::ContentBlockStart { index: i, content_block: b },
                            ),
                            None => None,
                        },
                        (Some(i), None) => Some(
                            StreamEventV::ContentBlockStart {
                                index: i,
                                content_block: ContentBlockV {
                                    block_type: Seq::empty(),
                                    text: Seq::empty(),
                                },
                            },
                        ),
                        _ => None,
                    }
                } else if tag == ascii_view("content_block_delta") {
                    match (
                        spec_index_field(entries, ascii_view("index")),
                        spec_delta_field(entries, ascii_view("delta")),
                    ) {
                        (Some(i), Some(d)) => Some(
                            StreamEventV::ContentBlockDelta { index: i, delta: d },
                        ),
                        _ => None,
                    }
                } else if tag == ascii_view("content_block_stop") {
                    match spec_index_field(entries, ascii_view("index")) {
                        Some(i) => Some(StreamEventV::ContentBlockStop { index: i }),
                        None => None,
                    }
                } else if tag == ascii_view("message_delta") {
                    match (
                        spec_message_delta_field(entries, ascii_view("delta")),
                        spec_usage_field(entries, ascii_view("usage")),
                    ) {
                        (Some(d), Some(u)) => Some(
                            StreamEventV::MessageDelta { delta: d, usage: u },
                        ),
                        _ => None,
                    }
                } else if tag == ascii_view("message_stop") {
                    Some(StreamEventV::MessageStop)
                } else if tag == ascii_view("ping") {
                    Some(StreamEventV::Ping)
                } else {
                    None
                }
            },
            _ => None,
        },
        _ => None,
    }
}

/// Whether the bytes spell the given ASCII name.
pub(crate) fn tag_is(t: &Vec<u8>, name: &str) -> (r: bool)
    requires
        vstd::string::is_ascii(name),
    ensures
        r == (t@ == ascii_view(name)),
{
    broadcast use vstd::string::is_ascii_spec_bytes;

    let nb = name.as_bytes();
    proof {
        assert(nb@ =~= ascii_view(name));
    }
    crate::json::bytes_eq_slice(t, nb)
}

pub(crate) fn json_str_value(j: &JsonValue) -> (r: Option<String>)
    ensures
        match r {
            Some(s) => spec_json_str(j@) == Some(s@),
            None => spec_json_str(j@) is None,
        },
{
    match j {
        JsonValue::Str(b) => string_from_utf8(copy_bytes(b)),
        _ => None,
    }
}

fn str_field(v: &JsonValue, key: &str) -> (r: Option<String>)
    requires
        vstd::string::is_ascii(key),
        v@ is Obj,
    ensures
        match r {
            Some(s) => spec_str_field(v@->Obj_0, ascii_view(key)) == Some(s@),
            None => spec_str_field(v@->Obj_0, ascii_view(key)) is None,
        },
{
    match obj_get(v, key) {
        None => Some(String::new()),
        Some(j) => json_str_value(j),
    }
}

fn opt_str_field(v: &JsonValue, key: &str) -> (r: Option<Option<String>>)
    requires
        vstd::string::is_ascii(key),
        v@ is Obj,
    ensures
        match r {
            Some(o) => spec_opt_str_field(v@->Obj_0, ascii_view(key)) == Some(opt_str_view(o)),
            None => spec_opt_str_field(v@->Obj_0, ascii_view(key)) is None,
        },
{
    match obj_get(v, key) {
        None => Some(None),
        Some(JsonValue::Null) => Some(None),
        Some(j) => match json_str_value(j) {
            Some(s) => Some(Some(s)),
            None => None,
        },
    }
}

fn index_field(v: &JsonValue, key: &str) -> (r: Option<usize>)
    requires
        vstd::string::is_ascii(key),
        v@ is Obj,
    ensures
        r == spec_index_field(v@->Obj_0, ascii_view(key)),
{
    match obj_get(v, key) {
        None => Some(0),
        Some(JsonValue::Int(n)) => {
            if *n >= 0 && (*n as u128) <= (usize::MAX as u128) {
                Some(*n as usize)
            } else {
                None
            }
        },
        Some(_) => None,
    }
}

fn u32_opt_field(v: &JsonValue, key: &str) -> (r: Option<Option<u32>>)
    requires
        vstd::string::is_ascii(key),
        v@ is Obj,
    ensures
        r == spec_u32_opt_field(v@->Obj_0, ascii_view(key)),
{
    match obj_get(v, key) {
        None => Some(None),
        Some(JsonValue::Null) => Some(None),
        Some(JsonValue::Int(n)) => {
            if *n >= 0 && *n <= 0xffff_ffffi64 {
                Some(Some(*n as u32))
            } else {
                None
            }
        },
        Some(_) => None,
    }
}

fn usage_of_json(j: &JsonValue) -> (r: Option<ClaudeUsage>)
    ensures
        match r {
            Some(u) => spec_usage_of_json(j@) == Some(u@),
            None => spec_usage_of_json(j@) is None,
        },
{
    proof {
        reveal_strlit("input_tokens");
        reveal_strlit("output_tokens");
    }
    match j {
        JsonValue::Obj(_) => match (u32_opt_field(j, "input_tokens"), u32_opt_field(
            j,
            "output_tokens",
        )) {
            (Some(a), Some(b)) => Some(ClaudeUsage { input_tokens: a, output_tokens: b }),
            _ => None,
        },
        _ => None,
    }
}

fn usage_field(v: &JsonValue, key: &str) -> (r: Option<ClaudeUsage>)
    requires
        vstd::string::is_ascii(key),
        v@ is Obj,
    ensures
        match r {
            Some(u) => spec_usage_field(v@->Obj_0, ascii_view(key)) == Some(u@),
            None => spec_usage_field(v@->Obj_0, ascii_view(key)) is None,
        },
{
    match obj_get(v, key) {
        None => Some(ClaudeUsage { input_tokens: None, output_tokens: None }),
        Some(j) => usage_of_json(j),
    }
}

fn content_block_of_json(j: &JsonValue) -> (r: Option<ContentBlock>)
    ensures
        match r {
            Some(b) => spec_content_block_of_json(j@) == Some(b@),
            None => spec_content_block_of_json(j@) is None,
        },
{
    proof {
        reveal_strlit("type");
        reveal_strlit("text");
    }
    match j {
        JsonValue::Obj(_) => match (str_field(j, "type"), str_field(j, "text")) {
            (Some(t), Some(x)) => Some(ContentBlock { block_type: t, text: x }),
            _ => None,
        },
        _ => None,
    }
}

fn content_blocks(items: &Vec<JsonValue>) -> (r: Option<Vec<ContentBlock>>)
    ensures
        match r {
            Some(bs) => spec_content_blocks(crate::json::jv_seq_view(items@)) == Some(
                bs@.map_values(|b: ContentBlock| b@),
            ),
            None => spec_content_blocks(crate::json::jv_seq_view(items@)) is None,
        },
{
    let ghost sv = crate::json::jv_seq_view(items@);
    proof {
        crate::json::lemma_seq_view_props(items@);
        assert(sv.skip(0) =~= sv);
    }
    let mut acc: Vec<ContentBlock> = Vec::new();
    let mut i: usize = 0;
    proof {
        assert(acc@.map_values(|b: ContentBlock| b@) =~= Seq::<ContentBlockV>::empty());
        if spec_content_blocks(sv) is Some {
            let whole = spec_content_blocks(sv)->Some_0;
            assert(acc@.map_values(|b: ContentBlock| b@) + whole =~= whole);
        }
    }
    while i < items.len()
        invariant
            0 <= i <= items@.len(),
            sv == crate::json::jv_seq_view(items@),
            sv.len() == items@.len(),
            forall|k: int| 0 <= k < items@.len() ==> sv[k] == crate::json::jv_view(items@[k]),
            match spec_content_blocks(sv.skip(i as int)) {
                Some(rest) => spec_content_blocks(sv) == Some(
                    acc@.map_values(|b: ContentBlock| b@) + rest,
                ),
                None => spec_content_blocks(sv) is None,
            },
        decreases items@.len() - i,
    {
        proof {
            assert(sv.skip(i as int)[0] == sv[i as int]);
            assert(sv.skip(i as int).drop_first() =~= sv.skip(i + 1));
        }
        match content_block_of_json(&items[i]) {
            None => {
                return None;
            },
            Some(b) => {
                let ghost gacc = acc@;
                let ghost gb = b@;
                acc.push(b);
                proof {
                    assert(acc@.map_values(|b: ContentBlock| b@) =~= gacc.map_values(
                        |b: ContentBlock| b@,
                    ).push(gb));
                    if spec_content_blocks(sv.skip(i + 1)) is Some {
                        let rest2 = spec_content_blocks(sv.skip(i + 1))->Some_0;
                        assert(gacc.map_values(|b: ContentBlock| b@) + (seq![gb] + rest2)
                            =~= acc@.map_values(|b: ContentBlock| b@) + rest2);
                    }
                }
                i = i + 1;
            },
        }
    }
    proof {
        assert(sv.skip(i as int) =~= Seq::<JsonV>::empty());
        assert(spec_content_blocks(sv.skip(i as int)) == Some(Seq::<ContentBlockV>::empty()));
        let whole = spec_content_blocks(sv.skip(i as int))->Some_0;
        assert(acc@.map_values(|b: ContentBlock| b@) + Seq::<ContentBlockV>::empty()
            =~= acc@.map_values(|b: ContentBlock| b@));
    }
    Some(acc)
}

fn content_field(v: &JsonValue, key: &str) -> (r: Option<Vec<ContentBlock>>)
    requires
        vstd::string::is_ascii(key),
        v@ is Obj,
    ensures
        match r {
            Some(bs) => spec_content_field(v@->Obj_0, ascii_view(key)) == Some(
                bs@.map_values(|b: ContentBlock| b@),
            ),
            None => spec_content_field(v@->Obj_0, ascii_view(key)) is None,
        },
{
    match obj_get(v, key) {
        None => {
            let bs: Vec<ContentBlock> = Vec::new();
            proof {
                assert(bs@.map_values(|b: ContentBlock| b@) =~= Seq::<ContentBlockV>::empty());
            }
            Some(bs)
        },
        Some(JsonValue::Arr(items)) => content_blocks(items),
        Some(_) => None,
    }
}

fn delta_field(v: &JsonValue, key: &str) -> (r: Option<Delta>)
    requires
        vstd::string::is_ascii(key),
        v@ is Obj,
    ensures
        match r {
            Some(d) => spec_delta_field(v@->Obj_0, ascii_view(key)) == Some(d@),
            None => spec_delta_field(v@->Obj_0, ascii_view(key)) is None,
        },
{
    proof {
        reveal_strlit("type");
        reveal_strlit("text");
    }
    match obj_get(v, key) {
        None => Some(Delta { delta_type: String::new(), text: String::new() }),
        Some(j) => match j {
            JsonValue::Obj(_) => match (str_field(j, "type"), str_field(j, "text")) {
                (Some(t), Some(x)) => Some(Delta { delta_type: t, text: x }),
                _ => None,
            },
            _ => None,
        },
    }
}

fn message_delta_field(v: &JsonValue, key: &str) -> (r: Option<MessageDeltaContent>)
    requires
        vstd::string::is_ascii(key),
        v@ is Obj,
    ensures
        match r {
            Some(d) => spec_message_delta_field(v@->Obj_0, ascii_view(key)) == Some(d@),
            None => spec_message_delta_field(v@->Obj_0, ascii_view(key)) is None,
        },
{
    proof {
        reveal_strlit("stop_reason");
        reveal_strlit("stop_sequence");
    }
    match obj_get(v, key) {
        None => Some(MessageDeltaContent { stop_reason: None, stop_sequence: None }),
        Some(j) => match j {
            JsonValue::Obj(_) => match (
                opt_str_field(j, "stop_reason"),
                opt_str_field(j, "stop_sequence"),
            ) {
                (Some(r0), Some(q)) => Some(
                    MessageDeltaContent { stop_reason: r0, stop_sequence: q },
                ),
                _ => None,
            },
            _ => None,
        },
    }
}

fn message_start_field(v: &JsonValue, key: &str) -> (r: Option<MessageStart>)
    requires
        vstd::string::is_ascii(key),
        v@ is Obj,
    ensures
        match r {
            Some(m) => spec_message_start_field(v@->Obj_0, ascii_view(key)) == Some(m@),
            None => spec_message_start_field(v@->Obj_0, ascii_view(key)) is None,
        },
{
    proof {
        reveal_strlit("id");
        reveal_strlit("type");
        reveal_strlit("role");
        reveal_strlit("model");
        reveal_strlit("content");
        reveal_strlit("stop_reason");
        reveal_strlit("stop_sequence");
        reveal_strlit("usage");
    }
    match obj_get(v, key) {
        None => {
            let content: Vec<ContentBlock> = Vec::new();
            proof {
                assert(content@.map_values(|b: ContentBlock| b@) =~= Seq::<
                    ContentBlockV,
                >::empty());
            }
            Some(
                MessageStart {
                    id: String::new(),
                    message_type: String::new(),
                    role: String::new(),
                    content,
                    model: String::new(),
                    stop_reason: None,
                    stop_sequence: None,
                    usage: ClaudeUsage { input_tokens: None, output_tokens: None },
                },
            )
        },
        Some(j) => match j {
            JsonValue::Obj(_) => match (
                str_field(j, "id"),
                str_field(j, "type"),
                str_field(j, "role"),
                str_field(j, "model"),
            ) {
                (Some(id), Some(mt), Some(role), Some(model)) => match (
                    content_field(j, "content"),
                    opt_str_field(j, "stop_reason"),
                    opt_str_field(j, "stop_sequence"),
                    usage_field(j, "usage"),
                ) {
                    (Some(content), Some(sr), Some(sq), Some(usage)) => Some(
                        MessageStart {
                            id,
                            message_type: mt,
                            role,
                            content,
                            model,
                            stop_reason: sr,
                            stop_sequence: sq,
                            usage,
                        },
                    ),
                    _ => None,
                },
                _ => None,
            },
            _ => None,
        },
    }
}

/// Decode one JSON document into a stream event, or nothing when the
/// document does not carry a known tagged event.
pub fn event_of_json(v: &JsonValue) -> (r: Option<StreamEvent>)
    ensures
        match r {
            Some(e) => spec_event_of_json(v@) == Some(e@),
            None => spec_event_of_json(v@) is None,
        },
{
    proof {
        reveal_strlit("type");
        reveal_strlit("message");
        reveal_strlit("message_start");
        reveal_strlit("content_block_start");
        reveal_strlit("content_block_delta");
        reveal_strlit("content_block_stop");
        reveal_strlit("message_delta");
        reveal_strlit("message_stop");
        reveal_strlit("ping");
        reveal_strlit("index");
        reveal_strlit("content_block");
        reveal_strlit("delta");
        reveal_strlit("usage");
    }
    match v {
        JsonValue::Obj(_) => match obj_get(v, "type") {
            Some(JsonValue::Str(tag)) => {
                if tag_is(tag, "message_start") {
                    match message_start_field(v, "message") {
                        Some(m) => Some(StreamEvent::MessageStart { message: m }),
                        None => None,
                    }
                } else if tag_is(tag, "content_block_start") {
                    match index_field(v, "index") {
                        Some(i) => match obj_get(v, "content_block") {
                            Some(cb) => match content_block_of_json(cb) {
                                Some(b) => Some(
                                    StreamEvent::ContentBlockStart { index: i, content_block: b },
                                ),
                                None => None,
                            },
                            None => Some(
                                StreamEvent::ContentBlockStart {
                                    index: i,
                                    content_block: ContentBlock {
                                        block_type: String::new(),
                                        text: String::new(),
                                    },
                                },
                            ),
                        },
                        None => None,
                    }
                } else if tag_is(tag, "content_block_delta") {
                    match (index_field(v, "index"), delta_field(v, "delta")) {
                        (Some(i), Some(d)) => Some(
                            StreamEvent::ContentBlockDelta { index: i, delta: d },
                        ),
                        _ => None,
                    }
                } else if tag_is(tag, "content_block_stop") {
                    match index_field(v, "index") {
                        Some(i) => Some(StreamEvent::ContentBlockStop { index: i }),
                        None => None,
                    }
                } else if tag_is(tag, "message_delta") {
                    match (message_delta_field(v, "delta"), usage_field(v, "usage")) {
                        (Some(d), Some(u)) => Some(StreamEvent::MessageDelta { delta: d, usage: u }),
                        _ => None,
                    }
                } else if tag_is(tag, "message_stop") {
                    Some(StreamEvent::MessageStop)
                } else if tag_is(tag, "ping") {
                    Some(StreamEvent::Ping)
                } else {
                    None
                }
            },
            _ => None,
        },
        _ => None,
    }
}

} // verus!

//! Decoding one parsed JSON record into a typed session entry.
//!
//! The decoder is permissive at the batch level — a line that does not
//! match any known record shape is reported as undecodable, never as a
//! failure — but strict within one record: a missing required field, a
//! value of the wrong type, or an unknown discriminant makes the whole
//! record undecodable.

use vstd::prelude::*;
use crate::json::{clone_json, get_field, obj_get, str_eq, JsonValue, JTree};

verus! {

// ------------------------------------------------------------------
// The decoded record types.
// ------------------------------------------------------------------

/// Metadata shared by every non-summary record.
pub struct EventMetadata {
    pub uuid: String,
    pub parent_uuid: Option<String>,
    pub session_id: String,
    /// The record's timestamp, kept as its original text; decoding has
    /// checked that it parses as a timestamp.
    pub timestamp: String,
    pub cwd: String,
    pub git_branch: Option<String>,
    pub request_id: Option<String>,
}

pub struct ImageSource {
    pub source_type: String,
    pub media_type: String,
    pub data: String,
}

pub enum UserContentBlock {
    Text { text: String },
    Image { source: ImageSource },
    ToolResult { tool_use_id: String, content: String, is_error: Option<bool> },
}

/// A user record's content is either one plain string or a list of typed
/// blocks; the two shapes are told apart structurally, trying the plain
/// string first.
pub enum UserContent {
    Text(String),
    Blocks(Vec<UserContentBlock>),
}

pub struct UserMessage {
    pub role: String,
    pub content: UserContent,
}

pub struct UserEvent {
    pub metadata: EventMetadata,
    pub message: UserMessage,
}

pub enum AssistantContentBlock {
    Text { text: String },
    Thinking { thinking: String, signature: String },
    ToolUse { id: String, name: String, input: JsonValue },
}

pub struct TokenUsage {
    pub input_tokens: u32,
    pub output_tokens: u32,
    pub cache_creation_input_tokens: Option<u32>,
    pub cache_read_input_tokens: Option<u32>,
    pub service_tier: Option<String>,
}

pub struct AssistantMessage {
    pub id: String,
    pub msg_type: String,
    pub role: String,
    pub model: String,
    pub content: Vec<AssistantContentBlock>,
    pub usage: Option<TokenUsage>,
    pub stop_reason: Option<String>,
    pub stop_sequence: Option<String>,
}

pub struct AssistantEvent {
    pub metadata: EventMetadata,
    pub message: AssistantMessage,
}

/// One decoded log record.
pub enum SessionEntry {
    Summary { summary: String, leaf_uuid: Option<String>, timestamp: Option<String> },
    User { event: UserEvent },
    Assistant { event: AssistantEvent },
    System { content: String, level: Option<String>, metadata: EventMetadata },
}

// ------------------------------------------------------------------
// Mathematical views of the record types.
// ------------------------------------------------------------------

pub open spec fn ostr_view(o: Option<String>) -> Option<Seq<char>> {
    match o {
        Some(s) => Some(s@),
        None => None,
    }
}

pub struct EventMetadataV {
    pub uuid: Seq<char>,
    pub parent_uuid: Option<Seq<char>>,
    pub session_id: Seq<char>,
    pub timestamp: Seq<char>,
    pub cwd: Seq<char>,
    pub git_branch: Option<Seq<char>>,
    pub request_id: Option<Seq<char>>,
}

impl View for EventMetadata {
    type V = EventMetadataV;

    open spec fn view(&self) -> EventMetadataV {
        EventMetadataV {
            uuid: self.uuid@,
            parent_uuid: ostr_view(self.parent_uuid),
            session_id: self.session_id@,
            timestamp: self.timestamp@,
            cwd: self.cwd@,
            git_branch: ostr_view(self.git_branch),
            request_id: ostr_view(self.request_id),
        }
    }
}

pub struct ImageSourceV {
    pub source_type: Seq<char>,
    pub media_type: Seq<char>,
    pub data: Seq<char>,
}

impl View for ImageSource {
    type V = ImageSourceV;

    open spec fn view(&self) -> ImageSourceV {
        ImageSourceV {
            source_type: self.source_type@,
            media_type: self.media_type@,
            data: self.data@,
        }
    }
}

pub enum UserContentBlockV {
    Text { text: Seq<char> },
    Image { source: ImageSourceV },
    ToolResult { tool_use_id: Seq<char>, content: Seq<char>, is_error: Option<bool> },
}

impl View for UserContentBlock {
    type V = UserContentBlockV;

    open spec fn view(&self) -> UserContentBlockV {
        match *self {
            UserContentBlock::Text { text } => UserContentBlockV::Text { text: text@ },
            UserContentBlock::Image { source } => UserContentBlockV::Image { source: source@ },
            UserContentBlock::ToolResult { tool_use_id, content, is_error } =>
                UserContentBlockV::ToolResult {
                    tool_use_id: tool_use_id@,
                    content: content@,
                    is_error,
                },
        }
    }
}

pub enum UserContentV {
    Text(Seq<char>),
    Blocks(Seq<UserContentBlockV>),
}

impl View for UserContent {
    type V = UserContentV;

    open spec fn view(&self) -> UserContentV {
        match *self {
            UserContent::Text(t) => UserContentV::Text(t@),
            UserContent::Blocks(bs) => UserContentV::Blocks(
                bs@.map_values(|b: UserContentBlock| b@),
            ),
        }
    }
}

pub struct UserMessageV {
    pub role: Seq<char>,
    pub content: UserContentV,
}

impl View for UserMessage {
    type V = UserMessageV;

    open spec fn view(&self) -> UserMessageV {
        UserMessageV { role: self.role@, content: self.content@ }
    }
}

pub struct UserEventV {
    pub metadata: EventMetadataV,
    pub message: UserMessageV,
}

impl View for UserEvent {
    type V = UserEventV;

    open spec fn view(&self) -> UserEventV {
        UserEventV { metadata: self.metadata@, message: self.message@ }
    }
}

pub enum AssistantContentBlockV {
    Text { text: Seq<char> },
    Thinking { thinking: Seq<char>, signature: Seq<char> },
    ToolUse { id: Seq<char>, name: Seq<char>, input: JTree },
}

impl View for AssistantContentBlock {
    type V = AssistantContentBlockV;

    open spec fn view(&self) -> AssistantContentBlockV {
        match *self {
            AssistantContentBlock::Text { text } => AssistantContentBlockV::Text { text: text@ },
            AssistantContentBlock::Thinking { thinking, signature } =>
                AssistantContentBlockV::Thinking { thinking: thinking@, signature: signature@ },
            AssistantContentBlock::ToolUse { id, name, input } => AssistantContentBlockV::ToolUse {
                id: id@,
                name: name@,
                input: input@,
            },
        }
    }
}

pub struct TokenUsageV {
    pub input_tokens: u32,
    pub output_tokens: u32,
    pub cache_creation_input_tokens: Option<u32>,
    pub cache_read_input_tokens: Option<u32>,
    pub service_tier: Option<Seq<char>>,
}

impl View for TokenUsage {
    type V = TokenUsageV;

    open spec fn view(&self) -> TokenUsageV {
        TokenUsageV {
            input_tokens: self.input_tokens,
            output_tokens: self.output_tokens,
            cache_creation_input_tokens: self.cache_creation_input_tokens,
            cache_read_input_tokens: self.cache_read_input_tokens,
            service_tier: ostr_view(self.service_tier),
        }
    }
}

pub open spec fn usage_view(o: Option<TokenUsage>) -> Option<TokenUsageV> {
    match o {
        Some(u) => Some(u@),
        None => None,
    }
}

pub struct AssistantMessageV {
    pub id: Seq<char>,
    pub msg_type: Seq<char>,
    pub role: Seq<char>,
    pub model: Seq<char>,
    pub content: Seq<AssistantContentBlockV>,
    pub usage: Option<TokenUsageV>,
    pub stop_reason: Option<Seq<char>>,
    pub stop_sequence: Option<Seq<char>>,
}

impl View for AssistantMessage {
    type V = AssistantMessageV;

    open spec fn view(&self) -> AssistantMessageV {
        AssistantMessageV {
            id: self.id@,
            msg_type: self.msg_type@,
            role: self.role@,
            model: self.model@,
            content: self.content@.map_values(|b: AssistantContentBlock| b@),
            usage: usage_view(self.usage),
            stop_reason: ostr_view(self.stop_reason),
            stop_sequence: ostr_view(self.stop_sequence),
        }
    }
}

pub struct AssistantEventV {
    pub metadata: EventMetadataV,
    pub message: AssistantMessageV,
}

impl View for AssistantEvent {
    type V = AssistantEventV;

    open spec fn view(&self) -> AssistantEventV {
        AssistantEventV { metadata: self.metadata@, message: self.message@ }
    }
}

pub enum SessionEntryV {
    Summary { summary: Seq<char>, leaf_uuid: Option<Seq<char>>, timestamp: Option<Seq<char>> },
    User { event: UserEventV },
    Assistant { event: AssistantEventV },
    System { content: Seq<char>, level: Option<Seq<char>>, metadata: EventMetadataV },
}

impl View for SessionEntry {
    type V = SessionEntryV;

    open spec fn view(&self) -> SessionEntryV {
        match *self {
            SessionEntry::Summary { summary, leaf_uuid, timestamp } => SessionEntryV::Summary {
                summary: summary@,
                leaf_uuid: ostr_view(leaf_uuid),
                timestamp: ostr_view(timestamp),
            },
            SessionEntry::User { event } => SessionEntryV::User { event: event@ },
            SessionEntry::Assistant { event } => SessionEntryV::Assistant { event: event@ },
            SessionEntry::System { content, level, metadata } => SessionEntryV::System {
                content: content@,
                level: ostr_view(level),
                metadata: metadata@,
            },
        }
    }
}

// ------------------------------------------------------------------
// The decoding relation, as spec functions over the JSON tree.
// ------------------------------------------------------------------

/// Whether a text parses as an instant in time; what jiff's timestamp
/// parser accepts, which depends on the text alone.
pub uninterp spec fn is_valid_timestamp(s: Seq<char>) -> bool;

/// Relies on jiff::Timestamp's FromStr implementation: whether a text
/// parses as a timestamp is a pure function of the text.
#[verifier::external_body]
pub(crate) fn timestamp_valid(s: &str) -> (r: bool)
    ensures
        r == is_valid_timestamp(s@),
{
    s.parse::<jiff::Timestamp>().is_ok()
}

/// A required string field: present and a string, or the record fails.
pub open spec fn req_str(fs: Seq<(String, JsonValue)>, key: Seq<char>) -> Result<Seq<char>, ()> {
    match obj_get(fs, key) {
        Some(JsonValue::Str(s)) => Ok(s@),
        _ => Err(()),
    }
}

/// An optional string field: absent or null is no value; any non-string
/// value fails the record.
pub open spec fn opt_str(fs: Seq<(String, JsonValue)>, key: Seq<char>) -> Result<
    Option<Seq<char>>,
    (),
> {
    match obj_get(fs, key) {
        None => Ok(None),
        Some(JsonValue::Null) => Ok(None),
        Some(JsonValue::Str(s)) => Ok(Some(s@)),
        Some(_) => Err(()),
    }
}

pub open spec fn opt_bool(fs: Seq<(String, JsonValue)>, key: Seq<char>) -> Result<
    Option<bool>,
    (),
> {
    match obj_get(fs, key) {
        None => Ok(None),
        Some(JsonValue::Null) => Ok(None),
        Some(JsonValue::Bool(b)) => Ok(Some(b)),
        Some(_) => Err(()),
    }
}

pub open spec fn req_u32(fs: Seq<(String, JsonValue)>, key: Seq<char>) -> Result<u32, ()> {
    match obj_get(fs, key) {
        Some(JsonValue::UInt(u)) => if u <= u32::MAX as u64 {
            Ok(u as u32)
        } else {
            Err(())
        },
        _ => Err(()),
    }
}

pub open spec fn opt_u32(fs: Seq<(String, JsonValue)>, key: Seq<char>) -> Result<
    Option<u32>,
    (),
> {
    match obj_get(fs, key) {
        None => Ok(None),
        Some(JsonValue::Null) => Ok(None),
        Some(JsonValue::UInt(u)) => if u <= u32::MAX as u64 {
            Ok(Some(u as u32))
        } else {
            Err(())
        },
        Some(_) => Err(()),
    }
}

/// The shared metadata of a non-summary record. The timestamp is required
/// and must parse as a timestamp.
pub open spec fn spec_meta(fs: Seq<(String, JsonValue)>) -> Result<EventMetadataV, ()> {
    match (req_str(fs, "uuid"@), req_str(fs, "sessionId"@), req_str(fs, "timestamp"@), req_str(
        fs,
        "cwd"@,
    )) {
        (Ok(uuid), Ok(session_id), Ok(ts), Ok(cwd)) => {
            if !is_valid_timestamp(ts) {
                Err(())
            } else {
                match (opt_str(fs, "parentUuid"@), opt_str(fs, "gitBranch"@), opt_str(
                    fs,
                    "requestId"@,
                )) {
                    (Ok(parent), Ok(branch), Ok(req_id)) => Ok(EventMetadataV {
                        uuid,
                        parent_uuid: parent,
                        session_id,
                        timestamp: ts,
                        cwd,
                        git_branch: branch,
                        request_id: req_id,
                    }),
                    _ => Err(()),
                }
            }
        },
        _ => Err(()),
    }
}

pub open spec fn spec_user_block(j: JsonValue) -> Result<UserContentBlockV, ()> {
    match j {
        JsonValue::Obj(fields) => {
            let fs = fields@;
            match req_str(fs, "type"@) {
                Ok(t) => {
                    if t == "text"@ {
                        match req_str(fs, "text"@) {
                            Ok(text) => Ok(UserContentBlockV::Text { text }),
                            _ => Err(()),
                        }
                    } else if t == "image"@ {
                        match obj_get(fs, "source"@) {
                            Some(JsonValue::Obj(sf)) => {
                                match (req_str(sf@, "type"@), req_str(sf@, "media_type"@), req_str(
                                    sf@,
                                    "data"@,
                                )) {
                                    (Ok(st), Ok(mt), Ok(d)) => Ok(UserContentBlockV::Image {
                                        source: ImageSourceV {
                                            source_type: st,
                                            media_type: mt,
                                            data: d,
                                        },
                                    }),
                                    _ => Err(()),
                                }
                            },
                            _ => Err(()),
                        }
                    } else if t == "tool_result"@ {
                        match (req_str(fs, "tool_use_id"@), req_str(fs, "content"@), opt_bool(
                            fs,
                            "is_error"@,
                        )) {
                            (Ok(id), Ok(content), Ok(is_error)) => Ok(
                                UserContentBlockV::ToolResult {
                                    tool_use_id: id,
                                    content,
                                    is_error,
                                },
                            ),
                            _ => Err(()),
                        }
                    } else {
                        Err(())
                    }
                },
                _ => Err(()),
            }
        },
        _ => Err(()),
    }
}

pub open spec fn spec_user_blocks(items: Seq<JsonValue>) -> Result<Seq<UserContentBlockV>, ()>
    decreases items.len(),
{
    if items.len() == 0 {
        Ok(Seq::empty())
    } else {
        match (spec_user_block(items[0]), spec_user_blocks(items.drop_first())) {
            (Ok(b), Ok(rest)) => Ok(seq![b] + rest),
            _ => Err(()),
        }
    }
}

/// A user record's content: one plain string, or a list of typed blocks.
/// The plain-string shape is tried first; this ordering is part of the
/// contract, though for already-parsed JSON the two shapes are disjoint.
pub open spec fn spec_user_content(j: JsonValue) -> Result<UserContentV, ()> {
    match j {
        JsonValue::Str(s) => Ok(UserContentV::Text(s@)),
        JsonValue::Arr(items) => match spec_user_blocks(items@) {
            Ok(bs) => Ok(UserContentV::Blocks(bs)),
            _ => Err(()),
        },
        _ => Err(()),
    }
}

pub open spec fn spec_assistant_block(j: JsonValue) -> Result<AssistantContentBlockV, ()> {
    match j {
        JsonValue::Obj(fields) => {
            let fs = fields@;
            match req_str(fs, "type"@) {
                Ok(t) => {
                    if t == "text"@ {
                        match req_str(fs, "text"@) {
                            Ok(text) => Ok(AssistantContentBlockV::Text { text }),
                            _ => Err(()),
                        }
                    } else if t == "thinking"@ {
                        match (req_str(fs, "thinking"@), req_str(fs, "signature"@)) {
                            (Ok(th), Ok(sig)) => Ok(AssistantContentBlockV::Thinking {
                                thinking: th,
                                signature: sig,
                            }),
                            _ => Err(()),
                        }
                    } else if t == "tool_use"@ {
                        match (req_str(fs, "id"@), req_str(fs, "name"@), obj_get(fs, "input"@)) {
                            (Ok(id), Ok(name), Some(input)) => Ok(AssistantContentBlockV::ToolUse {
                                id,
                                name,
                                input: input@,
                            }),
                            _ => Err(()),
                        }
                    } else {
                        Err(())
                    }
                },
                _ => Err(()),
            }
        },
        _ => Err(()),
    }
}

pub open spec fn spec_assistant_blocks(items: Seq<JsonValue>) -> Result<
    Seq<AssistantContentBlockV>,
    (),
>
    decreases items.len(),
{
    if items.len() == 0 {
        Ok(Seq::empty())
    } else {
        match (spec_assistant_block(items[0]), spec_assistant_blocks(items.drop_first())) {
            (Ok(b), Ok(rest)) => Ok(seq![b] + rest),
            _ => Err(()),
        }
    }
}

pub open spec fn spec_usage(j: JsonValue) -> Result<TokenUsageV, ()> {
    match j {
        JsonValue::Obj(fields) => {
            let fs = fields@;
            match (req_u32(fs, "input_tokens"@), req_u32(fs, "output_tokens"@)) {
                (Ok(input), Ok(output)) => {
                    match (opt_u32(fs, "cache_creation_input_tokens"@), opt_u32(
                        fs,
                        "cache_read_input_tokens"@,
                    ), opt_str(fs, "service_tier"@)) {
                        (Ok(cc), Ok(cr), Ok(tier)) => Ok(TokenUsageV {
                            input_tokens: input,
                            output_tokens: output,
                            cache_creation_input_tokens: cc,
                            cache_read_input_tokens: cr,
                            service_tier: tier,
                        }),
                        _ => Err(()),
                    }
                },
                _ => Err(()),
            }
        },
        _ => Err(()),
    }
}

pub open spec fn spec_opt_usage(fs: Seq<(String, JsonValue)>) -> Result<Option<TokenUsageV>, ()> {
    match obj_get(fs, "usage"@) {
        None => Ok(None),
        Some(JsonValue::Null) => Ok(None),
        Some(j) => match spec_usage(j) {
            Ok(u) => Ok(Some(u)),
            _ => Err(()),
        },
    }
}

pub open spec fn spec_user_event(fs: Seq<(String, JsonValue)>) -> Result<UserEventV, ()> {
    match (spec_meta(fs), obj_get(fs, "message"@)) {
        (Ok(meta), Some(JsonValue::Obj(mf))) => {
            match (req_str(mf@, "role"@), obj_get(mf@, "content"@)) {
                (Ok(role), Some(cj)) => match spec_user_content(cj) {
                    Ok(content) => Ok(UserEventV {
                        metadata: meta,
                        message: UserMessageV { role, content },
                    }),
                    _ => Err(()),
                },
                _ => Err(()),
            }
        },
        _ => Err(()),
    }
}

pub open spec fn spec_assistant_event(fs: Seq<(String, JsonValue)>) -> Result<AssistantEventV, ()> {
    match (spec_meta(fs), obj_get(fs, "message"@)) {
        (Ok(meta), Some(JsonValue::Obj(mf))) => {
            match (req_str(mf@, "id"@), req_str(mf@, "type"@), req_str(mf@, "role"@), req_str(
                mf@,
                "model"@,
            )) {
                (Ok(id), Ok(msg_type), Ok(role), Ok(model)) => {
                    match obj_get(mf@, "content"@) {
                        Some(JsonValue::Arr(items)) => {
                            match (spec_assistant_blocks(items@), spec_opt_usage(mf@), opt_str(
                                mf@,
                                "stop_reason"@,
                            ), opt_str(mf@, "stop_sequence"@)) {
                                (Ok(blocks), Ok(usage), Ok(sr), Ok(ss)) => Ok(AssistantEventV {
                                    metadata: meta,
                                    message: AssistantMessageV {
                                        id,
                                        msg_type,
                                        role,
                                        model,
                                        content: blocks,
                                        usage,
                                        stop_reason: sr,
                                        stop_sequence: ss,
                                    },
                                }),
                                _ => Err(()),
                            }
                        },
                        _ => Err(()),
                    }
                },
                _ => Err(()),
            }
        },
        _ => Err(()),
    }
}

/// A summary record's optional timestamp: absent or null is no value; a
/// string must parse as a timestamp; anything else fails the record.
pub open spec fn spec_summary_ts(fs: Seq<(String, JsonValue)>) -> Result<Option<Seq<char>>, ()> {
    match obj_get(fs, "timestamp"@) {
        None => Ok(None),
        Some(JsonValue::Null) => Ok(None),
        Some(JsonValue::Str(s)) => if is_valid_timestamp(s@) {
            Ok(Some(s@))
        } else {
            Err(())
        },
        Some(_) => Err(()),
    }
}

/// What decoding one parsed JSON record yields: the decoded entry, or
/// nothing when the record does not match any known shape.
pub open spec fn spec_decode(j: JsonValue) -> Option<SessionEntryV> {
    match j {
        JsonValue::Obj(fields) => {
            let fs = fields@;
            match req_str(fs, "type"@) {
                Ok(t) => {
                    if t == "summary"@ {
                        match (req_str(fs, "summary"@), opt_str(fs, "leafUuid"@), spec_summary_ts(
                            fs,
                        )) {
                            (Ok(summary), Ok(leaf), Ok(ts)) => Some(SessionEntryV::Summary {
                                summary,
                                leaf_uuid: leaf,
                                timestamp: ts,
                            }),
                            _ => None,
                        }
                    } else if t == "user"@ {
                        match spec_user_event(fs) {
                            Ok(event) => Some(SessionEntryV::User { event }),
                            _ => None,
                        }
                    } else if t == "assistant"@ {
                        match spec_assistant_event(fs) {
                            Ok(event) => Some(SessionEntryV::Assistant { event }),
                            _ => None,
                        }
                    } else if t == "system"@ {
                        match (req_str(fs, "content"@), opt_str(fs, "level"@), spec_meta(fs)) {
                            (Ok(content), Ok(level), Ok(meta)) => Some(SessionEntryV::System {
                                content,
                                level,
                                metadata: meta,
                            }),
                            _ => None,
                        }
                    } else {
                        None
                    }
                },
                _ => None,
            }
        },
        _ => None,
    }
}

// ------------------------------------------------------------------
// The executable decoder, proved to implement the relation above.
// ------------------------------------------------------------------

fn get_req_str(fields: &Vec<(String, JsonValue)>, key: &str) -> (r: Option<String>)
    ensures
        match r {
            Some(s) => req_str(fields@, key@) == Ok::<Seq<char>, ()>(s@),
            None => req_str(fields@, key@) is Err,
        },
{
    match get_field(fields, key) {
        Some(JsonValue::Str(s)) => Some(s.clone()),
        _ => None,
    }
}

fn get_opt_str(fields: &Vec<(String, JsonValue)>, key: &str) -> (r: Option<Option<String>>)
    ensures
        match r {
            Some(o) => opt_str(fields@, key@) == Ok::<Option<Seq<char>>, ()>(ostr_view(o)),
            None => opt_str(fields@, key@) is Err,
        },
{
    match get_field(fields, key) {
        None => Some(None),
        Some(JsonValue::Null) => Some(None),
        Some(JsonValue::Str(s)) => Some(Some(s.clone())),
        Some(_) => None,
    }
}

fn get_opt_bool(fields: &Vec<(String, JsonValue)>, key: &str) -> (r: Option<Option<bool>>)
    ensures
        match r {
            Some(o) => opt_bool(fields@, key@) == Ok::<Option<bool>, ()>(o),
            None => opt_bool(fields@, key@) is Err,
        },
{
    match get_field(fields, key) {
        None => Some(None),
        Some(JsonValue::Null) => Some(None),
        Some(JsonValue::Bool(b)) => Some(Some(*b)),
        Some(_) => None,
    }
}

fn get_req_u32(fields: &Vec<(String, JsonValue)>, key: &str) -> (r: Option<u32>)
    ensures
        match r {
            Some(u) => req_u32(fields@, key@) == Ok::<u32, ()>(u),
            None => req_u32(fields@, key@) is Err,
        },
{
    match get_field(fields, key) {
        Some(JsonValue::UInt(u)) => {
            if *u <= u32::MAX as u64 {
                Some(*u as u32)
            } else {
                None
            }
        },
        _ => None,
    }
}

fn get_opt_u32(fields: &Vec<(String, JsonValue)>, key: &str) -> (r: Option<Option<u32>>)
    ensures
        match r {
            Some(o) => opt_u32(fields@, key@) == Ok::<Option<u32>, ()>(o),
            None => opt_u32(fields@, key@) is Err,
        },
{
    match get_field(fields, key) {
        None => Some(None),
        Some(JsonValue::Null) => Some(None),
        Some(JsonValue::UInt(u)) => {
            if *u <= u32::MAX as u64 {
                Some(Some(*u as u32))
            } else {
                None
            }
        },
        Some(_) => None,
    }
}

fn decode_meta(fields: &Vec<(String, JsonValue)>) -> (r: Option<EventMetadata>)
    ensures
        match r {
            Some(m) => spec_meta(fields@) == Ok::<EventMetadataV, ()>(m@),
            None => spec_meta(fields@) is Err,
        },
{
    let uuid = match get_req_str(fields, "uuid") {
        Some(s) => s,
        None => {
            return None;
        },
    };
    let session_id = match get_req_str(fields, "sessionId") {
        Some(s) => s,
        None => {
            return None;
        },
    };
    let timestamp = match get_req_str(fields, "timestamp") {
        Some(s) => s,
        None => {
            return None;
        },
    };
    let cwd = match get_req_str(fields, "cwd") {
        Some(s) => s,
        None => {
            return None;
        },
    };
    if !timestamp_valid(timestamp.as_str()) {
        return None;
    }
    let parent_uuid = match get_opt_str(fields, "parentUuid") {
        Some(o) => o,
        None => {
            return None;
        },
    };
    let git_branch = match get_opt_str(fields, "gitBranch") {
        Some(o) => o,
        None => {
            return None;
        },
    };
    let request_id = match get_opt_str(fields, "requestId") {
        Some(o) => o,
        None => {
            return None;
        },
    };
    Some(EventMetadata { uuid, parent_uuid, session_id, timestamp, cwd, git_branch, request_id })
}

fn decode_user_block(j: &JsonValue) -> (r: Option<UserContentBlock>)
    ensures
        match r {
            Some(b) => spec_user_block(*j) == Ok::<UserContentBlockV, ()>(b@),
            None => spec_user_block(*j) is Err,
        },
{
    let fields = match j {
        JsonValue::Obj(fields) => fields,
        _ => {
            return None;
        },
    };
    let t = match get_req_str(fields, "type") {
        Some(s) => s,
        None => {
            return None;
        },
    };
    if str_eq(t.as_str(), "text") {
        match get_req_str(fields, "text") {
            Some(text) => Some(UserContentBlock::Text { text }),
            None => None,
        }
    } else if str_eq(t.as_str(), "image") {
        let sf = match get_field(fields, "source") {
            Some(JsonValue::Obj(sf)) => sf,
            _ => {
                return None;
            },
        };
        let source_type = match get_req_str(sf, "type") {
            Some(s) => s,
            None => {
                return None;
            },
        };
        let media_type = match get_req_str(sf, "media_type") {
            Some(s) => s,
            None => {
                return None;
            },
        };
        let data = match get_req_str(sf, "data") {
            Some(s) => s,
            None => {
                return None;
            },
        };
        Some(UserContentBlock::Image { source: ImageSource { source_type, media_type, data } })
    } else if str_eq(t.as_str(), "tool_result") {
        let tool_use_id = match get_req_str(fields, "tool_use_id") {
            Some(s) => s,
            None => {
                return None;
            },
        };
        let content = match get_req_str(fields, "content") {
            Some(s) => s,
            None => {
                return None;
            },
        };
        let is_error = match get_opt_bool(fields, "is_error") {
            Some(o) => o,
            None => {
                return None;
            },
        };
        Some(UserContentBlock::ToolResult { tool_use_id, content, is_error })
    } else {
        None
    }
}

pub open spec fn user_block_views(bs: Seq<UserContentBlock>) -> Seq<UserContentBlockV> {
    bs.map_values(|b: UserContentBlock| b@)
}

fn decode_user_blocks(items: &Vec<JsonValue>) -> (r: Option<Vec<UserContentBlock>>)
    ensures
        match r {
            Some(bs) => spec_user_blocks(items@) == Ok::<Seq<UserContentBlockV>, ()>(
                user_block_views(bs@),
            ),
            None => spec_user_blocks(items@) is Err,
        },
{
    let mut out: Vec<UserContentBlock> = Vec::new();
    let mut i: usize = 0;
    proof {
        assert(items@.skip(0) =~= items@);
    }
    while i < items.len()
        invariant
            i <= items@.len(),
            match spec_user_blocks(items@.skip(i as int)) {
                Ok(rest) => spec_user_blocks(items@) == Ok::<Seq<UserContentBlockV>, ()>(
                    user_block_views(out@) + rest,
                ),
                Err(_) => spec_user_blocks(items@) is Err,
            },
        decreases items@.len() - i,
    {
        proof {
            assert(items@.skip(i as int)[0] == items@[i as int]);
            assert(items@.skip(i as int).drop_first() =~= items@.skip(i + 1 as int));
        }
        let ghost prev = out@;
        let b = match decode_user_block(&items[i]) {
            Some(b) => b,
            None => {
                return None;
            },
        };
        out.push(b);
        proof {
            assert(out@ =~= prev.push(b));
            assert(user_block_views(out@) =~= user_block_views(prev).push(b@));
            match spec_user_blocks(items@.skip(i + 1 as int)) {
                Ok(r2) => {
                    assert(spec_user_blocks(items@.skip(i as int)) == Ok::<
                        Seq<UserContentBlockV>,
                        (),
                    >(seq![b@] + r2));
                    assert(user_block_views(prev) + (seq![b@] + r2) =~= user_block_views(out@)
                        + r2);
                },
                Err(_) => {
                    assert(spec_user_blocks(items@.skip(i as int)) is Err);
                },
            }
        }
        i = i + 1;
    }
    proof {
        assert(items@.skip(items@.len() as int) =~= Seq::<JsonValue>::empty());
        assert(user_block_views(out@) + Seq::<UserContentBlockV>::empty() =~= user_block_views(
            out@,
        ));
    }
    Some(out)
}

fn decode_user_content(j: &JsonValue) -> (r: Option<UserContent>)
    ensures
        match r {
            Some(c) => spec_user_content(*j) == Ok::<UserContentV, ()>(c@),
            None => spec_user_content(*j) is Err,
        },
{
    match j {
        JsonValue::Str(s) => Some(UserContent::Text(s.clone())),
        JsonValue::Arr(items) => match decode_user_blocks(items) {
            Some(bs) => Some(UserContent::Blocks(bs)),
            None => None,
        },
        _ => None,
    }
}

fn decode_assistant_block(j: &JsonValue) -> (r: Option<AssistantContentBlock>)
    ensures
        match r {
            Some(b) => spec_assistant_block(*j) == Ok::<AssistantContentBlockV, ()>(b@),
            None => spec_assistant_block(*j) is Err,
        },
{
    let fields = match j {
        JsonValue::Obj(fields) => fields,
        _ => {
            return None;
        },
    };
    let t = match get_req_str(fields, "type") {
        Some(s) => s,
        None => {
            return None;
        },
    };
    if str_eq(t.as_str(), "text") {
        match get_req_str(fields, "text") {
            Some(text) => Some(AssistantContentBlock::Text { text }),
            None => None,
        }
    } else if str_eq(t.as_str(), "thinking") {
        let thinking = match get_req_str(fields, "thinking") {
            Some(s) => s,
            None => {
                return None;
            },
        };
        let signature = match get_req_str(fields, "signature") {
            Some(s) => s,
            None => {
                return None;
            },
        };
        Some(AssistantContentBlock::Thinking { thinking, signature })
    } else if str_eq(t.as_str(), "tool_use") {
        let id = match get_req_str(fields, "id") {
            Some(s) => s,
            None => {
                return None;
            },
        };
        let name = match get_req_str(fields, "name") {
            Some(s) => s,
            None => {
                return None;
            },
        };
        let input = match get_field(fields, "input") {
            Some(v) => clone_json(v),
            None => {
                return None;
            },
        };
        Some(AssistantContentBlock::ToolUse { id, name, input })
    } else {
        None
    }
}

pub open spec fn assistant_block_views(bs: Seq<AssistantContentBlock>) -> Seq<
    AssistantContentBlockV,
> {
    bs.map_values(|b: AssistantContentBlock| b@)
}

fn decode_assistant_blocks(items: &Vec<JsonValue>) -> (r: Option<Vec<AssistantContentBlock>>)
    ensures
        match r {
            Some(bs) => spec_assistant_blocks(items@) == Ok::<Seq<AssistantContentBlockV>, ()>(
                assistant_block_views(bs@),
            ),
            None => spec_assistant_blocks(items@) is Err,
        },
{
    let mut out: Vec<AssistantContentBlock> = Vec::new();
    let mut i: usize = 0;
    proof {
        assert(items@.skip(0) =~= items@);
    }
    while i < items.len()
        invariant
            i <= items@.len(),
            match spec_assistant_blocks(items@.skip(i as int)) {
                Ok(rest) => spec_assistant_blocks(items@) == Ok::<Seq<AssistantContentBlockV>, ()>(
                    assistant_block_views(out@) + rest,
                ),
                Err(_) => spec_assistant_blocks(items@) is Err,
            },
        decreases items@.len() - i,
    {
        proof {
            assert(items@.skip(i as int)[0] == items@[i as int]);
            assert(items@.skip(i as int).drop_first() =~= items@.skip(i + 1 as int));
        }
        let ghost prev = out@;
        let b = match decode_assistant_block(&items[i]) {
            Some(b) => b,
            None => {
                return None;
            },
        };
        out.push(b);
        proof {
            assert(out@ =~= prev.push(b));
            assert(assistant_block_views(out@) =~= assistant_block_views(prev).push(b@));
            match spec_assistant_blocks(items@.skip(i + 1 as int)) {
                Ok(r2) => {
                    assert(spec_assistant_blocks(items@.skip(i as int)) == Ok::<
                        Seq<AssistantContentBlockV>,
                        (),
                    >(seq![b@] + r2));
                    assert(assistant_block_views(prev) + (seq![b@] + r2) =~= assistant_block_views(
                        out@,
                    ) + r2);
                },
                Err(_) => {
                    assert(spec_assistant_blocks(items@.skip(i as int)) is Err);
                },
            }
        }
        i = i + 1;
    }
    proof {
        assert(items@.skip(items@.len() as int) =~= Seq::<JsonValue>::empty());
        assert(assistant_block_views(out@) + Seq::<AssistantContentBlockV>::empty()
            =~= assistant_block_views(out@));
    }
    Some(out)
}

fn decode_usage(j: &JsonValue) -> (r: Option<TokenUsage>)
    ensures
        match r {
            Some(u) => spec_usage(*j) == Ok::<TokenUsageV, ()>(u@),
            None => spec_usage(*j) is Err,
        },
{
    let fields = match j {
        JsonValue::Obj(fields) => fields,
        _ => {
            return None;
        },
    };
    let input_tokens = match get_req_u32(fields, "input_tokens") {
        Some(u) => u,
        None => {
            return None;
        },
    };
    let output_tokens = match get_req_u32(fields, "output_tokens") {
        Some(u) => u,
        None => {
            return None;
        },
    };
    let cache_creation_input_tokens = match get_opt_u32(fields, "cache_creation_input_tokens") {
        Some(o) => o,
        None => {
            return None;
        },
    };
    let cache_read_input_tokens = match get_opt_u32(fields, "cache_read_input_tokens") {
        Some(o) => o,
        None => {
            return None;
        },
    };
    let service_tier = match get_opt_str(fields, "service_tier") {
        Some(o) => o,
        None => {
            return None;
        },
    };
    Some(
        TokenUsage {
            input_tokens,
            output_tokens,
            cache_creation_input_tokens,
            cache_read_input_tokens,
            service_tier,
        },
    )
}

fn decode_opt_usage(fields: &Vec<(String, JsonValue)>) -> (r: Option<Option<TokenUsage>>)
    ensures
        match r {
            Some(o) => spec_opt_usage(fields@) == Ok::<Option<TokenUsageV>, ()>(usage_view(o)),
            None => spec_opt_usage(fields@) is Err,
        },
{
    match get_field(fields, "usage") {
        None => Some(None),
        Some(JsonValue::Null) => Some(None),
        Some(j) => match decode_usage(j) {
            Some(u) => Some(Some(u)),
            None => None,
        },
    }
}

fn decode_user_event(fields: &Vec<(String, JsonValue)>) -> (r: Option<UserEvent>)
    ensures
        match r {
            Some(e) => spec_user_event(fields@) == Ok::<UserEventV, ()>(e@),
            None => spec_user_event(fields@) is Err,
        },
{
    let metadata = match decode_meta(fields) {
        Some(m) => m,
        None => {
            return None;
        },
    };
    let mf = match get_field(fields, "message") {
        Some(JsonValue::Obj(mf)) => mf,
        _ => {
            return None;
        },
    };
    let role = match get_req_str(mf, "role") {
        Some(s) => s,
        None => {
            return None;
        },
    };
    let cj = match get_field(mf, "content") {
        Some(v) => v,
        None => {
            return None;
        },
    };
    let content = match decode_user_content(cj) {
        Some(c) => c,
        None => {
            return None;
        },
    };
    Some(UserEvent { metadata, message: UserMessage { role, content } })
}

fn decode_assistant_event(fields: &Vec<(String, JsonValue)>) -> (r: Option<AssistantEvent>)
    ensures
        match r {
            Some(e) => spec_assistant_event(fields@) == Ok::<AssistantEventV, ()>(e@),
            None => spec_assistant_event(fields@) is Err,
        },
{
    let metadata = match decode_meta(fields) {
        Some(m) => m,
        None => {
            return None;
        },
    };
    let mf = match get_field(fields, "message") {
        Some(JsonValue::Obj(mf)) => mf,
        _ => {
            return None;
        },
    };
    let id = match get_req_str(mf, "id") {
        Some(s) => s,
        None => {
            return None;
        },
    };
    let msg_type = match get_req_str(mf, "type") {
        Some(s) => s,
        None => {
            return None;
        },
    };
    let role = match get_req_str(mf, "role") {
        Some(s) => s,
        None => {
            return None;
        },
    };
    let model = match get_req_str(mf, "model") {
        Some(s) => s,
        None => {
            return None;
        },
    };
    let items = match get_field(mf, "content") {
        Some(JsonValue::Arr(items)) => items,
        _ => {
            return None;
        },
    };
    let content = match decode_assistant_blocks(items) {
        Some(bs) => bs,
        None => {
            return None;
        },
    };
    let usage = match decode_opt_usage(mf) {
        Some(o) => o,
        None => {
            return None;
        },
    };
    let stop_reason = match get_opt_str(mf, "stop_reason") {
        Some(o) => o,
        None => {
            return None;
        },
    };
    let stop_sequence = match get_opt_str(mf, "stop_sequence") {
        Some(o) => o,
        None => {
            return None;
        },
    };
    Some(
        AssistantEvent {
            metadata,
            message: AssistantMessage {
                id,
                msg_type,
                role,
                model,
                content,
                usage,
                stop_reason,
                stop_sequence,
            },
        },
    )
}

/// What decoding one line of text yields: the decoded entry of a line
/// that parses as JSON and matches a known record shape; nothing for any
/// other line.
pub open spec fn spec_decode_line(s: Seq<char>) -> Option<SessionEntryV> {
    match crate::json::json_of(s) {
        None => None,
        Some(j) => spec_decode(j),
    }
}

/// Decode one raw log line: parse it as JSON and decode the record, or
/// report the line as undecodable.
pub fn decode_line(line: &str) -> (r: Option<SessionEntry>)
    ensures
        match r {
            Some(e) => spec_decode_line(line@) == Some(e@),
            None => spec_decode_line(line@) is None,
        },
{
    match crate::json::parse_json_line(line) {
        Some(j) => decode_entry(&j),
        None => None,
    }
}

/// Decode one parsed JSON record into a typed session entry, or report it
/// as not matching any known record shape.
pub fn decode_entry(j: &JsonValue) -> (r: Option<SessionEntry>)
    ensures
        match r {
            Some(e) => spec_decode(*j) == Some(e@),
            None => spec_decode(*j) is None,
        },
{
    let fields = match j {
        JsonValue::Obj(fields) => fields,
        _ => {
            return None;
        },
    };
    let t = match get_req_str(fields, "type") {
        Some(s) => s,
        None => {
            return None;
        },
    };
    if str_eq(t.as_str(), "summary") {
        let summary = match get_req_str(fields, "summary") {
            Some(s) => s,
            None => {
                return None;
            },
        };
        let leaf_uuid = match get_opt_str(fields, "leafUuid") {
            Some(o) => o,
            None => {
                return None;
            },
        };
        let timestamp = match get_field(fields, "timestamp") {
            None => None,
            Some(JsonValue::Null) => None,
            Some(JsonValue::Str(s)) => {
                if timestamp_valid(s.as_str()) {
                    Some(s.clone())
                } else {
                    return None;
                }
            },
            Some(_) => {
                return None;
            },
        };
        Some(SessionEntry::Summary { summary, leaf_uuid, timestamp })
    } else if str_eq(t.as_str(), "user") {
        match decode_user_event(fields) {
            Some(event) => Some(SessionEntry::User { event }),
            None => None,
        }
    } else if str_eq(t.as_str(), "assistant") {
        match decode_assistant_event(fields) {
            Some(event) => Some(SessionEntry::Assistant { event }),
            None => None,
        }
    } else if str_eq(t.as_str(), "system") {
        let content = match get_req_str(fields, "content") {
            Some(s) => s,
            None => {
                return None;
            },
        };
        let level = match get_opt_str(fields, "level") {
            Some(o) => o,
            None => {
                return None;
            },
        };
        let metadata = match decode_meta(fields) {
            Some(m) => m,
            None => {
                return None;
            },
        };
        Some(SessionEntry::System { content, level, metadata })
    } else {
        None
    }
}

} // verus!

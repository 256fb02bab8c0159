//! Turning one decoded record into the uniform timeline event that the
//! rest of the system operates on.
//!
//! Exactly one event comes out of every decodable non-summary record;
//! summary records are consumed and discarded. When an assistant record
//! carries several thinking blocks only the first is retained, and when it
//! carries several tool-use blocks only the last is retained: the source
//! format does not promise at most one of either, so a fixed deterministic
//! policy is part of this contract.

use vstd::prelude::*;
use vstd::string::StringExecFns;
use crate::decode::{
    assistant_block_views, usage_view, AssistantContentBlock, AssistantContentBlockV, SessionEntry,
    SessionEntryV, TokenUsage, TokenUsageV, UserContent, UserContentBlock, UserContentBlockV,
    UserContentV,
};
use crate::json::{parse_json_line, json_of, JsonValue, JTree};
use crate::decode::{decode_entry, spec_decode, ostr_view};

verus! {

/// The one retained tool invocation of an event.
pub struct ToolInfo {
    pub name: String,
    pub id: String,
    pub input: JsonValue,
}

pub struct ToolInfoV {
    pub name: Seq<char>,
    pub id: Seq<char>,
    pub input: JTree,
}

impl View for ToolInfo {
    type V = ToolInfoV;

    open spec fn view(&self) -> ToolInfoV {
        ToolInfoV { name: self.name@, id: self.id@, input: self.input@ }
    }
}

/// One uniform timeline event.
pub struct DisplayEvent {
    /// The record's timestamp text; events keep file line order and are
    /// not re-sorted here.
    pub timestamp: String,
    /// "user", "assistant", or "system:<level>".
    pub role: String,
    pub content: String,
    pub tool_info: Option<ToolInfo>,
    pub thinking: Option<String>,
    pub usage: Option<TokenUsage>,
    pub model: Option<String>,
}

pub struct DisplayEventV {
    pub timestamp: Seq<char>,
    pub role: Seq<char>,
    pub content: Seq<char>,
    pub tool_info: Option<ToolInfoV>,
    pub thinking: Option<Seq<char>>,
    pub usage: Option<TokenUsageV>,
    pub model: Option<Seq<char>>,
}

pub open spec fn tool_view(o: Option<ToolInfo>) -> Option<ToolInfoV> {
    match o {
        Some(t) => Some(t@),
        None => None,
    }
}

impl View for DisplayEvent {
    type V = DisplayEventV;

    open spec fn view(&self) -> DisplayEventV {
        DisplayEventV {
            timestamp: self.timestamp@,
            role: self.role@,
            content: self.content@,
            tool_info: tool_view(self.tool_info),
            thinking: ostr_view(self.thinking),
            usage: usage_view(self.usage),
            model: ostr_view(self.model),
        }
    }
}

// ------------------------------------------------------------------
// The normalization relation.
// ------------------------------------------------------------------

/// The text pieces a user record contributes: the text of every text
/// block and of every tool-result block, in block order; image blocks
/// contribute nothing.
pub open spec fn user_pieces(bs: Seq<UserContentBlockV>) -> Seq<Seq<char>>
    decreases bs.len(),
{
    if bs.len() == 0 {
        Seq::empty()
    } else {
        let rest = user_pieces(bs.drop_first());
        match bs[0] {
            UserContentBlockV::Text { text } => seq![text] + rest,
            UserContentBlockV::ToolResult { tool_use_id, content, is_error } => seq![content]
                + rest,
            UserContentBlockV::Image { source } => rest,
        }
    }
}

/// Pieces joined by single newlines; the join of no pieces is empty.
pub open spec fn join_nl(ps: Seq<Seq<char>>) -> Seq<char>
    decreases ps.len(),
{
    if ps.len() == 0 {
        Seq::empty()
    } else if ps.len() == 1 {
        ps[0]
    } else {
        ps[0] + seq!['\n'] + join_nl(ps.drop_first())
    }
}

pub open spec fn user_text(c: UserContentV) -> Seq<char> {
    match c {
        UserContentV::Text(t) => t,
        UserContentV::Blocks(bs) => join_nl(user_pieces(bs)),
    }
}

/// An assistant record's content: its text blocks, folded left to right,
/// separated by a newline except that nothing is added while the content
/// so far is empty.
pub open spec fn assistant_text_acc(bs: Seq<AssistantContentBlockV>, acc: Seq<char>) -> Seq<char>
    decreases bs.len(),
{
    if bs.len() == 0 {
        acc
    } else {
        match bs[0] {
            AssistantContentBlockV::Text { text } => assistant_text_acc(
                bs.drop_first(),
                if acc.len() == 0 {
                    text
                } else {
                    acc + seq!['\n'] + text
                },
            ),
            _ => assistant_text_acc(bs.drop_first(), acc),
        }
    }
}

pub open spec fn assistant_text(bs: Seq<AssistantContentBlockV>) -> Seq<char> {
    assistant_text_acc(bs, Seq::empty())
}

/// The first thinking block of the record, if any.
pub open spec fn first_thinking(bs: Seq<AssistantContentBlockV>) -> Option<Seq<char>>
    decreases bs.len(),
{
    if bs.len() == 0 {
        None
    } else {
        match bs[0] {
            AssistantContentBlockV::Thinking { thinking, signature } => Some(thinking),
            _ => first_thinking(bs.drop_first()),
        }
    }
}

/// The last tool-use block of the record, if any.
pub open spec fn last_tool(bs: Seq<AssistantContentBlockV>) -> Option<ToolInfoV>
    decreases bs.len(),
{
    if bs.len() == 0 {
        None
    } else {
        match last_tool(bs.drop_first()) {
            Some(t) => Some(t),
            None => match bs[0] {
                AssistantContentBlockV::ToolUse { id, name, input } => Some(
                    ToolInfoV { name, id, input },
                ),
                _ => None,
            },
        }
    }
}

pub open spec fn system_role(level: Option<Seq<char>>) -> Seq<char> {
    "system:"@ + match level {
        Some(l) => l,
        None => "info"@,
    }
}

/// What normalizing one decoded record yields: exactly one event for a
/// user, assistant or system record; nothing for a summary record.
pub open spec fn spec_convert(e: SessionEntryV) -> Option<DisplayEventV> {
    match e {
        SessionEntryV::Summary { summary, leaf_uuid, timestamp } => None,
        SessionEntryV::User { event } => Some(DisplayEventV {
            timestamp: event.metadata.timestamp,
            role: "user"@,
            content: user_text(event.message.content),
            tool_info: None,
            thinking: None,
            usage: None,
            model: None,
        }),
        SessionEntryV::Assistant { event } => Some(DisplayEventV {
            timestamp: event.metadata.timestamp,
            role: "assistant"@,
            content: assistant_text(event.message.content),
            tool_info: last_tool(event.message.content),
            thinking: first_thinking(event.message.content),
            usage: event.message.usage,
            model: Some(event.message.model),
        }),
        SessionEntryV::System { content, level, metadata } => Some(DisplayEventV {
            timestamp: metadata.timestamp,
            role: system_role(level),
            content,
            tool_info: None,
            thinking: None,
            usage: None,
            model: None,
        }),
    }
}

/// What `decode_and_normalize` yields for a line of text: the event of a
/// line that parses, decodes and is not a summary; nothing otherwise.
pub open spec fn spec_decode_normalize(s: Seq<char>) -> Option<DisplayEventV> {
    match json_of(s) {
        None => None,
        Some(j) => match spec_decode(j) {
            None => None,
            Some(e) => spec_convert(e),
        },
    }
}

// ------------------------------------------------------------------
// The executable normalizer.
// ------------------------------------------------------------------

pub open spec fn piece_views(ps: Seq<String>) -> Seq<Seq<char>> {
    ps.map_values(|p: String| p@)
}

fn collect_user_pieces(bs: &Vec<UserContentBlock>) -> (r: Vec<String>)
    ensures
        piece_views(r@) == user_pieces(bs@.map_values(|b: UserContentBlock| b@)),
{
    let ghost bv = bs@.map_values(|b: UserContentBlock| b@);
    let mut out: Vec<String> = Vec::new();
    let mut i: usize = 0;
    proof {
        assert(bv.skip(0) =~= bv);
        assert(piece_views(out@) + user_pieces(bv) =~= user_pieces(bv));
    }
    while i < bs.len()
        invariant
            i <= bs@.len(),
            bv == bs@.map_values(|b: UserContentBlock| b@),
            user_pieces(bv) == piece_views(out@) + user_pieces(bv.skip(i as int)),
        decreases bs@.len() - i,
    {
        proof {
            assert(bv.skip(i as int)[0] == bv[i as int]);
            assert(bv.skip(i as int).drop_first() =~= bv.skip(i + 1 as int));
        }
        let ghost prev = out@;
        match &bs[i] {
            UserContentBlock::Text { text } => {
                out.push(text.clone());
                proof {
                    assert(piece_views(out@) =~= piece_views(prev).push(text@));
                    assert(piece_views(prev) + (seq![text@] + user_pieces(bv.skip(i + 1 as int)))
                        =~= piece_views(out@) + user_pieces(bv.skip(i + 1 as int)));
                }
            },
            UserContentBlock::ToolResult { tool_use_id, content, is_error } => {
                out.push(content.clone());
                proof {
                    assert(piece_views(out@) =~= piece_views(prev).push(content@));
                    assert(piece_views(prev) + (seq![content@] + user_pieces(
                        bv.skip(i + 1 as int),
                    )) =~= piece_views(out@) + user_pieces(bv.skip(i + 1 as int)));
                }
            },
            UserContentBlock::Image { source } => {
            },
        }
        i = i + 1;
    }
    proof {
        assert(bv.skip(bv.len() as int) =~= Seq::<UserContentBlockV>::empty());
        assert(piece_views(out@) + Seq::<Seq<char>>::empty() =~= piece_views(out@));
    }
    out
}

fn join_pieces_nl(ps: &Vec<String>) -> (r: String)
    ensures
        r@ == join_nl(piece_views(ps@)),
{
    let mut out: Vec<char> = Vec::new();
    let mut i: usize = 0;
    while i < ps.len()
        invariant
            i <= ps@.len(),
            out@ == join_nl_prefix(piece_views(ps@), i as int),
        decreases ps@.len() - i,
    {
        if i > 0 {
            out.push('\n');
        }
        let cs = crate::chars::str_to_chars(ps[i].as_str());
        let mut j: usize = 0;
        while j < cs.len()
            invariant
                j <= cs@.len(),
                cs@ == ps@[i as int]@,
                i < ps@.len(),
                out@ == join_nl_prefix(piece_views(ps@), i as int) + (if i > 0 {
                    seq!['\n']
                } else {
                    Seq::<char>::empty()
                }) + cs@.take(j as int),
            decreases cs@.len() - j,
        {
            out.push(cs[j]);
            proof {
                assert(cs@.take(j + 1 as int) =~= cs@.take(j as int).push(cs@[j as int]));
            }
            j = j + 1;
        }
        proof {
            assert(cs@.take(cs@.len() as int) =~= cs@);
            lemma_join_nl_prefix_step(piece_views(ps@), i as int);
            assert(out@ =~= join_nl_prefix(piece_views(ps@), i + 1 as int));
        }
        i = i + 1;
    }
    proof {
        assert(piece_views(ps@).take(ps@.len() as int) =~= piece_views(ps@));
    }
    crate::chars::chars_to_string(&out)
}

spec fn join_nl_prefix(ps: Seq<Seq<char>>, i: int) -> Seq<char> {
    join_nl(ps.take(i))
}

proof fn lemma_join_nl_drop_last(ps: Seq<Seq<char>>)
    requires
        ps.len() >= 2,
    ensures
        join_nl(ps) == join_nl(ps.drop_last()) + seq!['\n'] + ps.last(),
    decreases ps.len(),
{
    if ps.len() == 2 {
        assert(ps.drop_first().len() == 1);
        assert(join_nl(ps.drop_first()) == ps[1]);
        assert(ps.drop_last().len() == 1);
        assert(join_nl(ps.drop_last()) == ps[0]);
        assert(join_nl(ps) =~= join_nl(ps.drop_last()) + seq!['\n'] + ps.last());
    } else {
        lemma_join_nl_drop_last(ps.drop_first());
        assert(ps.drop_first().drop_last() =~= ps.drop_last().drop_first());
        assert(ps.drop_first().last() == ps.last());
        assert(join_nl(ps.drop_last()) == ps.drop_last()[0] + seq!['\n'] + join_nl(
            ps.drop_last().drop_first(),
        ));
        assert(ps.drop_last()[0] == ps[0]);
        assert(join_nl(ps) == ps[0] + seq!['\n'] + join_nl(ps.drop_first()));
        assert(join_nl(ps) =~= join_nl(ps.drop_last()) + seq!['\n'] + ps.last());
    }
}

proof fn lemma_join_nl_prefix_step(ps: Seq<Seq<char>>, i: int)
    requires
        0 <= i < ps.len(),
    ensures
        i == 0 ==> join_nl_prefix(ps, 1) == ps[0],
        i > 0 ==> join_nl_prefix(ps, i + 1) == join_nl_prefix(ps, i) + seq!['\n'] + ps[i],
{
    if i == 0 {
        assert(ps.take(1).len() == 1);
        assert(ps.take(1)[0] == ps[0]);
    } else {
        lemma_join_nl_drop_last(ps.take(i + 1));
        assert(ps.take(i + 1).drop_last() =~= ps.take(i));
        assert(ps.take(i + 1).last() == ps[i]);
    }
}

/// Normalize one decoded record into one uniform event; a summary record
/// yields nothing.
pub fn convert_to_display_event(entry: SessionEntry) -> (r: Option<DisplayEvent>)
    ensures
        match r {
            Some(d) => spec_convert(entry@) == Some(d@),
            None => spec_convert(entry@) is None,
        },
{
    match entry {
        SessionEntry::Summary { summary, leaf_uuid, timestamp } => None,
        SessionEntry::User { event } => {
            let content = match event.message.content {
                UserContent::Text(t) => t,
                UserContent::Blocks(bs) => {
                    let pieces = collect_user_pieces(&bs);
                    join_pieces_nl(&pieces)
                },
            };
            Some(
                DisplayEvent {
                    timestamp: event.metadata.timestamp,
                    role: new_string("user"),
                    content,
                    tool_info: None,
                    thinking: None,
                    usage: None,
                    model: None,
                },
            )
        },
        SessionEntry::Assistant { event } => {
            let blocks = event.message.content;
            let ghost bv = assistant_block_views(blocks@);
            let mut content = String::new();
            let mut thinking: Option<String> = None;
            let mut tool_info: Option<ToolInfo> = None;
            proof {
                assert(bv.skip(0) =~= bv);
            }
            let n = blocks.len();
            let mut k: usize = 0;
            while k < n
                invariant
                    k <= n,
                    n == blocks@.len(),
                    bv == assistant_block_views(blocks@),
                    assistant_text(bv) == assistant_text_acc(bv.skip(k as int), content@),
                    first_thinking(bv) == (match thinking {
                        Some(th) => Some(th@),
                        None => first_thinking(bv.skip(k as int)),
                    }),
                    last_tool(bv) == (match last_tool(bv.skip(k as int)) {
                        Some(t) => Some(t),
                        None => tool_view(tool_info),
                    }),
                decreases n - k,
            {
                proof {
                    assert(bv.skip(k as int)[0] == bv[k as int]);
                    assert(bv.skip(k as int).drop_first() =~= bv.skip(k + 1 as int));
                }
                match &blocks[k] {
                    AssistantContentBlock::Text { text } => {
                        if !content.as_str().is_empty() {
                            content.append("\n");
                            proof {
                                reveal_strlit("\n");
                                assert("\n"@ =~= seq!['\n']);
                            }
                        } else {
                            proof {
                                assert(content@.len() == 0);
                            }
                        }
                        content.append(text.as_str());
                    },
                    AssistantContentBlock::Thinking { thinking: th, signature } => {
                        if thinking.is_none() {
                            thinking = Some(th.clone());
                        }
                    },
                    AssistantContentBlock::ToolUse { id, name, input } => {
                        tool_info = Some(
                            ToolInfo {
                                name: name.clone(),
                                id: id.clone(),
                                input: crate::json::clone_json(input),
                            },
                        );
                    },
                }
                k = k + 1;
            }
            proof {
                assert(bv.skip(n as int) =~= Seq::<AssistantContentBlockV>::empty());
            }
            Some(
                DisplayEvent {
                    timestamp: event.metadata.timestamp,
                    role: new_string("assistant"),
                    content,
                    tool_info,
                    thinking,
                    usage: event.message.usage,
                    model: Some(event.message.model),
                },
            )
        },
        SessionEntry::System { content, level, metadata } => {
            let mut role = new_string("system:");
            match &level {
                Some(l) => role.append(l.as_str()),
                None => role.append("info"),
            }
            Some(
                DisplayEvent {
                    timestamp: metadata.timestamp,
                    role,
                    content,
                    tool_info: None,
                    thinking: None,
                    usage: None,
                    model: None,
                },
            )
        },
    }
}

/// Newlines replaced by spaces, for one-line previews.
pub open spec fn nl_to_space(s: Seq<char>) -> Seq<char> {
    s.map_values(
        |c: char|
            if c == '\n' {
                ' '
            } else {
                c
            },
    )
}

/// The preview of the first non-empty user event: its first sixty
/// characters on one line, quoted and marked as cut; or a fixed note when
/// no user event has content.
pub open spec fn spec_first_preview(evs: Seq<DisplayEventV>, i: int) -> Seq<char>
    decreases evs.len() - i,
{
    if i < 0 || i >= evs.len() {
        "(no preview available)"@
    } else if evs[i].role == "user"@ && evs[i].content.len() > 0 {
        seq!['"'] + nl_to_space(
            evs[i].content.take(
                if evs[i].content.len() < 60 {
                    evs[i].content.len() as int
                } else {
                    60
                },
            ),
        ) + "...\""@
    } else {
        spec_first_preview(evs, i + 1)
    }
}

pub open spec fn event_seq_views(events: Seq<DisplayEvent>) -> Seq<DisplayEventV> {
    events.map_values(|e: DisplayEvent| e@)
}

/// A one-line preview of the first user message of the timeline.
pub fn get_first_user_message(events: &Vec<DisplayEvent>) -> (r: String)
    ensures
        r@ == spec_first_preview(event_seq_views(events@), 0),
{
    let ghost ev = event_seq_views(events@);
    let mut i: usize = 0;
    while i < events.len()
        invariant
            i <= events@.len(),
            ev == event_seq_views(events@),
            spec_first_preview(ev, 0) == spec_first_preview(ev, i as int),
        decreases events@.len() - i,
    {
        let is_user = crate::json::str_eq(events[i].role.as_str(), "user");
        if is_user && !events[i].content.as_str().is_empty() {
            let cs = crate::chars::str_to_chars(events[i].content.as_str());
            let take = if cs.len() < 60 {
                cs.len()
            } else {
                60
            };
            let mut out: Vec<char> = Vec::new();
            out.push('"');
            let mut k: usize = 0;
            while k < take
                invariant
                    k <= take,
                    take <= cs@.len(),
                    out@ == seq!['"'] + nl_to_space(cs@.take(take as int)).take(k as int),
                decreases take - k,
            {
                let c = cs[k];
                out.push(
                    if c == '\n' {
                        ' '
                    } else {
                        c
                    },
                );
                proof {
                    assert(nl_to_space(cs@.take(take as int)).take(k + 1 as int) =~= nl_to_space(
                        cs@.take(take as int),
                    ).take(k as int).push(nl_to_space(cs@.take(take as int))[k as int]));
                }
                k = k + 1;
            }
            proof {
                assert(nl_to_space(cs@.take(take as int)).take(take as int) =~= nl_to_space(
                    cs@.take(take as int),
                ));
            }
            out.push('.');
            out.push('.');
            out.push('.');
            out.push('"');
            proof {
                reveal_strlit("...\"");
                assert("...\""@ =~= seq!['.', '.', '.', '"']);
                assert(ev[i as int].content == cs@);
                assert(ev[i as int].role == "user"@);
                assert(out@ =~= spec_first_preview(ev, i as int));
            }
            return crate::chars::chars_to_string(&out);
        }
        i = i + 1;
    }
    proof {
        assert(spec_first_preview(ev, events@.len() as int) == "(no preview available)"@);
    }
    new_string("(no preview available)")
}

pub open spec fn sat_add_u64(a: int, b: int) -> int {
    if a + b > u64::MAX {
        u64::MAX as int
    } else {
        a + b
    }
}

/// The input and output token totals of the assistant events, each sum
/// saturating at the 64-bit limit.
pub open spec fn spec_token_totals(evs: Seq<DisplayEventV>) -> (int, int)
    decreases evs.len(),
{
    if evs.len() == 0 {
        (0, 0)
    } else {
        let rest = spec_token_totals(evs.drop_last());
        match evs.last().usage {
            Some(u) => if evs.last().role == "assistant"@ {
                (sat_add_u64(rest.0, u.input_tokens as int), sat_add_u64(
                    rest.1,
                    u.output_tokens as int,
                ))
            } else {
                rest
            },
            None => rest,
        }
    }
}

/// Total input and output tokens reported by the assistant events.
pub fn total_token_usage(events: &Vec<DisplayEvent>) -> (r: (u64, u64))
    ensures
        r.0 as int == spec_token_totals(event_seq_views(events@)).0,
        r.1 as int == spec_token_totals(event_seq_views(events@)).1,
{
    let ghost ev = event_seq_views(events@);
    let mut input: u64 = 0;
    let mut output: u64 = 0;
    let mut i: usize = 0;
    proof {
        assert(ev.subrange(0, 0) =~= Seq::<DisplayEventV>::empty());
    }
    while i < events.len()
        invariant
            i <= events@.len(),
            ev == event_seq_views(events@),
            input as int == spec_token_totals(ev.subrange(0, i as int)).0,
            output as int == spec_token_totals(ev.subrange(0, i as int)).1,
        decreases events@.len() - i,
    {
        proof {
            let pre = ev.subrange(0, i + 1 as int);
            assert(pre.drop_last() =~= ev.subrange(0, i as int));
            assert(pre.last() == ev[i as int]);
        }
        let is_assistant = crate::json::str_eq(events[i].role.as_str(), "assistant");
        match &events[i].usage {
            Some(u) => {
                if is_assistant {
                    input = match input.checked_add(u.input_tokens as u64) {
                        Some(v) => v,
                        None => u64::MAX,
                    };
                    output = match output.checked_add(u.output_tokens as u64) {
                        Some(v) => v,
                        None => u64::MAX,
                    };
                }
            },
            None => {
            },
        }
        i = i + 1;
    }
    proof {
        assert(ev.subrange(0, events@.len() as int) =~= ev);
    }
    (input, output)
}

fn new_string(s: &str) -> (r: String)
    ensures
        r@ == s@,
{
    let mut out = String::new();
    out.append(s);
    out
}

/// Decode and normalize one line of text: the event of a line that parses
/// as JSON, matches a known record shape and is not a summary; nothing for
/// any other line, whatever it holds.
pub fn decode_and_normalize(line: &str) -> (r: Option<DisplayEvent>)
    ensures
        match r {
            Some(d) => spec_decode_normalize(line@) == Some(d@),
            None => spec_decode_normalize(line@) is None,
        },
{
    let j = match parse_json_line(line) {
        Some(j) => j,
        None => {
            return None;
        },
    };
    let entry = match decode_entry(&j) {
        Some(e) => e,
        None => {
            return None;
        },
    };
    convert_to_display_event(entry)
}

} // verus!

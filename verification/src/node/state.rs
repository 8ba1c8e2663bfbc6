//! The state node: keeps the conversation of a session, and makes it smaller
//! when it has grown too large.

use crate::memory::short_term;
use crate::memory::short_term::{MessageModel, ShortTermMemory, ShortTermModel};
use crate::message::payloads::{CompactRequest, CompactResult};
use crate::message::frame::{FrameCodec, FrameError, Message};
use crate::message::topic::Topic;
use crate::node::payload;
use crate::node::payload::{FieldModel, Payload, PayloadModel};
use crate::node::{NodeId, NodeType};
use crate::outside;
use crate::path;
use crate::path::FilePath;
use crate::text::{lemmas, model, ops};
use vstd::prelude::*;
use vstd::string::*;

verus! {

/// A line of a session's journal.
#[derive(Debug)]
pub struct JsonlEntry {
    /// What the line tells of.
    pub entry_type: String,
    /// Who the message is from.
    pub role: Option<String>,
    /// The text.
    pub content: Option<String>,
    /// The call of a tool that the line belongs to.
    pub tool_call_id: Option<String>,
    /// The tool.
    pub tool_name: Option<String>,
    /// Whether the tool has succeeded.
    pub success: Option<bool>,
    /// How many tokens the message takes.
    pub token_count: Option<u32>,
    /// The moment.
    pub ts: String,
}

/// What a line holds.
#[verifier::ext_equal]
pub struct JsonlModel {
    pub entry_type: Seq<char>,
    pub role: Option<Seq<char>>,
    pub content: Option<Seq<char>>,
    pub tool_call_id: Option<Seq<char>>,
    pub tool_name: Option<Seq<char>>,
    pub success: Option<bool>,
    pub token_count: Option<u32>,
    pub ts: Seq<char>,
}

impl View for JsonlEntry {
    type V = JsonlModel;

    open spec fn view(&self) -> JsonlModel {
        JsonlModel {
            entry_type: self.entry_type@,
            role: model::opt_text(self.role),
            content: model::opt_text(self.content),
            tool_call_id: model::opt_text(self.tool_call_id),
            tool_name: model::opt_text(self.tool_name),
            success: self.success,
            token_count: self.token_count,
            ts: self.ts@,
        }
    }
}

/// The lines that a list holds.
pub open spec fn jsonl_models(v: Seq<JsonlEntry>) -> Seq<JsonlModel> {
    v.map_values(|e: JsonlEntry| e@)
}

/// A message of a saved conversation.
#[derive(Debug)]
pub struct PersistedMessage {
    pub id: String,
    pub turn: u32,
    pub role: String,
    pub content: String,
    pub token_count: u32,
    pub is_tool_call: bool,
}

/// What a saved message holds.
#[verifier::ext_equal]
pub struct SavedModel {
    pub id: Seq<char>,
    pub turn: u32,
    pub role: Seq<char>,
    pub content: Seq<char>,
    pub token_count: u32,
    pub is_tool_call: bool,
}

impl View for PersistedMessage {
    type V = SavedModel;

    open spec fn view(&self) -> SavedModel {
        SavedModel {
            id: self.id@,
            turn: self.turn,
            role: self.role@,
            content: self.content@,
            token_count: self.token_count,
            is_tool_call: self.is_tool_call,
        }
    }
}

/// The saved messages that a list holds.
pub open spec fn saved_models(v: Seq<PersistedMessage>) -> Seq<SavedModel> {
    v.map_values(|m: PersistedMessage| m@)
}

/// A saved conversation.
#[derive(Debug)]
pub struct PersistedConversation {
    pub session_id: String,
    pub agent_id: String,
    pub created_at: String,
    pub updated_at: String,
    pub messages: Vec<PersistedMessage>,
    pub token_count: u32,
    pub turn_count: u32,
}

/// What is told of a conversation.
#[derive(Debug)]
pub struct ConversationState {
    pub session_id: String,
    pub total_messages: usize,
    pub total_tokens: u32,
    pub turn_count: u32,
    pub l0_used_tokens: u32,
    pub l0_max_tokens: u32,
}

/// A message as it is saved.
pub open spec fn saved(m: MessageModel) -> SavedModel {
    SavedModel {
        id: m.id,
        turn: m.turn,
        role: m.role,
        content: m.content,
        token_count: m.token_count,
        is_tool_call: m.is_tool_call,
    }
}

/// How many tokens some messages take together.
pub open spec fn tokens_in(v: Seq<MessageModel>) -> nat
    decreases v.len(),
{
    if v.len() == 0 {
        0
    } else {
        tokens_in(v.drop_last()) + v.last().token_count as nat
    }
}

/// The turn of the last message.
pub open spec fn last_turn(v: Seq<MessageModel>) -> u32 {
    if v.len() == 0 {
        0
    } else {
        v.last().turn
    }
}

/// How many tokens a text is counted as.
pub open spec fn counted(content: Seq<char>) -> u32 {
    (model::byte_len(content) / 4) as u32
}

/// The text, or nothing.
pub open spec fn or_empty(o: Option<Seq<char>>) -> Seq<char> {
    match o {
        Some(s) => s,
        None => ""@,
    }
}

/// What a line of the journal says was said: by whom, what, of how many tokens,
/// and whether by a tool.
pub open spec fn said(e: JsonlModel) -> Option<(Seq<char>, Seq<char>, u32, bool)> {
    let content = or_empty(e.content);
    let tokens = match e.token_count {
        Some(n) => n,
        None => counted(content),
    };
    let t = e.entry_type;
    if t == "user"@ || t == "assistant"@ || t == "system"@ {
        Some(
            (
                match e.role {
                    Some(r) => r,
                    None => t,
                },
                content,
                tokens,
                false,
            ),
        )
    } else if t == "tool_call"@ || t == "tool_result"@ {
        Some(("tool"@, content, tokens, true))
    } else {
        None
    }
}

/// Something that was said, with the embedding of its text.
#[verifier::ext_equal]
pub struct SaidModel {
    pub role: Seq<char>,
    pub content: Seq<char>,
    pub token_count: u32,
    pub is_tool_call: bool,
    pub embedding: Seq<u32>,
}

/// A new message by what was said: its name is a random one.
pub open spec fn tells(m: MessageModel, s: SaidModel, turn: int) -> bool {
    &&& outside::is_uuid_text(m.id)
    &&& turn <= u32::MAX
    &&& m == (MessageModel {
        id: m.id,
        turn: turn as u32,
        role: s.role,
        content: s.content,
        embedding: s.embedding,
        token_count: s.token_count,
        is_tool_call: s.is_tool_call,
        tool_name: None,
        recall_count: 0,
    })
}

/// What the first `n` lines say was said; each line comes with an embedding.
pub open spec fn all_said(v: Seq<JsonlModel>, embeddings: Seq<Vec<u32>>, n: nat) -> Seq<SaidModel>
    decreases n,
{
    if n == 0 {
        Seq::empty()
    } else {
        let before = all_said(v, embeddings, (n - 1) as nat);
        match said(v[n - 1]) {
            Some(s) => before.push(
                SaidModel {
                    role: s.0,
                    content: s.1,
                    token_count: s.2,
                    is_tool_call: s.3,
                    embedding: embeddings[n - 1]@,
                },
            ),
            None => before,
        }
    }
}

/// What saved messages say was said; each comes with an embedding.
pub open spec fn saved_said(v: Seq<SavedModel>, embeddings: Seq<Vec<u32>>) -> Seq<SaidModel> {
    v.map(
        |i: int, s: SavedModel|
            SaidModel {
                role: s.role,
                content: s.content,
                token_count: s.token_count,
                is_tool_call: s.is_tool_call,
                embedding: embeddings[i]@,
            },
    )
}

/// The memory holds what it held, and then what was said, each in a turn of its
/// own.
pub open spec fn continues(
    before: ShortTermModel,
    after: ShortTermModel,
    said: Seq<SaidModel>,
) -> bool {
    &&& after.entries.len() == before.entries.len() + said.len()
    &&& after.current_turn == before.current_turn + said.len()
    &&& after.entries.take(before.entries.len() as int) == before.entries
    &&& forall|i: int|
        0 <= i < said.len() ==> tells(
            #[trigger] after.entries[before.entries.len() + i],
            said[i],
            before.current_turn + i + 1,
        )
}

/// How many tokens were saved.
pub open spec fn saving(before: u32, after: u32) -> nat {
    if before >= after {
        (before - after) as nat
    } else {
        0
    }
}

/// Whether a message is the output of a tool that can be cut.
pub open spec fn is_output(m: MessageModel) -> bool {
    m.is_tool_call && m.content.len() > 0
}

/// A message with another text.
pub open spec fn with_text(m: MessageModel, content: Seq<char>) -> MessageModel {
    MessageModel { content: content, token_count: counted(content), ..m }
}

/// The output of a tool after it was trimmed by the tool's own rules, if they
/// trim it.
pub open spec fn trimmed(m: MessageModel, trim: Option<Seq<char>>) -> MessageModel {
    match trim {
        Some(content) => if is_output(m) {
            with_text(m, content)
        } else {
            m
        },
        None => m,
    }
}

/// A long text cut to its beginning, with a note of how much is missing.
pub open spec fn cut_text(content: Seq<char>, max_chars: nat) -> Seq<char> {
    (if content.len() <= max_chars {
        content
    } else {
        content.take(max_chars as int)
    }) + "\n... ["@ + model::decimal((model::byte_len(content) - max_chars) as nat)
        + " 字符已压缩]"@
}

/// The output of a tool after it was cut to a length.
pub open spec fn cut(m: MessageModel, max_chars: nat) -> MessageModel {
    if is_output(m) && model::byte_len(m.content) > max_chars {
        with_text(m, cut_text(m.content, max_chars))
    } else {
        m
    }
}

/// The first three sentences of a text.
pub open spec fn first_sentences(content: Seq<char>) -> Seq<char> {
    let parts = model::split_where(content, |c: char| ".。\n"@.contains(c));
    model::join(
        if parts.len() <= 3 {
            parts
        } else {
            parts.take(3)
        },
        ". "@,
    )
}

/// The summary of a text: its first sentences, of which no more than 200 bytes.
pub open spec fn extract(content: Seq<char>) -> Seq<char> {
    let s = first_sentences(content);
    if model::byte_len(s) > 200 {
        s.take(model::chars_in(s, 200)) + "..."@
    } else {
        s + "..."@
    }
}

/// The text can be summarised: where it is cut, a character begins.
pub open spec fn extractable(content: Seq<char>) -> bool {
    let s = first_sentences(content);
    model::byte_len(content) > 200 && model::byte_len(s) > 200 ==> model::is_boundary(s, 200)
}

/// The old messages can be summarised, all but the most recent ones.
pub open spec fn can_collapse(v: Seq<MessageModel>, keep_recent: nat) -> bool {
    forall|i: int|
        0 <= i < old_count(v.len(), keep_recent) ==> extractable((#[trigger] v[i]).content)
}

/// An old message after it was summarised.
pub open spec fn collapsed(m: MessageModel) -> MessageModel {
    if model::byte_len(m.content) > 200 {
        with_text(m, extract(m.content))
    } else {
        m
    }
}

/// The messages after the outputs of tools were trimmed and cut.
pub open spec fn tools_compacted(
    v: Seq<MessageModel>,
    trims: Seq<Option<Seq<char>>>,
    max_chars: nat,
) -> Seq<MessageModel> {
    Seq::new(v.len(), |i: int| cut(trimmed(v[i], trims[i]), max_chars))
}

/// How many tokens that has saved in the first `n` messages.
pub open spec fn tools_saving(
    v: Seq<MessageModel>,
    trims: Seq<Option<Seq<char>>>,
    max_chars: nat,
    n: nat,
) -> nat
    decreases n,
{
    if n == 0 {
        0
    } else {
        let a = v[n - 1];
        let b = trimmed(a, trims[n - 1]);
        let c = cut(b, max_chars);
        tools_saving(v, trims, max_chars, (n - 1) as nat) + saving(a.token_count, b.token_count)
            + saving(b.token_count, c.token_count)
    }
}

/// The messages after those before place `split` were summarised.
pub open spec fn history_collapsed(v: Seq<MessageModel>, split: nat) -> Seq<MessageModel> {
    Seq::new(
        v.len(),
        |i: int|
            if i < split {
                collapsed(v[i])
            } else {
                v[i]
            },
    )
}

/// How many tokens that has saved in the first `n` messages.
pub open spec fn history_saving(v: Seq<MessageModel>, n: nat) -> nat
    decreases n,
{
    if n == 0 {
        0
    } else {
        history_saving(v, (n - 1) as nat) + saving(
            v[n - 1].token_count,
            collapsed(v[n - 1]).token_count,
        )
    }
}

/// How many messages are old, where so many are recent.
pub open spec fn old_count(n: nat, keep_recent: nat) -> nat {
    if n > keep_recent {
        (n - keep_recent) as nat
    } else {
        0
    }
}

/// How many bytes of an output its fingerprint shows.
pub open spec fn print_bytes(content: Seq<char>) -> nat {
    if model::byte_len(content) <= 64 {
        model::byte_len(content)
    } else {
        64
    }
}

/// The outputs of tools have fingerprints: where one is cut, a character begins.
pub open spec fn can_fingerprint(v: Seq<MessageModel>) -> bool {
    forall|i: int|
        0 <= i < v.len() && is_output(#[trigger] v[i]) ==> model::is_boundary(
            v[i].content,
            print_bytes(v[i].content),
        )
}

/// The fingerprint of an output.
pub open spec fn fingerprint(m: MessageModel) -> Seq<char> {
    (match m.tool_name {
        Some(t) => t,
        None => "unknown"@,
    }) + ":"@ + m.content.take(model::chars_in(m.content, print_bytes(m.content)))
}

/// The fingerprints of the outputs among the first `n` messages.
pub open spec fn fingerprints(v: Seq<MessageModel>, n: nat) -> Seq<Seq<char>>
    decreases n,
{
    if n == 0 {
        Seq::empty()
    } else if is_output(v[n - 1]) {
        fingerprints(v, (n - 1) as nat).push(fingerprint(v[n - 1]))
    } else {
        fingerprints(v, (n - 1) as nat)
    }
}

/// The optional texts that a list holds.
pub open spec fn trim_models(v: Seq<Option<String>>) -> Seq<Option<Seq<char>>> {
    v.map_values(|o: Option<String>| model::opt_text(o))
}

/// What the state node is to do.
#[derive(Debug)]
pub enum StateAction {
    /// Nothing.
    Idle,
    /// Write a line to the journal, and save the conversation.
    Save(JsonlEntry),
    /// Tell of the conversation.
    Report(ConversationState),
    /// Compact the conversation.
    Compact,
}

/// The output that replaces another one, if either rule has trimmed it: the
/// budget's where the budget has trimmed it, and the snippet otherwise.
pub fn trimmed_output(
    snip_truncated: bool,
    snip_output: String,
    budget_truncated: bool,
    budget_output: String,
) -> (r: Option<String>)
    ensures
        model::opt_text(r) == if budget_truncated {
            Some(budget_output@)
        } else if snip_truncated {
            Some(snip_output@)
        } else {
            None
        },
{
    if budget_truncated {
        Some(budget_output)
    } else if snip_truncated {
        Some(snip_output)
    } else {
        None
    }
}

/// How many tokens a text is counted as.
fn count_tokens(content: &str) -> (r: u32)
    ensures
        r == counted(content@),
{
    #[verifier::truncate]
    let n = (ops::text_byte_len(content) / 4) as u32;
    n
}

/// How many tokens were saved.
fn saving_of(before: u32, after: u32) -> (r: u32)
    ensures
        r == saving(before, after),
{
    if before >= after {
        before - after
    } else {
        0
    }
}

/// A long text cut to its beginning.
fn cut_content(content: &str, max_chars: usize) -> (r: String)
    requires
        model::byte_len(content@) > max_chars,
    ensures
        r@ == cut_text(content@, max_chars as nat),
{
    let chars = ops::chars_of(content);
    let total: usize = ops::text_byte_len(content);
    let start = if chars.len() <= max_chars {
        ops::string_of(chars.as_slice())
    } else {
        ops::string_of(ops::take(chars.as_slice(), max_chars))
    };
    let missing = ops::decimal(total - max_chars);
    ops::concat4(start.as_str(), "\n... [", missing.as_str(), " 字符已压缩]")
}

/// The first three sentences of a text.
fn beginning(content: &str) -> (r: String)
    ensures
        r@ == first_sentences(content@),
{
    let chars = ops::chars_of(content);
    let parts = ops::split_any(chars.as_slice(), ".。\n");
    let ghost all = model::slices(parts@);
    let mut first: Vec<&[char]> = Vec::new();
    assert(model::slices(first@) =~= all.take(0));
    let mut i: usize = 0;
    while i < parts.len() && i < 3
        invariant
            i <= parts@.len(),
            i <= 3,
            all == model::slices(parts@),
            model::slices(first@) == all.take(i as int),
        decreases parts@.len() - i,
    {
        let ghost before = first@;
        first.push(parts[i]);
        assert(model::slices(first@) =~= model::slices(before).push(all[i as int]));
        assert(all.take(i + 1) =~= all.take(i as int).push(all[i as int]));
        i = i + 1;
    }
    assert(all.len() <= 3 ==> all.take(i as int) =~= all);
    ops::join(first.as_slice(), ". ")
}

/// Whether a text can be summarised.
fn can_extract(content: &str) -> (r: bool)
    ensures
        r == extractable(content@),
{
    if ops::text_byte_len(content) <= 200 {
        return true;
    }
    let summary = beginning(content);
    let letters = ops::chars_of(summary.as_str());
    ops::byte_len(letters.as_slice()) <= 200 || ops::chars_in(letters.as_slice(), 200).is_some()
}

/// The summary of a text.
fn extract_content(content: &str) -> (r: String)
    requires
        extractable(content@),
        model::byte_len(content@) > 200,
    ensures
        r@ == extract(content@),
{
    let summary = beginning(content);
    let letters = ops::chars_of(summary.as_str());
    if ops::byte_len(letters.as_slice()) > 200 {
        let n: usize = match ops::chars_in(letters.as_slice(), 200) {
            Some(n) => n,
            None => 0,
        };
        let short = ops::string_of(ops::take(letters.as_slice(), n));
        ops::concat2(short.as_str(), "...")
    } else {
        ops::concat2(summary.as_str(), "...")
    }
}

/// The directory under the home directory where sessions are kept.
pub open spec fn sessions_dir(home: Option<Seq<char>>) -> Seq<char> {
    path::join(
        path::join(
            match home {
                Some(h) => h,
                None => "."@,
            },
            ".ccode"@,
        ),
        "sessions"@,
    )
}

/// What the state node holds.
#[verifier::ext_equal]
pub struct StateModel {
    pub id: Seq<char>,
    pub memory: ShortTermModel,
    pub storage_root: Seq<char>,
    pub session_id: Seq<char>,
    pub jsonl_path: Option<Seq<char>>,
}

/// The state node.
#[derive(Debug)]
pub struct StateNode {
    /// The node's identifier.
    pub id: NodeId,
    /// The messages of the session.
    pub short_term: ShortTermMemory,
    /// The directory of the sessions.
    pub storage_root: FilePath,
    /// Names the session.
    pub session_id: String,
    /// The session's journal, once it is known.
    pub jsonl_path: Option<FilePath>,
}

impl View for StateNode {
    type V = StateModel;

    open spec fn view(&self) -> StateModel {
        StateModel {
            id: self.id@,
            memory: self.short_term@,
            storage_root: self.storage_root@,
            session_id: self.session_id@,
            jsonl_path: match self.jsonl_path {
                Some(p) => Some(p@),
                None => None,
            },
        }
    }
}

/// The journal of a session.
pub open spec fn journal(root: Seq<char>, session_id: Seq<char>) -> Seq<char> {
    path::join(path::join(root, session_id), "conversation.jsonl"@)
}

/// The flag under a name in a payload, if there is one.
pub open spec fn flag_at(p: PayloadModel, name: Seq<char>) -> Option<bool> {
    match payload::field(p, name) {
        FieldModel::Flag(b) => Some(b),
        _ => None,
    }
}

/// The line for a message that is to be kept.
pub open spec fn line_for(p: PayloadModel, now: Seq<char>) -> JsonlModel {
    let role = payload::text_or(p, "role"@, "user"@);
    let is_tool = payload::flag_or(p, "is_tool_call"@, false);
    JsonlModel {
        entry_type: if is_tool {
            "tool_result"@
        } else {
            role
        },
        role: Some(role),
        content: Some(payload::text_or(p, "content"@, ""@)),
        tool_call_id: payload::text_at(p, "tool_call_id"@),
        tool_name: payload::text_at(p, "tool_name"@),
        success: flag_at(p, "success"@),
        token_count: Some(payload::number_or(p, "token_count"@, 0) as u32),
        ts: now,
    }
}

/// What a report says.
pub open spec fn reports(c: ConversationState, session_id: Seq<char>, v: Seq<MessageModel>) -> bool {
    &&& c.session_id@ == session_id
    &&& c.total_messages == v.len()
    &&& c.total_tokens == tokens_in(v)
    &&& c.turn_count == last_turn(v)
    &&& c.l0_used_tokens == 0
    &&& c.l0_max_tokens == 128000
}

proof fn lemma_tokens_bound(v: Seq<MessageModel>)
    ensures
        tokens_in(v) <= v.len() * u32::MAX,
    decreases v.len(),
{
    if v.len() > 0 {
        lemma_tokens_bound(v.drop_last());
        assert((v.len() - 1) * u32::MAX + u32::MAX == v.len() * u32::MAX) by (nonlinear_arith);
    } else {
        assert(0 * u32::MAX == 0) by (nonlinear_arith);
    }
}

/// Whether the node reads what a message carries. A request to compact is read on
/// its own.
pub open spec fn reads(topic: Seq<char>) -> bool {
    topic == "state/persist"@ || model::ends_with(topic, "/event"@)
}

impl StateNode {
    /// A node for a new session, kept under the home directory; without one,
    /// under the current directory.
    pub fn new(id: NodeId, home: Option<&str>) -> (r: Self)
        ensures
            r@.id == id@,
            r@.memory == (ShortTermModel { entries: Seq::empty(), current_turn: 0 }),
            r@.storage_root == sessions_dir(
                match home {
                    Some(h) => Some(h@),
                    None => None,
                },
            ),
            outside::is_uuid_text(r@.session_id),
            r@.jsonl_path is None,
    {
        let home = match home {
            Some(h) => h,
            None => ".",
        };
        StateNode {
            id,
            short_term: ShortTermMemory::new(),
            storage_root: FilePath::new(home).join(".ccode").join("sessions"),
            session_id: outside::fresh_id(),
            jsonl_path: None,
        }
    }

    /// How many tokens the messages take together.
    pub fn total_tokens(&self) -> (r: u64)
        requires
            self@.memory.entries.len() <= u32::MAX,
        ensures
            r == tokens_in(self@.memory.entries),
    {
        let ghost all = self@.memory.entries;
        let mut total: u64 = 0;
        let mut i: usize = 0;
        assert(all.take(0) =~= Seq::empty());
        while i < self.short_term.entries.len()
            invariant
                i <= self.short_term.entries@.len(),
                all == self@.memory.entries,
                all.len() <= u32::MAX,
                total == tokens_in(all.take(i as int)),
            decreases self.short_term.entries@.len() - i,
        {
            assert(all[i as int] == self.short_term.entries@[i as int]@);
            assert(all.take(i + 1).drop_last() =~= all.take(i as int));
            proof {
                lemma_tokens_bound(all.take(i + 1));
                assert((i + 1) * u32::MAX <= u32::MAX * u32::MAX) by (nonlinear_arith)
                    requires
                        i + 1 <= u32::MAX,
                ;
                assert(u32::MAX * u32::MAX <= u64::MAX) by (nonlinear_arith);
            }
            total = total + self.short_term.entries[i].token_count as u64;
            i = i + 1;
        }
        assert(all.take(all.len() as int) =~= all);
        total
    }

    /// The turn of the last message.
    fn turn_count(&self) -> (r: u32)
        ensures
            r == last_turn(self@.memory.entries),
    {
        let n: usize = self.short_term.entries.len();
        if n == 0 {
            0
        } else {
            assert(self@.memory.entries.last() == self.short_term.entries@[n - 1]@);
            self.short_term.entries[n - 1].turn
        }
    }

    /// The conversation as it is saved.
    pub fn conversation(&self, created_at: &str, updated_at: &str) -> (r: PersistedConversation)
        requires
            tokens_in(self@.memory.entries) <= u32::MAX,
            self@.memory.entries.len() <= u32::MAX,
        ensures
            r.session_id@ == self@.session_id,
            r.agent_id@ == ""@,
            r.created_at@ == created_at@,
            r.updated_at@ == updated_at@,
            saved_models(r.messages@) == self@.memory.entries.map_values(
                |m: MessageModel| saved(m),
            ),
            r.token_count == tokens_in(self@.memory.entries),
            r.turn_count == last_turn(self@.memory.entries),
    {
        let ghost all = self@.memory.entries.map_values(|m: MessageModel| saved(m));
        let mut messages: Vec<PersistedMessage> = Vec::new();
        assert(saved_models(messages@) =~= all.take(0));
        let mut i: usize = 0;
        while i < self.short_term.entries.len()
            invariant
                i <= self.short_term.entries@.len(),
                all == self@.memory.entries.map_values(|m: MessageModel| saved(m)),
                saved_models(messages@) == all.take(i as int),
            decreases self.short_term.entries@.len() - i,
        {
            let e = &self.short_term.entries[i];
            assert(self@.memory.entries[i as int] == e@);
            let ghost before = messages@;
            let m = PersistedMessage {
                id: e.id.clone(),
                turn: e.turn,
                role: e.role.clone(),
                content: e.content.clone(),
                token_count: e.token_count,
                is_tool_call: e.is_tool_call,
            };
            let ghost shown = m@;
            assert(all[i as int] == shown);
            messages.push(m);
            assert(saved_models(messages@) =~= saved_models(before).push(shown));
            assert(all.take(i + 1) =~= all.take(i as int).push(shown));
            i = i + 1;
        }
        assert(all.take(all.len() as int) =~= all);
        PersistedConversation {
            session_id: self.session_id.clone(),
            agent_id: String::from_str(""),
            created_at: String::from_str(created_at),
            updated_at: String::from_str(updated_at),
            messages,
            token_count: self.total_tokens() as u32,
            turn_count: self.turn_count(),
        }
    }

    /// The directory of the session.
    pub fn session_dir(&self) -> (r: FilePath)
        ensures
            r@ == path::join(self@.storage_root, self@.session_id),
    {
        self.storage_root.join(self.session_id.as_str())
    }

    /// The file of the saved conversation of a session.
    pub fn conversation_path(&self, session_id: &str) -> (r: FilePath)
        ensures
            r@ == path::join(
                path::join(self@.storage_root, session_id@),
                "conversation.json"@,
            ),
    {
        self.storage_root.join(session_id).join("conversation.json")
    }

    /// The journal of a session.
    pub fn journal_path(&self, session_id: &str) -> (r: FilePath)
        ensures
            r@ == journal(self@.storage_root, session_id@),
    {
        self.storage_root.join(session_id).join("conversation.jsonl")
    }

    /// Makes the session's journal known, unless one is known.
    pub fn init_jsonl(&mut self)
        ensures
            final(self)@ == (StateModel {
                jsonl_path: match old(self)@.jsonl_path {
                    Some(p) => Some(p),
                    None => Some(journal(old(self)@.storage_root, old(self)@.session_id)),
                },
                ..old(self)@
            }),
    {
        if self.jsonl_path.is_none() {
            let p = self.journal_path(self.session_id.as_str());
            self.jsonl_path = Some(p);
        }
    }

    /// What the error says where a session is not there.
    pub fn no_such_session(session_id: &str) -> (r: String)
        ensures
            r@ == "会话不存在："@ + session_id@,
    {
        ops::concat2("会话不存在：", session_id)
    }

    /// Takes up a session from the lines of its journal, and returns how many of
    /// them count. Each line comes with the embedding of its text.
    pub fn load_session_jsonl(
        &mut self,
        session_id: &str,
        lines: &Vec<JsonlEntry>,
        embeddings: &Vec<Vec<u32>>,
    ) -> (r: usize)
        requires
            embeddings@.len() == lines@.len(),
            old(self)@.memory.current_turn + lines@.len() <= u32::MAX,
        ensures
            continues(
                old(self)@.memory,
                final(self)@.memory,
                all_said(jsonl_models(lines@), embeddings@, lines@.len()),
            ),
            r == all_said(jsonl_models(lines@), embeddings@, lines@.len()).len(),
            final(self)@.id == old(self)@.id,
            final(self)@.storage_root == old(self)@.storage_root,
            final(self)@.session_id == session_id@,
            final(self)@.jsonl_path == Some(journal(old(self)@.storage_root, session_id@)),
    {
        let ghost all = jsonl_models(lines@);
        let ghost m = self@;
        let mut count: usize = 0;
        let mut i: usize = 0;
        assert(m.memory.entries.take(m.memory.entries.len() as int) =~= m.memory.entries);
        while i < lines.len()
            invariant
                i <= lines@.len(),
                all == jsonl_models(lines@),
                embeddings@.len() == lines@.len(),
                m.memory.current_turn + lines@.len() <= u32::MAX,
                count == all_said(all, embeddings@, i as nat).len(),
                count <= i,
                continues(m.memory, self@.memory, all_said(all, embeddings@, i as nat)),
                self@ == (StateModel { memory: self@.memory, ..m }),
            decreases lines@.len() - i,
        {
            assert(all[i as int] == lines@[i as int]@);
            if let Some((role, content, tokens, is_tool)) = StateNode::reading(&lines[i]) {
                let ghost before = self@.memory;
                let ghost known = all_said(all, embeddings@, i as nat);
                let ghost item = SaidModel {
                    role: role@,
                    content: content@,
                    token_count: tokens,
                    is_tool_call: is_tool,
                    embedding: embeddings@[i as int]@,
                };
                let vector = embeddings[i].clone();
                assert(vector@ =~= item.embedding);
                let id = self.short_term.store(role, content, tokens, is_tool, vector);
                proof {
                    lemma_continue(m.memory, before, known, item, id@);
                }
                count = count + 1;
            }
            i = i + 1;
        }
        let p = self.journal_path(session_id);
        self.session_id = String::from_str(session_id);
        self.jsonl_path = Some(p);
        count
    }

    /// What a line of the journal says was said.
    fn reading(e: &JsonlEntry) -> (r: Option<(String, String, u32, bool)>)
        ensures
            match r {
                Some(s) => said(e@) == Some((s.0@, s.1@, s.2, s.3)),
                None => said(e@) is None,
            },
    {
        let chars = ops::chars_of(e.entry_type.as_str());
        let t = chars.as_slice();
        let content = match &e.content {
            Some(c) => c.clone(),
            None => String::from_str(""),
        };
        let tokens: u32 = match e.token_count {
            Some(n) => n,
            None => count_tokens(content.as_str()),
        };
        if ops::is_text(t, "user") || ops::is_text(t, "assistant") || ops::is_text(t, "system") {
            let role = match &e.role {
                Some(r) => r.clone(),
                None => e.entry_type.clone(),
            };
            Some((role, content, tokens, false))
        } else if ops::is_text(t, "tool_call") || ops::is_text(t, "tool_result") {
            Some((String::from_str("tool"), content, tokens, true))
        } else {
            None
        }
    }

    /// Takes up a session from its saved messages. Each message comes with the
    /// embedding of its text.
    pub fn load_session(
        &mut self,
        session_id: &str,
        messages: &Vec<PersistedMessage>,
        embeddings: &Vec<Vec<u32>>,
    )
        requires
            embeddings@.len() == messages@.len(),
            old(self)@.memory.current_turn + messages@.len() <= u32::MAX,
        ensures
            continues(
                old(self)@.memory,
                final(self)@.memory,
                saved_said(saved_models(messages@), embeddings@),
            ),
            final(self)@ == (StateModel {
                memory: final(self)@.memory,
                session_id: session_id@,
                ..old(self)@
            }),
    {
        let ghost all = saved_said(saved_models(messages@), embeddings@);
        let ghost m = self@;
        let mut i: usize = 0;
        assert(m.memory.entries.take(m.memory.entries.len() as int) =~= m.memory.entries);
        while i < messages.len()
            invariant
                i <= messages@.len(),
                all == saved_said(saved_models(messages@), embeddings@),
                embeddings@.len() == messages@.len(),
                m.memory.current_turn + messages@.len() <= u32::MAX,
                continues(m.memory, self@.memory, all.take(i as int)),
                self@ == (StateModel { memory: self@.memory, ..m }),
            decreases messages@.len() - i,
        {
            let msg = &messages[i];
            let ghost before = self@.memory;
            let ghost item = all[i as int];
            assert(saved_models(messages@)[i as int] == msg@);
            let vector = embeddings[i].clone();
            assert(vector@ =~= item.embedding);
            let id = self.short_term.store(
                msg.role.clone(),
                msg.content.clone(),
                msg.token_count,
                msg.is_tool_call,
                vector,
            );
            proof {
                lemma_continue(m.memory, before, all.take(i as int), item, id@);
                assert(all.take(i + 1) =~= all.take(i as int).push(item));
            }
            i = i + 1;
        }
        assert(all.take(all.len() as int) =~= all);
        self.session_id = String::from_str(session_id);
    }

    /// What is told of the conversation.
    pub fn query_state(&self) -> (r: ConversationState)
        requires
            tokens_in(self@.memory.entries) <= u32::MAX,
            self@.memory.entries.len() <= u32::MAX,
        ensures
            reports(r, self@.session_id, self@.memory.entries),
    {
        ConversationState {
            session_id: self.session_id.clone(),
            total_messages: self.short_term.entries.len(),
            total_tokens: self.total_tokens() as u32,
            turn_count: self.turn_count(),
            l0_used_tokens: 0,
            l0_max_tokens: 128000,
        }
    }

    /// Trims and cuts the outputs of tools, and returns how many tokens that has
    /// saved. `trims` holds, for each message, what the tool's own rules leave of
    /// its output, where they trim it.
    pub fn compact_tools(&mut self, trims: &Vec<Option<String>>, max_chars: usize) -> (r: u128)
        requires
            trims@.len() == old(self)@.memory.entries.len(),
        ensures
            final(self)@ == (StateModel {
                memory: ShortTermModel {
                    entries: tools_compacted(
                        old(self)@.memory.entries,
                        trim_models(trims@),
                        max_chars as nat,
                    ),
                    ..old(self)@.memory
                },
                ..old(self)@
            }),
            r == tools_saving(
                old(self)@.memory.entries,
                trim_models(trims@),
                max_chars as nat,
                trims@.len(),
            ),
    {
        let ghost v = self@.memory.entries;
        let ghost t = trim_models(trims@);
        let ghost done = tools_compacted(v, t, max_chars as nat);
        let ghost m = self@;
        let mut total: u128 = 0;
        let mut i: usize = 0;
        assert(done.take(0) + v.skip(0) =~= v);
        while i < self.short_term.entries.len()
            invariant
                i <= self.short_term.entries@.len(),
                self.short_term.entries@.len() == v.len(),
                trims@.len() == v.len(),
                t == trim_models(trims@),
                done == tools_compacted(v, t, max_chars as nat),
                self@ == (StateModel {
                    memory: ShortTermModel {
                        entries: done.take(i as int) + v.skip(i as int),
                        ..m.memory
                    },
                    ..m
                }),
                total == tools_saving(v, t, max_chars as nat, i as nat),
                total <= i * 0x2_0000_0000,
            decreases self.short_term.entries@.len() - i,
        {
            let ghost now = self@.memory.entries;
            assert(now[i as int] == v[i as int]);
            assert(now[i as int] == self.short_term.entries@[i as int]@);
            assert(t[i as int] == model::opt_text(trims@[i as int]));
            let before: u32 = self.short_term.entries[i].token_count;
            let is_tool = self.short_term.entries[i].is_tool_call;
            let mut content = self.short_term.entries[i].content.clone();
            let mut tokens: u32 = before;
            let mut saved_here: u32 = 0;
            let empty = ops::text_byte_len(content.as_str()) == 0;
            proof {
                crate::text::lemmas::lemma_byte_len_at_least(content@);
                if content@.len() == 0 {
                    assert(model::byte_len(content@) == 0);
                }
            }
            let output = is_tool && !empty;
            if output {
                if let Some(c) = &trims[i] {
                    content = c.clone();
                    tokens = count_tokens(content.as_str());
                    saved_here = saving_of(before, tokens);
                }
            }
            let ghost b = trimmed(v[i as int], t[i as int]);
            assert(b.content == content@ && b.token_count == tokens);
            let middle: u32 = tokens;
            let mut saved_more: u32 = 0;
            let size: usize = ops::text_byte_len(content.as_str());
            proof {
                crate::text::lemmas::lemma_byte_len_at_least(content@);
            }
            if is_tool && size > 0 && size > max_chars {
                content = cut_content(content.as_str(), max_chars);
                tokens = count_tokens(content.as_str());
                saved_more = saving_of(middle, tokens);
            }
            let ghost c = cut(b, max_chars as nat);
            proof {
                if b.content.len() == 0 {
                    assert(model::byte_len(b.content) == 0);
                }
            }
            assert(c.content == content@ && c.token_count == tokens);
            self.short_term.entries[i].content = content;
            self.short_term.entries[i].token_count = tokens;
            assert(self.short_term.entries@[i as int]@ =~= c);
            assert(self@.memory.entries =~= now.update(i as int, c));
            assert(done[i as int] == c);
            assert(done.take(i + 1) + v.skip(i + 1) =~= now.update(i as int, c));
            total = total + saved_here as u128 + saved_more as u128;
            i = i + 1;
        }
        assert(done.take(v.len() as int) + v.skip(v.len() as int) =~= done);
        total
    }

    /// Whether the tools' outputs have fingerprints.
    pub fn can_fingerprint(&self) -> (r: bool)
        ensures
            r == can_fingerprint(self@.memory.entries),
    {
        let ghost v = self@.memory.entries;
        let mut i: usize = 0;
        while i < self.short_term.entries.len()
            invariant
                i <= self.short_term.entries@.len(),
                v == self@.memory.entries,
                forall|j: int|
                    0 <= j < i && is_output(#[trigger] v[j]) ==> model::is_boundary(
                        v[j].content,
                        print_bytes(v[j].content),
                    ),
            decreases self.short_term.entries@.len() - i,
        {
            let e = &self.short_term.entries[i];
            assert(v[i as int] == e@);
            let chars = ops::chars_of(e.content.as_str());
            if e.is_tool_call && chars.len() > 0 {
                let total: usize = ops::byte_len(chars.as_slice());
                let shown: usize = if total <= 64 {
                    total
                } else {
                    64
                };
                if ops::chars_in(chars.as_slice(), shown).is_none() {
                    assert(is_output(v[i as int]));
                    return false;
                }
            }
            i = i + 1;
        }
        true
    }

    /// The fingerprints of the tools' outputs. Where an output is cut for its
    /// fingerprint, a character must begin.
    pub fn fingerprints(&self) -> (r: Vec<String>)
        requires
            can_fingerprint(self@.memory.entries),
        ensures
            model::texts(r@) == fingerprints(self@.memory.entries, self@.memory.entries.len()),
    {
        let ghost v = self@.memory.entries;
        let mut out: Vec<String> = Vec::new();
        assert(model::texts(out@) =~= Seq::empty());
        let mut i: usize = 0;
        while i < self.short_term.entries.len()
            invariant
                i <= self.short_term.entries@.len(),
                v == self@.memory.entries,
                can_fingerprint(v),
                model::texts(out@) == fingerprints(v, i as nat),
            decreases self.short_term.entries@.len() - i,
        {
            let e = &self.short_term.entries[i];
            assert(v[i as int] == e@);
            let chars = ops::chars_of(e.content.as_str());
            if e.is_tool_call && chars.len() > 0 {
                assert(is_output(v[i as int]));
                let total: usize = ops::byte_len(chars.as_slice());
                let shown: usize = if total <= 64 {
                    total
                } else {
                    64
                };
                let n: usize = match ops::chars_in(chars.as_slice(), shown) {
                    Some(n) => n,
                    None => 0,
                };
                let start = ops::string_of(ops::take(chars.as_slice(), n));
                let tool = match &e.tool_name {
                    Some(t) => t.as_str(),
                    None => "unknown",
                };
                let print = ops::concat3(tool, ":", start.as_str());
                let ghost before = out@;
                let ghost text = print@;
                out.push(print);
                assert(model::texts(out@) =~= model::texts(before).push(text));
            }
            i = i + 1;
        }
        out
    }

    /// Whether the old messages can be summarised, all but the most recent ones.
    pub fn can_collapse(&self, keep_recent: usize) -> (r: bool)
        ensures
            r == can_collapse(self@.memory.entries, keep_recent as nat),
    {
        let ghost v = self@.memory.entries;
        let n: usize = self.short_term.entries.len();
        let split: usize = if n > keep_recent {
            n - keep_recent
        } else {
            0
        };
        let mut i: usize = 0;
        while i < split
            invariant
                i <= split <= self.short_term.entries@.len(),
                split == old_count(v.len(), keep_recent as nat),
                v == self@.memory.entries,
                forall|j: int| 0 <= j < i ==> extractable((#[trigger] v[j]).content),
            decreases split - i,
        {
            assert(v[i as int] == self.short_term.entries@[i as int]@);
            if !can_extract(self.short_term.entries[i].content.as_str()) {
                return false;
            }
            i = i + 1;
        }
        true
    }

    /// Summarises the old messages, all but the most recent ones, and returns how
    /// many tokens that has saved.
    pub fn collapse_history(&mut self, keep_recent: usize) -> (r: u128)
        requires
            can_collapse(old(self)@.memory.entries, keep_recent as nat),
        ensures
            ({
                let v = old(self)@.memory.entries;
                let split = old_count(v.len(), keep_recent as nat);
                &&& final(self)@ == (StateModel {
                    memory: ShortTermModel {
                        entries: history_collapsed(v, split),
                        ..old(self)@.memory
                    },
                    ..old(self)@
                })
                &&& r == history_saving(v, split)
            }),
    {
        let ghost v = self@.memory.entries;
        let ghost m = self@;
        let n: usize = self.short_term.entries.len();
        let split: usize = if n > keep_recent {
            n - keep_recent
        } else {
            0
        };
        let ghost done = history_collapsed(v, split as nat);
        let mut total: u128 = 0;
        let mut i: usize = 0;
        assert(done.take(0) + v.skip(0) =~= v);
        while i < split
            invariant
                i <= split <= v.len(),
                self.short_term.entries@.len() == v.len(),
                done == history_collapsed(v, split as nat),
                forall|j: int| 0 <= j < split ==> extractable((#[trigger] v[j]).content),
                self@ == (StateModel {
                    memory: ShortTermModel {
                        entries: done.take(i as int) + v.skip(i as int),
                        ..m.memory
                    },
                    ..m
                }),
                total == history_saving(v, i as nat),
                total <= i * 0x1_0000_0000,
            decreases split - i,
        {
            let ghost now = self@.memory.entries;
            assert(now[i as int] == v[i as int]);
            assert(now[i as int] == self.short_term.entries@[i as int]@);
            let ghost c = collapsed(v[i as int]);
            assert(done[i as int] == c);
            if ops::text_byte_len(self.short_term.entries[i].content.as_str()) > 200 {
                let before: u32 = self.short_term.entries[i].token_count;
                assert(extractable(v[i as int].content));
                let summary = extract_content(self.short_term.entries[i].content.as_str());
                let tokens: u32 = count_tokens(summary.as_str());
                self.short_term.entries[i].content = summary;
                self.short_term.entries[i].token_count = tokens;
                assert(self.short_term.entries@[i as int]@ =~= c);
                total = total + saving_of(before, tokens) as u128;
            }
            assert(self@.memory.entries =~= now.update(i as int, c));
            assert(done.take(i + 1) + v.skip(i + 1) =~= now.update(i as int, c));
            i = i + 1;
        }
        assert(done.take(split as int) + v.skip(split as int) =~= done);
        total
    }

    /// What a compaction is answered with: `saved` is how many tokens it has
    /// saved.
    pub fn compact_result(request: CompactRequest, tokens_before: u64, saved: u128) -> (r:
        CompactResult)
        ensures
            r.session_id@ == request.session_id@,
            r.ok,
            r.tokens_before == tokens_before,
            r.tokens_after == if saved <= tokens_before {
                tokens_before - saved
            } else {
                0
            },
            r.error is None,
    {
        let after: u64 = if saved <= tokens_before as u128 {
            tokens_before - saved as u64
        } else {
            0
        };
        CompactResult {
            session_id: request.session_id,
            ok: true,
            tokens_before,
            tokens_after: after,
            error: None,
        }
    }

    /// Reads what a message carries, where the node reads it.
    pub fn read(msg: &Message) -> (r: Result<Payload, FrameError>)
        ensures
            match r {
                Ok(p) => payload::carried(reads(msg@.topic), msg@.payload) == Some(p@),
                Err(e) => {
                    &&& e == FrameError::BadPayload
                    &&& payload::carried(reads(msg@.topic), msg@.payload) is None
                },
            },
    {
        let name = ops::chars_of(msg.topic.as_str());
        let t = name.as_slice();
        let read = ops::is_text(t, "state/persist") || ops::ends_with(t, "/event");
        FrameCodec::decode_if(read, msg)
    }

    /// Takes in a message: keeps what is to be kept, and says what is to be done.
    /// `embedding` is the embedding of the message's text, and `now` the moment.
    pub fn handle_message(
        &mut self,
        topic: &Topic,
        p: &Payload,
        embedding: Vec<u32>,
        now: &str,
    ) -> (r: StateAction)
        requires
            old(self)@.memory.current_turn < u32::MAX,
            old(self)@.memory.entries.len() <= u32::MAX,
            tokens_in(old(self)@.memory.entries) <= u32::MAX,
        ensures
            topic@ == "state/persist"@ ==> {
                let line = line_for(p@, now@);
                &&& r matches StateAction::Save(e) && e@ == line
                &&& continues(
                    old(self)@.memory,
                    final(self)@.memory,
                    seq![
                        SaidModel {
                            role: line.role->0,
                            content: line.content->0,
                            token_count: line.token_count->0,
                            is_tool_call: payload::flag_or(p@, "is_tool_call"@, false),
                            embedding: embedding@,
                        },
                    ],
                )
                &&& final(self)@ == (StateModel {
                    memory: final(self)@.memory,
                    jsonl_path: match old(self)@.jsonl_path {
                        Some(j) => Some(j),
                        None => Some(journal(old(self)@.storage_root, old(self)@.session_id)),
                    },
                    ..old(self)@
                })
            },
            topic@ != "state/persist"@ ==> final(self)@ == old(self)@,
            topic@ == "state/query"@ ==> (r matches StateAction::Report(c) && reports(
                c,
                old(self)@.session_id,
                old(self)@.memory.entries,
            )),
            topic@ == "state/compact"@ ==> r is Compact,
            topic@ != "state/persist"@ && topic@ != "state/query"@ && topic@ != "state/compact"@
                ==> r is Idle,
    {
        let name = ops::chars_of(topic.as_str());
        let t = name.as_slice();
        proof {
            reveal_strlit("state/persist");
            reveal_strlit("state/query");
            reveal_strlit("state/compact");
            assert("state/persist"@.len() == 13);
            assert("state/query"@.len() == 11);
            assert("state/persist"@[6] == 'p');
            assert("state/compact"@[6] == 'c');
        }
        if ops::is_text(t, "state/persist") {
            let role = p.text_or("role", "user");
            let content = p.text_or("content", "");
            #[verifier::truncate]
            let token_count = p.number_or("token_count", 0) as u32;
            let is_tool = p.flag_or("is_tool_call", false);
            let ghost before = self@.memory;
            let id = self.short_term.store(
                String::from_str(role),
                String::from_str(content),
                token_count,
                is_tool,
                embedding,
            );
            let ghost item = SaidModel {
                role: role@,
                content: content@,
                token_count: token_count,
                is_tool_call: is_tool,
                embedding: embedding@,
            };
            proof {
                let none = Seq::<SaidModel>::empty();
                assert(before.entries.take(before.entries.len() as int) =~= before.entries);
                lemma_continue(before, before, none, item, id@);
                assert(none.push(item) =~= seq![item]);
            }
            self.init_jsonl();
            let entry = JsonlEntry {
                entry_type: if is_tool {
                    String::from_str("tool_result")
                } else {
                    String::from_str(role)
                },
                role: Some(String::from_str(role)),
                content: Some(String::from_str(content)),
                tool_call_id: StateNode::owned(p.text_at("tool_call_id")),
                tool_name: StateNode::owned(p.text_at("tool_name")),
                success: StateNode::flag(p, "success"),
                token_count: Some(token_count),
                ts: String::from_str(now),
            };
            StateAction::Save(entry)
        } else if ops::is_text(t, "state/query") {
            StateAction::Report(self.query_state())
        } else if ops::is_text(t, "state/compact") {
            StateAction::Compact
        } else {
            StateAction::Idle
        }
    }

    /// The text, if there is one.
    fn owned(s: Option<&str>) -> (r: Option<String>)
        ensures
            model::opt_text(r) == match s {
                Some(t) => Some(t@),
                None => None,
            },
    {
        match s {
            Some(t) => Some(String::from_str(t)),
            None => None,
        }
    }

    /// The flag under a name in a payload, if there is one.
    fn flag(p: &Payload, name: &str) -> (r: Option<bool>)
        ensures
            r == flag_at(p@, name@),
    {
        match p.get(name) {
            Some(payload::Field::Flag(b)) => Some(*b),
            _ => None,
        }
    }

    /// What the node is.
    pub fn node_type(&self) -> (r: NodeType)
        ensures
            r == NodeType::State,
    {
        NodeType::State
    }

    /// The node's identifier.
    pub fn node_id(&self) -> (r: &NodeId)
        ensures
            r@ == self@.id,
    {
        &self.id
    }

    /// The topics that the node listens to.
    pub fn subscriptions(&self) -> (r: Vec<String>)
        ensures
            model::texts(r@) == seq![
                "state/persist"@,
                "state/query"@,
                "state/compact"@,
                "agent/*/event"@,
                "sys/shutdown"@,
            ],
    {
        payload::strings(
            &["state/persist", "state/query", "state/compact", "agent/*/event", "sys/shutdown"],
        )
    }
}

proof fn lemma_continue(
    start: ShortTermModel,
    before: ShortTermModel,
    said: Seq<SaidModel>,
    item: SaidModel,
    id: Seq<char>,
)
    requires
        continues(start, before, said),
        before.current_turn < u32::MAX,
        outside::is_uuid_text(id),
    ensures
        continues(
            start,
            short_term::stored(
                before,
                id,
                item.role,
                item.content,
                item.token_count,
                item.is_tool_call,
                item.embedding,
            ),
            said.push(item),
        ),
{
    let after = short_term::stored(
        before,
        id,
        item.role,
        item.content,
        item.token_count,
        item.is_tool_call,
        item.embedding,
    );
    let n = start.entries.len() as int;
    assert(after.entries.take(n) =~= before.entries.take(n));
    let more = said.push(item);
    assert forall|i: int| 0 <= i < more.len() implies tells(
        #[trigger] after.entries[n + i],
        more[i],
        start.current_turn + i + 1,
    ) by {
        if i < said.len() {
            assert(after.entries[n + i] == before.entries[n + i]);
        }
    }
}

/// Compaction drops no message: each keeps its name, its turn and who it is from,
/// and only outputs of tools and old messages change.
pub proof fn law_compaction_keeps_messages(
    v: Seq<MessageModel>,
    trims: Seq<Option<Seq<char>>>,
    max_chars: nat,
    keep_recent: nat,
)
    requires
        trims.len() == v.len(),
    ensures
        ({
            let a = tools_compacted(v, trims, max_chars);
            let b = history_collapsed(a, old_count(a.len(), keep_recent));
            &&& b.len() == v.len()
            &&& forall|i: int|
                0 <= i < v.len() ==> {
                    let m = #[trigger] b[i];
                    &&& m.id == v[i].id
                    &&& m.turn == v[i].turn
                    &&& m.role == v[i].role
                    &&& !v[i].is_tool_call && i >= v.len() - keep_recent ==> m == v[i]
                }
        }),
{
}

/// A saved conversation is read back as it was: every message with its role, its text,
/// its tokens and whether it was a tool's.
pub proof fn law_saved_conversation_is_read_back(
    v: Seq<MessageModel>,
    embeddings: Seq<Vec<u32>>,
    i: int,
)
    requires
        0 <= i < v.len(),
    ensures
        ({
            let r = saved_said(v.map_values(|m: MessageModel| saved(m)), embeddings);
            &&& r.len() == v.len()
            &&& r[i].role == v[i].role
            &&& r[i].content == v[i].content
            &&& r[i].token_count == v[i].token_count
            &&& r[i].is_tool_call == v[i].is_tool_call
            &&& r[i].embedding == embeddings[i]@
        }),
{
}

/// A line of the journal is read back as what was said: with its role and text, its
/// tokens, and as a tool's where it was one.
pub proof fn law_journal_is_read_back(p: PayloadModel, now: Seq<char>, role: Seq<char>, text: Seq<char>)
    requires
        payload::text_at(p, "role"@) == Some(role),
        payload::text_at(p, "content"@) == Some(text),
    ensures
        ({
            let line = line_for(p, now);
            let tokens = payload::number_or(p, "token_count"@, 0) as u32;
            let tool = payload::flag_or(p, "is_tool_call"@, false);
            &&& line.ts == now
            &&& tool ==> said(line) == Some(("tool"@, text, tokens, true))
            &&& !tool && (role == "user"@ || role == "assistant"@ || role == "system"@) ==> said(line)
                == Some((role, text, tokens, false))
        }),
{
    reveal_strlit("user");
    reveal_strlit("assistant");
    reveal_strlit("system");
    reveal_strlit("tool_result");
    assert("user"@.len() == 4 && "assistant"@.len() == 9 && "system"@.len() == 6
        && "tool_result"@.len() == 11);
}

/// A line of another kind tells nothing; one without a role is told under its kind, and
/// one without a count gets a quarter of its bytes.
pub proof fn law_lines_are_told(e: JsonlModel, text: Seq<char>)
    requires
        e.content == Some(text),
    ensures
        e.entry_type != "user"@ && e.entry_type != "assistant"@ && e.entry_type != "system"@
            && e.entry_type != "tool_call"@ && e.entry_type != "tool_result"@ ==> said(e) is None,
        e.entry_type == "user"@ || e.entry_type == "assistant"@ || e.entry_type == "system"@ ==> {
            &&& said(e) matches Some(s)
            &&& s.1 == text
            &&& !s.3
            &&& e.role is None ==> s.0 == e.entry_type
            &&& e.role matches Some(r) ==> s.0 == r
            &&& e.token_count matches Some(n) ==> s.2 == n
            &&& e.token_count is None && model::byte_len(text) <= u32::MAX ==> s.2
                == model::byte_len(text) / 4
        },
{
}

/// The lines of a journal are told one after the other.
pub proof fn law_journal_is_told_in_order(
    v: Seq<JsonlModel>,
    embeddings: Seq<Vec<u32>>,
    n: nat,
)
    requires
        0 < n <= v.len(),
    ensures
        all_said(v, embeddings, 0).len() == 0,
        said(v[n - 1]) is None ==> all_said(v, embeddings, n) == all_said(
            v,
            embeddings,
            (n - 1) as nat,
        ),
        said(v[n - 1]) matches Some(s) ==> all_said(v, embeddings, n) == all_said(
            v,
            embeddings,
            (n - 1) as nat,
        ).push(
            SaidModel {
                role: s.0,
                content: s.1,
                token_count: s.2,
                is_tool_call: s.3,
                embedding: embeddings[n - 1]@,
            },
        ),
{
}

/// What is said is remembered after what was said before, in turns that follow.
pub proof fn law_memory_continues(
    before: ShortTermModel,
    after: ShortTermModel,
    said: Seq<SaidModel>,
    i: int,
)
    requires
        continues(before, after, said),
    ensures
        0 <= i < before.entries.len() ==> after.entries[i] == before.entries[i],
        0 <= i < said.len() ==> {
            let m = after.entries[before.entries.len() + i];
            &&& m.role == said[i].role
            &&& m.content == said[i].content
            &&& m.token_count == said[i].token_count
            &&& m.is_tool_call == said[i].is_tool_call
            &&& m.embedding == said[i].embedding
            &&& m.turn == before.current_turn + i + 1
            &&& m.recall_count == 0
        },
        after.entries.len() == before.entries.len() + said.len(),
        after.current_turn == before.current_turn + said.len(),
{
    if 0 <= i < before.entries.len() {
        assert(after.entries.take(before.entries.len() as int)[i] == after.entries[i]);
    }
    if 0 <= i < said.len() {
        assert(tells(
            after.entries[before.entries.len() + i],
            said[i],
            before.current_turn + i + 1,
        ));
    }
}

/// A report counts the messages and their tokens, and tells the last turn.
pub proof fn law_report_counts(
    c: ConversationState,
    session_id: Seq<char>,
    v: Seq<MessageModel>,
    m: MessageModel,
)
    requires
        reports(c, session_id, v.push(m)),
    ensures
        c.session_id@ == session_id,
        c.total_messages == v.len() + 1,
        c.total_tokens == tokens_in(v) + m.token_count,
        c.turn_count == m.turn,
        tokens_in(Seq::empty()) == 0,
{
    assert(v.push(m).drop_last() =~= v);
}

/// Only what tools have put out is trimmed. A long output keeps as many characters as are
/// allowed, and tells how much is gone; its tokens are counted anew.
pub proof fn law_tool_outputs_are_cut(
    v: Seq<MessageModel>,
    trims: Seq<Option<Seq<char>>>,
    max_chars: nat,
    i: int,
)
    requires
        0 <= i < v.len(),
        trims.len() == v.len(),
    ensures
        ({
            let m = tools_compacted(v, trims, max_chars)[i];
            let text = if trims[i] is Some {
                trims[i]->0
            } else {
                v[i].content
            };
            &&& tools_compacted(v, trims, max_chars).len() == v.len()
            &&& !v[i].is_tool_call || v[i].content.len() == 0 ==> m == v[i]
            &&& v[i].is_tool_call && v[i].content.len() > 0 && model::byte_len(text) <= max_chars
                ==> m.content == text
            &&& v[i].is_tool_call && v[i].content.len() > 0 && text.len() > max_chars ==> {
                &&& m.content == text.take(max_chars as int) + "\n... ["@ + model::decimal(
                    (model::byte_len(text) - max_chars) as nat,
                ) + " 字符已压缩]"@
                &&& m.token_count == (model::byte_len(m.content) / 4) as u32
            }
            &&& m.is_tool_call == v[i].is_tool_call && m.role == v[i].role
        }),
{
    let text = if trims[i] is Some {
        trims[i]->0
    } else {
        v[i].content
    };
    lemmas::lemma_byte_len_at_least(text);
}

/// A long text is collapsed to its first three sentences.
pub proof fn law_sentences_are_kept(
    a: Seq<char>,
    c: char,
    b: Seq<char>,
    d: char,
    e: Seq<char>,
    f: char,
    rest: Seq<char>,
)
    requires
        c == '.' || c == '。' || c == '\n',
        d == '.' || d == '。' || d == '\n',
        f == '.' || f == '。' || f == '\n',
        forall|i: int|
            0 <= i < a.len() ==> #[trigger] a[i] != '.' && a[i] != '。' && a[i] != '\n',
        forall|i: int|
            0 <= i < b.len() ==> #[trigger] b[i] != '.' && b[i] != '。' && b[i] != '\n',
        forall|i: int|
            0 <= i < e.len() ==> #[trigger] e[i] != '.' && e[i] != '。' && e[i] != '\n',
    ensures
        first_sentences(a) == a,
        first_sentences(a + seq![c] + (b + seq![d] + (e + seq![f] + rest))) == a + ". "@ + b + ". "@
            + e,
{
    let g = |c: char| ".。\n"@.contains(c);
    lemma_sentence_ends();
    lemma_one_sentence(a);
    lemma_one_sentence(b);
    lemma_one_sentence(e);
    let x = e + seq![f] + rest;
    let y = b + seq![d] + x;
    let s = a + seq![c] + y;
    lemmas::lemma_split_where_concat(a, c, y, g);
    lemmas::lemma_split_where_concat(b, d, x, g);
    lemmas::lemma_split_where_concat(e, f, rest, g);
    let parts = model::split_where(s, g);
    assert(parts =~= seq![a, b, e] + model::split_where(rest, g));
    lemma_split_some(rest, g);
    assert(parts.len() > 3);
    let three = parts.take(3);
    assert(three =~= seq![a, b, e]);
    assert(three.drop_last() =~= seq![a, b]);
    assert(seq![a, b].drop_last() =~= seq![a]);
    assert(model::join(seq![a], ". "@) == a);
    assert(model::join(seq![a, b], ". "@) == a + ". "@ + b);
    assert(model::join(three, ". "@) == a + ". "@ + b + ". "@ + e);
    assert(model::join(seq![a], ". "@) == a);
}

proof fn lemma_sentence_ends()
    ensures
        forall|c: char|
            #[trigger] ".。\n"@.contains(c) <==> c == '.' || c == '。' || c == '\n',
{
    reveal_strlit(".。\n");
    let s = ".。\n"@;
    assert(s.len() == 3 && s[0] == '.' && s[1] == '。' && s[2] == '\n');
    assert(s.contains('.') && s.contains('。') && s.contains('\n'));
}

proof fn lemma_one_sentence(a: Seq<char>)
    requires
        forall|i: int|
            0 <= i < a.len() ==> #[trigger] a[i] != '.' && a[i] != '。' && a[i] != '\n',
    ensures
        model::split_where(a, |c: char| ".。\n"@.contains(c)) == seq![a],
{
    let g = |c: char| ".。\n"@.contains(c);
    lemma_sentence_ends();
    lemmas::lemma_position_of(a, g, 0, a.len() as int);
}

proof fn lemma_split_some(s: Seq<char>, f: spec_fn(char) -> bool)
    ensures
        model::split_where(s, f).len() > 0,
{
}

/// The last messages are kept as they are. Of the older ones a short one is kept too, and
/// of a longer one its beginning, at most two hundred bytes of the first sentences.
pub proof fn law_history_is_collapsed(v: Seq<MessageModel>, keep_recent: nat, i: int) -> (k: int)
    requires
        0 <= i < v.len(),
        can_collapse(v, keep_recent),
    ensures
        ({
            let m = history_collapsed(v, old_count(v.len(), keep_recent))[i];
            let s = first_sentences(v[i].content);
            &&& i + keep_recent >= v.len() ==> m == v[i]
            &&& model::byte_len(v[i].content) <= 200 ==> m == v[i]
            &&& i + keep_recent < v.len() && model::byte_len(v[i].content) > 200 ==> {
                &&& 0 <= k <= s.len()
                &&& m.content == s.take(k) + "..."@
                &&& model::byte_len(s) <= 200 ==> model::byte_len(s.take(k)) == model::byte_len(s)
                &&& model::byte_len(s) > 200 ==> model::byte_len(s.take(k)) == 200
                &&& m.token_count == (model::byte_len(m.content) / 4) as u32
                &&& m.id == v[i].id && m.role == v[i].role && m.turn == v[i].turn
            }
        }),
{
    let s = first_sentences(v[i].content);
    assert(s.take(s.len() as int) =~= s);
    if i < old_count(v.len(), keep_recent) {
        assert(extractable(v[i].content));
    }
    if model::byte_len(s) > 200 {
        model::chars_in(s, 200)
    } else {
        s.len() as int
    }
}

/// Where no message grows, what a collapse saves is the difference of the tokens.
pub proof fn law_saving_is_the_difference(v: Seq<MessageModel>, n: nat)
    requires
        n <= v.len(),
        forall|i: int|
            0 <= i < n ==> history_collapsed(v, n)[i].token_count <= (#[trigger] v[i]).token_count,
    ensures
        history_saving(v, n) + tokens_in(history_collapsed(v, n)) == tokens_in(v),
{
    lemma_saving(v, n, v.len());
}

proof fn lemma_saving(v: Seq<MessageModel>, n: nat, k: nat)
    requires
        n <= v.len(),
        k <= v.len(),
        forall|i: int|
            0 <= i < n ==> history_collapsed(v, n)[i].token_count <= (#[trigger] v[i]).token_count,
    ensures
        history_saving(
            v,
            if k <= n {
                k
            } else {
                n
            },
        ) + tokens_in(history_collapsed(v, n).take(k as int)) == tokens_in(v.take(k as int)),
        history_collapsed(v, n).take(v.len() as int) == history_collapsed(v, n),
        v.take(v.len() as int) == v,
    decreases k,
{
    let w = history_collapsed(v, n);
    assert(w.take(v.len() as int) =~= w);
    assert(v.take(v.len() as int) =~= v);
    if k > 0 {
        lemma_saving(v, n, (k - 1) as nat);
        assert(w.take(k as int).drop_last() =~= w.take(k - 1));
        assert(v.take(k as int).drop_last() =~= v.take(k - 1));
        if k <= n {
            assert(w[k - 1].token_count <= v[k - 1].token_count);
        }
    }
}

/// A tool's output is known by the name of the tool and its first sixty-four bytes.
pub proof fn law_output_is_known_by_its_beginning(m: MessageModel) -> (k: int)
    requires
        model::byte_len(m.content) <= 64 || model::is_boundary(m.content, 64),
    ensures
        0 <= k <= m.content.len(),
        model::byte_len(m.content) <= 64 ==> model::byte_len(m.content.take(k)) == model::byte_len(
            m.content,
        ),
        model::byte_len(m.content) > 64 ==> model::byte_len(m.content.take(k)) == 64,
        fingerprint(m) == (if m.tool_name is Some {
            m.tool_name->0
        } else {
            "unknown"@
        }) + ":"@ + m.content.take(k),
{
    assert(m.content.take(m.content.len() as int) =~= m.content);
    assert(model::is_boundary(m.content, print_bytes(m.content)));
    model::chars_in(m.content, print_bytes(m.content))
}

/// Where neither trimming nor cutting makes a message longer, what they save is the
/// difference of the tokens.
pub proof fn law_tools_save_the_difference(
    v: Seq<MessageModel>,
    trims: Seq<Option<Seq<char>>>,
    max_chars: nat,
    n: nat,
)
    requires
        n <= v.len(),
        v.len() == trims.len(),
        forall|i: int|
            0 <= i < n ==> trimmed(#[trigger] v[i], trims[i]).token_count <= v[i].token_count,
        forall|i: int|
            0 <= i < n ==> tools_compacted(v, trims, max_chars)[i].token_count <= trimmed(
                #[trigger] v[i],
                trims[i],
            ).token_count,
    ensures
        tools_saving(v, trims, max_chars, n) + tokens_in(
            tools_compacted(v, trims, max_chars).take(n as int),
        ) == tokens_in(v.take(n as int)),
    decreases n,
{
    let w = tools_compacted(v, trims, max_chars);
    if n > 0 {
        law_tools_save_the_difference(v, trims, max_chars, (n - 1) as nat);
        assert(w.take(n as int).drop_last() =~= w.take(n - 1));
        assert(v.take(n as int).drop_last() =~= v.take(n - 1));
        assert(w.take(n as int).last() == w[n - 1]);
        assert(v.take(n as int).last() == v[n - 1]);
        assert(trimmed(v[n - 1], trims[n - 1]).token_count <= v[n - 1].token_count);
        assert(w[n - 1].token_count <= trimmed(v[n - 1], trims[n - 1]).token_count);
    }
}

/// Every output of a tool that is not empty has a fingerprint, in the order of the
/// messages, and nothing else has one.
pub proof fn law_outputs_have_fingerprints(v: Seq<MessageModel>, n: nat)
    requires
        0 < n <= v.len(),
    ensures
        fingerprints(v, 0).len() == 0,
        v[n - 1].is_tool_call && v[n - 1].content.len() > 0 ==> fingerprints(v, n).drop_last()
            == fingerprints(v, (n - 1) as nat) && fingerprints(v, n).last() == fingerprint(v[n - 1])
            && fingerprints(v, n).len() > 0,
        !v[n - 1].is_tool_call || v[n - 1].content.len() == 0 ==> fingerprints(v, n)
            == fingerprints(v, (n - 1) as nat),
{
    if is_output(v[n - 1]) {
        let w = fingerprints(v, (n - 1) as nat);
        assert(w.push(fingerprint(v[n - 1])).drop_last() =~= w);
    }
}

/// What is to be kept is read, and so is what happens; nothing else is.
pub proof fn law_kept_messages_are_read(agent: Seq<char>, topic: Seq<char>)
    ensures
        reads("state/persist"@),
        reads("agent/"@ + agent + "/event"@),
        topic != "state/persist"@ && !model::ends_with(topic, "/event"@) ==> !reads(topic),
{
    let s = "agent/"@ + agent + "/event"@;
    assert(s.skip(s.len() - "/event"@.len()) =~= "/event"@);
}

/// The journal of a session stands in the session's own directory under the root.
pub proof fn law_journal_stands_in_its_session(root: Seq<char>, session_id: Seq<char>)
    requires
        path::is_plain(session_id),
    ensures
        path::file_name(journal(root, session_id)) == Some("conversation.jsonl"@),
        path::parts(journal(root, session_id)) == path::parts(root).push(session_id).push(
            "conversation.jsonl"@,
        ),
{
    reveal_strlit("conversation.jsonl");
    reveal_strlit(".");
    reveal_strlit("..");
    assert("conversation.jsonl"@.len() == 18 && "."@.len() == 1 && ".."@.len() == 2);
    path::law_joined_name_is_the_file(root, session_id);
    path::law_joined_name_is_the_file(path::join(root, session_id), "conversation.jsonl"@);
}

} // verus!

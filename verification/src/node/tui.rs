//! The terminal: shows what the agent says and does, and takes what the user
//! types.
//!
//! What is to be seen is decided here; it is drawn by the caller.

use crate::message::frame::{FrameCodec, FrameError, Message};
use crate::message::topic::Topic;
use crate::node::payload;
use crate::node::payload::{Outgoing, OutgoingModel, Payload, PayloadModel, Plane};
use crate::node::{NodeId, NodeType};
use crate::text::{lemmas, model, ops};
use vstd::prelude::*;
use vstd::string::*;

verus! {

/// How many tools are remembered.
pub const MAX_TOOL_CARDS: usize = 10;

/// How many tools are shown.
pub const SHOWN_TOOL_CARDS: usize = 5;

/// What the agent is doing.
#[derive(Debug, Clone, Copy, PartialEq, Eq, Structural)]
pub enum AgentStatus {
    Idle,
    Thinking,
    Outputting,
    ToolCalling,
    Error,
}

/// The wheel that turns while the agent thinks.
pub open spec fn spinner(frame: usize) -> Seq<char> {
    if frame % 4 == 0 {
        "◐"@
    } else if frame % 4 == 1 {
        "◓"@
    } else if frame % 4 == 2 {
        "◑"@
    } else {
        "◒"@
    }
}

/// How a status is shown.
pub open spec fn status_text(s: AgentStatus, frame: usize) -> Seq<char> {
    match s {
        AgentStatus::Idle => "● idle"@,
        AgentStatus::Thinking => spinner(frame) + " thinking"@,
        AgentStatus::Outputting => "◉ outputting"@,
        AgentStatus::ToolCalling => "⚙ tool_calling"@,
        AgentStatus::Error => "✕ error"@,
    }
}

impl AgentStatus {
    /// How the status is shown; `frame` counts the pictures that were drawn.
    pub fn animated_display(&self, frame: usize) -> (r: String)
        ensures
            r@ == status_text(*self, frame),
    {
        match self {
            AgentStatus::Idle => String::from_str("● idle"),
            AgentStatus::Thinking => {
                let wheel = if frame % 4 == 0 {
                    "◐"
                } else if frame % 4 == 1 {
                    "◓"
                } else if frame % 4 == 2 {
                    "◑"
                } else {
                    "◒"
                };
                ops::concat2(wheel, " thinking")
            },
            AgentStatus::Outputting => String::from_str("◉ outputting"),
            AgentStatus::ToolCalling => String::from_str("⚙ tool_calling"),
            AgentStatus::Error => String::from_str("✕ error"),
        }
    }
}

/// How far a tool is.
#[derive(Debug, Clone, Copy, PartialEq, Eq, Structural)]
pub enum ToolStatus {
    Running,
    Done,
    Failed,
}

impl ToolStatus {
    /// The sign for how far a tool is.
    pub fn icon(&self) -> (r: &'static str)
        ensures
            r@ == match *self {
                ToolStatus::Running => "⏳"@,
                ToolStatus::Done => "✅"@,
                ToolStatus::Failed => "❌"@,
            },
    {
        match self {
            ToolStatus::Running => "⏳",
            ToolStatus::Done => "✅",
            ToolStatus::Failed => "❌",
        }
    }
}

/// What is shown of a tool.
#[derive(Debug)]
pub struct ToolCard {
    pub name: String,
    pub status: ToolStatus,
    pub result_summary: String,
    /// When it was begun, in milliseconds.
    pub started_at: Option<u64>,
    /// How long it has taken, in milliseconds.
    pub elapsed: Option<u64>,
}

/// What a card holds.
#[verifier::ext_equal]
pub struct CardModel {
    pub name: Seq<char>,
    pub status: ToolStatus,
    pub summary: Seq<char>,
    pub started_at: Option<u64>,
    pub elapsed: Option<u64>,
}

impl View for ToolCard {
    type V = CardModel;

    open spec fn view(&self) -> CardModel {
        CardModel {
            name: self.name@,
            status: self.status,
            summary: self.result_summary@,
            started_at: self.started_at,
            elapsed: self.elapsed,
        }
    }
}

/// The cards that a list holds.
pub open spec fn card_models(v: Seq<ToolCard>) -> Seq<CardModel> {
    v.map_values(|c: ToolCard| c@)
}

/// What is shown of a result: 25 bytes of it.
pub open spec fn card_text(summary: Seq<char>) -> Seq<char> {
    if model::byte_len(summary) > 25 {
        summary.take(model::chars_in(summary, 25)) + "..."@
    } else {
        summary
    }
}

impl ToolCard {
    /// What is shown of the result. Where it is cut, no character may stand.
    pub fn summary_text(&self) -> (r: String)
        requires
            model::byte_len(self@.summary) > 25 ==> model::is_boundary(self@.summary, 25),
        ensures
            r@ == card_text(self@.summary),
    {
        let text = self.result_summary.as_str();
        if ops::text_byte_len(text) > 25 {
            let chars = ops::chars_of(text);
            match ops::chars_in(chars.as_slice(), 25) {
                Some(k) => {
                    let kept = ops::string_of(ops::take(chars.as_slice(), k));
                    ops::concat2(kept.as_str(), "...")
                },
                None => String::new(),
            }
        } else {
            self.result_summary.clone()
        }
    }
}

/// How a line of a change is shown.
#[derive(Debug, Clone, Copy, PartialEq, Eq, Structural)]
pub enum DiffLine {
    Added,
    Removed,
    Place,
    Plain,
}

/// How a line of a change is shown.
pub open spec fn diff_kind(line: Seq<char>) -> DiffLine {
    if model::starts_with(line, "+"@) {
        DiffLine::Added
    } else if model::starts_with(line, "-"@) {
        DiffLine::Removed
    } else if model::starts_with(line, "@@"@) {
        DiffLine::Place
    } else {
        DiffLine::Plain
    }
}

/// How a line of a change is shown.
pub fn diff_line_kind(line: &str) -> (r: DiffLine)
    ensures
        r == diff_kind(line@),
{
    let chars = ops::chars_of(line);
    let s = chars.as_slice();
    if ops::starts_with(s, "+") {
        DiffLine::Added
    } else if ops::starts_with(s, "-") {
        DiffLine::Removed
    } else if ops::starts_with(s, "@@") {
        DiffLine::Place
    } else {
        DiffLine::Plain
    }
}

/// A part of what the agent has said.
#[derive(Debug)]
pub enum OutputPart {
    /// A line of text.
    Line(String),
    /// The line that opens a block of code.
    Fence(String),
    /// A block of code: its language, its lines, and whether it is closed.
    Code(String, Vec<String>, bool),
}

/// What a part holds.
#[verifier::ext_equal]
pub enum PartModel {
    Line(Seq<char>),
    Fence(Seq<char>),
    Code(Seq<char>, Seq<Seq<char>>, bool),
}

impl View for OutputPart {
    type V = PartModel;

    open spec fn view(&self) -> PartModel {
        match *self {
            OutputPart::Line(s) => PartModel::Line(s@),
            OutputPart::Fence(s) => PartModel::Fence(s@),
            OutputPart::Code(l, v, closed) => PartModel::Code(l@, model::texts(v@), closed),
        }
    }
}

/// The parts that a list holds.
pub open spec fn part_models(v: Seq<OutputPart>) -> Seq<PartModel> {
    v.map_values(|p: OutputPart| p@)
}

/// What is known while the lines are read: the parts so far, and the block of
/// code that is open with its language and its lines.
#[verifier::ext_equal]
pub struct Reading {
    pub parts: Seq<PartModel>,
    pub code: Option<(Seq<char>, Seq<Seq<char>>)>,
}

/// What is known after one more line.
pub open spec fn read_line(r: Reading, line: Seq<char>) -> Reading {
    let t = model::trim(line);
    if model::starts_with(t, "```"@) {
        match r.code {
            Some((lang, lines)) => Reading {
                parts: r.parts.push(PartModel::Code(lang, lines, true)),
                code: None,
            },
            None => Reading {
                parts: r.parts.push(PartModel::Fence(line)),
                code: Some((model::trim(t.skip(3)), Seq::empty())),
            },
        }
    } else {
        match r.code {
            Some((lang, lines)) => Reading { code: Some((lang, lines.push(line))), ..r },
            None => Reading { parts: r.parts.push(PartModel::Line(line)), ..r },
        }
    }
}

/// What is known after the first `n` lines.
pub open spec fn read_lines(v: Seq<Seq<char>>, n: nat) -> Reading
    decreases n,
{
    if n == 0 {
        Reading { parts: Seq::empty(), code: None }
    } else {
        read_line(read_lines(v, (n - 1) as nat), v[n - 1])
    }
}

/// The parts of what the agent has said. A block that is not closed is shown
/// unless it is empty.
pub open spec fn parts_of(output: Seq<char>) -> Seq<PartModel> {
    let r = read_lines(model::lines(output), model::lines(output).len());
    match r.code {
        Some((lang, lines)) => if lines.len() > 0 {
            r.parts.push(PartModel::Code(lang, lines, false))
        } else {
            r.parts
        },
        None => r.parts,
    }
}

/// The first line that is shown of `total` lines: all are where they have room,
/// and the view never goes past the last of them.
pub open spec fn first_shown(total: usize, offset: usize, height: usize) -> usize {
    if total <= height {
        0
    } else if offset < total - height {
        offset
    } else {
        (total - height) as usize
    }
}

/// The first line that is shown of `total` lines.
pub fn apply_scroll_offset(total: usize, scroll_offset: usize, viewport_height: usize) -> (r: usize)
    ensures
        r == first_shown(total, scroll_offset, viewport_height),
        r <= total,
{
    if total <= viewport_height {
        0
    } else if scroll_offset < total - viewport_height {
        scroll_offset
    } else {
        total - viewport_height
    }
}

/// A key that was pressed.
#[derive(Debug, Clone, Copy, PartialEq, Eq, Structural)]
pub enum Key {
    /// Enter together with Ctrl.
    NewLine,
    Enter,
    Up,
    Down,
    PageUp,
    PageDown,
    Char(char),
    Backspace,
    Tab,
    Esc,
    Other,
}

/// What follows a key.
#[derive(Debug)]
pub enum KeyStep {
    Nothing,
    /// The picture is drawn.
    Render,
    /// The input is sent, and the picture is drawn.
    Send(Outgoing),
    /// The terminal is left.
    Quit,
}

/// What follows a key.
#[verifier::ext_equal]
pub enum KeyModel {
    Nothing,
    Render,
    Send(OutgoingModel),
    Quit,
}

impl View for KeyStep {
    type V = KeyModel;

    open spec fn view(&self) -> KeyModel {
        match *self {
            KeyStep::Nothing => KeyModel::Nothing,
            KeyStep::Render => KeyModel::Render,
            KeyStep::Send(o) => KeyModel::Send(o@),
            KeyStep::Quit => KeyModel::Quit,
        }
    }
}

/// What follows a message.
#[derive(Debug)]
pub enum Shown {
    Nothing,
    /// The picture is drawn; without a terminal, the text is written.
    Output(String),
    /// The picture is drawn.
    Changed,
    /// The terminal is left.
    Restore,
}

/// What follows a message.
#[verifier::ext_equal]
pub enum ShownModel {
    Nothing,
    Output(Seq<char>),
    Changed,
    Restore,
}

impl View for Shown {
    type V = ShownModel;

    open spec fn view(&self) -> ShownModel {
        match *self {
            Shown::Nothing => ShownModel::Nothing,
            Shown::Output(s) => ShownModel::Output(s@),
            Shown::Changed => ShownModel::Changed,
            Shown::Restore => ShownModel::Restore,
        }
    }
}

/// What the terminal shows.
#[derive(Debug)]
pub struct TUINode {
    pub id: NodeId,
    /// The agent that is shown.
    pub primary_agent_id: Option<String>,
    pub agent_status: AgentStatus,
    /// What the agent has said.
    pub output_buffer: String,
    pub tool_status: String,
    pub scroll_offset: usize,
    /// What the user is typing.
    pub input_buffer: String,
    /// What the user has typed.
    pub input_history: Vec<String>,
    /// Which earlier input is shown.
    pub history_index: Option<usize>,
    pub tool_cards: Vec<ToolCard>,
    /// The last change of a file.
    pub diff_content: String,
    /// Whether the change is shown in place of what the agent has said.
    pub show_diff: bool,
    /// Counts the pictures that were drawn.
    pub frame_counter: usize,
    pub total_input_tokens: usize,
    pub total_output_tokens: usize,
    /// When the turn was begun, in milliseconds.
    pub turn_started: Option<u64>,
}

/// What the terminal holds.
#[verifier::ext_equal]
pub struct TuiModel {
    pub id: Seq<char>,
    pub agent: Option<Seq<char>>,
    pub status: AgentStatus,
    pub output: Seq<char>,
    pub tool_status: Seq<char>,
    pub scroll: usize,
    pub input: Seq<char>,
    pub history: Seq<Seq<char>>,
    pub index: Option<usize>,
    pub cards: Seq<CardModel>,
    pub diff: Seq<char>,
    pub show_diff: bool,
    pub frame: usize,
    pub input_tokens: usize,
    pub output_tokens: usize,
    pub turn_started: Option<u64>,
}

impl View for TUINode {
    type V = TuiModel;

    open spec fn view(&self) -> TuiModel {
        TuiModel {
            id: self.id@,
            agent: model::opt_text(self.primary_agent_id),
            status: self.agent_status,
            output: self.output_buffer@,
            tool_status: self.tool_status@,
            scroll: self.scroll_offset,
            input: self.input_buffer@,
            history: model::texts(self.input_history@),
            index: self.history_index,
            cards: card_models(self.tool_cards@),
            diff: self.diff_content@,
            show_diff: self.show_diff,
            frame: self.frame_counter,
            input_tokens: self.total_input_tokens,
            output_tokens: self.total_output_tokens,
            turn_started: self.turn_started,
        }
    }
}

/// Whether the earlier input that is shown exists.
pub open spec fn index_fits(m: TuiModel) -> bool {
    match m.index {
        Some(i) => i < m.history.len(),
        None => true,
    }
}

/// A terminal that shows nothing.
pub open spec fn blank(id: Seq<char>) -> TuiModel {
    TuiModel {
        id: id,
        agent: None,
        status: AgentStatus::Idle,
        output: Seq::empty(),
        tool_status: Seq::empty(),
        scroll: 0,
        input: Seq::empty(),
        history: Seq::empty(),
        index: None,
        cards: Seq::empty(),
        diff: Seq::empty(),
        show_diff: false,
        frame: 0,
        input_tokens: 0,
        output_tokens: 0,
        turn_started: None,
    }
}

/// What is sent when the user has typed something.
pub open spec fn typed(agent: Seq<char>, input: Seq<char>) -> OutgoingModel {
    payload::sent(
        "agent/"@ + agent + "/input"@,
        PayloadModel::empty().push(payload::text_field("role"@, "user"@)).push(
            payload::text_field("content"@, input),
        ),
    )
}

/// The number less ten, and never below zero.
pub open spec fn less_ten(n: usize) -> usize {
    if n >= 10 {
        (n - 10) as usize
    } else {
        0
    }
}

/// The number and ten more, as far as there is room.
pub open spec fn plus_ten(n: usize) -> usize {
    if n + 10 <= usize::MAX {
        (n + 10) as usize
    } else {
        usize::MAX
    }
}

/// The terminal after a key.
pub open spec fn pressed(m: TuiModel, key: Key) -> TuiModel {
    match key {
        Key::NewLine => TuiModel { input: m.input.push('\n'), ..m },
        Key::Enter => if m.input.len() > 0 {
            TuiModel {
                history: m.history.push(m.input),
                index: None,
                input: Seq::empty(),
                ..m
            }
        } else {
            m
        },
        Key::Up => if m.history.len() > 0 {
            let i = match m.index {
                Some(i) if i > 0 => (i - 1) as usize,
                _ => (m.history.len() - 1) as usize,
            };
            TuiModel { input: m.history[i as int], index: Some(i), ..m }
        } else {
            m
        },
        Key::Down => match m.index {
            Some(i) => if i + 1 < m.history.len() {
                TuiModel { input: m.history[i + 1], index: Some((i + 1) as usize), ..m }
            } else {
                TuiModel { input: Seq::empty(), index: None, ..m }
            },
            None => m,
        },
        Key::PageUp => TuiModel { scroll: plus_ten(m.scroll), ..m },
        Key::PageDown => TuiModel { scroll: less_ten(m.scroll), ..m },
        Key::Char(c) => TuiModel { input: m.input.push(c), ..m },
        Key::Backspace => TuiModel {
            input: if m.input.len() > 0 {
                m.input.drop_last()
            } else {
                m.input
            },
            ..m
        },
        Key::Tab => TuiModel { show_diff: !m.show_diff, ..m },
        Key::Esc => m,
        Key::Other => m,
    }
}

/// What follows a key.
pub open spec fn key_step(m: TuiModel, key: Key) -> KeyModel {
    match key {
        Key::Enter => if m.input.len() > 0 {
            match m.agent {
                Some(a) => KeyModel::Send(typed(a, m.input)),
                None => KeyModel::Render,
            }
        } else {
            KeyModel::Nothing
        },
        Key::PageUp => KeyModel::Render,
        Key::PageDown => KeyModel::Render,
        Key::Tab => KeyModel::Render,
        Key::Esc => KeyModel::Quit,
        _ => KeyModel::Nothing,
    }
}

/// The last of the first `n` cards that stands for a running tool of a name.
pub open spec fn running_card(v: Seq<CardModel>, name: Seq<char>, n: nat) -> Option<int>
    decreases n,
{
    if n == 0 {
        None
    } else if v[n - 1].name == name && v[n - 1].status == ToolStatus::Running {
        Some(n - 1)
    } else {
        running_card(v, name, (n - 1) as nat)
    }
}

/// The first line of an output.
pub open spec fn first_line(output: Seq<char>) -> Seq<char> {
    if model::lines(output).len() > 0 {
        model::lines(output)[0]
    } else {
        Seq::empty()
    }
}

/// How far a tool is that has ended.
pub open spec fn end_status(success: bool) -> ToolStatus {
    if success {
        ToolStatus::Done
    } else {
        ToolStatus::Failed
    }
}

/// How much time has passed.
pub open spec fn passed(now: u64, since: u64) -> u64 {
    if now >= since {
        (now - since) as u64
    } else {
        0
    }
}

/// The cards after a tool has ended: that of the tool is brought up to date, or a
/// new one is added.
pub open spec fn ended_cards(
    v: Seq<CardModel>,
    name: Seq<char>,
    output: Seq<char>,
    success: bool,
    now: u64,
) -> Seq<CardModel> {
    match running_card(v, name, v.len()) {
        Some(i) => v.update(
            i,
            CardModel {
                status: end_status(success),
                elapsed: match v[i].started_at {
                    Some(t) => Some(passed(now, t)),
                    None => None,
                },
                summary: first_line(output),
                ..v[i]
            },
        ),
        None => v.push(
            CardModel {
                name: name,
                status: end_status(success),
                summary: first_line(output),
                started_at: None,
                elapsed: None,
            },
        ),
    }
}

/// The cards without the first where there are too many.
pub open spec fn bounded_cards(v: Seq<CardModel>) -> Seq<CardModel> {
    if v.len() > MAX_TOOL_CARDS {
        v.skip(1)
    } else {
        v
    }
}

/// The change of a file that a tool's output holds, if it holds one.
pub open spec fn diff_in(tool: Seq<char>, output: Seq<char>) -> Option<Seq<char>> {
    if tool == "write"@ || tool == "edit"@ || tool == "write_file"@ {
        if model::contains(output, "@@"@) && (model::contains(output, "---"@) || model::contains(
            output,
            "+++"@,
        )) {
            Some(output)
        } else {
            match model::find(output, "```diff"@) {
                Some(i) => match model::find(output.skip(i + 7), "```"@) {
                    Some(j) => Some(output.skip(i + 7).take(j)),
                    None => None,
                },
                None => None,
            }
        }
    } else {
        None
    }
}

/// The terminal with the change of a file that a tool's output holds.
pub open spec fn with_diff(m: TuiModel, tool: Seq<char>, output: Seq<char>) -> TuiModel {
    match diff_in(tool, output) {
        Some(d) => TuiModel { diff: d, show_diff: true, ..m },
        None => m,
    }
}

/// The status that a name stands for.
pub open spec fn status_of(name: Seq<char>) -> AgentStatus {
    if name == "thinking"@ {
        AgentStatus::Thinking
    } else if name == "outputting"@ {
        AgentStatus::Outputting
    } else if name == "tool_calling"@ {
        AgentStatus::ToolCalling
    } else if name == "error"@ {
        AgentStatus::Error
    } else {
        AgentStatus::Idle
    }
}

/// What a message is about.
#[derive(Debug, Clone, Copy, PartialEq, Eq, Structural)]
pub enum TuiTopic {
    Output,
    ToolResult,
    Event,
    ToolCall,
    Shutdown,
    Other,
}

/// What a message on a topic is about.
pub open spec fn topic_kind(topic: Seq<char>) -> TuiTopic {
    if model::ends_with(topic, "/output"@) {
        TuiTopic::Output
    } else if model::ends_with(topic, "/tool_result"@) {
        TuiTopic::ToolResult
    } else if model::ends_with(topic, "/event"@) {
        TuiTopic::Event
    } else if model::ends_with(topic, "/tool_call"@) {
        TuiTopic::ToolCall
    } else if topic == "sys/shutdown"@ {
        TuiTopic::Shutdown
    } else {
        TuiTopic::Other
    }
}

/// Whether what a message carries is read.
pub open spec fn reads(topic: Seq<char>) -> bool {
    topic_kind(topic) != TuiTopic::Shutdown && topic_kind(topic) != TuiTopic::Other
}

/// The terminal after the agent has said something.
pub open spec fn spoken(m: TuiModel, p: PayloadModel, now: u64) -> TuiModel {
    match payload::text_at(p, "content"@) {
        Some(s) => TuiModel {
            turn_started: match m.turn_started {
                Some(t) => Some(t),
                None => Some(now),
            },
            status: AgentStatus::Outputting,
            output: m.output + s,
            ..m
        },
        None => m,
    }
}

/// The terminal after a tool has ended.
pub open spec fn resulted(m: TuiModel, p: PayloadModel, now: u64) -> TuiModel {
    let tool = payload::text_or(p, "tool_name"@, "unknown"@);
    let output = payload::text_or(p, "output"@, ""@);
    let success = payload::flag_or(p, "success"@, true);
    with_diff(
        TuiModel {
            cards: bounded_cards(ended_cards(m.cards, tool, output, success, now)),
            ..m
        },
        tool,
        output,
    )
}

/// How many tokens an event tells of.
pub open spec fn tokens_in(p: PayloadModel, name: Seq<char>) -> usize {
    payload::number_or(p, name, 0) as usize
}

/// The terminal after the agent has told of its state.
pub open spec fn told(m: TuiModel, p: PayloadModel) -> TuiModel {
    let a = match payload::text_at(p, "state"@) {
        Some(s) => TuiModel {
            status: status_of(s),
            turn_started: if s == "idle"@ {
                None
            } else {
                m.turn_started
            },
            ..m
        },
        None => m,
    };
    TuiModel {
        tool_status: payload::text_or(p, "tool"@, a.tool_status),
        input_tokens: (a.input_tokens + tokens_in(p, "input_tokens"@)) as usize,
        output_tokens: (a.output_tokens + tokens_in(p, "output_tokens"@)) as usize,
        ..a
    }
}

/// Whether the tokens can still be counted after an event.
pub open spec fn can_count(m: TuiModel, p: PayloadModel) -> bool {
    m.input_tokens + tokens_in(p, "input_tokens"@) <= usize::MAX && m.output_tokens + tokens_in(
        p,
        "output_tokens"@,
    ) <= usize::MAX
}

/// The terminal after a tool was called.
pub open spec fn called(m: TuiModel, p: PayloadModel, now: u64) -> TuiModel {
    match payload::text_at(p, "tool_name"@) {
        Some(t) => TuiModel {
            status: AgentStatus::ToolCalling,
            tool_status: t,
            cards: m.cards.push(
                CardModel {
                    name: t,
                    status: ToolStatus::Running,
                    summary: "执行中..."@,
                    started_at: Some(now),
                    elapsed: None,
                },
            ),
            ..m
        },
        None => m,
    }
}

/// The terminal after a message.
pub open spec fn handled(m: TuiModel, topic: Seq<char>, p: PayloadModel, now: u64) -> TuiModel {
    match topic_kind(topic) {
        TuiTopic::Output => spoken(m, p, now),
        TuiTopic::ToolResult => resulted(m, p, now),
        TuiTopic::Event => told(m, p),
        TuiTopic::ToolCall => called(m, p, now),
        TuiTopic::Shutdown => m,
        TuiTopic::Other => m,
    }
}

/// What follows a message.
pub open spec fn shown(topic: Seq<char>, p: PayloadModel) -> ShownModel {
    match topic_kind(topic) {
        TuiTopic::Output => match payload::text_at(p, "content"@) {
            Some(s) => ShownModel::Output(s),
            None => ShownModel::Nothing,
        },
        TuiTopic::ToolResult => ShownModel::Changed,
        TuiTopic::Event => ShownModel::Changed,
        TuiTopic::ToolCall => if payload::text_at(p, "tool_name"@) is Some {
            ShownModel::Changed
        } else {
            ShownModel::Nothing
        },
        TuiTopic::Shutdown => ShownModel::Restore,
        TuiTopic::Other => ShownModel::Nothing,
    }
}

/// The terminal after a node was started: the first agent is the one that is
/// shown.
pub open spec fn spawned(m: TuiModel, p: PayloadModel) -> TuiModel {
    let kind = payload::text_at(p, "node_type"@);
    let id = payload::text_at(p, "node_id"@);
    if m.agent is None && (kind == Some("agent"@) || kind == Some("thinker"@)) && id is Some {
        TuiModel { agent: id, ..m }
    } else {
        m
    }
}

/// The topics that the terminal listens to.
pub open spec fn topics(agent: Seq<char>) -> Seq<Seq<char>> {
    seq![
        "sys/shutdown"@,
        "sys/spawn"@,
        "agent/"@ + agent + "/output"@,
        "agent/"@ + agent + "/event"@,
        "agent/"@ + agent + "/tool_call"@,
        "agent/"@ + agent + "/tool_result"@,
    ]
}

/// What a message on a topic is about.
fn kind_of(topic: &Topic) -> (r: TuiTopic)
    ensures
        r == topic_kind(topic@),
{
    let name = ops::chars_of(topic.as_str());
    let t = name.as_slice();
    if ops::ends_with(t, "/output") {
        TuiTopic::Output
    } else if ops::ends_with(t, "/tool_result") {
        TuiTopic::ToolResult
    } else if ops::ends_with(t, "/event") {
        TuiTopic::Event
    } else if ops::ends_with(t, "/tool_call") {
        TuiTopic::ToolCall
    } else if ops::is_text(t, "sys/shutdown") {
        TuiTopic::Shutdown
    } else {
        TuiTopic::Other
    }
}

/// The first line of an output.
fn leading_line(output: &str) -> (r: String)
    ensures
        r@ == first_line(output@),
{
    let chars = ops::chars_of(output);
    let lines = ops::lines(chars.as_slice());
    assert(model::slices(lines@).len() == lines@.len());
    if lines.len() > 0 {
        assert(model::slices(lines@)[0] == lines@[0]@);
        ops::string_of(lines[0])
    } else {
        let s = String::new();
        assert(s@ =~= Seq::empty());
        s
    }
}

/// The change of a file that a tool's output holds, if it holds one.
fn find_diff(tool_name: &str, output: &str) -> (r: Option<String>)
    ensures
        model::opt_text(r) == diff_in(tool_name@, output@),
{
    let changes = ops::same_text(tool_name, "write") || ops::same_text(tool_name, "edit")
        || ops::same_text(tool_name, "write_file");
    if !changes {
        return None;
    }
    let chars = ops::chars_of(output);
    let s = chars.as_slice();
    if ops::contains(s, "@@") && (ops::contains(s, "---") || ops::contains(s, "+++")) {
        return Some(String::from_str(output));
    }
    proof {
        reveal_strlit("```diff");
    }
    match ops::find(s, "```diff") {
        Some(i) => {
            let total: usize = s.len();
            if total < 7 || i > total - 7 {
                return None;
            }
            let rest = ops::skip(s, i + 7);
            match ops::find(rest, "```") {
                Some(j) => Some(ops::string_of(ops::take(rest, j))),
                None => None,
            }
        },
        None => None,
    }
}

/// The parts of what the agent has said.
pub fn output_parts(output: &str) -> (r: Vec<OutputPart>)
    ensures
        part_models(r@) == parts_of(output@),
{
    let chars = ops::chars_of(output);
    let lines = ops::lines(chars.as_slice());
    let ghost all = model::lines(output@);
    assert(all.len() == lines@.len());
    let mut parts: Vec<OutputPart> = Vec::new();
    let mut in_code = false;
    let mut lang = String::new();
    let mut code: Vec<String> = Vec::new();
    assert(part_models(parts@) =~= Seq::empty());
    assert(model::texts(code@) =~= Seq::empty());
    let mut i: usize = 0;
    while i < lines.len()
        invariant
            i <= lines@.len(),
            all == model::slices(lines@),
            !in_code ==> code@.len() == 0,
            read_lines(all, i as nat) == (Reading {
                parts: part_models(parts@),
                code: if in_code {
                    Some((lang@, model::texts(code@)))
                } else {
                    None
                },
            }),
        decreases lines@.len() - i,
    {
        assert(all[i as int] == lines@[i as int]@);
        let ghost before = part_models(parts@);
        let line = lines[i];
        let trimmed = ops::trim(line);
        if ops::starts_with(trimmed, "```") {
            proof {
                reveal_strlit("```");
            }
            if in_code {
                let mut taken: Vec<String> = Vec::new();
                std::mem::swap(&mut taken, &mut code);
                let part = OutputPart::Code(lang.clone(), taken, true);
                let ghost shown = part@;
                parts.push(part);
                in_code = false;
                assert(part_models(parts@) =~= before.push(shown));
            } else {
                let part = OutputPart::Fence(ops::string_of(line));
                let ghost shown = part@;
                parts.push(part);
                in_code = true;
                lang = ops::string_of(ops::trim(ops::skip(trimmed, 3)));
                assert(part_models(parts@) =~= before.push(shown));
                assert(model::texts(code@) =~= Seq::empty());
            }
        } else if in_code {
            let ghost held = model::texts(code@);
            let item = ops::string_of(line);
            let ghost shown = item@;
            code.push(item);
            assert(model::texts(code@) =~= held.push(shown));
        } else {
            let part = OutputPart::Line(ops::string_of(line));
            let ghost shown = part@;
            parts.push(part);
            assert(part_models(parts@) =~= before.push(shown));
        }
        i = i + 1;
    }
    assert(model::texts(code@).len() == code@.len());
    if in_code && code.len() > 0 {
        let ghost before = part_models(parts@);
        let part = OutputPart::Code(lang, code, false);
        let ghost shown = part@;
        parts.push(part);
        assert(part_models(parts@) =~= before.push(shown));
    }
    parts
}

impl TUINode {
    /// The earlier input that is shown exists.
    pub open spec fn wf(&self) -> bool {
        index_fits(self@)
    }

    /// A terminal that shows nothing.
    pub fn new(id: NodeId) -> (r: Self)
        ensures
            r.wf(),
            r@ == blank(id@),
    {
        let r = TUINode {
            id,
            primary_agent_id: None,
            agent_status: AgentStatus::Idle,
            output_buffer: String::new(),
            tool_status: String::new(),
            scroll_offset: 0,
            input_buffer: String::new(),
            input_history: Vec::new(),
            history_index: None,
            tool_cards: Vec::new(),
            diff_content: String::new(),
            show_diff: false,
            frame_counter: 0,
            total_input_tokens: 0,
            total_output_tokens: 0,
            turn_started: None,
        };
        assert(r@.history =~= Seq::empty());
        assert(r@.cards =~= Seq::empty());
        assert(r@.output =~= Seq::empty());
        assert(r@.tool_status =~= Seq::empty());
        assert(r@.input =~= Seq::empty());
        assert(r@.diff =~= Seq::empty());
        r
    }

    /// Sets the agent that is shown.
    pub fn set_primary_agent(&mut self, agent_id: String)
        ensures
            final(self)@ == (TuiModel { agent: Some(agent_id@), ..old(self)@ }),
    {
        self.primary_agent_id = Some(agent_id);
    }

    /// Takes note that a node was started.
    pub fn handle_spawn(&mut self, payload: &Payload)
        ensures
            final(self)@ == spawned(old(self)@, payload@),
    {
        if self.primary_agent_id.is_some() {
            return;
        }
        let is_agent = match payload.text_at("node_type") {
            Some(kind) => ops::same_text(kind, "agent") || ops::same_text(kind, "thinker"),
            None => false,
        };
        if is_agent {
            if let Some(id) = payload.text_at("node_id") {
                self.set_primary_agent(String::from_str(id));
            }
        }
    }

    /// Counts a picture that is drawn.
    pub fn next_frame(&mut self) -> (r: usize)
        ensures
            r == final(self)@.frame,
            final(self)@ == (TuiModel {
                frame: if old(self)@.frame == usize::MAX {
                    0
                } else {
                    (old(self)@.frame + 1) as usize
                },
                ..old(self)@
            }),
    {
        self.frame_counter = if self.frame_counter == usize::MAX {
            0
        } else {
            self.frame_counter + 1
        };
        self.frame_counter
    }

    /// Takes a key, and says what follows.
    pub fn press(&mut self, key: Key) -> (r: KeyStep)
        requires
            old(self).wf(),
        ensures
            final(self).wf(),
            final(self)@ == pressed(old(self)@, key),
            r@ == key_step(old(self)@, key),
    {
        let ghost m = self@;
        assert(m.history.len() == self.input_history@.len());
        match key {
            Key::NewLine => {
                self.type_char('\n');
                KeyStep::Nothing
            },
            Key::Enter => self.enter(),
            Key::Up => {
                if self.input_history.len() > 0 {
                    let i: usize = match self.history_index {
                        Some(i) if i > 0 => i - 1,
                        _ => self.input_history.len() - 1,
                    };
                    assert(m.history[i as int] == self.input_history@[i as int]@);
                    self.input_buffer = self.input_history[i].clone();
                    self.history_index = Some(i);
                }
                KeyStep::Nothing
            },
            Key::Down => {
                let total: usize = self.input_history.len();
                if let Some(i) = self.history_index {
                    if i < total - 1 {
                        assert(m.history[i + 1] == self.input_history@[i + 1]@);
                        self.input_buffer = self.input_history[i + 1].clone();
                        self.history_index = Some(i + 1);
                    } else {
                        self.input_buffer = String::new();
                        assert(self@.input =~= Seq::empty());
                        self.history_index = None;
                    }
                }
                KeyStep::Nothing
            },
            Key::PageUp => {
                self.scroll_offset = if self.scroll_offset <= usize::MAX - 10 {
                    self.scroll_offset + 10
                } else {
                    usize::MAX
                };
                KeyStep::Render
            },
            Key::PageDown => {
                self.scroll_offset = if self.scroll_offset >= 10 {
                    self.scroll_offset - 10
                } else {
                    0
                };
                KeyStep::Render
            },
            Key::Char(c) => {
                self.type_char(c);
                KeyStep::Nothing
            },
            Key::Backspace => {
                let chars = ops::chars_of(self.input_buffer.as_str());
                if chars.len() > 0 {
                    let kept = ops::take(chars.as_slice(), chars.len() - 1);
                    self.input_buffer = ops::string_of(kept);
                    assert(self@.input =~= m.input.drop_last());
                }
                KeyStep::Nothing
            },
            Key::Tab => {
                self.show_diff = !self.show_diff;
                KeyStep::Render
            },
            Key::Esc => KeyStep::Quit,
            Key::Other => KeyStep::Nothing,
        }
    }

    /// Adds a character to what the user is typing.
    fn type_char(&mut self, c: char)
        ensures
            final(self)@ == (TuiModel { input: old(self)@.input.push(c), ..old(self)@ }),
    {
        let ghost before = self@.input;
        let one: Vec<char> = vec![c];
        let mut longer = self.input_buffer.clone();
        ops::push_chars(&mut longer, one.as_slice());
        self.input_buffer = longer;
        assert(self@.input =~= before.push(c));
    }

    /// Takes what the user has typed.
    fn enter(&mut self) -> (r: KeyStep)
        requires
            old(self).wf(),
        ensures
            final(self).wf(),
            final(self)@ == pressed(old(self)@, Key::Enter),
            r@ == key_step(old(self)@, Key::Enter),
    {
        let ghost m = self@;
        if ops::is_empty(self.input_buffer.as_str()) {
            return KeyStep::Nothing;
        }
        let text = self.input_buffer.clone();
        let ghost shown = text@;
        self.input_history.push(text);
        assert(self@.history =~= m.history.push(shown));
        self.history_index = None;
        let step = match &self.primary_agent_id {
            Some(agent) => {
                let body = Payload::new().text("role", "user").text(
                    "content",
                    self.input_buffer.as_str(),
                );
                KeyStep::Send(
                    Outgoing {
                        topic: Topic::agent_input(agent.as_str()),
                        payload: body,
                        plane: Plane::Control,
                    },
                )
            },
            None => KeyStep::Render,
        };
        self.input_buffer = String::new();
        assert(self@.input =~= Seq::empty());
        step
    }

    /// Shows the change of a file that a tool's output holds, if it holds one.
    pub fn extract_diff(&mut self, tool_name: &str, output: &str)
        ensures
            final(self)@ == with_diff(old(self)@, tool_name@, output@),
    {
        if let Some(diff) = find_diff(tool_name, output) {
            self.diff_content = diff;
            self.show_diff = true;
        }
    }

    /// The last card that stands for a running tool of a name.
    fn find_running(&self, name: &str) -> (r: Option<usize>)
        ensures
            match r {
                Some(i) => i < self@.cards.len() && running_card(
                    self@.cards,
                    name@,
                    self@.cards.len(),
                ) == Some(i as int),
                None => running_card(self@.cards, name@, self@.cards.len()) is None,
            },
    {
        let ghost all = self@.cards;
        let mut i: usize = self.tool_cards.len();
        while i > 0
            invariant
                i <= self.tool_cards@.len(),
                all == card_models(self.tool_cards@),
                running_card(all, name@, all.len()) == running_card(all, name@, i as nat),
            decreases i,
        {
            assert(all[i - 1] == self.tool_cards@[i - 1]@);
            let card = &self.tool_cards[i - 1];
            if card.status == ToolStatus::Running && ops::same_text(card.name.as_str(), name) {
                return Some(i - 1);
            }
            i = i - 1;
        }
        None
    }

    /// Takes note that a tool has ended.
    fn end_tool(&mut self, name: &str, output: &str, success: bool, now: u64)
        ensures
            final(self)@ == (TuiModel {
                cards: bounded_cards(ended_cards(old(self)@.cards, name@, output@, success, now)),
                ..old(self)@
            }),
    {
        let ghost before = self@.cards;
        let status = if success {
            ToolStatus::Done
        } else {
            ToolStatus::Failed
        };
        let summary = leading_line(output);
        match self.find_running(name) {
            Some(i) => {
                assert(before[i as int] == self.tool_cards@[i as int]@);
                let elapsed = match self.tool_cards[i].started_at {
                    Some(t) => Some(
                        if now >= t {
                            now - t
                        } else {
                            0
                        },
                    ),
                    None => None,
                };
                let card = ToolCard {
                    name: self.tool_cards[i].name.clone(),
                    status,
                    result_summary: summary,
                    started_at: self.tool_cards[i].started_at,
                    elapsed,
                };
                let ghost shown = card@;
                self.tool_cards.set(i, card);
                assert(self@.cards =~= before.update(i as int, shown));
            },
            None => {
                let card = ToolCard {
                    name: String::from_str(name),
                    status,
                    result_summary: summary,
                    started_at: None,
                    elapsed: None,
                };
                let ghost shown = card@;
                self.tool_cards.push(card);
                assert(self@.cards =~= before.push(shown));
            },
        }
        let ghost now_held = self@.cards;
        assert(now_held.len() == self.tool_cards@.len());
        if self.tool_cards.len() > MAX_TOOL_CARDS {
            self.tool_cards.remove(0);
            assert(self@.cards =~= now_held.skip(1));
        }
    }

    /// Whether the tokens can still be counted after an event.
    pub fn can_count(&self, payload: &Payload) -> (r: bool)
        ensures
            r == can_count(self@, payload@),
    {
        let a: usize = payload.number_or("input_tokens", 0) as usize;
        let b: usize = payload.number_or("output_tokens", 0) as usize;
        a <= usize::MAX - self.total_input_tokens && b <= usize::MAX - self.total_output_tokens
    }

    /// Takes note of the agent's state.
    fn take_event(&mut self, payload: &Payload)
        requires
            can_count(old(self)@, payload@),
        ensures
            final(self)@ == told(old(self)@, payload@),
    {
        if let Some(state) = payload.text_at("state") {
            self.agent_status = if ops::same_text(state, "thinking") {
                AgentStatus::Thinking
            } else if ops::same_text(state, "outputting") {
                AgentStatus::Outputting
            } else if ops::same_text(state, "tool_calling") {
                AgentStatus::ToolCalling
            } else if ops::same_text(state, "error") {
                AgentStatus::Error
            } else {
                AgentStatus::Idle
            };
            if ops::same_text(state, "idle") {
                self.turn_started = None;
            }
        }
        if let Some(tool) = payload.text_at("tool") {
            self.tool_status = String::from_str(tool);
        }
        let a: usize = payload.number_or("input_tokens", 0) as usize;
        let b: usize = payload.number_or("output_tokens", 0) as usize;
        self.total_input_tokens = self.total_input_tokens + a;
        self.total_output_tokens = self.total_output_tokens + b;
    }

    /// Takes a message, and says what follows. `now` is the moment in
    /// milliseconds.
    pub fn handle_message(&mut self, topic: &Topic, payload: &Payload, now: u64) -> (r: Shown)
        requires
            old(self).wf(),
            topic_kind(topic@) == TuiTopic::Event ==> can_count(old(self)@, payload@),
        ensures
            final(self).wf(),
            final(self)@ == handled(old(self)@, topic@, payload@, now),
            r@ == shown(topic@, payload@),
    {
        match kind_of(topic) {
            TuiTopic::Output => {
                match payload.text_at("content") {
                    Some(content) => {
                        if self.turn_started.is_none() {
                            self.turn_started = Some(now);
                        }
                        self.agent_status = AgentStatus::Outputting;
                        let longer = ops::concat2(self.output_buffer.as_str(), content);
                        self.output_buffer = longer;
                        Shown::Output(String::from_str(content))
                    },
                    None => Shown::Nothing,
                }
            },
            TuiTopic::ToolResult => {
                let tool = payload.text_or("tool_name", "unknown");
                let success = payload.flag_or("success", true);
                let output = payload.text_or("output", "");
                self.end_tool(tool, output, success, now);
                self.extract_diff(tool, output);
                Shown::Changed
            },
            TuiTopic::Event => {
                self.take_event(payload);
                Shown::Changed
            },
            TuiTopic::ToolCall => {
                match payload.text_at("tool_name") {
                    Some(tool) => {
                        self.agent_status = AgentStatus::ToolCalling;
                        self.tool_status = String::from_str(tool);
                        let ghost before = self@.cards;
                        let card = ToolCard {
                            name: String::from_str(tool),
                            status: ToolStatus::Running,
                            result_summary: String::from_str("执行中..."),
                            started_at: Some(now),
                            elapsed: None,
                        };
                        let ghost shown = card@;
                        self.tool_cards.push(card);
                        assert(self@.cards =~= before.push(shown));
                        Shown::Changed
                    },
                    None => Shown::Nothing,
                }
            },
            TuiTopic::Shutdown => Shown::Restore,
            TuiTopic::Other => Shown::Nothing,
        }
    }

    /// Takes a message as it came, and says what follows. Nothing does, and
    /// nothing changes, where the message cannot be read, or where the tokens that
    /// it tells of cannot be counted any more.
    pub fn receive(&mut self, msg: &Message, now: u64) -> (r: Result<Option<Shown>, FrameError>)
        requires
            old(self).wf(),
        ensures
            final(self).wf(),
            match (r, payload::carried(reads(msg@.topic), msg@.payload)) {
                (Ok(Some(s)), Some(p)) => {
                    &&& topic_kind(msg@.topic) == TuiTopic::Event ==> can_count(old(self)@, p)
                    &&& final(self)@ == handled(old(self)@, msg@.topic, p, now)
                    &&& s@ == shown(msg@.topic, p)
                },
                (Ok(None), Some(p)) => {
                    &&& topic_kind(msg@.topic) == TuiTopic::Event
                    &&& !can_count(old(self)@, p)
                    &&& final(self)@ == old(self)@
                },
                (Err(e), None) => e == FrameError::BadPayload && final(self)@ == old(self)@,
                _ => false,
            },
    {
        let kind = kind_of(&msg.topic);
        let read = match kind {
            TuiTopic::Shutdown => false,
            TuiTopic::Other => false,
            _ => true,
        };
        let p = match FrameCodec::decode_if(read, msg) {
            Ok(p) => p,
            Err(e) => {
                return Err(e);
            },
        };
        if kind == TuiTopic::Event && !self.can_count(&p) {
            return Ok(None);
        }
        Ok(Some(self.handle_message(&msg.topic, &p, now)))
    }

    /// The places of the cards that are shown, the last first.
    pub fn shown_cards(&self) -> (r: Vec<usize>)
        ensures
            r@.len() == if self@.cards.len() < SHOWN_TOOL_CARDS {
                self@.cards.len()
            } else {
                SHOWN_TOOL_CARDS as nat
            },
            forall|i: int|
                0 <= i < r@.len() ==> #[trigger] r@[i] == self@.cards.len() - 1 - i,
    {
        let total: usize = self.tool_cards.len();
        assert(self@.cards.len() == total);
        let mut out: Vec<usize> = Vec::new();
        while out.len() < total && out.len() < SHOWN_TOOL_CARDS
            invariant
                out@.len() <= total,
                out@.len() <= SHOWN_TOOL_CARDS,
                forall|i: int| 0 <= i < out@.len() ==> #[trigger] out@[i] == total - 1 - i,
            decreases total - out@.len(),
        {
            let place: usize = total - 1 - out.len();
            out.push(place);
        }
        out
    }

    /// The place of the last card that stands for a running tool.
    pub fn running_tool(&self) -> (r: Option<usize>)
        ensures
            match r {
                Some(i) => i < self@.cards.len() && self@.cards[i as int].status
                    == ToolStatus::Running && forall|j: int|
                    i < j < self@.cards.len() ==> (#[trigger] self@.cards[j]).status
                        != ToolStatus::Running,
                None => forall|j: int|
                    0 <= j < self@.cards.len() ==> (#[trigger] self@.cards[j]).status
                        != ToolStatus::Running,
            },
    {
        let ghost all = self@.cards;
        let mut i: usize = self.tool_cards.len();
        while i > 0
            invariant
                i <= self.tool_cards@.len(),
                all == card_models(self.tool_cards@),
                forall|j: int|
                    i <= j < all.len() ==> (#[trigger] all[j]).status != ToolStatus::Running,
            decreases i,
        {
            assert(all[i - 1] == self.tool_cards@[i - 1]@);
            if self.tool_cards[i - 1].status == ToolStatus::Running {
                return Some(i - 1);
            }
            i = i - 1;
        }
        None
    }

    /// What the node is.
    pub fn node_type(&self) -> (r: NodeType)
        ensures
            r == NodeType::TUI,
    {
        NodeType::TUI
    }

    /// The node's identifier.
    pub fn node_id(&self) -> (r: &NodeId)
        ensures
            r@ == self@.id,
    {
        &self.id
    }

    /// The topics that the node listens to: those of its agent, or of all.
    pub fn subscriptions(&self) -> (r: Vec<String>)
        ensures
            model::texts(r@) == topics(
                match self@.agent {
                    Some(a) => a,
                    None => "*"@,
                },
            ),
    {
        let agent = match &self.primary_agent_id {
            Some(a) => a.as_str(),
            None => "*",
        };
        let mut out: Vec<String> = Vec::new();
        out.push(String::from_str("sys/shutdown"));
        out.push(String::from_str("sys/spawn"));
        out.push(ops::concat3("agent/", agent, "/output"));
        out.push(ops::concat3("agent/", agent, "/event"));
        out.push(ops::concat3("agent/", agent, "/tool_call"));
        out.push(ops::concat3("agent/", agent, "/tool_result"));
        assert(model::texts(out@) =~= topics(agent@));
        out
    }
}

/// Going up and then down in the history shows what was shown before, unless the
/// first or no earlier input was shown.
pub proof fn law_down_undoes_up(m: TuiModel, i: usize)
    requires
        m.index == Some(i),
        0 < i < m.history.len(),
    ensures
        pressed(pressed(m, Key::Up), Key::Down).index == m.index,
        pressed(pressed(m, Key::Up), Key::Down).input == m.history[i as int],
{
}

/// What is typed and taken back is as if it had not been typed.
pub proof fn law_backspace_undoes_typing(m: TuiModel, c: char)
    ensures
        pressed(pressed(m, Key::Char(c)), Key::Backspace) == m,
{
    assert(m.input.push(c).drop_last() =~= m.input);
}

/// What the user has typed is the first that going up in the history shows.
pub proof fn law_input_is_remembered(m: TuiModel)
    requires
        m.input.len() > 0,
        m.history.len() < usize::MAX,
    ensures
        pressed(pressed(m, Key::Enter), Key::Up).input == m.input,
{
}

/// The earlier input that is shown always exists.
pub proof fn law_history_index_fits(m: TuiModel, key: Key)
    requires
        index_fits(m),
        m.history.len() <= usize::MAX,
    ensures
        index_fits(pressed(m, key)),
{
}

/// A tool that was called and has ended is shown as ended.
pub proof fn law_called_tool_ends(
    m: TuiModel,
    p: PayloadModel,
    tool: Seq<char>,
    output: Seq<char>,
    success: bool,
    begun: u64,
    now: u64,
)
    requires
        payload::text_at(p, "tool_name"@) == Some(tool),
    ensures
        ended_cards(called(m, p, begun).cards, tool, output, success, now).len() == m.cards.len()
            + 1,
        ended_cards(called(m, p, begun).cards, tool, output, success, now).last() == (CardModel {
            name: tool,
            status: end_status(success),
            summary: first_line(output),
            started_at: Some(begun),
            elapsed: Some(passed(now, begun)),
        }),
{
}

/// The spinner turns through four pictures and then begins anew.
pub proof fn law_spinner_turns(frame: usize)
    requires
        frame <= usize::MAX - 4,
    ensures
        spinner((frame + 4) as usize) == spinner(frame),
        spinner((frame + 1) as usize) != spinner(frame),
        spinner((frame + 2) as usize) != spinner(frame),
        spinner((frame + 3) as usize) != spinner(frame),
{
    reveal_strlit("◐");
    reveal_strlit("◓");
    reveal_strlit("◑");
    reveal_strlit("◒");
    assert("◐"@[0] == '◐' && "◓"@[0] == '◓' && "◑"@[0] == '◑' && "◒"@[0] == '◒');
}

/// A card shows a short summary whole, and of a longer one the first twenty-five bytes.
pub proof fn law_card_shows_the_beginning(summary: Seq<char>) -> (k: int)
    requires
        model::byte_len(summary) <= 25 || model::is_boundary(summary, 25),
    ensures
        model::byte_len(summary) <= 25 ==> card_text(summary) == summary,
        model::byte_len(summary) > 25 ==> 0 <= k <= summary.len() && model::byte_len(
            summary.take(k),
        ) == 25 && card_text(summary) == summary.take(k) + "..."@,
{
    model::chars_in(summary, 25)
}

/// The first character of a line of a diff tells whether it was added or removed.
pub proof fn law_diff_lines_are_told(line: Seq<char>)
    ensures
        diff_kind(line) is Added <==> line.len() > 0 && line[0] == '+',
        diff_kind(line) is Removed <==> line.len() > 0 && line[0] == '-',
        diff_kind(line) is Place <==> line.len() > 1 && line[0] == '@' && line[1] == '@',
{
    reveal_strlit("+");
    reveal_strlit("-");
    reveal_strlit("@@");
    assert("+"@ =~= seq!['+']);
    assert("-"@ =~= seq!['-']);
    assert("@@"@ =~= seq!['@', '@']);
    if line.len() > 0 {
        assert(line.take(1)[0] == line[0]);
        if line[0] == '+' {
            assert(line.take(1) =~= "+"@);
        }
        if line[0] == '-' {
            assert(line.take(1) =~= "-"@);
        }
    }
    if line.len() > 1 {
        assert(line.take(2)[0] == line[0] && line.take(2)[1] == line[1]);
        if line[0] == '@' && line[1] == '@' {
            assert(line.take(2) =~= "@@"@);
        }
    }
}

/// A line that opens or closes a block of code.
pub open spec fn is_fence(line: Seq<char>) -> bool {
    model::starts_with(model::trim(line), "```"@)
}

/// Lines outside of code are shown as they are. What stands between two fences is one
/// block of code, in the language that the first of them names.
pub proof fn law_code_is_shown_as_a_block(
    output: Seq<char>,
    pre: Seq<Seq<char>>,
    open: Seq<char>,
    body: Seq<Seq<char>>,
    close: Seq<char>,
)
    requires
        forall|i: int| 0 <= i < pre.len() ==> !is_fence(#[trigger] pre[i]),
        forall|i: int| 0 <= i < body.len() ==> !is_fence(#[trigger] body[i]),
        is_fence(open),
        is_fence(close),
    ensures
        ({
            let lines = pre.map_values(|l: Seq<char>| PartModel::Line(l));
            let lang = model::trim(model::trim(open).skip(3));
            &&& model::lines(output) == pre ==> parts_of(output) == lines
            &&& model::lines(output) == pre.push(open) + body.push(close) ==> parts_of(output)
                == lines.push(PartModel::Fence(open)).push(PartModel::Code(lang, body, true))
            &&& model::lines(output) == pre.push(open) + body && body.len() > 0 ==> parts_of(output)
                == lines.push(PartModel::Fence(open)).push(PartModel::Code(lang, body, false))
        }),
{
    let lines = pre.map_values(|l: Seq<char>| PartModel::Line(l));
    let lang = model::trim(model::trim(open).skip(3));
    let v = model::lines(output);
    if v == pre {
        lemma_plain_lines(v, pre, pre.len());
        assert(pre.take(pre.len() as int) =~= pre);
        assert(parts_of(output) =~= lines);
    }
    if v == pre.push(open) + body.push(close) {
        lemma_block_lines(v, pre, open, body, body.len());
        assert(v[v.len() - 1] == close);
        assert(body.take(body.len() as int) =~= body);
    }
    if v == pre.push(open) + body && body.len() > 0 {
        lemma_block_lines(v, pre, open, body, body.len());
        assert(body.take(body.len() as int) =~= body);
    }
}

proof fn lemma_plain_lines(v: Seq<Seq<char>>, pre: Seq<Seq<char>>, n: nat)
    requires
        n <= pre.len() <= v.len(),
        forall|i: int| 0 <= i < pre.len() ==> #[trigger] v[i] == pre[i],
        forall|i: int| 0 <= i < pre.len() ==> !is_fence(#[trigger] pre[i]),
    ensures
        read_lines(v, n) == (Reading {
            parts: pre.take(n as int).map_values(|l: Seq<char>| PartModel::Line(l)),
            code: None,
        }),
    decreases n,
{
    let f = |l: Seq<char>| PartModel::Line(l);
    if n > 0 {
        lemma_plain_lines(v, pre, (n - 1) as nat);
        assert(v[n - 1] == pre[n - 1]);
        assert(!is_fence(pre[n - 1]));
        assert(pre.take(n as int).map_values(f) =~= pre.take(n - 1).map_values(f).push(
            PartModel::Line(pre[n - 1]),
        ));
    } else {
        assert(pre.take(0).map_values(f) =~= Seq::empty());
    }
}

proof fn lemma_block_lines(
    v: Seq<Seq<char>>,
    pre: Seq<Seq<char>>,
    open: Seq<char>,
    body: Seq<Seq<char>>,
    n: nat,
)
    requires
        n <= body.len(),
        pre.len() + 1 + body.len() <= v.len(),
        forall|i: int| 0 <= i < pre.len() ==> #[trigger] v[i] == pre[i],
        v[pre.len() as int] == open,
        forall|i: int| 0 <= i < body.len() ==> v[pre.len() + 1 + i] == #[trigger] body[i],
        forall|i: int| 0 <= i < pre.len() ==> !is_fence(#[trigger] pre[i]),
        forall|i: int| 0 <= i < body.len() ==> !is_fence(#[trigger] body[i]),
        is_fence(open),
    ensures
        read_lines(v, pre.len() + 1 + n) == (Reading {
            parts: pre.map_values(|l: Seq<char>| PartModel::Line(l)).push(PartModel::Fence(open)),
            code: Some((model::trim(model::trim(open).skip(3)), body.take(n as int))),
        }),
    decreases n,
{
    if n > 0 {
        lemma_block_lines(v, pre, open, body, (n - 1) as nat);
        assert(v[pre.len() + 1 + (n - 1)] == body[n - 1]);
        assert(body.take(n as int) =~= body.take(n - 1).push(body[n - 1]));
    } else {
        lemma_plain_lines(v, pre, pre.len());
        assert(pre.take(pre.len() as int) =~= pre);
        assert(body.take(0) =~= Seq::empty());
    }
}

/// The view begins where it was scrolled to, unless less would be shown than fits.
pub proof fn law_view_is_filled(total: usize, offset: usize, height: usize)
    ensures
        total <= height ==> first_shown(total, offset, height) == 0,
        total > height ==> first_shown(total, offset, height) + height <= total,
        first_shown(total, offset, height) <= offset,
        offset + height <= total ==> first_shown(total, offset, height) == offset,
        total > height && offset + height > total ==> first_shown(total, offset, height) + height
            == total,
{
}

/// Enter sends what was typed to the agent, as the user's words, remembers it and empties
/// the line; on an empty line it does nothing.
pub proof fn law_enter_sends_the_line(m: TuiModel, agent: Seq<char>)
    requires
        m.agent == Some(agent),
    ensures
        m.input.len() > 0 ==> {
            &&& key_step(m, Key::Enter) matches KeyModel::Send(o)
            &&& o.topic == "agent/"@ + agent + "/input"@
            &&& payload::text_at(o.payload, "role"@) == Some("user"@)
            &&& payload::text_at(o.payload, "content"@) == Some(m.input)
            &&& pressed(m, Key::Enter).input.len() == 0
            &&& pressed(m, Key::Enter).history == m.history.push(m.input)
            &&& pressed(m, Key::Enter).index is None
        },
        m.input.len() == 0 ==> key_step(m, Key::Enter) is Nothing && pressed(m, Key::Enter) == m,
{
    reveal_strlit("role");
    reveal_strlit("content");
    assert("role"@.len() == 4 && "content"@.len() == 7);
    let p = typed(agent, m.input).payload;
    assert(p =~= seq![
        payload::text_field("role"@, "user"@),
        payload::text_field("content"@, m.input),
    ]);
    assert(payload::field_from(p, "content"@, 0) == payload::field_from(p, "content"@, 1));
}

/// What the other keys do.
pub proof fn law_keys_do_what_they_say(m: TuiModel, c: char)
    requires
        10 <= m.scroll <= usize::MAX - 10,
    ensures
        pressed(m, Key::NewLine).input == m.input.push('\n'),
        pressed(m, Key::Char(c)).input == m.input.push(c),
        pressed(m, Key::PageUp).scroll == m.scroll + 10,
        pressed(m, Key::PageDown).scroll == m.scroll - 10,
        pressed(pressed(m, Key::Tab), Key::Tab) == m,
        pressed(m, Key::Tab).show_diff != m.show_diff,
        pressed(m, Key::Esc) == m,
        key_step(m, Key::Esc) is Quit,
        key_step(m, Key::PageUp) is Render && key_step(m, Key::PageDown) is Render && key_step(
            m,
            Key::Tab,
        ) is Render,
        pressed(m, Key::Other) == m,
{
}

/// Going up tells the last line first and then the one before; going down from the last
/// one empties the line.
pub proof fn law_history_is_walked(m: TuiModel)
    requires
        0 < m.history.len() <= usize::MAX,
    ensures
        m.index is None ==> pressed(m, Key::Up).input == m.history.last(),
        m.index is Some && 0 < m.index->0 < m.history.len() ==> pressed(m, Key::Up).input
            == m.history[m.index->0 - 1],
        m.index is Some && m.index->0 + 1 == m.history.len() ==> pressed(m, Key::Down).input.len()
            == 0 && pressed(m, Key::Down).index is None,
        m.index is None ==> pressed(m, Key::Down) == m,
        pressed(m, Key::Up).history == m.history && pressed(m, Key::Down).history == m.history,
{
}

/// A result ends the last card of its tool that still runs, and touches no other; where
/// none runs, it gets a card of its own.
pub proof fn law_result_ends_its_card(
    v: Seq<CardModel>,
    name: Seq<char>,
    output: Seq<char>,
    success: bool,
    now: u64,
    i: int,
)
    ensures
        0 <= i < v.len() && v[i].name == name && v[i].status == ToolStatus::Running && (forall|
            j: int,
        |
            i < j < v.len() ==> !((#[trigger] v[j]).name == name && v[j].status
                == ToolStatus::Running)) ==> {
            let w = ended_cards(v, name, output, success, now);
            &&& w == v.update(i, w[i])
            &&& w[i].name == name
            &&& w[i].status == if success {
                ToolStatus::Done
            } else {
                ToolStatus::Failed
            }
            &&& w[i].summary == first_line(output)
            &&& w[i].started_at == v[i].started_at
            &&& v[i].started_at is Some && v[i].started_at->0 <= now ==> w[i].elapsed == Some(
                (now - v[i].started_at->0) as u64,
            )
        },
        (forall|j: int|
            0 <= j < v.len() ==> !((#[trigger] v[j]).name == name && v[j].status
                == ToolStatus::Running)) ==> {
            let w = ended_cards(v, name, output, success, now);
            &&& w.len() == v.len() + 1
            &&& w.drop_last() == v
            &&& w.last().name == name
            &&& w.last().status == if success {
                ToolStatus::Done
            } else {
                ToolStatus::Failed
            }
            &&& w.last().summary == first_line(output)
        },
{
    if 0 <= i < v.len() && v[i].name == name && v[i].status == ToolStatus::Running && (forall|
        j: int,
    |
        i < j < v.len() ==> !((#[trigger] v[j]).name == name && v[j].status
            == ToolStatus::Running)) {
        lemma_running_is(v, name, v.len(), i);
    }
    if forall|j: int|
        0 <= j < v.len() ==> !((#[trigger] v[j]).name == name && v[j].status
            == ToolStatus::Running) {
        lemma_none_runs(v, name, v.len());
        let w = ended_cards(v, name, output, success, now);
        assert(w.drop_last() =~= v);
    }
}

proof fn lemma_running_is(v: Seq<CardModel>, name: Seq<char>, n: nat, i: int)
    requires
        0 <= i < n <= v.len(),
        v[i].name == name,
        v[i].status == ToolStatus::Running,
        forall|j: int|
            i < j < v.len() ==> !((#[trigger] v[j]).name == name && v[j].status
                == ToolStatus::Running),
    ensures
        running_card(v, name, n) == Some(i),
    decreases n,
{
    if i < n - 1 {
        assert(!(v[n - 1].name == name && v[n - 1].status == ToolStatus::Running));
        lemma_running_is(v, name, (n - 1) as nat, i);
    }
}

proof fn lemma_none_runs(v: Seq<CardModel>, name: Seq<char>, n: nat)
    requires
        n <= v.len(),
        forall|j: int|
            0 <= j < v.len() ==> !((#[trigger] v[j]).name == name && v[j].status
                == ToolStatus::Running),
    ensures
        running_card(v, name, n) is None,
    decreases n,
{
    if n > 0 {
        assert(!(v[n - 1].name == name && v[n - 1].status == ToolStatus::Running));
        lemma_none_runs(v, name, (n - 1) as nat);
    }
}

/// A result leaves at most ten cards where there were no more, and of too many the oldest
/// goes.
pub proof fn law_cards_are_bounded(v: Seq<CardModel>)
    ensures
        v.len() <= 10 ==> bounded_cards(v) == v,
        v.len() > 10 ==> bounded_cards(v) == v.subrange(1, v.len() as int),
{
    if v.len() > 10 {
        assert(bounded_cards(v) =~= v.subrange(1, v.len() as int));
    }
}

/// Only the tools that write files show a difference: their whole output where it is one,
/// or else the block of it that is marked as one.
pub proof fn law_difference_is_taken(
    tool: Seq<char>,
    output: Seq<char>,
    a: Seq<char>,
    d: Seq<char>,
    b: Seq<char>,
)
    ensures
        tool != "write"@ && tool != "edit"@ && tool != "write_file"@ ==> diff_in(tool, output) is None,
        (tool == "write"@ || tool == "edit"@ || tool == "write_file"@) && model::contains(
            output,
            "@@"@,
        ) && (model::contains(output, "---"@) || model::contains(output, "+++"@)) ==> diff_in(
            tool,
            output,
        ) == Some(output),
        (tool == "write"@ || tool == "edit"@ || tool == "write_file"@) && output == a + "```diff"@
            + d + "```"@ + b && !model::contains(output, "@@"@) && (forall|k: int|
            0 <= k < a.len() ==> !#[trigger] model::occurs_at(output, "```diff"@, k)) && (forall|
            k: int,
        |
            0 <= k < d.len() ==> !#[trigger] model::occurs_at(d + "```"@ + b, "```"@, k))
            ==> diff_in(tool, output) == Some(d),
{
    if output == a + "```diff"@ + d + "```"@ + b && (forall|k: int|
        0 <= k < a.len() ==> !#[trigger] model::occurs_at(output, "```diff"@, k)) && (forall|
        k: int,
    |
        0 <= k < d.len() ==> !#[trigger] model::occurs_at(d + "```"@ + b, "```"@, k)) {
        reveal_strlit("```diff");
        reveal_strlit("```");
        let i = a.len() as int;
        assert("```diff"@.len() == 7 && "```"@.len() == 3);
        assert(output.subrange(i, i + 7) =~= "```diff"@);
        lemmas::lemma_find_first(output, "```diff"@, i, 0);
        let t = d + "```"@ + b;
        assert(output.skip(i + 7) =~= t);
        assert(t.subrange(d.len() as int, d.len() as int + 3) =~= "```"@);
        lemmas::lemma_find_first(t, "```"@, d.len() as int, 0);
        assert(t.take(d.len() as int) =~= d);
    }
}

/// The names of the states; any other name means that the agent is idle.
pub proof fn law_states_are_named(name: Seq<char>)
    ensures
        status_of(name) is Thinking <==> name == "thinking"@,
        status_of(name) is Outputting <==> name == "outputting"@,
        status_of(name) is ToolCalling <==> name == "tool_calling"@,
        status_of(name) is Error <==> name == "error"@,
{
    reveal_strlit("thinking");
    reveal_strlit("outputting");
    reveal_strlit("tool_calling");
    reveal_strlit("error");
    assert("thinking"@.len() == 8 && "outputting"@.len() == 10 && "tool_calling"@.len() == 12
        && "error"@.len() == 5);
}

proof fn lemma_topic_kinds(topic: Seq<char>)
    ensures
        model::ends_with(topic, "/output"@) ==> topic_kind(topic) is Output,
        model::ends_with(topic, "/tool_result"@) ==> topic_kind(topic) is ToolResult,
        model::ends_with(topic, "/event"@) ==> topic_kind(topic) is Event,
        model::ends_with(topic, "/tool_call"@) ==> topic_kind(topic) is ToolCall,
        topic == "sys/shutdown"@ ==> topic_kind(topic) is Shutdown,
{
    reveal_strlit("/output");
    reveal_strlit("/tool_result");
    reveal_strlit("/event");
    reveal_strlit("/tool_call");
    reveal_strlit("sys/shutdown");
    let a = "/output"@;
    let b = "/tool_result"@;
    let c = "/event"@;
    let d = "/tool_call"@;
    let e = "sys/shutdown"@;
    assert(a.len() == 7 && b.len() == 12 && c.len() == 6 && d.len() == 10 && e.len() == 12);
    assert(a[6] == 't' && b[11] == 't' && c[5] == 't' && d[9] == 'l' && e[11] == 'n');
    assert(a[5] == 'u' && b[10] == 'l' && c[4] == 'n');
    if model::ends_with(topic, b) {
        lemmas::lemma_other_ending(topic, b, a, 1);
    }
    if model::ends_with(topic, c) {
        lemmas::lemma_other_ending(topic, c, a, 1);
        lemmas::lemma_other_ending(topic, c, b, 1);
    }
    if model::ends_with(topic, d) {
        lemmas::lemma_other_ending(topic, d, a, 0);
        lemmas::lemma_other_ending(topic, d, b, 0);
        lemmas::lemma_other_ending(topic, d, c, 0);
    }
    if topic == e {
        assert(e.skip(0) =~= e);
        assert(model::ends_with(topic, e));
        lemmas::lemma_other_ending(topic, e, a, 0);
        lemmas::lemma_other_ending(topic, e, b, 0);
        lemmas::lemma_other_ending(topic, e, c, 0);
        lemmas::lemma_other_ending(topic, e, d, 0);
    }
}

/// What an agent puts out is added to the output and shown, and its turn has begun.
pub proof fn law_output_is_shown(
    m: TuiModel,
    topic: Seq<char>,
    p: PayloadModel,
    text: Seq<char>,
    now: u64,
)
    requires
        model::ends_with(topic, "/output"@),
        payload::text_at(p, "content"@) == Some(text),
    ensures
        handled(m, topic, p, now).output == m.output + text,
        handled(m, topic, p, now).status is Outputting,
        handled(m, topic, p, now).turn_started == Some(
            if m.turn_started is Some {
                m.turn_started->0
            } else {
                now
            },
        ),
        shown(topic, p) == ShownModel::Output(text),
        handled(m, topic, p, now).cards == m.cards,
{
    lemma_topic_kinds(topic);
}

/// An event tells the state and the tool, and its tokens are added to those before; an
/// agent that is idle has ended its turn.
pub proof fn law_event_is_told(m: TuiModel, topic: Seq<char>, p: PayloadModel, now: u64)
    requires
        model::ends_with(topic, "/event"@),
        can_count(m, p),
    ensures
        ({
            let r = handled(m, topic, p, now);
            &&& payload::text_at(p, "state"@) matches Some(s) ==> r.status == status_of(s) && (s
                == "idle"@ ==> r.turn_started is None) && (s != "idle"@ ==> r.turn_started
                == m.turn_started)
            &&& payload::text_at(p, "state"@) is None ==> r.status == m.status && r.turn_started
                == m.turn_started
            &&& payload::text_at(p, "tool"@) matches Some(t) ==> r.tool_status == t
            &&& r.input_tokens == m.input_tokens + payload::number_or(p, "input_tokens"@, 0) as usize
            &&& r.output_tokens == m.output_tokens + payload::number_or(
                p,
                "output_tokens"@,
                0,
            ) as usize
            &&& r.output == m.output && r.cards == m.cards
            &&& shown(topic, p) is Changed
        }),
{
    lemma_topic_kinds(topic);
}

/// A tool that is called gets a card that runs from now on.
pub proof fn law_call_begins_a_card(
    m: TuiModel,
    topic: Seq<char>,
    p: PayloadModel,
    tool: Seq<char>,
    now: u64,
)
    requires
        model::ends_with(topic, "/tool_call"@),
        payload::text_at(p, "tool_name"@) == Some(tool),
    ensures
        ({
            let r = handled(m, topic, p, now);
            &&& r.status is ToolCalling
            &&& r.tool_status == tool
            &&& r.cards.len() == m.cards.len() + 1
            &&& r.cards.drop_last() == m.cards
            &&& r.cards.last().name == tool
            &&& r.cards.last().status == ToolStatus::Running
            &&& r.cards.last().started_at == Some(now)
            &&& r.output == m.output
            &&& shown(topic, p) is Changed
        }),
{
    lemma_topic_kinds(topic);
    assert(handled(m, topic, p, now).cards.drop_last() =~= m.cards);
}

/// A result ends a card and shows the difference, where its tool has made one.
pub proof fn law_result_is_shown(m: TuiModel, topic: Seq<char>, p: PayloadModel, now: u64)
    requires
        model::ends_with(topic, "/tool_result"@),
    ensures
        ({
            let r = handled(m, topic, p, now);
            let tool = payload::text_or(p, "tool_name"@, "unknown"@);
            let output = payload::text_or(p, "output"@, ""@);
            let success = payload::flag_or(p, "success"@, true);
            &&& r.cards == bounded_cards(ended_cards(m.cards, tool, output, success, now))
            &&& diff_in(tool, output) matches Some(d) ==> r.diff == d && r.show_diff
            &&& diff_in(tool, output) is None ==> r.diff == m.diff && r.show_diff == m.show_diff
            &&& r.output == m.output
            &&& shown(topic, p) is Changed
        }),
{
    lemma_topic_kinds(topic);
}

/// A shutdown restores the screen, and what is meant for others changes nothing.
pub proof fn law_other_messages_change_nothing(
    m: TuiModel,
    topic: Seq<char>,
    p: PayloadModel,
    now: u64,
)
    requires
        !model::ends_with(topic, "/output"@),
        !model::ends_with(topic, "/tool_result"@),
        !model::ends_with(topic, "/event"@),
        !model::ends_with(topic, "/tool_call"@),
    ensures
        handled(m, topic, p, now) == m,
        topic == "sys/shutdown"@ ==> shown(topic, p) is Restore,
        topic != "sys/shutdown"@ ==> shown(topic, p) is Nothing,
{
}

/// The first agent that appears becomes the one that is talked to, and stays it.
pub proof fn law_first_agent_is_adopted(m: TuiModel, p: PayloadModel, id: Seq<char>)
    requires
        payload::text_at(p, "node_id"@) == Some(id),
    ensures
        m.agent is Some ==> spawned(m, p) == m,
        m.agent is None && (payload::text_at(p, "node_type"@) == Some("agent"@)
            || payload::text_at(p, "node_type"@) == Some("thinker"@)) ==> spawned(m, p).agent
            == Some(id),
        payload::text_at(p, "node_type"@) != Some("agent"@) && payload::text_at(p, "node_type"@)
            != Some("thinker"@) ==> spawned(m, p) == m,
{
}

/// A new terminal shows nothing, follows no agent and stands at its last line.
pub proof fn law_new_terminal_is_blank(id: Seq<char>)
    ensures
        blank(id).id == id,
        blank(id).agent is None,
        blank(id).status is Idle,
        blank(id).output.len() == 0 && blank(id).tool_status.len() == 0 && blank(id).input.len()
            == 0 && blank(id).history.len() == 0 && blank(id).cards.len() == 0 && blank(
            id,
        ).diff.len() == 0,
        blank(id).scroll == 0 && blank(id).frame == 0,
        blank(id).index is None && blank(id).turn_started is None,
        blank(id).input_tokens == 0 && blank(id).output_tokens == 0,
        !blank(id).show_diff,
{
}

/// A terminal listens to what its agent puts out, does and gets back, to new agents and to
/// the end, and to no other agent.
pub proof fn law_terminal_listens_to_its_agent(agent: Seq<char>, topic: Seq<char>)
    ensures
        topics(agent).contains(topic) <==> topic == "sys/shutdown"@ || topic == "sys/spawn"@
            || topic == "agent/"@ + agent + "/output"@ || topic == "agent/"@ + agent + "/event"@
            || topic == "agent/"@ + agent + "/tool_call"@ || topic == "agent/"@ + agent
            + "/tool_result"@,
{
    let v = topics(agent);
    assert(v[0] == "sys/shutdown"@ && v[1] == "sys/spawn"@);
    assert(v[2] == "agent/"@ + agent + "/output"@ && v[3] == "agent/"@ + agent + "/event"@);
    assert(v[4] == "agent/"@ + agent + "/tool_call"@ && v[5] == "agent/"@ + agent
        + "/tool_result"@);
}

/// A page is ten lines, at the ends as far as there is room.
pub proof fn law_page_is_ten_lines(n: usize)
    ensures
        n >= 10 ==> less_ten(n) + 10 == n,
        n < 10 ==> less_ten(n) == 0,
        n <= usize::MAX - 10 ==> plus_ten(n) == n + 10 && less_ten(plus_ten(n)) == n,
        n > usize::MAX - 10 ==> plus_ten(n) == usize::MAX,
{
}

/// What a message carries is read wherever it counts: under a topic where it is not read
/// the same follows, whatever the message carries.
pub proof fn law_fields_are_read_where_they_count(
    m: TuiModel,
    topic: Seq<char>,
    p: PayloadModel,
    q: PayloadModel,
    now: u64,
)
    ensures
        !reads(topic) ==> handled(m, topic, p, now) == handled(m, topic, q, now) && shown(topic, p)
            == shown(topic, q),
        reads(topic) ==> topic_kind(topic) != TuiTopic::Other && topic_kind(topic)
            != TuiTopic::Shutdown,
{
}

} // verus!

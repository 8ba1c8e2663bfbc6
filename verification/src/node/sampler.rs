//! The sampler: asks language models, and passes their answers on as they come.
//!
//! What a request does is decided here step by step; the model is asked, and
//! the messages are sent, by the caller.

use crate::message::topic::Topic;
use crate::node::payload;
use crate::node::payload::{Payload, PayloadModel};
use crate::node::{NodeId, NodeType};
use crate::outside;
use crate::text::text_map::TextMap;
use crate::text::{lemmas, model, number, ops};
use vstd::prelude::*;
use vstd::string::*;

verus! {

/// How many tokens a request took.
#[derive(Debug, Clone, Copy, PartialEq, Eq, Structural)]
pub struct TokenUsage {
    pub prompt_tokens: u32,
    pub completion_tokens: u32,
    pub total_tokens: u32,
}

/// No tokens.
pub open spec fn no_usage() -> TokenUsage {
    TokenUsage { prompt_tokens: 0, completion_tokens: 0, total_tokens: 0 }
}

/// The greater of two numbers.
pub open spec fn greater(a: u32, b: u32) -> u32 {
    if a >= b {
        a
    } else {
        b
    }
}

/// The tokens so far, with another report. Reports are totals, so the greatest
/// of them counts.
pub open spec fn usage_with(a: TokenUsage, b: TokenUsage) -> TokenUsage {
    let prompt = greater(a.prompt_tokens, b.prompt_tokens);
    let completion = greater(a.completion_tokens, b.completion_tokens);
    TokenUsage {
        prompt_tokens: prompt,
        completion_tokens: completion,
        total_tokens: (prompt + completion) as u32,
    }
}

/// What the stream of an answer brings.
#[derive(Debug)]
pub enum StreamItem {
    /// A piece of the answer.
    Chunk {
        /// The request that it belongs to.
        request_id: String,
        /// Whether it is text that the user sees.
        is_text: bool,
        content: String,
        usage: Option<TokenUsage>,
    },
    /// The stream has failed.
    Failed { error: String },
}

/// What an item of a stream holds.
#[verifier::ext_equal]
pub enum ItemModel {
    Chunk { request_id: Seq<char>, is_text: bool, content: Seq<char>, usage: Option<TokenUsage> },
    Failed { error: Seq<char> },
}

impl View for StreamItem {
    type V = ItemModel;

    open spec fn view(&self) -> ItemModel {
        match *self {
            StreamItem::Chunk { request_id, is_text, content, usage } => ItemModel::Chunk {
                request_id: request_id@,
                is_text: is_text,
                content: content@,
                usage: usage,
            },
            StreamItem::Failed { error } => ItemModel::Failed { error: error@ },
        }
    }
}

/// What has happened to a request.
#[derive(Debug)]
pub enum SamplerEvent {
    Started { request_id: String, model: String },
    Completed { request_id: String, usage: TokenUsage, finish_reason: String },
    Error { request_id: String, error: String },
    Cancelled { request_id: String },
}

/// What an event holds.
#[verifier::ext_equal]
pub enum EventModel {
    Started { request_id: Seq<char>, model: Seq<char> },
    Completed { request_id: Seq<char>, usage: TokenUsage, finish_reason: Seq<char> },
    Error { request_id: Seq<char>, error: Seq<char> },
    Cancelled { request_id: Seq<char> },
}

impl View for SamplerEvent {
    type V = EventModel;

    open spec fn view(&self) -> EventModel {
        match *self {
            SamplerEvent::Started { request_id, model } => EventModel::Started {
                request_id: request_id@,
                model: model@,
            },
            SamplerEvent::Completed { request_id, usage, finish_reason } => EventModel::Completed {
                request_id: request_id@,
                usage: usage,
                finish_reason: finish_reason@,
            },
            SamplerEvent::Error { request_id, error } => EventModel::Error {
                request_id: request_id@,
                error: error@,
            },
            SamplerEvent::Cancelled { request_id } => EventModel::Cancelled {
                request_id: request_id@,
            },
        }
    }
}

/// The request that an event is about.
pub open spec fn event_request(e: EventModel) -> Seq<char> {
    match e {
        EventModel::Started { request_id, .. } => request_id,
        EventModel::Completed { request_id, .. } => request_id,
        EventModel::Error { request_id, .. } => request_id,
        EventModel::Cancelled { request_id } => request_id,
    }
}

/// What the sampler sends.
#[derive(Debug)]
pub enum SamplerBody {
    /// The piece of the answer that was just taken in.
    Chunk,
    /// The stream has failed.
    StreamError { error: String, request_id: String },
    /// The answer is complete.
    Done { request_id: String, usage: TokenUsage, finish_reason: String },
    /// The request was cancelled.
    Cancelled { request_id: String },
    /// The request has failed for good.
    Fatal { error: String, request_id: String, retry_count: u32 },
    /// Something has happened to a request.
    Event { event: SamplerEvent },
    /// What an answer says of whether a goal was reached.
    GoalVerify { passed: bool, reasoning: String },
}

/// What the sampler sends holds.
#[verifier::ext_equal]
pub enum BodyModel {
    Chunk,
    StreamError { error: Seq<char>, request_id: Seq<char> },
    Done { request_id: Seq<char>, usage: TokenUsage, finish_reason: Seq<char> },
    Cancelled { request_id: Seq<char> },
    Fatal { error: Seq<char>, request_id: Seq<char>, retry_count: u32 },
    Event { event: EventModel },
    GoalVerify { passed: bool, reasoning: Seq<char> },
}

impl View for SamplerBody {
    type V = BodyModel;

    open spec fn view(&self) -> BodyModel {
        match *self {
            SamplerBody::Chunk => BodyModel::Chunk,
            SamplerBody::StreamError { error, request_id } => BodyModel::StreamError {
                error: error@,
                request_id: request_id@,
            },
            SamplerBody::Done { request_id, usage, finish_reason } => BodyModel::Done {
                request_id: request_id@,
                usage: usage,
                finish_reason: finish_reason@,
            },
            SamplerBody::Cancelled { request_id } => BodyModel::Cancelled {
                request_id: request_id@,
            },
            SamplerBody::Fatal { error, request_id, retry_count } => BodyModel::Fatal {
                error: error@,
                request_id: request_id@,
                retry_count: retry_count,
            },
            SamplerBody::Event { event } => BodyModel::Event { event: event@ },
            SamplerBody::GoalVerify { passed, reasoning } => BodyModel::GoalVerify {
                passed: passed,
                reasoning: reasoning@,
            },
        }
    }
}

/// A message of the sampler. Messages go to the subscribers directly, and
/// through the kernel where that fails; a fatal error goes through the kernel.
#[derive(Debug)]
pub struct SamplerMessage {
    pub topic: Topic,
    pub body: SamplerBody,
}

/// What a message of the sampler holds.
#[verifier::ext_equal]
pub struct SamplerMessageModel {
    pub topic: Seq<char>,
    pub body: BodyModel,
}

impl View for SamplerMessage {
    type V = SamplerMessageModel;

    open spec fn view(&self) -> SamplerMessageModel {
        SamplerMessageModel { topic: self.topic@, body: self.body@ }
    }
}

/// What is told of the numbers of tokens.
pub open spec fn usage_fields(u: TokenUsage) -> PayloadModel {
    seq![
        payload::number_field("prompt_tokens"@, u.prompt_tokens as u64),
        payload::number_field("completion_tokens"@, u.completion_tokens as u64),
        payload::number_field("total_tokens"@, u.total_tokens as u64),
    ]
}

/// What is told of an event, under the event's name.
pub open spec fn event_fields(e: EventModel) -> (Seq<char>, PayloadModel) {
    match e {
        EventModel::Started { request_id, model } => (
            "Started"@,
            seq![
                payload::text_field("request_id"@, request_id),
                payload::text_field("model"@, model),
            ],
        ),
        EventModel::Completed { request_id, usage, finish_reason } => (
            "Completed"@,
            seq![
                payload::text_field("request_id"@, request_id),
                payload::nested_field("usage"@, usage_fields(usage)),
                payload::text_field("finish_reason"@, finish_reason),
            ],
        ),
        EventModel::Error { request_id, error } => (
            "Error"@,
            seq![
                payload::text_field("request_id"@, request_id),
                payload::text_field("error"@, error),
            ],
        ),
        EventModel::Cancelled { request_id } => (
            "Cancelled"@,
            seq![payload::text_field("request_id"@, request_id)],
        ),
    }
}

/// What a message carries, unless it is the piece of the answer itself.
pub open spec fn body_fields(b: BodyModel) -> Option<PayloadModel> {
    match b {
        BodyModel::Chunk => None,
        BodyModel::StreamError { error, request_id } => Some(
            seq![
                payload::text_field("error"@, error),
                payload::text_field("request_id"@, request_id),
            ],
        ),
        BodyModel::Done { request_id, usage, finish_reason } => Some(
            seq![
                payload::text_field("type"@, "done"@),
                payload::text_field("request_id"@, request_id),
                payload::nested_field("usage"@, usage_fields(usage)),
                payload::text_field("finish_reason"@, finish_reason),
            ],
        ),
        BodyModel::Cancelled { request_id } => Some(
            seq![
                payload::text_field("type"@, "cancelled"@),
                payload::text_field("request_id"@, request_id),
            ],
        ),
        BodyModel::Fatal { error, request_id, retry_count } => Some(
            seq![
                payload::text_field("error"@, error),
                payload::text_field("request_id"@, request_id),
                payload::number_field("retry_count"@, retry_count as u64),
            ],
        ),
        BodyModel::Event { event } => Some(
            seq![
                payload::nested_field(event_fields(event).0, event_fields(event).1),
            ],
        ),
        BodyModel::GoalVerify { passed, reasoning } => Some(
            seq![
                payload::flag_field("passed"@, passed),
                payload::text_field("reasoning"@, reasoning),
            ],
        ),
    }
}

impl TokenUsage {
    /// What is told of the numbers of tokens.
    fn payload(&self) -> (r: Payload)
        ensures
            r@ == usage_fields(*self),
    {
        let fields = Payload::new().number("prompt_tokens", self.prompt_tokens as u64).number(
            "completion_tokens",
            self.completion_tokens as u64,
        ).number("total_tokens", self.total_tokens as u64);
        assert(fields@ =~= usage_fields(*self));
        fields
    }
}

impl SamplerEvent {
    /// What is told of the event.
    fn payload(&self) -> (r: Payload)
        ensures
            Some(r@) == body_fields(BodyModel::Event { event: self@ }),
    {
        let (name, fields) = match self {
            SamplerEvent::Started { request_id, model } => (
                "Started",
                Payload::new().text("request_id", request_id.as_str()).text("model", model.as_str()),
            ),
            SamplerEvent::Completed { request_id, usage, finish_reason } => (
                "Completed",
                Payload::new().text("request_id", request_id.as_str()).nested("usage", &usage.payload()).text("finish_reason", finish_reason.as_str()),
            ),
            SamplerEvent::Error { request_id, error } => (
                "Error",
                Payload::new().text("request_id", request_id.as_str()).text("error", error.as_str()),
            ),
            SamplerEvent::Cancelled { request_id } => (
                "Cancelled",
                Payload::new().text("request_id", request_id.as_str()),
            ),
        };
        assert(fields@ =~= event_fields(self@).1);
        let r = Payload::new().nested(name, &fields);
        assert(r@ =~= body_fields(BodyModel::Event { event: self@ })->0);
        r
    }
}

impl SamplerBody {
    /// What the message carries, unless it is the piece of the answer itself.
    pub fn payload(&self) -> (r: Option<Payload>)
        ensures
            match r {
                Some(p) => body_fields(self@) == Some(p@),
                None => body_fields(self@) is None,
            },
    {
        let fields = match self {
            SamplerBody::Chunk => {
                return None;
            },
            SamplerBody::StreamError { error, request_id } => Payload::new().text(
                "error",
                error.as_str(),
            ).text("request_id", request_id.as_str()),
            SamplerBody::Done { request_id, usage, finish_reason } => Payload::new().text(
                "type",
                "done",
            ).text("request_id", request_id.as_str()).nested("usage", &usage.payload()).text("finish_reason", finish_reason.as_str()),
            SamplerBody::Cancelled { request_id } => Payload::new().text("type", "cancelled").text(
                "request_id",
                request_id.as_str(),
            ),
            SamplerBody::Fatal { error, request_id, retry_count } => Payload::new().text(
                "error",
                error.as_str(),
            ).text("request_id", request_id.as_str()).number("retry_count", *retry_count as u64),
            SamplerBody::Event { event } => event.payload(),
            SamplerBody::GoalVerify { passed, reasoning } => Payload::new().flag(
                "passed",
                *passed,
            ).text("reasoning", reasoning.as_str()),
        };
        assert(fields@ =~= body_fields(self@)->0);
        Some(fields)
    }
}

/// The messages that a list holds.
pub open spec fn message_models(v: Seq<SamplerMessage>) -> Seq<SamplerMessageModel> {
    v.map_values(|m: SamplerMessage| m@)
}

/// A message on the stream of a request.
pub open spec fn on_stream(request_id: Seq<char>, body: BodyModel) -> SamplerMessageModel {
    SamplerMessageModel { topic: "sampler/"@ + request_id + "/stream"@, body: body }
}

/// A message that tells of an event.
pub open spec fn event_message(e: EventModel) -> SamplerMessageModel {
    SamplerMessageModel {
        topic: "sampler/"@ + event_request(e) + "/stream/event"@,
        body: BodyModel::Event { event: e },
    }
}

/// Adds a message on the stream of a request.
fn push_on_stream(out: &mut Vec<SamplerMessage>, request_id: &str, body: SamplerBody)
    ensures
        message_models(final(out)@) == message_models(old(out)@).push(
            on_stream(request_id@, body@),
        ),
{
    let ghost before = message_models(out@);
    let ghost shown = on_stream(request_id@, body@);
    out.push(SamplerMessage { topic: Topic::sampler_stream(request_id), body: body });
    assert(message_models(out@) =~= before.push(shown));
}

/// Adds a message that tells of an event.
fn push_event(out: &mut Vec<SamplerMessage>, event: SamplerEvent)
    ensures
        message_models(final(out)@) == message_models(old(out)@).push(event_message(event@)),
{
    let ghost before = message_models(out@);
    let ghost shown = event_message(event@);
    let topic = {
        let request_id = match &event {
            SamplerEvent::Started { request_id, .. } => request_id,
            SamplerEvent::Completed { request_id, .. } => request_id,
            SamplerEvent::Error { request_id, .. } => request_id,
            SamplerEvent::Cancelled { request_id } => request_id,
        };
        Topic(ops::concat3("sampler/", request_id.as_str(), "/stream/event"))
    };
    out.push(SamplerMessage { topic: topic, body: SamplerBody::Event { event: event } });
    assert(message_models(out@) =~= before.push(shown));
}

/// No messages.
fn no_messages() -> (r: Vec<SamplerMessage>)
    ensures
        message_models(r@) == Seq::<SamplerMessageModel>::empty(),
{
    let out: Vec<SamplerMessage> = Vec::new();
    assert(message_models(out@) =~= Seq::empty());
    out
}

/// An answer that is coming in.
#[derive(Debug)]
pub struct StreamRun {
    request_id: String,
    collect_text: bool,
    usage: TokenUsage,
    text: String,
}

/// What is known of an answer that is coming in.
#[verifier::ext_equal]
pub struct RunModel {
    pub request_id: Seq<char>,
    /// Whether the text is kept.
    pub collect_text: bool,
    pub usage: TokenUsage,
    /// The text that was kept.
    pub text: Seq<char>,
}

impl View for StreamRun {
    type V = RunModel;

    closed spec fn view(&self) -> RunModel {
        RunModel {
            request_id: self.request_id@,
            collect_text: self.collect_text,
            usage: self.usage,
            text: self.text@,
        }
    }
}

/// What becomes of an answer when an item comes in.
#[verifier::ext_equal]
pub struct RunStep {
    pub run: RunModel,
    pub messages: Seq<SamplerMessageModel>,
    /// Whether more may come.
    pub goes_on: bool,
}

/// What becomes of an answer when an item comes in. A cancelled request takes
/// nothing more in.
pub open spec fn run_step(r: RunModel, cancelled: bool, item: ItemModel) -> RunStep {
    if cancelled {
        RunStep {
            run: r,
            messages: seq![event_message(EventModel::Cancelled { request_id: r.request_id })],
            goes_on: false,
        }
    } else {
        match item {
            ItemModel::Chunk { request_id, is_text, content, usage } => RunStep {
                run: RunModel {
                    usage: match usage {
                        Some(u) => usage_with(r.usage, u),
                        None => r.usage,
                    },
                    text: if r.collect_text && is_text {
                        r.text + content
                    } else {
                        r.text
                    },
                    ..r
                },
                messages: seq![on_stream(request_id, BodyModel::Chunk)],
                goes_on: true,
            },
            ItemModel::Failed { error } => RunStep {
                run: r,
                messages: seq![
                    event_message(EventModel::Error { request_id: r.request_id, error: error }),
                    on_stream(
                        r.request_id,
                        BodyModel::StreamError { error: error, request_id: r.request_id },
                    ),
                ],
                goes_on: false,
            },
        }
    }
}

/// The messages that end an answer.
pub open spec fn run_end(r: RunModel) -> Seq<SamplerMessageModel> {
    seq![
        on_stream(
            r.request_id,
            BodyModel::Done {
                request_id: r.request_id,
                usage: r.usage,
                finish_reason: "stop"@,
            },
        ),
        event_message(
            EventModel::Completed {
                request_id: r.request_id,
                usage: r.usage,
                finish_reason: "stop"@,
            },
        ),
    ]
}

impl StreamRun {
    /// An answer of which nothing has come in.
    pub fn new(request_id: &str, collect_text: bool) -> (r: Self)
        ensures
            r@ == (RunModel {
                request_id: request_id@,
                collect_text: collect_text,
                usage: no_usage(),
                text: Seq::empty(),
            }),
    {
        StreamRun {
            request_id: String::from_str(request_id),
            collect_text: collect_text,
            usage: TokenUsage { prompt_tokens: 0, completion_tokens: 0, total_tokens: 0 },
            text: String::new(),
        }
    }

    /// Takes in an item of the stream. Returns the messages to send, and whether
    /// more may come. The tokens of the prompt and of the answer together must
    /// be a number that can be told.
    pub fn take(&mut self, cancelled: bool, item: StreamItem) -> (r: (Vec<SamplerMessage>, bool))
        requires
            item@ matches ItemModel::Chunk { usage: Some(u), .. } ==> greater(
                old(self)@.usage.prompt_tokens,
                u.prompt_tokens,
            ) + greater(old(self)@.usage.completion_tokens, u.completion_tokens) <= u32::MAX,
        ensures
            ({
                let step = run_step(old(self)@, cancelled, item@);
                &&& final(self)@ == step.run
                &&& message_models(r.0@) == step.messages
                &&& r.1 == step.goes_on
            }),
    {
        let mut out = no_messages();
        if cancelled {
            push_event(
                &mut out,
                SamplerEvent::Cancelled { request_id: self.request_id.clone() },
            );
            assert(message_models(out@) =~~= run_step(old(self)@, cancelled, item@).messages);
            return (out, false);
        }
        match item {
            StreamItem::Chunk { request_id, is_text, content, usage } => {
                if let Some(u) = usage {
                    if u.prompt_tokens > self.usage.prompt_tokens {
                        self.usage.prompt_tokens = u.prompt_tokens;
                    }
                    if u.completion_tokens > self.usage.completion_tokens {
                        self.usage.completion_tokens = u.completion_tokens;
                    }
                    self.usage.total_tokens = self.usage.prompt_tokens
                        + self.usage.completion_tokens;
                }
                if self.collect_text && is_text {
                    self.text.append(content.as_str());
                }
                push_on_stream(&mut out, request_id.as_str(), SamplerBody::Chunk);
                assert(message_models(out@) =~~= run_step(old(self)@, cancelled, item@).messages);
                (out, true)
            },
            StreamItem::Failed { error } => {
                push_event(
                    &mut out,
                    SamplerEvent::Error {
                        request_id: self.request_id.clone(),
                        error: error.clone(),
                    },
                );
                push_on_stream(
                    &mut out,
                    self.request_id.as_str(),
                    SamplerBody::StreamError { error: error, request_id: self.request_id.clone() },
                );
                assert(message_models(out@) =~~= run_step(old(self)@, cancelled, item@).messages);
                (out, false)
            },
        }
    }

    /// The messages that end the answer.
    pub fn finish(&self) -> (r: Vec<SamplerMessage>)
        ensures
            message_models(r@) == run_end(self@),
    {
        let mut out = no_messages();
        push_on_stream(
            &mut out,
            self.request_id.as_str(),
            SamplerBody::Done {
                request_id: self.request_id.clone(),
                usage: self.usage,
                finish_reason: String::from_str("stop"),
            },
        );
        push_event(
            &mut out,
            SamplerEvent::Completed {
                request_id: self.request_id.clone(),
                usage: self.usage,
                finish_reason: String::from_str("stop"),
            },
        );
        assert(message_models(out@) =~~= run_end(self@));
        out
    }

    /// How many tokens the answer took.
    pub fn usage(&self) -> (r: TokenUsage)
        ensures
            r == self@.usage,
    {
        self.usage
    }

    /// The text that was kept.
    pub fn text(&self) -> (r: &str)
        ensures
            r@ == self@.text,
    {
        self.text.as_str()
    }
}

/// The counts of tokens never shrink while an answer comes in, and their total
/// is the sum of both.
pub proof fn law_usage_only_grows(r: RunModel, cancelled: bool, item: ItemModel)
    requires
        item matches ItemModel::Chunk { usage: Some(u), .. } ==> greater(
            r.usage.prompt_tokens,
            u.prompt_tokens,
        ) + greater(r.usage.completion_tokens, u.completion_tokens) <= u32::MAX,
        r.usage.total_tokens == r.usage.prompt_tokens + r.usage.completion_tokens,
    ensures
        ({
            let s = run_step(r, cancelled, item).run;
            &&& s.usage.prompt_tokens >= r.usage.prompt_tokens
            &&& s.usage.completion_tokens >= r.usage.completion_tokens
            &&& s.usage.total_tokens == s.usage.prompt_tokens + s.usage.completion_tokens
        }),
{
}

/// A report of tokens is counted: after it each count is no less than what was
/// reported, and is the reported number or the one before it. Text is kept where it is
/// to be kept, and the piece is passed on to the stream of its request.
pub proof fn law_reports_are_counted(
    r: RunModel,
    request_id: Seq<char>,
    is_text: bool,
    content: Seq<char>,
    u: TokenUsage,
)
    requires
        u.prompt_tokens + u.completion_tokens <= u32::MAX,
        u.prompt_tokens + r.usage.completion_tokens <= u32::MAX,
        r.usage.prompt_tokens + u.completion_tokens <= u32::MAX,
        r.usage.prompt_tokens + r.usage.completion_tokens <= u32::MAX,
    ensures
        ({
            let item = ItemModel::Chunk {
                request_id: request_id,
                is_text: is_text,
                content: content,
                usage: Some(u),
            };
            let s = run_step(r, false, item);
            let after = s.run.usage;
            &&& after.prompt_tokens >= u.prompt_tokens
            &&& after.prompt_tokens >= r.usage.prompt_tokens
            &&& after.prompt_tokens == u.prompt_tokens || after.prompt_tokens
                == r.usage.prompt_tokens
            &&& after.completion_tokens >= u.completion_tokens
            &&& after.completion_tokens >= r.usage.completion_tokens
            &&& after.completion_tokens == u.completion_tokens || after.completion_tokens
                == r.usage.completion_tokens
            &&& after.total_tokens == after.prompt_tokens + after.completion_tokens
            &&& s.goes_on
            &&& s.messages.len() == 1
            &&& s.messages[0].topic == "sampler/"@ + request_id + "/stream"@
            &&& s.messages[0].body is Chunk
            &&& s.run.text.len() == r.text.len() + if r.collect_text && is_text {
                content.len()
            } else {
                0
            }
            &&& s.run.text.take(r.text.len() as int) == r.text
            &&& r.collect_text && is_text ==> s.run.text.skip(r.text.len() as int) == content
        }),
{
    let item = ItemModel::Chunk {
        request_id: request_id,
        is_text: is_text,
        content: content,
        usage: Some(u),
    };
    let s = run_step(r, false, item);
    assert(s.run.text.take(r.text.len() as int) =~= r.text);
    if r.collect_text && is_text {
        assert(s.run.text.skip(r.text.len() as int) =~= content);
    }
}

/// A request that was cancelled takes nothing in and goes no further; that it was
/// cancelled is told once.
pub proof fn law_cancelled_stream_stops(r: RunModel, item: ItemModel)
    ensures
        run_step(r, true, item).run == r,
        !run_step(r, true, item).goes_on,
        run_step(r, true, item).messages.len() == 1,
        run_step(r, true, item).messages[0].topic == "sampler/"@ + r.request_id
            + "/stream/event"@,
        run_step(r, true, item).messages[0].body matches BodyModel::Event { event }
            && event == (EventModel::Cancelled { request_id: r.request_id }),
{
}

/// A failure of the stream ends it, keeps what was counted, and is told with its text
/// both as an event and on the stream.
pub proof fn law_failed_stream_stops(r: RunModel, error: Seq<char>)
    ensures
        ({
            let s = run_step(r, false, ItemModel::Failed { error: error });
            &&& s.run == r
            &&& !s.goes_on
            &&& s.messages.len() == 2
            &&& s.messages[0].topic == "sampler/"@ + r.request_id + "/stream/event"@
            &&& s.messages[0].body matches BodyModel::Event { event } && event
                == (EventModel::Error { request_id: r.request_id, error: error })
            &&& s.messages[1].topic == "sampler/"@ + r.request_id + "/stream"@
            &&& s.messages[1].body == (BodyModel::StreamError {
                error: error,
                request_id: r.request_id,
            })
        }),
{
}

/// An answer after some pieces of its stream, while nobody cancels it.
pub open spec fn run_after(r: RunModel, items: Seq<ItemModel>) -> RunModel
    decreases items.len(),
{
    if items.len() == 0 {
        r
    } else {
        run_step(run_after(r, items.drop_last()), false, items.last()).run
    }
}

/// Item `k` reports these tokens.
pub open spec fn reports(items: Seq<ItemModel>, k: int, u: TokenUsage) -> bool {
    0 <= k < items.len() && (items[k] matches ItemModel::Chunk { usage: Some(v), .. } && v == u)
}

/// The number is the prompt's or the answer's in some report, or none has come.
pub open spec fn is_reported(items: Seq<ItemModel>, n: u32, of_prompt: bool) -> bool {
    n == 0 || exists|k: int, u: TokenUsage|
        #[trigger] reports(items, k, u) && n == if of_prompt {
            u.prompt_tokens
        } else {
            u.completion_tokens
        }
}

/// What a whole answer is told to have taken is the greatest number that any piece of
/// its stream has reported, for the prompt and for the answer each, and both its last
/// messages tell it.
pub proof fn law_greatest_report_is_told(
    request_id: Seq<char>,
    collect_text: bool,
    items: Seq<ItemModel>,
)
    ensures
        ({
            let start = RunModel {
                request_id: request_id,
                collect_text: collect_text,
                usage: TokenUsage { prompt_tokens: 0, completion_tokens: 0, total_tokens: 0 },
                text: Seq::empty(),
            };
            let end = run_after(start, items);
            let told = run_end(end);
            &&& end.request_id == request_id
            &&& forall|k: int, u: TokenUsage|
                #[trigger] reports(items, k, u) ==> u.prompt_tokens <= end.usage.prompt_tokens
                    && u.completion_tokens <= end.usage.completion_tokens
            &&& is_reported(items, end.usage.prompt_tokens, true)
            &&& is_reported(items, end.usage.completion_tokens, false)
            &&& told.len() == 2
            &&& told[0].topic == "sampler/"@ + request_id + "/stream"@
            &&& told[0].body matches BodyModel::Done { usage, finish_reason, .. } && usage
                == end.usage && finish_reason == "stop"@
            &&& told[1].topic == "sampler/"@ + request_id + "/stream/event"@
            &&& told[1].body matches BodyModel::Event { event } && event
                == (EventModel::Completed {
                request_id: request_id,
                usage: end.usage,
                finish_reason: "stop"@,
            })
        }),
    decreases items.len(),
{
    let start = RunModel {
        request_id: request_id,
        collect_text: collect_text,
        usage: TokenUsage { prompt_tokens: 0, completion_tokens: 0, total_tokens: 0 },
        text: Seq::empty(),
    };
    if items.len() > 0 {
        let before = items.drop_last();
        law_greatest_report_is_told(request_id, collect_text, before);
        let a = run_after(start, before);
        let b = run_after(start, items);
        assert forall|k: int, u: TokenUsage| #[trigger] reports(before, k, u) implies reports(
            items,
            k,
            u,
        ) by {
            assert(items[k] == before[k]);
        }
        assert forall|k: int, u: TokenUsage| #[trigger] reports(items, k, u) implies u.prompt_tokens
            <= b.usage.prompt_tokens && u.completion_tokens <= b.usage.completion_tokens by {
            if k < before.len() {
                assert(items[k] == before[k]);
                assert(reports(before, k, u));
            }
        }
        if let ItemModel::Chunk { usage: Some(v), .. } = items.last() {
            assert(reports(items, items.len() - 1, v));
        }
        assert(is_reported(before, a.usage.prompt_tokens, true));
        if a.usage.prompt_tokens != 0 {
            let (k, u) = choose|k: int, u: TokenUsage| #[trigger]
                reports(before, k, u) && a.usage.prompt_tokens == u.prompt_tokens;
            assert(reports(items, k, u));
        }
        if a.usage.completion_tokens != 0 {
            let (k, u) = choose|k: int, u: TokenUsage| #[trigger]
                reports(before, k, u) && a.usage.completion_tokens == u.completion_tokens;
            assert(reports(items, k, u));
        }
    }
}

/// What to do about a failed attempt.
#[derive(Debug)]
pub enum RetryDecision {
    /// Try again after a while.
    Retry { backoff_ms: u64 },
    /// Try again after a while, because too many requests were made.
    RetryWithBackoff { backoff_ms: u64, is_rate_limited: bool },
    /// Try again almost at once.
    RetryImmediate { backoff_ms: u64 },
    /// Give up.
    Fatal(String),
}

/// What follows a failed attempt.
#[derive(Debug)]
pub enum RetryStep {
    /// Wait this many milliseconds and try again.
    Wait { backoff_ms: u64 },
    /// Give up, and send these messages.
    GiveUp { messages: Vec<SamplerMessage> },
}

/// How long to wait before the next attempt, unless it is to be given up.
pub open spec fn wait_of(d: RetryDecision) -> Option<u64> {
    match d {
        RetryDecision::Retry { backoff_ms } => Some(backoff_ms),
        RetryDecision::RetryWithBackoff { backoff_ms, .. } => Some(backoff_ms),
        RetryDecision::RetryImmediate { backoff_ms } => Some(backoff_ms),
        RetryDecision::Fatal(_) => None,
    }
}

/// The messages that follow when a request is given up.
pub open spec fn fatal_messages(
    request_id: Seq<char>,
    reason: Seq<char>,
    error: Seq<char>,
    retry_count: u32,
) -> Seq<SamplerMessageModel> {
    seq![
        event_message(EventModel::Error { request_id: request_id, error: reason }),
        on_stream(
            request_id,
            BodyModel::Fatal { error: error, request_id: request_id, retry_count: retry_count },
        ),
    ]
}

/// What asking a provider comes to.
#[derive(Debug, Clone, Copy, PartialEq, Eq, Structural)]
pub enum ProviderOutcome {
    /// There is no provider for the model.
    NotFound,
    /// The provider is known but not there.
    Missing,
    /// The provider answers.
    Streams,
    /// The provider fails.
    Fails,
}

/// What to do after a provider was asked.
#[derive(Debug, Clone, Copy, PartialEq, Eq, Structural)]
pub enum ProviderStep {
    /// Take its answer.
    Use,
    /// Ask another provider.
    TryFallback,
    /// Say that it is not there.
    SayMissing,
    /// Say that no provider is available.
    GiveUp,
}

/// What to do after the first provider was asked.
pub fn after_primary(outcome: ProviderOutcome) -> (r: ProviderStep)
    ensures
        r == match outcome {
            ProviderOutcome::NotFound => ProviderStep::GiveUp,
            ProviderOutcome::Missing => ProviderStep::SayMissing,
            ProviderOutcome::Streams => ProviderStep::Use,
            ProviderOutcome::Fails => ProviderStep::TryFallback,
        },
{
    match outcome {
        ProviderOutcome::NotFound => ProviderStep::GiveUp,
        ProviderOutcome::Missing => ProviderStep::SayMissing,
        ProviderOutcome::Streams => ProviderStep::Use,
        ProviderOutcome::Fails => ProviderStep::TryFallback,
    }
}

/// What to do after the second provider was asked.
pub fn after_fallback(outcome: ProviderOutcome) -> (r: ProviderStep)
    ensures
        r == if outcome == ProviderOutcome::Streams {
            ProviderStep::Use
        } else {
            ProviderStep::GiveUp
        },
{
    match outcome {
        ProviderOutcome::Streams => ProviderStep::Use,
        _ => ProviderStep::GiveUp,
    }
}

/// What is said when no provider is available for a model.
pub fn no_provider_error(model: &str) -> (r: String)
    ensures
        r@ == "未找到模型 "@ + model@ + " 的可用 Provider"@,
{
    ops::concat3("未找到模型 ", model, " 的可用 Provider")
}

/// What is said when a provider is not there.
pub fn missing_provider_error(name: &str) -> (r: String)
    ensures
        r@ == "Provider "@ + name@ + " 不存在"@,
{
    ops::concat3("Provider ", name, " 不存在")
}

/// The sampler.
#[derive(Debug)]
pub struct SamplerNode {
    id: NodeId,
    max_retries: u32,
    cancel_handles: TextMap<bool>,
}

/// What the sampler holds.
#[verifier::ext_equal]
pub struct SamplerModel {
    pub id: Seq<char>,
    pub max_retries: u32,
    /// The requests that are being worked on, each with whether it was
    /// cancelled.
    pub active: Map<Seq<char>, bool>,
}

impl View for SamplerNode {
    type V = SamplerModel;

    closed spec fn view(&self) -> SamplerModel {
        SamplerModel {
            id: self.id@,
            max_retries: self.max_retries,
            active: self.cancel_handles@,
        }
    }
}

/// What a topic asks of the sampler.
#[derive(Debug)]
pub enum SamplerCommand {
    /// A model is to be asked; the payload says what.
    Sample,
    /// A request is to be cancelled.
    Cancel { request_id: String },
    /// Nothing.
    Ignore,
}

/// The request that a topic asks to be cancelled. The topics `sampler/cancel`
/// and `sampler//cancel` name no request.
pub open spec fn cancelled_request(topic: Seq<char>) -> Option<Seq<char>> {
    if model::starts_with(topic, "sampler/"@) && model::ends_with(topic, "/cancel"@)
        && topic.len() > 15 {
        Some(topic.subrange(8, topic.len() - 7))
    } else {
        None
    }
}

/// What a topic asks of the sampler.
pub fn command_of(topic: &Topic) -> (r: SamplerCommand)
    ensures
        match r {
            SamplerCommand::Sample => topic@ == "sampler/request"@,
            SamplerCommand::Cancel { request_id } => topic@ != "sampler/request"@
                && cancelled_request(topic@) == Some(request_id@),
            SamplerCommand::Ignore => topic@ != "sampler/request"@ && cancelled_request(
                topic@,
            ) is None,
        },
{
    let name = ops::chars_of(topic.as_str());
    let t = name.as_slice();
    if ops::is_text(t, "sampler/request") {
        return SamplerCommand::Sample;
    }
    if ops::starts_with(t, "sampler/") && ops::ends_with(t, "/cancel") && t.len() > 15 {
        let id = vstd::slice::slice_subrange(t, 8, t.len() - 7);
        return SamplerCommand::Cancel { request_id: ops::string_of(id) };
    }
    SamplerCommand::Ignore
}

impl SamplerNode {
    pub closed spec fn wf(&self) -> bool {
        self.cancel_handles.wf()
    }

    /// A sampler that works on nothing.
    pub fn new(id: NodeId, max_retries: u32) -> (r: Self)
        ensures
            r.wf(),
            r@ == (SamplerModel { id: id@, max_retries: max_retries, active: Map::empty() }),
    {
        SamplerNode { id: id, max_retries: max_retries, cancel_handles: TextMap::new() }
    }

    pub fn node_type(&self) -> (r: NodeType)
        ensures
            r == NodeType::Sampler,
    {
        NodeType::Sampler
    }

    pub fn node_id(&self) -> (r: &NodeId)
        ensures
            r@ == self@.id,
    {
        &self.id
    }

    /// How often a failed request is tried again at most.
    pub fn max_retries(&self) -> (r: u32)
        ensures
            r == self@.max_retries,
    {
        self.max_retries
    }

    /// Starts to work on a request. Returns the messages to send.
    pub fn begin(&mut self, request_id: &str, model: &str) -> (r: Vec<SamplerMessage>)
        requires
            old(self).wf(),
        ensures
            final(self).wf(),
            final(self)@ == (SamplerModel {
                active: old(self)@.active.insert(request_id@, false),
                ..old(self)@
            }),
            message_models(r@) == seq![
                event_message(EventModel::Started { request_id: request_id@, model: model@ }),
            ],
    {
        self.cancel_handles.insert(String::from_str(request_id), false);
        let mut out = no_messages();
        push_event(
            &mut out,
            SamplerEvent::Started {
                request_id: String::from_str(request_id),
                model: String::from_str(model),
            },
        );
        assert(message_models(out@) =~~= seq![
            event_message(EventModel::Started { request_id: request_id@, model: model@ }),
        ]);
        out
    }

    /// Whether a request is being worked on and was cancelled.
    pub fn is_cancelled(&self, request_id: &str) -> (r: bool)
        requires
            self.wf(),
        ensures
            r == (self@.active.contains_key(request_id@) && self@.active[request_id@]),
    {
        match self.cancel_handles.get(request_id) {
            Some(c) => *c,
            None => false,
        }
    }

    /// Stops working on a request.
    pub fn end(&mut self, request_id: &str)
        requires
            old(self).wf(),
        ensures
            final(self).wf(),
            final(self)@ == (SamplerModel {
                active: old(self)@.active.remove(request_id@),
                ..old(self)@
            }),
    {
        self.cancel_handles.remove(request_id);
    }

    /// Cancels a request, if it is being worked on. Returns the messages to
    /// send.
    pub fn cancel_request(&mut self, request_id: &str) -> (r: Vec<SamplerMessage>)
        requires
            old(self).wf(),
        ensures
            final(self).wf(),
            final(self)@ == (SamplerModel {
                active: old(self)@.active.remove(request_id@),
                ..old(self)@
            }),
            message_models(r@) == if old(self)@.active.contains_key(request_id@) {
                seq![
                    on_stream(request_id@, BodyModel::Cancelled { request_id: request_id@ }),
                    event_message(EventModel::Cancelled { request_id: request_id@ }),
                ]
            } else {
                Seq::empty()
            },
    {
        let mut out = no_messages();
        if self.cancel_handles.remove(request_id).is_some() {
            push_on_stream(
                &mut out,
                request_id,
                SamplerBody::Cancelled { request_id: String::from_str(request_id) },
            );
            push_event(
                &mut out,
                SamplerEvent::Cancelled { request_id: String::from_str(request_id) },
            );
            assert(message_models(out@) =~~= seq![
                on_stream(request_id@, BodyModel::Cancelled { request_id: request_id@ }),
                event_message(EventModel::Cancelled { request_id: request_id@ }),
            ]);
        }
        out
    }

    /// Takes in a failed attempt and what was decided about it: waits and tries
    /// again, or gives the request up and stops working on it.
    pub fn handle_failure(
        &mut self,
        request_id: &str,
        error: &str,
        retry_count: u32,
        decision: RetryDecision,
    ) -> (r: RetryStep)
        requires
            old(self).wf(),
        ensures
            final(self).wf(),
            match r {
                RetryStep::Wait { backoff_ms } => wait_of(decision) == Some(backoff_ms)
                    && final(self)@ == old(self)@,
                RetryStep::GiveUp { messages } => {
                    &&& decision is Fatal
                    &&& final(self)@ == (SamplerModel {
                        active: old(self)@.active.remove(request_id@),
                        ..old(self)@
                    })
                    &&& message_models(messages@) == fatal_messages(
                        request_id@,
                        decision->Fatal_0@,
                        error@,
                        retry_count,
                    )
                },
            },
    {
        match decision {
            RetryDecision::Retry { backoff_ms } => RetryStep::Wait { backoff_ms: backoff_ms },
            RetryDecision::RetryWithBackoff { backoff_ms, .. } => RetryStep::Wait {
                backoff_ms: backoff_ms,
            },
            RetryDecision::RetryImmediate { backoff_ms } => RetryStep::Wait {
                backoff_ms: backoff_ms,
            },
            RetryDecision::Fatal(reason) => {
                let mut out = no_messages();
                let ghost why = reason@;
                push_event(
                    &mut out,
                    SamplerEvent::Error { request_id: String::from_str(request_id), error: reason },
                );
                push_on_stream(
                    &mut out,
                    request_id,
                    SamplerBody::Fatal {
                        error: String::from_str(error),
                        request_id: String::from_str(request_id),
                        retry_count: retry_count,
                    },
                );
                assert(message_models(out@) =~~= fatal_messages(
                    request_id@,
                    why,
                    error@,
                    retry_count,
                ));
                self.cancel_handles.remove(request_id);
                RetryStep::GiveUp { messages: out }
            },
        }
    }

    /// The message that says whether an answer finds a goal reached.
    pub fn goal_verify_message(text: &str, passed: bool) -> (r: SamplerMessage)
        ensures
            r@ == (SamplerMessageModel {
                topic: "cortex/goal_verify_result"@,
                body: BodyModel::GoalVerify {
                    passed: passed,
                    reasoning: if text@.len() <= 200 {
                        text@
                    } else {
                        text@.take(200)
                    },
                },
            }),
    {
        let chars = ops::chars_of(text);
        let reasoning = if chars.len() <= 200 {
            String::from_str(text)
        } else {
            ops::string_of(ops::take(chars.as_slice(), 200))
        };
        SamplerMessage {
            topic: Topic::new("cortex/goal_verify_result"),
            body: SamplerBody::GoalVerify { passed: passed, reasoning: reasoning },
        }
    }

    /// The topics that the sampler listens to.
    pub fn subscriptions(&self) -> (r: Vec<String>)
        ensures
            model::texts(r@) == seq!["sampler/request"@, "sampler/*/cancel"@],
    {
        let out = crate::node::payload::strings(&["sampler/request", "sampler/*/cancel"]);
        assert(model::texts(out@) =~= seq!["sampler/request"@, "sampler/*/cancel"@]);
        out
    }

    /// The topics that the sampler speaks on.
    pub fn published_topics(&self) -> (r: Vec<String>)
        ensures
            model::texts(r@) == seq!["sampler/*/stream"@],
    {
        let out = crate::node::payload::strings(&["sampler/*/stream"]);
        assert(model::texts(out@) =~= seq!["sampler/*/stream"@]);
        out
    }
}

/// A request that was cancelled is not worked on any more: cancelling it again
/// says nothing.
pub proof fn law_cancelled_request_is_gone(active: Map<Seq<char>, bool>, request_id: Seq<char>)
    ensures
        !active.remove(request_id).contains_key(request_id),
        active.remove(request_id).remove(request_id) == active.remove(request_id),
{
    assert(active.remove(request_id).remove(request_id) =~= active.remove(request_id));
}

/// The topic of a request's cancellation names the request: whatever its identifier is,
/// it is read back from the topic.
pub proof fn law_cancelled_request_is_named(request_id: Seq<char>)
    requires
        request_id.len() > 0,
    ensures
        cancelled_request("sampler/"@ + request_id + "/cancel"@) == Some(request_id),
{
    reveal_strlit("sampler/");
    reveal_strlit("/cancel");
    let t = "sampler/"@ + request_id + "/cancel"@;
    assert(t.take(8) =~= "sampler/"@);
    assert(t.skip(t.len() - 7) =~= "/cancel"@);
    assert(t.subrange(8, t.len() - 7) =~= request_id);
}

/// A decision to try again says how long to wait, and only the decision to give up says
/// nothing; giving up is told on the request's stream with the error and the number of
/// attempts, and as an event with the reason.
pub proof fn law_retries_wait_as_decided(
    backoff_ms: u64,
    is_rate_limited: bool,
    request_id: Seq<char>,
    reason: String,
    error: Seq<char>,
    retry_count: u32,
)
    ensures
        wait_of(RetryDecision::Retry { backoff_ms }) == Some(backoff_ms),
        wait_of(RetryDecision::RetryWithBackoff { backoff_ms, is_rate_limited }) == Some(
            backoff_ms,
        ),
        wait_of(RetryDecision::RetryImmediate { backoff_ms }) == Some(backoff_ms),
        wait_of(RetryDecision::Fatal(reason)) is None,
        ({
            let v = fatal_messages(request_id, reason@, error, retry_count);
            &&& v.len() == 2
            &&& v[0].topic == "sampler/"@ + request_id + "/stream/event"@
            &&& v[0].body matches BodyModel::Event { event } && event == (EventModel::Error {
                request_id: request_id,
                error: reason@,
            })
            &&& v[1].topic == "sampler/"@ + request_id + "/stream"@
            &&& v[1].body == (BodyModel::Fatal {
                error: error,
                request_id: request_id,
                retry_count: retry_count,
            })
        }),
{
}

/// The part of a text from its first `{` to its last `}`.
pub open spec fn braced(text: Seq<char>) -> Option<Seq<char>> {
    match (model::find(text, "{"@), model::rfind(text, "}"@)) {
        (Some(a), Some(b)) => if b > a {
            Some(text.subrange(a, b + 1))
        } else {
            None
        },
        _ => None,
    }
}

/// The part of a text from its first `{` to its last `}`.
pub fn braced_part(text: &str) -> (r: Option<String>)
    ensures
        model::opt_text(r) == braced(text@),
{
    proof {
        reveal_strlit("{");
        reveal_strlit("}");
    }
    let chars = ops::chars_of(text);
    let s = chars.as_slice();
    let n: usize = s.len();
    match ops::find(s, "{") {
        Some(a) => match ops::rfind(s, "}") {
            Some(b) if b > a && b < n => Some(
                ops::string_of(vstd::slice::slice_subrange(s, a, b + 1)),
            ),
            _ => None,
        },
        None => None,
    }
}

/// Whether an answer finds a goal reached, given what its whole text and its
/// part in braces say as JSON, and its text in lower case. Where nothing tells,
/// the goal is not reached.
pub open spec fn verdict(whole: Option<bool>, part: Option<bool>, lowered: Seq<char>) -> bool {
    match whole {
        Some(p) => p,
        None => match part {
            Some(p) => p,
            None => model::contains(lowered, "\"passed\": true"@) || model::contains(
                lowered,
                "已通过"@,
            ) || model::contains(lowered, "验证通过"@),
        },
    }
}

/// Whether an answer finds a goal reached, given what its whole text and its
/// part in braces say as JSON, and its text in lower case.
pub fn goal_verdict(whole: Option<bool>, part: Option<bool>, lowered: &str) -> (r: bool)
    ensures
        r == verdict(whole, part, lowered@),
{
    if let Some(p) = whole {
        return p;
    }
    if let Some(p) = part {
        return p;
    }
    let chars = ops::chars_of(lowered);
    let s = chars.as_slice();
    ops::contains(s, "\"passed\": true") || ops::contains(s, "已通过") || ops::contains(
        s,
        "验证通过",
    )
}

/// Whether an answer finds a goal reached. The answer should be a JSON object
/// with a truth value under `passed`, or hold one.
pub fn parse_goal_verify_json(text: &str) -> (r: bool)
    ensures
        r == verdict(
            outside::json_flag_of(text@, "passed"@),
            match braced(text@) {
                Some(s) => outside::json_flag_of(s, "passed"@),
                None => None,
            },
            outside::lower(text@),
        ),
{
    let whole = outside::json_flag(text, "passed");
    let part = match braced_part(text) {
        Some(s) => outside::json_flag(s.as_str(), "passed"),
        None => None,
    };
    let lowered = outside::to_lowercase(text);
    goal_verdict(whole, part, lowered.as_str())
}

/// The decimal digits at the front of a text.
pub open spec fn leading_digits(s: Seq<char>) -> Seq<char>
    decreases s.len(),
{
    if s.len() > 0 && model::is_ascii_digit(s[0]) {
        seq![s[0]] + leading_digits(s.skip(1))
    } else {
        Seq::empty()
    }
}

/// The status of an error that stands after a word in the text.
pub open spec fn status_after(lowered: Seq<char>, word: Seq<char>) -> Option<nat> {
    match model::find(lowered, word) {
        Some(i) => {
            let digits = leading_digits(lowered.skip(i + word.len()));
            if digits.len() > 0 && 400 <= number::number_of(digits) < 600 {
                Some(number::number_of(digits))
            } else {
                None
            }
        },
        None => None,
    }
}

/// The HTTP status of an error that an error's text tells of, given the text in
/// lower case: a number from 400 to 599 after `http` or `status` and a blank.
pub open spec fn status_of(lowered: Seq<char>) -> Option<nat> {
    match status_after(lowered, "http "@) {
        Some(n) => Some(n),
        None => status_after(lowered, "status "@),
    }
}

proof fn lemma_leading_digits(s: Seq<char>, n: int)
    requires
        0 <= n <= s.len(),
        forall|k: int| 0 <= k < n ==> model::is_ascii_digit(#[trigger] s[k]),
        n < s.len() ==> !model::is_ascii_digit(s[n]),
    ensures
        leading_digits(s) == s.take(n),
    decreases n,
{
    if n > 0 {
        assert(model::is_ascii_digit(s[0]));
        let t = s.skip(1);
        assert forall|k: int| 0 <= k < n - 1 implies model::is_ascii_digit(#[trigger] t[k]) by {
            assert(t[k] == s[k + 1]);
        }
        lemma_leading_digits(t, n - 1);
        assert(seq![s[0]] + t.take(n - 1) =~= s.take(n));
    } else {
        assert(s.take(0) =~= Seq::empty());
    }
}

/// The status of an error that stands after a word in the text.
fn find_status(lowered: &[char], word: &str, len: usize) -> (r: Option<u16>)
    requires
        len == word@.len(),
    ensures
        match r {
            Some(n) => status_after(lowered@, word@) == Some(n as nat),
            None => status_after(lowered@, word@) is None,
        },
{
    let total: usize = lowered.len();
    match ops::find(lowered, word) {
        Some(i) => {
            let after = ops::skip(lowered, i + len);
            let mut n: usize = 0;
            let mut value: u32 = 0;
            while n < after.len() && ops::is_ascii_digit(after[n])
                invariant
                    n <= after@.len(),
                    value <= 1000,
                    value == number::number_of(after@.take(n as int)) || (value == 1000 && number::number_of(
                        after@.take(n as int),
                    ) >= 1000),
                    forall|k: int| 0 <= k < n ==> model::is_ascii_digit(#[trigger] after@[k]),
                decreases after@.len() - n,
            {
                proof {
                    assert(after@.take(n + 1).drop_last() =~= after@.take(n as int));
                    assert(after@.take(n + 1).last() == after@[n as int]);
                }
                let d: u32 = after[n] as u32 - '0' as u32;
                value = if value * 10 + d >= 1000 {
                    1000
                } else {
                    value * 10 + d
                };
                n = n + 1;
            }
            proof {
                lemma_leading_digits(after@, n as int);
            }
            if n > 0 && value >= 400 && value < 600 {
                Some(value as u16)
            } else {
                None
            }
        },
        None => None,
    }
}

/// The HTTP status that an error's text tells of, given the text in lower case.
pub fn status_code_of(lowered: &str) -> (r: Option<u16>)
    ensures
        match r {
            Some(n) => status_of(lowered@) == Some(n as nat),
            None => status_of(lowered@) is None,
        },
{
    proof {
        reveal_strlit("http ");
        reveal_strlit("status ");
    }
    let chars = ops::chars_of(lowered);
    match find_status(chars.as_slice(), "http ", 5) {
        Some(n) => Some(n),
        None => find_status(chars.as_slice(), "status ", 7),
    }
}

/// The HTTP status that an error's text tells of.
pub fn extract_status_code(error_message: &str) -> (r: Option<u16>)
    ensures
        match r {
            Some(n) => status_of(outside::lower(error_message@)) == Some(n as nat),
            None => status_of(outside::lower(error_message@)) is None,
        },
{
    let lowered = outside::to_lowercase(error_message);
    status_code_of(lowered.as_str())
}

/// A JSON object is found between other texts: where the text before it holds no `{`,
/// and the text behind it no `}`, the part in braces is the object.
pub proof fn law_braced_part_is_found(before: Seq<char>, inner: Seq<char>, behind: Seq<char>)
    requires
        !before.contains('{'),
        !behind.contains('}'),
    ensures
        braced(before + seq!['{'] + inner + seq!['}'] + behind) == Some(
            seq!['{'] + inner + seq!['}'],
        ),
{
    reveal_strlit("{");
    reveal_strlit("}");
    let s = before + seq!['{'] + inner + seq!['}'] + behind;
    let a = before.len() as int;
    let b = a + 1 + inner.len();
    assert("{"@ =~= seq!['{']);
    assert("}"@ =~= seq!['}']);
    assert forall|k: int| 0 <= k < a implies !model::occurs_at(s, "{"@, k) by {
        if model::occurs_at(s, "{"@, k) {
            assert(s.subrange(k, k + 1)[0] == before[k]);
        }
    }
    assert(s.subrange(a, a + 1) =~= "{"@);
    lemmas::lemma_find_first(s, "{"@, a, 0);
    assert(s.subrange(b, b + 1) =~= "}"@);
    assert forall|k: int| b < k < s.len() implies !model::occurs_at(s, "}"@, k) by {
        if model::occurs_at(s, "}"@, k) {
            assert(s.subrange(k, k + 1)[0] == behind[k - b - 1]);
        }
    }
    lemma_rfind_last(s, "}"@, b, s.len() - 1);
    assert(s.subrange(a, b + 1) =~= seq!['{'] + inner + seq!['}']);
}

proof fn lemma_rfind_last(s: Seq<char>, p: Seq<char>, i: int, j: int)
    requires
        0 <= i <= j,
        model::occurs_at(s, p, i),
        forall|k: int| i < k <= j ==> !model::occurs_at(s, p, k),
    ensures
        model::rfind_from(s, p, j) == Some(i),
    decreases j - i,
{
    if i < j {
        lemma_rfind_last(s, p, i, j - 1);
    }
}

/// What the whole answer says as JSON decides; where it says nothing, its part in braces
/// does; where that says nothing either, the goal is reached only if the text says so.
pub proof fn law_goal_needs_a_word(p: bool, part: Option<bool>, lowered: Seq<char>)
    ensures
        verdict(Some(p), part, lowered) == p,
        verdict(None, Some(p), lowered) == p,
        verdict(None, None, lowered) <==> model::contains(lowered, "\"passed\": true"@)
            || model::contains(lowered, "已通过"@) || model::contains(lowered, "验证通过"@),
{
}

/// The status of an error is read from its text: a number of three digits from 400 to
/// 599 that stands behind the first `http` and a blank is the status, whatever follows
/// it but another digit.
pub proof fn law_status_is_read(before: Seq<char>, n: nat, behind: Seq<char>)
    requires
        400 <= n < 600,
        !before.contains('h'),
        behind.len() == 0 || !model::is_ascii_digit(behind[0]),
    ensures
        status_of(before + "http "@ + model::decimal(n) + behind) == Some(n),
{
    reveal_strlit("http ");
    let word = "http "@;
    let digits = model::decimal(n);
    let s = before + word + digits + behind;
    let a = before.len() as int;
    assert forall|k: int| 0 <= k < a implies !model::occurs_at(s, word, k) by {
        if model::occurs_at(s, word, k) {
            assert(s.subrange(k, k + 5)[0] == before[k]);
            assert(word[0] == 'h');
        }
    }
    assert(s.subrange(a, a + 5) =~= word);
    lemmas::lemma_find_first(s, word, a, 0);
    let rest = s.skip(a + 5);
    assert(rest =~= digits + behind);
    number::law_decimal_is_read_back(n);
    lemma_decimal_digits(n);
    assert forall|k: int| 0 <= k < digits.len() implies model::is_ascii_digit(
        #[trigger] rest[k],
    ) by {
        assert(rest[k] == digits[k]);
    }
    if digits.len() < rest.len() {
        assert(rest[digits.len() as int] == behind[0]);
    }
    lemma_leading_digits(rest, digits.len() as int);
    assert(rest.take(digits.len() as int) =~= digits);
}

proof fn lemma_decimal_digits(n: nat)
    ensures
        model::decimal(n).len() > 0,
        forall|k: int|
            0 <= k < model::decimal(n).len() ==> model::is_ascii_digit(
                #[trigger] model::decimal(n)[k],
            ),
    decreases n,
{
    if n >= 10 {
        lemma_decimal_digits(n / 10);
    }
}

/// Only a number from 400 to 599 is a status of an error.
pub proof fn law_status_is_an_error(lowered: Seq<char>)
    ensures
        status_of(lowered) matches Some(n) ==> 400 <= n < 600,
{
}

/// The end of an answer is told with its usage and reason, a cancellation, a failure and a
/// verdict with what they are about; each names its request.
pub proof fn law_bodies_tell_what_happened(
    request_id: Seq<char>,
    usage: TokenUsage,
    finish_reason: Seq<char>,
    error: Seq<char>,
    retry_count: u32,
    passed: bool,
    reasoning: Seq<char>,
)
    ensures
        body_fields(BodyModel::Chunk) is None,
        ({
            &&& body_fields(BodyModel::Done { request_id, usage, finish_reason }) matches Some(p)
            &&& payload::text_at(p, "type"@) == Some("done"@)
            &&& payload::text_at(p, "request_id"@) == Some(request_id)
            &&& payload::field(p, "usage"@) == payload::FieldModel::Packed(
                outside::packed(usage_fields(usage)),
            )
            &&& payload::text_at(p, "finish_reason"@) == Some(finish_reason)
        }),
        ({
            &&& body_fields(BodyModel::Cancelled { request_id }) matches Some(p)
            &&& payload::text_at(p, "type"@) == Some("cancelled"@)
            &&& payload::text_at(p, "request_id"@) == Some(request_id)
        }),
        ({
            &&& body_fields(BodyModel::StreamError { error, request_id }) matches Some(p)
            &&& payload::text_at(p, "error"@) == Some(error)
            &&& payload::text_at(p, "request_id"@) == Some(request_id)
        }),
        ({
            &&& body_fields(BodyModel::Fatal { error, request_id, retry_count }) matches Some(p)
            &&& payload::text_at(p, "error"@) == Some(error)
            &&& payload::text_at(p, "request_id"@) == Some(request_id)
            &&& payload::number_or(p, "retry_count"@, 0) == retry_count
        }),
        ({
            &&& body_fields(BodyModel::GoalVerify { passed, reasoning }) matches Some(p)
            &&& payload::flag_or(p, "passed"@, !passed) == passed
            &&& payload::text_at(p, "reasoning"@) == Some(reasoning)
        }),
{
    reveal_strlit("type");
    reveal_strlit("request_id");
    reveal_strlit("usage");
    reveal_strlit("finish_reason");
    reveal_strlit("error");
    reveal_strlit("retry_count");
    reveal_strlit("passed");
    reveal_strlit("reasoning");
    assert("type"@.len() == 4 && "request_id"@.len() == 10 && "usage"@.len() == 5 && "finish_reason"@.len() == 13 && "error"@.len() == 5 && "retry_count"@.len() == 11 && "passed"@.len() == 6 && "reasoning"@.len() == 9);
    assert("error"@[0] == 'e' && "usage"@[0] == 'u');
    let a = body_fields(BodyModel::Done { request_id, usage, finish_reason })->0;
    payload::law_field_is_read_by_name(a, 0);
    payload::law_field_is_read_by_name(a, 1);
    payload::law_field_is_read_by_name(a, 2);
    payload::law_field_is_read_by_name(a, 3);
    let b = body_fields(BodyModel::Cancelled { request_id })->0;
    payload::law_field_is_read_by_name(b, 0);
    payload::law_field_is_read_by_name(b, 1);
    let c = body_fields(BodyModel::StreamError { error, request_id })->0;
    payload::law_field_is_read_by_name(c, 0);
    payload::law_field_is_read_by_name(c, 1);
    let d = body_fields(BodyModel::Fatal { error, request_id, retry_count })->0;
    payload::law_field_is_read_by_name(d, 0);
    payload::law_field_is_read_by_name(d, 1);
    payload::law_field_is_read_by_name(d, 2);
    let e = body_fields(BodyModel::GoalVerify { passed, reasoning })->0;
    payload::law_field_is_read_by_name(e, 0);
    payload::law_field_is_read_by_name(e, 1);
}

/// A usage is told by its three counts.
pub proof fn law_usage_is_told(u: TokenUsage)
    ensures
        payload::number_or(usage_fields(u), "prompt_tokens"@, 0) == u.prompt_tokens,
        payload::number_or(usage_fields(u), "completion_tokens"@, 0) == u.completion_tokens,
        payload::number_or(usage_fields(u), "total_tokens"@, 0) == u.total_tokens,
{
    reveal_strlit("prompt_tokens");
    reveal_strlit("completion_tokens");
    reveal_strlit("total_tokens");
    assert("prompt_tokens"@.len() == 13 && "completion_tokens"@.len() == 17 && "total_tokens"@.len() == 12);
    payload::law_field_is_read_by_name(usage_fields(u), 0);
    payload::law_field_is_read_by_name(usage_fields(u), 1);
    payload::law_field_is_read_by_name(usage_fields(u), 2);
}

/// An event is told under the name of what happened, with its request and with what
/// belongs to it.
pub proof fn law_events_are_told(
    request_id: Seq<char>,
    name: Seq<char>,
    usage: TokenUsage,
    finish_reason: Seq<char>,
    error: Seq<char>,
)
    ensures
        ({
            let (kind, p) = event_fields(EventModel::Started { request_id, model: name });
            &&& kind == "Started"@
            &&& payload::text_at(p, "request_id"@) == Some(request_id)
            &&& payload::text_at(p, "model"@) == Some(name)
        }),
        ({
            let (kind, p) = event_fields(
                EventModel::Completed { request_id, usage, finish_reason },
            );
            &&& kind == "Completed"@
            &&& payload::text_at(p, "request_id"@) == Some(request_id)
            &&& payload::field(p, "usage"@) == payload::FieldModel::Packed(
                outside::packed(usage_fields(usage)),
            )
            &&& payload::text_at(p, "finish_reason"@) == Some(finish_reason)
        }),
        ({
            let (kind, p) = event_fields(EventModel::Error { request_id, error });
            &&& kind == "Error"@
            &&& payload::text_at(p, "request_id"@) == Some(request_id)
            &&& payload::text_at(p, "error"@) == Some(error)
        }),
        ({
            let (kind, p) = event_fields(EventModel::Cancelled { request_id });
            &&& kind == "Cancelled"@
            &&& payload::text_at(p, "request_id"@) == Some(request_id)
        }),
{
    reveal_strlit("request_id");
    reveal_strlit("model");
    reveal_strlit("usage");
    reveal_strlit("finish_reason");
    reveal_strlit("error");
    assert("request_id"@.len() == 10 && "model"@.len() == 5 && "usage"@.len() == 5 && "finish_reason"@.len() == 13 && "error"@.len() == 5);
    assert("model"@[0] == 'm' && "usage"@[0] == 'u');
    assert("error"@[0] == 'e' && "model"@[0] == 'm');
    assert("error"@[0] == 'e' && "usage"@[0] == 'u');
    let a = event_fields(EventModel::Started { request_id, model: name }).1;
    payload::law_field_is_read_by_name(a, 0);
    payload::law_field_is_read_by_name(a, 1);
    let b = event_fields(EventModel::Completed { request_id, usage, finish_reason }).1;
    payload::law_field_is_read_by_name(b, 0);
    payload::law_field_is_read_by_name(b, 1);
    payload::law_field_is_read_by_name(b, 2);
    let c = event_fields(EventModel::Error { request_id, error }).1;
    payload::law_field_is_read_by_name(c, 0);
    payload::law_field_is_read_by_name(c, 1);
    let d = event_fields(EventModel::Cancelled { request_id }).1;
    payload::law_field_is_read_by_name(d, 0);
}

/// Where the name of the protocol is missing, a status is read after the word for it.
pub proof fn law_status_word_is_read(before: Seq<char>, n: nat, behind: Seq<char>)
    requires
        400 <= n < 600,
        !before.contains('s'),
        behind.len() == 0 || !model::is_ascii_digit(behind[0]),
        !model::contains(before + "status "@ + model::decimal(n) + behind, "http "@),
    ensures
        status_of(before + "status "@ + model::decimal(n) + behind) == Some(n),
{
    reveal_strlit("status ");
    let word = "status "@;
    let digits = model::decimal(n);
    let s = before + word + digits + behind;
    let a = before.len() as int;
    assert forall|k: int| 0 <= k < a implies !model::occurs_at(s, word, k) by {
        if model::occurs_at(s, word, k) {
            assert(s.subrange(k, k + 7)[0] == before[k]);
            assert(word[0] == 's');
        }
    }
    assert(s.subrange(a, a + 7) =~= word);
    lemmas::lemma_find_first(s, word, a, 0);
    let rest = s.skip(a + 7);
    assert(rest =~= digits + behind);
    number::law_decimal_is_read_back(n);
    lemma_decimal_digits(n);
    assert forall|k: int| 0 <= k < digits.len() implies model::is_ascii_digit(
        #[trigger] rest[k],
    ) by {
        assert(rest[k] == digits[k]);
    }
    if digits.len() < rest.len() {
        assert(rest[digits.len() as int] == behind[0]);
    }
    lemma_leading_digits(rest, digits.len() as int);
    assert(rest.take(digits.len() as int) =~= digits);
}

} // verus!

//! The nose: smells trouble in what tools come back with.
//!
//! Lines of a compiler's output are sorted by how certain the trouble is. The
//! nose remembers the last hundred things that it has smelled.

use crate::message::frame::{FrameCodec, FrameError, Message};
use crate::message::topic::Topic;
use crate::node::payload;
use crate::node::payload::{Outgoing, OutgoingModel, Payload, PayloadModel};
use crate::node::{NodeId, NodeType};
use crate::outside;
use crate::text::{model, ops};
use vstd::prelude::*;
use vstd::string::*;

verus! {

/// How certain trouble is.
#[derive(Debug, Clone, Copy, PartialEq, Eq, Structural)]
pub enum SmellSeverity {
    /// It is certain: an error.
    L0,
    /// It must be judged: a warning.
    L1,
    /// It must be thought about.
    L2,
}

/// Something that the nose has smelled.
#[derive(Debug)]
pub struct SmellResult {
    /// How certain it is.
    pub severity: SmellSeverity,
    /// What it is.
    pub message: String,
    /// Where it comes from.
    pub source: String,
}

/// What a smell holds.
#[verifier::ext_equal]
pub struct SmellModel {
    pub severity: SmellSeverity,
    pub message: Seq<char>,
    pub source: Seq<char>,
}

impl View for SmellResult {
    type V = SmellModel;

    open spec fn view(&self) -> SmellModel {
        SmellModel { severity: self.severity, message: self.message@, source: self.source@ }
    }
}

/// The smells that a list holds.
pub open spec fn smell_models(v: Seq<SmellResult>) -> Seq<SmellModel> {
    v.map_values(|s: SmellResult| s@)
}

/// How many smells are remembered.
pub const ERROR_BUFFER_CAPACITY: usize = 100;

/// The nose.
#[derive(Debug)]
pub struct NoseNode {
    id: NodeId,
    error_buffer: Vec<SmellResult>,
}

/// What the nose holds.
#[verifier::ext_equal]
pub struct NoseModel {
    pub id: Seq<char>,
    /// The smells, oldest first.
    pub buffer: Seq<SmellModel>,
}

impl View for NoseNode {
    type V = NoseModel;

    closed spec fn view(&self) -> NoseModel {
        NoseModel { id: self.id@, buffer: smell_models(self.error_buffer@) }
    }
}

/// How certain the trouble is that a line of output tells of, given the line in
/// lower case.
pub open spec fn severity_of(lowered: Seq<char>) -> Option<SmellSeverity> {
    if model::contains(lowered, "error:"@) || model::contains(lowered, "error[e"@) {
        Some(SmellSeverity::L0)
    } else if model::contains(lowered, "warning:"@) || model::contains(lowered, "warn["@) {
        Some(SmellSeverity::L1)
    } else if model::contains(lowered, "note:"@) || model::contains(lowered, "help:"@) {
        Some(SmellSeverity::L2)
    } else {
        None
    }
}

/// How certain the trouble is that a line of output tells of, given the line in
/// lower case.
pub fn line_severity(lowered: &str) -> (r: Option<SmellSeverity>)
    ensures
        r == severity_of(lowered@),
{
    let chars = ops::chars_of(lowered);
    let s = chars.as_slice();
    if ops::contains(s, "error:") || ops::contains(s, "error[e") {
        Some(SmellSeverity::L0)
    } else if ops::contains(s, "warning:") || ops::contains(s, "warn[") {
        Some(SmellSeverity::L1)
    } else if ops::contains(s, "note:") || ops::contains(s, "help:") {
        Some(SmellSeverity::L2)
    } else {
        None
    }
}

/// Whether output tells of a failed test, given the output in lower case.
pub open spec fn tells_test_failure(lowered: Seq<char>) -> bool {
    model::contains(lowered, "test result: failed"@) || model::contains(lowered, "failures:"@)
}

/// Whether output tells of a failed test, given the output in lower case.
pub fn has_test_failure(lowered: &str) -> (r: bool)
    ensures
        r == tells_test_failure(lowered@),
{
    let chars = ops::chars_of(lowered);
    ops::contains(chars.as_slice(), "test result: failed") || ops::contains(
        chars.as_slice(),
        "failures:",
    )
}

/// What others are told of a compiler's error.
pub open spec fn error_report(line: Seq<char>) -> OutgoingModel {
    payload::published(
        "nose/compile_error"@,
        seq![
            payload::text_field("severity"@, "L0"@),
            payload::text_field("message"@, line),
            payload::text_field("source"@, "compile"@),
        ],
    )
}

/// What the nose remembers and says after the first `n` lines of output, given
/// the severity of each.
pub open spec fn sniffed(
    buffer: Seq<SmellModel>,
    lines: Seq<Seq<char>>,
    severities: Seq<Option<SmellSeverity>>,
    n: nat,
) -> (Seq<SmellModel>, Seq<OutgoingModel>)
    decreases n,
{
    if n == 0 {
        (buffer, Seq::empty())
    } else {
        let (b, out) = sniffed(buffer, lines, severities, (n - 1) as nat);
        let line = lines[n - 1];
        match severities[n - 1] {
            Some(severity) => {
                let smell = SmellModel { severity: severity, message: line, source: "compile"@ };
                (
                    payload::pushed_within(b, smell, ERROR_BUFFER_CAPACITY as nat),
                    if severity == SmellSeverity::L0 {
                        out.push(error_report(line))
                    } else {
                        out
                    },
                )
            },
            None => (b, out),
        }
    }
}

/// The severity of each line.
pub open spec fn severities_of(lines: Seq<Seq<char>>) -> Seq<Option<SmellSeverity>> {
    lines.map_values(|l: Seq<char>| severity_of(outside::lower(l)))
}

/// What others are told of a failed test.
pub open spec fn test_failure(tool_name: Seq<char>, output: Seq<char>) -> OutgoingModel {
    payload::sent(
        "nose/test_failure"@,
        seq![
            payload::text_field("tool_name"@, tool_name),
            payload::text_field("output"@, output),
        ],
    )
}

/// What the nose remembers and says after a tool has come back, given the
/// severity of each line of its output and whether a test has failed.
pub open spec fn after_touch(
    buffer: Seq<SmellModel>,
    output: Seq<char>,
    tool_name: Seq<char>,
    severities: Seq<Option<SmellSeverity>>,
    failed: bool,
) -> (Seq<SmellModel>, Seq<OutgoingModel>) {
    let lines = model::lines(output);
    let (b, out) = sniffed(buffer, lines, severities, lines.len());
    if failed {
        let smell = SmellModel {
            severity: SmellSeverity::L0,
            message: "测试失败："@ + tool_name,
            source: "test"@,
        };
        (
            payload::pushed_within(b, smell, ERROR_BUFFER_CAPACITY as nat),
            out.push(test_failure(tool_name, output)),
        )
    } else {
        (b, out)
    }
}

/// What the nose remembers and says after a message.
pub open spec fn smelled(m: NoseModel, topic: Seq<char>, p: PayloadModel) -> (
    Seq<SmellModel>,
    Seq<OutgoingModel>,
) {
    if topic == "nose/smell"@ {
        let target = payload::text_or(p, "target"@, ""@);
        let smell = SmellModel {
            severity: SmellSeverity::L2,
            message: "嗅探请求："@ + target,
            source: "external"@,
        };
        let b = payload::pushed_within(m.buffer, smell, ERROR_BUFFER_CAPACITY as nat);
        (
            b,
            seq![
                payload::sent(
                    "nose/smell"@,
                    seq![
                        payload::text_field("target"@, target),
                        payload::text_field("status"@, "sniffing"@),
                        payload::number_field("error_count"@, b.len() as u64),
                    ],
                ),
            ],
        )
    } else if topic == "skin/touch"@ {
        let output = payload::text_or(p, "result"@, ""@);
        after_touch(
            m.buffer,
            output,
            payload::text_or(p, "tool_name"@, ""@),
            severities_of(model::lines(output)),
            tells_test_failure(outside::lower(output)),
        )
    } else {
        (m.buffer, Seq::empty())
    }
}

/// Whether the nose reads what a message carries.
pub open spec fn reads(topic: Seq<char>) -> bool {
    topic == "nose/smell"@ || topic == "skin/touch"@
}

impl NoseNode {
    /// The nose remembers no more than it can.
    pub open spec fn wf(&self) -> bool {
        self@.buffer.len() <= ERROR_BUFFER_CAPACITY
    }

    /// A nose that has smelled nothing.
    pub fn new(id: NodeId) -> (r: Self)
        ensures
            r.wf(),
            r@ == (NoseModel { id: id@, buffer: Seq::empty() }),
    {
        let node = NoseNode { id: id, error_buffer: Vec::new() };
        assert(node@.buffer =~= Seq::empty());
        node
    }

    /// Remembers a smell, and forgets the oldest where there are too many.
    fn push_smell_result(&mut self, result: SmellResult)
        requires
            old(self).wf(),
        ensures
            final(self).wf(),
            final(self)@ == (NoseModel {
                buffer: payload::pushed_within(
                    old(self)@.buffer,
                    result@,
                    ERROR_BUFFER_CAPACITY as nat,
                ),
                ..old(self)@
            }),
    {
        let ghost before = self@.buffer;
        let ghost shown = result@;
        if self.error_buffer.len() >= ERROR_BUFFER_CAPACITY {
            self.error_buffer.remove(0);
            assert(smell_models(self.error_buffer@) =~= before.skip(1));
        }
        let ghost middle = smell_models(self.error_buffer@);
        self.error_buffer.push(result);
        assert(smell_models(self.error_buffer@) =~= middle.push(shown));
    }

    /// What the nose remembers, oldest first.
    pub fn smells(&self) -> (r: &Vec<SmellResult>)
        ensures
            smell_models(r@) == self@.buffer,
    {
        &self.error_buffer
    }

    pub fn node_type(&self) -> (r: NodeType)
        ensures
            r == NodeType::Nose,
    {
        NodeType::Nose
    }

    pub fn node_id(&self) -> (r: &NodeId)
        ensures
            r@ == self@.id,
    {
        &self.id
    }

    /// The severity of each line of output.
    pub fn parse_compile_output(output: &str) -> (r: Vec<Option<SmellSeverity>>)
        ensures
            r@ == severities_of(model::lines(output@)),
    {
        let chars = ops::chars_of(output);
        let lines = ops::lines(chars.as_slice());
        let ghost texts = model::lines(output@);
        let mut out: Vec<Option<SmellSeverity>> = Vec::new();
        let mut i: usize = 0;
        while i < lines.len()
            invariant
                i <= lines@.len(),
                texts == model::slices(lines@),
                out@ == severities_of(texts).take(i as int),
            decreases lines@.len() - i,
        {
            assert(texts[i as int] == lines@[i as int]@);
            let line = ops::string_of(lines[i]);
            let lowered = outside::to_lowercase(line.as_str());
            out.push(line_severity(lowered.as_str()));
            assert(severities_of(texts).take(i + 1) =~= severities_of(texts).take(i as int).push(
                severity_of(outside::lower(texts[i as int])),
            ));
            i = i + 1;
        }
        assert(severities_of(texts).take(texts.len() as int) =~= severities_of(texts));
        out
    }

    /// Takes in what a tool came back with, given the severity of each line of
    /// its output and whether a test has failed.
    pub fn take_touch(
        &mut self,
        output: &str,
        tool_name: &str,
        severities: &Vec<Option<SmellSeverity>>,
        failed: bool,
    ) -> (r: Vec<Outgoing>)
        requires
            old(self).wf(),
            severities@.len() == model::lines(output@).len(),
        ensures
            final(self).wf(),
            final(self)@.id == old(self)@.id,
            (final(self)@.buffer, payload::outgoing_models(r@)) == after_touch(
                old(self)@.buffer,
                output@,
                tool_name@,
                severities@,
                failed,
            ),
    {
        let ghost first = self@.buffer;
        let chars = ops::chars_of(output);
        let lines = ops::lines(chars.as_slice());
        let ghost texts = model::lines(output@);
        let mut out = payload::nothing();
        let mut i: usize = 0;
        assert(model::slices(lines@).len() == lines@.len());
        while i < lines.len()
            invariant
                i <= lines@.len(),
                texts == model::slices(lines@),
                severities@.len() == lines@.len(),
                self.wf(),
                self@.id == old(self)@.id,
                (self@.buffer, payload::outgoing_models(out@)) == sniffed(
                    first,
                    texts,
                    severities@,
                    i as nat,
                ),
            decreases lines@.len() - i,
        {
            assert(texts[i as int] == lines@[i as int]@);
            if let Some(severity) = severities[i] {
                let line = ops::string_of(lines[i]);
                if severity == SmellSeverity::L0 {
                    let body = Payload::new().text("severity", "L0").text(
                        "message",
                        line.as_str(),
                    ).text("source", "compile");
                    assert(body@ =~= error_report(line@).payload);
                    payload::publish(&mut out, Topic::nose_compile_error(), body);
                }
                self.push_smell_result(
                    SmellResult {
                        severity: severity,
                        message: line,
                        source: String::from_str("compile"),
                    },
                );
            }
            i = i + 1;
        }
        if failed {
            let body = Payload::new().text("tool_name", tool_name).text("output", output);
            assert(body@ =~= test_failure(tool_name@, output@).payload);
            payload::send(&mut out, Topic::nose_test_failure(), body);
            self.push_smell_result(
                SmellResult {
                    severity: SmellSeverity::L0,
                    message: ops::concat2("测试失败：", tool_name),
                    source: String::from_str("test"),
                },
            );
        }
        out
    }

    /// Takes in a message: remembers what it lets the nose smell, and returns
    /// the messages to send.
    pub fn handle_message(&mut self, topic: &Topic, p: &Payload) -> (r: Vec<Outgoing>)
        requires
            old(self).wf(),
        ensures
            final(self).wf(),
            final(self)@.id == old(self)@.id,
            (final(self)@.buffer, payload::outgoing_models(r@)) == smelled(
                old(self)@,
                topic@,
                p@,
            ),
    {
        let name = ops::chars_of(topic.as_str());
        let t = name.as_slice();
        if ops::is_text(t, "nose/smell") {
            let target = p.text_or("target", "");
            self.push_smell_result(
                SmellResult {
                    severity: SmellSeverity::L2,
                    message: ops::concat2("嗅探请求：", target),
                    source: String::from_str("external"),
                },
            );
            let count: u64 = self.error_buffer.len() as u64;
            let mut out = payload::nothing();
            let body = Payload::new().text("target", target).text("status", "sniffing").number(
                "error_count",
                count,
            );
            payload::send(&mut out, Topic::nose_smell(), body);
            assert(payload::outgoing_models(out@) =~~= smelled(old(self)@, topic@, p@).1);
            out
        } else if ops::is_text(t, "skin/touch") {
            let output = p.text_or("result", "");
            let tool_name = p.text_or("tool_name", "");
            let severities = Self::parse_compile_output(output);
            let lowered = outside::to_lowercase(output);
            let failed = has_test_failure(lowered.as_str());
            self.take_touch(output, tool_name, &severities, failed)
        } else {
            payload::nothing()
        }
    }

    /// Takes in a message as it came. A message that cannot be read changes
    /// nothing.
    pub fn receive(&mut self, msg: &Message) -> (r: Result<Vec<Outgoing>, FrameError>)
        requires
            old(self).wf(),
        ensures
            final(self).wf(),
            match r {
                Ok(out) => {
                    &&& payload::carried(reads(msg@.topic), msg@.payload) matches Some(p)
                    &&& final(self)@.id == old(self)@.id
                    &&& (final(self)@.buffer, payload::outgoing_models(out@)) == smelled(
                        old(self)@,
                        msg@.topic,
                        p,
                    )
                },
                Err(e) => {
                    &&& e == FrameError::BadPayload
                    &&& payload::carried(reads(msg@.topic), msg@.payload) is None
                    &&& final(self)@ == old(self)@
                },
            },
    {
        let topic = msg.topic.as_str();
        let read = ops::same_text(topic, "nose/smell") || ops::same_text(topic, "skin/touch");
        let p = match FrameCodec::decode_if(read, msg) {
            Ok(p) => p,
            Err(e) => {
                return Err(e);
            },
        };
        Ok(self.handle_message(&msg.topic, &p))
    }

    /// The topics that the nose listens to.
    pub fn subscriptions(&self) -> (r: Vec<String>)
        ensures
            model::texts(r@) == seq!["nose/smell"@, "skin/touch"@, "sys/shutdown"@],
    {
        let out = payload::strings(&["nose/smell", "skin/touch", "sys/shutdown"]);
        assert(model::texts(out@) =~= seq!["nose/smell"@, "skin/touch"@, "sys/shutdown"@]);
        out
    }

    /// The topics that the nose speaks on.
    pub fn published_topics(&self) -> (r: Vec<String>)
        ensures
            model::texts(r@) == seq!["nose/compile_error"@, "nose/test_failure"@, "nose/smell"@],
    {
        let out = payload::strings(&["nose/compile_error", "nose/test_failure", "nose/smell"]);
        assert(model::texts(out@) =~= seq![
            "nose/compile_error"@,
            "nose/test_failure"@,
            "nose/smell"@,
        ]);
        out
    }
}

/// The words of a line tell how bad it is: errors come before warnings, and these before
/// notes and help.
pub proof fn law_words_tell_the_severity(lowered: Seq<char>)
    ensures
        ({
            let bad = model::contains(lowered, "error:"@) || model::contains(lowered, "error[e"@);
            let odd = model::contains(lowered, "warning:"@) || model::contains(lowered, "warn["@);
            let hint = model::contains(lowered, "note:"@) || model::contains(lowered, "help:"@);
            &&& severity_of(lowered) == Some(SmellSeverity::L0) <==> bad
            &&& severity_of(lowered) == Some(SmellSeverity::L1) <==> odd && !bad
            &&& severity_of(lowered) == Some(SmellSeverity::L2) <==> hint && !odd && !bad
            &&& severity_of(lowered) is None <==> !bad && !odd && !hint
        }),
        tells_test_failure(lowered) <==> model::contains(lowered, "test result: failed"@)
            || model::contains(lowered, "failures:"@),
{
}

/// Every line of an output that holds an error is reported as it stands.
pub proof fn law_errors_are_reported(m: NoseModel, p: PayloadModel, output: Seq<char>, i: int) -> (k:
    int)
    requires
        payload::text_at(p, "result"@) == Some(output),
        0 <= i < model::lines(output).len(),
        model::contains(outside::lower(model::lines(output)[i]), "error:"@),
    ensures
        ({
            let out = smelled(m, "skin/touch"@, p).1;
            &&& 0 <= k < out.len()
            &&& out[k].topic == "nose/compile_error"@
            &&& payload::text_at(out[k].payload, "message"@) == Some(model::lines(output)[i])
            &&& payload::text_at(out[k].payload, "severity"@) == Some("L0"@)
        }),
{
    lemma_touch_is_no_smell();
    let lines = model::lines(output);
    let severities = severities_of(lines);
    assert(severities[i] == Some(SmellSeverity::L0));
    let k = lemma_error_is_reported(m.buffer, lines, severities, lines.len(), i);
    lemma_report_is_read(lines[i]);
    k
}

proof fn lemma_touch_is_no_smell()
    ensures
        "skin/touch"@ != "nose/smell"@,
{
    reveal_strlit("skin/touch");
    reveal_strlit("nose/smell");
    assert("skin/touch"@.len() == 10 && "nose/smell"@.len() == 10);
    assert("nose/smell"@[0] == 'n' && "skin/touch"@[0] == 's');
}

proof fn lemma_report_is_read(line: Seq<char>)
    ensures
        error_report(line).topic == "nose/compile_error"@,
        payload::text_at(error_report(line).payload, "message"@) == Some(line),
        payload::text_at(error_report(line).payload, "severity"@) == Some("L0"@),
{
    reveal_strlit("severity");
    reveal_strlit("message");
    assert("severity"@.len() == 8 && "message"@.len() == 7);
    let p = error_report(line).payload;
    payload::law_field_is_read_by_name(p, 0);
    payload::law_field_is_read_by_name(p, 1);
}

proof fn lemma_error_is_reported(
    buffer: Seq<SmellModel>,
    lines: Seq<Seq<char>>,
    severities: Seq<Option<SmellSeverity>>,
    n: nat,
    i: int,
) -> (k: int)
    requires
        0 <= i < n <= lines.len(),
        severities[i] == Some(SmellSeverity::L0),
    ensures
        0 <= k < sniffed(buffer, lines, severities, n).1.len(),
        sniffed(buffer, lines, severities, n).1[k] == error_report(lines[i]),
    decreases n,
{
    if i < n - 1 {
        lemma_error_is_reported(buffer, lines, severities, (n - 1) as nat, i)
    } else {
        sniffed(buffer, lines, severities, (n - 1) as nat).1.len() as int
    }
}

/// A run whose tests failed is reported with the whole output.
pub proof fn law_failed_tests_are_reported(
    m: NoseModel,
    p: PayloadModel,
    output: Seq<char>,
    tool: Seq<char>,
)
    requires
        payload::text_at(p, "result"@) == Some(output),
        payload::text_at(p, "tool_name"@) == Some(tool),
        model::contains(outside::lower(output), "test result: failed"@),
    ensures
        ({
            let out = smelled(m, "skin/touch"@, p).1;
            &&& out.len() > 0
            &&& out.last().topic == "nose/test_failure"@
            &&& payload::text_at(out.last().payload, "tool_name"@) == Some(tool)
            &&& payload::text_at(out.last().payload, "output"@) == Some(output)
        }),
        smelled(m, "skin/touch"@, p).0.last().message == "测试失败："@ + tool,
        smelled(m, "skin/touch"@, p).0.last().severity == SmellSeverity::L0,
{
    lemma_touch_is_no_smell();
    reveal_strlit("tool_name");
    reveal_strlit("output");
    assert("tool_name"@.len() == 9 && "output"@.len() == 6);
    let q = test_failure(tool, output).payload;
    payload::law_field_is_read_by_name(q, 0);
    payload::law_field_is_read_by_name(q, 1);
}

/// An output without any smell is neither reported nor remembered.
pub proof fn law_clean_output_smells_of_nothing(m: NoseModel, p: PayloadModel, output: Seq<char>)
    requires
        payload::text_at(p, "result"@) == Some(output),
        !model::contains(outside::lower(output), "test result: failed"@),
        !model::contains(outside::lower(output), "failures:"@),
        forall|i: int|
            0 <= i < model::lines(output).len() ==> severity_of(
                outside::lower(#[trigger] model::lines(output)[i]),
            ) is None,
    ensures
        smelled(m, "skin/touch"@, p).0 == m.buffer,
        smelled(m, "skin/touch"@, p).1.len() == 0,
{
    lemma_touch_is_no_smell();
    let lines = model::lines(output);
    let severities = severities_of(lines);
    assert forall|i: int| 0 <= i < lines.len() implies (#[trigger] severities[i]) is None by {
        assert(severity_of(outside::lower(lines[i])) is None);
    }
    lemma_nothing_smelled(m.buffer, lines, severities, lines.len());
}

proof fn lemma_nothing_smelled(
    buffer: Seq<SmellModel>,
    lines: Seq<Seq<char>>,
    severities: Seq<Option<SmellSeverity>>,
    n: nat,
)
    requires
        n <= severities.len(),
        forall|i: int| 0 <= i < severities.len() ==> (#[trigger] severities[i]) is None,
    ensures
        sniffed(buffer, lines, severities, n).0 == buffer,
        sniffed(buffer, lines, severities, n).1.len() == 0,
    decreases n,
{
    if n > 0 {
        lemma_nothing_smelled(buffer, lines, severities, (n - 1) as nat);
        assert(severities[n - 1] is None);
    }
}

/// A line that smells is remembered, with how bad it is.
pub proof fn law_smells_are_remembered(
    buffer: Seq<SmellModel>,
    lines: Seq<Seq<char>>,
    severities: Seq<Option<SmellSeverity>>,
    n: nat,
    severity: SmellSeverity,
)
    requires
        0 < n <= lines.len(),
        severities[n - 1] == Some(severity),
    ensures
        ({
            let b = sniffed(buffer, lines, severities, n).0;
            &&& b.len() > 0
            &&& b.last().message == lines[n - 1]
            &&& b.last().severity == severity
            &&& b.last().source == "compile"@
        }),
{
}

/// Being asked to smell is answered, and remembered.
pub proof fn law_request_to_smell_is_answered(m: NoseModel, p: PayloadModel, target: Seq<char>)
    requires
        payload::text_at(p, "target"@) == Some(target),
        m.buffer.len() < 100,
    ensures
        ({
            let (b, out) = smelled(m, "nose/smell"@, p);
            &&& b.len() == m.buffer.len() + 1
            &&& b.last().message == "嗅探请求："@ + target
            &&& out.len() == 1
            &&& out[0].topic == "nose/smell"@
            &&& payload::text_at(out[0].payload, "target"@) == Some(target)
            &&& payload::number_or(out[0].payload, "error_count"@, 0) == b.len()
        }),
{
    reveal_strlit("target");
    reveal_strlit("status");
    reveal_strlit("error_count");
    assert("target"@.len() == 6 && "status"@.len() == 6 && "error_count"@.len() == 11);
    assert("status"@[0] == 's' && "target"@[0] == 't');
    let (b, out) = smelled(m, "nose/smell"@, p);
    payload::law_field_is_read_by_name(out[0].payload, 0);
    payload::law_field_is_read_by_name(out[0].payload, 2);
}

/// What a message carries is read exactly under the topics of the nose where it counts: under
/// every other topic the same follows, whatever the message carries.
pub proof fn law_fields_are_read_where_they_count(
    m: NoseModel,
    topic: Seq<char>,
    p: PayloadModel,
    q: PayloadModel,
)
    ensures
        !reads(topic) ==> smelled(m, topic, p) == smelled(m, topic, q),
        reads(topic) <==> topic == "nose/smell"@ || topic == "skin/touch"@,
{
}

} // verus!

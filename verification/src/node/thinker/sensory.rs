//! The senses: what the thinker makes of inputs and of the results of tools.

use crate::memory::intent_retriever::RetrievalResult;
use crate::memory::short_term;
use crate::memory::working;
use crate::memory::working::EntryModel;
use crate::message::topic::Topic;
use crate::node::payload;
use crate::node::payload::{Outgoing, OutgoingModel, Payload, PayloadModel, Plane};
use crate::node::thinker;
use crate::node::thinker::{ActionModel, AgentState, ThinkerAction, ThinkerModel, ThinkerNode};
use crate::text::{model, ops};
use vstd::prelude::*;
use vstd::string::*;

verus! {

/// How many signals are remembered.
pub const SENSORY_BUFFER_CAPACITY: usize = 20;

/// A signal of a sense.
#[derive(Debug)]
pub struct SensorySignal {
    /// The sense.
    pub source_organ: String,
    /// What kind of signal it is.
    pub signal_type: String,
    /// What has been sensed.
    pub summary: String,
    /// How grave it is.
    pub severity: String,
}

/// What a signal holds.
#[verifier::ext_equal]
pub struct SignalModel {
    pub source_organ: Seq<char>,
    pub signal_type: Seq<char>,
    pub summary: Seq<char>,
    pub severity: Seq<char>,
}

impl View for SensorySignal {
    type V = SignalModel;

    open spec fn view(&self) -> SignalModel {
        SignalModel {
            source_organ: self.source_organ@,
            signal_type: self.signal_type@,
            summary: self.summary@,
            severity: self.severity@,
        }
    }
}

impl Clone for SensorySignal {
    fn clone(&self) -> (r: Self)
        ensures
            r@ == self@,
    {
        SensorySignal {
            source_organ: self.source_organ.clone(),
            signal_type: self.signal_type.clone(),
            summary: self.summary.clone(),
            severity: self.severity.clone(),
        }
    }
}

/// The signals that a list holds.
pub open spec fn signal_models(v: Seq<SensorySignal>) -> Seq<SignalModel> {
    v.map_values(|s: SensorySignal| s@)
}

/// The thinker with one more signal; the oldest goes where there are too many.
pub open spec fn sensed(m: ThinkerModel, s: SignalModel) -> ThinkerModel {
    ThinkerModel {
        signals: payload::pushed_within(m.signals, s, SENSORY_BUFFER_CAPACITY as nat),
        ..m
    }
}

/// A piece of code that was found for an input.
#[derive(Debug)]
pub struct CodeHint {
    /// What was found.
    pub result: RetrievalResult,
    /// How relevant it is, written with two decimals.
    pub score: String,
}

/// What a piece of code holds: what it is called, where it stands, for which
/// intent it was found, how relevant it is, and how it begins.
#[verifier::ext_equal]
pub struct HintModel {
    pub name: Seq<char>,
    pub path: Seq<char>,
    pub intent: Seq<char>,
    pub score: Seq<char>,
    pub preview: Seq<char>,
}

impl View for CodeHint {
    type V = HintModel;

    open spec fn view(&self) -> HintModel {
        HintModel {
            name: self.result.name@,
            path: self.result.file_path@,
            intent: self.result.source_intent@,
            score: self.score@,
            preview: self.result.preview@,
        }
    }
}

/// The pieces of code that a list holds.
pub open spec fn hint_models(v: Seq<CodeHint>) -> Seq<HintModel> {
    v.map_values(|h: CodeHint| h@)
}

/// What the model is told of a piece of code.
pub open spec fn hint_text(h: HintModel) -> Seq<char> {
    ("[代码上下文] "@ + h.name + " ("@ + h.path + ":"@) + (h.intent + ", 相关度:"@ + h.score
        + ")"@)
}

/// The thinker with the first `n` memories in its context.
pub open spec fn reminded(m: ThinkerModel, memories: Seq<Seq<char>>, n: nat) -> ThinkerModel
    decreases n,
{
    if n == 0 {
        m
    } else {
        thinker::told(
            reminded(m, memories, (n - 1) as nat),
            "system"@,
            "[长期记忆] "@ + memories[n - 1],
            thinker::estimate(memories[n - 1]),
        )
    }
}

/// The thinker with the first `n` pieces of code in its context.
pub open spec fn hinted(m: ThinkerModel, hints: Seq<HintModel>, n: nat) -> ThinkerModel
    decreases n,
{
    if n == 0 {
        m
    } else {
        thinker::told(
            hinted(m, hints, (n - 1) as nat),
            "system"@,
            hint_text(hints[n - 1]),
            thinker::estimate(hints[n - 1].preview),
        )
    }
}

/// The thinker with one more message in its history.
pub open spec fn recorded(
    m: ThinkerModel,
    id: Seq<char>,
    role: Seq<char>,
    text: Seq<char>,
    is_tool: bool,
    embedding: Seq<u32>,
) -> ThinkerModel {
    ThinkerModel {
        history: short_term::stored(
            m.history,
            id,
            role,
            text,
            thinker::estimate(text),
            is_tool,
            embedding,
        ),
        ..m
    }
}

/// The thinker after an input.
pub open spec fn heard(
    m: ThinkerModel,
    id: Seq<char>,
    content: Seq<char>,
    role: Seq<char>,
    memories: Seq<Seq<char>>,
    hints: Seq<HintModel>,
    embedding: Seq<u32>,
) -> ThinkerModel {
    let a = recorded(m, id, role, content, false, embedding);
    let b = thinker::told(a, working::role_of(role), content, thinker::estimate(content));
    let c = reminded(b, memories, memories.len());
    thinker::in_state(hinted(c, hints, hints.len()), AgentState::Thinking)
}

/// Whether a tool builds or checks code.
pub open spec fn builds(tool: Seq<char>) -> bool {
    tool == "Bash"@ || tool == "RunCommand"@ || tool == "CargoCheck"@ || tool == "CargoBuild"@
        || tool == "CargoTest"@
}

/// Whether a line tells of an error.
pub open spec fn tells_of_error(line: Seq<char>) -> bool {
    model::contains(line, "error["@) || model::contains(line, "error:"@)
}

/// The lines of an output that tell of errors, five at most.
pub open spec fn error_lines(output: Seq<char>) -> Seq<Seq<char>> {
    let all = model::lines(output).filter(|l: Seq<char>| tells_of_error(l));
    if all.len() > 5 {
        all.take(5)
    } else {
        all
    }
}

/// What the model is told of errors.
pub open spec fn smell_text(errors: Seq<Seq<char>>) -> Seq<char> {
    "编译/检查发现 "@ + model::decimal(errors.len()) + " 个错误：\n"@ + model::join(
        errors,
        "\n"@,
    )
}

/// The thinker after smelling at an output.
pub open spec fn smelled(m: ThinkerModel, output: Seq<char>) -> ThinkerModel {
    let errors = error_lines(output);
    let text = smell_text(errors);
    if errors.len() == 0 {
        m
    } else {
        thinker::doing(
            thinker::told(
                sensed(
                    m,
                    SignalModel {
                        source_organ: "nose"@,
                        signal_type: "compile_error"@,
                        summary: text,
                        severity: "error"@,
                    },
                ),
                "system"@,
                text,
                thinker::estimate(text),
            ),
            ActionModel::Smell(errors),
        )
    }
}

/// The first `n` characters of a text.
pub open spec fn beginning(s: Seq<char>, n: int) -> Seq<char> {
    if s.len() > n {
        s.take(n)
    } else {
        s
    }
}

/// What the kernel is told of a tool's result.
pub open spec fn touch(
    id: Seq<char>,
    tool: Seq<char>,
    output: Seq<char>,
    success: bool,
) -> OutgoingModel {
    OutgoingModel {
        topic: "sensory/skin/"@ + tool,
        payload: PayloadModel::empty().push(payload::text_field("tool_name"@, tool)).push(
            payload::flag_field("success"@, success),
        ).push(payload::text_field("output_preview"@, beginning(output, 200))).push(
            payload::text_field("agent_id"@, id),
        ),
        plane: Plane::Quiet,
    }
}

/// The thinker after feeling a tool's result.
pub open spec fn felt(
    m: ThinkerModel,
    tool: Seq<char>,
    output: Seq<char>,
    success: bool,
) -> ThinkerModel {
    let a = sensed(
        m,
        SignalModel {
            source_organ: "skin"@,
            signal_type: "tool_result"@,
            summary: "[工具 "@ + tool + if success {
                " 执行成功]"@
            } else {
                " 执行失败]"@
            },
            severity: if success {
                "info"@
            } else {
                "error"@
            },
        },
    );
    let b = thinker::doing(a, ActionModel::Send(touch(m.id, tool, output, success)));
    if !success && builds(tool) {
        smelled(b, output)
    } else {
        b
    }
}

/// What is seen in a tool's output, and the name under which the kernel is told.
pub open spec fn sight(tool: Seq<char>, output: Seq<char>) -> Option<(Seq<char>, Seq<char>)> {
    let n = model::decimal(model::lines(output).len());
    if tool == "Read"@ {
        Some(("[观察到文件内容，共 "@ + n + " 行]"@, "read"@))
    } else if tool == "Glob"@ {
        Some(("[观察到 "@ + n + " 条匹配结果]"@, "glob"@))
    } else if tool == "Grep"@ {
        Some(("[观察到 "@ + n + " 条匹配结果]"@, "grep"@))
    } else {
        None
    }
}

/// The thinker after looking at a tool's output.
pub open spec fn observed(m: ThinkerModel, tool: Seq<char>, output: Seq<char>) -> ThinkerModel {
    match sight(tool, output) {
        Some((summary, name)) => thinker::doing(
            sensed(
                m,
                SignalModel {
                    source_organ: "eye"@,
                    signal_type: "file_observation"@,
                    summary: summary,
                    severity: "info"@,
                },
            ),
            ActionModel::Send(
                OutgoingModel {
                    topic: "sensory/eye/"@ + name,
                    payload: PayloadModel::empty().push(
                        payload::text_field("tool_name"@, tool),
                    ).push(payload::text_field("agent_id"@, m.id)),
                    plane: Plane::Quiet,
                },
            ),
        ),
        None => m,
    }
}

/// The first characters of a text.
pub fn begin(text: &str, n: usize) -> (r: String)
    ensures
        r@ == beginning(text@, n as int),
{
    let chars = ops::chars_of(text);
    if chars.len() > n {
        ops::string_of(ops::take(chars.as_slice(), n))
    } else {
        ops::string_of(chars.as_slice())
    }
}

/// The lines of an output that tell of errors, five at most.
fn find_errors(output: &str) -> (r: Vec<String>)
    ensures
        model::texts(r@) == error_lines(output@),
        r@.len() == error_lines(output@).len(),
{
    let chars = ops::chars_of(output);
    let lines = ops::lines(chars.as_slice());
    let ghost all = model::lines(output@);
    let ghost f = |l: Seq<char>| tells_of_error(l);
    let ghost found = all.filter(f);
    let mut out: Vec<String> = Vec::new();
    assert(model::texts(out@) =~= Seq::empty());
    proof {
        reveal(Seq::filter);
    }
    assert(all.take(0).filter(f) =~= Seq::empty());
    assert(all.take(all.len() as int) =~= all);
    let mut i: usize = 0;
    while i < lines.len() && out.len() < 5
        invariant
            i <= lines@.len(),
            all == model::slices(lines@),
            f == (|l: Seq<char>| tells_of_error(l)),
            out@.len() <= 5,
            model::texts(out@) == all.take(i as int).filter(f),
        decreases lines@.len() - i,
    {
        proof {
            reveal(Seq::filter);
        }
        assert(all[i as int] == lines@[i as int]@);
        assert(all.take(i + 1).drop_last() =~= all.take(i as int));
        let line = lines[i];
        if ops::contains(line, "error[") || ops::contains(line, "error:") {
            let ghost before = out@;
            let item = ops::string_of(line);
            let ghost shown = item@;
            out.push(item);
            assert(model::texts(out@) =~= model::texts(before).push(shown));
        }
        i = i + 1;
    }
    assert(model::texts(out@).len() == out@.len());
    proof {
        let head = all.take(i as int);
        let rest = all.skip(i as int);
        assert(head + rest =~= all);
        Seq::filter_distributes_over_add(head, rest, f);
        if i < lines@.len() {
            assert(out@.len() == 5);
            assert(found.take(5) =~= model::texts(out@));
            if found.len() == 5 {
                assert(found =~= model::texts(out@));
            }
        } else {
            assert(rest =~= Seq::empty());
            assert(rest.filter(f) =~= Seq::empty());
            assert(found =~= model::texts(out@));
        }
    }
    out
}

impl CodeHint {
    /// What the model is told of the piece of code.
    fn text(&self) -> (r: String)
        ensures
            r@ == hint_text(self@),
    {
        let a = ops::concat5(
            "[代码上下文] ",
            self.result.name.as_str(),
            " (",
            self.result.file_path.as_text(),
            ":",
        );
        let b = ops::concat4(
            self.result.source_intent.as_str(),
            ", 相关度:",
            self.score.as_str(),
            ")",
        );
        ops::concat2(a.as_str(), b.as_str())
    }
}

impl ThinkerNode {
    /// Whether a tool builds or checks code.
    pub fn is_compile_related_tool(tool_name: &str) -> (r: bool)
        ensures
            r == builds(tool_name@),
    {
        ops::same_text(tool_name, "Bash") || ops::same_text(tool_name, "RunCommand")
            || ops::same_text(tool_name, "CargoCheck") || ops::same_text(tool_name, "CargoBuild")
            || ops::same_text(tool_name, "CargoTest")
    }

    /// Remembers a signal; the oldest goes where there are too many.
    pub fn push_sensory(&mut self, signal: SensorySignal)
        requires
            old(self).wf(),
        ensures
            final(self).wf(),
            final(self)@ == sensed(old(self)@, signal@),
    {
        let ghost before = self@.signals;
        let ghost shown = signal@;
        if self.sensory_buffer.len() >= SENSORY_BUFFER_CAPACITY {
            self.sensory_buffer.remove(0);
            assert(signal_models(self.sensory_buffer@) =~= before.skip(1));
        }
        let ghost now = signal_models(self.sensory_buffer@);
        self.sensory_buffer.push(signal);
        assert(self@.signals =~= now.push(shown));
    }

    /// Hears an input: it goes into the history and, with the memories and the
    /// pieces of code that were found for it, into the context. `entry_id` names
    /// the entry of the history, and `embedding` is the embedding of the input.
    pub fn listen(
        &mut self,
        entry_id: String,
        content: &str,
        role: &str,
        memories: &Vec<String>,
        hints: &Vec<CodeHint>,
        embedding: Vec<u32>,
    )
        requires
            old(self).wf(),
            old(self)@.history.current_turn < u32::MAX,
        ensures
            final(self).wf(),
            final(self)@ == heard(
                old(self)@,
                entry_id@,
                content@,
                role@,
                model::texts(memories@),
                hint_models(hints@),
                embedding@,
            ),
    {
        let ghost m = self@;
        let ghost components = embedding@;
        let tokens: u32 = ThinkerNode::estimate_tokens(content);
        self.short_term_memory.store_as(
            entry_id,
            String::from_str(role),
            String::from_str(content),
            tokens,
            false,
            embedding,
        );
        assert(self@ == recorded(m, entry_id@, role@, content@, false, components));
        let speaker = working::known_role(role);
        self.tell(speaker, String::from_str(content), tokens);
        let ghost b = self@;
        let ghost all = model::texts(memories@);
        let mut i: usize = 0;
        while i < memories.len()
            invariant
                i <= memories@.len(),
                self.wf(),
                all == model::texts(memories@),
                self@ == reminded(b, all, i as nat),
            decreases memories@.len() - i,
        {
            assert(all[i as int] == memories@[i as int]@);
            let text = memories[i].as_str();
            let count: u32 = ThinkerNode::estimate_tokens(text);
            self.tell("system", ops::concat2("[长期记忆] ", text), count);
            i = i + 1;
        }
        let ghost c = self@;
        let ghost found = hint_models(hints@);
        let mut j: usize = 0;
        while j < hints.len()
            invariant
                j <= hints@.len(),
                self.wf(),
                found == hint_models(hints@),
                self@ == hinted(c, found, j as nat),
            decreases hints@.len() - j,
        {
            assert(found[j as int] == hints@[j as int]@);
            let count: u32 = ThinkerNode::estimate_tokens(hints[j].result.preview.as_str());
            let text = hints[j].text();
            self.tell("system", text, count);
            j = j + 1;
        }
        self.state = AgentState::Thinking;
    }

    /// Feels a tool's result; where a tool that builds code has failed, its
    /// output is smelled at.
    pub fn feel(&mut self, tool_name: &str, output: &str, success: bool)
        requires
            old(self).wf(),
        ensures
            final(self).wf(),
            final(self)@ == felt(old(self)@, tool_name@, output@, success),
    {
        let end = if success {
            " 执行成功]"
        } else {
            " 执行失败]"
        };
        let severity = if success {
            "info"
        } else {
            "error"
        };
        self.push_sensory(
            SensorySignal {
                source_organ: String::from_str("skin"),
                signal_type: String::from_str("tool_result"),
                summary: ops::concat3("[工具 ", tool_name, end),
                severity: String::from_str(severity),
            },
        );
        let preview = begin(output, 200);
        let body = Payload::new().text("tool_name", tool_name).flag("success", success).text(
            "output_preview",
            preview.as_str(),
        ).text("agent_id", self.id.as_str());
        let topic = Topic::new(ops::concat2("sensory/skin/", tool_name).as_str());
        self.act(ThinkerAction::Send(Outgoing { topic, payload: body, plane: Plane::Quiet }));
        if !success && ThinkerNode::is_compile_related_tool(tool_name) {
            self.sniff(output);
        }
    }

    /// Smells at an output: the errors that it tells of go into the context, and
    /// the kernel is told of them.
    pub fn sniff(&mut self, output: &str)
        requires
            old(self).wf(),
        ensures
            final(self).wf(),
            final(self)@ == smelled(old(self)@, output@),
    {
        let errors = find_errors(output);
        if errors.len() == 0 {
            return;
        }
        let count = ops::decimal(errors.len());
        let list = ops::join_texts(errors.as_slice(), "\n");
        let summary = ops::concat4(
            "编译/检查发现 ",
            count.as_str(),
            " 个错误：\n",
            list.as_str(),
        );
        self.push_sensory(
            SensorySignal {
                source_organ: String::from_str("nose"),
                signal_type: String::from_str("compile_error"),
                summary: summary.clone(),
                severity: String::from_str("error"),
            },
        );
        let tokens: u32 = ThinkerNode::estimate_tokens(summary.as_str());
        self.tell("system", summary, tokens);
        self.act(ThinkerAction::Smell(errors));
    }

    /// Looks at the output of a tool that reads or searches files.
    pub fn observe(&mut self, tool_name: &str, output: &str)
        requires
            old(self).wf(),
        ensures
            final(self).wf(),
            final(self)@ == observed(old(self)@, tool_name@, output@),
    {
        proof {
            reveal_strlit("Read");
            reveal_strlit("Glob");
            reveal_strlit("Grep");
        }
        let chars = ops::chars_of(output);
        let lines = ops::lines(chars.as_slice());
        assert(model::slices(lines@).len() == lines@.len());
        let count = ops::decimal(lines.len());
        let is_read = ops::same_text(tool_name, "Read");
        let is_glob = ops::same_text(tool_name, "Glob");
        if !is_read && !is_glob && !ops::same_text(tool_name, "Grep") {
            return;
        }
        let summary = if is_read {
            ops::concat3("[观察到文件内容，共 ", count.as_str(), " 行]")
        } else {
            ops::concat3("[观察到 ", count.as_str(), " 条匹配结果]")
        };
        let name = if is_read {
            "read"
        } else if is_glob {
            "glob"
        } else {
            "grep"
        };
        self.push_sensory(
            SensorySignal {
                source_organ: String::from_str("eye"),
                signal_type: String::from_str("file_observation"),
                summary,
                severity: String::from_str("info"),
            },
        );
        let body = Payload::new().text("tool_name", tool_name).text("agent_id", self.id.as_str());
        let topic = Topic::new(ops::concat2("sensory/eye/", name).as_str());
        self.act(ThinkerAction::Send(Outgoing { topic, payload: body, plane: Plane::Quiet }));
    }

    /// Asks the kernel how well the thinking goes.
    pub fn request_meta_assessment(&mut self, context: &str)
        requires
            old(self).wf(),
        ensures
            final(self).wf(),
            final(self)@ == thinker::doing(
                old(self)@,
                ActionModel::Send(assessment(old(self)@.id, context@)),
            ),
    {
        let body = Payload::new().text("agent_id", self.id.as_str()).text("context", context);
        self.act(
            ThinkerAction::Send(
                Outgoing {
                    topic: Topic::new("cortex/meta_assess"),
                    payload: body,
                    plane: Plane::Quiet,
                },
            ),
        );
    }
}

/// What the kernel is asked of the thinking.
pub open spec fn assessment(id: Seq<char>, context: Seq<char>) -> OutgoingModel {
    OutgoingModel {
        topic: "cortex/meta_assess"@,
        payload: PayloadModel::empty().push(payload::text_field("agent_id"@, id)).push(
            payload::text_field("context"@, context),
        ),
        plane: Plane::Quiet,
    }
}

/// The senses never remember more than they may.
pub proof fn law_signals_are_bounded(m: ThinkerModel, s: SignalModel)
    requires
        m.signals.len() <= SENSORY_BUFFER_CAPACITY,
    ensures
        sensed(m, s).signals.len() <= SENSORY_BUFFER_CAPACITY,
        sensed(m, s).signals.last() == s,
{
    payload::law_bounded_list(m.signals, s, SENSORY_BUFFER_CAPACITY as nat);
}

/// The kernel is told of every result of a tool; what was to be done before is
/// still done before.
pub proof fn law_touch_is_told(m: ThinkerModel, tool: Seq<char>, output: Seq<char>, success: bool)
    ensures
        felt(m, tool, output, success).outbox.len() > m.outbox.len(),
        felt(m, tool, output, success).outbox.take(m.outbox.len() as int) == m.outbox,
        felt(m, tool, output, success).outbox[m.outbox.len() as int] == ActionModel::Send(
            touch(m.id, tool, output, success),
        ),
{
    let v = felt(m, tool, output, success).outbox;
    assert(v.take(m.outbox.len() as int) =~= m.outbox);
}

/// What is said to a thinker is recorded and stands in its memory in the role of who said
/// it; after it come what it remembers and the code that belongs to it, as the system's,
/// and then it thinks.
pub proof fn law_input_is_thought_over(
    m: ThinkerModel,
    id: Seq<char>,
    content: Seq<char>,
    role: Seq<char>,
    memories: Seq<Seq<char>>,
    hints: Seq<HintModel>,
    embedding: Seq<u32>,
    i: int,
)
    requires
        m.history.current_turn < u32::MAX,
    ensures
        ({
            let r = heard(m, id, content, role, memories, hints, embedding);
            let n = m.memory.entries.len();
            let v = r.memory.entries;
            &&& r.state is Thinking
            &&& r.history.entries == m.history.entries.push(r.history.entries.last())
            &&& r.history.entries.last().content == content
            &&& r.history.entries.last().role == role
            &&& r.history.entries.last().id == id
            &&& !r.history.entries.last().is_tool_call
            &&& v.len() == n + 1 + memories.len() + hints.len()
            &&& 0 <= i < n ==> v[i] == m.memory.entries[i]
            &&& v[n as int] == (EntryModel::Hot {
                role: working::role_of(role),
                content: content,
                token_count: thinker::estimate(content) as nat,
            })
            &&& 0 <= i < memories.len() ==> v[n + 1 + i] == (EntryModel::Hot {
                role: "system"@,
                content: "[长期记忆] "@ + memories[i],
                token_count: thinker::estimate(memories[i]) as nat,
            })
            &&& 0 <= i < hints.len() ==> v[n + 1 + memories.len() + i] == (EntryModel::Hot {
                role: "system"@,
                content: "[代码上下文] "@ + hints[i].name + " ("@ + hints[i].path + ":"@ + (
                hints[i].intent + ", 相关度:"@ + hints[i].score + ")"@),
                token_count: thinker::estimate(hints[i].preview) as nat,
            })
            &&& r.outbox == m.outbox
        }),
{
    let a = recorded(m, id, role, content, false, embedding);
    let b = thinker::told(a, working::role_of(role), content, thinker::estimate(content));
    let c = reminded(b, memories, memories.len());
    lemma_reminded(b, memories, memories.len());
    lemma_hinted(c, hints, hints.len());
}

proof fn lemma_reminded(m: ThinkerModel, memories: Seq<Seq<char>>, n: nat)
    requires
        n <= memories.len(),
    ensures
        ({
            let r = reminded(m, memories, n);
            let k = m.memory.entries.len();
            &&& r == (ThinkerModel { memory: r.memory, ..m })
            &&& r.memory.entries.len() == k + n
            &&& forall|i: int|
                0 <= i < k ==> #[trigger] r.memory.entries[i] == m.memory.entries[i]
            &&& forall|i: int|
                k <= i < k + n ==> #[trigger] r.memory.entries[i] == (EntryModel::Hot {
                    role: "system"@,
                    content: "[长期记忆] "@ + memories[i - k],
                    token_count: thinker::estimate(memories[i - k]) as nat,
                })
        }),
    decreases n,
{
    if n > 0 {
        lemma_reminded(m, memories, (n - 1) as nat);
    }
}

proof fn lemma_hinted(m: ThinkerModel, hints: Seq<HintModel>, n: nat)
    requires
        n <= hints.len(),
    ensures
        ({
            let r = hinted(m, hints, n);
            let k = m.memory.entries.len();
            &&& r == (ThinkerModel { memory: r.memory, ..m })
            &&& r.memory.entries.len() == k + n
            &&& forall|i: int|
                0 <= i < k ==> #[trigger] r.memory.entries[i] == m.memory.entries[i]
            &&& forall|i: int|
                k <= i < k + n ==> #[trigger] r.memory.entries[i] == (EntryModel::Hot {
                    role: "system"@,
                    content: hint_text(hints[i - k]),
                    token_count: thinker::estimate(hints[i - k].preview) as nat,
                })
        }),
    decreases n,
{
    if n > 0 {
        lemma_hinted(m, hints, (n - 1) as nat);
    }
}

/// A line is told as an error where it holds the mark of one; of more than five the first
/// five are told, in their order.
pub proof fn law_error_lines_are_told(output: Seq<char>, i: int)
    ensures
        ({
            let r = error_lines(output);
            let all = model::lines(output).filter(
                |l: Seq<char>| model::contains(l, "error["@) || model::contains(l, "error:"@),
            );
            &&& r.len() == if all.len() <= 5 {
                all.len()
            } else {
                5
            }
            &&& 0 <= i < r.len() ==> r[i] == all[i]
        }),
{
    let f = |l: Seq<char>| tells_of_error(l);
    let g = |l: Seq<char>| model::contains(l, "error["@) || model::contains(l, "error:"@);
    assert(f =~= g);
}

/// The tools that build.
pub proof fn law_tools_that_build(tool: Seq<char>)
    ensures
        builds(tool) <==> (tool == "Bash"@ || tool == "RunCommand"@ || tool == "CargoCheck"@
            || tool == "CargoBuild"@ || tool == "CargoTest"@),
{
}

/// Where a tool that builds has failed with errors, these are sensed, told to the model as
/// the system's, and passed on; a result without errors adds nothing to the touch.
pub proof fn law_failed_build_is_smelled(m: ThinkerModel, tool: Seq<char>, output: Seq<char>)
    requires
        tool == "Bash"@ || tool == "RunCommand"@ || tool == "CargoCheck"@ || tool == "CargoBuild"@
            || tool == "CargoTest"@,
    ensures
        ({
            let r = felt(m, tool, output, false);
            let errors = error_lines(output);
            let text = "编译/检查发现 "@ + model::decimal(errors.len()) + " 个错误：\n"@
                + model::join(errors, "\n"@);
            &&& errors.len() > 0 ==> {
                &&& r.outbox.len() == m.outbox.len() + 2
                &&& r.outbox.last() == ActionModel::Smell(errors)
                &&& r.memory.entries.len() == m.memory.entries.len() + 1
                &&& r.memory.entries.last() == (EntryModel::Hot {
                    role: "system"@,
                    content: text,
                    token_count: thinker::estimate(text) as nat,
                })
                &&& r.signals.last().source_organ == "nose"@
                &&& r.signals.last().severity == "error"@
                &&& r.signals.last().summary == text
            }
            &&& errors.len() == 0 ==> r.outbox.len() == m.outbox.len() + 1 && r.memory == m.memory
        }),
{
}

/// A result that was a success, or of another tool, is felt and no more.
pub proof fn law_result_is_felt(
    m: ThinkerModel,
    tool: Seq<char>,
    output: Seq<char>,
    success: bool,
)
    requires
        success || !(tool == "Bash"@ || tool == "RunCommand"@ || tool == "CargoCheck"@ || tool
            == "CargoBuild"@ || tool == "CargoTest"@),
    ensures
        ({
            let r = felt(m, tool, output, success);
            &&& r.outbox.len() == m.outbox.len() + 1
            &&& r.memory == m.memory
            &&& r.signals.last().source_organ == "skin"@
            &&& success ==> r.signals.last().severity == "info"@ && r.signals.last().summary
                == "[工具 "@ + tool + " 执行成功]"@
            &&& !success ==> r.signals.last().severity == "error"@ && r.signals.last().summary
                == "[工具 "@ + tool + " 执行失败]"@
        }),
{
}

/// What is passed on of a result: the tool, whether it was a success, and the first two
/// hundred characters.
pub proof fn law_touch_shows_the_beginning(
    id: Seq<char>,
    tool: Seq<char>,
    output: Seq<char>,
    success: bool,
)
    ensures
        ({
            let o = touch(id, tool, output, success);
            &&& o.topic == "sensory/skin/"@ + tool
            &&& payload::text_at(o.payload, "tool_name"@) == Some(tool)
            &&& payload::flag_or(o.payload, "success"@, !success) == success
            &&& payload::text_at(o.payload, "output_preview"@) == Some(
                output.take(
                    if output.len() <= 200 {
                        output.len() as int
                    } else {
                        200
                    },
                ),
            )
            &&& payload::text_at(o.payload, "agent_id"@) == Some(id)
        }),
{
    reveal_strlit("tool_name");
    reveal_strlit("success");
    reveal_strlit("output_preview");
    reveal_strlit("agent_id");
    assert("tool_name"@.len() == 9 && "success"@.len() == 7 && "output_preview"@.len() == 14 && "agent_id"@.len() == 8);
    assert(output.take(output.len() as int) =~= output);
    let p = touch(id, tool, output, success).payload;
    assert(p =~= seq![
        payload::text_field("tool_name"@, tool),
        payload::flag_field("success"@, success),
        payload::text_field("output_preview"@, beginning(output, 200)),
        payload::text_field("agent_id"@, id),
    ]);
    payload::law_field_is_read_by_name(p, 0);
    payload::law_field_is_read_by_name(p, 1);
    payload::law_field_is_read_by_name(p, 2);
    payload::law_field_is_read_by_name(p, 3);
}

/// What the tools that look at files have found is seen: how many lines there are.
pub proof fn law_findings_are_seen(m: ThinkerModel, tool: Seq<char>, output: Seq<char>)
    ensures
        ({
            let r = observed(m, tool, output);
            let n = model::decimal(model::lines(output).len());
            &&& tool != "Read"@ && tool != "Glob"@ && tool != "Grep"@ ==> r == m
            &&& tool == "Read"@ || tool == "Glob"@ || tool == "Grep"@ ==> {
                &&& r.signals.last().source_organ == "eye"@
                &&& r.outbox.len() == m.outbox.len() + 1
                &&& r.outbox.last() matches ActionModel::Send(o)
                &&& tool == "Read"@ ==> o.topic == "sensory/eye/"@ + "read"@
                    && r.signals.last().summary == "[观察到文件内容，共 "@ + n + " 行]"@
                &&& tool == "Glob"@ ==> o.topic == "sensory/eye/"@ + "glob"@
                    && r.signals.last().summary == "[观察到 "@ + n + " 条匹配结果]"@
                &&& tool == "Grep"@ ==> o.topic == "sensory/eye/"@ + "grep"@
                    && r.signals.last().summary == "[观察到 "@ + n + " 条匹配结果]"@
            }
            &&& r.memory == m.memory
        }),
{
    reveal_strlit("Read");
    reveal_strlit("Glob");
    reveal_strlit("Grep");
    assert("Read"@.len() == 4 && "Glob"@.len() == 4 && "Grep"@.len() == 4);
    assert("Glob"@[0] == 'G' && "Read"@[0] == 'R');
    assert("Glob"@[1] == 'l' && "Grep"@[1] == 'r');
    assert("Grep"@[0] == 'G' && "Read"@[0] == 'R');
}

/// An assessment is asked for with what it is about.
pub proof fn law_assessment_tells_the_context(id: Seq<char>, context: Seq<char>)
    ensures
        assessment(id, context).topic == "cortex/meta_assess"@,
        payload::text_at(assessment(id, context).payload, "agent_id"@) == Some(id),
        payload::text_at(assessment(id, context).payload, "context"@) == Some(context),
{
    reveal_strlit("agent_id");
    reveal_strlit("context");
    assert("agent_id"@.len() == 8 && "context"@.len() == 7);
    let p = assessment(id, context).payload;
    assert(p =~= seq![
        payload::text_field("agent_id"@, id),
        payload::text_field("context"@, context),
    ]);
    payload::law_field_is_read_by_name(p, 0);
    payload::law_field_is_read_by_name(p, 1);
}

} // verus!

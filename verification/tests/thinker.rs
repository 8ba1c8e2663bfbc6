//! The thinker and the terminal.

use ccore::memory::working::WorkingEntry;
use ccore::message::topic::Topic;
use ccore::node::payload::{Field, Payload};
use ccore::node::thinker::events::{
    DoomLoopResult, EscapeAction, Fresh, LoopVerdict, Next, ThinkerEvent, ThinkerTopic,
};
use ccore::node::thinker::goal::GoalAction;
use ccore::node::thinker::sampling::{StreamChannel, StreamChunk, TurnEnd};
use ccore::node::thinker::{
    AgentConfig, AgentState, PendingToolCall, ThinkerAction, ThinkerNode, ToolDefinition,
};
use ccore::node::tui::{
    apply_scroll_offset, diff_line_kind, output_parts, AgentStatus, DiffLine, Key, KeyStep,
    OutputPart, Shown, TUINode, ToolStatus,
};
use ccore::node::{NodeId, PermissionMode};

fn test_config() -> AgentConfig {
    AgentConfig {
        model: "test-model".into(),
        permission_mode: PermissionMode::Yolo,
        max_turns: Some(10),
        subagents_enabled: false,
        non_interactive: true,
        tools: Vec::new(),
    }
}

fn thinker() -> ThinkerNode {
    ThinkerNode::new(NodeId::from_str("t1"), test_config())
}

fn fresh(n: usize) -> Fresh {
    Fresh { request_id: format!("r{}", n), entry_id: format!("e{}", n) }
}

fn input(content: &str) -> ThinkerEvent {
    let body = Payload::new().text("content", content).text("role", "user");
    ThinkerEvent::Input(body, Vec::new(), Vec::new(), vec![1, 2, 3])
}

fn tool_chunk(request: &str, id: &str, tool: &str, arguments: &str) -> ThinkerEvent {
    ThinkerEvent::Chunk(StreamChunk {
        request_id: request.into(),
        channel: StreamChannel::ToolCall,
        content: String::new(),
        tool_call: Some(PendingToolCall {
            tool_call_id: id.into(),
            tool_name: tool.into(),
            arguments: arguments.into(),
        }),
        written_call: None,
    })
}

fn result(id: &str, output: &str, success: bool) -> ThinkerEvent {
    let body =
        Payload::new().text("tool_call_id", id).text("output", output).flag("success", success);
    ThinkerEvent::ToolResult(body, AgentState::Thinking, vec![4, 5])
}

fn said(node: &ThinkerNode) -> Vec<String> {
    node.working_memory
        .entries()
        .iter()
        .map(|e| match e {
            WorkingEntry::Hot { content, .. } => content.clone(),
            _ => "-".to_string(),
        })
        .collect()
}

fn no_loop() -> DoomLoopResult {
    DoomLoopResult {
        detected: false,
        repeated_tool: None,
        repeat_count: 0,
        escape_actions: Vec::new(),
    }
}

fn a_loop() -> DoomLoopResult {
    DoomLoopResult {
        detected: true,
        repeated_tool: Some("Bash".into()),
        repeat_count: 4,
        escape_actions: vec![
            EscapeAction::InjectHint("try again".into()),
            EscapeAction::DisableTool("Bash".into()),
            EscapeAction::DegradeModel,
        ],
    }
}

#[test]
fn cancel_requested_initially_false() {
    let thinker = thinker();
    assert!(!thinker.cancel_requested, "cancel_requested should be false initially");
}

#[test]
fn cancel_requested_set_to_true() {
    let mut thinker = thinker();
    thinker.cancel_requested = true;
    assert!(thinker.cancel_requested, "cancel_requested should be true after setting");
}

#[test]
fn pending_tool_calls_cleared_on_cancel() {
    let mut thinker = thinker();
    thinker.pending_tool_calls.insert(
        "tc-1".into(),
        PendingToolCall {
            tool_call_id: "tc-1".into(),
            tool_name: "Bash".into(),
            arguments: "{}".into(),
        },
    );
    assert_eq!(thinker.pending_tool_calls.len(), 1);
    thinker.handle_message(ThinkerEvent::Cancel, fresh(0));
    assert!(thinker.pending_tool_calls.is_empty(), "pending tool calls should be cleared");
    assert!(thinker.cancel_requested, "cancel_requested should be set");
}

#[test]
fn input_is_heard_and_asked() {
    let mut node = thinker();
    let next = node.handle_message(input("hello"), fresh(1));
    assert_eq!(next, Next::Examine);
    assert_eq!(node.state, AgentState::Thinking);
    assert!(node.agentic_session_active);
    assert_eq!(node.current_sample_request_id, Some("r1".to_string()));
    assert_eq!(node.short_term_memory.all_entries()[0].token_count, 2);
    let actions = node.take_actions();
    assert_eq!(actions.len(), 2);
    assert!(matches!(&actions[0], ThinkerAction::Send(o) if o.topic.as_str() == "cortex/budget_check"));
    match &actions[1] {
        ThinkerAction::Sample(r) => {
            assert_eq!(r.request_id, "r1");
            assert_eq!(r.messages, vec![("user".to_string(), "hello".to_string())]);
        }
        _ => panic!("the model should be asked"),
    }
    assert!(node.take_actions().is_empty());
}

#[test]
fn memories_come_with_the_input() {
    let mut node = thinker();
    let body = Payload::new().text("content", "hi").text("role", "assistant");
    let event = ThinkerEvent::Input(body, vec!["old fact".into()], Vec::new(), Vec::new());
    node.handle_message(event, fresh(1));
    assert_eq!(said(&node), vec!["hi", "[长期记忆] old fact"]);
}

#[test]
fn tools_are_called_and_the_model_is_asked_again() {
    let mut node = thinker();
    node.handle_message(input("go"), fresh(1));
    node.take_actions();
    node.handle_message(tool_chunk("r1", "c1", "Read", "{ \"p\" : 1 }"), fresh(2));
    node.handle_message(tool_chunk("r1", "c2", "Bash", "not json"), fresh(3));
    node.take_actions();
    assert_eq!(node.pending_tool_calls.len(), 2);
    let next = node.handle_message(ThinkerEvent::Done(Some("r1".into())), fresh(4));
    assert_eq!(next, Next::Nothing);
    let actions = node.take_actions();
    assert!(matches!(&actions[0], ThinkerAction::Call(c) if c.arguments == "{\"p\":1}"));
    assert!(matches!(&actions[1], ThinkerAction::Call(c) if c.arguments == "null"));
    assert_eq!(node.pending_tool_results.len(), 2);
    assert_eq!(node.handle_message(result("c1", "line\nline", true), fresh(5)), Next::Examine);
    let next = node.handle_message(result("c2", "error[E0001]: bad\nfine", false), fresh(6));
    assert_eq!(next, Next::Resume);
    assert_eq!(node.state, AgentState::Thinking);
    let kept: Vec<&[u32]> =
        node.short_term_memory.all_entries().iter().map(|e| e.embedding.as_slice()).collect();
    assert_eq!(kept, [&[1, 2, 3][..], &[4, 5], &[4, 5]]);
    let smelled = "编译/检查发现 1 个错误：\nerror[E0001]: bad";
    assert!(said(&node).contains(&smelled.to_string()));
    let organs: Vec<&str> =
        node.sensory_buffer.iter().map(|s| s.source_organ.as_str()).collect();
    assert_eq!(organs, vec!["skin", "eye", "skin", "nose"]);
    assert_eq!(node.sensory_buffer[1].summary, "[观察到文件内容，共 2 行]");
    node.take_actions();
    assert!(node.can_run_compaction());
    node.resume("r7".into());
    assert!(matches!(node.take_actions().last(), Some(ThinkerAction::Sample(r)) if r.request_id == "r7"));
}

#[test]
fn answers_to_other_requests_are_passed_over() {
    let mut node = thinker();
    node.handle_message(input("go"), fresh(1));
    node.take_actions();
    assert_eq!(node.handle_message(tool_chunk("r9", "c1", "Read", "{}"), fresh(2)), Next::Nothing);
    assert!(node.pending_tool_calls.is_empty());
    assert_eq!(node.handle_message(ThinkerEvent::Done(Some("r9".into())), fresh(3)), Next::Nothing);
    assert!(node.take_actions().is_empty());
    assert_eq!(node.handle_message(result("zz", "x", true), fresh(4)), Next::Examine);
    assert_eq!(said(&node), vec!["go"]);
}

#[test]
fn nameless_calls_get_the_spare_name() {
    let mut node = thinker();
    node.handle_message(input("go"), fresh(1));
    let chunk = StreamChunk {
        request_id: "r1".into(),
        channel: StreamChannel::ToolCall,
        content: "??".into(),
        tool_call: None,
        written_call: None,
    };
    node.handle_message(ThinkerEvent::Chunk(chunk), fresh(2));
    let call = node.pending_tool_calls.get("e2").unwrap();
    assert_eq!(call.tool_name, "unknown");
    assert_eq!(call.arguments, "null");
}

#[test]
fn text_is_passed_on() {
    let mut node = thinker();
    node.handle_message(input("go"), fresh(1));
    node.take_actions();
    let chunk = StreamChunk {
        request_id: "r1".into(),
        channel: StreamChannel::Text,
        content: "answer".into(),
        tool_call: None,
        written_call: None,
    };
    node.handle_message(ThinkerEvent::Chunk(chunk), fresh(2));
    assert_eq!(node.state, AgentState::Outputting);
    let actions = node.take_actions();
    assert!(matches!(&actions[0], ThinkerAction::Send(o)
        if o.topic.as_str() == "agent/t1/output" && o.payload.text_or("content", "") == "answer"));
}

#[test]
fn turn_ends_with_the_answer() {
    let mut node = thinker();
    node.start_goal("reach the moon".into());
    node.handle_message(input("go"), fresh(1));
    node.take_actions();
    assert_eq!(node.handle_message(ThinkerEvent::Done(None), fresh(2)), Next::FinishTurn);
    let facts = node.heat_facts();
    assert_eq!(facts.len(), 1);
    assert_eq!(facts[0].elapsed_turns, 1);
    assert!(facts[0].is_dialogue && !facts[0].is_tool_result);
    node.finish_turn(TurnEnd {
        heats: vec![i64::MAX],
        goal: Some(GoalAction::PlanSubTasks),
        trajectory: Some("{}".into()),
    });
    assert_eq!(node.turns_executed, 1);
    assert_eq!(node.state, AgentState::Idle);
    assert!(said(&node)[1].ends_with("reach the moon"));
    let actions = node.take_actions();
    assert!(matches!(&actions[0], ThinkerAction::Trajectory(t) if t == "{}"));
    assert!(matches!(&actions[1], ThinkerAction::Send(o) if o.topic.as_str() == "cortex/meta_assess"));
    match &actions[2] {
        ThinkerAction::Persist(entries, tokens) => {
            assert_eq!(entries[0].role, "User");
            assert_eq!(entries[0].content, "go");
            assert_eq!(*tokens, 1 + ThinkerNode::estimate_tokens("reach the moon"));
        }
        _ => panic!("the context should be saved"),
    }
    node.on_goal_verification_result(GoalAction::GoalComplete);
    assert!(node.goal.is_none());
}

#[test]
fn failures_are_noted() {
    let mut node = thinker();
    node.handle_message(input("go"), fresh(1));
    assert_eq!(node.handle_message(ThinkerEvent::Failed, fresh(2)), Next::Nothing);
    assert_eq!(node.state, AgentState::Error);
    assert!(node.current_sample_request_id.is_none());
}

#[test]
fn reflexes_adjust_the_thinker() {
    let mut node = thinker();
    let slow = Payload::new().text("action", "slow_down");
    node.handle_message(ThinkerEvent::Adjust(slow), fresh(1));
    assert!(matches!(node.take_actions()[0], ThinkerAction::SlowDown(2)));
    let hint = Payload::new().text("action", "switch_strategy");
    node.handle_message(ThinkerEvent::Adjust(hint), fresh(2));
    assert_eq!(said(&node), vec!["[反射弧建议] 尝试不同的方法"]);
    let tool = Payload::new().text("action", "disable_tool").text("tool", "Bash");
    node.handle_message(ThinkerEvent::Adjust(tool), fresh(3));
    assert_eq!(node.disabled_tool_next_round, Some("Bash".to_string()));
    let denied = Payload::new().text("reason", "budget");
    node.handle_message(ThinkerEvent::BudgetDeny(denied), fresh(4));
    assert!(matches!(&node.take_actions()[0], ThinkerAction::Send(o)
        if o.payload.text_or("content", "") == "[系统保护] LLM 调用被拒绝：budget"));
}

#[test]
fn disabled_tool_is_left_out_once() {
    let mut node = thinker();
    let tools = vec![
        ToolDefinition { name: "Bash".into(), definition: "{}".into() },
        ToolDefinition { name: "Read".into(), definition: "{}".into() },
    ];
    node.handle_message(ThinkerEvent::Tools(tools), fresh(0));
    node.disabled_tool_next_round = Some("Bash".into());
    let first = node.build_sample_request("a".into());
    assert_eq!(first.tools.len(), 1);
    assert_eq!(first.tools[0].name, "Read");
    assert_eq!(node.build_sample_request("b".into()).tools.len(), 2);
}

#[test]
fn what_is_learnt_goes_into_the_context() {
    let mut node = thinker();
    node.handle_message(
        ThinkerEvent::MetaResult(vec![Some("clash".into()), None], Some("slow".into())),
        fresh(1),
    );
    let lesson = Payload::new().text("heuristic", "test first");
    node.handle_message(ThinkerEvent::Heuristic(lesson), fresh(2));
    let reflex = Payload::new().text("signal_topic", "s").text("action", "a");
    node.handle_message(ThinkerEvent::Reflex(reflex), fresh(3));
    assert_eq!(
        said(&node),
        vec![
            "[元认知警告] clash",
            "[元认知建议] 考虑切换到 slow 策略",
            "[经验教训] test first",
            "[反射弧L1] 信号=s 动作=a"
        ]
    );
}

#[test]
fn agents_that_end_are_forgotten() {
    let mut node = thinker();
    let crashed = Payload {
        fields: vec![("error".into(), Field::Null), ("node_id".into(), Field::Text("x".into()))],
    };
    node.handle_message(ThinkerEvent::AgentEvent(crashed), fresh(1));
    assert!(matches!(&node.take_actions()[0], ThinkerAction::Forget(id) if id == "x"));
    let done = Payload::new().text("type", "completed").text("node_id", "y").text("output", "out");
    node.handle_message(ThinkerEvent::AgentEvent(done), fresh(2));
    assert_eq!(said(&node), vec!["out"]);
    node.handle_message(ThinkerEvent::Shutdown, fresh(3));
    assert_eq!(node.state, AgentState::Done);
}

#[test]
fn loops_are_escaped_from_three_times() {
    let mut node = thinker();
    for n in 0..3 {
        assert!(node.examine(a_loop(), None, format!("r{}", n)));
        node.take_actions();
    }
    assert_eq!(node.doom_loop_escape_attempts, 3);
    assert_eq!(said(&node), vec!["try again", "try again", "try again"]);
    let verdict = LoopVerdict { state: AgentState::Done, end_reason: Some("DoomLoop".into()) };
    assert!(!node.examine(a_loop(), Some(verdict), "r4".into()));
    assert_eq!(node.state, AgentState::Done);
    assert!(matches!(&node.take_actions()[0], ThinkerAction::Send(o)
        if o.payload.text_or("content", "") == "Agent 循环终止：DoomLoop"));
    assert!(node.examine(no_loop(), None, "r5".into()));
    assert_eq!(node.doom_loop_escape_attempts, 0);
}

#[test]
fn users_are_told_of_loops() {
    let mut node = thinker();
    node.examine(a_loop(), None, "r1".into());
    let actions = node.take_actions();
    let expected = "检测到工具循环（Bash 重复 4 次），已注入换策略提示、临时禁用该工具并降级模型，正在尝试跳出循环（第 1 次）。";
    assert!(matches!(&actions[0], ThinkerAction::Send(o) if o.payload.text_or("content", "") == expected));
}

#[test]
fn thinker_ends_after_enough_turns() {
    let mut node = thinker();
    node.turns_executed = 9;
    assert!(node.can_settle());
    node.settle(AgentState::Done);
    assert_eq!(node.state, AgentState::Idle);
    node.turns_executed = 10;
    assert!(node.check_max_turns());
    node.settle(AgentState::Done);
    assert_eq!(node.state, AgentState::Done);
}

#[test]
fn crowded_context_is_cooled() {
    let mut node = thinker();
    for n in 0..21 {
        node.tell("user", format!("message number {}", n), 4);
    }
    assert!(node.can_run_compaction());
    node.run_compaction_pipeline();
    assert_eq!(node.last_microcompact_count, 21);
    assert!(matches!(node.working_memory.entries()[0], WorkingEntry::Warm { .. }));
    node.run_compaction_pipeline();
    assert!(matches!(node.working_memory.entries()[0], WorkingEntry::Warm { .. }));
}

#[test]
fn thinker_topics_are_told_apart() {
    let kind = |t: &str| ThinkerNode::topic_kind(&Topic::new(t));
    assert_eq!(kind("agent/a/input"), ThinkerTopic::Input);
    assert_eq!(kind("sampler/r/stream"), ThinkerTopic::Stream);
    assert_eq!(kind("agent/a/tool_result"), ThinkerTopic::ToolResult);
    assert_eq!(kind("agent/a/cancel"), ThinkerTopic::Cancel);
    assert_eq!(kind("motor/a/adjust"), ThinkerTopic::Adjust);
    assert_eq!(kind("cortex/budget_deny"), ThinkerTopic::BudgetDeny);
    assert_eq!(kind("tool/register"), ThinkerTopic::ToolRegister);
    assert_eq!(kind("agent/b/event"), ThinkerTopic::AgentEvent);
    assert_eq!(kind("x/input"), ThinkerTopic::Other);
}

#[test]
fn tasks_are_read_from_answers() {
    let json = "[{\"description\":\"build\",\"verification\":\"it builds\"},{\"x\":1},{\"description\":\"test\"}]";
    let tasks = ThinkerNode::parse_subtasks_from_llm_response(json);
    assert_eq!(tasks.len(), 2);
    assert_eq!(tasks[0].verification, "it builds");
    assert_eq!(tasks[1].verification, "完成");
    let fenced = format!("Here:\n```json\n{}\n```", json);
    assert_eq!(ThinkerNode::parse_subtasks_from_llm_response(&fenced).len(), 2);
    let list = "Plan:\n1. write the parser\n- run tests\n2. ab\nother";
    let tasks = ThinkerNode::parse_subtasks_from_llm_response(list);
    let texts: Vec<&str> = tasks.iter().map(|t| t.description.as_str()).collect();
    assert_eq!(texts, vec!["write the parser", "run tests"]);
    assert_eq!((tasks[0].attempts, tasks[0].max_retries), (0, 2));
}

#[test]
fn equal_arguments_have_equal_hashes() {
    let a = ThinkerNode::hash_tool_args("{\"p\":1}");
    assert_eq!(a, ThinkerNode::hash_tool_args("{\"p\":1}"));
    assert_ne!(a, ThinkerNode::hash_tool_args("{\"p\":2}"));
}

#[test]
fn names_of_identifiers_are_new() {
    let a = Fresh::new();
    assert_eq!(a.request_id.len(), 36);
    assert_ne!(a.request_id, a.entry_id);
}

#[test]
fn topics_of_the_thinker() {
    let node = thinker();
    let subs = node.subscriptions(&vec!["sub".into()]);
    assert_eq!(subs.len(), 13);
    assert_eq!(subs[0], "agent/t1/input");
    assert_eq!(subs[12], "agent/sub/event");
    assert_eq!(node.published_topics(), vec!["agent/t1/output", "agent/t1/tool_call"]);
}

fn screen() -> TUINode {
    TUINode::new(NodeId::from_str("tui"))
}

fn type_text(node: &mut TUINode, text: &str) {
    for c in text.chars() {
        node.press(Key::Char(c));
    }
}

#[test]
fn input_is_typed_and_sent() {
    let mut node = screen();
    node.set_primary_agent("a1".into());
    type_text(&mut node, "hix");
    node.press(Key::Backspace);
    node.press(Key::NewLine);
    assert_eq!(node.input_buffer, "hi\n");
    match node.press(Key::Enter) {
        KeyStep::Send(o) => {
            assert_eq!(o.topic.as_str(), "agent/a1/input");
            assert_eq!(o.payload.text_or("content", ""), "hi\n");
        }
        _ => panic!("the input should be sent"),
    }
    assert_eq!(node.input_buffer, "");
    assert!(matches!(node.press(Key::Enter), KeyStep::Nothing));
    assert!(matches!(node.press(Key::Esc), KeyStep::Quit));
}

#[test]
fn history_is_walked() {
    let mut node = screen();
    type_text(&mut node, "one");
    assert!(matches!(node.press(Key::Enter), KeyStep::Render));
    type_text(&mut node, "two");
    node.press(Key::Enter);
    node.press(Key::Up);
    assert_eq!(node.input_buffer, "two");
    node.press(Key::Up);
    assert_eq!(node.input_buffer, "one");
    node.press(Key::Up);
    assert_eq!(node.input_buffer, "two");
    node.press(Key::Down);
    assert_eq!(node.input_buffer, "");
    assert!(node.history_index.is_none());
}

#[test]
fn view_is_scrolled() {
    let mut node = screen();
    node.press(Key::PageUp);
    assert_eq!(node.scroll_offset, 10);
    node.press(Key::PageDown);
    node.press(Key::PageDown);
    assert_eq!(node.scroll_offset, 0);
    assert_eq!(apply_scroll_offset(5, 3, 10), 0);
    assert_eq!(apply_scroll_offset(50, 3, 10), 3);
    assert_eq!(apply_scroll_offset(50, 45, 10), 40);
}

#[test]
fn tools_are_shown() {
    let mut node = screen();
    let call = Payload::new().text("tool_name", "edit");
    node.handle_message(&Topic::new("agent/a/tool_call"), &call, 1000);
    assert_eq!(node.agent_status, AgentStatus::ToolCalling);
    assert_eq!(node.running_tool(), Some(0));
    let done = Payload::new()
        .text("tool_name", "edit")
        .flag("success", false)
        .text("output", "--- a\n+++ b\n@@ 1 @@");
    node.handle_message(&Topic::new("agent/a/tool_result"), &done, 1500);
    assert_eq!(node.tool_cards.len(), 1);
    assert_eq!(node.tool_cards[0].status, ToolStatus::Failed);
    assert_eq!(node.tool_cards[0].elapsed, Some(500));
    assert_eq!(node.tool_cards[0].summary_text(), "--- a");
    assert!(node.show_diff);
    assert_eq!(node.running_tool(), None);
    for _ in 0..12 {
        let other = Payload::new().text("tool_name", "ls").text("output", "x");
        node.handle_message(&Topic::new("agent/a/tool_result"), &other, 2000);
    }
    assert_eq!(node.tool_cards.len(), 10);
    assert_eq!(node.shown_cards(), vec![9, 8, 7, 6, 5]);
    assert_eq!(ToolStatus::Done.icon(), "✅");
}

#[test]
fn fenced_changes_are_found() {
    let mut node = screen();
    node.extract_diff("write", "done\n```diff\n+a\n```\nend");
    assert_eq!(node.diff_content, "\n+a\n");
    let mut other = screen();
    other.extract_diff("read", "@@ --- +++");
    assert!(!other.show_diff);
    assert_eq!(diff_line_kind("+++ b"), DiffLine::Added);
    assert_eq!(diff_line_kind("-x"), DiffLine::Removed);
    assert_eq!(diff_line_kind("@@ 1"), DiffLine::Place);
    assert_eq!(diff_line_kind(" x"), DiffLine::Plain);
}

#[test]
fn agent_is_followed() {
    let mut node = screen();
    let spawn = Payload::new().text("node_type", "thinker").text("node_id", "a9");
    node.handle_spawn(&spawn);
    node.handle_spawn(&Payload::new().text("node_type", "agent").text("node_id", "b"));
    assert_eq!(node.primary_agent_id, Some("a9".to_string()));
    assert_eq!(node.subscriptions()[2], "agent/a9/output");
    let output = Payload::new().text("content", "hi");
    let shown = node.handle_message(&Topic::new("agent/a9/output"), &output, 5);
    assert!(matches!(shown, Shown::Output(s) if s == "hi"));
    assert_eq!(node.turn_started, Some(5));
    let event = Payload::new().text("state", "idle").number("input_tokens", 7);
    assert!(node.can_count(&event));
    node.handle_message(&Topic::new("agent/a9/event"), &event, 6);
    assert_eq!((node.agent_status, node.turn_started), (AgentStatus::Idle, None));
    assert_eq!(node.total_input_tokens, 7);
    assert!(matches!(
        node.handle_message(&Topic::sys_shutdown(), &Payload::new(), 7),
        Shown::Restore
    ));
    assert_eq!(AgentStatus::Thinking.animated_display(5), "◓ thinking");
    assert_eq!(node.next_frame(), 1);
}

#[test]
fn code_is_told_from_text() {
    let parts = output_parts("text\n```rust\nfn a() {}\n```\nmore\n```\nopen");
    assert_eq!(parts.len(), 6);
    assert!(matches!(&parts[0], OutputPart::Line(s) if s == "text"));
    assert!(matches!(&parts[1], OutputPart::Fence(s) if s == "```rust"));
    assert!(matches!(&parts[2], OutputPart::Code(l, v, true) if l == "rust" && v.len() == 1));
    assert!(matches!(&parts[5], OutputPart::Code(l, v, false) if l.is_empty() && v[0] == "open"));
}

//! Goals: what the thinker works on over many turns.

use crate::memory::working::EntryModel;
use crate::message::topic::Topic;
use crate::node::payload;
use crate::node::payload::{Outgoing, OutgoingModel, Payload, PayloadModel, Plane};
use crate::node::thinker;
use crate::node::thinker::{ActionModel, ThinkerAction, ThinkerModel, ThinkerNode};
use crate::outside;
use crate::text::{lemmas, model, ops};
use vstd::prelude::*;
use vstd::string::*;

verus! {

/// What is to be done for a goal.
#[derive(Debug)]
pub enum GoalAction {
    /// Work on a task.
    ExecuteSubTask { description: String },
    /// See whether a task is done.
    VerifySubTask { verification: String },
    /// Nothing more: the goal is reached or given up.
    GoalComplete,
    /// Note that a task has failed.
    SubTaskFailed { subtask_idx: usize, will_retry: bool },
    /// Divide the goal into tasks.
    PlanSubTasks,
}

/// What such an action holds.
#[verifier::ext_equal]
pub enum GoalModel {
    ExecuteSubTask(Seq<char>),
    VerifySubTask(Seq<char>),
    GoalComplete,
    SubTaskFailed,
    PlanSubTasks,
}

impl View for GoalAction {
    type V = GoalModel;

    open spec fn view(&self) -> GoalModel {
        match *self {
            GoalAction::ExecuteSubTask { description } => GoalModel::ExecuteSubTask(description@),
            GoalAction::VerifySubTask { verification } => GoalModel::VerifySubTask(verification@),
            GoalAction::GoalComplete => GoalModel::GoalComplete,
            GoalAction::SubTaskFailed { .. } => GoalModel::SubTaskFailed,
            GoalAction::PlanSubTasks => GoalModel::PlanSubTasks,
        }
    }
}

/// What the kernel is asked of a task.
pub open spec fn verification_request(id: Seq<char>, verification: Seq<char>) -> OutgoingModel {
    OutgoingModel {
        topic: "cortex/goal_verify"@,
        payload: PayloadModel::empty().push(payload::text_field("agent_id"@, id)).push(
            payload::text_field("verification"@, verification),
        ),
        plane: Plane::Quiet,
    }
}

/// The thinker after an action for its goal.
pub open spec fn pursued(m: ThinkerModel, a: GoalModel) -> ThinkerModel {
    match a {
        GoalModel::ExecuteSubTask(d) => thinker::told(m, "user"@, d, thinker::estimate(d)),
        GoalModel::VerifySubTask(v) => thinker::doing(
            m,
            ActionModel::Send(verification_request(m.id, v)),
        ),
        GoalModel::GoalComplete => ThinkerModel { goal: None, ..m },
        GoalModel::SubTaskFailed => m,
        GoalModel::PlanSubTasks => match m.goal {
            Some(d) => thinker::told(
                m,
                "user"@,
                "请将以下目标拆解为可执行的子任务列表：\n"@ + d,
                thinker::estimate(d),
            ),
            None => m,
        },
    }
}

/// The thinker after an action for its goal, if it has one.
pub open spec fn pursued_if(m: ThinkerModel, a: GoalModel) -> ThinkerModel {
    if m.goal is Some {
        pursued(m, a)
    } else {
        m
    }
}

/// A task that a goal is divided into.
#[derive(Debug)]
pub struct SubTask {
    /// What is to be done.
    pub description: String,
    /// How it is seen that it is done.
    pub verification: String,
    /// How often it was tried.
    pub attempts: u32,
    /// How often it may be tried again.
    pub max_retries: u32,
}

/// What a task holds.
#[verifier::ext_equal]
pub struct TaskModel {
    pub description: Seq<char>,
    pub verification: Seq<char>,
    pub attempts: u32,
    pub max_retries: u32,
}

impl View for SubTask {
    type V = TaskModel;

    open spec fn view(&self) -> TaskModel {
        TaskModel {
            description: self.description@,
            verification: self.verification@,
            attempts: self.attempts,
            max_retries: self.max_retries,
        }
    }
}

/// The tasks that a list holds.
pub open spec fn task_models(v: Seq<SubTask>) -> Seq<TaskModel> {
    v.map_values(|t: SubTask| t@)
}

/// A task that has not begun.
pub open spec fn new_task(description: Seq<char>, verification: Seq<char>) -> TaskModel {
    TaskModel { description: description, verification: verification, attempts: 0, max_retries: 2 }
}

/// The tasks of the first `n` pairs of a description and a verification; a pair
/// without a description is none.
pub open spec fn paired_tasks(v: Seq<(Option<Seq<char>>, Option<Seq<char>>)>, n: nat) -> Seq<
    TaskModel,
>
    decreases n,
{
    if n == 0 {
        Seq::empty()
    } else {
        let before = paired_tasks(v, (n - 1) as nat);
        match v[n - 1].0 {
            Some(d) => before.push(
                new_task(
                    d,
                    match v[n - 1].1 {
                        Some(c) => c,
                        None => "完成"@,
                    },
                ),
            ),
            None => before,
        }
    }
}

/// Whether a line, trimmed, is one of a list.
pub open spec fn is_item(line: Seq<char>) -> bool {
    (line.len() > 0 && model::is_ascii_digit(line[0]) && model::contains(line, "."@))
        || model::starts_with(line, "- "@)
}

/// What a line of a list says.
pub open spec fn item_text(line: Seq<char>) -> Seq<char> {
    model::trim(
        model::trim_start_any(
            model::trim_start_any(model::trim_start_any(line, "0123456789"@), "."@),
            "-"@,
        ),
    )
}

/// The tasks in the first `n` lines.
pub open spec fn listed_tasks(lines: Seq<Seq<char>>, n: nat) -> Seq<TaskModel>
    decreases n,
{
    if n == 0 {
        Seq::empty()
    } else {
        let before = listed_tasks(lines, (n - 1) as nat);
        let line = model::trim(lines[n - 1]);
        if is_item(line) && model::byte_len(item_text(line)) > 3 {
            before.push(new_task(item_text(line), "完成"@))
        } else {
            before
        }
    }
}

/// The part of a text from the first opening bracket to the last closing one.
pub open spec fn bracketed(text: Seq<char>) -> Option<Seq<char>> {
    match (model::find(text, "["@), model::rfind(text, "]"@)) {
        (Some(i), Some(j)) => if j > i {
            Some(text.subrange(i, j + 1))
        } else {
            None
        },
        _ => None,
    }
}

/// The tasks that a text names: those of the JSON array that it is, else those of
/// the array inside it, else those of its lists.
pub open spec fn tasks_of(
    whole: Option<Seq<(Option<Seq<char>>, Option<Seq<char>>)>>,
    part: Option<Seq<(Option<Seq<char>>, Option<Seq<char>>)>>,
    text: Seq<char>,
) -> Seq<TaskModel> {
    match whole {
        Some(v) => paired_tasks(v, v.len()),
        None => match part {
            Some(v) => paired_tasks(v, v.len()),
            None => listed_tasks(model::lines(text), model::lines(text).len()),
        },
    }
}

/// What a JSON array inside a text holds.
pub open spec fn inner_pairs(text: Seq<char>) -> Option<Seq<(Option<Seq<char>>, Option<Seq<char>>)>> {
    match bracketed(text) {
        Some(part) => outside::json_pairs_of(part, "description"@, "verification"@),
        None => None,
    }
}

/// A task that has not begun.
fn task(description: String, verification: String) -> (r: SubTask)
    ensures
        r@ == new_task(description@, verification@),
{
    SubTask { description, verification, attempts: 0, max_retries: 2 }
}

/// The tasks of pairs of a description and a verification.
fn tasks_of_pairs(pairs: &Vec<(Option<String>, Option<String>)>) -> (r: Vec<SubTask>)
    ensures
        task_models(r@) == paired_tasks(
            outside::opt_pairs(Some(*pairs))->0,
            pairs@.len(),
        ),
{
    let ghost all = outside::opt_pairs(Some(*pairs))->0;
    let mut out: Vec<SubTask> = Vec::new();
    assert(task_models(out@) =~= Seq::empty());
    let mut i: usize = 0;
    while i < pairs.len()
        invariant
            i <= pairs@.len(),
            all == outside::opt_pairs(Some(*pairs))->0,
            task_models(out@) == paired_tasks(all, i as nat),
        decreases pairs@.len() - i,
    {
        assert(all[i as int] == (
            model::opt_text(pairs@[i as int].0),
            model::opt_text(pairs@[i as int].1),
        ));
        if let Some(d) = &pairs[i].0 {
            let check = match &pairs[i].1 {
                Some(c) => c.clone(),
                None => String::from_str("完成"),
            };
            let ghost before = task_models(out@);
            let t = task(d.clone(), check);
            let ghost shown = t@;
            out.push(t);
            assert(task_models(out@) =~= before.push(shown));
        }
        i = i + 1;
    }
    out
}

/// The tasks in the lists of a text.
fn tasks_of_lines(text: &str) -> (r: Vec<SubTask>)
    ensures
        task_models(r@) == listed_tasks(model::lines(text@), model::lines(text@).len()),
{
    let chars = ops::chars_of(text);
    let lines = ops::lines(chars.as_slice());
    let ghost all = model::lines(text@);
    assert(all.len() == lines@.len());
    let mut out: Vec<SubTask> = Vec::new();
    assert(task_models(out@) =~= Seq::empty());
    let mut i: usize = 0;
    while i < lines.len()
        invariant
            i <= lines@.len(),
            all == model::slices(lines@),
            task_models(out@) == listed_tasks(all, i as nat),
        decreases lines@.len() - i,
    {
        assert(all[i as int] == lines@[i as int]@);
        let line = ops::trim(lines[i]);
        let numbered = line.len() > 0 && ops::is_ascii_digit(line[0]) && ops::contains(line, ".");
        if numbered || ops::starts_with(line, "- ") {
            let without_digits = ops::trim_start_any(line, "0123456789");
            let without_dots = ops::trim_start_any(without_digits, ".");
            let said = ops::trim(ops::trim_start_any(without_dots, "-"));
            if ops::byte_len(said) > 3 {
                let ghost before = task_models(out@);
                let t = task(ops::string_of(said), String::from_str("完成"));
                let ghost shown = t@;
                out.push(t);
                assert(task_models(out@) =~= before.push(shown));
            }
        }
        i = i + 1;
    }
    out
}

/// The part of a text from the first opening bracket to the last closing one.
fn bracketed_part(text: &str) -> (r: Option<String>)
    ensures
        model::opt_text(r) == bracketed(text@),
{
    let chars = ops::chars_of(text);
    let s = chars.as_slice();
    proof {
        reveal_strlit("[");
        reveal_strlit("]");
    }
    match ops::find(s, "[") {
        Some(i) => match ops::rfind(s, "]") {
            Some(j) => {
                let total: usize = s.len();
                if j > i && j < total {
                    let head = ops::take(s, j + 1);
                    let part = ops::skip(head, i);
                    assert(part@ =~= text@.subrange(i as int, j + 1));
                    Some(ops::string_of(part))
                } else {
                    None
                }
            },
            None => None,
        },
        None => None,
    }
}

/// The tasks that a text names, given what it and the array inside it hold as
/// JSON.
pub fn subtasks_from(
    whole: &Option<Vec<(Option<String>, Option<String>)>>,
    part: &Option<Vec<(Option<String>, Option<String>)>>,
    text: &str,
) -> (r: Vec<SubTask>)
    ensures
        task_models(r@) == tasks_of(outside::opt_pairs(*whole), outside::opt_pairs(*part), text@),
{
    match whole {
        Some(v) => tasks_of_pairs(v),
        None => match part {
            Some(v) => tasks_of_pairs(v),
            None => tasks_of_lines(text),
        },
    }
}

impl ThinkerNode {
    /// Sets the goal.
    pub fn start_goal(&mut self, description: String)
        requires
            old(self).wf(),
        ensures
            final(self).wf(),
            final(self)@ == (ThinkerModel { goal: Some(description@), ..old(self)@ }),
    {
        self.goal = Some(description);
    }

    /// Does what is to be done for the goal.
    pub fn process_goal_action(&mut self, action: GoalAction)
        requires
            old(self).wf(),
        ensures
            final(self).wf(),
            final(self)@ == pursued(old(self)@, action@),
    {
        match action {
            GoalAction::ExecuteSubTask { description } => {
                let tokens: u32 = ThinkerNode::estimate_tokens(description.as_str());
                self.tell("user", description, tokens);
            },
            GoalAction::VerifySubTask { verification } => {
                let body = Payload::new().text("agent_id", self.id.as_str()).text(
                    "verification",
                    verification.as_str(),
                );
                self.act(
                    ThinkerAction::Send(
                        Outgoing {
                            topic: Topic::new("cortex/goal_verify"),
                            payload: body,
                            plane: Plane::Quiet,
                        },
                    ),
                );
            },
            GoalAction::GoalComplete => {
                self.goal = None;
            },
            GoalAction::SubTaskFailed { .. } => {},
            GoalAction::PlanSubTasks => {
                let goal = match &self.goal {
                    Some(d) => Some(d.clone()),
                    None => None,
                };
                if let Some(d) = goal {
                    let tokens: u32 = ThinkerNode::estimate_tokens(d.as_str());
                    let text = ops::concat2(
                        "请将以下目标拆解为可执行的子任务列表：\n",
                        d.as_str(),
                    );
                    self.tell("user", text, tokens);
                }
            },
        }
    }

    /// Does what follows from seeing whether a task is done, if there still is a
    /// goal.
    pub fn on_goal_verification_result(&mut self, action: GoalAction)
        requires
            old(self).wf(),
        ensures
            final(self).wf(),
            final(self)@ == pursued_if(old(self)@, action@),
    {
        if self.goal.is_some() {
            self.process_goal_action(action);
        }
    }

    /// The tasks that an answer of the model names.
    pub fn parse_subtasks_from_llm_response(text: &str) -> (r: Vec<SubTask>)
        ensures
            task_models(r@) == tasks_of(
                outside::json_pairs_of(text@, "description"@, "verification"@),
                inner_pairs(text@),
                text@,
            ),
    {
        let whole = outside::json_pairs(text, "description", "verification");
        let part = match bracketed_part(text) {
            Some(s) => outside::json_pairs(s.as_str(), "description", "verification"),
            None => None,
        };
        subtasks_from(&whole, &part, text)
    }
}

/// Each task that a text names has not begun, and may be tried twice more.
pub proof fn law_tasks_have_not_begun(
    whole: Option<Seq<(Option<Seq<char>>, Option<Seq<char>>)>>,
    part: Option<Seq<(Option<Seq<char>>, Option<Seq<char>>)>>,
    text: Seq<char>,
    i: int,
)
    requires
        0 <= i < tasks_of(whole, part, text).len(),
    ensures
        tasks_of(whole, part, text)[i].attempts == 0,
        tasks_of(whole, part, text)[i].max_retries == 2,
{
    match whole {
        Some(v) => lemma_paired_fresh(v, v.len(), i),
        None => match part {
            Some(v) => lemma_paired_fresh(v, v.len(), i),
            None => lemma_listed_fresh(model::lines(text), model::lines(text).len(), i),
        },
    }
}

proof fn lemma_paired_fresh(v: Seq<(Option<Seq<char>>, Option<Seq<char>>)>, n: nat, i: int)
    requires
        0 <= i < paired_tasks(v, n).len(),
    ensures
        paired_tasks(v, n)[i].attempts == 0,
        paired_tasks(v, n)[i].max_retries == 2,
    decreases n,
{
    if n > 0 && i < paired_tasks(v, (n - 1) as nat).len() {
        lemma_paired_fresh(v, (n - 1) as nat, i);
    }
}

proof fn lemma_listed_fresh(lines: Seq<Seq<char>>, n: nat, i: int)
    requires
        0 <= i < listed_tasks(lines, n).len(),
    ensures
        listed_tasks(lines, n)[i].attempts == 0,
        listed_tasks(lines, n)[i].max_retries == 2,
    decreases n,
{
    if n > 0 && i < listed_tasks(lines, (n - 1) as nat).len() {
        lemma_listed_fresh(lines, (n - 1) as nat, i);
    }
}

/// What is done for a goal: a part of it is given to the agent as the user's words, a part
/// that is done is asked to be verified, a goal that is reached is forgotten, and one that
/// has no parts yet is asked to be taken apart.
pub proof fn law_goal_is_pursued(m: ThinkerModel, text: Seq<char>)
    ensures
        ({
            let r = pursued(m, GoalModel::ExecuteSubTask(text));
            &&& r.memory.entries.len() == m.memory.entries.len() + 1
            &&& r.memory.entries.last() matches EntryModel::Hot { role, content, .. }
            &&& role == "user"@
            &&& content == text
            &&& r.outbox == m.outbox && r.goal == m.goal
        }),
        ({
            let r = pursued(m, GoalModel::VerifySubTask(text));
            &&& r.outbox.len() == m.outbox.len() + 1
            &&& r.outbox.last() matches ActionModel::Send(o)
            &&& o.topic == "cortex/goal_verify"@
            &&& payload::text_at(o.payload, "agent_id"@) == Some(m.id)
            &&& payload::text_at(o.payload, "verification"@) == Some(text)
            &&& r.memory == m.memory
        }),
        pursued(m, GoalModel::GoalComplete).goal is None,
        pursued(m, GoalModel::GoalComplete).memory == m.memory,
        pursued(m, GoalModel::SubTaskFailed) == m,
        m.goal is None ==> pursued(m, GoalModel::PlanSubTasks) == m,
        m.goal == Some(text) ==> {
            let r = pursued(m, GoalModel::PlanSubTasks);
            &&& r.memory.entries.len() == m.memory.entries.len() + 1
            &&& r.memory.entries.last() matches EntryModel::Hot { role, content, .. }
            &&& role == "user"@
            &&& content == "请将以下目标拆解为可执行的子任务列表：\n"@ + text
        },
{
    reveal_strlit("agent_id");
    reveal_strlit("verification");
    assert("agent_id"@.len() == 8 && "verification"@.len() == 12);
    let p = verification_request(m.id, text).payload;
    assert(p =~= seq![
        payload::text_field("agent_id"@, m.id),
        payload::text_field("verification"@, text),
    ]);
    payload::law_field_is_read_by_name(p, 0);
    payload::law_field_is_read_by_name(p, 1);
}

/// Without a goal nothing is done for it.
pub proof fn law_nothing_is_done_without_a_goal(m: ThinkerModel, a: GoalModel)
    ensures
        m.goal is None ==> pursued_if(m, a) == m,
        m.goal is Some ==> pursued_if(m, a) == pursued(m, a),
{
}

/// Every part that is described becomes a task, with how it is verified, or with being
/// done where nothing is said of that; what is not described is left out.
pub proof fn law_described_parts_become_tasks(
    v: Seq<(Option<Seq<char>>, Option<Seq<char>>)>,
    n: nat,
)
    requires
        0 < n <= v.len(),
    ensures
        paired_tasks(v, 0).len() == 0,
        v[n - 1].0 is None ==> paired_tasks(v, n) == paired_tasks(v, (n - 1) as nat),
        v[n - 1].0 matches Some(d) ==> {
            let r = paired_tasks(v, n);
            &&& r.len() == paired_tasks(v, (n - 1) as nat).len() + 1
            &&& r.drop_last() == paired_tasks(v, (n - 1) as nat)
            &&& r.last().description == d
            &&& v[n - 1].1 matches Some(c) ==> r.last().verification == c
            &&& v[n - 1].1 is None ==> r.last().verification == "完成"@
            &&& r.last().attempts == 0
        },
{
    if v[n - 1].0 is Some {
        assert(paired_tasks(v, n).drop_last() =~= paired_tasks(v, (n - 1) as nat));
    }
}

/// The items of a list become tasks by their words alone, whether they are numbered or
/// begin with a dash; an item of at most three bytes is none.
pub proof fn law_items_become_tasks(
    lines: Seq<Seq<char>>,
    n: nat,
    number: Seq<char>,
    text: Seq<char>,
)
    requires
        0 < n <= lines.len(),
        number.len() > 0,
        forall|i: int| 0 <= i < number.len() ==> model::is_ascii_digit(#[trigger] number[i]),
        model::trim(text) == text,
        text.len() > 0,
        model::trim(lines[n - 1]) == number + ". "@ + text || model::trim(lines[n - 1]) == "- "@
            + text,
    ensures
        model::byte_len(text) > 3 ==> {
            let r = listed_tasks(lines, n);
            &&& r.len() == listed_tasks(lines, (n - 1) as nat).len() + 1
            &&& r.drop_last() == listed_tasks(lines, (n - 1) as nat)
            &&& r.last().description == text
            &&& r.last().verification == "完成"@
        },
        model::byte_len(text) <= 3 ==> listed_tasks(lines, n) == listed_tasks(
            lines,
            (n - 1) as nat,
        ),
        listed_tasks(lines, 0).len() == 0,
{
    let line = model::trim(lines[n - 1]);
    reveal_strlit(". ");
    reveal_strlit("- ");
    reveal_strlit(".");
    reveal_strlit("-");
    reveal_strlit("0123456789");
    assert(". "@ =~= seq!['.', ' ']);
    assert("- "@ =~= seq!['-', ' ']);
    assert("."@ =~= seq!['.']);
    assert("-"@ =~= seq!['-']);
    let digits = "0123456789"@;
    lemma_digits();
    let tail = seq![' '] + text;
    lemma_trim_one_blank(text);
    if line == number + ". "@ + text {
        let a = seq!['.'] + tail;
        assert(line =~= number + a);
        assert forall|i: int| 0 <= i < number.len() implies digits.contains(
            #[trigger] number[i],
        ) by {}
        assert(!digits.contains(a[0]));
        lemmas::lemma_trim_start_any_all(number, a, digits);
        assert(model::trim_start_any(a, digits) == a);
        assert("."@.contains('.')) by {
            assert("."@[0] == '.');
        }
        assert(!"."@.contains(tail[0]));
        assert(model::trim_start_any(tail, "."@) == tail);
        assert(a.skip(1) =~= tail);
        assert(model::trim_start_any(a, "."@) == tail);
        assert(!"-"@.contains(tail[0]));
        assert(model::trim_start_any(tail, "-"@) == tail);
        assert(item_text(line) == text);
        assert(line[0] == number[0]);
        assert(line.subrange(number.len() as int, number.len() as int + 1) =~= "."@);
        lemmas::lemma_found(line, "."@, 0, number.len() as int);
        assert(is_item(line));
    } else {
        assert(line =~= seq!['-'] + tail);
        assert(!digits.contains(line[0]));
        assert(model::trim_start_any(line, digits) == line);
        assert(!"."@.contains(line[0]));
        assert(model::trim_start_any(line, "."@) == line);
        assert("-"@.contains('-')) by {
            assert("-"@[0] == '-');
        }
        assert(!"-"@.contains(tail[0]));
        assert(model::trim_start_any(tail, "-"@) == tail);
        assert(line.skip(1) =~= tail);
        assert(model::trim_start_any(line, "-"@) == tail);
        assert(item_text(line) == text);
        assert(line.take(2) =~= "- "@);
        assert(is_item(line));
    }
    if model::byte_len(text) > 3 {
        assert(listed_tasks(lines, n).drop_last() =~= listed_tasks(lines, (n - 1) as nat));
    }
}

proof fn lemma_digits()
    ensures
        forall|c: char| #[trigger] "0123456789"@.contains(c) <==> model::is_ascii_digit(c),
{
    reveal_strlit("0123456789");
    let d = "0123456789"@;
    assert(d.len() == 10 && d[0] == '0' && d[1] == '1' && d[2] == '2' && d[3] == '3' && d[4] == '4'
        && d[5] == '5' && d[6] == '6' && d[7] == '7' && d[8] == '8' && d[9] == '9');
    assert forall|c: char| #[trigger] d.contains(c) <==> model::is_ascii_digit(c) by {
        if model::is_ascii_digit(c) {
            let k = c as int - '0' as int;
            assert(d[k] == c);
        }
    }
}

proof fn lemma_trim_one_blank(text: Seq<char>)
    requires
        model::trim(text) == text,
        text.len() > 0,
    ensures
        model::trim(seq![' '] + text) == text,
{
    let s = seq![' '] + text;
    assert(s[0] == ' ');
    assert(s.skip(1) =~= text);
    assert(model::trim_start(s) == model::trim_start(text));
}

/// A line that is no item of a list gives no task.
pub proof fn law_other_lines_give_no_task(lines: Seq<Seq<char>>, n: nat)
    requires
        0 < n <= lines.len(),
        model::trim(lines[n - 1]).len() > 0 ==> !model::is_ascii_digit(
            model::trim(lines[n - 1])[0],
        ),
        !model::starts_with(model::trim(lines[n - 1]), "- "@),
    ensures
        listed_tasks(lines, n) == listed_tasks(lines, (n - 1) as nat),
{
}

/// A list in brackets is looked for from the first opening to the last closing one.
pub proof fn law_brackets_are_found(a: Seq<char>, b: Seq<char>, c: Seq<char>)
    requires
        !a.contains('['),
        !c.contains(']'),
    ensures
        bracketed(a + seq!['['] + b + seq![']'] + c) == Some(seq!['['] + b + seq![']']),
{
    let s = a + seq!['['] + b + seq![']'] + c;
    reveal_strlit("[");
    reveal_strlit("]");
    assert("["@ =~= seq!['[']);
    assert("]"@ =~= seq![']']);
    let i = a.len() as int;
    let j = a.len() + 1 + b.len();
    assert(s.subrange(i, i + 1) =~= "["@);
    assert forall|k: int| 0 <= k < i implies !model::occurs_at(s, "["@, k) by {
        if model::occurs_at(s, "["@, k) {
            assert(s.subrange(k, k + 1)[0] == '[');
            assert(a[k] == '[');
        }
    }
    lemmas::lemma_find_first(s, "["@, i, 0);
    lemma_last_bracket(s, j as int, s.len() - 1);
    assert(s.subrange(i, j as int + 1) =~= seq!['['] + b + seq![']']);
}

proof fn lemma_last_bracket(s: Seq<char>, j: int, k: int)
    requires
        0 <= j <= k < s.len(),
        s[j] == ']',
        forall|x: int| j < x < s.len() ==> #[trigger] s[x] != ']',
    ensures
        model::rfind_from(s, "]"@, k) == Some(j),
    decreases k - j,
{
    reveal_strlit("]");
    assert("]"@ =~= seq![']']);
    if k == j {
        assert(s.subrange(k, k + 1) =~= "]"@);
    } else {
        if model::occurs_at(s, "]"@, k) {
            assert(s.subrange(k, k + 1)[0] == ']');
        }
        lemma_last_bracket(s, j, k - 1);
    }
}

/// The answer is read as a list first; where it is none, the list within it counts, and
/// only then its lines.
pub proof fn law_lists_come_before_lines(
    whole: Option<Seq<(Option<Seq<char>>, Option<Seq<char>>)>>,
    part: Option<Seq<(Option<Seq<char>>, Option<Seq<char>>)>>,
    text: Seq<char>,
)
    ensures
        whole matches Some(v) ==> tasks_of(whole, part, text) == paired_tasks(v, v.len()),
        whole is None ==> (part matches Some(v) ==> tasks_of(whole, part, text) == paired_tasks(
            v,
            v.len(),
        )),
        whole is None && part is None ==> tasks_of(whole, part, text) == listed_tasks(
            model::lines(text),
            model::lines(text).len(),
        ),
{
}

/// A list of parts inside other text is read from its brackets, and what stands around
/// them does not count.
pub proof fn law_inner_list_is_read(
    a: Seq<char>,
    b: Seq<char>,
    c: Seq<char>,
    v: Seq<(Option<Seq<char>>, Option<Seq<char>>)>,
)
    requires
        !a.contains('['),
        !c.contains(']'),
        outside::json_pairs_of(seq!['['] + b + seq![']'], "description"@, "verification"@) == Some(
            v,
        ),
    ensures
        inner_pairs(a + seq!['['] + b + seq![']'] + c) == Some(v),
        tasks_of(
            None,
            inner_pairs(a + seq!['['] + b + seq![']'] + c),
            a + seq!['['] + b + seq![']'] + c,
        ) == paired_tasks(v, v.len()),
{
    law_brackets_are_found(a, b, c);
}

} // verus!

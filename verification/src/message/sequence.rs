//! Sequence numbers, by which lost, repeated and late messages are noticed.

use crate::node::NodeId;
use crate::text::text_map::TextMap;
use crate::text::{lemmas, model, ops};
use vstd::prelude::*;
use vstd::string::*;

verus! {

/// Numbers the messages that a node sends.
#[derive(Debug)]
pub struct SequenceManager {
    send_seq: u64,
    node_id: NodeId,
}

/// The number after a number; after the greatest comes zero.
pub open spec fn following(n: u64) -> u64 {
    if n < u64::MAX {
        (n + 1) as u64
    } else {
        0
    }
}

/// Whether a manager gives a number and becomes another manager.
pub open spec fn gives(before: SequenceManager, n: u64, after: SequenceManager) -> bool {
    &&& n == before.upcoming()
    &&& after.upcoming() == following(before.upcoming())
    &&& after.owner() == before.owner()
}

impl SequenceManager {
    /// The number of the next message.
    pub closed spec fn upcoming(&self) -> u64 {
        self.send_seq
    }

    /// The node whose messages are numbered.
    pub closed spec fn owner(&self) -> Seq<char> {
        self.node_id@
    }

    /// Starts numbering with zero.
    pub fn new(node_id: NodeId) -> (r: Self)
        ensures
            r.upcoming() == 0,
            r.owner() == node_id@,
    {
        SequenceManager { send_seq: 0, node_id: node_id }
    }

    /// The number of the next message; the one after it has the next number.
    /// After the greatest number comes zero.
    pub fn next_sequence(&mut self) -> (r: u64)
        ensures
            gives(*old(self), r, *final(self)),
    {
        let n: u64 = self.send_seq;
        self.send_seq = if n < u64::MAX {
            n + 1
        } else {
            0
        };
        n
    }

    /// The number that the next message will have.
    pub fn current_sequence(&self) -> (r: u64)
        ensures
            r == self.upcoming(),
    {
        self.send_seq
    }
}

/// How a message stands in the sequence.
#[derive(Debug, Clone, Copy, PartialEq, Eq, Structural)]
pub enum SequenceCheckResult {
    /// It follows the one before it.
    InOrder,
    /// Its number is further on than by one: messages may be lost.
    Gap(u64),
}

/// Why a message is refused.
#[derive(Debug, Clone, Copy, PartialEq, Eq, Structural)]
pub enum SequenceError {
    /// The message before it had the same number.
    Duplicate,
    /// The message before it had a greater number.
    OutOfOrder { expected: u64, actual: u64 },
}

/// What a refusal says.
pub open spec fn error_text(e: SequenceError) -> Seq<char> {
    match e {
        SequenceError::Duplicate => "重复消息"@,
        SequenceError::OutOfOrder { expected, actual } => "序列号乱序：期望 "@
            + crate::text::model::decimal(expected as nat) + "，实际 "@
            + crate::text::model::decimal(actual as nat),
    }
}

impl SequenceError {
    /// What the refusal says.
    pub fn describe(&self) -> (r: String)
        ensures
            r@ == error_text(*self),
    {
        match self {
            SequenceError::Duplicate => String::from_str("重复消息"),
            SequenceError::OutOfOrder { expected, actual } => ops::concat4(
                "序列号乱序：期望 ",
                ops::decimal_u64(*expected).as_str(),
                "，实际 ",
                ops::decimal_u64(*actual).as_str(),
            ),
        }
    }
}

/// Checks the numbers of the messages that arrive from each node.
#[derive(Debug)]
pub struct SequenceChecker {
    last_received: TextMap<u64>,
    window_size: u64,
}

/// How a message numbered `sequence` stands after one numbered `last`.
pub open spec fn verdict(last: Option<u64>, sequence: u64) -> Result<SequenceCheckResult, SequenceError> {
    match last {
        None => Ok(SequenceCheckResult::InOrder),
        Some(last) => if sequence > last {
            if sequence - last > 1 {
                Ok(SequenceCheckResult::Gap((sequence - last) as u64))
            } else {
                Ok(SequenceCheckResult::InOrder)
            }
        } else if sequence == last {
            Err(SequenceError::Duplicate)
        } else {
            Err(SequenceError::OutOfOrder { expected: (last + 1) as u64, actual: sequence })
        },
    }
}

/// The last number from a node.
pub open spec fn last_of(m: Map<Seq<char>, u64>, node: Seq<char>) -> Option<u64> {
    if m.contains_key(node) {
        Some(m[node])
    } else {
        None
    }
}

/// The last number from each node after a message was checked: one that is accepted
/// sets its node's number.
pub open spec fn checked(m: Map<Seq<char>, u64>, node: Seq<char>, sequence: u64) -> Map<
    Seq<char>,
    u64,
> {
    if verdict(last_of(m, node), sequence) is Ok {
        m.insert(node, sequence)
    } else {
        m
    }
}

impl View for SequenceChecker {
    type V = Map<Seq<char>, u64>;

    /// The last number that was accepted from each node.
    closed spec fn view(&self) -> Map<Seq<char>, u64> {
        self.last_received@
    }
}

impl SequenceChecker {
    pub closed spec fn wf(&self) -> bool {
        self.last_received.wf()
    }

    /// A gap of more than this many numbers is a large one.
    pub closed spec fn window(&self) -> u64 {
        self.window_size
    }

    /// A checker that has seen no message.
    pub fn new(window_size: u64) -> (r: Self)
        ensures
            r.wf(),
            r@ == Map::<Seq<char>, u64>::empty(),
            r.window() == window_size,
    {
        SequenceChecker { last_received: TextMap::new(), window_size: window_size }
    }

    /// Checks a message. The first message of a node is in order whatever its
    /// number is. A message that is accepted sets the node's last number; one
    /// that is refused changes nothing. After the greatest number there is none
    /// to expect, so nothing smaller may follow it.
    pub fn check(&mut self, node_id: &NodeId, sequence: u64) -> (r: Result<
        SequenceCheckResult,
        SequenceError,
    >)
        requires
            old(self).wf(),
            last_of(old(self)@, node_id@) == Some(u64::MAX) ==> sequence == u64::MAX,
        ensures
            final(self).wf(),
            final(self).window() == old(self).window(),
            r == verdict(last_of(old(self)@, node_id@), sequence),
            final(self)@ == checked(old(self)@, node_id@, sequence),
    {
        let last = self.get_last_sequence(node_id);
        match last {
            None => {
                self.last_received.insert(node_id.0.clone(), sequence);
                Ok(SequenceCheckResult::InOrder)
            },
            Some(last) => {
                if sequence > last {
                    let gap: u64 = sequence - last;
                    self.last_received.insert(node_id.0.clone(), sequence);
                    if gap > 1 {
                        Ok(SequenceCheckResult::Gap(gap))
                    } else {
                        Ok(SequenceCheckResult::InOrder)
                    }
                } else if sequence == last {
                    Err(SequenceError::Duplicate)
                } else {
                    Err(SequenceError::OutOfOrder { expected: last + 1, actual: sequence })
                }
            },
        }
    }

    /// Forgets a node's last number, as when the node has come back.
    pub fn reset(&mut self, node_id: &NodeId)
        requires
            old(self).wf(),
        ensures
            final(self).wf(),
            final(self).window() == old(self).window(),
            final(self)@ == old(self)@.remove(node_id@),
    {
        self.last_received.remove(node_id.as_str());
    }

    /// The last number that was accepted from a node.
    pub fn get_last_sequence(&self, node_id: &NodeId) -> (r: Option<u64>)
        requires
            self.wf(),
        ensures
            r == last_of(self@, node_id@),
    {
        match self.last_received.get(node_id.as_str()) {
            Some(n) => Some(*n),
            None => None,
        }
    }
}

/// What the last number from a node is after a message from it.
pub open spec fn after(last: Option<u64>, sequence: u64) -> Option<u64> {
    if verdict(last, sequence) is Ok {
        Some(sequence)
    } else {
        last
    }
}

/// The numbers that are accepted from a node only grow.
pub proof fn law_accepted_numbers_grow(last: u64, sequence: u64)
    ensures
        verdict(Some(last), sequence) is Ok <==> sequence > last,
        after(Some(last), sequence) matches Some(n) && n >= last,
{
}

/// A message that was accepted is refused as a duplicate when it comes again.
pub proof fn law_repeated_message_is_refused(last: Option<u64>, sequence: u64)
    requires
        verdict(last, sequence) is Ok,
    ensures
        verdict(after(last, sequence), sequence) == Err::<SequenceCheckResult, SequenceError>(
            SequenceError::Duplicate,
        ),
{
}

/// Messages numbered one after the other are in order.
pub proof fn law_consecutive_numbers_are_in_order(last: Option<u64>, sequence: u64)
    requires
        verdict(last, sequence) is Ok,
        sequence < u64::MAX,
    ensures
        verdict(after(last, sequence), (sequence + 1) as u64) == Ok::<
            SequenceCheckResult,
            SequenceError,
        >(SequenceCheckResult::InOrder),
{
}

/// A manager numbers without gap and without repetition: of a run of calls, fewer than
/// there are numbers, call `i` gives the number `i`, and the next number is how many
/// calls there were.
pub proof fn law_numbers_follow_each_other(states: Seq<SequenceManager>, given: Seq<u64>)
    requires
        states.len() == given.len() + 1,
        given.len() <= u64::MAX,
        states[0].upcoming() == 0,
        forall|i: int|
            0 <= i < given.len() ==> gives(states[i], #[trigger] given[i], states[i + 1]),
    ensures
        forall|i: int| 0 <= i < given.len() ==> #[trigger] given[i] == i,
        states.last().upcoming() == given.len(),
    decreases given.len(),
{
    if given.len() > 0 {
        let n = given.len() - 1;
        let before = given.drop_last();
        let led = states.drop_last();
        assert forall|i: int| 0 <= i < before.len() implies gives(
            led[i],
            #[trigger] before[i],
            led[i + 1],
        ) by {
            assert(gives(states[i], given[i], states[i + 1]));
        }
        law_numbers_follow_each_other(led, before);
        assert(gives(states[n], given[n], states[n + 1]));
        assert forall|i: int| 0 <= i < given.len() implies #[trigger] given[i] == i by {
            if i < n {
                assert(before[i] == i);
            }
        }
    }
}

/// What can be asked of a checker.
pub enum CheckerCall {
    /// To check a message of a node.
    Check { node: Seq<char>, sequence: u64 },
    /// To forget a node.
    Reset { node: Seq<char> },
}

/// The last number from each node after the first `n` calls of a new checker.
pub open spec fn after_calls(calls: Seq<CheckerCall>, n: nat) -> Map<Seq<char>, u64>
    decreases n,
{
    if n == 0 {
        Map::empty()
    } else {
        let m = after_calls(calls, (n - 1) as nat);
        match calls[n - 1] {
            CheckerCall::Check { node, sequence } => checked(m, node, sequence),
            CheckerCall::Reset { node } => m.remove(node),
        }
    }
}

/// The numbers of a node that were checked since it was last forgotten, refused ones
/// among them, after the first `n` calls.
pub open spec fn numbers_since(calls: Seq<CheckerCall>, of: Seq<char>, n: nat) -> Seq<u64>
    decreases n,
{
    if n == 0 {
        Seq::empty()
    } else {
        let before = numbers_since(calls, of, (n - 1) as nat);
        match calls[n - 1] {
            CheckerCall::Check { node, sequence } => if node == of {
                before.push(sequence)
            } else {
                before
            },
            CheckerCall::Reset { node } => if node == of {
                Seq::empty()
            } else {
                before
            },
        }
    }
}

/// The last number of a node is the greatest of all that were checked since the node
/// was last forgotten, refused ones among them; there is none where none was checked.
pub proof fn law_last_number_is_the_greatest(calls: Seq<CheckerCall>, of: Seq<char>, n: nat)
    ensures
        match last_of(after_calls(calls, n), of) {
            Some(last) => {
                &&& numbers_since(calls, of, n).contains(last)
                &&& forall|i: int|
                    0 <= i < numbers_since(calls, of, n).len() ==> #[trigger] numbers_since(
                        calls,
                        of,
                        n,
                    )[i] <= last
            },
            None => numbers_since(calls, of, n).len() == 0,
        },
    decreases n,
{
    if n > 0 {
        law_last_number_is_the_greatest(calls, of, (n - 1) as nat);
        let before = numbers_since(calls, of, (n - 1) as nat);
        let all = numbers_since(calls, of, n);
        if let CheckerCall::Check { node, sequence } = calls[n - 1] {
            if node == of {
                assert(all[before.len() as int] == sequence);
                assert forall|k: u64| before.contains(k) implies #[trigger] all.contains(k) by {
                    let i = choose|i: int| 0 <= i < before.len() && before[i] == k;
                    assert(all[i] == k);
                }
            }
        }
    }
}

/// The first number of a node is in order whatever it is. A number that skips others
/// tells by how much it is ahead; one that comes again or too late is refused, and the
/// refusal tells which number was due.
pub proof fn law_numbers_are_judged(last: u64, sequence: u64)
    ensures
        verdict(None, sequence) == Ok::<SequenceCheckResult, SequenceError>(
            SequenceCheckResult::InOrder,
        ),
        sequence == last + 1 ==> verdict(Some(last), sequence) == Ok::<
            SequenceCheckResult,
            SequenceError,
        >(SequenceCheckResult::InOrder),
        sequence > last + 1 ==> verdict(Some(last), sequence) == Ok::<
            SequenceCheckResult,
            SequenceError,
        >(SequenceCheckResult::Gap((sequence - last) as u64)),
        sequence == last ==> verdict(Some(last), sequence) == Err::<
            SequenceCheckResult,
            SequenceError,
        >(SequenceError::Duplicate),
        sequence < last ==> verdict(Some(last), sequence) == Err::<
            SequenceCheckResult,
            SequenceError,
        >(SequenceError::OutOfOrder { expected: (last + 1) as u64, actual: sequence }),
{
}

/// An accepted number becomes the last of its node, a refused one does not, and the
/// numbers of other nodes stay as they are.
pub proof fn law_nodes_are_counted_apart(
    m: Map<Seq<char>, u64>,
    node: Seq<char>,
    sequence: u64,
    other: Seq<char>,
)
    ensures
        !m.contains_key(node) || sequence > m[node] ==> last_of(checked(m, node, sequence), node)
            == Some(sequence),
        m.contains_key(node) && sequence <= m[node] ==> checked(m, node, sequence) == m,
        other != node ==> last_of(checked(m, node, sequence), other) == last_of(m, other),
        last_of(m.remove(node), node) is None,
{
}

/// A refusal tells both numbers: the one that was expected and the one that came.
pub proof fn law_refusal_tells_the_numbers(last: u64, sequence: u64)
    requires
        sequence < last,
    ensures
        verdict(Some(last), sequence) is Err,
        model::ends_with(
            error_text(verdict(Some(last), sequence)->Err_0),
            model::decimal(sequence as nat),
        ),
        model::contains(
            error_text(verdict(Some(last), sequence)->Err_0),
            model::decimal((last + 1) as nat),
        ) || last == u64::MAX,
{
    let e = verdict(Some(last), sequence)->Err_0;
    let s = error_text(e);
    let d = model::decimal(sequence as nat);
    assert(s.skip(s.len() - d.len()) =~= d);
    if last < u64::MAX {
        let a = "序列号乱序：期望 "@;
        let x = model::decimal((last + 1) as nat);
        assert(s.subrange(a.len() as int, (a + x).len() as int) =~= x);
        lemmas::lemma_found(s, x, 0, a.len() as int);
    }
}

/// The numbers go up by one; after the greatest they begin anew.
pub proof fn law_numbers_begin_anew(before: SequenceManager, n: u64, after: SequenceManager)
    requires
        gives(before, n, after),
    ensures
        n < u64::MAX ==> after.upcoming() == n + 1,
        n == u64::MAX ==> after.upcoming() == 0,
{
}

} // verus!

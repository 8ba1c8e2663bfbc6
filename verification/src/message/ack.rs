//! Acknowledgements: a message that must be acknowledged is sent again until it
//! is, or until it has been sent too often.
//!
//! Moments are numbers of nanoseconds since some fixed moment.

use crate::message::frame::{Message, MessageHeader, MessageModel};
use crate::message::topic::Topic;
use crate::node::payload;
use crate::node::payload::Payload;
use crate::outside;
use crate::text::text_map::TextMap;
use crate::text::ops;
use vstd::prelude::*;
use vstd::string::*;

verus! {

/// How long to wait, and how often to try again.
#[derive(Debug)]
pub struct AckConfig {
    /// After how many seconds without acknowledgement a message is overdue.
    pub ack_timeout_secs: u64,
    /// How often a message is sent again at most.
    pub max_retries: usize,
    /// How many milliseconds to wait before each attempt, counted from zero; the
    /// last number holds for all attempts after it.
    pub retry_delays_ms: Vec<u64>,
}

/// What a configuration holds.
#[verifier::ext_equal]
pub struct AckConfigModel {
    pub ack_timeout_secs: u64,
    pub max_retries: nat,
    pub retry_delays_ms: Seq<u64>,
}

impl View for AckConfig {
    type V = AckConfigModel;

    open spec fn view(&self) -> AckConfigModel {
        AckConfigModel {
            ack_timeout_secs: self.ack_timeout_secs,
            max_retries: self.max_retries as nat,
            retry_delays_ms: self.retry_delays_ms@,
        }
    }
}

/// The delay before attempt `n` when each is `multiplier` times the one before
/// it, but never more than `max`.
pub open spec fn backoff(initial: nat, max: nat, multiplier: nat, n: nat) -> nat
    decreases n,
{
    if n == 0 {
        if initial <= max {
            initial
        } else {
            max
        }
    } else {
        let next = backoff(initial, max, multiplier, (n - 1) as nat) * multiplier;
        if next <= max {
            next
        } else {
            max
        }
    }
}

/// The delays before the attempts up to attempt `last`, when each is
/// `multiplier` times the one before it, but never more than `max` milliseconds.
pub fn backoff_delays(initial: u64, max: u64, multiplier: u64, last: usize) -> (r: Vec<u64>)
    requires
        last < usize::MAX,
        multiplier >= 1,
    ensures
        r@.len() == last + 1,
        forall|n: int|
            0 <= n <= last ==> #[trigger] r@[n] == backoff(
                initial as nat,
                max as nat,
                multiplier as nat,
                n as nat,
            ),
{
    let mut out: Vec<u64> = Vec::new();
    let mut delay: u64 = if initial <= max {
        initial
    } else {
        max
    };
    out.push(delay);
    let mut n: usize = 0;
    while n < last
        invariant
            n <= last,
            last < usize::MAX,
            out@.len() == n + 1,
            delay <= max,
            delay == backoff(initial as nat, max as nat, multiplier as nat, n as nat),
            forall|k: int|
                0 <= k <= n ==> #[trigger] out@[k] == backoff(
                    initial as nat,
                    max as nat,
                    multiplier as nat,
                    k as nat,
                ),
        decreases last - n,
    {
        let wide: u128 = delay as u128;
        let factor: u128 = multiplier as u128;
        assert(wide * factor <= 0xffff_ffff_ffff_ffff * 0xffff_ffff_ffff_ffff) by (nonlinear_arith)
            requires
                0 <= wide <= 0xffff_ffff_ffff_ffff,
                0 <= factor <= 0xffff_ffff_ffff_ffff,
        ;
        let next: u128 = wide * factor;
        delay = if next <= max as u128 {
            next as u64
        } else {
            max
        };
        out.push(delay);
        n = n + 1;
    }
    out
}

/// From one second on, twice as long each time reaches half a minute at attempt five.
proof fn lemma_half_minute(n: nat)
    requires
        n >= 5,
    ensures
        backoff(1000, 30000, 2, n) == 30000,
    decreases n,
{
    reveal_with_fuel(backoff, 7);
    if n > 5 {
        lemma_half_minute((n - 1) as nat);
    }
}

impl Default for AckConfig {
    fn default() -> (r: Self)
        ensures
            r@.ack_timeout_secs == 30,
            r@.max_retries == 3,
            r@.retry_delays_ms == seq![1000u64, 2000, 4000, 8000, 16000, 30000],
            forall|n: nat| #[trigger] delay_of(r@, n) == backoff(1000, 30000, 2, n),
    {
        let delays = backoff_delays(1000, 30000, 2, 5);
        proof {
            reveal_with_fuel(backoff, 7);
            assert(delays@ =~= seq![1000u64, 2000, 4000, 8000, 16000, 30000]);
        }
        let r = AckConfig { ack_timeout_secs: 30, max_retries: 3, retry_delays_ms: delays };
        assert forall|n: nat| #[trigger] delay_of(r@, n) == backoff(1000, 30000, 2, n) by {
            if n >= 5 {
                lemma_half_minute(n);
            }
        }
        r
    }
}

/// A message that waits for its acknowledgement.
#[derive(Debug)]
pub struct PendingAck {
    /// The message.
    pub message: Message,
    /// When it was last sent.
    pub sent_at: u64,
    /// How often it was sent again.
    pub retry_count: usize,
    /// When it may be sent again.
    pub next_retry_at: u64,
}

/// What a waiting message holds.
#[verifier::ext_equal]
pub struct PendingModel {
    pub message: MessageModel,
    pub sent_at: u64,
    pub retry_count: nat,
    pub next_retry_at: u64,
}

impl View for PendingAck {
    type V = PendingModel;

    open spec fn view(&self) -> PendingModel {
        PendingModel {
            message: self.message@,
            sent_at: self.sent_at,
            retry_count: self.retry_count as nat,
            next_retry_at: self.next_retry_at,
        }
    }
}

/// The waiting messages that a list holds.
pub open spec fn pending_models(v: Seq<PendingAck>) -> Seq<PendingModel> {
    v.map_values(|p: PendingAck| p@)
}

/// The messages that have failed, each with the reason.
pub open spec fn failed_models(v: Seq<(Message, String)>) -> Seq<(MessageModel, Seq<char>)> {
    v.map_values(|f: (Message, String)| (f.0@, f.1@))
}

/// The delay before an attempt, in milliseconds.
pub open spec fn delay_of(c: AckConfigModel, n: nat) -> u64 {
    if c.retry_delays_ms.len() == 0 {
        0
    } else if n < c.retry_delays_ms.len() {
        c.retry_delays_ms[n as int]
    } else {
        c.retry_delays_ms.last()
    }
}

/// A moment some milliseconds after another.
pub open spec fn later(now: u64, ms: u64) -> int {
    now + ms * 1_000_000
}

/// Moments from now on can be told apart: no delay leads past the last one.
pub open spec fn in_time(c: AckConfigModel, now: u64) -> bool {
    forall|n: nat| later(now, #[trigger] delay_of(c, n)) <= u64::MAX
}

/// What becomes of a waiting message.
pub enum Fate {
    /// It waits on.
    Waits,
    /// It is sent again.
    Again,
    /// It has been sent too often.
    Fails,
}

/// What becomes of a waiting message at a moment.
pub open spec fn fate(c: AckConfigModel, p: PendingModel, now: u64) -> Fate {
    if now - p.sent_at > c.ack_timeout_secs * 1_000_000_000 {
        if p.retry_count >= c.max_retries {
            Fate::Fails
        } else if now >= p.next_retry_at {
            Fate::Again
        } else {
            Fate::Waits
        }
    } else {
        Fate::Waits
    }
}

/// A message that is sent again.
pub open spec fn retried(c: AckConfigModel, p: PendingModel, now: u64) -> PendingModel {
    PendingModel {
        message: p.message,
        sent_at: now,
        retry_count: p.retry_count + 1,
        next_retry_at: later(now, delay_of(c, p.retry_count + 1)) as u64,
    }
}

/// What a look at the waiting messages finds.
#[verifier::ext_equal]
pub struct Sweep {
    /// The messages that wait afterwards.
    pub pending: Seq<PendingModel>,
    /// The messages to send again.
    pub again: Seq<MessageModel>,
    /// The messages that have failed.
    pub failed: Seq<(MessageModel, Seq<char>)>,
}

/// A look at the first `n` waiting messages.
pub open spec fn sweep(c: AckConfigModel, v: Seq<PendingModel>, now: u64, n: nat) -> Sweep
    decreases n,
{
    if n == 0 {
        Sweep { pending: Seq::empty(), again: Seq::empty(), failed: Seq::empty() }
    } else {
        let s = sweep(c, v, now, (n - 1) as nat);
        let p = v[n - 1];
        match fate(c, p, now) {
            Fate::Waits => Sweep { pending: s.pending.push(p), ..s },
            Fate::Again => Sweep {
                pending: s.pending.push(retried(c, p, now)),
                again: s.again.push(p.message),
                ..s
            },
            Fate::Fails => Sweep {
                failed: s.failed.push((p.message, "达到最大重试次数"@)),
                ..s
            },
        }
    }
}

/// Where a message waits, from place `i` on.
pub open spec fn place_from(v: Seq<PendingModel>, id: Seq<char>, i: int) -> Option<int>
    decreases v.len() - i,
{
    if i < 0 || i >= v.len() {
        None
    } else if v[i].message.header.msg_id == id {
        Some(i)
    } else {
        place_from(v, id, i + 1)
    }
}

/// The waiting messages with one more, or with another in the place of the one
/// with the same identifier.
pub open spec fn pending_with(v: Seq<PendingModel>, p: PendingModel) -> Seq<PendingModel> {
    match place_from(v, p.message.header.msg_id, 0) {
        Some(i) => v.update(i, p),
        None => v.push(p),
    }
}

/// Each waiting message waits once.
pub open spec fn distinct(v: Seq<PendingModel>) -> bool {
    forall|i: int, j: int|
        0 <= i < j < v.len() ==> (#[trigger] v[i]).message.header.msg_id != (
        #[trigger] v[j]).message.header.msg_id
}

/// Keeps track of messages that must be acknowledged.
#[derive(Debug)]
pub struct AckManager {
    config: AckConfig,
    pending: Vec<PendingAck>,
    confirmed: TextMap<u64>,
    failed: Vec<(Message, String)>,
}

/// What the manager knows.
#[verifier::ext_equal]
pub struct AckModel {
    pub config: AckConfigModel,
    /// The messages that wait.
    pub pending: Seq<PendingModel>,
    /// When each message was acknowledged.
    pub confirmed: Map<Seq<char>, u64>,
    /// The messages that have failed.
    pub failed: Seq<(MessageModel, Seq<char>)>,
}

impl View for AckManager {
    type V = AckModel;

    closed spec fn view(&self) -> AckModel {
        AckModel {
            config: self.config@,
            pending: pending_models(self.pending@),
            confirmed: self.confirmed@,
            failed: failed_models(self.failed@),
        }
    }
}

proof fn lemma_place(v: Seq<PendingModel>, id: Seq<char>, i: int)
    requires
        0 <= i <= v.len(),
    ensures
        match place_from(v, id, i) {
            Some(j) => i <= j < v.len() && v[j].message.header.msg_id == id,
            None => forall|j: int| i <= j < v.len() ==> (#[trigger] v[j]).message.header.msg_id != id,
        },
    decreases v.len() - i,
{
    if i < v.len() && v[i].message.header.msg_id != id {
        lemma_place(v, id, i + 1);
    }
}

impl AckManager {
    /// Each waiting message waits once.
    pub closed spec fn wf(&self) -> bool {
        self.confirmed.wf() && distinct(self@.pending)
    }

    /// A manager that waits for nothing.
    pub fn new(config: AckConfig) -> (r: Self)
        ensures
            r.wf(),
            r@ == (AckModel {
                config: config@,
                pending: Seq::empty(),
                confirmed: Map::empty(),
                failed: Seq::empty(),
            }),
    {
        let m = AckManager {
            config: config,
            pending: Vec::new(),
            confirmed: TextMap::new(),
            failed: Vec::new(),
        };
        assert(pending_models(m.pending@) =~= Seq::empty());
        assert(failed_models(m.failed@) =~= Seq::empty());
        m
    }

    /// The delay before an attempt, in milliseconds.
    pub fn calculate_retry_delay(&self, retry_count: usize) -> (r: u64)
        ensures
            r == delay_of(self@.config, retry_count as nat),
    {
        let n: usize = self.config.retry_delays_ms.len();
        if n == 0 {
            0
        } else if retry_count < n {
            self.config.retry_delays_ms[retry_count]
        } else {
            self.config.retry_delays_ms[n - 1]
        }
    }

    /// Whether moments from now on can be told apart.
    pub fn is_in_time(&self, now: u64) -> (r: bool)
        ensures
            r == in_time(self@.config, now),
    {
        let c = &self.config;
        let mut i: usize = 0;
        while i < c.retry_delays_ms.len()
            invariant
                i <= c.retry_delays_ms@.len(),
                c@ == self@.config,
                forall|j: int|
                    0 <= j < i ==> later(now, #[trigger] c.retry_delays_ms@[j]) <= u64::MAX,
            decreases c.retry_delays_ms@.len() - i,
        {
            let ns: u128 = c.retry_delays_ms[i] as u128 * 1_000_000;
            if now as u128 + ns > u64::MAX as u128 {
                assert(delay_of(c@, i as nat) == c.retry_delays_ms@[i as int]);
                return false;
            }
            i = i + 1;
        }
        true
    }

    /// Where a message waits.
    fn place(&self, id: &str) -> (r: Option<usize>)
        ensures
            match r {
                Some(i) => place_from(self@.pending, id@, 0) == Some(i as int) && i
                    < self.pending@.len(),
                None => place_from(self@.pending, id@, 0) is None,
            },
    {
        let ghost v = self@.pending;
        let mut i: usize = 0;
        while i < self.pending.len()
            invariant
                i <= self.pending@.len(),
                v == pending_models(self.pending@),
                place_from(v, id@, 0) == place_from(v, id@, i as int),
            decreases self.pending@.len() - i,
        {
            assert(v[i as int] == self.pending@[i as int]@);
            if ops::same_text(self.pending[i].message.header.msg_id.as_str(), id) {
                return Some(i);
            }
            i = i + 1;
        }
        None
    }

    /// Notes that a message was sent and waits for its acknowledgement.
    pub fn record_sent(&mut self, message: Message, now: u64)
        requires
            old(self).wf(),
            in_time(old(self)@.config, now),
        ensures
            final(self).wf(),
            final(self)@ == (AckModel {
                pending: pending_with(
                    old(self)@.pending,
                    (PendingModel {
                        message: message@,
                        sent_at: now,
                        retry_count: 0,
                        next_retry_at: later(now, delay_of(old(self)@.config, 0)) as u64,
                    }),
                ),
                ..old(self)@
            }),
    {
        let delay: u64 = self.calculate_retry_delay(0);
        let ghost v = self@.pending;
        let ghost id = message@.header.msg_id;
        assert(later(now, delay_of(self@.config, 0)) <= u64::MAX);
        let place = self.place(message.header.msg_id.as_str());
        let entry = PendingAck {
            message: message,
            sent_at: now,
            retry_count: 0,
            next_retry_at: now + delay * 1_000_000,
        };
        let ghost shown = entry@;
        proof {
            lemma_place(v, id, 0);
        }
        match place {
            Some(i) => {
                self.pending.set(i, entry);
                assert(pending_models(self.pending@) =~= v.update(i as int, shown));
            },
            None => {
                self.pending.push(entry);
                assert(pending_models(self.pending@) =~= v.push(shown));
            },
        }
        assert(self@.pending == pending_with(v, shown));
    }

    /// Takes in an acknowledgement, and says whether its message was waiting.
    pub fn handle_ack(&mut self, msg_id: &str, now: u64) -> (r: bool)
        requires
            old(self).wf(),
        ensures
            final(self).wf(),
            r == (place_from(old(self)@.pending, msg_id@, 0) is Some),
            match place_from(old(self)@.pending, msg_id@, 0) {
                Some(i) => final(self)@ == (AckModel {
                    pending: old(self)@.pending.remove(i),
                    confirmed: old(self)@.confirmed.insert(msg_id@, now),
                    ..old(self)@
                }),
                None => final(self)@ == old(self)@,
            },
    {
        let ghost v = self@.pending;
        match self.place(msg_id) {
            Some(i) => {
                self.pending.remove(i);
                assert(pending_models(self.pending@) =~= v.remove(i as int));
                assert forall|a: int, b: int| 0 <= a < b < v.remove(i as int).len() implies (
                #[trigger] v.remove(i as int)[a]).message.header.msg_id != (
                #[trigger] v.remove(i as int)[b]).message.header.msg_id by {
                    let x = if a < i { a } else { a + 1 };
                    let y = if b < i { b } else { b + 1 };
                    assert(v.remove(i as int)[a] == v[x]);
                    assert(v.remove(i as int)[b] == v[y]);
                }
                self.confirmed.insert(String::from_str(msg_id), now);
                true
            },
            None => false,
        }
    }

    /// Looks for overdue messages. Returns those that are to be sent again;
    /// those that have been sent too often have failed and wait no more.
    pub fn check_timeout(&mut self, now: u64) -> (r: Vec<Message>)
        requires
            old(self).wf(),
            in_time(old(self)@.config, now),
        ensures
            final(self).wf(),
            ({
                let s = sweep(
                    old(self)@.config,
                    old(self)@.pending,
                    now,
                    old(self)@.pending.len(),
                );
                &&& crate::message::frame::message_models(r@) == s.again
                &&& final(self)@ == (AckModel {
                    pending: s.pending,
                    failed: old(self)@.failed + s.failed,
                    ..old(self)@
                })
            }),
    {
        let ghost c = self@.config;
        let ghost v = self@.pending;
        let ghost first = self@.failed;
        let mut waiting: Vec<PendingAck> = Vec::new();
        std::mem::swap(&mut waiting, &mut self.pending);
        let mut kept: Vec<PendingAck> = Vec::new();
        let mut again: Vec<Message> = Vec::new();
        let timeout: u128 = self.config.ack_timeout_secs as u128 * 1_000_000_000;
        let n: usize = waiting.len();
        let mut i: usize = 0;
        proof {
            assert(pending_models(kept@) =~= Seq::empty());
            assert(crate::message::frame::message_models(again@) =~= Seq::empty());
            assert(first + Seq::empty() =~= first);
        }
        for entry in it: waiting
            invariant
                i == it.index(),
                it.seq().len() == n,
                v == pending_models(it.seq()),
                c == self.config@,
                self.config@ == old(self).config@,
                self.confirmed@ == old(self).confirmed@,
                self.confirmed.wf(),
                timeout == c.ack_timeout_secs * 1_000_000_000,
                in_time(c, now),
                (Sweep {
                    pending: pending_models(kept@),
                    again: crate::message::frame::message_models(again@),
                    failed: sweep(c, v, now, i as nat).failed,
                }) == sweep(c, v, now, i as nat),
                failed_models(self.failed@) == first + sweep(c, v, now, i as nat).failed,
        {
            let ghost s = sweep(c, v, now, i as nat);
            assert(v[i as int] == entry@);
            let elapsed: u64 = if now >= entry.sent_at {
                now - entry.sent_at
            } else {
                0
            };
            if elapsed as u128 > timeout {
                if entry.retry_count >= self.config.max_retries {
                    let ghost msg = entry.message@;
                    let ghost before = failed_models(self.failed@);
                    let reason = String::from_str("达到最大重试次数");
                    self.failed.push((entry.message, reason));
                    assert(failed_models(self.failed@) =~= before.push((msg, "达到最大重试次数"@)));
                    assert(before.push((msg, "达到最大重试次数"@)) =~= first + s.failed.push(
                        (msg, "达到最大重试次数"@),
                    ));
                } else if now >= entry.next_retry_at {
                    let copy = entry.message.clone();
                    let count: usize = entry.retry_count + 1;
                    let delay: u64 = self.calculate_retry_delay(count);
                    assert(later(now, delay_of(c, count as nat)) <= u64::MAX);
                    let next = PendingAck {
                        message: entry.message,
                        sent_at: now,
                        retry_count: count,
                        next_retry_at: now + delay * 1_000_000,
                    };
                    let ghost shown = next@;
                    let ghost copied = copy@;
                    again.push(copy);
                    kept.push(next);
                    assert(pending_models(kept@) =~= s.pending.push(shown));
                    assert(crate::message::frame::message_models(again@) =~= s.again.push(copied));
                } else {
                    let ghost shown = entry@;
                    kept.push(entry);
                    assert(pending_models(kept@) =~= s.pending.push(shown));
                }
            } else {
                let ghost shown = entry@;
                kept.push(entry);
                assert(pending_models(kept@) =~= s.pending.push(shown));
            }
            i = i + 1;
        }
        proof {
            lemma_sweep_distinct(c, v, now, v.len());
        }
        self.pending = kept;
        again
    }

    /// The messages that have failed, each with the reason.
    pub fn get_failed_messages(&self) -> (r: &Vec<(Message, String)>)
        ensures
            failed_models(r@) == self@.failed,
    {
        &self.failed
    }

    /// How many messages wait.
    pub fn pending_count(&self) -> (r: usize)
        ensures
            r == self@.pending.len(),
    {
        self.pending.len()
    }

    /// Forgets the acknowledgements that are `max_age_secs` old or older.
    pub fn cleanup_old_confirmed(&mut self, max_age_secs: u64, now: u64)
        requires
            old(self).wf(),
        ensures
            final(self).wf(),
            final(self)@ == (AckModel {
                confirmed: old(self)@.confirmed.restrict(
                    old(self)@.confirmed.dom().filter(
                        |id: Seq<char>| is_fresh(old(self)@.confirmed[id], max_age_secs, now),
                    ),
                ),
                ..old(self)@
            }),
    {
        let ghost all = self.confirmed@;
        let ghost order = self.confirmed.order();
        let max_age: u128 = max_age_secs as u128 * 1_000_000_000;
        let mut fresh: TextMap<u64> = TextMap::new();
        let mut i: usize = 0;
        while i < self.confirmed.len()
            invariant
                self.confirmed.wf(),
                fresh.wf(),
                self.confirmed@ == all,
                self.confirmed.order() == order,
                i <= order.len(),
                self.config@ == old(self).config@,
                self.pending@ == old(self).pending@,
                self.failed@ == old(self).failed@,
                max_age == max_age_secs * 1_000_000_000,
                forall|id: Seq<char>|
                    #![trigger fresh@.contains_key(id)]
                    fresh@.contains_key(id) <==> order.take(i as int).contains(id) && is_fresh(
                        all[id],
                        max_age_secs,
                        now,
                    ),
                forall|id: Seq<char>|
                    fresh@.contains_key(id) ==> #[trigger] fresh@[id] == all[id],
            decreases order.len() - i,
        {
            let key = self.confirmed.key_at(i);
            let at: u64 = *self.confirmed.value_at(i);
            let ghost before = fresh@;
            let ghost k = order[i as int];
            assert(key@ == k);
            let age: u64 = if now >= at {
                now - at
            } else {
                0
            };
            if (age as u128) < max_age {
                let copy = key.clone();
                fresh.insert(copy, at);
            }
            proof {
                assert(order.take(i + 1) =~= order.take(i as int).push(k));
                self.confirmed.lemma_order(k);
                assert forall|id: Seq<char>|
                    #![trigger fresh@.contains_key(id)]
                    fresh@.contains_key(id) <==> order.take(i + 1).contains(id) && is_fresh(
                        all[id],
                        max_age_secs,
                        now,
                    ) by {
                    assert(before.contains_key(id) <==> order.take(i as int).contains(id)
                        && is_fresh(all[id], max_age_secs, now));
                    let some = order.take(i as int);
                    let more = order.take(i + 1);
                    if some.contains(id) {
                        let j = choose|j: int| 0 <= j < some.len() && some[j] == id;
                        assert(more[j] == id);
                    }
                    if more.contains(id) && id != k {
                        let j = choose|j: int| 0 <= j < more.len() && more[j] == id;
                        assert(some[j] == id);
                    }
                    assert(more[i as int] == k);
                }
            }
            i = i + 1;
        }
        proof {
            assert(order.take(order.len() as int) =~= order);
            let keep = all.dom().filter(|id: Seq<char>| is_fresh(all[id], max_age_secs, now));
            assert forall|id: Seq<char>| fresh@.contains_key(id) <==> all.restrict(
                keep,
            ).contains_key(id) by {
                self.confirmed.lemma_order(id);
            }
            assert(fresh@ =~= all.restrict(keep));
        }
        self.confirmed = fresh;
    }
}

/// An acknowledgement that is less than `max_age_secs` old.
pub open spec fn is_fresh(at: u64, max_age_secs: u64, now: u64) -> bool {
    let age = if now >= at {
        now - at
    } else {
        0
    };
    age < max_age_secs * 1_000_000_000
}

proof fn lemma_sweep_distinct(c: AckConfigModel, v: Seq<PendingModel>, now: u64, n: nat)
    requires
        distinct(v),
        n <= v.len(),
    ensures
        distinct(sweep(c, v, now, n).pending),
        forall|i: int|
            0 <= i < sweep(c, v, now, n).pending.len() ==> exists|j: int|
                0 <= j < n && (#[trigger] v[j]).message == (#[trigger] sweep(
                    c,
                    v,
                    now,
                    n,
                ).pending[i]).message,
    decreases n,
{
    if n > 0 {
        lemma_sweep_distinct(c, v, now, (n - 1) as nat);
        let a = sweep(c, v, now, (n - 1) as nat).pending;
        let b = sweep(c, v, now, n).pending;
        assert forall|i: int| 0 <= i < b.len() implies exists|j: int|
            0 <= j < n && (#[trigger] v[j]).message == (#[trigger] b[i]).message by {
            if i < a.len() {
                assert(b[i] == a[i]);
                let j = choose|j: int| 0 <= j < n - 1 && (#[trigger] v[j]).message == a[i].message;
                assert(v[j].message == b[i].message);
            } else {
                assert(v[n - 1].message == b[i].message);
            }
        }
        assert forall|i: int, k: int| 0 <= i < k < b.len() implies (
        #[trigger] b[i]).message.header.msg_id != (#[trigger] b[k]).message.header.msg_id by {
            assert(b[i] == a[i]);
            let j = choose|j: int| 0 <= j < n - 1 && (#[trigger] v[j]).message == a[i].message;
            if k < a.len() {
                assert(b[k] == a[k]);
            } else {
                assert(v[n - 1].message == b[k].message);
                assert(v[j].message.header.msg_id != v[n - 1].message.header.msg_id);
            }
        }
    }
}

/// The message that acknowledges another.
pub fn create_ack_message(original_msg_id: &str, src_node: &str) -> (r: Message)
    ensures
        r@.topic == "sys/ack"@,
        outside::is_uuid_text(r@.header.msg_id),
        r@.header.src_node == src_node@,
        r@.header.reply_to == Some(original_msg_id@),
        r@.header.sequence == 0,
        !r@.header.requires_ack,
        r@.payload == vstd::utf8::encode_utf8(
            outside::json_of(
                seq![
                    payload::text_field("original_msg_id"@, original_msg_id@),
                    payload::text_field("status"@, "acknowledged"@),
                ],
            ),
        ),
{
    let fields = Payload::new().text("original_msg_id", original_msg_id).text(
        "status",
        "acknowledged",
    );
    assert(fields@ =~= seq![
        payload::text_field("original_msg_id"@, original_msg_id@),
        payload::text_field("status"@, "acknowledged"@),
    ]);
    let body = outside::json_object(&fields);
    Message {
        topic: Topic::sys_ack(),
        header: MessageHeader {
            msg_id: outside::fresh_id(),
            timestamp: outside::timestamp(),
            src_node: String::from_str(src_node),
            reply_to: Some(String::from_str(original_msg_id)),
            sequence: 0,
            requires_ack: false,
        },
        payload: body.as_str().as_bytes_vec(),
    }
}

/// A look at the waiting messages loses none: each waits afterwards or has
/// failed, and only messages that go on waiting are sent again.
pub proof fn law_sweep_loses_nothing(c: AckConfigModel, v: Seq<PendingModel>, now: u64)
    ensures
        ({
            let s = sweep(c, v, now, v.len());
            &&& s.pending.len() + s.failed.len() == v.len()
            &&& s.again.len() <= s.pending.len()
            &&& forall|i: int|
                0 <= i < v.len() ==> (exists|j: int|
                    0 <= j < s.pending.len() && (#[trigger] s.pending[j]).message == (
                    #[trigger] v[i]).message) || (exists|j: int|
                    0 <= j < s.failed.len() && (#[trigger] s.failed[j]).0 == v[i].message)
        }),
{
    lemma_sweep_complete(c, v, now, v.len());
}

proof fn lemma_sweep_complete(c: AckConfigModel, v: Seq<PendingModel>, now: u64, n: nat)
    requires
        n <= v.len(),
    ensures
        ({
            let s = sweep(c, v, now, n);
            &&& s.pending.len() + s.failed.len() == n
            &&& s.again.len() <= s.pending.len()
            &&& forall|i: int|
                0 <= i < n ==> (exists|j: int|
                    0 <= j < s.pending.len() && (#[trigger] s.pending[j]).message == (
                    #[trigger] v[i]).message) || (exists|j: int|
                    0 <= j < s.failed.len() && (#[trigger] s.failed[j]).0 == v[i].message)
        }),
    decreases n,
{
    if n > 0 {
        lemma_sweep_complete(c, v, now, (n - 1) as nat);
        let a = sweep(c, v, now, (n - 1) as nat);
        let s = sweep(c, v, now, n);
        assert forall|i: int| 0 <= i < n implies (exists|j: int|
            0 <= j < s.pending.len() && (#[trigger] s.pending[j]).message == (
            #[trigger] v[i]).message) || (exists|j: int|
            0 <= j < s.failed.len() && (#[trigger] s.failed[j]).0 == v[i].message) by {
            if i < n - 1 {
                if exists|j: int|
                    0 <= j < a.pending.len() && (#[trigger] a.pending[j]).message == v[i].message {
                    let j = choose|j: int|
                        0 <= j < a.pending.len() && (#[trigger] a.pending[j]).message
                            == v[i].message;
                    assert(s.pending[j].message == v[i].message);
                } else {
                    let j = choose|j: int|
                        0 <= j < a.failed.len() && (#[trigger] a.failed[j]).0 == v[i].message;
                    assert(s.failed[j].0 == v[i].message);
                }
            } else {
                match fate(c, v[i], now) {
                    Fate::Fails => {
                        assert(s.failed[a.failed.len() as int].0 == v[i].message);
                    },
                    _ => {
                        assert(s.pending[a.pending.len() as int].message == v[i].message);
                    },
                }
            }
        }
    }
}

/// No message is sent again more often than the configuration allows: the
/// number of attempts stays within the bound, and an overdue message that has
/// reached the bound fails.
pub proof fn law_retries_are_bounded(c: AckConfigModel, p: PendingModel, now: u64)
    requires
        p.retry_count <= c.max_retries,
    ensures
        fate(c, p, now) is Again ==> retried(c, p, now).retry_count <= c.max_retries,
        p.retry_count == c.max_retries ==> !(fate(c, p, now) is Again),
        p.retry_count == c.max_retries && now - p.sent_at > c.ack_timeout_secs * 1_000_000_000
            ==> fate(c, p, now) is Fails,
{
}

/// Delays grow from attempt to attempt, but never past the greatest delay.
pub proof fn law_backoff_grows_to_its_bound(initial: nat, max: nat, multiplier: nat, n: nat)
    requires
        multiplier >= 1,
    ensures
        backoff(initial, max, multiplier, n) <= max,
        backoff(initial, max, multiplier, n) <= backoff(initial, max, multiplier, n + 1),
{
    let d = backoff(initial, max, multiplier, n);
    assert(d <= d * multiplier) by (nonlinear_arith)
        requires
            multiplier >= 1,
            d >= 0,
    ;
}

/// A message that was sent waits, and once it is acknowledged it waits no more: it
/// will not be sent again.
pub proof fn law_acknowledged_waits_no_more(v: Seq<PendingModel>, p: PendingModel)
    requires
        distinct(v),
    ensures
        ({
            let id = p.message.header.msg_id;
            let sent = pending_with(v, p);
            &&& place_from(sent, id, 0) matches Some(i)
            &&& sent[i] == p
            &&& place_from(sent.remove(i), id, 0) is None
        }),
{
    let id = p.message.header.msg_id;
    let sent = pending_with(v, p);
    lemma_place(v, id, 0);
    lemma_place(sent, id, 0);
    let at = match place_from(v, id, 0) {
        Some(k) => k,
        None => v.len() as int,
    };
    assert(sent[at] == p);
    let i = place_from(sent, id, 0)->0;
    assert(i == at) by {
        if i != at {
            assert(sent[i] == v[i]);
            if at < v.len() {
                assert(v[i].message.header.msg_id == v[at].message.header.msg_id);
            }
        }
    }
    let left = sent.remove(i);
    assert forall|k: int| 0 <= k < left.len() implies (
    #[trigger] left[k]).message.header.msg_id != id by {
        let from = if k < i { k } else { k + 1 };
        assert(left[k] == sent[from]);
        assert(sent[from] == v[from]);
        if at < v.len() {
            assert(v[from].message.header.msg_id != v[at].message.header.msg_id);
        }
    }
    lemma_place(left, id, 0);
}

/// A message waits as long as its time has not run out. Then it fails where it was tried
/// often enough, and else is sent again once its delay has passed.
pub proof fn law_fate_of_a_message(c: AckConfigModel, p: PendingModel, now: u64)
    ensures
        ({
            let late = now - p.sent_at > c.ack_timeout_secs * 1_000_000_000;
            &&& fate(c, p, now) is Fails <==> late && p.retry_count >= c.max_retries
            &&& fate(c, p, now) is Again <==> late && p.retry_count < c.max_retries && now
                >= p.next_retry_at
            &&& fate(c, p, now) is Waits <==> !late || (p.retry_count < c.max_retries && now
                < p.next_retry_at)
        }),
{
}

/// What becomes of each waiting message: one that waits stays as it is, one that is sent
/// again stays with one try more, and one that fails goes with the reason.
pub proof fn law_sweep_decides(c: AckConfigModel, v: Seq<PendingModel>, now: u64, n: nat, i: int)
    requires
        0 <= i < n <= v.len(),
    ensures
        ({
            let s = sweep(c, v, now, n);
            let p = v[i];
            &&& fate(c, p, now) is Waits ==> s.pending.contains(p)
            &&& fate(c, p, now) is Again ==> s.again.contains(p.message) && s.pending.contains(
                retried(c, p, now),
            )
            &&& fate(c, p, now) is Fails ==> s.failed.contains(
                (p.message, "达到最大重试次数"@),
            )
        }),
    decreases n,
{
    let before = sweep(c, v, now, (n - 1) as nat);
    let s = sweep(c, v, now, n);
    let p = v[i];
    if i < n - 1 {
        law_sweep_decides(c, v, now, (n - 1) as nat, i);
        let x = if fate(c, p, now) is Again {
            retried(c, p, now)
        } else {
            p
        };
        if before.pending.contains(x) {
            let j = choose|j: int| 0 <= j < before.pending.len() && before.pending[j] == x;
            assert(s.pending[j] == x);
        }
        if before.again.contains(p.message) {
            let j = choose|j: int| 0 <= j < before.again.len() && before.again[j] == p.message;
            assert(s.again[j] == p.message);
        }
        let f = (p.message, "达到最大重试次数"@);
        if before.failed.contains(f) {
            let j = choose|j: int| 0 <= j < before.failed.len() && before.failed[j] == f;
            assert(s.failed[j] == f);
        }
    } else {
        match fate(c, p, now) {
            Fate::Waits => {
                assert(s.pending[before.pending.len() as int] == p);
            },
            Fate::Again => {
                assert(s.pending[before.pending.len() as int] == retried(c, p, now));
                assert(s.again[before.again.len() as int] == p.message);
            },
            Fate::Fails => {
                assert(s.failed[before.failed.len() as int] == (
                    p.message,
                    "达到最大重试次数"@,
                ));
            },
        }
    }
}

/// Only messages that are due are sent again.
pub proof fn law_only_due_messages_are_sent_again(
    c: AckConfigModel,
    v: Seq<PendingModel>,
    now: u64,
    n: nat,
    a: int,
) -> (i: int)
    requires
        n <= v.len(),
        0 <= a < sweep(c, v, now, n).again.len(),
    ensures
        0 <= i < n,
        sweep(c, v, now, n).again[a] == v[i].message,
        now - v[i].sent_at > c.ack_timeout_secs * 1_000_000_000,
        v[i].retry_count < c.max_retries,
        now >= v[i].next_retry_at,
    decreases n,
{
    if a < sweep(c, v, now, (n - 1) as nat).again.len() {
        law_only_due_messages_are_sent_again(c, v, now, (n - 1) as nat, a)
    } else {
        n - 1
    }
}

/// A message that is sent again counts one try more, and its time begins anew; the next
/// try comes when the delay for it has passed.
pub proof fn law_next_try_is_delayed(c: AckConfigModel, p: PendingModel, now: u64)
    requires
        in_time(c, now),
        c.retry_delays_ms.len() > 0,
    ensures
        retried(c, p, now).message == p.message,
        retried(c, p, now).retry_count == p.retry_count + 1,
        retried(c, p, now).sent_at == now,
        p.retry_count + 1 < c.retry_delays_ms.len() ==> retried(c, p, now).next_retry_at == now
            + c.retry_delays_ms[p.retry_count as int + 1] * 1_000_000,
        p.retry_count + 1 >= c.retry_delays_ms.len() ==> retried(c, p, now).next_retry_at == now
            + c.retry_delays_ms.last() * 1_000_000,
{
    let d = delay_of(c, p.retry_count + 1);
    assert(later(now, d) <= u64::MAX);
}

/// The delays are used one after the other, and the last one from then on.
pub proof fn law_delays_are_used_in_order(c: AckConfigModel, n: nat)
    ensures
        c.retry_delays_ms.len() == 0 ==> delay_of(c, n) == 0,
        n < c.retry_delays_ms.len() ==> delay_of(c, n) == c.retry_delays_ms[n as int],
        0 < c.retry_delays_ms.len() <= n ==> delay_of(c, n)
            == c.retry_delays_ms[c.retry_delays_ms.len() - 1],
{
}

/// Each delay is the one before times the multiplier, as long as the bound allows.
pub proof fn law_backoff_multiplies(initial: nat, max: nat, multiplier: nat, n: nat)
    ensures
        initial <= max ==> backoff(initial, max, multiplier, 0) == initial,
        initial > max ==> backoff(initial, max, multiplier, 0) == max,
        backoff(initial, max, multiplier, n) * multiplier <= max ==> backoff(
            initial,
            max,
            multiplier,
            n + 1,
        ) == backoff(initial, max, multiplier, n) * multiplier,
        backoff(initial, max, multiplier, n) * multiplier > max ==> backoff(
            initial,
            max,
            multiplier,
            n + 1,
        ) == max,
{
}

/// A confirmation is kept until its age in seconds is reached.
pub proof fn law_confirmation_ages(at: u64, max_age_secs: u64, now: u64)
    ensures
        at <= now ==> (is_fresh(at, max_age_secs, now) <==> now < at + max_age_secs
            * 1_000_000_000),
        now <= at ==> (is_fresh(at, max_age_secs, now) <==> max_age_secs > 0),
{
}

} // verus!

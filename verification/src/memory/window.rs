//! The sliding window: which messages stand in the context, and in which form.

use crate::memory::heat;
use crate::memory::heat::{HeatThresholds, Temperature};
use crate::memory::rank;
use crate::memory::working;
use crate::memory::working::{EntryModel, WorkingEntry};
use crate::text::{lemmas, model, ops};
use vstd::prelude::*;
use vstd::string::*;

verus! {

/// A message, with its heat.
#[derive(Debug)]
pub struct MessageMeta {
    /// The heat, by an integer that is ordered as the heats are.
    pub heat: i64,
    /// Who the message is from.
    pub role: String,
    /// The full text.
    pub content: String,
    /// How many tokens the message takes.
    pub token_count: u32,
    /// The first and the last turn that the message stands for.
    pub source_range: (usize, usize),
}

/// What a message holds.
#[verifier::ext_equal]
pub struct MetaModel {
    pub heat: i64,
    pub role: Seq<char>,
    pub content: Seq<char>,
    pub token_count: u32,
    pub source_range: (usize, usize),
}

impl View for MessageMeta {
    type V = MetaModel;

    open spec fn view(&self) -> MetaModel {
        MetaModel {
            heat: self.heat,
            role: self.role@,
            content: self.content@,
            token_count: self.token_count,
            source_range: self.source_range,
        }
    }
}

/// The messages that a list holds.
pub open spec fn meta_models(v: Seq<MessageMeta>) -> Seq<MetaModel> {
    v.map_values(|m: MessageMeta| m@)
}

/// How many characters begin before byte `n`, from the `k`-th on.
pub open spec fn begun_from(s: Seq<char>, n: nat, k: int) -> int
    decreases s.len() - k,
{
    if k < s.len() && model::byte_len(s.take(k)) < n {
        begun_from(s, n, k + 1)
    } else {
        k
    }
}

/// The characters that begin before byte `n`.
pub open spec fn begun(s: Seq<char>, n: nat) -> Seq<char> {
    s.take(begun_from(s, n, 0))
}

/// The short form of a text: a text of more than 100 bytes is cut behind the
/// last character that begins before that place.
pub open spec fn warm_summary(s: Seq<char>) -> Seq<char> {
    if model::byte_len(s) > 100 {
        begun(s, 100) + "..."@
    } else {
        s
    }
}

/// What stands for a cold message.
pub open spec fn cold_text(range: (usize, usize)) -> Seq<char> {
    "[冷记忆: 第"@ + model::decimal(range.0 as nat) + "-"@ + model::decimal(range.1 as nat)
        + "轮, 主题概要]"@
}

/// What stands for a message that the budget has no room for.
pub open spec fn dropped_text(range: (usize, usize)) -> Seq<char> {
    "[冷记忆: 第"@ + model::decimal(range.0 as nat) + "-"@ + model::decimal(range.1 as nat)
        + "轮]"@
}

/// The entry for a message, by how warm it is.
pub open spec fn entry_for(m: MetaModel, t: HeatThresholds) -> EntryModel {
    match heat::temperature(m.heat, t) {
        Temperature::Hot => EntryModel::Hot {
            role: working::role_of(m.role),
            content: m.content,
            token_count: m.token_count as nat,
        },
        Temperature::Warm => EntryModel::Warm {
            summary: warm_summary(m.content),
            token_count: model::byte_len(warm_summary(m.content)) / 4,
            source_range: m.source_range,
        },
        Temperature::Cold => EntryModel::Cold {
            placeholder: cold_text(m.source_range),
            source_range: m.source_range,
            token_count: 30,
        },
    }
}

/// The entry for a message that the budget has no room for.
pub open spec fn dropped_entry(m: MetaModel) -> EntryModel {
    EntryModel::Cold {
        placeholder: dropped_text(m.source_range),
        source_range: m.source_range,
        token_count: 30,
    }
}

/// The window while it is filled.
#[verifier::ext_equal]
pub struct Filling {
    /// The entries.
    pub entries: Seq<EntryModel>,
    /// How many tokens of the budget are spent.
    pub used: nat,
}

/// The window with the entry for one more message: the entry itself if the
/// budget has room for it.
pub open spec fn filled_with(
    f: Filling,
    m: MetaModel,
    t: HeatThresholds,
    max_tokens: nat,
) -> Filling {
    let e = entry_for(m, t);
    if f.used + working::tokens_of(e) <= max_tokens {
        Filling { entries: f.entries.push(e), used: f.used + working::tokens_of(e) }
    } else {
        Filling { entries: f.entries.push(dropped_entry(m)), used: f.used }
    }
}

/// The window filled with the messages at the first `n` of the given places.
pub open spec fn filled(
    messages: Seq<MetaModel>,
    order: Seq<int>,
    t: HeatThresholds,
    max_tokens: nat,
    n: nat,
) -> Filling
    decreases n,
{
    if n == 0 {
        Filling { entries: Seq::empty(), used: 0 }
    } else {
        filled_with(
            filled(messages, order, t, max_tokens, (n - 1) as nat),
            messages[order[n - 1]],
            t,
            max_tokens,
        )
    }
}

/// The first turns of the messages at some places.
pub open spec fn first_turns(messages: Seq<MetaModel>, order: Seq<int>) -> Seq<i128> {
    order.map_values(|i: int| messages[i].source_range.0 as i128)
}

/// The entries in ascending order of their turns. Entries of the same turn stay in
/// their own order.
pub open spec fn placed(v: Seq<EntryModel>, turns: Seq<i128>) -> Seq<EntryModel> {
    rank::ascending(turns, v.len()).map_values(|i: int| v[i])
}

/// The heats of some messages.
pub open spec fn heats(messages: Seq<MetaModel>) -> Seq<i64> {
    messages.map_values(|m: MetaModel| m.heat)
}

/// The window for some messages: the hottest are served first, and the entries stand
/// in the order of the conversation.
pub open spec fn window(
    messages: Seq<MetaModel>,
    t: HeatThresholds,
    max_tokens: nat,
) -> Seq<EntryModel> {
    let order = rank::descending(heats(messages));
    placed(
        filled(messages, order, t, max_tokens, messages.len()).entries,
        first_turns(messages, order),
    )
}

/// The places of the messages in the order in which they stand in the window.
pub open spec fn window_order(messages: Seq<MetaModel>) -> Seq<int> {
    let order = rank::descending(heats(messages));
    rank::ascending(first_turns(messages, order), messages.len()).map_values(|i: int| order[i])
}

/// The short form of a text.
fn summarise(content: &str) -> (r: String)
    ensures
        r@ == warm_summary(content@),
        model::byte_len(r@) <= 106,
{
    let chars = ops::chars_of(content);
    let total: usize = ops::text_byte_len(content);
    if total <= 100 {
        return ops::string_of(chars.as_slice());
    }
    let mut k: usize = 0;
    let mut bytes: usize = 0;
    let ghost s = content@;
    assert(s.take(0) =~= Seq::<char>::empty());
    while k < chars.len() && bytes < 100
        invariant
            chars@ == s,
            k <= s.len(),
            bytes == model::byte_len(s.take(k as int)),
            bytes <= 103,
            begun_from(s, 100, 0) == begun_from(s, 100, k as int),
        decreases s.len() - k,
    {
        assert(s.take(k + 1).drop_last() =~= s.take(k as int));
        assert(s.take(k + 1).last() == s[k as int]);
        bytes = bytes + ops::width(chars[k]);
        k = k + 1;
    }
    let shown = ops::string_of(ops::take(chars.as_slice(), k));
    proof {
        lemmas::lemma_byte_len_concat(shown@, "..."@);
        reveal_strlit("...");
        reveal_with_fuel(model::byte_len, 4);
        assert(model::byte_len("..."@) == 3);
    }
    ops::concat2(shown.as_str(), "...")
}

/// The text for a range of turns, with the given end.
fn range_text(range: (usize, usize), end: &str) -> (r: String)
    ensures
        r@ == "[冷记忆: 第"@ + model::decimal(range.0 as nat) + "-"@ + model::decimal(
            range.1 as nat,
        ) + end@,
{
    let first = ops::decimal(range.0);
    let last = ops::decimal(range.1);
    ops::concat5("[冷记忆: 第", first.as_str(), "-", last.as_str(), end)
}

impl MessageMeta {
    /// The entry for the message.
    fn entry(&self, thresholds: &HeatThresholds) -> (r: WorkingEntry)
        ensures
            r@ == entry_for(self@, *thresholds),
    {
        match heat::classify(self.heat, thresholds) {
            Temperature::Hot => WorkingEntry::Hot {
                role: String::from_str(working::known_role(self.role.as_str())),
                content: self.content.clone(),
                token_count: self.token_count,
            },
            Temperature::Warm => {
                let summary = summarise(self.content.as_str());
                let tokens: u32 = (ops::text_byte_len(summary.as_str()) / 4) as u32;
                WorkingEntry::Warm {
                    summary,
                    token_count: tokens,
                    source_range: self.source_range,
                }
            },
            Temperature::Cold => WorkingEntry::Cold {
                placeholder: range_text(self.source_range, "轮, 主题概要]"),
                source_range: self.source_range,
                token_count: 30,
            },
        }
    }
}

/// Puts the entries into the order of their turns.
fn place(entries: &Vec<WorkingEntry>, turns: &Vec<i128>) -> (r: Vec<WorkingEntry>)
    requires
        turns@.len() == entries@.len(),
    ensures
        working::entry_models(r@) == placed(working::entry_models(entries@), turns@),
{
    let ghost all = working::entry_models(entries@);
    let order = rank::ascending_order(turns);
    let mut out: Vec<WorkingEntry> = Vec::new();
    assert(working::entry_models(out@) =~= placed(all, turns@).take(0));
    let ghost ranked = rank::positions(order@);
    let mut j: usize = 0;
    while j < order.len()
        invariant
            j <= order@.len(),
            order@.len() == entries@.len(),
            all == working::entry_models(entries@),
            ranked == rank::positions(order@),
            placed(all, turns@) == ranked.map_values(|i: int| all[i]),
            forall|k: int| 0 <= k < order@.len() ==> (#[trigger] order@[k]) < entries@.len(),
            working::entry_models(out@) == placed(all, turns@).take(j as int),
        decreases order@.len() - j,
    {
        assert(ranked[j as int] == order@[j as int] as int);
        assert(all[order@[j as int] as int] == entries@[order@[j as int] as int]@);
        let ghost before = out@;
        let entry = entries[order[j]].clone();
        let ghost shown = entry@;
        out.push(entry);
        assert(working::entry_models(out@) =~= working::entry_models(before).push(shown));
        assert(placed(all, turns@).take(j + 1) =~= placed(all, turns@).take(j as int).push(shown));
        j = j + 1;
    }
    assert(placed(all, turns@).take(placed(all, turns@).len() as int) =~= placed(all, turns@));
    out
}

/// Fills the window anew at the end of each turn.
#[derive(Debug, Clone, Copy)]
pub struct SlidingWindow {
    /// The heats at which a message counts as warm and as hot.
    pub thresholds: HeatThresholds,
    /// The budget.
    pub max_tokens: u32,
}

impl SlidingWindow {
    /// A window with the given budget and the usual thresholds.
    pub fn new(max_tokens: u32) -> (r: Self)
        ensures
            r.max_tokens == max_tokens,
            r.thresholds == (HeatThresholds {
                cold: 0x3FC9_9999_9999_999A,
                warm: 0x3FD9_9999_9999_999A,
            }),
    {
        SlidingWindow { thresholds: HeatThresholds::default(), max_tokens }
    }

    /// The window for the messages: hot ones in full, warm ones shortened, cold
    /// ones and those that the budget has no room for as placeholders.
    pub fn update(&self, messages: &Vec<MessageMeta>) -> (r: Vec<WorkingEntry>)
        ensures
            working::entry_models(r@) == window(
                meta_models(messages@),
                self.thresholds,
                self.max_tokens as nat,
            ),
    {
        let ghost all = meta_models(messages@);
        let ghost max = self.max_tokens as nat;
        let ghost t = self.thresholds;
        let mut keys: Vec<i64> = Vec::new();
        let mut i: usize = 0;
        while i < messages.len()
            invariant
                i <= messages@.len(),
                all == meta_models(messages@),
                keys@ == heats(all).take(i as int),
            decreases messages@.len() - i,
        {
            assert(all[i as int] == messages@[i as int]@);
            keys.push(messages[i].heat);
            assert(heats(all).take(i + 1) =~= heats(all).take(i as int).push(all[i as int].heat));
            i = i + 1;
        }
        assert(heats(all).take(all.len() as int) =~= heats(all));
        let order = rank::descending_order(&keys);
        let ghost ranked = rank::descending(heats(all));
        let mut entries: Vec<WorkingEntry> = Vec::new();
        let mut turns: Vec<i128> = Vec::new();
        let mut used: u64 = 0;
        assert(working::entry_models(entries@) =~= Seq::empty());
        let mut j: usize = 0;
        while j < order.len()
            invariant
                j <= order@.len(),
                order@.len() == messages@.len(),
                max == self.max_tokens,
                t == self.thresholds,
                all == meta_models(messages@),
                ranked == rank::positions(order@),
                forall|k: int| 0 <= k < order@.len() ==> (#[trigger] order@[k]) < messages@.len(),
                used <= max,
                entries@.len() == j,
                turns@ == first_turns(all, ranked).take(j as int),
                filled(all, ranked, t, max, j as nat) == (Filling {
                    entries: working::entry_models(entries@),
                    used: used as nat,
                }),
            decreases order@.len() - j,
        {
            let message = &messages[order[j]];
            assert(ranked[j as int] == order@[j as int] as int);
            assert(all[ranked[j as int]] == message@);
            turns.push(message.source_range.0 as i128);
            assert(first_turns(all, ranked).take(j + 1) =~= first_turns(all, ranked).take(
                j as int,
            ).push(message.source_range.0 as i128));
            let ghost before = entries@;
            let entry = message.entry(&self.thresholds);
            let tokens: u64 = entry.token_count() as u64;
            if used + tokens <= self.max_tokens as u64 {
                used = used + tokens;
                let ghost shown = entry@;
                entries.push(entry);
                assert(working::entry_models(entries@) =~= working::entry_models(before).push(
                    shown,
                ));
            } else {
                let dropped = WorkingEntry::Cold {
                    placeholder: range_text(message.source_range, "轮]"),
                    source_range: message.source_range,
                    token_count: 30,
                };
                let ghost shown = dropped@;
                entries.push(dropped);
                assert(working::entry_models(entries@) =~= working::entry_models(before).push(
                    shown,
                ));
            }
            j = j + 1;
        }
        assert(first_turns(all, ranked).take(all.len() as int) =~= first_turns(all, ranked));
        place(&entries, &turns)
    }
}

proof fn lemma_filled(
    messages: Seq<MetaModel>,
    order: Seq<int>,
    t: HeatThresholds,
    max_tokens: nat,
    n: nat,
)
    ensures
        filled(messages, order, t, max_tokens, n).entries.len() == n,
        filled(messages, order, t, max_tokens, n).used <= max_tokens,
        forall|i: int|
            #![trigger filled(messages, order, t, max_tokens, n).entries[i]]
            0 <= i < n ==> (filled(messages, order, t, max_tokens, n).entries[i] == entry_for(messages[order[i]], t) || filled(messages, order, t, max_tokens, n).entries[i] == dropped_entry(
                messages[order[i]],
            )),
    decreases n,
{
    if n > 0 {
        lemma_filled(messages, order, t, max_tokens, (n - 1) as nat);
        let f = filled(messages, order, t, max_tokens, (n - 1) as nat);
        let m = messages[order[n - 1]];
        let g = filled(messages, order, t, max_tokens, n);
        assert forall|i: int| 0 <= i < n implies (g.entries[i] == entry_for(messages[order[i]], t)
            || g.entries[i] == dropped_entry(messages[order[i]])) by {
            if i < n - 1 {
                assert(g.entries[i] == f.entries[i]);
            }
        }
    }
}

/// No message is lost: the window has one entry for each.
pub proof fn law_window_keeps_every_message(
    messages: Seq<MetaModel>,
    t: HeatThresholds,
    max_tokens: nat,
)
    ensures
        window(messages, t, max_tokens).len() == messages.len(),
        forall|i: int|
            0 <= i < messages.len() ==> window(messages, t, max_tokens).contains(
                entry_for(#[trigger] messages[i], t),
            ) || window(messages, t, max_tokens).contains(dropped_entry(messages[i])),
{
    let keys = rank::reversed(heats(messages));
    let order = rank::descending(heats(messages));
    rank::law_ascending(keys, messages.len());
    lemma_filled(messages, order, t, max_tokens, messages.len());
    let v = filled(messages, order, t, max_tokens, messages.len()).entries;
    rank::law_ascending(first_turns(messages, order), v.len());
    let places = rank::ascending(first_turns(messages, order), v.len());
    let w = window(messages, t, max_tokens);
    assert forall|i: int| 0 <= i < messages.len() implies w.contains(entry_for(#[trigger] messages[i], t))
        || w.contains(dropped_entry(messages[i])) by {
        assert(order.contains(i));
        let k = choose|k: int| 0 <= k < order.len() && order[k] == i;
        assert(v[k] == entry_for(messages[i], t) || v[k] == dropped_entry(messages[i]));
        assert(places.contains(k));
        let p = choose|p: int| 0 <= p < places.len() && places[p] == k;
        assert(w[p] == v[k]);
    }
}

/// The window is in the order of the conversation: there is one entry for each message,
/// and one of an earlier turn comes before one of a later turn.
pub proof fn law_window_is_in_order(
    messages: Seq<MetaModel>,
    t: HeatThresholds,
    max_tokens: nat,
)
    ensures
        window_order(messages).len() == messages.len(),
        window_order(messages).no_duplicates(),
        forall|i: int|
            0 <= i < messages.len() ==> {
                let k = #[trigger] window_order(messages)[i];
                &&& 0 <= k < messages.len()
                &&& {
                    ||| window(messages, t, max_tokens)[i] == entry_for(messages[k], t)
                    ||| window(messages, t, max_tokens)[i] == dropped_entry(messages[k])
                }
            },
        forall|i: int, j: int|
            0 <= i < j < messages.len() ==> messages[#[trigger] window_order(
                messages,
            )[i]].source_range.0 <= messages[#[trigger] window_order(messages)[j]].source_range.0,
{
    let keys = rank::reversed(heats(messages));
    let order = rank::descending(heats(messages));
    rank::law_ascending(keys, messages.len());
    lemma_filled(messages, order, t, max_tokens, messages.len());
    let v = filled(messages, order, t, max_tokens, messages.len()).entries;
    let turns = first_turns(messages, order);
    rank::law_ascending(turns, messages.len());
    let places = rank::ascending(turns, messages.len());
    let w = window_order(messages);
    assert forall|i: int, j: int| 0 <= i < j < messages.len() implies w[i] != w[j] by {
        let a = places[i];
        let b = places[j];
        assert(rank::comes_first(turns, a, b));
        if a < b {
            assert(rank::comes_first(keys, order[a], order[b]));
        } else {
            assert(rank::comes_first(keys, order[b], order[a]));
        }
    }
    assert forall|i: int| 0 <= i < messages.len() implies {
        let k = #[trigger] w[i];
        &&& 0 <= k < messages.len()
        &&& {
            ||| window(messages, t, max_tokens)[i] == entry_for(messages[k], t)
            ||| window(messages, t, max_tokens)[i] == dropped_entry(messages[k])
        }
    } by {
        let a = places[i];
        assert(0 <= a < messages.len());
        assert(0 <= order[a] < messages.len());
        assert(window(messages, t, max_tokens)[i] == v[a]);
    }
    assert forall|i: int, j: int| 0 <= i < j < messages.len() implies messages[#[trigger] w[i]].source_range.0
        <= messages[#[trigger] w[j]].source_range.0 by {
        assert(rank::comes_first(turns, places[i], places[j]));
    }
}

/// The hottest message gets its own entry whenever the budget has room for it
/// alone.
pub proof fn law_hottest_is_served(
    messages: Seq<MetaModel>,
    t: HeatThresholds,
    max_tokens: nat,
)
    requires
        messages.len() > 0,
        working::tokens_of(entry_for(messages[rank::descending(heats(messages))[0]], t)) <= max_tokens,
    ensures
        window(messages, t, max_tokens).contains(
            entry_for(messages[rank::descending(heats(messages))[0]], t),
        ),
{
    let order = rank::descending(heats(messages));
    reveal_with_fuel(filled, 2);
    lemma_first_stays(messages, order, t, max_tokens, messages.len());
    lemma_filled(messages, order, t, max_tokens, messages.len());
    let v = filled(messages, order, t, max_tokens, messages.len()).entries;
    rank::law_ascending(first_turns(messages, order), v.len());
    let places = rank::ascending(first_turns(messages, order), v.len());
    assert(places.contains(0));
    let p = choose|p: int| 0 <= p < places.len() && places[p] == 0;
    assert(window(messages, t, max_tokens)[p] == v[0]);
}

proof fn lemma_first_stays(
    messages: Seq<MetaModel>,
    order: Seq<int>,
    t: HeatThresholds,
    max_tokens: nat,
    n: nat,
)
    requires
        n > 0,
    ensures
        filled(messages, order, t, max_tokens, n).entries.len() == n,
        filled(messages, order, t, max_tokens, n).entries[0] == filled(
            messages,
            order,
            t,
            max_tokens,
            1,
        ).entries[0],
    decreases n,
{
    lemma_filled(messages, order, t, max_tokens, n);
    if n > 1 {
        lemma_first_stays(messages, order, t, max_tokens, (n - 1) as nat);
    }
}

/// How many tokens the entries take that are no placeholders.
pub open spec fn spent(v: Seq<EntryModel>) -> nat
    decreases v.len(),
{
    if v.len() == 0 {
        0
    } else {
        spent(v.drop_last()) + if v.last() is Cold {
            0
        } else {
            working::tokens_of(v.last())
        }
    }
}

/// The entries at some places.
spec fn at_places(v: Seq<EntryModel>, order: Seq<int>) -> Seq<EntryModel> {
    order.map_values(|i: int| v[i])
}

/// Wherever a place is put, its entry takes as many tokens.
proof fn lemma_spent_insert(v: Seq<EntryModel>, order: Seq<int>, keys: Seq<i128>, x: int)
    ensures
        spent(at_places(v, rank::insert_position(order, keys, x))) == spent(at_places(v, order))
            + spent(seq![v[x]]),
    decreases order.len(),
{
    reveal_with_fuel(spent, 2);
    let r = rank::insert_position(order, keys, x);
    let w = at_places(v, r);
    assert(seq![v[x]].drop_last() =~= Seq::empty());
    if order.len() > 0 && keys[order.last()] > keys[x] {
        lemma_spent_insert(v, order.drop_last(), keys, x);
        assert(w.drop_last() =~= at_places(
            v,
            rank::insert_position(order.drop_last(), keys, x),
        ));
        assert(at_places(v, order).drop_last() =~= at_places(v, order.drop_last()));
    } else {
        assert(w.drop_last() =~= at_places(v, order));
    }
}

/// The order of the entries does not change how many tokens they take.
proof fn lemma_spent_ordered(v: Seq<EntryModel>, keys: Seq<i128>, n: nat)
    requires
        n <= v.len(),
    ensures
        spent(at_places(v, rank::ascending(keys, n))) == spent(v.take(n as int)),
    decreases n,
{
    reveal_with_fuel(spent, 2);
    if n == 0 {
        assert(at_places(v, rank::ascending(keys, n)) =~= v.take(0));
    } else {
        lemma_spent_ordered(v, keys, (n - 1) as nat);
        lemma_spent_insert(v, rank::ascending(keys, (n - 1) as nat), keys, n - 1);
        assert(v.take(n as int).drop_last() =~= v.take(n - 1));
        assert(seq![v[n - 1]].drop_last() =~= Seq::empty());
    }
}

/// What is spent on entries was taken from the budget.
proof fn lemma_filled_spent(
    messages: Seq<MetaModel>,
    order: Seq<int>,
    t: HeatThresholds,
    max_tokens: nat,
    n: nat,
)
    ensures
        spent(filled(messages, order, t, max_tokens, n).entries) <= filled(
            messages,
            order,
            t,
            max_tokens,
            n,
        ).used,
    decreases n,
{
    if n > 0 {
        lemma_filled_spent(messages, order, t, max_tokens, (n - 1) as nat);
        let f = filled(messages, order, t, max_tokens, (n - 1) as nat);
        let g = filled(messages, order, t, max_tokens, n);
        assert(g.entries.drop_last() =~= f.entries);
    }
}

/// The messages in full and the summaries of the window stay within the budget.
pub proof fn law_window_stays_within_budget(
    messages: Seq<MetaModel>,
    t: HeatThresholds,
    max_tokens: nat,
)
    ensures
        spent(window(messages, t, max_tokens)) <= max_tokens,
{
    let order = rank::descending(heats(messages));
    lemma_filled(messages, order, t, max_tokens, messages.len());
    lemma_filled_spent(messages, order, t, max_tokens, messages.len());
    let v = filled(messages, order, t, max_tokens, messages.len()).entries;
    lemma_spent_ordered(v, first_turns(messages, order), v.len());
    assert(v.take(v.len() as int) =~= v);
    assert(window(messages, t, max_tokens) =~= at_places(
        v,
        rank::ascending(first_turns(messages, order), v.len()),
    ));
}

/// The heat of a message decides the form in which it stands in the window: a hot one
/// with its whole text, a warm one with at most a beginning of a hundred bytes and what
/// completes the last character, a cold one with a placeholder that names its turns.
pub proof fn law_form_follows_heat(m: MetaModel, t: HeatThresholds) -> (k: int)
    ensures
        m.heat >= t.warm ==> (entry_for(m, t) matches EntryModel::Hot { content, token_count, role }
            && content == m.content && token_count == m.token_count && (m.role == "assistant"@
            || m.role == "system"@ || m.role == "tool"@ || m.role == "user"@ ==> role == m.role)),
        t.cold <= m.heat < t.warm ==> (entry_for(m, t) matches EntryModel::Warm {
            summary,
            token_count,
            source_range,
        } && source_range == m.source_range && token_count == model::byte_len(summary) / 4 && (
        model::byte_len(m.content) <= 100 ==> summary == m.content) && (model::byte_len(m.content)
            > 100 ==> {
            &&& 0 < k <= m.content.len()
            &&& model::byte_len(m.content.take(k - 1)) < 100 <= model::byte_len(m.content.take(k))
            &&& summary == m.content.take(k) + "..."@
        })),
        m.heat < t.cold && m.heat < t.warm ==> (entry_for(m, t) matches EntryModel::Cold {
            placeholder,
            token_count,
            source_range,
        } && source_range == m.source_range && token_count == 30 && placeholder == "[冷记忆: 第"@
            + model::decimal(m.source_range.0 as nat) + "-"@ + model::decimal(
            m.source_range.1 as nat,
        ) + "轮, 主题概要]"@),
{
    let k = begun_from(m.content, 100, 0);
    if model::byte_len(m.content) > 100 {
        lemma_begun(m.content, 100, 0);
    }
    k
}

proof fn lemma_begun(s: Seq<char>, n: nat, i: int)
    requires
        0 <= i <= s.len(),
        n > 0,
        model::byte_len(s) >= n,
        i == 0 || model::byte_len(s.take(i - 1)) < n,
    ensures
        ({
            let k = begun_from(s, n, i);
            &&& 0 < k <= s.len()
            &&& model::byte_len(s.take(k - 1)) < n <= model::byte_len(s.take(k))
        }),
    decreases s.len() - i,
{
    assert(s.take(0) =~= Seq::<char>::empty());
    assert(s.take(s.len() as int) =~= s);
    if i < s.len() && model::byte_len(s.take(i)) < n {
        lemma_begun(s, n, i + 1);
    }
}

/// What a message becomes that no longer fits: a placeholder that names its turns.
pub proof fn law_dropped_message_is_named(m: MetaModel)
    ensures
        dropped_entry(m) == (EntryModel::Cold {
            placeholder: "[冷记忆: 第"@ + model::decimal(m.source_range.0 as nat) + "-"@
                + model::decimal(m.source_range.1 as nat) + "轮]"@,
            source_range: m.source_range,
            token_count: 30,
        }),
{
}

/// The tokens of the first messages, each in the form that its heat gives it.
pub open spec fn wanted(messages: Seq<MetaModel>, t: HeatThresholds, n: nat) -> nat
    decreases n,
{
    if n == 0 {
        0
    } else {
        wanted(messages, t, (n - 1) as nat) + working::tokens_of(entry_for(messages[n - 1], t))
    }
}

/// Where there is room for all messages, each stands in the window in the form that its
/// heat gives it, and the window tells them in the order of their turns.
pub proof fn law_all_are_shown_where_they_fit(
    messages: Seq<MetaModel>,
    t: HeatThresholds,
    max_tokens: nat,
    i: int,
)
    requires
        0 <= i < messages.len(),
        wanted(messages, t, messages.len()) <= max_tokens,
    ensures
        window(messages, t, max_tokens).contains(entry_for(messages[i], t)),
{
    let order = rank::descending(heats(messages));
    rank::law_descending(heats(messages));
    lemma_all_fit(messages, order, t, max_tokens, messages.len());
    let v = filled(messages, order, t, max_tokens, messages.len()).entries;
    rank::law_ascending(first_turns(messages, order), v.len());
    let places = rank::ascending(first_turns(messages, order), v.len());
    assert(order.contains(i));
    let a = choose|a: int| 0 <= a < order.len() && order[a] == i;
    assert(places.contains(a));
    let p = choose|p: int| 0 <= p < places.len() && places[p] == a;
    assert(window(messages, t, max_tokens)[p] == v[a]);
}

proof fn lemma_all_fit(
    messages: Seq<MetaModel>,
    order: Seq<int>,
    t: HeatThresholds,
    max_tokens: nat,
    n: nat,
)
    requires
        n <= order.len(),
        order.no_duplicates(),
        forall|i: int| 0 <= i < order.len() ==> 0 <= #[trigger] order[i] < messages.len(),
        wanted(messages, t, messages.len()) <= max_tokens,
    ensures
        ({
            let f = filled(messages, order, t, max_tokens, n);
            &&& f.entries.len() == n
            &&& f.used == wanted_below(messages, order, t, n, messages.len() as int)
            &&& forall|i: int|
                0 <= i < n ==> #[trigger] f.entries[i] == entry_for(messages[order[i]], t)
        }),
    decreases n,
{
    if n > 0 {
        lemma_all_fit(messages, order, t, max_tokens, (n - 1) as nat);
        lemma_wanted_below(messages, order, t, n, messages.len());
        assert(0 <= order[n - 1] < messages.len());
    }
}

/// The tokens of those of the first messages of an order that stand before a place.
spec fn wanted_below(
    messages: Seq<MetaModel>,
    order: Seq<int>,
    t: HeatThresholds,
    n: nat,
    m: int,
) -> nat
    decreases n,
{
    if n == 0 {
        0
    } else {
        wanted_below(messages, order, t, (n - 1) as nat, m) + if order[n - 1] < m {
            working::tokens_of(entry_for(messages[order[n - 1]], t))
        } else {
            0
        }
    }
}

proof fn lemma_wanted_below(
    messages: Seq<MetaModel>,
    order: Seq<int>,
    t: HeatThresholds,
    n: nat,
    m: nat,
)
    requires
        n <= order.len(),
        m <= messages.len(),
        order.no_duplicates(),
        forall|i: int| 0 <= i < order.len() ==> 0 <= #[trigger] order[i] < messages.len(),
    ensures
        wanted_below(messages, order, t, n, m as int) <= wanted(messages, t, m),
    decreases m,
{
    if m == 0 {
        lemma_none_below(messages, order, t, n);
    } else {
        lemma_wanted_below(messages, order, t, n, (m - 1) as nat);
        lemma_one_more_below(messages, order, t, n, m);
    }
}

proof fn lemma_none_below(messages: Seq<MetaModel>, order: Seq<int>, t: HeatThresholds, n: nat)
    requires
        n <= order.len(),
        forall|i: int| 0 <= i < order.len() ==> 0 <= #[trigger] order[i] < messages.len(),
    ensures
        wanted_below(messages, order, t, n, 0) == 0,
    decreases n,
{
    if n > 0 {
        assert(0 <= order[n - 1]);
        lemma_none_below(messages, order, t, (n - 1) as nat);
    }
}

proof fn lemma_one_more_below(
    messages: Seq<MetaModel>,
    order: Seq<int>,
    t: HeatThresholds,
    n: nat,
    m: nat,
)
    requires
        n <= order.len(),
        0 < m <= messages.len(),
        order.no_duplicates(),
    ensures
        wanted_below(messages, order, t, n, m as int) <= wanted_below(
            messages,
            order,
            t,
            n,
            m - 1,
        ) + if order.take(n as int).contains(m - 1) {
            working::tokens_of(entry_for(messages[m - 1], t))
        } else {
            0
        },
    decreases n,
{
    if n > 0 {
        lemma_one_more_below(messages, order, t, (n - 1) as nat, m);
        let a = order.take(n - 1);
        let b = order.take(n as int);
        if a.contains(m - 1) {
            let j = choose|j: int| 0 <= j < a.len() && a[j] == m - 1;
            assert(b[j] == m - 1);
            assert(order[j] != order[n - 1]);
        } else if order[n - 1] == m - 1 {
            assert(b[n - 1] == m - 1);
        }
    }
}

} // verus!

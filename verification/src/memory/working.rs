//! Working memory: what stands in the model's context window.
//!
//! An entry is hot (the full text), warm (a shortened text) or cold (a
//! placeholder). Compaction cools old entries down by one step.

use crate::text::{model, ops};
use vstd::prelude::*;
use vstd::string::*;

verus! {

/// When and how the context is compacted.
#[derive(Debug)]
pub struct CompactionPolicy {
    /// The percentage of the budget at which compaction is due.
    pub auto_compact_threshold_percent: u32,
    /// The model that compacts; `None` stands for the current one.
    pub compact_model: Option<String>,
    /// Whether memories are written out before compaction.
    pub memory_flush_enabled: bool,
    /// How many seconds compaction may take.
    pub wall_clock_budget_secs: u64,
}

/// What a policy holds.
#[verifier::ext_equal]
pub struct PolicyModel {
    pub auto_compact_threshold_percent: u32,
    pub compact_model: Option<Seq<char>>,
    pub memory_flush_enabled: bool,
    pub wall_clock_budget_secs: u64,
}

impl View for CompactionPolicy {
    type V = PolicyModel;

    open spec fn view(&self) -> PolicyModel {
        PolicyModel {
            auto_compact_threshold_percent: self.auto_compact_threshold_percent,
            compact_model: model::opt_text(self.compact_model),
            memory_flush_enabled: self.memory_flush_enabled,
            wall_clock_budget_secs: self.wall_clock_budget_secs,
        }
    }
}

/// The policy that is in force unless another is set.
pub open spec fn default_policy() -> PolicyModel {
    PolicyModel {
        auto_compact_threshold_percent: 85,
        compact_model: None,
        memory_flush_enabled: false,
        wall_clock_budget_secs: 300,
    }
}

impl Default for CompactionPolicy {
    fn default() -> (r: Self)
        ensures
            r@ == default_policy(),
    {
        CompactionPolicy {
            auto_compact_threshold_percent: 85,
            compact_model: None,
            memory_flush_enabled: false,
            wall_clock_budget_secs: 300,
        }
    }
}

impl Clone for CompactionPolicy {
    fn clone(&self) -> (r: Self)
        ensures
            r@ == self@,
    {
        CompactionPolicy {
            auto_compact_threshold_percent: self.auto_compact_threshold_percent,
            compact_model: match &self.compact_model {
                Some(name) => Some(name.clone()),
                None => None,
            },
            memory_flush_enabled: self.memory_flush_enabled,
            wall_clock_budget_secs: self.wall_clock_budget_secs,
        }
    }
}

/// What a compaction has done.
#[derive(Debug, Clone, Copy)]
pub struct CompactionResult {
    /// The tokens before.
    pub tokens_before: u32,
    /// The tokens after.
    pub tokens_after: u32,
    /// How many entries were cooled from hot to warm.
    pub entries_compacted: usize,
    /// The first and the last of these entries.
    pub compacted_range: (usize, usize),
}

/// An entry of the working memory.
#[derive(Debug)]
pub enum WorkingEntry {
    /// The full text of a message.
    Hot { role: String, content: String, token_count: u32 },
    /// A shortened message.
    Warm { summary: String, token_count: u32, source_range: (usize, usize) },
    /// A placeholder.
    Cold { placeholder: String, source_range: (usize, usize), token_count: u32 },
}

/// What an entry holds.
#[verifier::ext_equal]
pub enum EntryModel {
    Hot { role: Seq<char>, content: Seq<char>, token_count: nat },
    Warm { summary: Seq<char>, token_count: nat, source_range: (usize, usize) },
    Cold { placeholder: Seq<char>, source_range: (usize, usize), token_count: nat },
}

impl View for WorkingEntry {
    type V = EntryModel;

    open spec fn view(&self) -> EntryModel {
        match *self {
            WorkingEntry::Hot { role, content, token_count } => EntryModel::Hot {
                role: role@,
                content: content@,
                token_count: token_count as nat,
            },
            WorkingEntry::Warm { summary, token_count, source_range } => EntryModel::Warm {
                summary: summary@,
                token_count: token_count as nat,
                source_range: source_range,
            },
            WorkingEntry::Cold { placeholder, source_range, token_count } => EntryModel::Cold {
                placeholder: placeholder@,
                source_range: source_range,
                token_count: token_count as nat,
            },
        }
    }
}

impl Clone for WorkingEntry {
    fn clone(&self) -> (r: Self)
        ensures
            r@ == self@,
    {
        match self {
            WorkingEntry::Hot { role, content, token_count } => WorkingEntry::Hot {
                role: role.clone(),
                content: content.clone(),
                token_count: *token_count,
            },
            WorkingEntry::Warm { summary, token_count, source_range } => WorkingEntry::Warm {
                summary: summary.clone(),
                token_count: *token_count,
                source_range: *source_range,
            },
            WorkingEntry::Cold { placeholder, source_range, token_count } => WorkingEntry::Cold {
                placeholder: placeholder.clone(),
                source_range: *source_range,
                token_count: *token_count,
            },
        }
    }
}

/// The entries that a list holds.
pub open spec fn entry_models(v: Seq<WorkingEntry>) -> Seq<EntryModel> {
    v.map_values(|e: WorkingEntry| e@)
}

/// How many tokens an entry takes.
pub open spec fn tokens_of(e: EntryModel) -> nat {
    match e {
        EntryModel::Hot { token_count, .. } => token_count,
        EntryModel::Warm { token_count, .. } => token_count,
        EntryModel::Cold { token_count, .. } => token_count,
    }
}

/// How many tokens some entries take together.
pub open spec fn total_tokens(v: Seq<EntryModel>) -> nat
    decreases v.len(),
{
    if v.len() == 0 {
        0
    } else {
        total_tokens(v.drop_last()) + tokens_of(v.last())
    }
}

impl WorkingEntry {
    /// How many tokens the entry takes.
    pub fn token_count(&self) -> (r: u32)
        ensures
            r == tokens_of(self@),
    {
        match self {
            WorkingEntry::Hot { token_count, .. } => *token_count,
            WorkingEntry::Warm { token_count, .. } => *token_count,
            WorkingEntry::Cold { token_count, .. } => *token_count,
        }
    }

    /// Whether the entry is a message in full.
    pub fn is_hot(&self) -> (r: bool)
        ensures
            r == (self@ is Hot),
    {
        match self {
            WorkingEntry::Hot { .. } => true,
            _ => false,
        }
    }

    /// Whether the entry is the summary of a message.
    pub fn is_warm(&self) -> (r: bool)
        ensures
            r == (self@ is Warm),
    {
        match self {
            WorkingEntry::Warm { .. } => true,
            _ => false,
        }
    }

    /// Whether the entry is a placeholder.
    pub fn is_cold(&self) -> (r: bool)
        ensures
            r == (self@ is Cold),
    {
        match self {
            WorkingEntry::Cold { .. } => true,
            _ => false,
        }
    }
}

/// The role that a text names; a user's where it names none.
pub open spec fn role_of(role: Seq<char>) -> Seq<char> {
    if role == "assistant"@ || role == "system"@ || role == "tool"@ {
        role
    } else {
        "user"@
    }
}

/// The role that a text names; a user's where it names none.
pub fn known_role(role: &str) -> (r: &str)
    ensures
        r@ == role_of(role@),
{
    if ops::same_text(role, "assistant") || ops::same_text(role, "system") || ops::same_text(
        role,
        "tool",
    ) {
        role
    } else {
        "user"
    }
}

/// The smaller of two numbers.
pub open spec fn least(a: nat, b: nat) -> nat {
    if a <= b {
        a
    } else {
        b
    }
}

/// A number, or one where it is zero.
pub open spec fn at_least_one(n: nat) -> nat {
    if n == 0 {
        1
    } else {
        n
    }
}

/// How many bytes of a summary its placeholder shows.
pub open spec fn placeholder_bytes(summary: Seq<char>) -> nat {
    least(model::byte_len(summary), 40)
}

/// How many bytes of a text its summary keeps.
pub open spec fn summary_bytes(content: Seq<char>) -> nat {
    at_least_one(model::byte_len(content) / 2)
}

/// The entry can be cooled: the place where its text is cut is no place inside
/// a character.
pub open spec fn coolable(e: EntryModel) -> bool {
    match e {
        EntryModel::Hot { content, .. } => model::is_boundary(content, summary_bytes(content)),
        EntryModel::Warm { summary, .. } => model::is_boundary(summary, placeholder_bytes(summary)),
        EntryModel::Cold { .. } => true,
    }
}

/// The entry at place `i`, cooled by one step.
pub open spec fn cooled(e: EntryModel, i: usize) -> EntryModel {
    match e {
        EntryModel::Hot { content, token_count, .. } => EntryModel::Warm {
            summary: "[已压缩] "@ + content.take(model::chars_in(content, summary_bytes(content)))
                + "..."@,
            token_count: at_least_one(token_count / 2),
            source_range: (i, i),
        },
        EntryModel::Warm { summary, token_count, source_range } => EntryModel::Cold {
            placeholder: "[冷缓存] "@ + summary.take(
                model::chars_in(summary, placeholder_bytes(summary)),
            ),
            source_range: source_range,
            token_count: at_least_one(token_count / 4),
        },
        EntryModel::Cold { .. } => e,
    }
}

/// The first hot entry at or after place `i`; `n` where none stands before place `n`.
pub open spec fn hot_from(v: Seq<EntryModel>, i: int, n: int) -> int
    decreases n - i,
{
    if i >= n || v[i] is Hot {
        i
    } else {
        hot_from(v, i + 1, n)
    }
}

/// The first entry at or after place `i` that is not hot; `n` where none stands before
/// place `n`.
pub open spec fn run_end(v: Seq<EntryModel>, i: int, n: int) -> int
    decreases n - i,
{
    if i >= n || !(v[i] is Hot) {
        i
    } else {
        run_end(v, i + 1, n)
    }
}

/// Where the oldest block of hot entries begins, among all but the last four.
pub open spec fn block_start(v: Seq<EntryModel>) -> int {
    hot_from(v, 0, v.len() - 4)
}

/// Where that block ends: the first entry behind it.
pub open spec fn block_end(v: Seq<EntryModel>) -> int {
    run_end(v, block_start(v), v.len() - 4)
}

/// Whether compaction cools the entry at place `i`: a warm entry always, a hot one if
/// it belongs to the oldest block.
pub open spec fn cools(v: Seq<EntryModel>, i: int) -> bool {
    v[i] is Warm || block_start(v) <= i < block_end(v)
}

/// The entries after compaction. Four entries or fewer are left alone.
pub open spec fn compacted(v: Seq<EntryModel>) -> Seq<EntryModel> {
    if v.len() <= 4 {
        v
    } else {
        Seq::new(
            v.len(),
            |i: int|
                if cools(v, i) {
                    cooled(v[i], i as usize)
                } else {
                    v[i]
                },
        )
    }
}

/// What a compaction reports. Where there is no hot entry to cool, the range runs from
/// behind the last entry to the first.
pub open spec fn compaction_report(v: Seq<EntryModel>, r: CompactionResult) -> bool {
    &&& r.tokens_before == total_tokens(v)
    &&& r.tokens_after == total_tokens(compacted(v))
    &&& v.len() <= 4 ==> r.entries_compacted == 0 && r.compacted_range == (0usize, 0usize)
    &&& v.len() > 4 ==> {
        &&& r.entries_compacted == block_end(v) - block_start(v)
        &&& block_start(v) < block_end(v) ==> r.compacted_range.0 == block_start(v)
            && r.compacted_range.1 == block_end(v) - 1
        &&& block_start(v) == block_end(v) ==> r.compacted_range.0 == v.len()
            && r.compacted_range.1 == 0
    }
}

/// The entries can be compacted: those that are cooled can be, and the tokens
/// can be counted before and after.
pub open spec fn compactable(v: Seq<EntryModel>) -> bool {
    &&& total_tokens(v) <= u32::MAX
    &&& total_tokens(compacted(v)) <= u32::MAX
    &&& v.len() > 4 ==> forall|i: int|
        0 <= i < v.len() && cools(v, i) ==> coolable(#[trigger] v[i])
}

/// What an entry says to the model: who speaks, and what. A placeholder says nothing.
pub open spec fn chat_message(e: EntryModel) -> (Seq<char>, Seq<char>) {
    match e {
        EntryModel::Hot { role, content, .. } => (role, content),
        EntryModel::Warm { summary, .. } => ("system"@, "[上下文摘要] "@ + summary),
        EntryModel::Cold { .. } => (Seq::empty(), Seq::empty()),
    }
}

/// What the model is told: what each entry says that is no placeholder.
pub open spec fn chat_messages(v: Seq<EntryModel>) -> Seq<(Seq<char>, Seq<char>)> {
    v.filter(|e: EntryModel| !(e is Cold)).map_values(|e: EntryModel| chat_message(e))
}

/// The pairs of texts that a list holds.
pub open spec fn text_pairs(v: Seq<(String, String)>) -> Seq<(Seq<char>, Seq<char>)> {
    v.map_values(|p: (String, String)| (p.0@, p.1@))
}

/// The working memory.
#[derive(Debug)]
pub struct WorkingMemory {
    entries: Vec<WorkingEntry>,
    max_tokens: u32,
    compaction_policy: CompactionPolicy,
}

/// What the working memory holds.
#[verifier::ext_equal]
pub struct WorkingModel {
    pub entries: Seq<EntryModel>,
    pub max_tokens: u32,
    pub policy: PolicyModel,
}

impl View for WorkingMemory {
    type V = WorkingModel;

    closed spec fn view(&self) -> WorkingModel {
        WorkingModel {
            entries: entry_models(self.entries@),
            max_tokens: self.max_tokens,
            policy: self.compaction_policy@,
        }
    }
}

/// Leading entries take no more tokens than all.
proof fn lemma_total_prefix(v: Seq<EntryModel>, i: int)
    requires
        0 <= i <= v.len(),
    ensures
        total_tokens(v.take(i)) <= total_tokens(v),
    decreases v.len() - i,
{
    if i < v.len() {
        lemma_total_prefix(v, i + 1);
        assert(v.take(i + 1).drop_last() =~= v.take(i));
    } else {
        assert(v.take(i) =~= v);
    }
}

/// Nothing before the first hot entry is hot.
proof fn lemma_hot_from(v: Seq<EntryModel>, i: int, n: int)
    requires
        0 <= i <= n <= v.len(),
    ensures
        i <= hot_from(v, i, n) <= n,
        forall|j: int| i <= j < hot_from(v, i, n) ==> !(#[trigger] v[j] is Hot),
        hot_from(v, i, n) < n ==> v[hot_from(v, i, n)] is Hot,
    decreases n - i,
{
    if i < n && !(v[i] is Hot) {
        lemma_hot_from(v, i + 1, n);
    }
}

/// All entries of a run are hot, and what follows it is not.
proof fn lemma_run_end(v: Seq<EntryModel>, i: int, n: int)
    requires
        0 <= i <= n <= v.len(),
    ensures
        i <= run_end(v, i, n) <= n,
        forall|j: int| i <= j < run_end(v, i, n) ==> #[trigger] v[j] is Hot,
        run_end(v, i, n) < n ==> !(v[run_end(v, i, n)] is Hot),
    decreases n - i,
{
    if i < n && v[i] is Hot {
        lemma_run_end(v, i + 1, n);
    }
}

/// Where the oldest block of hot entries begins and ends.
fn hot_block(entries: &Vec<WorkingEntry>) -> (r: (usize, usize))
    requires
        entries@.len() > 4,
    ensures
        r.0 == block_start(entry_models(entries@)),
        r.1 == block_end(entry_models(entries@)),
        r.0 <= r.1 <= entries@.len() - 4,
{
    let ghost all = entry_models(entries@);
    let total: usize = entries.len();
    let cutoff: usize = total - 4;
    let mut start: usize = 0;
    while start < cutoff && !entries[start].is_hot()
        invariant
            start <= cutoff,
            cutoff == entries@.len() - 4,
            all == entry_models(entries@),
            hot_from(all, 0, cutoff as int) == hot_from(all, start as int, cutoff as int),
        decreases cutoff - start,
    {
        assert(all[start as int] == entries@[start as int]@);
        start = start + 1;
    }
    if start < cutoff {
        assert(all[start as int] == entries@[start as int]@);
    }
    let mut end: usize = start;
    while end < cutoff && entries[end].is_hot()
        invariant
            start <= end <= cutoff,
            cutoff == entries@.len() - 4,
            all == entry_models(entries@),
            run_end(all, start as int, cutoff as int) == run_end(all, end as int, cutoff as int),
        decreases cutoff - end,
    {
        assert(all[end as int] == entries@[end as int]@);
        end = end + 1;
    }
    if end < cutoff {
        assert(all[end as int] == entries@[end as int]@);
    }
    (start, end)
}

/// The first `n` bytes of a text.
fn leading_bytes(text: &str, n: usize) -> (r: String)
    requires
        model::is_boundary(text@, n as nat),
    ensures
        r@ == text@.take(model::chars_in(text@, n as nat)),
{
    let chars = ops::chars_of(text);
    match ops::chars_in(chars.as_slice(), n) {
        Some(k) => ops::string_of(ops::take(chars.as_slice(), k)),
        None => String::new(),
    }
}

/// Whether a place in a text is no place inside a character.
fn is_cut(text: &str, n: usize) -> (r: bool)
    ensures
        r == model::is_boundary(text@, n as nat),
{
    let chars = ops::chars_of(text);
    ops::chars_in(chars.as_slice(), n).is_some()
}

/// Whether the entry can be cooled.
fn is_coolable(entry: &WorkingEntry) -> (r: bool)
    ensures
        r == coolable(entry@),
{
    match entry {
        WorkingEntry::Hot { content, .. } => {
            let half: usize = ops::text_byte_len(content.as_str()) / 2;
            let cut: usize = if half == 0 {
                1
            } else {
                half
            };
            is_cut(content.as_str(), cut)
        },
        WorkingEntry::Warm { summary, .. } => {
            let size: usize = ops::text_byte_len(summary.as_str());
            let cut: usize = if size <= 40 {
                size
            } else {
                40
            };
            is_cut(summary.as_str(), cut)
        },
        WorkingEntry::Cold { .. } => true,
    }
}

/// The entry at place `i`, cooled by one step.
fn cool(entry: &WorkingEntry, i: usize) -> (r: WorkingEntry)
    requires
        coolable(entry@),
    ensures
        r@ == cooled(entry@, i),
{
    match entry {
        WorkingEntry::Hot { content, token_count, .. } => {
            let half: usize = ops::text_byte_len(content.as_str()) / 2;
            let cut: usize = if half == 0 {
                1
            } else {
                half
            };
            let kept = leading_bytes(content.as_str(), cut);
            let tokens: u32 = *token_count / 2;
            WorkingEntry::Warm {
                summary: ops::concat3("[已压缩] ", kept.as_str(), "..."),
                token_count: if tokens == 0 {
                    1
                } else {
                    tokens
                },
                source_range: (i, i),
            }
        },
        WorkingEntry::Warm { summary, token_count, source_range } => {
            let size: usize = ops::text_byte_len(summary.as_str());
            let cut: usize = if size <= 40 {
                size
            } else {
                40
            };
            let kept = leading_bytes(summary.as_str(), cut);
            let tokens: u32 = *token_count / 4;
            WorkingEntry::Cold {
                placeholder: ops::concat2("[冷缓存] ", kept.as_str()),
                source_range: *source_range,
                token_count: if tokens == 0 {
                    1
                } else {
                    tokens
                },
            }
        },
        WorkingEntry::Cold { placeholder, source_range, token_count } => WorkingEntry::Cold {
            placeholder: placeholder.clone(),
            source_range: *source_range,
            token_count: *token_count,
        },
    }
}

impl Clone for WorkingMemory {
    fn clone(&self) -> (r: Self)
        ensures
            r@ == self@,
    {
        let mut entries: Vec<WorkingEntry> = Vec::new();
        let mut i: usize = 0;
        while i < self.entries.len()
            invariant
                i <= self.entries@.len(),
                entries@.len() == i,
                forall|j: int| 0 <= j < i ==> (#[trigger] entries@[j])@ == self.entries@[j]@,
            decreases self.entries@.len() - i,
        {
            entries.push(self.entries[i].clone());
            i = i + 1;
        }
        assert(entry_models(entries@) =~= entry_models(self.entries@));
        WorkingMemory {
            entries,
            max_tokens: self.max_tokens,
            compaction_policy: self.compaction_policy.clone(),
        }
    }
}

impl WorkingMemory {
    /// An empty memory with a budget of tokens.
    pub fn new(max_tokens: u32) -> (r: Self)
        ensures
            r@ == (WorkingModel {
                entries: Seq::empty(),
                max_tokens: max_tokens,
                policy: default_policy(),
            }),
    {
        let m = WorkingMemory {
            entries: Vec::new(),
            max_tokens: max_tokens,
            compaction_policy: CompactionPolicy::default(),
        };
        assert(entry_models(m.entries@) =~= Seq::empty());
        m
    }

    /// How many tokens the entries take.
    pub fn used_tokens(&self) -> (r: u32)
        requires
            total_tokens(self@.entries) <= u32::MAX,
        ensures
            r == total_tokens(self@.entries),
    {
        let ghost all = self@.entries;
        let mut sum: u32 = 0;
        let mut i: usize = 0;
        while i < self.entries.len()
            invariant
                i <= self.entries@.len(),
                all == entry_models(self.entries@),
                total_tokens(all) <= u32::MAX,
                sum == total_tokens(all.take(i as int)),
            decreases self.entries@.len() - i,
        {
            proof {
                assert(all.take(i + 1).drop_last() =~= all.take(i as int));
                assert(all[i as int] == self.entries@[i as int]@);
                lemma_total_prefix(all, i + 1);
            }
            sum = sum + self.entries[i].token_count();
            i = i + 1;
        }
        assert(all.take(all.len() as int) =~= all);
        sum
    }

    /// How many tokens the entries take, if they can be counted.
    pub fn counted_tokens(&self) -> (r: Option<u32>)
        ensures
            match r {
                Some(n) => n == total_tokens(self@.entries),
                None => total_tokens(self@.entries) > u32::MAX,
            },
    {
        let ghost all = self@.entries;
        let mut sum: u32 = 0;
        let mut i: usize = 0;
        while i < self.entries.len()
            invariant
                i <= self.entries@.len(),
                all == entry_models(self.entries@),
                sum == total_tokens(all.take(i as int)),
            decreases self.entries@.len() - i,
        {
            proof {
                assert(all.take(i + 1).drop_last() =~= all.take(i as int));
                assert(all[i as int] == self.entries@[i as int]@);
                lemma_total_prefix(all, i + 1);
            }
            match sum.checked_add(self.entries[i].token_count()) {
                Some(more) => {
                    sum = more;
                },
                None => {
                    return None;
                },
            }
            i = i + 1;
        }
        assert(all.take(all.len() as int) =~= all);
        Some(sum)
    }

    /// Whether the entries can be compacted: no text would be cut inside a
    /// character, and the tokens can be counted before and after.
    pub fn can_compact(&self) -> (r: bool)
        ensures
            r == compactable(self@.entries),
    {
        if self.counted_tokens().is_none() {
            return false;
        }
        let ghost all = self@.entries;
        let total: usize = self.entries.len();
        if total <= 4 {
            return true;
        }
        let ghost after = compacted(all);
        let (start, end) = hot_block(&self.entries);
        let mut sum: u32 = 0;
        let mut i: usize = 0;
        assert(after.take(0) =~= Seq::empty());
        while i < total
            invariant
                i <= total,
                total == self.entries@.len(),
                total > 4,
                all == entry_models(self.entries@),
                after == compacted(all),
                start == block_start(all),
                end == block_end(all),
                sum == total_tokens(after.take(i as int)),
                forall|j: int| 0 <= j < i && cools(all, j) ==> coolable(#[trigger] all[j]),
            decreases total - i,
        {
            assert(all[i as int] == self.entries@[i as int]@);
            proof {
                assert(after.take(i + 1).drop_last() =~= after.take(i as int));
                lemma_total_prefix(after, i + 1);
            }
            let mut tokens: u32 = self.entries[i].token_count();
            if self.entries[i].is_warm() || (start <= i && i < end) {
                assert(cools(all, i as int));
                if !is_coolable(&self.entries[i]) {
                    return false;
                }
                tokens = cool(&self.entries[i], i).token_count();
            }
            match sum.checked_add(tokens) {
                Some(more) => {
                    sum = more;
                },
                None => {
                    return false;
                },
            }
            i = i + 1;
        }
        assert(after.take(after.len() as int) =~= after);
        true
    }

    /// How many tokens of the budget are left.
    pub fn available_tokens(&self) -> (r: u32)
        requires
            total_tokens(self@.entries) <= u32::MAX,
        ensures
            r == if total_tokens(self@.entries) <= self@.max_tokens {
                self@.max_tokens - total_tokens(self@.entries)
            } else {
                0
            },
    {
        let used: u32 = self.used_tokens();
        if used <= self.max_tokens {
            self.max_tokens - used
        } else {
            0
        }
    }

    /// The budget.
    pub fn max_tokens(&self) -> (r: u32)
        ensures
            r == self@.max_tokens,
    {
        self.max_tokens
    }

    /// Adds a message in full.
    pub fn push_hot(&mut self, role: String, content: String, token_count: u32)
        ensures
            final(self)@ == (WorkingModel {
                entries: old(self)@.entries.push(
                    (EntryModel::Hot {
                        role: role@,
                        content: content@,
                        token_count: token_count as nat,
                    }),
                ),
                ..old(self)@
            }),
    {
        let ghost before = self@.entries;
        let entry = WorkingEntry::Hot { role: role, content: content, token_count: token_count };
        let ghost shown = entry@;
        self.entries.push(entry);
        assert(entry_models(self.entries@) =~= before.push(shown));
    }

    /// The entries.
    pub fn entries(&self) -> (r: &Vec<WorkingEntry>)
        ensures
            entry_models(r@) == self@.entries,
    {
        &self.entries
    }

    /// What the model is told, with the one who speaks. Placeholders are left out.
    pub fn to_chat_messages(&self) -> (r: Vec<(String, String)>)
        ensures
            text_pairs(r@) == chat_messages(self@.entries),
    {
        let ghost all = self@.entries;
        let ghost keep = |e: EntryModel| !(e is Cold);
        let mut out: Vec<(String, String)> = Vec::new();
        let mut i: usize = 0;
        reveal(Seq::filter);
        assert(text_pairs(out@) =~= chat_messages(all.take(0)));
        while i < self.entries.len()
            invariant
                i <= self.entries@.len(),
                all == entry_models(self.entries@),
                keep == (|e: EntryModel| !(e is Cold)),
                text_pairs(out@) == chat_messages(all.take(i as int)),
            decreases self.entries@.len() - i,
        {
            reveal(Seq::filter);
            let ghost before = text_pairs(out@);
            let ghost e = all[i as int];
            assert(e == self.entries@[i as int]@);
            assert(all.take(i + 1).drop_last() =~= all.take(i as int));
            let pair = match &self.entries[i] {
                WorkingEntry::Hot { role, content, .. } => Some((role.clone(), content.clone())),
                WorkingEntry::Warm { summary, .. } => Some(
                    (String::from_str("system"), ops::concat2("[上下文摘要] ", summary.as_str())),
                ),
                WorkingEntry::Cold { .. } => None,
            };
            if let Some(p) = pair {
                assert((p.0@, p.1@) == chat_message(e));
                out.push(p);
                assert(text_pairs(out@) =~= before.push(chat_message(e)));
                assert(chat_messages(all.take(i + 1)) =~= chat_messages(all.take(i as int)).push(
                    chat_message(e),
                ));
            }
            i = i + 1;
        }
        assert(all.take(all.len() as int) =~= all);
        out
    }

    /// Puts other entries in the place of all.
    pub fn replace_entries(&mut self, entries: Vec<WorkingEntry>)
        ensures
            final(self)@ == (WorkingModel { entries: entry_models(entries@), ..old(self)@ }),
    {
        self.entries = entries;
    }

    /// Sets the policy.
    pub fn set_compaction_policy(&mut self, policy: CompactionPolicy)
        ensures
            final(self)@ == (WorkingModel { policy: policy@, ..old(self)@ }),
    {
        self.compaction_policy = policy;
    }

    /// Whether compaction is due: the entries take the percentage of the budget
    /// that the policy names.
    pub fn should_compact(&self) -> (r: bool)
        requires
            total_tokens(self@.entries) <= u32::MAX,
        ensures
            r == (self@.max_tokens > 0 && (total_tokens(self@.entries) * 100) / (
            self@.max_tokens as nat) >= self@.policy.auto_compact_threshold_percent),
    {
        if self.max_tokens == 0 {
            return false;
        }
        let used: u32 = self.used_tokens();
        let percent: u64 = (used as u64 * 100) / self.max_tokens as u64;
        percent >= self.compaction_policy.auto_compact_threshold_percent as u64
    }

    /// Compacts the entries under the policy in force.
    pub fn compact(&mut self) -> (r: CompactionResult)
        requires
            compactable(old(self)@.entries),
        ensures
            final(self)@ == (WorkingModel {
                entries: compacted(old(self)@.entries),
                ..old(self)@
            }),
            compaction_report(old(self)@.entries, r),
    {
        let policy = self.compaction_policy.clone();
        self.compact_with_policy(&policy)
    }

    /// Compacts the entries. What is cooled does not depend on the policy.
    pub fn compact_with_policy(&mut self, _policy: &CompactionPolicy) -> (r: CompactionResult)
        requires
            compactable(old(self)@.entries),
        ensures
            final(self)@ == (WorkingModel {
                entries: compacted(old(self)@.entries),
                ..old(self)@
            }),
            compaction_report(old(self)@.entries, r),
    {
        let ghost all = self@.entries;
        let tokens_before: u32 = self.used_tokens();
        let total: usize = self.entries.len();
        if total <= 4 {
            return CompactionResult {
                tokens_before: tokens_before,
                tokens_after: tokens_before,
                entries_compacted: 0,
                compacted_range: (0, 0),
            };
        }
        let (start, end) = hot_block(&self.entries);
        let mut i: usize = 0;
        while i < total
            invariant
                total == all.len(),
                total > 4,
                i <= total,
                self.entries@.len() == total,
                self.max_tokens == old(self).max_tokens,
                self.compaction_policy@ == old(self).compaction_policy@,
                compactable(all),
                start == block_start(all),
                end == block_end(all),
                forall|j: int|
                    0 <= j < i ==> (#[trigger] self.entries@[j])@ == compacted(all)[j],
                forall|j: int| i <= j < total ==> (#[trigger] self.entries@[j])@ == all[j],
            decreases total - i,
        {
            assert(self.entries@[i as int]@ == all[i as int]);
            if self.entries[i].is_warm() || (start <= i && i < end) {
                assert(cools(all, i as int));
                assert(coolable(all[i as int]));
                let cooler = cool(&self.entries[i], i);
                self.entries.set(i, cooler);
            }
            i = i + 1;
        }
        assert(entry_models(self.entries@) =~= compacted(all));
        let tokens_after: u32 = self.used_tokens();
        CompactionResult {
            tokens_before: tokens_before,
            tokens_after: tokens_after,
            entries_compacted: end - start,
            compacted_range: if start < end {
                (start, end - 1)
            } else {
                (total, 0)
            },
        }
    }
}

/// Compaction keeps every entry in its place, leaves the last four as they are
/// unless they are warm, and leaves a cold entry as it is.
pub proof fn law_compaction_keeps_recent(v: Seq<EntryModel>, i: int)
    requires
        0 <= i < v.len(),
    ensures
        compacted(v).len() == v.len(),
        i >= v.len() - 4 && v[i] is Hot ==> compacted(v)[i] == v[i],
        v[i] is Cold ==> compacted(v)[i] == v[i],
{
    if v.len() > 4 {
        lemma_hot_from(v, 0, v.len() - 4);
        lemma_run_end(v, block_start(v), v.len() - 4);
    }
}

/// What is cooled is a summary or a placeholder, and a placeholder after a second
/// compaction.
pub proof fn law_compaction_cools_down(v: Seq<EntryModel>, i: int)
    requires
        4 < v.len(),
        0 <= i < v.len(),
        cools(v, i),
    ensures
        !(compacted(v)[i] is Hot),
        compacted(compacted(v))[i] is Cold,
{
    lemma_hot_from(v, 0, v.len() - 4);
    lemma_run_end(v, block_start(v), v.len() - 4);
}

/// The hot entries that are cooled stand side by side, none of the last four is among
/// them, no hot entry is older, and the entry behind them is not hot unless it is one
/// of the last four. Every other hot entry is left as it is.
pub proof fn law_oldest_block_is_cooled(v: Seq<EntryModel>, i: int)
    requires
        4 < v.len(),
        0 <= i < v.len(),
    ensures
        0 <= block_start(v) <= block_end(v) <= v.len() - 4,
        i < block_start(v) ==> !(v[i] is Hot),
        block_start(v) <= i < block_end(v) ==> v[i] is Hot && compacted(v)[i] is Warm,
        i == block_end(v) && i < v.len() - 4 ==> !(v[i] is Hot),
        v[i] is Hot && !(block_start(v) <= i < block_end(v)) ==> compacted(v)[i] == v[i],
{
    lemma_hot_from(v, 0, v.len() - 4);
    lemma_run_end(v, block_start(v), v.len() - 4);
}

/// Compaction does not make the entries take more tokens, where each takes at
/// least one.
pub proof fn law_compaction_saves_tokens(v: Seq<EntryModel>)
    requires
        forall|i: int| 0 <= i < v.len() ==> tokens_of(#[trigger] v[i]) >= 1,
    ensures
        total_tokens(compacted(v)) <= total_tokens(v),
{
    lemma_total_pointwise(compacted(v), v);
}

proof fn lemma_total_pointwise(a: Seq<EntryModel>, b: Seq<EntryModel>)
    requires
        a.len() == b.len(),
        forall|i: int| 0 <= i < a.len() ==> tokens_of(#[trigger] a[i]) <= tokens_of(b[i]),
    ensures
        total_tokens(a) <= total_tokens(b),
    decreases a.len(),
{
    if a.len() > 0 {
        let x = a.drop_last();
        let y = b.drop_last();
        assert forall|i: int| 0 <= i < x.len() implies tokens_of(#[trigger] x[i]) <= tokens_of(
            y[i],
        ) by {
            assert(x[i] == a[i]);
        }
        lemma_total_pointwise(x, y);
        assert(tokens_of(a[a.len() - 1]) <= tokens_of(b[a.len() - 1]));
    }
}

/// The chat shows the entries in their order: a hot one as it was said, a warm one as a
/// system message that tells its summary, and a cold one not at all.
pub proof fn law_entries_become_messages(v: Seq<EntryModel>, e: EntryModel)
    ensures
        chat_messages(Seq::empty()) == Seq::<(Seq<char>, Seq<char>)>::empty(),
        e matches EntryModel::Hot { role, content, .. } ==> chat_messages(v.push(e))
            == chat_messages(v).push((role, content)),
        e matches EntryModel::Warm { summary, .. } ==> chat_messages(v.push(e)) == chat_messages(
            v,
        ).push(("system"@, "[上下文摘要] "@ + summary)),
        e is Cold ==> chat_messages(v.push(e)) == chat_messages(v),
{
    reveal(Seq::filter);
    assert(v.push(e).drop_last() =~= v);
    assert(chat_messages(Seq::empty()) =~= Seq::<(Seq<char>, Seq<char>)>::empty());
    let f = |e: EntryModel| !(e is Cold);
    let g = |e: EntryModel| chat_message(e);
    assert(v.push(e).filter(f) == if f(e) {
        v.filter(f).push(e)
    } else {
        v.filter(f)
    });
    if f(e) {
        assert(v.filter(f).push(e).map_values(g) =~= v.filter(f).map_values(g).push(g(e)));
    }
}

/// The tokens of a memory are those of its entries together.
pub proof fn law_tokens_add_up(v: Seq<EntryModel>, e: EntryModel)
    ensures
        total_tokens(Seq::empty()) == 0,
        e matches EntryModel::Hot { token_count, .. } ==> total_tokens(v.push(e)) == total_tokens(v)
            + token_count,
        e matches EntryModel::Warm { token_count, .. } ==> total_tokens(v.push(e)) == total_tokens(
            v,
        ) + token_count,
        e matches EntryModel::Cold { token_count, .. } ==> total_tokens(v.push(e)) == total_tokens(
            v,
        ) + token_count,
{
    assert(v.push(e).drop_last() =~= v);
}

/// The four roles are kept, and any other is taken for the user's.
pub proof fn law_roles_are_known(role: Seq<char>)
    ensures
        role == "assistant"@ || role == "system"@ || role == "tool"@ || role == "user"@ ==> role_of(
            role,
        ) == role,
        role != "assistant"@ && role != "system"@ && role != "tool"@ ==> role_of(role) == "user"@,
{
}

/// A memory of at most four entries is left as it is. In a longer one every warm entry
/// turns cold: of its summary the first forty bytes are kept, and a quarter of its
/// tokens.
pub proof fn law_warm_entries_turn_cold(v: Seq<EntryModel>, i: int) -> (k: int)
    requires
        0 <= i < v.len(),
        v[i] is Warm,
        model::byte_len(v[i]->summary) <= 40 || model::is_boundary(v[i]->summary, 40),
    ensures
        v.len() <= 4 ==> compacted(v) == v,
        v.len() > 4 ==> 0 <= k <= v[i]->summary.len() && (compacted(v)[i] matches EntryModel::Cold {
            placeholder,
            source_range,
            token_count,
        } && placeholder == "[冷缓存] "@ + v[i]->summary.take(k) && source_range
            == v[i]->Warm_source_range && token_count == if v[i]->Warm_token_count < 4 {
            1
        } else {
            v[i]->Warm_token_count / 4
        } && model::byte_len(v[i]->summary.take(k)) == if model::byte_len(v[i]->summary) <= 40 {
            model::byte_len(v[i]->summary)
        } else {
            40
        }),
{
    let s = v[i]->summary;
    assert(s.take(s.len() as int) =~= s);
    assert(model::is_boundary(s, placeholder_bytes(s)));
    model::chars_in(s, placeholder_bytes(s))
}

/// A hot entry that is cooled keeps the first half of its text, by bytes, and half of
/// its tokens, and knows its place.
pub proof fn law_hot_entries_turn_warm(v: Seq<EntryModel>, i: int) -> (k: int)
    requires
        4 < v.len() <= usize::MAX,
        0 <= i < v.len(),
        v[i] is Hot,
        compacted(v)[i] != v[i],
        model::byte_len(v[i]->content) >= 2,
        model::is_boundary(v[i]->content, model::byte_len(v[i]->content) / 2),
    ensures
        0 <= k <= v[i]->content.len(),
        model::byte_len(v[i]->content.take(k)) == model::byte_len(v[i]->content) / 2,
        compacted(v)[i] matches EntryModel::Warm { summary, source_range, token_count } && summary
            == "[已压缩] "@ + v[i]->content.take(k) + "..."@ && source_range == (
            i as usize,
            i as usize,
        ) && token_count == if v[i]->Hot_token_count < 2 {
            1
        } else {
            v[i]->Hot_token_count / 2
        },
{
    let s = v[i]->content;
    assert(model::is_boundary(s, summary_bytes(s)));
    model::chars_in(s, summary_bytes(s))
}

/// All hot entries that stand at the beginning are cooled at once, but for the last four
/// entries of the memory.
pub proof fn law_oldest_entries_are_cooled(v: Seq<EntryModel>, n: int, i: int)
    requires
        4 < v.len(),
        0 <= i < n <= v.len() - 4,
        forall|j: int| 0 <= j < n ==> (#[trigger] v[j]) is Hot,
    ensures
        compacted(v)[i] is Warm,
{
    assert(v[0] is Hot);
    assert(block_start(v) == 0);
    lemma_run_reaches(v, 0, n, v.len() - 4);
}

proof fn lemma_run_reaches(v: Seq<EntryModel>, i: int, n: int, m: int)
    requires
        0 <= i <= n <= m <= v.len(),
        forall|j: int| i <= j < n ==> (#[trigger] v[j]) is Hot,
    ensures
        run_end(v, i, m) >= n,
    decreases n - i,
{
    if i < n {
        assert(v[i] is Hot);
        lemma_run_reaches(v, i + 1, n, m);
    } else {
        lemma_run_end(v, i, m);
    }
}

/// What a compaction reports is what it did: the tokens before and after, and the places
/// of the hot entries that it cooled. It reports none only where no entry but the last four
/// is hot.
pub proof fn law_report_tells_the_cooling(v: Seq<EntryModel>, r: CompactionResult, i: int)
    requires
        compaction_report(v, r),
        4 < v.len(),
        0 <= i < v.len(),
    ensures
        r.tokens_before == total_tokens(v),
        r.tokens_after == total_tokens(compacted(v)),
        r.entries_compacted > 0 ==> r.entries_compacted == r.compacted_range.1
            - r.compacted_range.0 + 1 && r.compacted_range.1 < v.len() - 4,
        r.entries_compacted > 0 && r.compacted_range.0 <= i <= r.compacted_range.1 ==> v[i] is Hot
            && compacted(v)[i] is Warm,
        r.entries_compacted > 0 && !(r.compacted_range.0 <= i <= r.compacted_range.1) && v[i] is Hot
            ==> compacted(v)[i] == v[i],
        r.entries_compacted == 0 && i < v.len() - 4 ==> !(v[i] is Hot),
{
    law_oldest_block_is_cooled(v, i);
    lemma_hot_from(v, 0, v.len() - 4);
    lemma_run_end(v, block_start(v), v.len() - 4);
    if r.entries_compacted == 0 && block_start(v) < v.len() - 4 {
        law_oldest_block_is_cooled(v, block_start(v));
        assert(v[block_start(v)] is Hot);
    }
}

/// An entry is cut only where a character begins: a text at half its bytes, a summary at
/// its fortieth byte or its end.
pub proof fn law_entries_are_cut_between_characters(e: EntryModel)
    requires
        coolable(e),
    ensures
        e is Hot && model::byte_len(e->content) >= 2
            ==> model::is_boundary(e->content, model::byte_len(e->content) / 2),
        e is Warm && model::byte_len(e->summary) > 40
            ==> model::is_boundary(e->summary, 40),
{
}

} // verus!

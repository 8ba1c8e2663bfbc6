//! Episodic memory: a net of memories that point at each other.
//!
//! A new memory is linked to the most related ones, and they to it. Rewards and
//! scores are kept as integers that are ordered as they are: the bit patterns of
//! double-precision numbers that are not negative.

use crate::memory::rank;
use crate::text::number;
use crate::text::order;
use crate::text::text_map;
use crate::text::text_map::TextMap;
use crate::text::text_set::TextSet;
use crate::text::{lemmas, model, ops};
use vstd::prelude::*;
use vstd::string::*;

verus! {

/// Names a memory.
pub type MemoryId = String;

/// What kind of memory it is.
#[derive(Debug, Clone, Copy, PartialEq, Eq, Hash, Structural)]
pub enum MemoryType {
    /// Knowledge of facts.
    Semantic,
    /// What has happened.
    Episodic,
    /// How something is done.
    Procedural,
}

/// Where a memory comes from.
#[derive(Debug)]
pub struct MemorySource {
    /// The session.
    pub session_id: String,
    /// The moment, in seconds.
    pub timestamp: i64,
    /// The message in the session.
    pub message_index: Option<usize>,
    /// How certain it is, as the bit pattern of a double-precision number.
    pub confidence: u64,
}

/// What a source holds.
#[verifier::ext_equal]
pub struct SourceModel {
    pub session_id: Seq<char>,
    pub timestamp: i64,
    pub message_index: Option<usize>,
    pub confidence: u64,
}

impl View for MemorySource {
    type V = SourceModel;

    open spec fn view(&self) -> SourceModel {
        SourceModel {
            session_id: self.session_id@,
            timestamp: self.timestamp,
            message_index: self.message_index,
            confidence: self.confidence,
        }
    }
}

/// A memory.
#[derive(Debug)]
pub struct MemoryNode {
    /// Names the memory.
    pub id: MemoryId,
    /// What kind of memory it is.
    pub memory_type: MemoryType,
    /// What is remembered.
    pub content: String,
    /// What it was about.
    pub context: String,
    /// Words by which it is found.
    pub keywords: Vec<String>,
    /// The memories that it points at.
    pub forward_links: Vec<MemoryId>,
    /// The memories that point at it.
    pub back_links: Vec<MemoryId>,
    /// Where it comes from.
    pub source: MemorySource,
    /// How often it was used.
    pub access_count: u64,
    /// When it was last used, in seconds.
    pub last_accessed: i64,
    /// How useful it is.
    pub reward: i64,
}

/// What a memory holds.
#[verifier::ext_equal]
pub struct NodeModel {
    pub id: Seq<char>,
    pub memory_type: MemoryType,
    pub content: Seq<char>,
    pub context: Seq<char>,
    pub keywords: Seq<Seq<char>>,
    pub forward_links: Seq<Seq<char>>,
    pub back_links: Seq<Seq<char>>,
    pub source: SourceModel,
    pub access_count: u64,
    pub last_accessed: i64,
    pub reward: i64,
}

impl View for MemoryNode {
    type V = NodeModel;

    open spec fn view(&self) -> NodeModel {
        NodeModel {
            id: self.id@,
            memory_type: self.memory_type,
            content: self.content@,
            context: self.context@,
            keywords: model::texts(self.keywords@),
            forward_links: model::texts(self.forward_links@),
            back_links: model::texts(self.back_links@),
            source: self.source@,
            access_count: self.access_count,
            last_accessed: self.last_accessed,
            reward: self.reward,
        }
    }
}

impl Clone for MemoryNode {
    fn clone(&self) -> (r: Self)
        ensures
            r@ == self@,
    {
        MemoryNode {
            id: self.id.clone(),
            memory_type: self.memory_type,
            content: self.content.clone(),
            context: self.context.clone(),
            keywords: ops::clone_texts(self.keywords.as_slice()),
            forward_links: ops::clone_texts(self.forward_links.as_slice()),
            back_links: ops::clone_texts(self.back_links.as_slice()),
            source: MemorySource {
                session_id: self.source.session_id.clone(),
                timestamp: self.source.timestamp,
                message_index: self.source.message_index,
                confidence: self.source.confidence,
            },
            access_count: self.access_count,
            last_accessed: self.last_accessed,
            reward: self.reward,
        }
    }
}

/// The memories by their names.
pub type Nodes = Map<Seq<char>, NodeModel>;

/// Lists of names by keywords.
pub type Index = Map<Seq<char>, Seq<Seq<char>>>;

/// The memories that a map of memories shows.
pub open spec fn shown_nodes(m: Map<Seq<char>, MemoryNode>) -> Nodes {
    Map::new(|k: Seq<char>| m.contains_key(k), |k: Seq<char>| m[k]@)
}

/// The lists that a map of lists shows.
pub open spec fn shown_index(m: Map<Seq<char>, Vec<String>>) -> Index {
    Map::new(|k: Seq<char>| m.contains_key(k), |k: Seq<char>| model::texts(m[k]@))
}

/// A list without a name.
pub open spec fn without_name(v: Seq<Seq<char>>, id: Seq<char>) -> Seq<Seq<char>> {
    v.filter(|x: Seq<char>| x != id)
}

/// The index with a name under one more key.
pub open spec fn indexed(m: Index, k: Seq<char>, id: Seq<char>) -> Index {
    m.insert(
        k,
        if m.contains_key(k) {
            m[k].push(id)
        } else {
            seq![id]
        },
    )
}

/// The index with a name under the first `n` of some keys.
pub open spec fn indexed_under(m: Index, keys: Seq<Seq<char>>, id: Seq<char>, n: nat) -> Index
    decreases n,
{
    if n == 0 {
        m
    } else {
        indexed(indexed_under(m, keys, id, (n - 1) as nat), keys[n - 1], id)
    }
}

/// The index without a name under a key.
pub open spec fn unindexed(m: Index, k: Seq<char>, id: Seq<char>) -> Index {
    if m.contains_key(k) {
        m.insert(k, without_name(m[k], id))
    } else {
        m
    }
}

/// The index without a name under the first `n` of some keys.
pub open spec fn unindexed_under(m: Index, keys: Seq<Seq<char>>, id: Seq<char>, n: nat) -> Index
    decreases n,
{
    if n == 0 {
        m
    } else {
        unindexed(unindexed_under(m, keys, id, (n - 1) as nat), keys[n - 1], id)
    }
}

/// The key of a kind of memory.
pub open spec fn type_key(t: MemoryType) -> Seq<char> {
    match t {
        MemoryType::Semantic => "semantic"@,
        MemoryType::Episodic => "episodic"@,
        MemoryType::Procedural => "procedural"@,
    }
}

/// The word for a kind of memory.
pub open spec fn type_word(t: MemoryType) -> Seq<char> {
    match t {
        MemoryType::Semantic => "语义"@,
        MemoryType::Episodic => "情景"@,
        MemoryType::Procedural => "程序"@,
    }
}

/// What a store holds.
#[verifier::ext_equal]
pub struct EpisodesModel {
    /// The memories.
    pub nodes: Nodes,
    /// The names of the memories, in order.
    pub order: Seq<Seq<char>>,
    /// The names by keywords.
    pub keyword_index: Index,
    /// The names by kinds.
    pub type_index: Index,
    /// How many names were given.
    pub counter: u64,
    /// How many memories are kept at most.
    pub max_memories: usize,
    /// The names in the order in which they were given.
    pub insertion_order: Seq<Seq<char>>,
}

/// The places of the first `n` memories that are related enough.
pub open spec fn related_places(scores: Seq<i64>, n: nat) -> Seq<int>
    decreases n,
{
    if n == 0 {
        Seq::empty()
    } else if scores[n - 1] > 0x3FB9_9999_9999_999A {
        related_places(scores, (n - 1) as nat).push(n - 1)
    } else {
        related_places(scores, (n - 1) as nat)
    }
}

/// The places of the five most related memories, the most related first.
pub open spec fn most_related(scores: Seq<i64>) -> Seq<int> {
    let places = related_places(scores, scores.len());
    rank::first_of(
        rank::descending(places.map_values(|p: int| scores[p])),
        5,
    ).map_values(|i: int| places[i])
}

/// The names at some places.
pub open spec fn names_at(order: Seq<Seq<char>>, places: Seq<int>) -> Seq<Seq<char>> {
    places.map_values(|p: int| order[p])
}

/// The memories after the first `n` of some were pointed at by a new one: each
/// gets a link back, and a better reward.
pub open spec fn pointed_at(
    nodes: Nodes,
    order: Seq<Seq<char>>,
    places: Seq<int>,
    raised: Seq<i64>,
    id: Seq<char>,
    n: nat,
) -> Nodes
    decreases n,
{
    if n == 0 {
        nodes
    } else {
        let before = pointed_at(nodes, order, places, raised, id, (n - 1) as nat);
        let k = order[places[n - 1]];
        if before.contains_key(k) {
            before.insert(
                k,
                NodeModel {
                    back_links: before[k].back_links.push(id),
                    reward: raised[places[n - 1]],
                    ..before[k]
                },
            )
        } else {
            before
        }
    }
}

/// The memories after links back to a memory were cut from the first `n` of
/// some.
pub open spec fn back_cut(nodes: Nodes, names: Seq<Seq<char>>, id: Seq<char>, n: nat) -> Nodes
    decreases n,
{
    if n == 0 {
        nodes
    } else {
        let before = back_cut(nodes, names, id, (n - 1) as nat);
        let k = names[n - 1];
        if before.contains_key(k) {
            before.insert(
                k,
                NodeModel { back_links: without_name(before[k].back_links, id), ..before[k] },
            )
        } else {
            before
        }
    }
}

/// The memories after links to a memory were cut from the first `n` of some.
pub open spec fn forward_cut(nodes: Nodes, names: Seq<Seq<char>>, id: Seq<char>, n: nat) -> Nodes
    decreases n,
{
    if n == 0 {
        nodes
    } else {
        let before = forward_cut(nodes, names, id, (n - 1) as nat);
        let k = names[n - 1];
        if before.contains_key(k) {
            before.insert(
                k,
                NodeModel { forward_links: without_name(before[k].forward_links, id), ..before[k] },
            )
        } else {
            before
        }
    }
}

/// The memories after one was given up: no link leads to it.
pub open spec fn nodes_without(nodes: Nodes, id: Seq<char>) -> Nodes {
    if nodes.contains_key(id) {
        let gone = nodes[id];
        let a = back_cut(nodes.remove(id), gone.forward_links, id, gone.forward_links.len());
        forward_cut(a, gone.back_links, id, gone.back_links.len())
    } else {
        nodes
    }
}

/// The store after a memory was given up.
pub open spec fn evicted(m: EpisodesModel, id: Seq<char>) -> EpisodesModel {
    if m.nodes.contains_key(id) {
        let gone = m.nodes[id];
        EpisodesModel {
            nodes: nodes_without(m.nodes, id),
            order: text_map::without(m.order, id),
            keyword_index: unindexed_under(m.keyword_index, gone.keywords, id, gone.keywords.len()),
            type_index: unindexed(m.type_index, type_key(gone.memory_type), id),
            ..m
        }
    } else {
        m
    }
}

/// The store after the oldest memories were given up, so that no more are kept
/// than allowed.
pub open spec fn within_capacity(m: EpisodesModel) -> EpisodesModel
    decreases m.insertion_order.len(),
{
    if m.insertion_order.len() > m.max_memories {
        within_capacity(
            EpisodesModel {
                insertion_order: m.insertion_order.skip(1),
                ..evicted(m, m.insertion_order[0])
            },
        )
    } else {
        m
    }
}

/// The name of a new memory.
pub open spec fn new_id(millis: u64, counter: u64) -> Seq<char> {
    "mem_"@ + model::decimal(millis as nat) + "_"@ + model::decimal(counter as nat)
}

/// A new memory.
pub open spec fn new_node(
    id: Seq<char>,
    memory_type: MemoryType,
    content: Seq<char>,
    context: Seq<char>,
    keywords: Seq<Seq<char>>,
    source: SourceModel,
    related: Seq<Seq<char>>,
    now: i64,
) -> NodeModel {
    NodeModel {
        id: id,
        memory_type: memory_type,
        content: content,
        context: context,
        keywords: keywords,
        forward_links: related,
        back_links: Seq::empty(),
        source: source,
        access_count: 0,
        last_accessed: now,
        reward: 0x3FE0_0000_0000_0000,
    }
}

/// The store with a new memory, before the oldest ones are given up and before
/// the indexes know of it.
pub open spec fn linked(
    m: EpisodesModel,
    node: NodeModel,
    places: Seq<int>,
    raised: Seq<i64>,
) -> EpisodesModel {
    EpisodesModel {
        nodes: pointed_at(m.nodes, m.order, places, raised, node.id, places.len()).insert(
            node.id,
            node,
        ),
        order: text_map::with(m.order, node.id),
        counter: if m.counter == u64::MAX {
            0
        } else {
            (m.counter + 1) as u64
        },
        insertion_order: m.insertion_order.push(node.id),
        ..m
    }
}

/// The store after a memory was encoded.
pub open spec fn encoded(
    m: EpisodesModel,
    node: NodeModel,
    places: Seq<int>,
    raised: Seq<i64>,
) -> EpisodesModel {
    let kept = within_capacity(linked(m, node, places, raised));
    EpisodesModel {
        keyword_index: indexed_under(
            kept.keyword_index,
            node.keywords,
            node.id,
            node.keywords.len(),
        ),
        type_index: indexed(kept.type_index, type_key(node.memory_type), node.id),
        ..kept
    }
}

/// A memory as it is told.
pub open spec fn told(n: NodeModel) -> Seq<char> {
    "["@ + type_word(n.memory_type) + "] "@ + n.content + " (上下文: "@ + n.context + ")"@
}

/// How many of the names have not been visited.
pub open spec fn unvisited(names: Seq<Seq<char>>, visited: Set<Seq<char>>) -> nat
    decreases names.len(),
{
    if names.len() == 0 {
        0
    } else {
        unvisited(names.drop_last(), visited) + if visited.contains(names.last()) {
            0nat
        } else {
            1nat
        }
    }
}

/// Visiting one of the names leaves fewer to visit.
pub proof fn lemma_unvisited(names: Seq<Seq<char>>, visited: Set<Seq<char>>, id: Seq<char>)
    ensures
        unvisited(names, visited.insert(id)) <= unvisited(names, visited),
        names.contains(id) && !visited.contains(id) ==> unvisited(names, visited.insert(id))
            < unvisited(names, visited),
    decreases names.len(),
{
    if names.len() > 0 {
        lemma_unvisited(names.drop_last(), visited, id);
        if names.contains(id) && names.last() != id {
            let i = names.index_of(id);
            assert(names.drop_last()[i] == id);
        }
    }
}

/// A memory to visit, and how far it is from where the walk began.
pub type Stop = (Seq<char>, nat);

/// The links that lead to memories not yet visited, among the first `n`.
pub open spec fn next_stops(
    links: Seq<Seq<char>>,
    visited: Set<Seq<char>>,
    depth: nat,
    n: nat,
) -> Seq<Stop>
    decreases n,
{
    if n == 0 {
        Seq::empty()
    } else {
        let before = next_stops(links, visited, depth, (n - 1) as nat);
        if visited.contains(links[n - 1]) {
            before
        } else {
            before.push((links[n - 1], depth))
        }
    }
}

/// What is told on a walk along the links, nearest memories first, no farther
/// than a given depth.
pub open spec fn walked(
    nodes: Nodes,
    names: Seq<Seq<char>>,
    queue: Seq<Stop>,
    visited: Set<Seq<char>>,
    max_depth: nat,
) -> Seq<Seq<char>>
    decreases unvisited(names, visited), queue.len(),
{
    if queue.len() == 0 {
        Seq::empty()
    } else {
        let id = queue[0].0;
        let depth = queue[0].1;
        let rest = queue.skip(1);
        if visited.contains(id) || depth > max_depth {
            walked(nodes, names, rest, visited, max_depth)
        } else {
            proof {
                lemma_unvisited(names, visited, id);
            }
            let seen = visited.insert(id);
            if names.contains(id) {
                let node = nodes[id];
                let more = next_stops(
                    node.forward_links,
                    seen,
                    depth + 1,
                    node.forward_links.len(),
                ) + next_stops(node.back_links, seen, depth + 1, node.back_links.len());
                seq![told(node)] + walked(nodes, names, rest + more, seen, max_depth)
            } else {
                walked(nodes, names, rest, seen, max_depth)
            }
        }
    }
}

/// The walk's first stops.
pub open spec fn first_stops(names: Seq<Seq<char>>) -> Seq<Stop> {
    names.map_values(|n: Seq<char>| (n, 0nat))
}

/// How many whole days have passed.
pub open spec fn days_between(then: i64, now: i64) -> int {
    let seconds = now - then;
    if seconds >= 0 {
        seconds / 86400
    } else {
        -((-seconds) / 86400)
    }
}

/// Whether a memory is kept: it is useful enough or was used not long ago.
pub open spec fn survives(n: NodeModel, min_reward: i64, max_age_days: i64, now: i64) -> bool {
    n.reward >= min_reward || days_between(n.last_accessed, now) <= max_age_days
}

/// The names of the memories that are kept.
pub open spec fn survivors(
    m: EpisodesModel,
    min_reward: i64,
    max_age_days: i64,
    now: i64,
) -> Seq<Seq<char>> {
    m.order.filter(|k: Seq<char>| survives(m.nodes[k], min_reward, max_age_days, now))
}

/// Two memories that are to become one.
pub type Pair = (Seq<char>, Seq<char>);

/// Whether two memories are to become one: they are of one kind, neither is
/// useful, and they are alike.
pub open spec fn mergeable(a: NodeModel, b: NodeModel, low: i64, alike: bool) -> bool {
    a.memory_type == b.memory_type && a.reward < low && b.reward < low && alike
}

/// The pairs of the memory at place `i` with those at places below `n` that come
/// after it.
pub open spec fn pairs_of(
    m: EpisodesModel,
    low: i64,
    alike: Seq<Vec<bool>>,
    i: int,
    n: nat,
) -> Seq<Pair>
    decreases n,
{
    if n == 0 || n <= i + 1 {
        Seq::empty()
    } else {
        let before = pairs_of(m, low, alike, i, (n - 1) as nat);
        let a = m.nodes[m.order[i]];
        let b = m.nodes[m.order[n - 1]];
        if mergeable(a, b, low, alike[i]@[n - 1]) {
            before.push((a.id, b.id))
        } else {
            before
        }
    }
}

/// The pairs of the memories at the first `n` places.
pub open spec fn pairs_upto(m: EpisodesModel, low: i64, alike: Seq<Vec<bool>>, n: nat) -> Seq<Pair>
    decreases n,
{
    if n == 0 {
        Seq::empty()
    } else {
        pairs_upto(m, low, alike, (n - 1) as nat) + pairs_of(m, low, alike, n - 1, m.order.len())
    }
}

/// One memory made of two: the more useful one keeps its name and takes what the
/// other has.
pub open spec fn joined(a: NodeModel, b: NodeModel) -> NodeModel {
    let (keeper, other) = if a.reward >= b.reward {
        (a, b)
    } else {
        (b, a)
    };
    NodeModel {
        content: keeper.content + "\n---\n"@ + other.content,
        forward_links: keeper.forward_links + other.forward_links,
        back_links: keeper.back_links + other.back_links,
        keywords: order::deduped(order::sorted(keeper.keywords + other.keywords)),
        ..keeper
    }
}

/// A store while memories become one.
#[verifier::ext_equal]
pub struct Merging {
    pub nodes: Nodes,
    pub order: Seq<Seq<char>>,
    pub merged: nat,
}

/// The store after two memories were to become one: where both are there, one made of
/// them takes their place.
pub open spec fn merged_pair(s: Merging, p: Pair) -> Merging {
    if s.nodes.contains_key(p.0) && s.nodes.contains_key(p.1) && p.0 != p.1 {
        let j = joined(s.nodes[p.0], s.nodes[p.1]);
        Merging {
            nodes: s.nodes.remove(p.0).remove(p.1).insert(j.id, j),
            order: text_map::with(
                text_map::without(text_map::without(s.order, p.0), p.1),
                j.id,
            ),
            merged: s.merged + 1,
        }
    } else {
        s
    }
}

/// The store after the first `n` pairs.
pub open spec fn merged_pairs(s: Merging, pairs: Seq<Pair>, n: nat) -> Merging
    decreases n,
{
    if n == 0 {
        s
    } else {
        merged_pair(merged_pairs(s, pairs, (n - 1) as nat), pairs[n - 1])
    }
}

/// How many of the first `n` memories are of a kind.
pub open spec fn count_of(m: EpisodesModel, t: MemoryType, n: nat) -> nat
    decreases n,
{
    if n == 0 {
        0
    } else {
        count_of(m, t, (n - 1) as nat) + if m.nodes[m.order[n - 1]].memory_type == t {
            1nat
        } else {
            0nat
        }
    }
}

/// How many of the first `n` keywords a memory has, as a keyword or in its text.
pub open spec fn keyword_hits(node: NodeModel, keywords: Seq<Seq<char>>, n: nat) -> nat
    decreases n,
{
    if n == 0 {
        0
    } else {
        let k = keywords[n - 1];
        keyword_hits(node, keywords, (n - 1) as nat) + if node.keywords.contains(k)
            || model::contains(node.content, k) {
            1nat
        } else {
            0nat
        }
    }
}

/// The pairs that a list holds.
pub open spec fn pair_models(v: Seq<(String, String)>) -> Seq<Pair> {
    v.map_values(|p: (String, String)| (p.0@, p.1@))
}

/// The stops that a list holds.
pub open spec fn stop_models(v: Seq<(String, usize)>) -> Seq<Stop> {
    v.map_values(|p: (String, usize)| (p.0@, p.1 as nat))
}

/// A list without a name.
fn cut_name(v: &Vec<String>, id: &str) -> (r: Vec<String>)
    ensures
        model::texts(r@) == without_name(model::texts(v@), id@),
{
    let ghost f = |x: Seq<char>| x != id@;
    let ghost all = model::texts(v@);
    let mut out: Vec<String> = Vec::new();
    assert(model::texts(out@) =~= Seq::empty());
    proof {
        reveal(Seq::filter);
    }
    assert(all.take(0).filter(f) =~= Seq::empty());
    let mut i: usize = 0;
    while i < v.len()
        invariant
            i <= v@.len(),
            all == model::texts(v@),
            f == (|x: Seq<char>| x != id@),
            model::texts(out@) == all.take(i as int).filter(f),
        decreases v@.len() - i,
    {
        proof {
            reveal(Seq::filter);
        }
        assert(all[i as int] == v@[i as int]@);
        assert(all.take(i + 1).drop_last() =~= all.take(i as int));
        if !ops::same_text(v[i].as_str(), id) {
            let ghost before = out@;
            let item = v[i].clone();
            let ghost shown = item@;
            out.push(item);
            assert(model::texts(out@) =~= model::texts(before).push(shown));
        }
        i = i + 1;
    }
    assert(all.take(all.len() as int) =~= all);
    out
}

/// Puts a name under a key of an index.
fn index_name(index: &mut TextMap<Vec<String>>, key: &str, id: &str)
    requires
        old(index).wf(),
    ensures
        final(index).wf(),
        shown_index(final(index)@) == indexed(shown_index(old(index)@), key@, id@),
{
    let ghost before = shown_index(index@);
    let mut names: Vec<String> = match index.get(key) {
        Some(v) => ops::clone_texts(v.as_slice()),
        None => Vec::new(),
    };
    let ghost earlier = model::texts(names@);
    names.push(String::from_str(id));
    assert(model::texts(names@) =~= earlier.push(id@));
    assert(!before.contains_key(key@) ==> model::texts(names@) =~= seq![id@]);
    index.insert(String::from_str(key), names);
    assert(shown_index(index@) =~= indexed(before, key@, id@));
}

/// Takes a name from under a key of an index.
fn unindex_name(index: &mut TextMap<Vec<String>>, key: &str, id: &str)
    requires
        old(index).wf(),
    ensures
        final(index).wf(),
        shown_index(final(index)@) == unindexed(shown_index(old(index)@), key@, id@),
{
    let ghost before = shown_index(index@);
    let names: Option<Vec<String>> = match index.get(key) {
        Some(v) => Some(cut_name(v, id)),
        None => None,
    };
    if let Some(kept) = names {
        index.insert(String::from_str(key), kept);
        assert(shown_index(index@) =~= unindexed(before, key@, id@));
    }
}

/// The key of a kind of memory.
fn key_of_type(t: MemoryType) -> (r: &'static str)
    ensures
        r@ == type_key(t),
{
    match t {
        MemoryType::Semantic => "semantic",
        MemoryType::Episodic => "episodic",
        MemoryType::Procedural => "procedural",
    }
}

/// A memory as it is told.
fn tell(n: &MemoryNode) -> (r: String)
    ensures
        r@ == told(n@),
{
    let word = match n.memory_type {
        MemoryType::Semantic => "语义",
        MemoryType::Episodic => "情景",
        MemoryType::Procedural => "程序",
    };
    let start = ops::concat5("[", word, "] ", n.content.as_str(), " (上下文: ");
    ops::concat3(start.as_str(), n.context.as_str(), ")")
}

/// How many whole days have passed.
fn days(then: i64, now: i64) -> (r: i128)
    ensures
        r == days_between(then, now),
{
    let seconds: i128 = now as i128 - then as i128;
    if seconds >= 0 {
        seconds / 86400
    } else {
        let past: i128 = -seconds;
        let whole: i128 = past / 86400;
        -whole
    }
}

/// One memory made of two.
fn join_nodes(a: MemoryNode, b: MemoryNode) -> (r: MemoryNode)
    ensures
        r@ == joined(a@, b@),
{
    let (keeper, other) = if a.reward >= b.reward {
        (a, b)
    } else {
        (b, a)
    };
    let mut node = keeper;
    let ghost k = node@;
    let ghost o = other@;
    node.content = ops::concat3(node.content.as_str(), "\n---\n", other.content.as_str());
    let mut forward = other.forward_links;
    node.forward_links.append(&mut forward);
    assert(model::texts(node.forward_links@) =~= k.forward_links + o.forward_links);
    let mut back = other.back_links;
    node.back_links.append(&mut back);
    assert(model::texts(node.back_links@) =~= k.back_links + o.back_links);
    let mut words = other.keywords;
    let mut all = ops::clone_texts(node.keywords.as_slice());
    all.append(&mut words);
    assert(model::texts(all@) =~= k.keywords + o.keywords);
    let sorted = order::sort(all);
    node.keywords = order::dedup(&sorted);
    node
}

/// A store of memories.
#[derive(Debug)]
pub struct EpisodicMemoryStore {
    /// The memories.
    pub nodes: TextMap<MemoryNode>,
    /// The names by keywords.
    pub keyword_index: TextMap<Vec<MemoryId>>,
    /// The names by kinds.
    pub type_index: TextMap<Vec<MemoryId>>,
    /// How many names were given.
    pub counter: u64,
    /// How many memories are kept at most.
    pub max_memories: usize,
    /// The names in the order in which they were given.
    pub insertion_order: Vec<MemoryId>,
}

impl View for EpisodicMemoryStore {
    type V = EpisodesModel;

    open spec fn view(&self) -> EpisodesModel {
        EpisodesModel {
            nodes: shown_nodes(self.nodes@),
            order: self.nodes.order(),
            keyword_index: shown_index(self.keyword_index@),
            type_index: shown_index(self.type_index@),
            counter: self.counter,
            max_memories: self.max_memories,
            insertion_order: model::texts(self.insertion_order@),
        }
    }
}

/// A store without memories.
pub open spec fn no_episodes(max: usize) -> EpisodesModel {
    EpisodesModel {
        nodes: Map::empty(),
        order: Seq::empty(),
        keyword_index: Map::empty(),
        type_index: Map::empty(),
        counter: 0,
        max_memories: max,
        insertion_order: Seq::empty(),
    }
}

/// What the memories that are related to a query say together.
pub open spec fn reconstructed(m: EpisodesModel, scores: Seq<i64>, max_depth: nat) -> Seq<char> {
    model::join(
        walked(
            m.nodes,
            m.order,
            first_stops(names_at(m.order, most_related(scores))),
            Set::empty(),
            max_depth,
        ),
        "\n"@,
    )
}

impl EpisodicMemoryStore {
    /// The maps are in order.
    pub open spec fn wf(&self) -> bool {
        self.nodes.wf() && self.keyword_index.wf() && self.type_index.wf()
    }

    /// A store for a thousand memories.
    pub fn new() -> (r: Self)
        ensures
            r.wf(),
            r@ == no_episodes(1000),
    {
        EpisodicMemoryStore::with_capacity(1000)
    }

    /// A store for so many memories.
    pub fn with_capacity(max: usize) -> (r: Self)
        ensures
            r.wf(),
            r@ == no_episodes(max),
    {
        let r = EpisodicMemoryStore {
            nodes: TextMap::new(),
            keyword_index: TextMap::new(),
            type_index: TextMap::new(),
            counter: 0,
            max_memories: max,
            insertion_order: Vec::new(),
        };
        assert(r@.nodes =~= Map::empty());
        assert(r@.keyword_index =~= Map::empty());
        assert(r@.type_index =~= Map::empty());
        assert(r@.insertion_order =~= Seq::empty());
        r
    }

    /// How many of the keywords a memory has.
    pub fn keyword_hits(&self, place: usize, keywords: &Vec<String>) -> (r: usize)
        requires
            self.wf(),
            place < self@.order.len(),
        ensures
            r == keyword_hits(
                self@.nodes[self@.order[place as int]],
                model::texts(keywords@),
                keywords@.len(),
            ),
    {
        let node = self.nodes.value_at(place);
        let ghost n = self@.nodes[self@.order[place as int]];
        assert(n == node@);
        let ghost all = model::texts(keywords@);
        let mut hits: usize = 0;
        let mut i: usize = 0;
        while i < keywords.len()
            invariant
                i <= keywords@.len(),
                n == node@,
                all == model::texts(keywords@),
                hits <= i,
                hits == keyword_hits(n, all, i as nat),
            decreases keywords@.len() - i,
        {
            assert(all[i as int] == keywords@[i as int]@);
            let k = keywords[i].as_str();
            if ops::has_text(node.keywords.as_slice(), k) || ops::text_contains(
                node.content.as_str(),
                k,
            ) {
                hits = hits + 1;
            }
            i = i + 1;
        }
        hits
    }

    /// The places of the most related memories: `scores` says how related each
    /// memory is.
    pub fn find_related(scores: &Vec<i64>) -> (r: Vec<usize>)
        ensures
            rank::positions(r@) == most_related(scores@),
            forall|i: int| 0 <= i < r@.len() ==> (#[trigger] r@[i]) < scores@.len(),
    {
        let mut places: Vec<usize> = Vec::new();
        let mut keys: Vec<i64> = Vec::new();
        assert(rank::positions(places@) =~= Seq::empty());
        assert(keys@ =~= rank::positions(places@).map_values(|p: int| scores@[p]));
        let mut i: usize = 0;
        while i < scores.len()
            invariant
                i <= scores@.len(),
                rank::positions(places@) == related_places(scores@, i as nat),
                keys@ == rank::positions(places@).map_values(|p: int| scores@[p]),
                forall|j: int| 0 <= j < places@.len() ==> (#[trigger] places@[j]) < i,
            decreases scores@.len() - i,
        {
            if scores[i] > 0x3FB9_9999_9999_999A {
                let ghost before = places@;
                places.push(i);
                keys.push(scores[i]);
                assert(rank::positions(places@) =~= rank::positions(before).push(i as int));
                assert(keys@ =~= rank::positions(places@).map_values(|p: int| scores@[p]));
            }
            i = i + 1;
        }
        let ghost all = rank::positions(places@);
        let top = rank::top(&keys, 5);
        let ghost ranked = rank::positions(top@);
        let ghost best = most_related(scores@);
        let mut out: Vec<usize> = Vec::new();
        assert(rank::positions(out@) =~= best.take(0));
        let mut j: usize = 0;
        while j < top.len()
            invariant
                j <= top@.len(),
                all == rank::positions(places@),
                ranked == rank::positions(top@),
                best == ranked.map_values(|i: int| all[i]),
                forall|k: int| 0 <= k < top@.len() ==> (#[trigger] top@[k]) < places@.len(),
                forall|k: int| 0 <= k < places@.len() ==> (#[trigger] places@[k]) < scores@.len(),
                forall|k: int| 0 <= k < out@.len() ==> (#[trigger] out@[k]) < scores@.len(),
                rank::positions(out@) == best.take(j as int),
            decreases top@.len() - j,
        {
            let ghost before = out@;
            let place: usize = places[top[j]];
            assert(ranked[j as int] == top@[j as int] as int);
            assert(all[top@[j as int] as int] == place as int);
            out.push(place);
            assert(rank::positions(out@) =~= rank::positions(before).push(place as int));
            assert(best.take(j + 1) =~= best.take(j as int).push(place as int));
            j = j + 1;
        }
        assert(best.take(best.len() as int) =~= best);
        out
    }

    /// The names at some places.
    fn names(&self, places: &Vec<usize>) -> (r: Vec<String>)
        requires
            self.wf(),
            forall|i: int| 0 <= i < places@.len() ==> (#[trigger] places@[i]) < self@.order.len(),
        ensures
            model::texts(r@) == names_at(self@.order, rank::positions(places@)),
    {
        let ghost all = names_at(self@.order, rank::positions(places@));
        let mut out: Vec<String> = Vec::new();
        assert(model::texts(out@) =~= all.take(0));
        let mut i: usize = 0;
        while i < places.len()
            invariant
                i <= places@.len(),
                self.wf(),
                forall|k: int|
                    0 <= k < places@.len() ==> (#[trigger] places@[k]) < self@.order.len(),
                all == names_at(self@.order, rank::positions(places@)),
                model::texts(out@) == all.take(i as int),
            decreases places@.len() - i,
        {
            let ghost before = out@;
            let name = self.nodes.key_at(places[i]).clone();
            let ghost shown = name@;
            assert(all[i as int] == shown);
            out.push(name);
            assert(model::texts(out@) =~= model::texts(before).push(shown));
            assert(all.take(i + 1) =~= all.take(i as int).push(shown));
            i = i + 1;
        }
        assert(all.take(all.len() as int) =~= all);
        out
    }

    /// Puts a changed memory in the place of one.
    fn replace(&mut self, id: &str, node: MemoryNode)
        requires
            old(self).wf(),
            old(self)@.nodes.contains_key(id@),
        ensures
            final(self).wf(),
            final(self)@ == (EpisodesModel {
                nodes: old(self)@.nodes.insert(id@, node@),
                ..old(self)@
            }),
    {
        let ghost before = self@;
        proof {
            self.nodes.lemma_order(id@);
        }
        self.nodes.insert(String::from_str(id), node);
        assert(self@.nodes =~= before.nodes.insert(id@, node@));
    }

    /// Lets some memories be pointed at by a new one.
    fn point_at(&mut self, names: &Vec<String>, places: &Vec<usize>, raised: &Vec<i64>, id: &str)
        requires
            old(self).wf(),
            names@.len() == places@.len(),
            model::texts(names@) == names_at(old(self)@.order, rank::positions(places@)),
            forall|i: int| 0 <= i < places@.len() ==> (#[trigger] places@[i]) < raised@.len(),
        ensures
            final(self).wf(),
            final(self)@ == (EpisodesModel {
                nodes: pointed_at(
                    old(self)@.nodes,
                    old(self)@.order,
                    rank::positions(places@),
                    raised@,
                    id@,
                    places@.len(),
                ),
                ..old(self)@
            }),
    {
        let ghost m = self@;
        let ghost spots = rank::positions(places@);
        let ghost all = model::texts(names@);
        let mut i: usize = 0;
        while i < names.len()
            invariant
                i <= names@.len(),
                names@.len() == places@.len(),
                self.wf(),
                all == model::texts(names@),
                all == names_at(m.order, spots),
                spots == rank::positions(places@),
                forall|k: int| 0 <= k < places@.len() ==> (#[trigger] places@[k]) < raised@.len(),
                self@ == (EpisodesModel {
                    nodes: pointed_at(m.nodes, m.order, spots, raised@, id@, i as nat),
                    ..m
                }),
            decreases names@.len() - i,
        {
            assert(all[i as int] == names@[i as int]@);
            assert(spots[i as int] == places@[i as int] as int);
            let ghost k = all[i as int];
            assert(k == m.order[spots[i as int]]);
            let changed: Option<MemoryNode> = match self.nodes.get(names[i].as_str()) {
                Some(node) => {
                    let mut n = node.clone();
                    let ghost links = model::texts(n.back_links@);
                    n.back_links.push(String::from_str(id));
                    assert(model::texts(n.back_links@) =~= links.push(id@));
                    n.reward = raised[places[i]];
                    Some(n)
                },
                None => None,
            };
            if let Some(n) = changed {
                self.replace(names[i].as_str(), n);
            }
            i = i + 1;
        }
    }

    /// Cuts the links back to a memory from others.
    fn cut_back(&mut self, names: &Vec<String>, id: &str)
        requires
            old(self).wf(),
        ensures
            final(self).wf(),
            final(self)@ == (EpisodesModel {
                nodes: back_cut(old(self)@.nodes, model::texts(names@), id@, names@.len()),
                ..old(self)@
            }),
    {
        let ghost m = self@;
        let ghost all = model::texts(names@);
        let mut i: usize = 0;
        while i < names.len()
            invariant
                i <= names@.len(),
                self.wf(),
                all == model::texts(names@),
                self@ == (EpisodesModel { nodes: back_cut(m.nodes, all, id@, i as nat), ..m }),
            decreases names@.len() - i,
        {
            assert(all[i as int] == names@[i as int]@);
            let changed: Option<MemoryNode> = match self.nodes.get(names[i].as_str()) {
                Some(node) => {
                    let mut n = node.clone();
                    n.back_links = cut_name(&n.back_links, id);
                    Some(n)
                },
                None => None,
            };
            if let Some(n) = changed {
                self.replace(names[i].as_str(), n);
            }
            i = i + 1;
        }
    }

    /// Cuts the links to a memory from others.
    fn cut_forward(&mut self, names: &Vec<String>, id: &str)
        requires
            old(self).wf(),
        ensures
            final(self).wf(),
            final(self)@ == (EpisodesModel {
                nodes: forward_cut(old(self)@.nodes, model::texts(names@), id@, names@.len()),
                ..old(self)@
            }),
    {
        let ghost m = self@;
        let ghost all = model::texts(names@);
        let mut i: usize = 0;
        while i < names.len()
            invariant
                i <= names@.len(),
                self.wf(),
                all == model::texts(names@),
                self@ == (EpisodesModel { nodes: forward_cut(m.nodes, all, id@, i as nat), ..m }),
            decreases names@.len() - i,
        {
            assert(all[i as int] == names@[i as int]@);
            let changed: Option<MemoryNode> = match self.nodes.get(names[i].as_str()) {
                Some(node) => {
                    let mut n = node.clone();
                    n.forward_links = cut_name(&n.forward_links, id);
                    Some(n)
                },
                None => None,
            };
            if let Some(n) = changed {
                self.replace(names[i].as_str(), n);
            }
            i = i + 1;
        }
    }

    /// Gives up a memory, with all that leads to it.
    pub fn evict_memory(&mut self, id: &str)
        requires
            old(self).wf(),
        ensures
            final(self).wf(),
            final(self)@ == evicted(old(self)@, id@),
    {
        let ghost m = self@;
        proof {
            self.nodes.lemma_order(id@);
        }
        let removed = self.nodes.remove(id);
        if let Some(gone) = removed {
            assert(self@.nodes =~= m.nodes.remove(id@));
            let ghost g = gone@;
            assert(g == m.nodes[id@]);
            self.cut_back(&gone.forward_links, id);
            self.cut_forward(&gone.back_links, id);
            assert(self@.nodes == nodes_without(m.nodes, id@));
            let ghost words = model::texts(gone.keywords@);
            let ghost index = self@.keyword_index;
            let ghost cut = self@;
            let mut i: usize = 0;
            while i < gone.keywords.len()
                invariant
                    i <= gone.keywords@.len(),
                    self.wf(),
                    words == model::texts(gone.keywords@),
                    self@ == (EpisodesModel {
                        keyword_index: unindexed_under(index, words, id@, i as nat),
                        ..cut
                    }),
                decreases gone.keywords@.len() - i,
            {
                assert(words[i as int] == gone.keywords@[i as int]@);
                unindex_name(&mut self.keyword_index, gone.keywords[i].as_str(), id);
                i = i + 1;
            }
            unindex_name(&mut self.type_index, key_of_type(gone.memory_type), id);
        } else {
            assert(self@.nodes =~= m.nodes);
        }
    }

    /// Gives up the oldest memories, so that no more are kept than allowed.
    fn make_room(&mut self)
        requires
            old(self).wf(),
        ensures
            final(self).wf(),
            final(self)@ == within_capacity(old(self)@),
    {
        let ghost m = self@;
        while self.insertion_order.len() > self.max_memories
            invariant
                self.wf(),
                within_capacity(self@) == within_capacity(m),
            decreases self.insertion_order@.len(),
        {
            let ghost before = self@;
            assert(before.insertion_order[0] == self.insertion_order@[0]@);
            let oldest = self.insertion_order.remove(0);
            assert(self@.insertion_order =~= before.insertion_order.skip(1));
            let ghost between = self@;
            self.evict_memory(oldest.as_str());
            assert(self@ == evicted(between, oldest@));
            assert(self@ =~= EpisodesModel {
                insertion_order: before.insertion_order.skip(1),
                ..evicted(before, oldest@)
            });
        }
    }

    /// Encodes a memory: it is linked to the most related ones and they to it,
    /// and where there are now too many memories the oldest are given up. Returns
    /// its name. `scores` says how related each memory is, and `raised` what its
    /// reward becomes if it is linked; the moments are in milliseconds and in
    /// seconds.
    pub fn encode(
        &mut self,
        memory_type: MemoryType,
        content: &str,
        context: &str,
        keywords: Vec<String>,
        source: MemorySource,
        scores: &Vec<i64>,
        raised: &Vec<i64>,
        now_millis: u64,
        now: i64,
    ) -> (r: MemoryId)
        requires
            old(self).wf(),
            scores@.len() == old(self)@.order.len(),
            raised@.len() == old(self)@.order.len(),
        ensures
            final(self).wf(),
            r@ == new_id(now_millis, old(self)@.counter),
            final(self)@ == encoded(
                old(self)@,
                new_node(
                    r@,
                    memory_type,
                    content@,
                    context@,
                    model::texts(keywords@),
                    source@,
                    names_at(old(self)@.order, most_related(scores@)),
                    now,
                ),
                most_related(scores@),
                raised@,
            ),
    {
        let ghost m = self@;
        let millis = ops::decimal_u64(now_millis);
        let count = ops::decimal_u64(self.counter);
        let id = ops::concat4("mem_", millis.as_str(), "_", count.as_str());
        self.counter = if self.counter == u64::MAX {
            0
        } else {
            self.counter + 1
        };
        let places = EpisodicMemoryStore::find_related(scores);
        let ghost spots = rank::positions(places@);
        let related = self.names(&places);
        assert(model::texts(related@).len() == related@.len());
        let back_links: Vec<String> = Vec::new();
        assert(model::texts(back_links@) =~= Seq::empty());
        let node = MemoryNode {
            id: id.clone(),
            memory_type,
            content: String::from_str(content),
            context: String::from_str(context),
            keywords: ops::clone_texts(keywords.as_slice()),
            forward_links: ops::clone_texts(related.as_slice()),
            back_links,
            source,
            access_count: 0,
            last_accessed: now,
            reward: 0x3FE0_0000_0000_0000,
        };
        let ghost shown = node@;
        self.point_at(&related, &places, raised, id.as_str());
        let ghost before = self@;
        self.nodes.insert(id.clone(), node);
        assert(self@.nodes =~= before.nodes.insert(id@, shown));
        self.insertion_order.push(id.clone());
        assert(self@.insertion_order =~= m.insertion_order.push(id@));
        assert(self@ =~= linked(m, shown, spots, raised@));
        self.make_room();
        let ghost kept = self@;
        let ghost words = model::texts(keywords@);
        let mut i: usize = 0;
        while i < keywords.len()
            invariant
                i <= keywords@.len(),
                self.wf(),
                words == model::texts(keywords@),
                self@ == (EpisodesModel {
                    keyword_index: indexed_under(kept.keyword_index, words, id@, i as nat),
                    ..kept
                }),
            decreases keywords@.len() - i,
        {
            assert(words[i as int] == keywords@[i as int]@);
            index_name(&mut self.keyword_index, keywords[i].as_str(), id.as_str());
            i = i + 1;
        }
        index_name(&mut self.type_index, key_of_type(memory_type), id.as_str());
        assert(self@ =~= encoded(m, shown, spots, raised@));
        id
    }

    /// Appends the links that lead to memories not yet visited.
    fn add_stops(
        queue: &mut Vec<(String, usize)>,
        links: &Vec<String>,
        visited: &TextSet,
        depth: usize,
    )
        requires
            visited.wf(),
        ensures
            stop_models(final(queue)@) == stop_models(old(queue)@) + next_stops(
                model::texts(links@),
                visited@,
                depth as nat,
                links@.len(),
            ),
            final(queue)@.len() >= old(queue)@.len(),
            forall|i: int|
                0 <= i < old(queue)@.len() ==> #[trigger] final(queue)@[i] == old(queue)@[i],
            forall|i: int|
                old(queue)@.len() <= i < final(queue)@.len() ==> (#[trigger] final(queue)@[i]).1
                    == depth,
    {
        let ghost start = stop_models(queue@);
        let ghost first = queue@;
        let ghost all = model::texts(links@);
        let mut i: usize = 0;
        assert(start + next_stops(all, visited@, depth as nat, 0) =~= start);
        while i < links.len()
            invariant
                i <= links@.len(),
                all == model::texts(links@),
                first.len() <= queue@.len(),
                forall|j: int| 0 <= j < first.len() ==> #[trigger] queue@[j] == first[j],
                forall|j: int|
                    first.len() <= j < queue@.len() ==> (#[trigger] queue@[j]).1 == depth,
                stop_models(queue@) == start + next_stops(all, visited@, depth as nat, i as nat),
            decreases links@.len() - i,
        {
            assert(all[i as int] == links@[i as int]@);
            if !visited.contains(links[i].as_str()) {
                let ghost before = stop_models(queue@);
                let ghost stop = (all[i as int], depth as nat);
                queue.push((links[i].clone(), depth));
                assert(stop_models(queue@) =~= before.push(stop));
                assert((start + next_stops(all, visited@, depth as nat, i as nat)).push(stop)
                    =~= start + next_stops(all, visited@, depth as nat, i as nat).push(stop));
            }
            i = i + 1;
        }
    }

    /// What the memories related to a query tell, and those that they are linked
    /// to, no farther than a given depth. `scores` says how related each memory
    /// is to the query.
    pub fn reconstruct_context(&self, scores: &Vec<i64>, max_depth: usize) -> (r: String)
        requires
            self.wf(),
            scores@.len() == self@.order.len(),
        ensures
            r@ == reconstructed(self@, scores@, max_depth as nat),
    {
        let ghost nodes = self@.nodes;
        let ghost names = self@.order;
        let ghost max = max_depth as nat;
        let places = EpisodicMemoryStore::find_related(scores);
        let seeds = self.names(&places);
        let ghost seed_names = model::texts(seeds@);
        let mut queue: Vec<(String, usize)> = Vec::new();
        assert(stop_models(queue@) =~= first_stops(seed_names).take(0));
        let mut i: usize = 0;
        while i < seeds.len()
            invariant
                i <= seeds@.len(),
                seed_names == model::texts(seeds@),
                queue@.len() == i,
                forall|j: int| 0 <= j < queue@.len() ==> (#[trigger] queue@[j]).1 == 0,
                stop_models(queue@) == first_stops(seed_names).take(i as int),
            decreases seeds@.len() - i,
        {
            let ghost before = stop_models(queue@);
            let ghost stop = (seed_names[i as int], 0nat);
            queue.push((seeds[i].clone(), 0));
            assert(stop_models(queue@) =~= before.push(stop));
            assert(first_stops(seed_names).take(i + 1) =~= first_stops(seed_names).take(
                i as int,
            ).push(stop));
            i = i + 1;
        }
        let ghost begin = first_stops(seed_names);
        assert(begin.take(begin.len() as int) =~= begin);
        let mut visited = TextSet::new();
        let mut result: Vec<String> = Vec::new();
        let mut head: usize = 0;
        let ghost all = walked(nodes, names, begin, Set::empty(), max);
        assert(stop_models(queue@).skip(0) =~= begin);
        assert(model::texts(result@) + all =~= all);
        while head < queue.len()
            invariant
                head <= queue@.len(),
                self.wf(),
                visited.wf(),
                nodes == self@.nodes,
                names == self@.order,
                max == max_depth,
                forall|j: int| 0 <= j < queue@.len() ==> (#[trigger] queue@[j]).1 <= result@.len(),
                all == model::texts(result@) + walked(
                    nodes,
                    names,
                    stop_models(queue@).skip(head as int),
                    visited@,
                    max,
                ),
            decreases unvisited(names, visited@), queue@.len() - head,
        {
            let ghost stops = stop_models(queue@).skip(head as int);
            let ghost rest = stop_models(queue@).skip(head + 1);
            assert(stops.skip(1) =~= rest);
            let id = queue[head].0.clone();
            let depth: usize = queue[head].1;
            assert(stops[0] == (id@, depth as nat));
            head = head + 1;
            let ghost earlier = visited@;
            let ghost told_before = model::texts(result@);
            if !visited.contains(id.as_str()) && depth <= max_depth {
                proof {
                    lemma_unvisited(names, earlier, id@);
                    self.nodes.lemma_order(id@);
                }
                visited.insert(id.clone());
                if let Some(node) = self.nodes.get(id.as_str()) {
                    assert(nodes[id@] == node@);
                    let line = tell(node);
                    let ghost shown = line@;
                    result.push(line);
                    assert(model::texts(result@) =~= told_before.push(shown));
                    let size: usize = result.len();
                    assert(depth < size);
                    let next: usize = depth + 1;
                    let ghost q0 = stop_models(queue@);
                    EpisodicMemoryStore::add_stops(
                        &mut queue,
                        &node.forward_links,
                        &visited,
                        next,
                    );
                    EpisodicMemoryStore::add_stops(&mut queue, &node.back_links, &visited, next);
                    proof {
                        let a = next_stops(
                            node@.forward_links,
                            visited@,
                            (depth + 1) as nat,
                            node@.forward_links.len(),
                        );
                        let b = next_stops(
                            node@.back_links,
                            visited@,
                            (depth + 1) as nat,
                            node@.back_links.len(),
                        );
                        assert(stop_models(queue@) =~= q0 + (a + b));
                        assert(stop_models(queue@).skip(head as int) =~= rest + (a + b));
                        let after = walked(nodes, names, rest + (a + b), visited@, max);
                        assert(walked(nodes, names, stops, earlier, max) == seq![shown] + after);
                        assert(told_before + (seq![shown] + after) =~= told_before.push(shown)
                            + after);
                    }
                } else {
                    assert(walked(nodes, names, stops, earlier, max) == walked(
                        nodes,
                        names,
                        rest,
                        visited@,
                        max,
                    ));
                }
            }
        }
        assert(stop_models(queue@).skip(head as int) =~= Seq::empty());
        assert(model::texts(result@) + Seq::empty() =~= model::texts(result@));
        ops::join_texts(result.as_slice(), "\n")
    }

    /// Notes how useful a memory was: its new reward, one more use, and the
    /// moment.
    pub fn annotate_reward(&mut self, memory_id: &str, reward: i64, now: i64)
        requires
            old(self).wf(),
            old(self)@.nodes.contains_key(memory_id@) ==> old(
                self,
            )@.nodes[memory_id@].access_count < u64::MAX,
        ensures
            final(self).wf(),
            final(self)@ == ({
                let m = old(self)@;
                if m.nodes.contains_key(memory_id@) {
                    let n = m.nodes[memory_id@];
                    EpisodesModel {
                        nodes: m.nodes.insert(
                            memory_id@,
                            NodeModel {
                                reward: reward,
                                access_count: (n.access_count + 1) as u64,
                                last_accessed: now,
                                ..n
                            },
                        ),
                        ..m
                    }
                } else {
                    m
                }
            }),
    {
        let changed: Option<MemoryNode> = match self.nodes.get(memory_id) {
            Some(node) => {
                let mut n = node.clone();
                assert(n@ == self@.nodes[memory_id@]);
                n.reward = reward;
                n.access_count = n.access_count + 1;
                n.last_accessed = now;
                Some(n)
            },
            None => None,
        };
        if let Some(n) = changed {
            self.replace(memory_id, n);
        }
    }

    /// The pairs of memories that are to become one.
    fn find_pairs(&self, low: i64, alike: &Vec<Vec<bool>>) -> (r: Vec<(String, String)>)
        requires
            self.wf(),
            alike@.len() == self@.order.len(),
            forall|i: int|
                0 <= i < alike@.len() ==> (#[trigger] alike@[i])@.len() == self@.order.len(),
        ensures
            pair_models(r@) == pairs_upto(self@, low, alike@, self@.order.len()),
    {
        let ghost m = self@;
        let n: usize = self.nodes.len();
        let mut out: Vec<(String, String)> = Vec::new();
        assert(pair_models(out@) =~= Seq::empty());
        let mut i: usize = 0;
        while i < n
            invariant
                i <= n,
                n == m.order.len(),
                m == self@,
                self.wf(),
                alike@.len() == n,
                forall|k: int| 0 <= k < alike@.len() ==> (#[trigger] alike@[k])@.len() == n,
                pair_models(out@) == pairs_upto(m, low, alike@, i as nat),
            decreases n - i,
        {
            let ghost start = pair_models(out@);
            let a = self.nodes.value_at(i);
            assert(m.nodes[m.order[i as int]] == a@);
            let mut j: usize = i + 1;
            assert(start + pairs_of(m, low, alike@, i as int, j as nat) =~= start);
            while j < n
                invariant
                    i < j <= n,
                    n == m.order.len(),
                    m == self@,
                    self.wf(),
                    alike@.len() == n,
                    forall|k: int| 0 <= k < alike@.len() ==> (#[trigger] alike@[k])@.len() == n,
                    a@ == m.nodes[m.order[i as int]],
                    pair_models(out@) == start + pairs_of(m, low, alike@, i as int, j as nat),
                decreases n - j,
            {
                let b = self.nodes.value_at(j);
                assert(m.nodes[m.order[j as int]] == b@);
                assert(alike@[i as int]@.len() == n);
                let same = a.memory_type == b.memory_type;
                if same && a.reward < low && b.reward < low && alike[i][j] {
                    let ghost before = pair_models(out@);
                    let ghost pair = (a@.id, b@.id);
                    out.push((a.id.clone(), b.id.clone()));
                    assert(pair_models(out@) =~= before.push(pair));
                    assert((start + pairs_of(m, low, alike@, i as int, j as nat)).push(pair)
                        =~= start + pairs_of(m, low, alike@, i as int, j as nat).push(pair));
                }
                j = j + 1;
            }
            i = i + 1;
        }
        out
    }

    /// Lets memories that are not useful become one where they are alike, and
    /// says how often that happened. `low` is the reward below which a memory is
    /// not useful, and `alike` says of each two memories, by their places,
    /// whether they are alike.
    pub fn merge_similar(&mut self, low: i64, alike: &Vec<Vec<bool>>) -> (r: usize)
        requires
            old(self).wf(),
            alike@.len() == old(self)@.order.len(),
            forall|i: int|
                0 <= i < alike@.len() ==> (#[trigger] alike@[i])@.len() == old(self)@.order.len(),
        ensures
            final(self).wf(),
            ({
                let m = old(self)@;
                let pairs = pairs_upto(m, low, alike@, m.order.len());
                let s = merged_pairs(
                    Merging { nodes: m.nodes, order: m.order, merged: 0 },
                    pairs,
                    pairs.len(),
                );
                &&& final(self)@ == (EpisodesModel { nodes: s.nodes, order: s.order, ..m })
                &&& r == s.merged
            }),
    {
        let ghost m = self@;
        let pairs = self.find_pairs(low, alike);
        let ghost all = pair_models(pairs@);
        let ghost start = Merging { nodes: m.nodes, order: m.order, merged: 0 };
        let mut merged: usize = 0;
        let mut i: usize = 0;
        while i < pairs.len()
            invariant
                i <= pairs@.len(),
                self.wf(),
                all == pair_models(pairs@),
                merged <= i,
                merged_pairs(start, all, i as nat) == (Merging {
                    nodes: self@.nodes,
                    order: self@.order,
                    merged: merged as nat,
                }),
                self@ == (EpisodesModel { nodes: self@.nodes, order: self@.order, ..m }),
            decreases pairs@.len() - i,
        {
            let ghost s = self@;
            let ghost p = all[i as int];
            assert(p == (pairs@[i as int].0@, pairs@[i as int].1@));
            let (first, second) = (pairs[i].0.as_str(), pairs[i].1.as_str());
            if self.nodes.contains_key(first) && self.nodes.contains_key(second)
                && !ops::same_text(first, second) {
                let a = self.nodes.remove(first);
                assert(self@.nodes =~= s.nodes.remove(p.0));
                let b = self.nodes.remove(second);
                assert(self@.nodes =~= s.nodes.remove(p.0).remove(p.1));
                let ghost two = self@.nodes;
                if let (Some(x), Some(y)) = (a, b) {
                    assert(x@ == s.nodes[p.0]);
                    assert(y@ == s.nodes[p.1]);
                    let node = join_nodes(x, y);
                    let ghost shown = node@;
                    let id = node.id.clone();
                    self.nodes.insert(id, node);
                    assert(self@.nodes =~= two.insert(shown.id, shown));
                    merged = merged + 1;
                }
            }
            i = i + 1;
        }
        merged
    }

    /// Gives up the memories that are neither useful nor were used lately, and
    /// says how many they were. `now` is the moment, in seconds.
    pub fn prune(&mut self, min_reward: i64, max_age_days: i64, now: i64) -> (r: usize)
        requires
            old(self).wf(),
        ensures
            final(self).wf(),
            ({
                let m = old(self)@;
                let kept = survivors(m, min_reward, max_age_days, now);
                &&& final(self)@ == (EpisodesModel {
                    nodes: m.nodes.restrict(kept.to_set()),
                    order: kept,
                    ..m
                })
                &&& r == m.order.len() - kept.len()
            }),
    {
        let ghost m = self@;
        let ghost f = |k: Seq<char>| survives(m.nodes[k], min_reward, max_age_days, now);
        let n: usize = self.nodes.len();
        let mut kept: TextMap<MemoryNode> = TextMap::new();
        proof {
            reveal(Seq::filter);
        }
        assert(m.order.take(0).filter(f) =~= Seq::empty());
        assert(shown_nodes(kept@) =~= m.nodes.restrict(kept.order().to_set()));
        let mut i: usize = 0;
        while i < n
            invariant
                i <= n,
                n == m.order.len(),
                m == self@,
                self.wf(),
                kept.wf(),
                f == (|k: Seq<char>| survives(m.nodes[k], min_reward, max_age_days, now)),
                kept.order() == m.order.take(i as int).filter(f),
                kept.order().len() <= i,
                shown_nodes(kept@) == m.nodes.restrict(kept.order().to_set()),
            decreases n - i,
        {
            proof {
                reveal(Seq::filter);
                self.nodes.lemma_order(m.order[i as int]);
            }
            let ghost k = m.order[i as int];
            assert(m.order.take(i + 1).drop_last() =~= m.order.take(i as int));
            assert(m.order.take(i + 1).last() == k);
            let node = self.nodes.value_at(i);
            assert(m.nodes[k] == node@);
            if node.reward >= min_reward || days(node.last_accessed, now) <= max_age_days as i128 {
                let ghost before = kept.order();
                let ghost shown = shown_nodes(kept@);
                assert(!before.contains(k)) by {
                    if before.contains(k) {
                        lemma_filter_source(m.order.take(i as int), f, k);
                        let j = m.order.take(i as int).index_of(k);
                        assert(m.order[j] == m.order[i as int]);
                    }
                }
                let copy = node.clone();
                kept.insert(self.nodes.key_at(i).clone(), copy);
                assert(kept.order() =~= before.push(k));
                proof {
                    assert forall|x: Seq<char>| kept.order().to_set().contains(x)
                        <==> before.to_set().insert(k).contains(x) by {
                        if before.contains(x) {
                            let j = before.index_of(x);
                            assert(kept.order()[j] == x);
                        }
                        assert(kept.order()[before.len() as int] == k);
                    }
                    assert(kept.order().to_set() =~= before.to_set().insert(k));
                    assert(shown_nodes(kept@) =~= shown.insert(k, node@));
                    assert(m.nodes.contains_key(k));
                    assert(shown_nodes(kept@) =~= m.nodes.restrict(kept.order().to_set()));
                }
            }
            i = i + 1;
        }
        assert(m.order.take(n as int) =~= m.order);
        let left: usize = kept.len();
        self.nodes = kept;
        n - left
    }

    /// How many memories there are of each kind: facts, events and skills.
    pub fn stats(&self) -> (r: (usize, usize, usize))
        requires
            self.wf(),
        ensures
            r.0 == count_of(self@, MemoryType::Semantic, self@.order.len()),
            r.1 == count_of(self@, MemoryType::Episodic, self@.order.len()),
            r.2 == count_of(self@, MemoryType::Procedural, self@.order.len()),
    {
        let ghost m = self@;
        let n: usize = self.nodes.len();
        let mut a: usize = 0;
        let mut b: usize = 0;
        let mut c: usize = 0;
        let mut i: usize = 0;
        while i < n
            invariant
                i <= n,
                n == m.order.len(),
                m == self@,
                self.wf(),
                a <= i,
                b <= i,
                c <= i,
                a == count_of(m, MemoryType::Semantic, i as nat),
                b == count_of(m, MemoryType::Episodic, i as nat),
                c == count_of(m, MemoryType::Procedural, i as nat),
            decreases n - i,
        {
            let node = self.nodes.value_at(i);
            assert(m.nodes[m.order[i as int]] == node@);
            match node.memory_type {
                MemoryType::Semantic => {
                    a = a + 1;
                },
                MemoryType::Episodic => {
                    b = b + 1;
                },
                MemoryType::Procedural => {
                    c = c + 1;
                },
            }
            i = i + 1;
        }
        (a, b, c)
    }
}

proof fn lemma_filter_source(v: Seq<Seq<char>>, f: spec_fn(Seq<char>) -> bool, x: Seq<char>)
    requires
        v.filter(f).contains(x),
    ensures
        v.contains(x),
    decreases v.len(),
{
    reveal(Seq::filter);
    if v.len() > 0 {
        let w = v.drop_last();
        if w.filter(f).contains(x) {
            lemma_filter_source(w, f, x);
            let i = w.index_of(x);
            assert(v[i] == x);
        } else {
            let i = v.filter(f).index_of(x);
            if i < w.filter(f).len() {
                assert(w.filter(f)[i] == x);
            }
            assert(v.last() == x);
            assert(v[v.len() - 1] == x);
        }
    } else {
        assert(v.filter(f) =~= Seq::empty());
    }
}

/// Links lead both ways: a memory points at another just where the other has a
/// link back.
pub open spec fn mutual(nodes: Nodes) -> bool {
    forall|a: Seq<char>, b: Seq<char>|
        #![trigger nodes[a].forward_links.contains(b)]
        #![trigger nodes[b].back_links.contains(a)]
        nodes.contains_key(a) && nodes.contains_key(b) ==> (nodes[a].forward_links.contains(b)
            <==> nodes[b].back_links.contains(a))
}

/// No link leads to a name.
pub open spec fn unlinked(nodes: Nodes, id: Seq<char>) -> bool {
    forall|a: Seq<char>| #[trigger]
        nodes.contains_key(a) ==> !nodes[a].forward_links.contains(id)
            && !nodes[a].back_links.contains(id)
}

proof fn lemma_pointed_at(
    nodes: Nodes,
    order: Seq<Seq<char>>,
    places: Seq<int>,
    raised: Seq<i64>,
    id: Seq<char>,
    n: nat,
)
    requires
        n <= places.len(),
        unlinked(nodes, id),
    ensures
        ({
            let w = pointed_at(nodes, order, places, raised, id, n);
            &&& w.dom() == nodes.dom()
            &&& forall|b: Seq<char>| #[trigger]
                w.contains_key(b) ==> {
                    &&& w[b].forward_links == nodes[b].forward_links
                    &&& forall|x: Seq<char>|
                        x != id ==> (#[trigger] w[b].back_links.contains(x)
                            <==> nodes[b].back_links.contains(x))
                    &&& w[b].back_links.contains(id) <==> names_at(order, places.take(n as int)).contains(
                        b,
                    )
                }
        }),
    decreases n,
{
    let w = pointed_at(nodes, order, places, raised, id, n);
    if n == 0 {
        assert(names_at(order, places.take(0)) =~= Seq::empty());
    } else {
        let before = pointed_at(nodes, order, places, raised, id, (n - 1) as nat);
        lemma_pointed_at(nodes, order, places, raised, id, (n - 1) as nat);
        let k = order[places[n - 1]];
        let s = names_at(order, places.take(n - 1));
        let t = names_at(order, places.take(n as int));
        assert(t =~= s.push(k));
        assert(w.dom() =~= nodes.dom());
        assert forall|b: Seq<char>| #[trigger] w.contains_key(b) implies {
            &&& w[b].forward_links == nodes[b].forward_links
            &&& forall|x: Seq<char>|
                x != id ==> (#[trigger] w[b].back_links.contains(x)
                    <==> nodes[b].back_links.contains(x))
            &&& w[b].back_links.contains(id) <==> t.contains(b)
        } by {
            assert(before.contains_key(b));
            if s.contains(b) {
                let i = s.index_of(b);
                assert(t[i] == b);
            }
            assert(t[s.len() as int] == k);
            if b == k {
                let old_links = before[b].back_links;
                let links = w[b].back_links;
                assert(links == old_links.push(id));
                assert(links[old_links.len() as int] == id);
                assert forall|x: Seq<char>| x != id implies (#[trigger] links.contains(x)
                    <==> nodes[b].back_links.contains(x)) by {
                    if old_links.contains(x) {
                        let i = old_links.index_of(x);
                        assert(links[i] == x);
                    }
                    if links.contains(x) {
                        let i = links.index_of(x);
                        assert(old_links[i] == x);
                    }
                }
            } else {
                if t.contains(b) {
                    let i = t.index_of(b);
                    assert(s[i] == b);
                }
            }
        }
    }
}

/// A new memory and those that it is linked to point at each other, and so do all
/// others as before.
pub proof fn law_links_are_mutual(
    m: EpisodesModel,
    node: NodeModel,
    places: Seq<int>,
    raised: Seq<i64>,
)
    requires
        mutual(m.nodes),
        unlinked(m.nodes, node.id),
        !m.nodes.contains_key(node.id),
        node.forward_links == names_at(m.order, places),
        node.back_links.len() == 0,
        forall|i: int|
            0 <= i < node.forward_links.len() ==> m.nodes.contains_key(
                #[trigger] node.forward_links[i],
            ),
    ensures
        mutual(linked(m, node, places, raised).nodes),
        forall|i: int|
            0 <= i < node.forward_links.len() ==> linked(m, node, places, raised).nodes[
            #[trigger] node.forward_links[i]].back_links.contains(node.id),
{
    let id = node.id;
    let w = pointed_at(m.nodes, m.order, places, raised, id, places.len());
    let r = linked(m, node, places, raised).nodes;
    lemma_pointed_at(m.nodes, m.order, places, raised, id, places.len());
    assert(places.take(places.len() as int) =~= places);
    assert(!node.forward_links.contains(id)) by {
        if node.forward_links.contains(id) {
            let i = node.forward_links.index_of(id);
            assert(m.nodes.contains_key(node.forward_links[i]));
        }
    }
    assert forall|a: Seq<char>, b: Seq<char>| r.contains_key(a) && r.contains_key(b) implies (
    #[trigger] r[a].forward_links.contains(b) <==> #[trigger] r[b].back_links.contains(a)) by {
        if a == id {
            if b != id {
                assert(w.contains_key(b));
            }
        } else {
            assert(w.contains_key(a));
            assert(m.nodes.contains_key(a));
            if b == id {
                assert(!m.nodes[a].forward_links.contains(id));
            } else {
                assert(w.contains_key(b));
                assert(m.nodes.contains_key(b));
                assert(m.nodes[a].forward_links.contains(b) <==> m.nodes[b].back_links.contains(a));
            }
        }
    }
    assert forall|i: int| 0 <= i < node.forward_links.len() implies r[
    #[trigger] node.forward_links[i]].back_links.contains(id) by {
        let b = node.forward_links[i];
        assert(m.nodes.contains_key(b));
        assert(w.contains_key(b));
        assert(node.forward_links.contains(b));
    }
}

proof fn lemma_without(v: Seq<Seq<char>>, id: Seq<char>)
    ensures
        !without_name(v, id).contains(id),
        forall|x: Seq<char>|
            x != id ==> (#[trigger] without_name(v, id).contains(x) <==> v.contains(x)),
    decreases v.len(),
{
    reveal(Seq::filter);
    if v.len() > 0 {
        let u = v.drop_last();
        lemma_without(u, id);
        let a = without_name(u, id);
        let b = without_name(v, id);
        assert(v =~= u.push(v.last()));
        assert forall|x: Seq<char>| #[trigger] b.contains(x) <==> (x != id && v.contains(x)) by {
            if u.contains(x) {
                let i = u.index_of(x);
                assert(v[i] == x);
            }
            if v.contains(x) {
                let i = v.index_of(x);
                if i < u.len() {
                    assert(u[i] == x);
                }
            }
            assert(v[u.len() as int] == v.last());
            if v.last() != id {
                assert(b == a.push(v.last()));
                assert(b[a.len() as int] == v.last());
                if a.contains(x) {
                    let i = a.index_of(x);
                    assert(b[i] == x);
                }
                if b.contains(x) {
                    let i = b.index_of(x);
                    if i < a.len() {
                        assert(a[i] == x);
                    }
                }
            }
        }
    } else {
        assert(without_name(v, id) =~= Seq::empty());
    }
}

proof fn lemma_back_cut(nodes: Nodes, names: Seq<Seq<char>>, id: Seq<char>, n: nat)
    requires
        n <= names.len(),
    ensures
        ({
            let w = back_cut(nodes, names, id, n);
            &&& w.dom() == nodes.dom()
            &&& forall|b: Seq<char>| #[trigger]
                w.contains_key(b) ==> {
                    &&& w[b].forward_links == nodes[b].forward_links
                    &&& forall|x: Seq<char>|
                        x != id ==> (#[trigger] w[b].back_links.contains(x)
                            <==> nodes[b].back_links.contains(x))
                    &&& w[b].back_links.contains(id) <==> nodes[b].back_links.contains(id)
                        && !names.take(n as int).contains(b)
                }
        }),
    decreases n,
{
    let w = back_cut(nodes, names, id, n);
    if n > 0 {
        let before = back_cut(nodes, names, id, (n - 1) as nat);
        lemma_back_cut(nodes, names, id, (n - 1) as nat);
        let k = names[n - 1];
        let s = names.take(n - 1);
        let t = names.take(n as int);
        assert(t =~= s.push(k));
        assert(w.dom() =~= nodes.dom());
        assert forall|b: Seq<char>| #[trigger] w.contains_key(b) implies {
            &&& w[b].forward_links == nodes[b].forward_links
            &&& forall|x: Seq<char>|
                x != id ==> (#[trigger] w[b].back_links.contains(x)
                    <==> nodes[b].back_links.contains(x))
            &&& w[b].back_links.contains(id) <==> nodes[b].back_links.contains(id) && !t.contains(b)
        } by {
            assert(before.contains_key(b));
            lemma_without(before[b].back_links, id);
            if s.contains(b) {
                let i = s.index_of(b);
                assert(t[i] == b);
            }
            assert(t[s.len() as int] == k);
            if b != k && t.contains(b) {
                let i = t.index_of(b);
                assert(s[i] == b);
            }
        }
    }
}

proof fn lemma_forward_cut(nodes: Nodes, names: Seq<Seq<char>>, id: Seq<char>, n: nat)
    requires
        n <= names.len(),
    ensures
        ({
            let w = forward_cut(nodes, names, id, n);
            &&& w.dom() == nodes.dom()
            &&& forall|b: Seq<char>| #[trigger]
                w.contains_key(b) ==> {
                    &&& w[b].back_links == nodes[b].back_links
                    &&& forall|x: Seq<char>|
                        x != id ==> (#[trigger] w[b].forward_links.contains(x)
                            <==> nodes[b].forward_links.contains(x))
                    &&& w[b].forward_links.contains(id) <==> nodes[b].forward_links.contains(id)
                        && !names.take(n as int).contains(b)
                }
        }),
    decreases n,
{
    let w = forward_cut(nodes, names, id, n);
    if n > 0 {
        let before = forward_cut(nodes, names, id, (n - 1) as nat);
        lemma_forward_cut(nodes, names, id, (n - 1) as nat);
        let k = names[n - 1];
        let s = names.take(n - 1);
        let t = names.take(n as int);
        assert(t =~= s.push(k));
        assert(w.dom() =~= nodes.dom());
        assert forall|b: Seq<char>| #[trigger] w.contains_key(b) implies {
            &&& w[b].back_links == nodes[b].back_links
            &&& forall|x: Seq<char>|
                x != id ==> (#[trigger] w[b].forward_links.contains(x)
                    <==> nodes[b].forward_links.contains(x))
            &&& w[b].forward_links.contains(id) <==> nodes[b].forward_links.contains(id)
                && !t.contains(b)
        } by {
            assert(before.contains_key(b));
            lemma_without(before[b].forward_links, id);
            if s.contains(b) {
                let i = s.index_of(b);
                assert(t[i] == b);
            }
            assert(t[s.len() as int] == k);
            if b != k && t.contains(b) {
                let i = t.index_of(b);
                assert(s[i] == b);
            }
        }
    }
}

/// After a memory was given up no link leads to it, and the other links lead both
/// ways as before.
pub proof fn law_evicted_memory_is_unlinked(nodes: Nodes, id: Seq<char>)
    requires
        mutual(nodes),
        nodes.contains_key(id),
    ensures
        !nodes_without(nodes, id).contains_key(id),
        mutual(nodes_without(nodes, id)),
        unlinked(nodes_without(nodes, id), id),
{
    let gone = nodes[id];
    let p = nodes.remove(id);
    let a = back_cut(p, gone.forward_links, id, gone.forward_links.len());
    let r = nodes_without(nodes, id);
    lemma_back_cut(p, gone.forward_links, id, gone.forward_links.len());
    lemma_forward_cut(a, gone.back_links, id, gone.back_links.len());
    assert(gone.forward_links.take(gone.forward_links.len() as int) =~= gone.forward_links);
    assert(gone.back_links.take(gone.back_links.len() as int) =~= gone.back_links);
    assert forall|x: Seq<char>| #[trigger] r.contains_key(x) implies a.contains_key(x)
        && p.contains_key(x) && x != id by {}
    assert forall|x: Seq<char>, y: Seq<char>| r.contains_key(x) && r.contains_key(y) implies (
    #[trigger] r[x].forward_links.contains(y) <==> #[trigger] r[y].back_links.contains(x)) by {
        assert(a.contains_key(x) && a.contains_key(y));
        assert(nodes.contains_key(x) && nodes.contains_key(y));
        assert(nodes[x].forward_links.contains(y) <==> nodes[y].back_links.contains(x));
    }
    assert forall|x: Seq<char>| #[trigger] r.contains_key(x) implies !r[x].forward_links.contains(id)
        && !r[x].back_links.contains(id) by {
        assert(a.contains_key(x));
        assert(nodes.contains_key(x));
        assert(nodes[x].forward_links.contains(id) <==> gone.back_links.contains(x));
        assert(gone.forward_links.contains(x) <==> nodes[x].back_links.contains(id));
    }
}

/// No more memories are remembered than allowed.
pub proof fn law_capacity_is_kept(m: EpisodesModel)
    ensures
        within_capacity(m).insertion_order.len() <= m.max_memories,
        within_capacity(m).max_memories == m.max_memories,
    decreases m.insertion_order.len(),
{
    if m.insertion_order.len() > m.max_memories {
        law_capacity_is_kept(
            EpisodesModel {
                insertion_order: m.insertion_order.skip(1),
                ..evicted(m, m.insertion_order[0])
            },
        );
    }
}

/// Each memory is kept under its own name.
pub open spec fn named(nodes: Nodes) -> bool {
    forall|k: Seq<char>| #[trigger] nodes.contains_key(k) ==> nodes[k].id == k
}

/// Some memory holds a text.
pub open spec fn recalled(nodes: Nodes, text: Seq<char>) -> bool {
    exists|k: Seq<char>| #[trigger] nodes.contains_key(k) && model::contains(nodes[k].content, text)
}

/// When two memories become one, what each says is kept.
proof fn lemma_pair_keeps(s: Merging, p: Pair, text: Seq<char>)
    requires
        named(s.nodes),
        recalled(s.nodes, text),
    ensures
        named(merged_pair(s, p).nodes),
        recalled(merged_pair(s, p).nodes, text),
{
    let k = choose|k: Seq<char>|
        #[trigger] s.nodes.contains_key(k) && model::contains(s.nodes[k].content, text);
    let after = merged_pair(s, p).nodes;
    if s.nodes.contains_key(p.0) && s.nodes.contains_key(p.1) && p.0 != p.1 {
        let (a, b) = (s.nodes[p.0], s.nodes[p.1]);
        let j = joined(a, b);
        let (keeper, other) = if a.reward >= b.reward {
            (a, b)
        } else {
            (b, a)
        };
        assert(after.contains_key(j.id) && after[j.id] == j);
        if k == p.0 || k == p.1 {
            if s.nodes[k] == keeper {
                lemmas::lemma_contains_within(
                    Seq::empty(),
                    keeper.content,
                    "\n---\n"@ + other.content,
                    text,
                );
                assert(Seq::<char>::empty() + keeper.content + ("\n---\n"@ + other.content)
                    =~= j.content);
            } else {
                lemmas::lemma_contains_within(
                    keeper.content + "\n---\n"@,
                    other.content,
                    Seq::empty(),
                    text,
                );
                assert((keeper.content + "\n---\n"@) + other.content + Seq::<char>::empty()
                    =~= j.content);
            }
        } else {
            assert(after.contains_key(k) && after[k] == s.nodes[k]);
        }
    }
}

/// Merging loses no memory: what a memory has said is said by a memory afterwards.
pub proof fn law_merging_loses_nothing(s: Merging, pairs: Seq<Pair>, n: nat, text: Seq<char>)
    requires
        named(s.nodes),
        recalled(s.nodes, text),
    ensures
        named(merged_pairs(s, pairs, n).nodes),
        recalled(merged_pairs(s, pairs, n).nodes, text),
    decreases n,
{
    if n > 0 {
        law_merging_loses_nothing(s, pairs, (n - 1) as nat, text);
        lemma_pair_keeps(merged_pairs(s, pairs, (n - 1) as nat), pairs[n - 1], text);
    }
}

/// A search for related memories tells at most five different ones that score above a
/// tenth, the best first; none that scores above a tenth is left out for a worse one, nor
/// where fewer were found.
pub proof fn law_most_related_are_found(scores: Seq<i64>)
    ensures
        ({
            let r = most_related(scores);
            &&& r.len() <= 5
            &&& r.no_duplicates()
            &&& forall|i: int|
                0 <= i < r.len() ==> 0 <= #[trigger] r[i] < scores.len() && scores[r[i]]
                    > 0x3FB9_9999_9999_999A
            &&& forall|i: int, j: int|
                0 <= i < j < r.len() ==> scores[#[trigger] r[i]] >= scores[#[trigger] r[j]]
            &&& forall|p: int|
                0 <= p < scores.len() && scores[p] > 0x3FB9_9999_9999_999A
                    && !#[trigger] r.contains(p) ==> r.len() == 5 && forall|i: int|
                    0 <= i < r.len() ==> scores[#[trigger] r[i]] >= scores[p]
        }),
{
    let places = related_places(scores, scores.len());
    let keys = places.map_values(|p: int| scores[p]);
    let chosen = rank::first_of(rank::descending(keys), 5);
    let r = most_related(scores);
    lemma_related_places(scores, scores.len());
    rank::law_best_are_chosen(keys, 5);
    assert forall|i: int| 0 <= i < r.len() implies 0 <= #[trigger] r[i] < scores.len() && scores[r[i]]
        > 0x3FB9_9999_9999_999A by {
        assert(0 <= chosen[i] < keys.len());
        assert(r[i] == places[chosen[i]]);
    }
    assert forall|i: int, j: int| 0 <= i < j < r.len() implies scores[#[trigger] r[i]] >= scores[
    #[trigger] r[j]] by {
        assert(keys[chosen[i]] >= keys[chosen[j]]);
        assert(0 <= chosen[i] < keys.len() && 0 <= chosen[j] < keys.len());
    }
    assert forall|i: int, j: int| 0 <= i < j < r.len() implies r[i] != r[j] by {
        assert(0 <= chosen[i] < keys.len() && 0 <= chosen[j] < keys.len());
        assert(chosen[i] != chosen[j]);
    }
    assert forall|p: int|
        0 <= p < scores.len() && scores[p] > 0x3FB9_9999_9999_999A && !#[trigger] r.contains(
            p,
        ) implies r.len() == 5 && forall|i: int|
        0 <= i < r.len() ==> scores[#[trigger] r[i]] >= scores[p] by {
        assert(places.contains(p));
        let y = choose|y: int| 0 <= y < places.len() && places[y] == p;
        if chosen.contains(y) {
            let x = choose|x: int| 0 <= x < chosen.len() && chosen[x] == y;
            assert(r[x] == p);
        }
        assert(!chosen.contains(y));
        if keys.len() <= 5 {
            rank::law_descending(keys);
            assert(rank::descending(keys).contains(y));
        }
        assert forall|i: int| 0 <= i < r.len() implies scores[#[trigger] r[i]] >= scores[p] by {
            assert(keys[chosen[i]] >= keys[y]);
            assert(0 <= chosen[i] < keys.len());
        }
    }
}

proof fn lemma_related_places(scores: Seq<i64>, n: nat)
    requires
        n <= scores.len(),
    ensures
        ({
            let r = related_places(scores, n);
            &&& r.no_duplicates()
            &&& forall|i: int|
                0 <= i < r.len() ==> 0 <= #[trigger] r[i] < n && scores[r[i]]
                    > 0x3FB9_9999_9999_999A
            &&& forall|p: int|
                0 <= p < n && scores[p] > 0x3FB9_9999_9999_999A ==> #[trigger] r.contains(p)
        }),
    decreases n,
{
    if n > 0 {
        lemma_related_places(scores, (n - 1) as nat);
        let a = related_places(scores, (n - 1) as nat);
        let r = related_places(scores, n);
        assert forall|p: int|
            0 <= p < n && scores[p] > 0x3FB9_9999_9999_999A implies #[trigger] r.contains(p) by {
            if p < n - 1 {
                assert(a.contains(p));
                let y = choose|y: int| 0 <= y < a.len() && a[y] == p;
                assert(r[y] == p);
            } else {
                assert(r[a.len() as int] == p);
            }
        }
    }
}

/// A name tells the moment and the count, and two counts never give the same name at one
/// moment.
pub proof fn law_names_tell_moment_and_count(millis: u64, counter: u64, other: u64)
    ensures
        new_id(millis, counter) == "mem_"@ + model::decimal(millis as nat) + "_"@ + model::decimal(
            counter as nat,
        ),
        new_id(millis, counter) == new_id(millis, other) ==> counter == other,
{
    let head = "mem_"@ + model::decimal(millis as nat) + "_"@;
    let a = new_id(millis, counter);
    let b = new_id(millis, other);
    assert(a.skip(head.len() as int) =~= model::decimal(counter as nat));
    assert(b.skip(head.len() as int) =~= model::decimal(other as nat));
    number::law_decimal_is_read_back(counter as nat);
    number::law_decimal_is_read_back(other as nat);
}

/// A new memory holds what it was given, points at the related ones, and begins with a
/// reward of a half and no access.
pub proof fn law_new_memory_holds_what_it_was_given(
    id: Seq<char>,
    memory_type: MemoryType,
    content: Seq<char>,
    context: Seq<char>,
    keywords: Seq<Seq<char>>,
    source: SourceModel,
    related: Seq<Seq<char>>,
    now: i64,
)
    ensures
        ({
            let n = new_node(id, memory_type, content, context, keywords, source, related, now);
            &&& n.id == id && n.memory_type == memory_type && n.content == content && n.context
                == context
            &&& n.keywords == keywords && n.source == source
            &&& n.forward_links == related && n.back_links.len() == 0
            &&& n.access_count == 0 && n.last_accessed == now && n.reward == 0x3FE0_0000_0000_0000
        }),
{
}

/// A memory that is encoded while there is room stands among the memories, under each of
/// its keywords and under its kind, and no other is lost.
pub proof fn law_encoded_memory_is_kept(
    m: EpisodesModel,
    node: NodeModel,
    places: Seq<int>,
    raised: Seq<i64>,
    i: int,
    k: Seq<char>,
)
    requires
        m.insertion_order.len() < m.max_memories,
    ensures
        ({
            let e = encoded(m, node, places, raised);
            &&& e.nodes.contains_key(node.id) && e.nodes[node.id] == node
            &&& e.order.contains(node.id)
            &&& e.insertion_order == m.insertion_order.push(node.id)
            &&& m.counter < u64::MAX ==> e.counter == m.counter + 1
            &&& 0 <= i < node.keywords.len() ==> e.keyword_index.contains_key(node.keywords[i])
                && e.keyword_index[node.keywords[i]].contains(node.id)
            &&& e.type_index.contains_key(type_key(node.memory_type))
            &&& e.type_index[type_key(node.memory_type)].contains(node.id)
            &&& m.nodes.contains_key(k) ==> e.nodes.contains_key(k)
            &&& m.nodes.contains_key(k) && k != node.id ==> e.nodes[k].content == m.nodes[k].content
        }),
{
    let l = linked(m, node, places, raised);
    let e = encoded(m, node, places, raised);
    assert(within_capacity(l) == l);
    lemma_pointed_nodes_stay(m.nodes, m.order, places, raised, node.id, places.len(), k);
    if m.order.contains(node.id) {
    } else {
        assert(l.order[m.order.len() as int] == node.id);
    }
    lemma_indexed_under(l.keyword_index, node.keywords, node.id, node.keywords.len(), i);
    let t = e.type_index[type_key(node.memory_type)];
    assert(t.last() == node.id);
    assert(t[t.len() - 1] == node.id);
}

proof fn lemma_pointed_nodes_stay(
    nodes: Nodes,
    order: Seq<Seq<char>>,
    places: Seq<int>,
    raised: Seq<i64>,
    id: Seq<char>,
    n: nat,
    k: Seq<char>,
)
    ensures
        ({
            let w = pointed_at(nodes, order, places, raised, id, n);
            &&& w.contains_key(k) <==> nodes.contains_key(k)
            &&& nodes.contains_key(k) ==> w[k].content == nodes[k].content && w[k].id
                == nodes[k].id && w[k].forward_links == nodes[k].forward_links && w[k].keywords
                == nodes[k].keywords && w[k].memory_type == nodes[k].memory_type
        }),
    decreases n,
{
    if n > 0 {
        lemma_pointed_nodes_stay(nodes, order, places, raised, id, (n - 1) as nat, k);
    }
}

proof fn lemma_indexed_under(m: Index, keys: Seq<Seq<char>>, id: Seq<char>, n: nat, i: int)
    requires
        n <= keys.len(),
    ensures
        0 <= i < n ==> indexed_under(m, keys, id, n).contains_key(keys[i]) && indexed_under(
            m,
            keys,
            id,
            n,
        )[keys[i]].contains(id),
    decreases n,
{
    if 0 <= i < n {
        let before = indexed_under(m, keys, id, (n - 1) as nat);
        let after = indexed_under(m, keys, id, n);
        if i < n - 1 {
            lemma_indexed_under(m, keys, id, (n - 1) as nat, i);
            let v = before[keys[i]];
            let j = choose|j: int| 0 <= j < v.len() && v[j] == id;
            assert(after[keys[i]][j] == id);
        } else {
            let v = after[keys[i]];
            assert(v[v.len() - 1] == id);
        }
    }
}

/// A related memory gets the raised reward with the link back.
pub proof fn law_related_memory_is_rewarded(
    m: EpisodesModel,
    node: NodeModel,
    places: Seq<int>,
    raised: Seq<i64>,
    i: int,
)
    requires
        0 <= i < places.len(),
        m.nodes.contains_key(m.order[places[i]]),
        m.order[places[i]] != node.id,
        forall|j: int|
            0 <= j < places.len() && j != i ==> m.order[#[trigger] places[j]] != m.order[places[i]],
    ensures
        ({
            let n = linked(m, node, places, raised).nodes[m.order[places[i]]];
            let before = m.nodes[m.order[places[i]]];
            &&& n.reward == raised[places[i]]
            &&& n.back_links == before.back_links.push(node.id)
            &&& n.content == before.content
        }),
{
    lemma_rewarded(m.nodes, m.order, places, raised, node.id, places.len(), i);
}

proof fn lemma_rewarded(
    nodes: Nodes,
    order: Seq<Seq<char>>,
    places: Seq<int>,
    raised: Seq<i64>,
    id: Seq<char>,
    n: nat,
    i: int,
)
    requires
        0 <= i < places.len(),
        n <= places.len(),
        nodes.contains_key(order[places[i]]),
        forall|j: int|
            0 <= j < places.len() && j != i ==> order[#[trigger] places[j]] != order[places[i]],
    ensures
        ({
            let w = pointed_at(nodes, order, places, raised, id, n);
            let k = order[places[i]];
            &&& w.contains_key(k)
            &&& i >= n ==> w[k] == nodes[k]
            &&& i < n ==> w[k].reward == raised[places[i]] && w[k].back_links
                == nodes[k].back_links.push(id) && w[k].content == nodes[k].content
        }),
    decreases n,
{
    if n > 0 {
        lemma_rewarded(nodes, order, places, raised, id, (n - 1) as nat, i);
        if n - 1 != i {
            assert(order[places[n - 1]] != order[places[i]]);
        }
    }
}

/// Where a memory too many stands, the one that was encoded first is forgotten, and no
/// other.
pub proof fn law_oldest_memory_is_forgotten(m: EpisodesModel, k: Seq<char>)
    requires
        m.insertion_order.len() == m.max_memories + 1,
    ensures
        ({
            let w = within_capacity(m);
            &&& w.insertion_order == m.insertion_order.skip(1)
            &&& !w.nodes.contains_key(m.insertion_order[0])
            &&& k != m.insertion_order[0] ==> (w.nodes.contains_key(k) <==> m.nodes.contains_key(k))
            &&& k != m.insertion_order[0] && m.nodes.contains_key(k) ==> w.nodes[k].content
                == m.nodes[k].content
        }),
{
    let id = m.insertion_order[0];
    let next = EpisodesModel { insertion_order: m.insertion_order.skip(1), ..evicted(m, id) };
    assert(within_capacity(next) == next);
    law_eviction_takes_one(m.nodes, id, k);
}

/// Forgetting a memory takes it away and leaves the texts of all others.
pub proof fn law_eviction_takes_one(nodes: Nodes, id: Seq<char>, k: Seq<char>)
    ensures
        !nodes_without(nodes, id).contains_key(id),
        k != id ==> (nodes_without(nodes, id).contains_key(k) <==> nodes.contains_key(k)),
        k != id && nodes.contains_key(k) ==> nodes_without(nodes, id)[k].content
            == nodes[k].content && nodes_without(nodes, id)[k].reward == nodes[k].reward,
{
    if nodes.contains_key(id) {
        let gone = nodes[id];
        let p = nodes.remove(id);
        let a = back_cut(p, gone.forward_links, id, gone.forward_links.len());
        lemma_back_cut_keeps(p, gone.forward_links, id, gone.forward_links.len(), id);
        lemma_forward_cut_keeps(a, gone.back_links, id, gone.back_links.len(), id);
        lemma_back_cut_keeps(p, gone.forward_links, id, gone.forward_links.len(), k);
        lemma_forward_cut_keeps(a, gone.back_links, id, gone.back_links.len(), k);
    }
}

proof fn lemma_back_cut_keeps(
    nodes: Nodes,
    names: Seq<Seq<char>>,
    id: Seq<char>,
    n: nat,
    k: Seq<char>,
)
    ensures
        back_cut(nodes, names, id, n).contains_key(k) <==> nodes.contains_key(k),
        nodes.contains_key(k) ==> back_cut(nodes, names, id, n)[k] == (NodeModel {
            back_links: back_cut(nodes, names, id, n)[k].back_links,
            ..nodes[k]
        }),
    decreases n,
{
    if n > 0 {
        lemma_back_cut_keeps(nodes, names, id, (n - 1) as nat, k);
    }
}

proof fn lemma_forward_cut_keeps(
    nodes: Nodes,
    names: Seq<Seq<char>>,
    id: Seq<char>,
    n: nat,
    k: Seq<char>,
)
    ensures
        forward_cut(nodes, names, id, n).contains_key(k) <==> nodes.contains_key(k),
        nodes.contains_key(k) ==> forward_cut(nodes, names, id, n)[k] == (NodeModel {
            forward_links: forward_cut(nodes, names, id, n)[k].forward_links,
            ..nodes[k]
        }),
    decreases n,
{
    if n > 0 {
        lemma_forward_cut_keeps(nodes, names, id, (n - 1) as nat, k);
    }
}

/// A forgotten memory is no longer found under its keywords, nor under its kind.
pub proof fn law_forgotten_memory_is_not_indexed(m: EpisodesModel, id: Seq<char>, i: int)
    requires
        m.nodes.contains_key(id),
        0 <= i < m.nodes[id].keywords.len(),
    ensures
        ({
            let e = evicted(m, id);
            let word = m.nodes[id].keywords[i];
            let kind = type_key(m.nodes[id].memory_type);
            &&& e.keyword_index.contains_key(word) ==> !e.keyword_index[word].contains(id)
            &&& e.type_index.contains_key(kind) ==> !e.type_index[kind].contains(id)
        }),
{
    let gone = m.nodes[id];
    lemma_unindexed_under(m.keyword_index, gone.keywords, id, gone.keywords.len(), i);
    let kind = type_key(gone.memory_type);
    if m.type_index.contains_key(kind) {
        lemma_without(m.type_index[kind], id);
    }
}

proof fn lemma_unindexed_under(m: Index, keys: Seq<Seq<char>>, id: Seq<char>, n: nat, i: int)
    requires
        n <= keys.len(),
    ensures
        0 <= i < n && unindexed_under(m, keys, id, n).contains_key(keys[i]) ==> !unindexed_under(
            m,
            keys,
            id,
            n,
        )[keys[i]].contains(id),
    decreases n,
{
    if 0 <= i < n {
        let before = unindexed_under(m, keys, id, (n - 1) as nat);
        if before.contains_key(keys[n - 1]) {
            lemma_without(before[keys[n - 1]], id);
        }
        if i < n - 1 {
            lemma_unindexed_under(m, keys, id, (n - 1) as nat, i);
        }
    }
}

/// What is told of a memory: its kind, its text and its context.
pub proof fn law_memory_is_told(n: NodeModel)
    ensures
        told(n) == "["@ + (match n.memory_type {
            MemoryType::Semantic => "语义"@,
            MemoryType::Episodic => "情景"@,
            MemoryType::Procedural => "程序"@,
        }) + "] "@ + n.content + " (上下文: "@ + n.context + ")"@,
{
}

/// A context tells each of the most related memories.
pub proof fn law_related_memories_are_told(
    m: EpisodesModel,
    scores: Seq<i64>,
    max_depth: nat,
    i: int,
)
    requires
        scores.len() == m.order.len(),
        0 <= i < most_related(scores).len(),
    ensures
        model::contains(
            reconstructed(m, scores, max_depth),
            told(m.nodes[m.order[most_related(scores)[i]]]),
        ),
{
    law_most_related_are_found(scores);
    let names = names_at(m.order, most_related(scores));
    let queue = first_stops(names);
    let id = names[i];
    assert(0 <= most_related(scores)[i] < scores.len());
    assert(m.order.contains(id));
    assert(queue[i] == (id, 0nat));
    lemma_stop_is_told(m.nodes, m.order, queue, Set::empty(), max_depth, i);
    lemma_told_in_context(
        walked(m.nodes, m.order, queue, Set::empty(), max_depth),
        told(m.nodes[id]),
    );
}

/// With a depth of at least one a context tells also the memories that the most related
/// ones point at, and those that point at them.
pub proof fn law_linked_memories_are_told(
    m: EpisodesModel,
    scores: Seq<i64>,
    max_depth: nat,
    i: int,
    l: Seq<char>,
)
    requires
        scores.len() == m.order.len(),
        0 <= i < most_related(scores).len(),
        max_depth >= 1,
        m.order.contains(l),
        ({
            let n = m.nodes[m.order[most_related(scores)[i]]];
            n.forward_links.contains(l) || n.back_links.contains(l)
        }),
    ensures
        model::contains(reconstructed(m, scores, max_depth), told(m.nodes[l])),
{
    law_most_related_are_found(scores);
    let names = names_at(m.order, most_related(scores));
    let queue = first_stops(names);
    let id = names[i];
    assert(0 <= most_related(scores)[i] < scores.len());
    assert(m.order.contains(id));
    assert(queue[i] == (id, 0nat));
    lemma_link_is_told(m.nodes, m.order, queue, Set::empty(), max_depth, i, l);
    lemma_told_in_context(
        walked(m.nodes, m.order, queue, Set::empty(), max_depth),
        told(m.nodes[l]),
    );
}

proof fn lemma_told_in_context(v: Seq<Seq<char>>, x: Seq<char>)
    requires
        v.contains(x),
    ensures
        model::contains(model::join(v, "\n"@), x),
{
    let j = choose|j: int| 0 <= j < v.len() && v[j] == x;
    assert(x.subrange(0, x.len() as int) =~= x);
    lemmas::lemma_found(x, x, 0, 0);
    lemmas::lemma_join_holds(v, "\n"@, j, x);
}

proof fn lemma_stop_is_told(
    nodes: Nodes,
    names: Seq<Seq<char>>,
    queue: Seq<Stop>,
    visited: Set<Seq<char>>,
    max_depth: nat,
    i: int,
)
    requires
        0 <= i < queue.len(),
        queue[i].1 <= max_depth,
        names.contains(queue[i].0),
        !visited.contains(queue[i].0),
    ensures
        walked(nodes, names, queue, visited, max_depth).contains(told(nodes[queue[i].0])),
    decreases unvisited(names, visited), queue.len(),
{
    let id = queue[0].0;
    let rest = queue.skip(1);
    let target = queue[i].0;
    let all = walked(nodes, names, queue, visited, max_depth);
    if visited.contains(id) || queue[0].1 > max_depth {
        assert(rest[i - 1] == queue[i]);
        lemma_stop_is_told(nodes, names, rest, visited, max_depth, i - 1);
    } else {
        lemma_unvisited(names, visited, id);
        let seen = visited.insert(id);
        if id == target {
            assert(all[0] == told(nodes[id]));
        } else {
            assert(rest[i - 1] == queue[i]);
            if names.contains(id) {
                let node = nodes[id];
                let more = next_stops(
                    node.forward_links,
                    seen,
                    queue[0].1 + 1,
                    node.forward_links.len(),
                ) + next_stops(node.back_links, seen, queue[0].1 + 1, node.back_links.len());
                assert((rest + more)[i - 1] == queue[i]);
                lemma_stop_is_told(nodes, names, rest + more, seen, max_depth, i - 1);
                let tail = walked(nodes, names, rest + more, seen, max_depth);
                let x = told(nodes[target]);
                let j = choose|j: int| 0 <= j < tail.len() && tail[j] == x;
                assert(all[j + 1] == x);
            } else {
                lemma_stop_is_told(nodes, names, rest, seen, max_depth, i - 1);
            }
        }
    }
}

proof fn lemma_next_stop(
    links: Seq<Seq<char>>,
    visited: Set<Seq<char>>,
    depth: nat,
    n: nat,
    l: Seq<char>,
) -> (j: int)
    requires
        n <= links.len(),
        links.take(n as int).contains(l),
        !visited.contains(l),
    ensures
        0 <= j < next_stops(links, visited, depth, n).len(),
        next_stops(links, visited, depth, n)[j] == (l, depth),
    decreases n,
{
    let v = links.take(n as int);
    let i = choose|i: int| 0 <= i < v.len() && v[i] == l;
    let before = next_stops(links, visited, depth, (n - 1) as nat);
    if links[n - 1] == l {
        before.len() as int
    } else {
        assert(links.take(n - 1)[i] == l);
        lemma_next_stop(links, visited, depth, (n - 1) as nat, l)
    }
}

proof fn lemma_link_is_told(
    nodes: Nodes,
    names: Seq<Seq<char>>,
    queue: Seq<Stop>,
    visited: Set<Seq<char>>,
    max_depth: nat,
    i: int,
    l: Seq<char>,
)
    requires
        0 <= i < queue.len(),
        queue[i].1 < max_depth,
        forall|a: int| 0 <= a < i ==> (#[trigger] queue[a]).1 <= queue[i].1,
        names.contains(queue[i].0),
        names.contains(l),
        !visited.contains(queue[i].0),
        !visited.contains(l),
        nodes[queue[i].0].forward_links.contains(l) || nodes[queue[i].0].back_links.contains(l),
    ensures
        walked(nodes, names, queue, visited, max_depth).contains(told(nodes[l])),
    decreases unvisited(names, visited), queue.len(),
{
    let id = queue[0].0;
    let rest = queue.skip(1);
    let target = queue[i].0;
    let all = walked(nodes, names, queue, visited, max_depth);
    let x = told(nodes[l]);
    if visited.contains(id) || queue[0].1 > max_depth {
        assert(rest[i - 1] == queue[i]);
        lemma_link_is_told(nodes, names, rest, visited, max_depth, i - 1, l);
    } else {
        lemma_unvisited(names, visited, id);
        let seen = visited.insert(id);
        if id == l {
            assert(all[0] == x);
        } else if names.contains(id) {
            let node = nodes[id];
            let depth = queue[0].1 + 1;
            let forward = next_stops(node.forward_links, seen, depth, node.forward_links.len());
            let back = next_stops(node.back_links, seen, depth, node.back_links.len());
            let next = rest + (forward + back);
            let tail = walked(nodes, names, next, seen, max_depth);
            if id == target {
                assert(depth <= max_depth);
                let p = if node.forward_links.contains(l) {
                    assert(node.forward_links.take(node.forward_links.len() as int)
                        =~= node.forward_links);
                    let j = lemma_next_stop(
                        node.forward_links,
                        seen,
                        depth,
                        node.forward_links.len(),
                        l,
                    );
                    assert(next[rest.len() + j] == forward[j]);
                    rest.len() + j
                } else {
                    assert(node.back_links.take(node.back_links.len() as int) =~= node.back_links);
                    let j = lemma_next_stop(node.back_links, seen, depth, node.back_links.len(), l);
                    assert(next[rest.len() + forward.len() + j] == back[j]);
                    rest.len() + forward.len() + j
                };
                lemma_stop_is_told(nodes, names, next, seen, max_depth, p);
            } else {
                assert(next[i - 1] == queue[i]);
                lemma_link_is_told(nodes, names, next, seen, max_depth, i - 1, l);
            }
            if tail.contains(x) {
                let j = choose|j: int| 0 <= j < tail.len() && tail[j] == x;
                assert(all[j + 1] == x);
            }
        } else {
            assert(rest[i - 1] == queue[i]);
            lemma_link_is_told(nodes, names, rest, seen, max_depth, i - 1, l);
        }
    }
}

/// A memory survives where its reward is high enough, or where fewer whole days have
/// passed since it was last used than one more than allowed.
pub proof fn law_old_worthless_memories_are_pruned(
    n: NodeModel,
    min_reward: i64,
    max_age_days: i64,
    now: i64,
)
    requires
        n.last_accessed <= now,
    ensures
        survives(n, min_reward, max_age_days, now) <==> n.reward >= min_reward || now
            - n.last_accessed < 86400 * (max_age_days + 1),
{
}

/// Pruning keeps exactly the memories that survive, in their order.
pub proof fn law_survivors_are_kept(
    m: EpisodesModel,
    min_reward: i64,
    max_age_days: i64,
    now: i64,
    k: Seq<char>,
)
    ensures
        survivors(m, min_reward, max_age_days, now).contains(k) <==> m.order.contains(k) && survives(
            m.nodes[k],
            min_reward,
            max_age_days,
            now,
        ),
{
    let f = |k: Seq<char>| survives(m.nodes[k], min_reward, max_age_days, now);
    lemma_filtered(m.order, f, k);
}

proof fn lemma_filtered(v: Seq<Seq<char>>, f: spec_fn(Seq<char>) -> bool, k: Seq<char>)
    ensures
        v.filter(f).contains(k) <==> v.contains(k) && f(k),
    decreases v.len(),
{
    reveal(Seq::filter);
    if v.len() > 0 {
        let p = v.drop_last();
        lemma_filtered(p, f, k);
        let a = p.filter(f);
        let b = v.filter(f);
        if p.contains(k) {
            let i = choose|i: int| 0 <= i < p.len() && p[i] == k;
            assert(v[i] == k);
        }
        if v.contains(k) && !p.contains(k) {
            let i = choose|i: int| 0 <= i < v.len() && v[i] == k;
            if i < p.len() {
                assert(p[i] == k);
            }
        }
        if a.contains(k) {
            let i = choose|i: int| 0 <= i < a.len() && a[i] == k;
            assert(b[i] == k);
        }
        if f(v.last()) {
            assert(b[a.len() as int] == v.last());
        }
        if b.contains(k) && !a.contains(k) {
            let i = choose|i: int| 0 <= i < b.len() && b[i] == k;
            if i < a.len() {
                assert(a[i] == k);
            }
            assert(v[v.len() - 1] == k);
        }
    } else {
        assert(v.filter(f) =~= Seq::empty());
    }
}

/// Two memories that may be merged: of one kind, alike, and both of little reward.
pub open spec fn may_merge(
    m: EpisodesModel,
    low: i64,
    alike: Seq<Vec<bool>>,
    i: int,
    j: int,
) -> bool {
    let a = m.nodes[m.order[i]];
    let b = m.nodes[m.order[j]];
    &&& a.memory_type == b.memory_type
    &&& a.reward < low
    &&& b.reward < low
    &&& alike[i]@[j]
}

/// Every two memories of one kind that are alike and of little reward are told as a
/// pair.
pub proof fn law_memories_alike_are_paired(
    m: EpisodesModel,
    low: i64,
    alike: Seq<Vec<bool>>,
    i: int,
    j: int,
)
    requires
        0 <= i < j < m.order.len(),
        may_merge(m, low, alike, i, j),
    ensures
        pairs_upto(m, low, alike, m.order.len()).contains(
            (m.nodes[m.order[i]].id, m.nodes[m.order[j]].id),
        ),
{
    lemma_pair_is_told(m, low, alike, m.order.len(), i, j);
}

/// A pair is made of two memories of one kind that are alike and of little reward.
pub proof fn law_pairs_are_alike(m: EpisodesModel, low: i64, alike: Seq<Vec<bool>>, p: int) -> (r: (
    int,
    int,
))
    requires
        0 <= p < pairs_upto(m, low, alike, m.order.len()).len(),
    ensures
        0 <= r.0 < r.1 < m.order.len(),
        may_merge(m, low, alike, r.0, r.1),
        pairs_upto(m, low, alike, m.order.len())[p] == (
            m.nodes[m.order[r.0]].id,
            m.nodes[m.order[r.1]].id,
        ),
{
    lemma_pair_from(m, low, alike, m.order.len(), p)
}

proof fn lemma_pair_is_told(
    m: EpisodesModel,
    low: i64,
    alike: Seq<Vec<bool>>,
    n: nat,
    i: int,
    j: int,
)
    requires
        0 <= i < j < m.order.len(),
        i < n,
        may_merge(m, low, alike, i, j),
    ensures
        pairs_upto(m, low, alike, n).contains((m.nodes[m.order[i]].id, m.nodes[m.order[j]].id)),
    decreases n,
{
    let x = (m.nodes[m.order[i]].id, m.nodes[m.order[j]].id);
    let before = pairs_upto(m, low, alike, (n - 1) as nat);
    let all = pairs_upto(m, low, alike, n);
    if i < n - 1 {
        lemma_pair_is_told(m, low, alike, (n - 1) as nat, i, j);
        let k = choose|k: int| 0 <= k < before.len() && before[k] == x;
        assert(all[k] == x);
    } else {
        lemma_pair_of(m, low, alike, i, m.order.len(), j);
        let v = pairs_of(m, low, alike, i, m.order.len());
        let k = choose|k: int| 0 <= k < v.len() && v[k] == x;
        assert(all[before.len() + k] == x);
    }
}

proof fn lemma_pair_of(
    m: EpisodesModel,
    low: i64,
    alike: Seq<Vec<bool>>,
    i: int,
    n: nat,
    j: int,
)
    requires
        0 <= i < j < n <= m.order.len(),
        may_merge(m, low, alike, i, j),
    ensures
        pairs_of(m, low, alike, i, n).contains((m.nodes[m.order[i]].id, m.nodes[m.order[j]].id)),
    decreases n,
{
    let x = (m.nodes[m.order[i]].id, m.nodes[m.order[j]].id);
    let before = pairs_of(m, low, alike, i, (n - 1) as nat);
    let all = pairs_of(m, low, alike, i, n);
    if j < n - 1 {
        lemma_pair_of(m, low, alike, i, (n - 1) as nat, j);
        let k = choose|k: int| 0 <= k < before.len() && before[k] == x;
        assert(all[k] == x);
    } else {
        assert(all[before.len() as int] == x);
    }
}

proof fn lemma_pair_from(m: EpisodesModel, low: i64, alike: Seq<Vec<bool>>, n: nat, p: int) -> (r: (
    int,
    int,
))
    requires
        n <= m.order.len(),
        0 <= p < pairs_upto(m, low, alike, n).len(),
    ensures
        0 <= r.0 < r.1 < m.order.len(),
        may_merge(m, low, alike, r.0, r.1),
        pairs_upto(m, low, alike, n)[p] == (m.nodes[m.order[r.0]].id, m.nodes[m.order[r.1]].id),
    decreases n,
{
    let before = pairs_upto(m, low, alike, (n - 1) as nat);
    if p < before.len() {
        lemma_pair_from(m, low, alike, (n - 1) as nat, p)
    } else {
        let b = lemma_pair_of_from(m, low, alike, n - 1, m.order.len(), p - before.len());
        (n - 1, b)
    }
}

proof fn lemma_pair_of_from(
    m: EpisodesModel,
    low: i64,
    alike: Seq<Vec<bool>>,
    i: int,
    n: nat,
    p: int,
) -> (b: int)
    requires
        0 <= i,
        n <= m.order.len(),
        0 <= p < pairs_of(m, low, alike, i, n).len(),
    ensures
        i < b < n,
        may_merge(m, low, alike, i, b),
        pairs_of(m, low, alike, i, n)[p] == (m.nodes[m.order[i]].id, m.nodes[m.order[b]].id),
    decreases n,
{
    let before = pairs_of(m, low, alike, i, (n - 1) as nat);
    if p < before.len() {
        lemma_pair_of_from(m, low, alike, i, (n - 1) as nat, p)
    } else {
        n - 1
    }
}

/// Of two merged memories the one of the greater reward stays: it keeps its name, kind
/// and reward, and takes over the text, the links and the keywords of the other.
pub proof fn law_better_memory_stays(a: NodeModel, b: NodeModel, k: Seq<char>)
    ensures
        ({
            let (x, y) = if a.reward >= b.reward {
                (a, b)
            } else {
                (b, a)
            };
            let j = joined(a, b);
            &&& j.id == x.id && j.memory_type == x.memory_type && j.reward == x.reward
                && j.context == x.context
            &&& j.content == x.content + "\n---\n"@ + y.content
            &&& j.forward_links == x.forward_links + y.forward_links
            &&& j.back_links == x.back_links + y.back_links
            &&& j.keywords.contains(k) <==> x.keywords.contains(k) || y.keywords.contains(k)
        }),
{
    let (x, y) = if a.reward >= b.reward {
        (a, b)
    } else {
        (b, a)
    };
    let all = x.keywords + y.keywords;
    order::law_sorted(all);
    order::law_dedup_loses_nothing(order::sorted(all), k);
    assert(order::sorted(all).to_multiset().contains(k) <==> all.to_multiset().contains(k));
    broadcast use vstd::seq_lib::group_to_multiset_ensures;
    assert(order::sorted(all).contains(k) <==> all.contains(k));
    if x.keywords.contains(k) {
        let i = choose|i: int| 0 <= i < x.keywords.len() && x.keywords[i] == k;
        assert(all[i] == k);
    }
    if y.keywords.contains(k) {
        let i = choose|i: int| 0 <= i < y.keywords.len() && y.keywords[i] == k;
        assert(all[x.keywords.len() + i] == k);
    }
    if all.contains(k) {
        let i = choose|i: int| 0 <= i < all.len() && all[i] == k;
        if i < x.keywords.len() {
            assert(x.keywords[i] == k);
        } else {
            assert(y.keywords[i - x.keywords.len()] == k);
        }
    }
}

/// A pair of different memories becomes one and is counted; a pair of which one is gone
/// already changes nothing.
pub proof fn law_pair_becomes_one(s: Merging, p: Pair)
    ensures
        s.nodes.contains_key(p.0) && s.nodes.contains_key(p.1) && p.0 != p.1 ==> {
            let j = joined(s.nodes[p.0], s.nodes[p.1]);
            &&& merged_pair(s, p).merged == s.merged + 1
            &&& merged_pair(s, p).nodes == s.nodes.remove(p.0).remove(p.1).insert(j.id, j)
        },
        !s.nodes.contains_key(p.0) || !s.nodes.contains_key(p.1) || p.0 == p.1 ==> merged_pair(s, p)
            == s,
{
}

/// The counts of the three kinds together are the count of all memories.
pub proof fn law_kinds_add_up(m: EpisodesModel, n: nat)
    requires
        n <= m.order.len(),
    ensures
        count_of(m, MemoryType::Semantic, n) + count_of(m, MemoryType::Episodic, n) + count_of(
            m,
            MemoryType::Procedural,
            n,
        ) == n,
    decreases n,
{
    if n > 0 {
        law_kinds_add_up(m, (n - 1) as nat);
    }
}

/// A memory is counted under its own kind.
pub proof fn law_memory_counts_as_its_kind(m: EpisodesModel, t: MemoryType, n: nat)
    requires
        0 < n <= m.order.len(),
    ensures
        m.nodes[m.order[n - 1]].memory_type == t ==> count_of(m, t, n) == count_of(
            m,
            t,
            (n - 1) as nat,
        ) + 1,
        count_of(m, t, 0) == 0,
{
}

/// A keyword counts for a memory that has it among its own or holds it in its text.
pub proof fn law_keywords_count(node: NodeModel, keywords: Seq<Seq<char>>, n: nat)
    requires
        0 < n <= keywords.len(),
    ensures
        keyword_hits(node, keywords, 0) == 0,
        keyword_hits(node, keywords, n) == keyword_hits(node, keywords, (n - 1) as nat) + if (
        node.keywords.contains(keywords[n - 1]) || model::contains(node.content, keywords[n - 1])) {
            1nat
        } else {
            0nat
        },
{
}

/// Each kind of memory has a key and a word of its own, and what is told of a memory begins
/// with the word for its kind and goes on with the memory.
pub proof fn law_kinds_have_their_own_words(a: MemoryType, b: MemoryType, n: NodeModel)
    ensures
        type_key(a) == type_key(b) <==> a == b,
        type_word(a) == type_word(b) <==> a == b,
        n.memory_type is Semantic ==> model::starts_with(told(n), "[语义] "@ + n.content),
        n.memory_type is Episodic ==> model::starts_with(told(n), "[情景] "@ + n.content),
        n.memory_type is Procedural ==> model::starts_with(told(n), "[程序] "@ + n.content),
        type_key(MemoryType::Semantic) == "semantic"@ && type_key(MemoryType::Episodic)
            == "episodic"@ && type_key(MemoryType::Procedural) == "procedural"@,
{
    reveal_strlit("semantic");
    reveal_strlit("episodic");
    reveal_strlit("procedural");
    assert("semantic"@[0] == 's' && "episodic"@[0] == 'e' && "procedural"@[0] == 'p');
    reveal_strlit("语义");
    reveal_strlit("情景");
    reveal_strlit("程序");
    assert("语义"@[0] == '语' && "情景"@[0] == '情' && "程序"@[0] == '程');
    reveal_strlit("[");
    reveal_strlit("] ");
    reveal_strlit("[语义] ");
    reveal_strlit("[情景] ");
    reveal_strlit("[程序] ");
    assert("["@ + "语义"@ + "] "@ =~= "[语义] "@);
    assert("["@ + "情景"@ + "] "@ =~= "[情景] "@);
    assert("["@ + "程序"@ + "] "@ =~= "[程序] "@);
    let s = told(n);
    let head = "["@ + type_word(n.memory_type) + "] "@ + n.content;
    assert(s.take(head.len() as int) =~= head);
}

} // verus!

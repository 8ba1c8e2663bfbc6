//! The dependency graph of a repository's files.
//!
//! A file depends on the files that it imports. The graph answers which files a
//! file depends on, directly or through others, which files depend on it, and
//! by which chain of imports one file depends on another.

use crate::memory::imports;
use crate::memory::imports::ImportModel;
use crate::path;
use crate::path::{FilePath, PathKey};
use crate::text::{lemmas, model, ops, order};
use vstd::prelude::*;
use vstd::string::*;

pub use crate::memory::imports::{detect_language, ImportInfo, ImportParser, Language};

verus! {

/// A source file.
#[derive(Debug)]
pub struct FileNode {
    /// The path, from the root of the project.
    pub path: FilePath,
    /// The language that the file is written in.
    pub language: Language,
    /// The symbols that the file defines.
    pub definitions: Vec<String>,
    /// What the file imports.
    pub imports: Vec<ImportInfo>,
    /// A hash of the file's text, by which a change is noticed.
    pub content_hash: u64,
}

/// What is known of a source file.
#[verifier::ext_equal]
pub struct NodeModel {
    pub path: Seq<char>,
    pub language: Language,
    pub definitions: Seq<Seq<char>>,
    pub imports: Seq<ImportModel>,
    pub content_hash: u64,
}

impl View for FileNode {
    type V = NodeModel;

    open spec fn view(&self) -> NodeModel {
        NodeModel {
            path: self.path@,
            language: self.language,
            definitions: model::texts(self.definitions@),
            imports: imports::import_models(self.imports@),
            content_hash: self.content_hash,
        }
    }
}

/// Why one file depends on another.
#[derive(Debug, Clone, Copy, PartialEq, Eq, Structural)]
pub enum DependencyType {
    /// It imports it.
    Direct,
    /// It exports its symbols again.
    ReExport,
    /// It uses its types.
    TypeOnly,
}

/// A dependency of one file on another.
#[derive(Debug)]
pub struct DependencyEdge {
    /// The file that depends.
    pub from: FilePath,
    /// The file that it depends on.
    pub to: FilePath,
    /// Why it does.
    pub dep_type: DependencyType,
}

/// What a dependency holds.
#[verifier::ext_equal]
pub struct EdgeModel {
    pub from: Seq<char>,
    pub to: Seq<char>,
    pub dep_type: DependencyType,
}

impl View for DependencyEdge {
    type V = EdgeModel;

    open spec fn view(&self) -> EdgeModel {
        EdgeModel { from: self.from@, to: self.to@, dep_type: self.dep_type }
    }
}

/// A file under the path that it is kept by.
#[derive(Debug)]
struct Entry {
    key: FilePath,
    node: FileNode,
}

/// The files of a repository and the dependencies between them.
#[derive(Debug)]
pub struct RepoMap {
    files: Vec<Entry>,
    edges: Vec<DependencyEdge>,
    root: FilePath,
}

/// What a dependency graph holds.
#[verifier::ext_equal]
pub struct RepoModel {
    /// The files, each with the path that it is kept by.
    pub files: Seq<(Seq<char>, NodeModel)>,
    /// The dependencies, in the order in which they were added.
    pub edges: Seq<EdgeModel>,
    /// The root of the project.
    pub root: Seq<char>,
}

spec fn entry_models(v: Seq<Entry>) -> Seq<(Seq<char>, NodeModel)> {
    v.map_values(|e: Entry| (e.key@, e.node@))
}

/// The dependencies that a list holds.
pub open spec fn edge_models(v: Seq<DependencyEdge>) -> Seq<EdgeModel> {
    v.map_values(|e: DependencyEdge| e@)
}

/// The dependencies that a list of references holds.
pub open spec fn edge_refs(v: Seq<&DependencyEdge>) -> Seq<EdgeModel> {
    v.map_values(|e: &DependencyEdge| e@)
}

impl View for RepoMap {
    type V = RepoModel;

    closed spec fn view(&self) -> RepoModel {
        RepoModel {
            files: entry_models(self.files@),
            edges: edge_models(self.edges@),
            root: self.root@,
        }
    }
}

/// Each file is kept once.
pub open spec fn distinct(files: Seq<(Seq<char>, NodeModel)>) -> bool {
    forall|i: int, j: int|
        0 <= i < j < files.len() ==> path::key((#[trigger] files[i]).0) != path::key(
            (#[trigger] files[j]).0,
        )
}

/// Where a path is kept, from place `i` on.
pub open spec fn slot_from(
    files: Seq<(Seq<char>, NodeModel)>,
    k: PathKey,
    i: int,
) -> Option<int>
    decreases files.len() - i,
{
    if i < 0 || i >= files.len() {
        None
    } else if path::key(files[i].0) == k {
        Some(i)
    } else {
        slot_from(files, k, i + 1)
    }
}

/// The file that is kept under a path.
pub open spec fn file_at(m: RepoModel, p: Seq<char>) -> Option<NodeModel> {
    match slot_from(m.files, path::key(p), 0) {
        Some(i) => Some(m.files[i].1),
        None => None,
    }
}

/// The dependencies that neither start nor end at a path.
pub open spec fn edges_without(edges: Seq<EdgeModel>, p: Seq<char>) -> Seq<EdgeModel> {
    edges.filter(|e: EdgeModel| path::key(e.from) != path::key(p) && path::key(e.to) != path::key(p))
}

/// The files with one more, or with another file under the same path.
pub open spec fn files_with(
    files: Seq<(Seq<char>, NodeModel)>,
    node: NodeModel,
) -> Seq<(Seq<char>, NodeModel)> {
    match slot_from(files, path::key(node.path), 0) {
        Some(i) => files.update(i, (files[i].0, node)),
        None => files.push((node.path, node)),
    }
}

/// The files but for the one under a path.
pub open spec fn files_without(
    files: Seq<(Seq<char>, NodeModel)>,
    p: Seq<char>,
) -> Seq<(Seq<char>, NodeModel)> {
    match slot_from(files, path::key(p), 0) {
        Some(i) => files.remove(i),
        None => files,
    }
}

/// The dependencies that start at a path.
pub open spec fn edges_from(edges: Seq<EdgeModel>, p: Seq<char>) -> Seq<EdgeModel> {
    edges.filter(|e: EdgeModel| path::key(e.from) == path::key(p))
}

/// The dependencies that end at a path.
pub open spec fn edges_to(edges: Seq<EdgeModel>, p: Seq<char>) -> Seq<EdgeModel> {
    edges.filter(|e: EdgeModel| path::key(e.to) == path::key(p))
}

proof fn lemma_slot(files: Seq<(Seq<char>, NodeModel)>, k: PathKey, i: int)
    requires
        0 <= i <= files.len(),
    ensures
        match slot_from(files, k, i) {
            Some(j) => i <= j < files.len() && path::key(files[j].0) == k,
            None => forall|j: int| i <= j < files.len() ==> path::key((#[trigger] files[j]).0) != k,
        },
    decreases files.len() - i,
{
    if i < files.len() && path::key(files[i].0) != k {
        lemma_slot(files, k, i + 1);
    }
}

impl RepoMap {
    /// Each file is kept once.
    pub open spec fn wf(&self) -> bool {
        distinct(self@.files)
    }

    /// A graph without files.
    pub fn new(root: FilePath) -> (r: Self)
        ensures
            r.wf(),
            r@ == (RepoModel { files: Seq::empty(), edges: Seq::empty(), root: root@ }),
    {
        let map = RepoMap { files: Vec::new(), edges: Vec::new(), root: root };
        assert(entry_models(map.files@) =~= Seq::empty());
        assert(edge_models(map.edges@) =~= Seq::empty());
        map
    }

    /// Where a path is kept.
    fn slot(&self, path: &FilePath) -> (r: Option<usize>)
        ensures
            match r {
                Some(i) => slot_from(self@.files, path::key(path@), 0) == Some(i as int) && i
                    < self.files@.len(),
                None => slot_from(self@.files, path::key(path@), 0) is None,
            },
    {
        let ghost files = self@.files;
        let mut i: usize = 0;
        while i < self.files.len()
            invariant
                i <= self.files@.len(),
                files == entry_models(self.files@),
                slot_from(files, path::key(path@), 0) == slot_from(
                    files,
                    path::key(path@),
                    i as int,
                ),
            decreases self.files@.len() - i,
        {
            assert(files[i as int].0 == self.files@[i as int].key@);
            if self.files[i].key.same(path) {
                return Some(i);
            }
            i = i + 1;
        }
        None
    }

    /// Takes away the dependencies that start or end at a path.
    fn remove_file_edges(&mut self, path: &FilePath)
        ensures
            final(self)@ == (RepoModel { edges: edges_without(old(self)@.edges, path@), ..old(self)@ }),
            final(self).files@ == old(self).files@,
    {
        let ghost keep = |e: EdgeModel|
            path::key(e.from) != path::key(path@) && path::key(e.to) != path::key(path@);
        let ghost all = edge_models(self.edges@);
        let mut kept: Vec<DependencyEdge> = Vec::new();
        let mut edges: Vec<DependencyEdge> = Vec::new();
        std::mem::swap(&mut edges, &mut self.edges);
        let n: usize = edges.len();
        let mut i: usize = 0;
        reveal(Seq::filter);
        assert(edge_models(kept@) =~= Seq::empty());
        for edge in it: edges
            invariant
                i == it.index(),
                it.seq().len() == n,
                all == edge_models(it.seq()),
                keep == (|e: EdgeModel|
                    path::key(e.from) != path::key(path@) && path::key(e.to) != path::key(path@)),
                edge_models(kept@) == all.take(i as int).filter(keep),
        {
            reveal(Seq::filter);
            let ghost before = kept@;
            assert(all.take(i + 1).drop_last() =~= all.take(i as int));
            assert(all[i as int] == edge@);
            if !edge.from.same(path) && !edge.to.same(path) {
                let ghost shown = edge@;
                kept.push(edge);
                assert(edge_models(kept@) =~= edge_models(before).push(shown));
            }
            i = i + 1;
        }
        assert(all.take(all.len() as int) =~= all);
        self.edges = kept;
    }

    /// Adds a file, or replaces the one under the same path. Dependencies that
    /// start or end at the path are taken away.
    pub fn add_file(&mut self, node: FileNode)
        requires
            old(self).wf(),
        ensures
            final(self).wf(),
            final(self)@ == (RepoModel {
                files: files_with(old(self)@.files, node@),
                edges: edges_without(old(self)@.edges, node@.path),
                ..old(self)@
            }),
    {
        let path = node.path.clone();
        self.remove_file_edges(&path);
        let ghost files = self@.files;
        proof {
            lemma_slot(files, path::key(path@), 0);
        }
        match self.slot(&path) {
            Some(i) => {
                let key = self.files[i].key.clone();
                assert(files[i as int].0 == self.files@[i as int].key@);
                self.files.set(i, Entry { key: key, node: node });
                assert(entry_models(self.files@) =~= files.update(
                    i as int,
                    (files[i as int].0, node@),
                ));
            },
            None => {
                self.files.push(Entry { key: path, node: node });
                assert(entry_models(self.files@) =~= files.push((node@.path, node@)));
            },
        }
    }

    /// Adds a dependency.
    pub fn add_dependency(&mut self, edge: DependencyEdge)
        requires
            old(self).wf(),
        ensures
            final(self).wf(),
            final(self)@ == (RepoModel { edges: old(self)@.edges.push(edge@), ..old(self)@ }),
    {
        let ghost shown = edge@;
        self.edges.push(edge);
        assert(edge_models(self.edges@) =~= old(self)@.edges.push(shown));
    }

    /// Takes away a file and the dependencies that start or end at it.
    pub fn remove_file(&mut self, path: &FilePath)
        requires
            old(self).wf(),
        ensures
            final(self).wf(),
            final(self)@ == (RepoModel {
                files: files_without(old(self)@.files, path@),
                edges: edges_without(old(self)@.edges, path@),
                ..old(self)@
            }),
    {
        self.remove_file_edges(path);
        let ghost files = self@.files;
        if let Some(i) = self.slot(path) {
            self.files.remove(i);
            assert(entry_models(self.files@) =~= files.remove(i as int));
        }
    }

    /// The file under a path.
    pub fn get_file(&self, path: &FilePath) -> (r: Option<&FileNode>)
        ensures
            match r {
                Some(n) => file_at(self@, path@) == Some(n@),
                None => file_at(self@, path@) is None,
            },
    {
        match self.slot(path) {
            Some(i) => {
                assert(self@.files[i as int].1 == self.files@[i as int].node@);
                Some(&self.files[i].node)
            },
            None => None,
        }
    }

    /// The dependencies that start at a path, in the order in which they were
    /// added.
    pub fn dependencies_of(&self, path: &FilePath) -> (r: Vec<&DependencyEdge>)
        ensures
            edge_refs(r@) == edges_from(self@.edges, path@),
    {
        let ghost keep = |e: EdgeModel| path::key(e.from) == path::key(path@);
        let ghost all = edge_models(self.edges@);
        let mut kept: Vec<&DependencyEdge> = Vec::new();
        let mut i: usize = 0;
        reveal(Seq::filter);
        assert(edge_refs(kept@) =~= Seq::empty());
        while i < self.edges.len()
            invariant
                i <= self.edges@.len(),
                all == edge_models(self.edges@),
                keep == (|e: EdgeModel| path::key(e.from) == path::key(path@)),
                edge_refs(kept@) == all.take(i as int).filter(keep),
            decreases self.edges@.len() - i,
        {
            reveal(Seq::filter);
            let ghost before = kept@;
            assert(all.take(i + 1).drop_last() =~= all.take(i as int));
            if self.edges[i].from.same(path) {
                kept.push(&self.edges[i]);
                assert(edge_refs(kept@) =~= edge_refs(before).push(all[i as int]));
            }
            i = i + 1;
        }
        assert(all.take(all.len() as int) =~= all);
        kept
    }

    /// The dependencies that end at a path, in the order in which they were
    /// added.
    pub fn dependents_of(&self, path: &FilePath) -> (r: Vec<&DependencyEdge>)
        ensures
            edge_refs(r@) == edges_to(self@.edges, path@),
    {
        let ghost keep = |e: EdgeModel| path::key(e.to) == path::key(path@);
        let ghost all = edge_models(self.edges@);
        let mut kept: Vec<&DependencyEdge> = Vec::new();
        let mut i: usize = 0;
        reveal(Seq::filter);
        assert(edge_refs(kept@) =~= Seq::empty());
        while i < self.edges.len()
            invariant
                i <= self.edges@.len(),
                all == edge_models(self.edges@),
                keep == (|e: EdgeModel| path::key(e.to) == path::key(path@)),
                edge_refs(kept@) == all.take(i as int).filter(keep),
            decreases self.edges@.len() - i,
        {
            reveal(Seq::filter);
            let ghost before = kept@;
            assert(all.take(i + 1).drop_last() =~= all.take(i as int));
            if self.edges[i].to.same(path) {
                kept.push(&self.edges[i]);
                assert(edge_refs(kept@) =~= edge_refs(before).push(all[i as int]));
            }
            i = i + 1;
        }
        assert(all.take(all.len() as int) =~= all);
        kept
    }

    /// How many files there are.
    pub fn file_count(&self) -> (r: usize)
        ensures
            r == self@.files.len(),
    {
        self.files.len()
    }

    /// How many dependencies there are.
    pub fn edge_count(&self) -> (r: usize)
        ensures
            r == self@.edges.len(),
    {
        self.edges.len()
    }
}

/// Where the dependencies lead: from the file that depends to the file that it
/// depends on, or the other way round.
pub open spec fn arrows(edges: Seq<EdgeModel>, forward: bool) -> Seq<(PathKey, PathKey)> {
    edges.map_values(
        |e: EdgeModel|
            if forward {
                (path::key(e.from), path::key(e.to))
            } else {
                (path::key(e.to), path::key(e.from))
            },
    )
}

/// A walk along `n` arrows leads from `a` to `b`.
pub open spec fn walk(arr: Seq<(PathKey, PathKey)>, a: PathKey, b: PathKey, n: nat) -> bool
    decreases n,
{
    if n == 0 {
        a == b
    } else {
        exists|c: PathKey| #[trigger] arr.contains((c, b)) && walk(arr, a, c, (n - 1) as nat)
    }
}

/// Some walk leads from `a` to `b`.
pub open spec fn reaches(arr: Seq<(PathKey, PathKey)>, a: PathKey, b: PathKey) -> bool {
    exists|n: nat| walk(arr, a, b, n)
}

/// The places, other than `a`, that some walk leads to from `a`.
pub open spec fn reached(arr: Seq<(PathKey, PathKey)>, a: PathKey) -> Set<PathKey> {
    Set::new(|b: PathKey| reaches(arr, a, b) && b != a)
}

/// What tells the paths of a list apart.
pub open spec fn path_keys(v: Seq<FilePath>) -> Seq<PathKey> {
    v.map_values(|p: FilePath| path::key(p@))
}

/// A set of paths.
#[derive(Debug)]
pub struct PathSet {
    items: Vec<FilePath>,
}

impl View for PathSet {
    type V = Set<PathKey>;

    closed spec fn view(&self) -> Set<PathKey> {
        path_keys(self.items@).to_set()
    }
}

/// Whether a path stands in a list.
pub fn has_path(v: &Vec<FilePath>, p: &FilePath) -> (r: bool)
    ensures
        r == path_keys(v@).contains(path::key(p@)),
{
    let mut i: usize = 0;
    while i < v.len()
        invariant
            i <= v@.len(),
            forall|j: int| 0 <= j < i ==> path_keys(v@)[j] != path::key(p@),
        decreases v@.len() - i,
    {
        if v[i].same(p) {
            assert(path_keys(v@)[i as int] == path::key(p@));
            return true;
        }
        i = i + 1;
    }
    false
}

/// The same paths once more.
pub fn clone_paths(v: &Vec<FilePath>) -> (r: Vec<FilePath>)
    ensures
        path_keys(r@) == path_keys(v@),
{
    let mut out: Vec<FilePath> = Vec::new();
    let mut i: usize = 0;
    while i < v.len()
        invariant
            i <= v@.len(),
            path_keys(out@) == path_keys(v@).take(i as int),
        decreases v@.len() - i,
    {
        let ghost before = out@;
        out.push(FilePath::new(v[i].as_text()));
        assert(path_keys(out@) =~= path_keys(before).push(path::key(v@[i as int]@)));
        assert(path_keys(v@).take(i + 1) =~= path_keys(v@).take(i as int).push(
            path::key(v@[i as int]@),
        ));
        i = i + 1;
    }
    assert(path_keys(v@).take(v@.len() as int) =~= path_keys(v@));
    out
}

impl PathSet {
    /// No path is in the set twice.
    pub closed spec fn wf(&self) -> bool {
        path_keys(self.items@).no_duplicates()
    }

    /// The set without paths.
    pub fn new() -> (r: Self)
        ensures
            r.wf(),
            r@ == Set::<PathKey>::empty(),
    {
        let set = PathSet { items: Vec::new() };
        assert(path_keys(set.items@).to_set() =~= Set::empty());
        set
    }

    /// Whether the path is in the set.
    pub fn contains(&self, path: &FilePath) -> (r: bool)
        ensures
            r == self@.contains(path::key(path@)),
    {
        has_path(&self.items, path)
    }

    /// How many paths are in the set.
    pub fn len(&self) -> (r: usize)
        requires
            self.wf(),
        ensures
            r == self@.len(),
    {
        proof {
            path_keys(self.items@).unique_seq_to_set();
        }
        self.items.len()
    }

    /// The paths in the set.
    pub fn items(&self) -> (r: &Vec<FilePath>)
        requires
            self.wf(),
        ensures
            path_keys(r@).to_set() == self@,
            path_keys(r@).no_duplicates(),
    {
        &self.items
    }

    /// Adds a path.
    fn insert(&mut self, path: &FilePath)
        requires
            old(self).wf(),
        ensures
            final(self).wf(),
            final(self)@ == old(self)@.insert(path::key(path@)),
    {
        let ghost before = path_keys(self.items@);
        if !has_path(&self.items, path) {
            self.items.push(path.clone());
            assert(path_keys(self.items@) =~= before.push(path::key(path@)));
            assert(before.push(path::key(path@)).to_set() =~= before.to_set().insert(
                path::key(path@),
            )) by {
                broadcast use vstd::seq_lib::group_seq_properties;

            }
        } else {
            assert(before.to_set().insert(path::key(path@)) =~= before.to_set());
        }
    }
}

/// A place is the end of an arrow.
spec fn is_target(arr: Seq<(PathKey, PathKey)>, k: PathKey) -> bool {
    exists|e: int| 0 <= e < arr.len() && (#[trigger] arr[e]).1 == k
}

/// Different ends of arrows are no more than the arrows.
proof fn lemma_targets_bound(arr: Seq<(PathKey, PathKey)>, keys: Seq<PathKey>)
    requires
        keys.no_duplicates(),
        forall|j: int| 0 < j < keys.len() ==> is_target(arr, #[trigger] keys[j]),
    ensures
        keys.len() <= arr.len() + 1,
{
    if keys.len() > 0 {
        let tails = keys.skip(1);
        let ends = arr.map_values(|a: (PathKey, PathKey)| a.1);
        assert forall|k: PathKey| tails.to_set().contains(k) implies ends.to_set().contains(k) by {
            let j = choose|j: int| 0 <= j < tails.len() && tails[j] == k;
            assert(keys[j + 1] == k);
            let e = choose|e: int| 0 <= e < arr.len() && (#[trigger] arr[e]).1 == k;
            assert(ends[e] == k);
        }
        assert(tails.no_duplicates());
        tails.unique_seq_to_set();
        ends.lemma_cardinality_of_set();
        vstd::set_lib::lemma_len_subset(tails.to_set(), ends.to_set());
    }
}

/// A list that holds `a` and with each place the ends of its arrows holds every
/// place that a walk from `a` leads to.
proof fn lemma_closed_holds(
    arr: Seq<(PathKey, PathKey)>,
    keys: Seq<PathKey>,
    a: PathKey,
    b: PathKey,
    n: nat,
)
    requires
        keys.contains(a),
        forall|j: int, e: int|
            0 <= j < keys.len() && 0 <= e < arr.len() && (#[trigger] arr[e]).0 == #[trigger] keys[j]
                ==> keys.contains(arr[e].1),
        walk(arr, a, b, n),
    ensures
        keys.contains(b),
    decreases n,
{
    if n > 0 {
        let c = choose|c: PathKey| #[trigger]
            arr.contains((c, b)) && walk(arr, a, c, (n - 1) as nat);
        lemma_closed_holds(arr, keys, a, c, (n - 1) as nat);
        let j = choose|j: int| 0 <= j < keys.len() && keys[j] == c;
        let e = choose|e: int| 0 <= e < arr.len() && arr[e] == (c, b);
        assert(arr[e].0 == keys[j]);
    }
}

/// One arrow more lengthens a walk.
proof fn lemma_walk_step(
    arr: Seq<(PathKey, PathKey)>,
    a: PathKey,
    b: PathKey,
    n: nat,
    e: int,
)
    requires
        walk(arr, a, b, n),
        0 <= e < arr.len(),
        arr[e].0 == b,
    ensures
        walk(arr, a, arr[e].1, n + 1),
{
    assert(arr[e] == (b, arr[e].1));
    assert(arr.contains((b, arr[e].1)));
    assert(walk(arr, a, b, ((n + 1) - 1) as nat));
}

impl RepoMap {
    /// The end of a dependency that an arrow starts from.
    fn tail_of(&self, e: usize, forward: bool) -> (r: &FilePath)
        requires
            e < self@.edges.len(),
        ensures
            path::key(r@) == arrows(self@.edges, forward)[e as int].0,
            e < self.edges@.len(),
            r@ == (if forward { self@.edges[e as int].from } else { self@.edges[e as int].to }),
    {
        assert(self@.edges[e as int] == self.edges@[e as int]@);
        if forward {
            &self.edges[e].from
        } else {
            &self.edges[e].to
        }
    }

    /// The end of a dependency that an arrow leads to.
    fn head_of(&self, e: usize, forward: bool) -> (r: &FilePath)
        requires
            e < self@.edges.len(),
        ensures
            path::key(r@) == arrows(self@.edges, forward)[e as int].1,
            r@ == (if forward { self@.edges[e as int].to } else { self@.edges[e as int].from }),
    {
        assert(self@.edges[e as int] == self.edges@[e as int]@);
        if forward {
            &self.edges[e].to
        } else {
            &self.edges[e].from
        }
    }

    /// The places that walks lead to from a path.
    fn closure(&self, path: &FilePath, forward: bool) -> (r: PathSet)
        ensures
            r.wf(),
            r@ == reached(arrows(self@.edges, forward), path::key(path@)),
    {
        let ghost arr = arrows(self@.edges, forward);
        let ghost a = path::key(path@);
        let mut seen: Vec<FilePath> = Vec::new();
        seen.push(path.clone());
        proof {
            assert(path_keys(seen@) =~= seq![a]);
            assert(walk(arr, a, a, 0));
        }
        let mut i: usize = 0;
        while i < seen.len()
            invariant
                i <= seen@.len(),
                arr == arrows(self@.edges, forward),
                path_keys(seen@).len() > 0,
                path_keys(seen@)[0] == a,
                path_keys(seen@).no_duplicates(),
                forall|j: int| 0 < j < seen@.len() ==> is_target(arr, #[trigger] path_keys(seen@)[j]),
                forall|j: int|
                    0 <= j < seen@.len() ==> reaches(arr, a, #[trigger] path_keys(seen@)[j]),
                forall|j: int, e: int|
                    0 <= j < i && 0 <= e < arr.len() && (#[trigger] arr[e]).0
                        == #[trigger] path_keys(seen@)[j] ==> path_keys(seen@).contains(arr[e].1),
            decreases arr.len() + 1 - i,
        {
            proof {
                lemma_targets_bound(arr, path_keys(seen@));
            }
            let ghost here = path_keys(seen@)[i as int];
            let n: usize = self.edges.len();
            let mut e: usize = 0;
            while e < n
                invariant
                    i < seen@.len(),
                    n == arr.len(),
                    n == self@.edges.len(),
                    e <= n,
                    arr == arrows(self@.edges, forward),
                    path_keys(seen@)[0] == a,
                    path_keys(seen@)[i as int] == here,
                    path_keys(seen@).no_duplicates(),
                    forall|j: int|
                        0 < j < seen@.len() ==> is_target(arr, #[trigger] path_keys(seen@)[j]),
                    forall|j: int|
                        0 <= j < seen@.len() ==> reaches(arr, a, #[trigger] path_keys(seen@)[j]),
                    forall|j: int, d: int|
                        0 <= j < i && 0 <= d < arr.len() && (#[trigger] arr[d]).0
                            == #[trigger] path_keys(seen@)[j] ==> path_keys(seen@).contains(
                            arr[d].1,
                        ),
                    forall|d: int|
                        0 <= d < e && (#[trigger] arr[d]).0 == here ==> path_keys(seen@).contains(
                            arr[d].1,
                        ),
                decreases n - e,
            {
                let ghost before = path_keys(seen@);
                if self.tail_of(e, forward).same(&seen[i]) {
                    let next = self.head_of(e, forward);
                    let ghost k = path::key(next@);
                    proof {
                        let m = choose|m: nat| walk(arr, a, here, m);
                        lemma_walk_step(arr, a, here, m, e as int);
                    }
                    if !has_path(&seen, next) {
                        seen.push(next.clone());
                        proof {
                            let now = path_keys(seen@);
                            assert(now =~= before.push(k));
                            assert forall|x: PathKey| before.contains(x) implies now.contains(
                                x,
                            ) by {
                                let j = choose|j: int| 0 <= j < before.len() && before[j] == x;
                                assert(now[j] == x);
                            }
                            assert(now[now.len() - 1] == k);
                            assert(arr[e as int].1 == k);
                            assert forall|j: int| 0 < j < now.len() implies is_target(
                                arr,
                                #[trigger] now[j],
                            ) by {
                                if j < before.len() {
                                    assert(now[j] == before[j]);
                                }
                            }
                            assert forall|j: int| 0 <= j < now.len() implies reaches(
                                arr,
                                a,
                                #[trigger] now[j],
                            ) by {
                                if j < before.len() {
                                    assert(now[j] == before[j]);
                                }
                            }
                            assert forall|j: int, d: int|
                                0 <= j < i && 0 <= d < arr.len() && (#[trigger] arr[d]).0
                                    == #[trigger] now[j] implies now.contains(arr[d].1) by {
                                assert(before[j] == now[j]);
                            }
                        }
                    }
                }
                e = e + 1;
            }
            i = i + 1;
        }
        proof {
            let keys = path_keys(seen@);
            assert forall|b: PathKey| #[trigger] reaches(arr, a, b) implies keys.contains(b) by {
                let m = choose|m: nat| walk(arr, a, b, m);
                assert(keys[0] == a);
                lemma_closed_holds(arr, keys, a, b, m);
            }
        }
        let ghost keys = path_keys(seen@);
        seen.remove(0);
        let r = PathSet { items: seen };
        proof {
            assert(path_keys(r.items@) =~= keys.skip(1));
            assert(path_keys(r.items@).to_set() =~= reached(arr, a)) by {
                assert forall|b: PathKey| reached(arr, a).contains(b) implies keys.skip(1).contains(
                    b,
                ) by {
                    let j = choose|j: int| 0 <= j < keys.len() && keys[j] == b;
                    assert(keys.skip(1)[j - 1] == b);
                }
                assert forall|b: PathKey| keys.skip(1).contains(b) implies reached(
                    arr,
                    a,
                ).contains(b) by {
                    let j = choose|j: int| 0 <= j < keys.skip(1).len() && keys.skip(1)[j] == b;
                    assert(keys[j + 1] == b);
                }
            }
        }
        r
    }

    /// The files that a file depends on, directly or through others.
    pub fn all_dependencies(&self, path: &FilePath) -> (r: PathSet)
        ensures
            r.wf(),
            r@ == reached(arrows(self@.edges, true), path::key(path@)),
    {
        self.closure(path, true)
    }

    /// The files that depend on a file, directly or through others.
    pub fn all_dependents(&self, path: &FilePath) -> (r: PathSet)
        ensures
            r.wf(),
            r@ == reached(arrows(self@.edges, false), path::key(path@)),
    {
        self.closure(path, false)
    }

    /// The files that a change of some files affects.
    pub fn impact_analysis(&self, changed_files: &[FilePath]) -> (r: PathSet)
        ensures
            r.wf(),
            r@ == impacted(self@.edges, path_keys(changed_files@)),
    {
        let ghost arr = arrows(self@.edges, false);
        let ghost all = path_keys(changed_files@);
        let mut out = PathSet::new();
        assert(impacted(self@.edges, all.take(0)) =~= Set::empty());
        let mut i: usize = 0;
        while i < changed_files.len()
            invariant
                i <= changed_files@.len(),
                out.wf(),
                all == path_keys(changed_files@),
                out@ == impacted(self@.edges, all.take(i as int)),
            decreases changed_files@.len() - i,
        {
            let more = self.all_dependents(&changed_files[i]);
            let ghost before = out@;
            let ghost added = path_keys(more.items@);
            let mut k: usize = 0;
            assert(added.take(0).to_set() =~= Set::empty());
            assert(before.union(Set::empty()) =~= before);
            while k < more.items.len()
                invariant
                    k <= more.items@.len(),
                    out.wf(),
                    added == path_keys(more.items@),
                    out@ == before.union(added.take(k as int).to_set()),
                decreases more.items@.len() - k,
            {
                out.insert(&more.items[k]);
                assert(added.take(k + 1) =~= added.take(k as int).push(added[k as int]));
                assert(added.take(k + 1).to_set() =~= added.take(k as int).to_set().insert(
                    added[k as int],
                )) by {
                    broadcast use vstd::seq_lib::group_seq_properties;

                }
                assert(before.union(added.take(k as int).to_set()).insert(added[k as int])
                    =~= before.union(added.take(k + 1).to_set()));
                k = k + 1;
            }
            assert(added.take(added.len() as int) =~= added);
            proof {
                let now = all.take(i + 1);
                assert(now.last() == all[i as int]);
                assert(impacted(self@.edges, now) =~= before.union(more@)) by {
                    assert forall|b: PathKey| impacted(self@.edges, now).contains(b) implies before.union(
                        more@,
                    ).contains(b) by {
                        let j = choose|j: int|
                            0 <= j < now.len() && reached(
                                arrows(self@.edges, false),
                                #[trigger] now[j],
                            ).contains(b);
                        if j < i {
                            assert(all.take(i as int)[j] == now[j]);
                        }
                    }
                    assert forall|b: PathKey| before.union(more@).contains(b) implies impacted(
                        self@.edges,
                        now,
                    ).contains(b) by {
                        if before.contains(b) {
                            let j = choose|j: int|
                                0 <= j < i && reached(
                                    arrows(self@.edges, false),
                                    #[trigger] all.take(i as int)[j],
                                ).contains(b);
                            assert(now[j] == all.take(i as int)[j]);
                        } else {
                            assert(now[i as int] == path::key(changed_files@[i as int]@));
                        }
                    }
                }
            }
            i = i + 1;
        }
        assert(all.take(all.len() as int) =~= all);
        out
    }
}

/// The texts of some paths.
pub open spec fn path_texts(v: Seq<FilePath>) -> Seq<Seq<char>> {
    v.map_values(|p: FilePath| p@)
}

/// Some dependency leads from the place to the path.
pub open spec fn leads_to(edges: Seq<EdgeModel>, from: PathKey, to: Seq<char>) -> bool {
    exists|e: int|
        0 <= e < edges.len() && path::key((#[trigger] edges[e]).from) == from && edges[e].to == to
}

/// Each path depends on the next one.
pub open spec fn is_chain(edges: Seq<EdgeModel>, p: Seq<Seq<char>>) -> bool {
    forall|k: int|
        0 <= k < p.len() - 1 ==> leads_to(edges, path::key(#[trigger] p[k]), p[k + 1])
}

/// What is known of a breadth-first search from `a` whose places before `i`
/// have been left: each place was found from an earlier one that is one step
/// nearer to `a`, and the places are ordered by their distance.
spec fn search_ok(
    edges: Seq<EdgeModel>,
    a: PathKey,
    seen: Seq<FilePath>,
    parent: Seq<usize>,
    depth: Seq<usize>,
    i: int,
) -> bool {
    let arr = arrows(edges, true);
    let keys = path_keys(seen);
    &&& 0 < seen.len()
    &&& parent.len() == seen.len()
    &&& depth.len() == seen.len()
    &&& 0 <= i <= seen.len()
    &&& keys[0] == a
    &&& depth[0] == 0
    &&& keys.no_duplicates()
    &&& forall|j: int| 0 < j < seen.len() ==> is_target(arr, #[trigger] keys[j])
    &&& forall|j: int|
        #![trigger parent[j]]
        0 < j < seen.len() ==> parent[j] < j && depth[j] == depth[parent[j] as int] + 1
            && leads_to(edges, keys[parent[j] as int], seen[j]@)
    &&& forall|j: int, k: int| 0 <= j <= k < seen.len() ==> #[trigger] depth[j] <= #[trigger] depth[k]
    &&& forall|k: int| 0 <= k < seen.len() && i < seen.len() ==> #[trigger] depth[k] <= depth[i] + 1
    &&& forall|j: int, e: int|
        0 <= j < i && 0 <= e < arr.len() && (#[trigger] arr[e]).0 == #[trigger] keys[j]
            ==> found_within(keys, depth, arr[e].1, depth[j] + 1)
}

/// The place was found at most `n` steps away.
spec fn found_within(keys: Seq<PathKey>, depth: Seq<usize>, b: PathKey, n: int) -> bool {
    exists|m: int| 0 <= m < keys.len() && #[trigger] keys[m] == b && depth[m] <= n
}

/// Every place that a walk of `n` arrows leads to has been found, unless the
/// search has not come that far.
proof fn lemma_search_complete(
    edges: Seq<EdgeModel>,
    a: PathKey,
    seen: Seq<FilePath>,
    parent: Seq<usize>,
    depth: Seq<usize>,
    i: int,
    b: PathKey,
    n: nat,
)
    requires
        search_ok(edges, a, seen, parent, depth, i),
        i < seen.len() ==> n <= depth[i],
        walk(arrows(edges, true), a, b, n),
    ensures
        found_within(path_keys(seen), depth, b, n as int),
    decreases n,
{
    let arr = arrows(edges, true);
    let keys = path_keys(seen);
    if n == 0 {
        assert(keys[0] == b && depth[0] <= 0);
    } else {
        let c = choose|c: PathKey| #[trigger]
            arr.contains((c, b)) && walk(arr, a, c, (n - 1) as nat);
        lemma_search_complete(edges, a, seen, parent, depth, i, c, (n - 1) as nat);
        let m = choose|m: int|
            0 <= m < keys.len() && #[trigger] keys[m] == c && depth[m] <= n - 1;
        let e = choose|e: int| 0 <= e < arr.len() && arr[e] == (c, b);
        assert(m < i) by {
            if m >= i {
                assert(depth[i] <= depth[m]);
            }
        }
        assert(arr[e].0 == keys[m]);
        assert(found_within(keys, depth, arr[e].1, depth[m] + 1));
    }
}

/// A place with its depth was reached by a walk of that length.
proof fn lemma_search_walk(
    edges: Seq<EdgeModel>,
    a: PathKey,
    seen: Seq<FilePath>,
    parent: Seq<usize>,
    depth: Seq<usize>,
    i: int,
    j: int,
)
    requires
        search_ok(edges, a, seen, parent, depth, i),
        0 <= j < seen.len(),
    ensures
        walk(arrows(edges, true), a, path_keys(seen)[j], depth[j] as nat),
    decreases j,
{
    if j > 0 {
        let q = parent[j] as int;
        lemma_search_walk(edges, a, seen, parent, depth, i, q);
        let e = choose|e: int|
            0 <= e < edges.len() && path::key((#[trigger] edges[e]).from) == path_keys(seen)[q]
                && edges[e].to == seen[j]@;
        lemma_walk_step(arrows(edges, true), a, path_keys(seen)[q], depth[q] as nat, e);
    }
}

impl RepoMap {
    /// A shortest chain of dependencies from one file to another.
    pub fn find_dependency_path(&self, from: &FilePath, to: &FilePath) -> (r: Option<Vec<FilePath>>)
        ensures
            match r {
                Some(p) => {
                    let texts = path_texts(p@);
                    &&& texts.len() > 0
                    &&& texts[0] == from@
                    &&& path::key(texts.last()) == path::key(to@)
                    &&& is_chain(self@.edges, texts)
                    &&& forall|n: nat|
                        walk(arrows(self@.edges, true), path::key(from@), path::key(to@), n)
                            ==> texts.len() <= n + 1
                },
                None => !reaches(arrows(self@.edges, true), path::key(from@), path::key(to@)),
            },
    {
        let ghost edges = self@.edges;
        let ghost arr = arrows(edges, true);
        let ghost a = path::key(from@);
        let ghost b = path::key(to@);
        let mut seen: Vec<FilePath> = Vec::new();
        let mut parent: Vec<usize> = Vec::new();
        let mut depth: Vec<usize> = Vec::new();
        seen.push(from.clone());
        parent.push(0);
        depth.push(0);
        assert(path_keys(seen@) =~= seq![a]);
        let mut i: usize = 0;
        while i < seen.len()
            invariant
                edges == self@.edges,
                arr == arrows(edges, true),
                b == path::key(to@),
                a == path::key(from@),
                seen@[0]@ == from@,
                search_ok(edges, a, seen@, parent@, depth@, i as int),
                forall|j: int| 0 <= j < i ==> #[trigger] path_keys(seen@)[j] != b,
            decreases arr.len() + 1 - i,
        {
            proof {
                lemma_targets_bound(arr, path_keys(seen@));
            }
            if seen[i].same(to) {
                proof {
                    assert(path_keys(seen@)[i as int] == b);
                    assert forall|n: nat| walk(arr, a, b, n) implies depth@[i as int] <= n by {
                        if n < depth@[i as int] {
                            lemma_search_complete(
                                edges,
                                a,
                                seen@,
                                parent@,
                                depth@,
                                i as int,
                                b,
                                n,
                            );
                        }
                    }
                }
                return Some(self.trace(&seen, &parent, &depth, i, Ghost(a), Ghost(i as int)));
            }
            let ghost before = seen@;
            self.expand(&mut seen, &mut parent, &mut depth, i, Ghost(a));
            assert forall|j: int| 0 <= j < i + 1 implies #[trigger] path_keys(seen@)[j] != b by {
                assert(seen@[j] == before[j]);
                assert(path_keys(seen@)[j] == path_keys(before)[j]);
            }
            i = i + 1;
        }
        proof {
            if reaches(arr, a, b) {
                let n = choose|n: nat| walk(arr, a, b, n);
                lemma_search_complete(edges, a, seen@, parent@, depth@, i as int, b, n);
            }
        }
        None
    }

    /// Adds to a search the places that the arrows from place `i` lead to.
    fn expand(
        &self,
        seen: &mut Vec<FilePath>,
        parent: &mut Vec<usize>,
        depth: &mut Vec<usize>,
        i: usize,
        Ghost(a): Ghost<PathKey>,
    )
        requires
            i < old(seen)@.len(),
            search_ok(self@.edges, a, old(seen)@, old(parent)@, old(depth)@, i as int),
        ensures
            search_ok(self@.edges, a, final(seen)@, final(parent)@, final(depth)@, i + 1),
            old(seen)@.is_prefix_of(final(seen)@),
    {
        let ghost edges = self@.edges;
        let ghost arr = arrows(edges, true);
        let ghost first = seen@;
        let ghost here = path_keys(seen@)[i as int];
        let n: usize = self.edges.len();
        let d: usize = depth[i];
        let mut e: usize = 0;
        while e < n
            invariant
                n == edges.len(),
                n == arr.len(),
                e <= n,
                edges == self@.edges,
                arr == arrows(edges, true),
                i < seen@.len(),
                i < first.len(),
                first.is_prefix_of(seen@),
                path_keys(seen@)[i as int] == here,
                search_ok(edges, a, seen@, parent@, depth@, i as int),
                depth@[i as int] == d,
                forall|c: int|
                    0 <= c < e && (#[trigger] arr[c]).0 == here ==> found_within(
                        path_keys(seen@),
                        depth@,
                        arr[c].1,
                        d + 1,
                    ),
            decreases n - e,
        {
            let ghost keys = path_keys(seen@);
            let ghost depths = depth@;
            let ghost parents = parent@;
            let ghost paths = seen@;
            if self.tail_of(e, true).same(&seen[i]) {
                let next = self.head_of(e, true);
                let ghost k = path::key(next@);
                let count: usize = seen.len();
                proof {
                    lemma_depth_bound(edges, a, seen@, parent@, depth@, i as int, i as int);
                }
                if !has_path(seen, next) {
                    seen.push(next.clone());
                    parent.push(i);
                    depth.push(d + 1);
                    proof {
                        let now = path_keys(seen@);
                        assert(now =~= keys.push(k));
                        assert(now[now.len() - 1] == k && depth@[now.len() - 1] <= d + 1);
                        assert(arr[e as int].1 == k);
                        assert(leads_to(edges, here, next@)) by {
                            assert(path::key(edges[e as int].from) == here);
                        }
                        lemma_search_push(
                            edges,
                            a,
                            paths,
                            parents,
                            depths,
                            i as int,
                            e as int,
                            seen@.last(),
                            i,
                            (d + 1) as usize,
                        );
                        assert(seen@ =~= paths.push(seen@.last()));
                        assert forall|x: PathKey, m: int| found_within(keys, depths, x, m) implies found_within(
                            now,
                            depth@,
                            x,
                            m,
                        ) by {
                            let q = choose|q: int|
                                0 <= q < keys.len() && #[trigger] keys[q] == x && depths[q] <= m;
                            assert(now[q] == x && depth@[q] <= m);
                        }
                    }
                } else {
                    proof {
                        let m = choose|m: int| 0 <= m < keys.len() && keys[m] == k;
                        assert(keys[m] == k && depth@[m] <= d + 1);
                    }
                }
            }
            e = e + 1;
        }
        proof {
            let keys = path_keys(seen@);
            assert forall|k: int| 0 <= k < seen@.len() && i + 1 < seen@.len() implies #[trigger] depth@[k]
                <= depth@[i + 1] + 1 by {
                assert(depth@[i as int] <= depth@[i + 1]);
            }
        }
    }

    /// The chain by which a search found place `t`.
    fn trace(
        &self,
        seen: &Vec<FilePath>,
        parent: &Vec<usize>,
        depth: &Vec<usize>,
        t: usize,
        Ghost(a): Ghost<PathKey>,
        Ghost(i): Ghost<int>,
    ) -> (r: Vec<FilePath>)
        requires
            t < seen@.len(),
            search_ok(self@.edges, a, seen@, parent@, depth@, i),
        ensures
            path_texts(r@).len() == depth@[t as int] + 1,
            path_texts(r@)[0] == seen@[0]@,
            path_texts(r@).last() == seen@[t as int]@,
            is_chain(self@.edges, path_texts(r@)),
    {
        let ghost edges = self@.edges;
        let mut chain: Vec<FilePath> = Vec::new();
        chain.push(seen[t].clone());
        let mut cur: usize = t;
        while cur > 0
            invariant
                edges == self@.edges,
                cur < seen@.len(),
                search_ok(edges, a, seen@, parent@, depth@, i),
                chain@.len() > 0,
                path_texts(chain@)[0] == seen@[cur as int]@,
                path_texts(chain@).last() == seen@[t as int]@,
                path_texts(chain@).len() + depth@[cur as int] == depth@[t as int] + 1,
                is_chain(edges, path_texts(chain@)),
            decreases cur,
        {
            let ghost before = path_texts(chain@);
            let up: usize = parent[cur];
            chain.insert(0, seen[up].clone());
            proof {
                let now = path_texts(chain@);
                assert(now =~= seq![seen@[up as int]@] + before);
                assert forall|k: int| 0 <= k < now.len() - 1 implies leads_to(
                    edges,
                    path::key(#[trigger] now[k]),
                    now[k + 1],
                ) by {
                    if k > 0 {
                        assert(now[k] == before[k - 1]);
                        assert(now[k + 1] == before[k]);
                    } else {
                        assert(now[0] == seen@[up as int]@);
                        assert(path_keys(seen@)[up as int] == path::key(seen@[up as int]@));
                    }
                }
                assert(now.last() == before.last());
            }
            cur = up;
        }
        chain
    }
}

/// No place is further away than it has predecessors.
proof fn lemma_depth_bound(
    edges: Seq<EdgeModel>,
    a: PathKey,
    seen: Seq<FilePath>,
    parent: Seq<usize>,
    depth: Seq<usize>,
    i: int,
    j: int,
)
    requires
        search_ok(edges, a, seen, parent, depth, i),
        0 <= j < seen.len(),
    ensures
        depth[j] <= j,
    decreases j,
{
    if j > 0 {
        lemma_depth_bound(edges, a, seen, parent, depth, i, parent[j] as int);
    }
}

/// A search with one place more.
proof fn lemma_search_push(
    edges: Seq<EdgeModel>,
    a: PathKey,
    seen: Seq<FilePath>,
    parent: Seq<usize>,
    depth: Seq<usize>,
    i: int,
    e: int,
    next: FilePath,
    from: usize,
    far: usize,
)
    requires
        search_ok(edges, a, seen, parent, depth, i),
        0 <= i < seen.len(),
        from == i,
        far == depth[i] + 1,
        0 <= e < edges.len(),
        arrows(edges, true)[e] == (path_keys(seen)[i], path::key(next@)),
        leads_to(edges, path_keys(seen)[i], next@),
        !path_keys(seen).contains(path::key(next@)),
    ensures
        search_ok(edges, a, seen.push(next), parent.push(from), depth.push(far), i),
{
    let arr = arrows(edges, true);
    let keys = path_keys(seen);
    let now = path_keys(seen.push(next));
    assert(now =~= keys.push(path::key(next@)));
    assert(arr[e].1 == path::key(next@));
    assert forall|j: int| 0 < j < now.len() implies is_target(arr, #[trigger] now[j]) by {
        if j < keys.len() {
            assert(now[j] == keys[j]);
        }
    }
    let p2 = parent.push(from);
    let d2 = depth.push(far);
    let s2 = seen.push(next);
    assert forall|j: int| #![trigger p2[j]] 0 < j < s2.len() implies p2[j] < j && d2[j]
        == d2[p2[j] as int] + 1 && leads_to(edges, now[p2[j] as int], s2[j]@) by {
        if j < seen.len() {
            assert(p2[j] == parent[j]);
        }
    }
    assert forall|j: int, c: int|
        0 <= j < i && 0 <= c < arr.len() && (#[trigger] arr[c]).0 == #[trigger] now[j] implies found_within(
        now,
        d2,
        arr[c].1,
        d2[j] + 1,
    ) by {
        assert(keys[j] == now[j]);
        let m = choose|m: int|
            0 <= m < keys.len() && #[trigger] keys[m] == arr[c].1 && depth[m] <= depth[j] + 1;
        assert(now[m] == arr[c].1 && d2[m] <= d2[j] + 1);
    }
}

/// The places from which some of the changed files can be reached along the
/// dependencies.
pub open spec fn impacted(edges: Seq<EdgeModel>, changed: Seq<PathKey>) -> Set<PathKey> {
    Set::new(
        |b: PathKey|
            exists|i: int|
                0 <= i < changed.len() && reached(arrows(edges, false), #[trigger] changed[i]).contains(
                    b,
                ),
    )
}

/// One line of the summary: the path, what the file defines and what it depends
/// on.
pub open spec fn summary_line(m: RepoModel, name: Seq<char>) -> Seq<char> {
    match file_at(m, name) {
        Some(node) => {
            let defs = model::join(node.definitions, ", "@);
            let deps = edges_from(m.edges, name).map_values(|e: EdgeModel| e.to);
            let shown = if deps.len() == 0 {
                Seq::empty()
            } else {
                " → "@ + model::join(deps, ", "@)
            };
            if defs.len() == 0 {
                name + shown + "\n"@
            } else {
                name + ": "@ + defs + shown + "\n"@
            }
        },
        None => Seq::empty(),
    }
}

/// The lines of the summary for the first `n` names.
pub open spec fn summary_of(m: RepoModel, names: Seq<Seq<char>>, n: nat) -> Seq<char>
    decreases n,
{
    if n == 0 {
        Seq::empty()
    } else {
        summary_of(m, names, (n - 1) as nat) + summary_line(m, names[n - 1])
    }
}

/// The paths that the files are kept by, in order.
pub open spec fn names_of(m: RepoModel) -> Seq<Seq<char>> {
    order::sorted(m.files.map_values(|f: (Seq<char>, NodeModel)| f.0))
}

/// The nodes that a list of references holds.
pub open spec fn node_refs(v: Seq<&FileNode>) -> Seq<NodeModel> {
    v.map_values(|n: &FileNode| n@)
}

impl RepoMap {
    /// The graph as text, one line for each file, in the order of the paths.
    pub fn to_summary(&self) -> (r: String)
        ensures
            r@ == summary_of(self@, names_of(self@), self@.files.len()),
    {
        let ghost m = self@;
        let ghost all = m.files.map_values(|f: (Seq<char>, NodeModel)| f.0);
        let mut keys: Vec<String> = Vec::new();
        let mut i: usize = 0;
        assert(model::texts(keys@) =~= all.take(0));
        while i < self.files.len()
            invariant
                i <= self.files@.len(),
                m == self@,
                all == m.files.map_values(|f: (Seq<char>, NodeModel)| f.0),
                model::texts(keys@) == all.take(i as int),
            decreases self.files@.len() - i,
        {
            let ghost before = model::texts(keys@);
            assert(all[i as int] == self.files@[i as int].key@);
            keys.push(self.files[i].key.text.clone());
            assert(model::texts(keys@) =~= before.push(all[i as int]));
            assert(all.take(i + 1) =~= before.push(all[i as int]));
            i = i + 1;
        }
        assert(all.take(all.len() as int) =~= all);
        let lines = order::sort(keys);
        proof {
            order::law_sorted(all);
            assert(model::texts(lines@).len() == all.len());
        }
        let mut summary = String::new();
        let mut k: usize = 0;
        while k < lines.len()
            invariant
                k <= lines@.len(),
                m == self@,
                model::texts(lines@) == names_of(m),
                summary@ == summary_of(m, names_of(m), k as nat),
            decreases lines@.len() - k,
        {
            let name = &lines[k];
            assert(names_of(m)[k as int] == name@);
            let path = FilePath::new(name.as_str());
            if let Some(node) = self.get_file(&path) {
                let defs = ops::join_texts(node.definitions.as_slice(), ", ");
                let deps = self.dependencies_of(&path);
                let ghost ends = edges_from(m.edges, name@).map_values(|e: EdgeModel| e.to);
                let mut targets: Vec<String> = Vec::new();
                let mut j: usize = 0;
                assert(model::texts(targets@) =~= ends.take(0));
                while j < deps.len()
                    invariant
                        j <= deps@.len(),
                        edge_refs(deps@) == edges_from(m.edges, name@),
                        ends == edges_from(m.edges, name@).map_values(|e: EdgeModel| e.to),
                        model::texts(targets@) == ends.take(j as int),
                    decreases deps@.len() - j,
                {
                    let ghost before = model::texts(targets@);
                    assert(edge_refs(deps@)[j as int] == deps@[j as int]@);
                    assert(ends[j as int] == deps@[j as int].to@);
                    targets.push(deps[j].to.text.clone());
                    assert(model::texts(targets@) =~= before.push(ends[j as int]));
                    assert(ends.take(j + 1) =~= before.push(ends[j as int]));
                    j = j + 1;
                }
                assert(edge_refs(deps@).len() == deps@.len());
                assert(ends.take(ends.len() as int) =~= ends);
                let shown = if targets.len() == 0 {
                    String::new()
                } else {
                    ops::concat2(" → ", ops::join_texts(targets.as_slice(), ", ").as_str())
                };
                let line = if ops::is_empty(defs.as_str()) {
                    ops::concat3(name.as_str(), shown.as_str(), "\n")
                } else {
                    ops::concat5(name.as_str(), ": ", defs.as_str(), shown.as_str(), "\n")
                };
                assert(line@ == summary_line(m, name@));
                summary.append(line.as_str());
            } else {
                assert(summary@ + Seq::<char>::empty() =~= summary@);
            }
            k = k + 1;
        }
        summary
    }

    /// The files that define a symbol.
    pub fn find_definition(&self, symbol: &str) -> (r: Vec<&FileNode>)
        ensures
            node_refs(r@) == self@.files.map_values(|f: (Seq<char>, NodeModel)| f.1).filter(
                |n: NodeModel| n.definitions.contains(symbol@),
            ),
    {
        let ghost all = self@.files.map_values(|f: (Seq<char>, NodeModel)| f.1);
        let ghost keep = |n: NodeModel| n.definitions.contains(symbol@);
        let mut out: Vec<&FileNode> = Vec::new();
        let mut i: usize = 0;
        reveal(Seq::filter);
        assert(node_refs(out@) =~= Seq::empty());
        while i < self.files.len()
            invariant
                i <= self.files@.len(),
                all == self@.files.map_values(|f: (Seq<char>, NodeModel)| f.1),
                keep == (|n: NodeModel| n.definitions.contains(symbol@)),
                node_refs(out@) == all.take(i as int).filter(keep),
            decreases self.files@.len() - i,
        {
            reveal(Seq::filter);
            let ghost before = out@;
            assert(all.take(i + 1).drop_last() =~= all.take(i as int));
            assert(all[i as int] == self.files@[i as int].node@);
            if ops::has_text(self.files[i].node.definitions.as_slice(), symbol) {
                out.push(&self.files[i].node);
                assert(node_refs(out@) =~= node_refs(before).push(all[i as int]));
            }
            i = i + 1;
        }
        assert(all.take(all.len() as int) =~= all);
        out
    }
}

/// A place where an imported module may be: the path to look at, and the path
/// that the file has in the graph.
#[verifier::ext_equal]
pub struct CandidateModel {
    pub probe: Seq<char>,
    pub file: Seq<char>,
}

/// A place where an imported module may be.
#[derive(Debug)]
pub struct Candidate {
    /// The path to look at.
    pub probe: FilePath,
    /// The path that the file has in the graph.
    pub file: FilePath,
}

impl View for Candidate {
    type V = CandidateModel;

    open spec fn view(&self) -> CandidateModel {
        CandidateModel { probe: self.probe@, file: self.file@ }
    }
}

/// The places that a list holds.
pub open spec fn candidate_models(v: Seq<Candidate>) -> Seq<CandidateModel> {
    v.map_values(|c: Candidate| c@)
}

/// The path of a Rust module, its anchors replaced by the source directory.
pub open spec fn rust_relative(module: Seq<char>) -> Seq<char> {
    model::replace(
        model::replace(
            model::replace(model::replace(module, "::"@, "/"@), "crate/"@, "src/"@),
            "super/"@,
            Seq::empty(),
        ),
        "self/"@,
        Seq::empty(),
    )
}

/// A place below the root of the project.
pub open spec fn below_root(root: Seq<char>, rest: Seq<char>) -> CandidateModel {
    CandidateModel { probe: path::join(root, rest), file: rest }
}

/// A place below the directory of the importing file.
pub open spec fn beside(dir: Seq<char>, root: Seq<char>, rest: Seq<char>) -> CandidateModel {
    let probe = path::join(dir, rest);
    CandidateModel {
        probe: probe,
        file: match path::strip_prefix(probe, root) {
            Some(p) => p,
            None => probe,
        },
    }
}

/// Where an imported module may be, in the order in which the places count.
pub open spec fn candidates(
    module: Seq<char>,
    from_file: Seq<char>,
    root: Seq<char>,
    language: Language,
) -> Seq<CandidateModel> {
    match language {
        Language::Rust => if model::starts_with(module, "crate::"@) || model::starts_with(
            module,
            "super::"@,
        ) || model::starts_with(module, "self::"@) {
            let relative = rust_relative(module);
            seq![
                below_root(root, relative + ".rs"@),
                below_root(root, relative + "/mod.rs"@),
            ]
        } else {
            Seq::empty()
        },
        Language::TypeScript | Language::JavaScript => match path::parent(from_file) {
            Some(dir) => if model::starts_with(module, "."@) {
                seq![
                    beside(dir, root, module + ".ts"@),
                    beside(dir, root, module + ".tsx"@),
                    beside(dir, root, module + ".js"@),
                    beside(dir, root, module + ".jsx"@),
                    beside(dir, root, module + "/index.ts"@),
                    beside(dir, root, module + "/index.tsx"@),
                ]
            } else {
                Seq::empty()
            },
            None => Seq::empty(),
        },
        Language::Python => if !model::starts_with(module, "."@) {
            let relative = model::replace(module, "."@, "/"@);
            seq![
                below_root(root, relative + ".py"@),
                below_root(root, relative + "/__init__.py"@),
            ]
        } else {
            Seq::empty()
        },
        _ => Seq::empty(),
    }
}

/// The file of the first place, from place `i` on, that is there.
pub open spec fn first_present(
    c: Seq<CandidateModel>,
    present: Seq<Seq<char>>,
    i: int,
) -> Option<Seq<char>>
    decreases c.len() - i,
{
    if i < 0 || i >= c.len() {
        None
    } else if present.contains(c[i].probe) {
        Some(c[i].file)
    } else {
        first_present(c, present, i + 1)
    }
}

/// The file that an import of a module refers to, given the paths that are
/// there.
pub open spec fn resolved(
    module: Seq<char>,
    from_file: Seq<char>,
    root: Seq<char>,
    language: Language,
    present: Seq<Seq<char>>,
) -> Option<Seq<char>> {
    first_present(candidates(module, from_file, root, language), present, 0)
}

/// A place below the root of the project.
fn candidate_below(root: &FilePath, start: &str, end: &str) -> (r: Candidate)
    ensures
        r@ == below_root(root@, start@ + end@),
{
    let rest = ops::concat2(start, end);
    Candidate { probe: root.join(rest.as_str()), file: FilePath { text: rest } }
}

/// A place below the directory of the importing file.
fn candidate_beside(dir: &FilePath, root: &FilePath, start: &str, end: &str) -> (r: Candidate)
    ensures
        r@ == beside(dir@, root@, start@ + end@),
{
    let rest = ops::concat2(start, end);
    let probe = dir.join(rest.as_str());
    let file = match probe.strip_prefix(root) {
        Some(p) => p,
        None => probe.clone(),
    };
    Candidate { probe: probe, file: file }
}

impl RepoMap {
    /// Where an imported module may be, in the order in which the places count.
    pub fn module_candidates(
        module: &str,
        from_file: &FilePath,
        root: &FilePath,
        language: Language,
    ) -> (r: Vec<Candidate>)
        ensures
            candidate_models(r@) == candidates(module@, from_file@, root@, language),
    {
        let chars = ops::chars_of(module);
        let s = chars.as_slice();
        let mut out: Vec<Candidate> = Vec::new();
        match language {
            Language::Rust => {
                if ops::starts_with(s, "crate::") || ops::starts_with(s, "super::")
                    || ops::starts_with(s, "self::") {
                    proof {
                        reveal_strlit("::");
                        reveal_strlit("crate/");
                        reveal_strlit("super/");
                        reveal_strlit("self/");
                        reveal_strlit("");
                        assert(""@ =~= Seq::<char>::empty());
                    }
                    let slashed = ops::replace(s, "::", "/");
                    let c1 = ops::chars_of(slashed.as_str());
                    let rooted = ops::replace(c1.as_slice(), "crate/", "src/");
                    let c2 = ops::chars_of(rooted.as_str());
                    let raised = ops::replace(c2.as_slice(), "super/", "");
                    let c3 = ops::chars_of(raised.as_str());
                    let relative = ops::replace(c3.as_slice(), "self/", "");
                    assert(relative@ == rust_relative(module@));
                    out.push(candidate_below(root, relative.as_str(), ".rs"));
                    out.push(candidate_below(root, relative.as_str(), "/mod.rs"));
                }
            },
            Language::TypeScript | Language::JavaScript => {
                if let Some(dir) = from_file.parent() {
                    if ops::starts_with(s, ".") {
                        out.push(candidate_beside(&dir, root, module, ".ts"));
                        out.push(candidate_beside(&dir, root, module, ".tsx"));
                        out.push(candidate_beside(&dir, root, module, ".js"));
                        out.push(candidate_beside(&dir, root, module, ".jsx"));
                        out.push(candidate_beside(&dir, root, module, "/index.ts"));
                        out.push(candidate_beside(&dir, root, module, "/index.tsx"));
                    }
                }
            },
            Language::Python => {
                if !ops::starts_with(s, ".") {
                    proof {
                        reveal_strlit(".");
                    }
                    let relative = ops::replace(s, ".", "/");
                    out.push(candidate_below(root, relative.as_str(), ".py"));
                    out.push(candidate_below(root, relative.as_str(), "/__init__.py"));
                }
            },
            _ => {},
        }
        assert(candidate_models(out@) =~= candidates(module@, from_file@, root@, language));
        out
    }

    /// The file that an import of a module refers to, given the paths that are
    /// there.
    pub fn resolve_module_path(
        module: &str,
        from_file: &FilePath,
        root: &FilePath,
        language: Language,
        present: &[FilePath],
    ) -> (r: Option<FilePath>)
        ensures
            match r {
                Some(p) => resolved(module@, from_file@, root@, language, path_texts(present@))
                    == Some(p@),
                None => resolved(
                    module@,
                    from_file@,
                    root@,
                    language,
                    path_texts(present@),
                ) is None,
            },
    {
        let places = Self::module_candidates(module, from_file, root, language);
        let ghost c = candidates(module@, from_file@, root@, language);
        let ghost there = path_texts(present@);
        let mut i: usize = 0;
        while i < places.len()
            invariant
                i <= places@.len(),
                c == candidate_models(places@),
                c == candidates(module@, from_file@, root@, language),
                there == path_texts(present@),
                first_present(c, there, 0) == first_present(c, there, i as int),
            decreases places@.len() - i,
        {
            assert(c[i as int] == places@[i as int]@);
            let mut k: usize = 0;
            let mut found = false;
            while k < present.len() && !found
                invariant
                    k <= present@.len(),
                    i < places@.len(),
                    there == path_texts(present@),
                    found ==> there.contains(places@[i as int].probe@),
                    !found ==> forall|j: int| 0 <= j < k ==> there[j] != places@[i as int].probe@,
                decreases present@.len() - k + if found { 0int } else { 1int },
            {
                if ops::same_text(present[k].as_text(), places[i].probe.as_text()) {
                    assert(there[k as int] == places@[i as int].probe@);
                    found = true;
                } else {
                    k = k + 1;
                }
            }
            if found {
                return Some(places[i].file.clone());
            }
            i = i + 1;
        }
        None
    }
}

/// The files that the first `n` imports refer to, each once.
pub open spec fn import_targets(
    imports: Seq<ImportModel>,
    from_file: Seq<char>,
    root: Seq<char>,
    language: Language,
    present: Seq<Seq<char>>,
    n: nat,
) -> Seq<Seq<char>>
    decreases n,
{
    if n == 0 {
        Seq::empty()
    } else {
        let before = import_targets(imports, from_file, root, language, present, (n - 1) as nat);
        match resolved(imports[n - 1].module, from_file, root, language, present) {
            Some(p) => if exists|j: int|
                0 <= j < before.len() && path::key(#[trigger] before[j]) == path::key(p) {
                before
            } else {
                before.push(p)
            },
            None => before,
        }
    }
}

/// The dependencies of a file on the files that it imports.
pub open spec fn file_edges(
    node: NodeModel,
    root: Seq<char>,
    present: Seq<Seq<char>>,
) -> Seq<EdgeModel> {
    import_targets(
        node.imports,
        node.path,
        root,
        node.language,
        present,
        node.imports.len(),
    ).map_values(
        |p: Seq<char>| EdgeModel { from: node.path, to: p, dep_type: DependencyType::Direct },
    )
}

/// The dependencies of the first `n` files on the files that they import.
pub open spec fn import_edges(m: RepoModel, present: Seq<Seq<char>>, n: nat) -> Seq<EdgeModel>
    decreases n,
{
    if n == 0 {
        Seq::empty()
    } else {
        import_edges(m, present, (n - 1) as nat) + file_edges(m.files[n - 1].1, m.root, present)
    }
}

impl RepoMap {
    /// The files that a file's imports refer to, each once.
    fn parse_imports(file: &FileNode, root: &FilePath, present: &[FilePath]) -> (r: Vec<FilePath>)
        ensures
            path_texts(r@) == import_targets(
                file@.imports,
                file@.path,
                root@,
                file.language,
                path_texts(present@),
                file@.imports.len(),
            ),
    {
        let ghost node = file@;
        let ghost there = path_texts(present@);
        let mut deps: Vec<FilePath> = Vec::new();
        assert(path_texts(deps@) =~= Seq::empty());
        let mut i: usize = 0;
        while i < file.imports.len()
            invariant
                i <= file.imports@.len(),
                node == file@,
                there == path_texts(present@),
                path_texts(deps@) == import_targets(
                    node.imports,
                    node.path,
                    root@,
                    node.language,
                    there,
                    i as nat,
                ),
            decreases file.imports@.len() - i,
        {
            let ghost before = path_texts(deps@);
            assert(node.imports[i as int] == file.imports@[i as int]@);
            let target = Self::resolve_module_path(
                file.imports[i].module.as_str(),
                &file.path,
                root,
                file.language,
                present,
            );
            if let Some(path) = target {
                if !has_path(&deps, &path) {
                    proof {
                        assert forall|j: int| 0 <= j < before.len() implies path::key(
                            #[trigger] before[j],
                        ) != path::key(path@) by {
                            assert(path_keys(deps@)[j] == path::key(before[j]));
                        }
                    }
                    let ghost shown = path@;
                    deps.push(path);
                    assert(path_texts(deps@) =~= before.push(shown));
                } else {
                    proof {
                        let j = choose|j: int|
                            0 <= j < path_keys(deps@).len() && path_keys(deps@)[j] == path::key(
                                path@,
                            );
                        assert(path::key(before[j]) == path::key(path@));
                    }
                }
            }
            i = i + 1;
        }
        deps
    }

    /// The paths that must be looked at to resolve the files' imports.
    pub fn probes(&self) -> (r: Vec<FilePath>)
        ensures
            path_texts(r@) == probes_of(self@, self@.files.len()),
    {
        let ghost m = self@;
        let mut out: Vec<FilePath> = Vec::new();
        assert(path_texts(out@) =~= Seq::empty());
        let mut i: usize = 0;
        while i < self.files.len()
            invariant
                i <= self.files@.len(),
                m == self@,
                path_texts(out@) == probes_of(m, i as nat),
            decreases self.files@.len() - i,
        {
            let node = &self.files[i].node;
            assert(m.files[i as int].1 == node@);
            let ghost first = path_texts(out@);
            let mut k: usize = 0;
            assert(first + Seq::empty() =~= first);
            while k < node.imports.len()
                invariant
                    k <= node.imports@.len(),
                    m == self@,
                    path_texts(out@) == first + file_probes(node@, m.root, k as nat),
                decreases node.imports@.len() - k,
            {
                assert(node@.imports[k as int] == node.imports@[k as int]@);
                let places = Self::module_candidates(
                    node.imports[k].module.as_str(),
                    &node.path,
                    &self.root,
                    node.language,
                );
                let ghost c = candidate_models(places@);
                let ghost before = path_texts(out@);
                let ghost added = c.map_values(|c: CandidateModel| c.probe);
                let mut q: usize = 0;
                assert(before + added.take(0) =~= before);
                while q < places.len()
                    invariant
                        q <= places@.len(),
                        c == candidate_models(places@),
                        added == c.map_values(|c: CandidateModel| c.probe),
                        path_texts(out@) == before + added.take(q as int),
                    decreases places@.len() - q,
                {
                    let ghost now = path_texts(out@);
                    assert(added[q as int] == places@[q as int].probe@);
                    out.push(places[q].probe.clone());
                    assert(path_texts(out@) =~= now.push(added[q as int]));
                    assert(added.take(q + 1) =~= added.take(q as int).push(added[q as int]));
                    assert(now.push(added[q as int]) =~= before + added.take(q + 1));
                    q = q + 1;
                }
                assert(added.take(added.len() as int) =~= added);
                assert(before + added =~= first + file_probes(node@, m.root, (k + 1) as nat));
                k = k + 1;
            }
            i = i + 1;
        }
        out
    }

    /// Adds the dependencies of the files on the files that they import.
    /// `present` holds those of the paths of `probes` that are there.
    pub fn resolve_dependencies(&mut self, present: &[FilePath])
        requires
            old(self).wf(),
        ensures
            final(self).wf(),
            final(self)@ == (RepoModel {
                edges: old(self)@.edges + import_edges(
                    old(self)@,
                    path_texts(present@),
                    old(self)@.files.len(),
                ),
                ..old(self)@
            }),
    {
        let ghost m = self@;
        let ghost there = path_texts(present@);
        let mut i: usize = 0;
        assert(m.edges + Seq::empty() =~= m.edges);
        while i < self.files.len()
            invariant
                i <= self.files@.len(),
                m == old(self)@,
                there == path_texts(present@),
                self.files@ == old(self).files@,
                self@ == (RepoModel { edges: m.edges + import_edges(m, there, i as nat), ..m }),
            decreases self.files@.len() - i,
        {
            let ghost before = self@.edges;
            let ghost node = self.files@[i as int].node@;
            assert(m.files[i as int].1 == node);
            let deps = Self::parse_imports(&self.files[i].node, &self.root, present);
            let from = self.files[i].node.path.clone();
            let ghost added = file_edges(node, m.root, there);
            let mut k: usize = 0;
            assert(before + added.take(0) =~= before);
            while k < deps.len()
                invariant
                    k <= deps@.len(),
                    self.files@ == old(self).files@,
                    from@ == node.path,
                    path_texts(deps@) == import_targets(
                        node.imports,
                        node.path,
                        m.root,
                        node.language,
                        there,
                        node.imports.len(),
                    ),
                    added == file_edges(node, m.root, there),
                    self@ == (RepoModel { edges: before + added.take(k as int), ..m }),
                decreases deps@.len() - k,
            {
                let ghost now = self@.edges;
                assert(path_texts(deps@)[k as int] == deps@[k as int]@);
                let edge = DependencyEdge {
                    from: from.clone(),
                    to: deps[k].clone(),
                    dep_type: DependencyType::Direct,
                };
                assert(edge@ == added[k as int]);
                self.edges.push(edge);
                assert(edge_models(self.edges@) =~= now.push(added[k as int]));
                assert(added.take(k + 1) =~= added.take(k as int).push(added[k as int]));
                assert(now.push(added[k as int]) =~= before + added.take(k + 1));
                k = k + 1;
            }
            assert(path_texts(deps@).len() == deps@.len());
            assert(added.take(added.len() as int) =~= added);
            assert(before + added =~= m.edges + import_edges(m, there, (i + 1) as nat));
            i = i + 1;
        }
    }
}

/// The paths to look at for the first `n` imports of a file.
pub open spec fn file_probes(node: NodeModel, root: Seq<char>, n: nat) -> Seq<Seq<char>>
    decreases n,
{
    if n == 0 {
        Seq::empty()
    } else {
        file_probes(node, root, (n - 1) as nat) + candidates(
            node.imports[n - 1].module,
            node.path,
            root,
            node.language,
        ).map_values(|c: CandidateModel| c.probe)
    }
}

/// The paths to look at for the first `n` files.
pub open spec fn probes_of(m: RepoModel, n: nat) -> Seq<Seq<char>>
    decreases n,
{
    if n == 0 {
        Seq::empty()
    } else {
        probes_of(m, (n - 1) as nat) + file_probes(
            m.files[n - 1].1,
            m.root,
            m.files[n - 1].1.imports.len(),
        )
    }
}

/// A walk can be begun with an arrow.
proof fn lemma_walk_prepend(
    arr: Seq<(PathKey, PathKey)>,
    a: PathKey,
    b: PathKey,
    c: PathKey,
    n: nat,
)
    requires
        arr.contains((a, b)),
        walk(arr, b, c, n),
    ensures
        walk(arr, a, c, n + 1),
    decreases n,
{
    if n == 0 {
        assert(walk(arr, a, a, 0));
        assert(arr.contains((a, c)) && walk(arr, a, a, ((0 + 1) - 1) as nat));
    } else {
        let d = choose|d: PathKey| #[trigger]
            arr.contains((d, c)) && walk(arr, b, d, (n - 1) as nat);
        lemma_walk_prepend(arr, a, b, d, (n - 1) as nat);
        assert(arr.contains((d, c)) && walk(arr, a, d, ((n + 1) - 1) as nat));
    }
}

/// A walk along the dependencies, taken backwards.
proof fn lemma_walk_reversed(edges: Seq<EdgeModel>, forward: bool, a: PathKey, b: PathKey, n: nat)
    requires
        walk(arrows(edges, forward), a, b, n),
    ensures
        walk(arrows(edges, !forward), b, a, n),
    decreases n,
{
    if n > 0 {
        let arr = arrows(edges, forward);
        let rev = arrows(edges, !forward);
        let c = choose|c: PathKey| #[trigger]
            arr.contains((c, b)) && walk(arr, a, c, (n - 1) as nat);
        lemma_walk_reversed(edges, forward, a, c, (n - 1) as nat);
        let e = choose|e: int| 0 <= e < arr.len() && arr[e] == (c, b);
        assert(rev[e] == (b, c));
        assert(rev.contains((b, c)));
        lemma_walk_prepend(rev, b, c, a, (n - 1) as nat);
    }
}

/// One file is among those that another depends on exactly if the other is
/// among those that depend on it.
pub proof fn law_dependents_mirror_dependencies(edges: Seq<EdgeModel>, a: PathKey, b: PathKey)
    ensures
        reached(arrows(edges, true), a).contains(b) <==> reached(arrows(edges, false), b).contains(
            a,
        ),
{
    if reaches(arrows(edges, true), a, b) {
        let n = choose|n: nat| walk(arrows(edges, true), a, b, n);
        lemma_walk_reversed(edges, true, a, b, n);
    }
    if reaches(arrows(edges, false), b, a) {
        let n = choose|n: nat| walk(arrows(edges, false), b, a, n);
        lemma_walk_reversed(edges, false, b, a, n);
    }
}

/// Dependence passes through: what a file depends on depends, in turn, only on
/// what the file depends on too, or on the file itself.
pub proof fn law_dependence_is_transitive(
    edges: Seq<EdgeModel>,
    a: PathKey,
    b: PathKey,
    c: PathKey,
)
    requires
        reached(arrows(edges, true), a).contains(b),
        reached(arrows(edges, true), b).contains(c),
    ensures
        c == a || reached(arrows(edges, true), a).contains(c),
{
    let arr = arrows(edges, true);
    let n = choose|n: nat| walk(arr, a, b, n);
    let m = choose|m: nat| walk(arr, b, c, m);
    lemma_walk_joined(arr, a, b, c, n, m);
}

proof fn lemma_walk_joined(
    arr: Seq<(PathKey, PathKey)>,
    a: PathKey,
    b: PathKey,
    c: PathKey,
    n: nat,
    m: nat,
)
    requires
        walk(arr, a, b, n),
        walk(arr, b, c, m),
    ensures
        walk(arr, a, c, n + m),
    decreases m,
{
    if m > 0 {
        let d = choose|d: PathKey| #[trigger]
            arr.contains((d, c)) && walk(arr, b, d, (m - 1) as nat);
        lemma_walk_joined(arr, a, b, d, n, (m - 1) as nat);
        assert(arr.contains((d, c)) && walk(arr, a, d, ((n + m) - 1) as nat));
    }
}

/// A dependency stands among those that start at its source exactly if it
/// stands among those that end at its target.
pub proof fn law_direct_edges_mirror(edges: Seq<EdgeModel>, e: EdgeModel)
    ensures
        edges_from(edges, e.from).contains(e) <==> edges_to(edges, e.to).contains(e),
{
    broadcast use vstd::seq_lib::group_seq_properties;

    lemma_filter_contains(edges, |x: EdgeModel| path::key(x.from) == path::key(e.from), e);
    lemma_filter_contains(edges, |x: EdgeModel| path::key(x.to) == path::key(e.to), e);
}

proof fn lemma_filter_contains<A>(v: Seq<A>, f: spec_fn(A) -> bool, x: A)
    ensures
        v.filter(f).contains(x) <==> v.contains(x) && f(x),
    decreases v.len(),
{
    reveal(Seq::filter);
    if v.len() > 0 {
        let u = v.drop_last();
        lemma_filter_contains(u, f, x);
        assert(v =~= u.push(v.last()));
        let w = u.filter(f);
        if f(v.last()) {
            assert(v.filter(f) =~= w.push(v.last()));
            if w.contains(x) {
                let j = choose|j: int| 0 <= j < w.len() && w[j] == x;
                assert(v.filter(f)[j] == x);
            }
            if x == v.last() {
                assert(v.filter(f)[w.len() as int] == x);
            }
        }
        if u.contains(x) {
            let j = choose|j: int| 0 <= j < u.len() && u[j] == x;
            assert(v[j] == x);
        }
        if x == v.last() {
            assert(v[v.len() - 1] == x);
        }
    }
}

/// After a file has been taken away, no dependency starts or ends at it: it
/// depends on nothing and nothing depends on it.
pub proof fn law_removed_file_is_isolated(m: RepoModel, p: Seq<char>)
    ensures
        ({
            let after = edges_without(m.edges, p);
            &&& edges_from(after, p).len() == 0
            &&& edges_to(after, p).len() == 0
            &&& reached(arrows(after, true), path::key(p)) == Set::<PathKey>::empty()
            &&& reached(arrows(after, false), path::key(p)) == Set::<PathKey>::empty()
        }),
{
    let keep = |e: EdgeModel|
        path::key(e.from) != path::key(p) && path::key(e.to) != path::key(p);
    let after = edges_without(m.edges, p);
    assert forall|i: int| 0 <= i < after.len() implies keep(#[trigger] after[i]) by {
        lemma_filter_contains(m.edges, keep, after[i]);
        assert(after.contains(after[i]));
    }
    let from = |e: EdgeModel| path::key(e.from) == path::key(p);
    let to = |e: EdgeModel| path::key(e.to) == path::key(p);
    if edges_from(after, p).len() > 0 {
        let e = edges_from(after, p)[0];
        lemma_filter_contains(after, from, e);
        assert(edges_from(after, p).contains(e));
        let i = choose|i: int| 0 <= i < after.len() && after[i] == e;
        assert(keep(after[i]));
    }
    if edges_to(after, p).len() > 0 {
        let e = edges_to(after, p)[0];
        lemma_filter_contains(after, to, e);
        assert(edges_to(after, p).contains(e));
        let i = choose|i: int| 0 <= i < after.len() && after[i] == e;
        assert(keep(after[i]));
    }
    lemma_isolated(after, path::key(p), true);
    lemma_isolated(after, path::key(p), false);
}

proof fn lemma_isolated(edges: Seq<EdgeModel>, a: PathKey, forward: bool)
    requires
        forall|i: int|
            0 <= i < edges.len() ==> path::key((#[trigger] edges[i]).from) != a && path::key(
                edges[i].to,
            ) != a,
    ensures
        reached(arrows(edges, forward), a) == Set::<PathKey>::empty(),
{
    let arr = arrows(edges, forward);
    assert forall|b: PathKey| !reached(arr, a).contains(b) by {
        if reaches(arr, a, b) && b != a {
            let n = choose|n: nat| walk(arr, a, b, n);
            lemma_stuck(edges, a, b, n, forward);
        }
    }
    assert(reached(arr, a) =~= Set::<PathKey>::empty());
}

proof fn lemma_stuck(edges: Seq<EdgeModel>, a: PathKey, b: PathKey, n: nat, forward: bool)
    requires
        forall|i: int|
            0 <= i < edges.len() ==> path::key((#[trigger] edges[i]).from) != a && path::key(
                edges[i].to,
            ) != a,
        walk(arrows(edges, forward), a, b, n),
    ensures
        n == 0,
    decreases n,
{
    let arr = arrows(edges, forward);
    if n > 0 {
        let c = choose|c: PathKey| #[trigger]
            arr.contains((c, b)) && walk(arr, a, c, (n - 1) as nat);
        lemma_stuck(edges, a, c, (n - 1) as nat, forward);
        let e = choose|e: int| 0 <= e < arr.len() && arr[e] == (c, b);
        assert(path::key(edges[e].from) != a && path::key(edges[e].to) != a);
    }
}

/// A file that has been added is found under its path, and the other files are
/// found as before.
pub proof fn law_added_file_is_found(m: RepoModel, node: NodeModel, p: Seq<char>)
    requires
        distinct(m.files),
    ensures
        ({
            let after = RepoModel { files: files_with(m.files, node), ..m };
            &&& distinct(after.files)
            &&& file_at(after, p) == if path::key(p) == path::key(node.path) {
                Some(node)
            } else {
                file_at(m, p)
            }
        }),
{
    let k = path::key(node.path);
    let after = files_with(m.files, node);
    lemma_slot(m.files, k, 0);
    lemma_slot(m.files, path::key(p), 0);
    lemma_slot(after, path::key(p), 0);
    assert forall|i: int, j: int| 0 <= i < j < after.len() implies path::key(
        (#[trigger] after[i]).0,
    ) != path::key((#[trigger] after[j]).0) by {
        if j < m.files.len() {
            assert(after[i].0 == m.files[i].0);
            assert(after[j].0 == m.files[j].0);
        } else {
            assert(after[i] == m.files[i]);
        }
    }
    if let Some(i) = slot_from(after, path::key(p), 0) {
        if i < m.files.len() {
            assert(after[i].0 == m.files[i].0);
        }
    }
    if let Some(i) = slot_from(m.files, path::key(p), 0) {
        assert(after[i].0 == m.files[i].0);
    }
    if path::key(p) == k {
        if slot_from(m.files, k, 0) is None {
            assert(path::key(after[m.files.len() as int].0) == k);
        }
    }
}

/// A file that has been taken away is not found, and the other files are found
/// as before.
pub proof fn law_removed_file_is_gone(m: RepoModel, gone: Seq<char>, p: Seq<char>)
    requires
        distinct(m.files),
    ensures
        ({
            let after = RepoModel { files: files_without(m.files, gone), ..m };
            &&& distinct(after.files)
            &&& file_at(after, p) == if path::key(p) == path::key(gone) {
                None
            } else {
                file_at(m, p)
            }
        }),
{
    let after = files_without(m.files, gone);
    lemma_slot(m.files, path::key(gone), 0);
    lemma_slot(m.files, path::key(p), 0);
    lemma_slot(after, path::key(p), 0);
    match slot_from(m.files, path::key(gone), 0) {
        Some(g) => {
            assert forall|i: int, j: int| 0 <= i < j < after.len() implies path::key(
                (#[trigger] after[i]).0,
            ) != path::key((#[trigger] after[j]).0) by {
                let x = if i < g { i } else { i + 1 };
                let y = if j < g { j } else { j + 1 };
                assert(after[i] == m.files[x]);
                assert(after[j] == m.files[y]);
            }
            if let Some(i) = slot_from(after, path::key(p), 0) {
                let x = if i < g { i } else { i + 1 };
                assert(after[i] == m.files[x]);
                assert(m.files[g].0 == m.files[g].0);
            }
            if let Some(x) = slot_from(m.files, path::key(p), 0) {
                if x != g {
                    let i = if x < g { x } else { x - 1 };
                    assert(after[i] == m.files[x]);
                }
            }
        },
        None => {},
    }
}

/// A dependency is followed in its own direction: the file that depends has the other
/// among its dependencies, the other has it among its dependents, and a change of the
/// other affects it. Nothing else is among the dependencies but what a dependency leads
/// to, from the file itself or from one of its dependencies.
pub proof fn law_dependencies_are_followed(edges: Seq<EdgeModel>, e: int, a: PathKey, b: PathKey)
    requires
        0 <= e < edges.len(),
        path::key(edges[e].from) != path::key(edges[e].to),
    ensures
        reached(arrows(edges, true), path::key(edges[e].from)).contains(path::key(edges[e].to)),
        reached(arrows(edges, false), path::key(edges[e].to)).contains(path::key(edges[e].from)),
        impacted(edges, seq![path::key(edges[e].to)]).contains(path::key(edges[e].from)),
        reached(arrows(edges, true), a).contains(b) ==> b != a && exists|i: int|
            0 <= i < edges.len() && path::key((#[trigger] edges[i]).to) == b && (path::key(
                edges[i].from,
            ) == a || reached(arrows(edges, true), a).contains(path::key(edges[i].from))),
{
    let from = path::key(edges[e].from);
    let to = path::key(edges[e].to);
    let fwd = arrows(edges, true);
    let back = arrows(edges, false);
    assert(fwd[e] == (from, to));
    assert(back[e] == (to, from));
    assert(fwd.contains((from, to)) && back.contains((to, from)));
    assert(walk(fwd, from, from, 0) && walk(back, to, to, 0));
    lemma_walk_prepend(fwd, from, to, to, 0);
    lemma_walk_prepend(back, to, from, from, 0);
    assert(walk(fwd, from, to, 1));
    assert(walk(back, to, from, 1));
    assert(reached(back, seq![to][0]).contains(from));
    if reached(fwd, a).contains(b) {
        let n = choose|n: nat| walk(fwd, a, b, n);
        let c = choose|c: PathKey| #[trigger]
            fwd.contains((c, b)) && walk(fwd, a, c, (n - 1) as nat);
        let i = choose|i: int| 0 <= i < fwd.len() && fwd[i] == (c, b);
        assert(path::key(edges[i].to) == b && path::key(edges[i].from) == c);
        assert(reaches(fwd, a, c));
    }
}

/// A change of some files affects exactly the files that have one of them among their
/// dependencies.
pub proof fn law_impact_reaches_dependents(edges: Seq<EdgeModel>, changed: Seq<PathKey>, b: PathKey)
    ensures
        impacted(edges, changed).contains(b) <==> exists|i: int|
            0 <= i < changed.len() && reached(arrows(edges, true), b).contains(
                #[trigger] changed[i],
            ),
{
    if impacted(edges, changed).contains(b) {
        let i = choose|i: int|
            0 <= i < changed.len() && reached(arrows(edges, false), #[trigger] changed[i]).contains(
                b,
            );
        law_dependents_mirror_dependencies(edges, b, changed[i]);
    }
    if exists|i: int|
        0 <= i < changed.len() && reached(arrows(edges, true), b).contains(#[trigger] changed[i]) {
        let i = choose|i: int|
            0 <= i < changed.len() && reached(arrows(edges, true), b).contains(
                #[trigger] changed[i],
            );
        law_dependents_mirror_dependencies(edges, b, changed[i]);
    }
}

/// The path that a file beside the importing one has in the graph: its path from the
/// root, where it lies below it.
pub open spec fn from_root(probe: Seq<char>, root: Seq<char>) -> Seq<char> {
    match path::strip_prefix(probe, root) {
        Some(p) => p,
        None => probe,
    }
}

/// A relative import of TypeScript or JavaScript is resolved beside the importing file:
/// to the module with an ending of a source file, or to the index of the directory.
/// TypeScript comes before JavaScript, and a file before an index. Another import, or
/// one of which nothing is there, is not resolved.
pub proof fn law_js_imports_are_resolved(
    module: Seq<char>,
    from_file: Seq<char>,
    dir: Seq<char>,
    root: Seq<char>,
    language: Language,
    present: Seq<Seq<char>>,
)
    requires
        language == Language::TypeScript || language == Language::JavaScript,
        path::parent(from_file) == Some(dir),
    ensures
        ({
            let ts = path::join(dir, module + ".ts"@);
            let tsx = path::join(dir, module + ".tsx"@);
            let js = path::join(dir, module + ".js"@);
            let jsx = path::join(dir, module + ".jsx"@);
            let index = path::join(dir, module + "/index.ts"@);
            let indexx = path::join(dir, module + "/index.tsx"@);
            let r = resolved(module, from_file, root, language, present);
            &&& !model::starts_with(module, "."@) ==> r is None
            &&& model::starts_with(module, "."@) ==> {
                &&& present.contains(ts) ==> r == Some(from_root(ts, root))
                &&& !present.contains(ts) && present.contains(tsx) ==> r == Some(
                    from_root(tsx, root),
                )
                &&& !present.contains(ts) && !present.contains(tsx) && present.contains(js) ==> r
                    == Some(from_root(js, root))
                &&& r is Some <==> present.contains(ts) || present.contains(tsx)
                    || present.contains(js) || present.contains(jsx) || present.contains(index)
                    || present.contains(indexx)
            }
        }),
{
    reveal_with_fuel(first_present, 7);
}

/// A module of Rust that is anchored is resolved below the root: one of the crate in its
/// source directory, to the file of its name or to the `mod.rs` of its directory.
pub proof fn law_rust_imports_are_resolved(
    m: Seq<char>,
    from_file: Seq<char>,
    root: Seq<char>,
    present: Seq<Seq<char>>,
)
    requires
        !m.contains(':'),
        !m.contains('/'),
    ensures
        ({
            let r = resolved("crate::"@ + m, from_file, root, Language::Rust, present);
            let file = "src/"@ + m + ".rs"@;
            let in_dir = "src/"@ + m + "/mod.rs"@;
            &&& present.contains(path::join(root, file)) ==> r == Some(file)
            &&& !present.contains(path::join(root, file)) && present.contains(
                path::join(root, in_dir),
            ) ==> r == Some(in_dir)
            &&& r is Some ==> present.contains(path::join(root, file)) || present.contains(
                path::join(root, in_dir),
            )
        }),
        !m.contains('c') && !m.contains('s') ==> resolved(
            m,
            from_file,
            root,
            Language::Rust,
            present,
        ) is None,
{
    reveal_strlit("crate::");
    reveal_strlit("super::");
    reveal_strlit("self::");
    let module = "crate::"@ + m;
    assert(module.take(7) =~= "crate::"@);
    lemma_crate_path(m);
    reveal_with_fuel(first_present, 3);
    assert("crate::"@[0] == 'c' && "super::"@[0] == 's' && "self::"@[0] == 's');
    if !m.contains('c') && !m.contains('s') && m.len() > 0 {
        assert(m.contains(m[0]));
        if m.len() >= 7 {
            assert(m.take(7)[0] == m[0]);
        }
        if m.len() >= 6 {
            assert(m.take(6)[0] == m[0]);
        }
    }
}

/// A text without the mark is not changed by replacing the mark.
proof fn lemma_replace_nothing(s: Seq<char>, p: Seq<char>, to: Seq<char>)
    requires
        p.len() > 0,
        forall|k: int| 0 <= k ==> !model::occurs_at(s, p, k),
    ensures
        model::replace(s, p, to) == s,
{
    lemmas::lemma_find_nowhere(s, p, 0);
}

/// The one slash of a text stands too near to its front for a mark that ends with one.
proof fn lemma_slash_too_near(s: Seq<char>, p: Seq<char>, at: int)
    requires
        p.len() > 0,
        p.last() == '/',
        at < p.len() - 1,
        forall|k: int| 0 <= k < s.len() && #[trigger] s[k] == '/' ==> k == at,
    ensures
        forall|k: int| 0 <= k ==> !model::occurs_at(s, p, k),
{
    assert forall|k: int| 0 <= k implies !model::occurs_at(s, p, k) by {
        if model::occurs_at(s, p, k) {
            let n = p.len() - 1;
            assert(s.subrange(k, k + p.len())[n] == s[k + n]);
        }
    }
}

proof fn lemma_crate_path(m: Seq<char>)
    requires
        !m.contains(':'),
        !m.contains('/'),
    ensures
        rust_relative("crate::"@ + m) == "src/"@ + m,
{
    reveal_strlit("crate::");
    reveal_strlit("::");
    reveal_strlit("/");
    reveal_strlit("crate/");
    reveal_strlit("src/");
    reveal_strlit("super/");
    reveal_strlit("self/");
    let module = "crate::"@ + m;
    let crated = "crate/"@ + m;
    let result = "src/"@ + m;
    // The two colons become a slash.
    let colons = "::"@;
    assert forall|k: int| 0 <= k < 5 implies !model::occurs_at(module, colons, k) by {
        if model::occurs_at(module, colons, k) {
            assert(module.subrange(k, k + 2)[0] == module[k]);
            assert(module[k] == "crate::"@[k]);
        }
    }
    assert(module.subrange(5, 7) =~= colons);
    lemmas::lemma_find_first(module, colons, 5, 0);
    assert(module.skip(7) =~= m);
    let five = module.take(5);
    assert forall|k: int| 0 <= k implies !model::occurs_at(m, colons, k) by {
        if model::occurs_at(m, colons, k) {
            assert(m.subrange(k, k + 2)[0] == m[k]);
        }
    }
    lemmas::lemma_find_nowhere(m, colons, 0);
    assert(model::split(m, colons) == seq![m]);
    assert(model::split(module, colons) == seq![five] + seq![m]);
    lemmas::lemma_join_cons(five, seq![m], "/"@);
    assert(model::replace(module, colons, "/"@) =~= crated);
    // The anchor becomes the source directory.
    let anchor = "crate/"@;
    assert(crated.subrange(0, 6) =~= anchor);
    lemmas::lemma_find_first(crated, anchor, 0, 0);
    assert(crated.skip(6) =~= m);
    assert(crated.take(0) =~= Seq::empty());
    assert forall|k: int| 0 <= k implies !model::occurs_at(m, anchor, k) by {
        if model::occurs_at(m, anchor, k) {
            assert(m.subrange(k, k + 6)[5] == m[k + 5]);
        }
    }
    lemmas::lemma_find_nowhere(m, anchor, 0);
    assert(model::split(m, anchor) == seq![m]);
    assert(model::split(crated, anchor) == seq![Seq::<char>::empty()] + seq![m]);
    lemmas::lemma_join_cons(Seq::empty(), seq![m], "src/"@);
    assert(model::replace(crated, anchor, "src/"@) =~= result);
    // Nothing else is replaced.
    assert forall|k: int| 0 <= k < result.len() && #[trigger] result[k] == '/' implies k == 3 by {
        if k >= 4 {
            assert(m[k - 4] == '/');
        }
    }
    lemma_slash_too_near(result, "super/"@, 3);
    lemma_replace_nothing(result, "super/"@, Seq::empty());
    lemma_slash_too_near(result, "self/"@, 3);
    lemma_replace_nothing(result, "self/"@, Seq::empty());
}

/// The pieces of names that are joined by a mark of one character.
proof fn lemma_split_joined(v: Seq<Seq<char>>, c: char)
    requires
        v.len() > 0,
        forall|i: int| 0 <= i < v.len() ==> !(#[trigger] v[i]).contains(c),
    ensures
        model::split(model::join(v, seq![c]), seq![c]) == v,
    decreases v.len(),
{
    assert(!v[0].contains(c));
    if v.len() == 1 {
        lemmas::lemma_split_single(v[0], c);
        assert(seq![v[0]] =~= v);
    } else {
        let rest = v.skip(1);
        assert(seq![v[0]] + rest =~= v);
        lemmas::lemma_join_cons(v[0], rest, seq![c]);
        lemmas::lemma_split_first(v[0], c, model::join(rest, seq![c]));
        lemma_split_joined(rest, c);
    }
}

/// A module of Python is resolved below the root, each of its dots a directory: to the
/// file of its name or to the `__init__.py` of its directory. One that begins with a dot
/// is not resolved.
pub proof fn law_python_imports_are_resolved(
    v: Seq<Seq<char>>,
    from_file: Seq<char>,
    root: Seq<char>,
    present: Seq<Seq<char>>,
)
    requires
        v.len() > 0,
        v[0].len() > 0,
        forall|i: int| 0 <= i < v.len() ==> !(#[trigger] v[i]).contains('.'),
    ensures
        ({
            let r = resolved(model::join(v, "."@), from_file, root, Language::Python, present);
            let file = model::join(v, "/"@) + ".py"@;
            let in_dir = model::join(v, "/"@) + "/__init__.py"@;
            &&& present.contains(path::join(root, file)) ==> r == Some(file)
            &&& !present.contains(path::join(root, file)) && present.contains(
                path::join(root, in_dir),
            ) ==> r == Some(in_dir)
            &&& r is Some ==> present.contains(path::join(root, file)) || present.contains(
                path::join(root, in_dir),
            )
        }),
        resolved("."@ + v[0], from_file, root, Language::Python, present) is None,
{
    reveal_strlit(".");
    assert("."@ =~= seq!['.']);
    let module = model::join(v, "."@);
    lemma_split_joined(v, '.');
    assert(!v[0].contains('.'));
    assert(module[0] == v[0][0]) by {
        if v.len() > 1 {
            assert(seq![v[0]] + v.skip(1) =~= v);
            lemmas::lemma_join_cons(v[0], v.skip(1), "."@);
        }
    }
    assert(v[0].contains(v[0][0]));
    assert(module.len() > 0) by {
        if v.len() > 1 {
            assert(seq![v[0]] + v.skip(1) =~= v);
            lemmas::lemma_join_cons(v[0], v.skip(1), "."@);
        }
    }
    assert(module.take(1)[0] == module[0]);
    assert(("."@ + v[0]).take(1) =~= "."@);
    reveal_with_fuel(first_present, 3);
}

/// Every import that can be resolved becomes a dependency of its file, and every
/// dependency that is found in this way comes from such an import.
pub proof fn law_imports_become_dependencies(m: RepoModel, present: Seq<Seq<char>>, n: nat)
    requires
        n <= m.files.len(),
    ensures
        forall|i: int, j: int, p: Seq<char>|
            0 <= i < n && 0 <= j < m.files[i].1.imports.len() && #[trigger] imports_file(
                m,
                present,
                i,
                j,
                p,
            ) ==> exists|e: int|
                0 <= e < import_edges(m, present, n).len() && (#[trigger] import_edges(
                    m,
                    present,
                    n,
                )[e]).from == m.files[i].1.path && path::key(import_edges(m, present, n)[e].to)
                    == path::key(p),
        forall|e: int|
            0 <= e < import_edges(m, present, n).len() ==> exists|i: int, j: int|
                0 <= i < n && 0 <= j < m.files[i].1.imports.len() && #[trigger] imports_file(
                    m,
                    present,
                    i,
                    j,
                    (#[trigger] import_edges(m, present, n)[e]).to,
                ) && m.files[i].1.path == import_edges(m, present, n)[e].from,
    decreases n,
{
    if n > 0 {
        law_imports_become_dependencies(m, present, (n - 1) as nat);
        let a = import_edges(m, present, (n - 1) as nat);
        let node = m.files[n - 1].1;
        let b = file_edges(node, m.root, present);
        let all = import_edges(m, present, n);
        assert(all =~= a + b);
        let targets = import_targets(
            node.imports,
            node.path,
            m.root,
            node.language,
            present,
            node.imports.len(),
        );
        assert forall|i: int, j: int, p: Seq<char>|
            0 <= i < n && 0 <= j < m.files[i].1.imports.len() && #[trigger] imports_file(
                m,
                present,
                i,
                j,
                p,
            ) implies exists|e: int|
            0 <= e < all.len() && (#[trigger] all[e]).from == m.files[i].1.path && path::key(
                all[e].to,
            ) == path::key(p) by {
            if i < n - 1 {
                let e = choose|e: int|
                    0 <= e < a.len() && (#[trigger] a[e]).from == m.files[i].1.path && path::key(
                        a[e].to,
                    ) == path::key(p);
                assert(all[e] == a[e]);
            } else {
                let k = lemma_target_of(node, m.root, present, node.imports.len(), j, p);
                assert(b[k].to == targets[k]);
                assert(all[a.len() + k] == b[k]);
            }
        }
        assert forall|e: int| 0 <= e < all.len() implies exists|i: int, j: int|
            0 <= i < n && 0 <= j < m.files[i].1.imports.len() && #[trigger] imports_file(
                m,
                present,
                i,
                j,
                (#[trigger] all[e]).to,
            ) && m.files[i].1.path == all[e].from by {
            if e < a.len() {
                assert(all[e] == a[e]);
                let (i, j) = choose|i: int, j: int|
                    0 <= i < n - 1 && 0 <= j < m.files[i].1.imports.len()
                        && #[trigger] imports_file(m, present, i, j, a[e].to)
                        && m.files[i].1.path == a[e].from;
                assert(imports_file(m, present, i, j, all[e].to));
            } else {
                let k = e - a.len();
                assert(all[e] == b[k]);
                assert(b[k].to == targets[k]);
                let j = lemma_target_from(node, m.root, present, node.imports.len(), k);
                assert(imports_file(m, present, n - 1, j, all[e].to));
            }
        }
    }
}

/// Import `j` of a file is resolved to a path.
pub open spec fn resolves_to(
    node: NodeModel,
    root: Seq<char>,
    present: Seq<Seq<char>>,
    j: int,
    p: Seq<char>,
) -> bool {
    resolved(node.imports[j].module, node.path, root, node.language, present) == Some(p)
}

/// Import `j` of file `i` is resolved to a path.
pub open spec fn imports_file(
    m: RepoModel,
    present: Seq<Seq<char>>,
    i: int,
    j: int,
    p: Seq<char>,
) -> bool {
    resolves_to(m.files[i].1, m.root, present, j, p)
}

proof fn lemma_target_of(
    node: NodeModel,
    root: Seq<char>,
    present: Seq<Seq<char>>,
    n: nat,
    j: int,
    p: Seq<char>,
) -> (k: int)
    requires
        n <= node.imports.len(),
        0 <= j < n,
        resolves_to(node, root, present, j, p),
    ensures
        ({
            let t = import_targets(node.imports, node.path, root, node.language, present, n);
            0 <= k < t.len() && path::key(t[k]) == path::key(p)
        }),
    decreases n,
{
    let a = import_targets(node.imports, node.path, root, node.language, present, (n - 1) as nat);
    let t = import_targets(node.imports, node.path, root, node.language, present, n);
    if j < n - 1 {
        let k = lemma_target_of(node, root, present, (n - 1) as nat, j, p);
        assert(t[k] == a[k]);
        k
    } else if t.len() > a.len() {
        a.len() as int
    } else {
        let k = choose|k: int| 0 <= k < a.len() && path::key(#[trigger] a[k]) == path::key(p);
        k
    }
}

proof fn lemma_target_from(
    node: NodeModel,
    root: Seq<char>,
    present: Seq<Seq<char>>,
    n: nat,
    k: int,
) -> (j: int)
    requires
        n <= node.imports.len(),
        0 <= k < import_targets(node.imports, node.path, root, node.language, present, n).len(),
    ensures
        0 <= j < n,
        resolves_to(
            node,
            root,
            present,
            j,
            import_targets(node.imports, node.path, root, node.language, present, n)[k],
        ),
    decreases n,
{
    let a = import_targets(node.imports, node.path, root, node.language, present, (n - 1) as nat);
    let t = import_targets(node.imports, node.path, root, node.language, present, n);
    if k < a.len() {
        assert(t[k] == a[k]);
        lemma_target_from(node, root, present, (n - 1) as nat, k)
    } else {
        n - 1
    }
}

/// The summary has one line for each file, in the order of the paths, and no line is
/// without its file.
pub proof fn law_summary_has_a_line_for_each_file(m: RepoModel, i: int) -> (k: int)
    requires
        0 <= i < m.files.len(),
    ensures
        names_of(m).len() == m.files.len(),
        0 <= k < names_of(m).len(),
        names_of(m)[k] == m.files[i].0,
        forall|a: int, b: int|
            0 <= a <= b < names_of(m).len() ==> order::in_order(names_of(m)[a], names_of(m)[b]),
        summary_of(m, names_of(m), 0).len() == 0,
        summary_of(m, names_of(m), (k + 1) as nat) == summary_of(m, names_of(m), k as nat)
            + summary_line(m, m.files[i].0),
        model::contains(
            summary_of(m, names_of(m), m.files.len()),
            summary_line(m, m.files[i].0),
        ),
{
    broadcast use vstd::seq_lib::group_to_multiset_ensures;

    let all = m.files.map_values(|f: (Seq<char>, NodeModel)| f.0);
    order::law_sorted(all);
    let x = m.files[i].0;
    assert(all[i] == x);
    assert(all.contains(x));
    assert(all.to_multiset().count(x) > 0);
    assert(names_of(m).contains(x));
    let k = choose|k: int| 0 <= k < names_of(m).len() && names_of(m)[k] == x;
    lemma_summary_holds(m, names_of(m), k, m.files.len());
    k
}

proof fn lemma_summary_holds(m: RepoModel, names: Seq<Seq<char>>, k: int, n: nat)
    requires
        0 <= k < n <= names.len(),
    ensures
        model::contains(summary_of(m, names, n), summary_line(m, names[k])),
    decreases n,
{
    let before = summary_of(m, names, (n - 1) as nat);
    let line = summary_line(m, names[n - 1]);
    if k < n - 1 {
        lemma_summary_holds(m, names, k, (n - 1) as nat);
        lemmas::lemma_contains_within(Seq::empty(), before, line, summary_line(m, names[k]));
        assert(Seq::<char>::empty() + before + line =~= before + line);
    } else {
        let s = before + line;
        assert(s.subrange(before.len() as int, s.len() as int) =~= line);
        lemmas::lemma_found(s, line, 0, before.len() as int);
    }
}

/// A line of the summary begins with the path, tells everything that the file defines and
/// every file that it depends on, and ends the line.
pub proof fn law_summary_tells_what_a_file_needs(
    m: RepoModel,
    name: Seq<char>,
    node: NodeModel,
    d: int,
    e: int,
)
    requires
        file_at(m, name) == Some(node),
    ensures
        model::starts_with(summary_line(m, name), name),
        model::ends_with(summary_line(m, name), "\n"@),
        0 <= d < node.definitions.len() && node.definitions[d].len() > 0 ==> model::contains(
            summary_line(m, name),
            node.definitions[d],
        ),
        0 <= e < m.edges.len() && path::key(m.edges[e].from) == path::key(name) ==> model::contains(
            summary_line(m, name),
            m.edges[e].to,
        ),
        node.definitions.len() == 0 && (forall|j: int|
            0 <= j < m.edges.len() ==> path::key((#[trigger] m.edges[j]).from) != path::key(name))
            ==> summary_line(m, name) == name + "\n"@,
{
    reveal_strlit("\n");
    let s = summary_line(m, name);
    let defs = model::join(node.definitions, ", "@);
    let out = edges_from(m.edges, name);
    let deps = out.map_values(|x: EdgeModel| x.to);
    let joined = model::join(deps, ", "@);
    let shown = if deps.len() == 0 {
        Seq::empty()
    } else {
        " → "@ + joined
    };
    assert(s.take(name.len() as int) =~= name);
    assert(s.skip(s.len() - 1) =~= "\n"@);
    if 0 <= d < node.definitions.len() && node.definitions[d].len() > 0 {
        let p = node.definitions[d];
        assert(p.subrange(0, p.len() as int) =~= p);
        lemmas::lemma_found(p, p, 0, 0);
        lemmas::lemma_join_holds(node.definitions, ", "@, d, p);
        lemmas::lemma_find_sound(defs, p, 0);
        assert(defs.len() > 0);
        lemmas::lemma_contains_within(name + ": "@, defs, shown + "\n"@, p);
        assert(name + ": "@ + defs + (shown + "\n"@) =~= s);
    }
    let keeps = |x: EdgeModel| path::key(x.from) == path::key(name);
    if 0 <= e < m.edges.len() && path::key(m.edges[e].from) == path::key(name) {
        let x = m.edges[e];
        m.edges.lemma_filter_contains(keeps, e);
        let j = choose|j: int| 0 <= j < out.len() && out[j] == x;
        assert(deps[j] == x.to);
        let p = x.to;
        assert(p.subrange(0, p.len() as int) =~= p);
        lemmas::lemma_found(p, p, 0, 0);
        lemmas::lemma_join_holds(deps, ", "@, j, p);
        let head = if defs.len() == 0 {
            name + " → "@
        } else {
            name + ": "@ + defs + " → "@
        };
        lemmas::lemma_contains_within(head, joined, "\n"@, p);
        assert(head + joined + "\n"@ =~= s);
    }
    if node.definitions.len() == 0 && (forall|j: int|
        0 <= j < m.edges.len() ==> path::key((#[trigger] m.edges[j]).from) != path::key(name)) {
        assert(defs.len() == 0);
        lemma_none_kept(m.edges, keeps);
        assert(name + Seq::<char>::empty() =~= name);
    }
}

proof fn lemma_none_kept(v: Seq<EdgeModel>, keeps: spec_fn(EdgeModel) -> bool)
    requires
        forall|j: int| 0 <= j < v.len() ==> !keeps(#[trigger] v[j]),
    ensures
        v.filter(keeps).len() == 0,
    decreases v.len(),
{
    reveal(Seq::filter);
    if v.len() > 0 {
        assert(!keeps(v[v.len() - 1]));
        assert forall|j: int| 0 <= j < v.drop_last().len() implies !keeps(
            #[trigger] v.drop_last()[j],
        ) by {
            assert(v.drop_last()[j] == v[j]);
        }
        lemma_none_kept(v.drop_last(), keeps);
    }
}

/// To find the dependencies it is enough to know which of the probed paths are there: where
/// two lists of paths agree on those, the same dependencies are found.
pub proof fn law_probed_paths_are_enough(
    m: RepoModel,
    present: Seq<Seq<char>>,
    other: Seq<Seq<char>>,
    n: nat,
)
    requires
        n <= m.files.len(),
        forall|i: int|
            0 <= i < probes_of(m, n).len() ==> (present.contains(#[trigger] probes_of(m, n)[i])
                <==> other.contains(probes_of(m, n)[i])),
    ensures
        import_edges(m, present, n) == import_edges(m, other, n),
    decreases n,
{
    if n > 0 {
        let before = probes_of(m, (n - 1) as nat);
        let node = m.files[n - 1].1;
        let own = file_probes(node, m.root, node.imports.len());
        let all = probes_of(m, n);
        assert(all == before + own);
        assert forall|i: int| 0 <= i < before.len() implies (present.contains(
            #[trigger] before[i],
        ) <==> other.contains(before[i])) by {
            assert(all[i] == before[i]);
        }
        assert forall|i: int| 0 <= i < own.len() implies (present.contains(#[trigger] own[i])
            <==> other.contains(own[i])) by {
            assert(all[before.len() + i] == own[i]);
        }
        law_probed_paths_are_enough(m, present, other, (n - 1) as nat);
        lemma_probes_of_imports(node, m.root, present, other, node.imports.len());
    }
}

proof fn lemma_probes_of_imports(
    node: NodeModel,
    root: Seq<char>,
    present: Seq<Seq<char>>,
    other: Seq<Seq<char>>,
    n: nat,
)
    requires
        n <= node.imports.len(),
        forall|i: int|
            0 <= i < file_probes(node, root, n).len() ==> (present.contains(
                #[trigger] file_probes(node, root, n)[i],
            ) <==> other.contains(file_probes(node, root, n)[i])),
    ensures
        import_targets(node.imports, node.path, root, node.language, present, n) == import_targets(
            node.imports,
            node.path,
            root,
            node.language,
            other,
            n,
        ),
    decreases n,
{
    if n > 0 {
        let before = file_probes(node, root, (n - 1) as nat);
        let c = candidates(node.imports[n - 1].module, node.path, root, node.language);
        let own = c.map_values(|x: CandidateModel| x.probe);
        let all = file_probes(node, root, n);
        assert(all == before + own);
        assert forall|i: int| 0 <= i < before.len() implies (present.contains(
            #[trigger] before[i],
        ) <==> other.contains(before[i])) by {
            assert(all[i] == before[i]);
        }
        assert forall|i: int| 0 <= i < c.len() implies (present.contains((#[trigger] c[i]).probe)
            <==> other.contains(c[i].probe)) by {
            assert(all[before.len() + i] == own[i]);
        }
        lemma_probes_of_imports(node, root, present, other, (n - 1) as nat);
        lemma_first_present(c, present, other, 0);
    }
}

proof fn lemma_first_present(
    c: Seq<CandidateModel>,
    present: Seq<Seq<char>>,
    other: Seq<Seq<char>>,
    i: int,
)
    requires
        0 <= i,
        forall|j: int|
            0 <= j < c.len() ==> (present.contains((#[trigger] c[j]).probe) <==> other.contains(
                c[j].probe,
            )),
    ensures
        first_present(c, present, i) == first_present(c, other, i),
    decreases c.len() - i,
{
    if i < c.len() {
        assert(present.contains(c[i].probe) <==> other.contains(c[i].probe));
        lemma_first_present(c, present, other, i + 1);
    }
}

} // verus!

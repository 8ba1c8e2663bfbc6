//! Which files of memories have changed between two looks at a directory.

use crate::path;
use crate::path::FilePath;
use crate::text::ops;
use crate::text::text_map::TextMap;
use vstd::prelude::*;

verus! {

/// A change of a file.
#[derive(Debug)]
pub enum MemoryWatchEvent {
    /// The file is new.
    Created { path: String },
    /// The file has changed.
    Modified { path: String },
    /// The file is gone.
    Deleted { path: String },
}

/// What a change holds.
#[verifier::ext_equal]
pub enum ChangeModel {
    Created { path: Seq<char> },
    Modified { path: Seq<char> },
    Deleted { path: Seq<char> },
}

impl View for MemoryWatchEvent {
    type V = ChangeModel;

    open spec fn view(&self) -> ChangeModel {
        match *self {
            MemoryWatchEvent::Created { path } => ChangeModel::Created { path: path@ },
            MemoryWatchEvent::Modified { path } => ChangeModel::Modified { path: path@ },
            MemoryWatchEvent::Deleted { path } => ChangeModel::Deleted { path: path@ },
        }
    }
}

/// The changes that a list holds.
pub open spec fn change_models(v: Seq<MemoryWatchEvent>) -> Seq<ChangeModel> {
    v.map_values(|e: MemoryWatchEvent| e@)
}

/// When each file was last modified, where that is known.
pub type Moments = Map<Seq<char>, Option<u64>>;

/// What has happened to a file that is there now, if anything.
pub open spec fn change_of(old: Moments, new: Moments, p: Seq<char>) -> Option<ChangeModel> {
    if !old.contains_key(p) {
        Some(ChangeModel::Created { path: p })
    } else if old[p] != new[p] && new[p] is Some {
        Some(ChangeModel::Modified { path: p })
    } else {
        None
    }
}

/// What has happened to the first `n` of the files that are there now.
pub open spec fn changes_upto(old: Moments, new: Moments, files: Seq<Seq<char>>, n: nat) -> Seq<
    ChangeModel,
>
    decreases n,
{
    if n == 0 {
        Seq::empty()
    } else {
        let before = changes_upto(old, new, files, (n - 1) as nat);
        match change_of(old, new, files[n - 1]) {
            Some(c) => before.push(c),
            None => before,
        }
    }
}

/// Which of the first `n` files that were there are gone.
pub open spec fn deletions_upto(new: Moments, files: Seq<Seq<char>>, n: nat) -> Seq<ChangeModel>
    decreases n,
{
    if n == 0 {
        Seq::empty()
    } else {
        let before = deletions_upto(new, files, (n - 1) as nat);
        if new.contains_key(files[n - 1]) {
            before
        } else {
            before.push(ChangeModel::Deleted { path: files[n - 1] })
        }
    }
}

/// Whether a file is watched: it holds memories.
pub fn is_watched(file: &FilePath) -> (r: bool)
    ensures
        r == (path::extension(file@) == Some("md"@)),
{
    match file.extension() {
        Some(e) => ops::same_text(e.as_str(), "md"),
        None => false,
    }
}

/// The changes between two looks: new and modified files first, then those that
/// are gone.
pub fn changes(old: &TextMap<Option<u64>>, new: &TextMap<Option<u64>>) -> (r: Vec<MemoryWatchEvent>)
    requires
        old.wf(),
        new.wf(),
    ensures
        change_models(r@) == changes_upto(old@, new@, new.order(), new.order().len())
            + deletions_upto(new@, old.order(), old.order().len()),
{
    let mut out: Vec<MemoryWatchEvent> = Vec::new();
    assert(change_models(out@) =~= Seq::empty());
    let n: usize = new.len();
    let mut i: usize = 0;
    while i < n
        invariant
            i <= n,
            n == new.order().len(),
            old.wf(),
            new.wf(),
            change_models(out@) == changes_upto(old@, new@, new.order(), i as nat),
        decreases n - i,
    {
        let ghost before = out@;
        let name = new.key_at(i);
        let moment = *new.value_at(i);
        match old.get(name.as_str()) {
            Some(earlier) => {
                let earlier = *earlier;
                let same = match (earlier, moment) {
                    (Some(a), Some(b)) => a == b,
                    (None, None) => true,
                    _ => false,
                };
                if !same && moment.is_some() {
                    let event = MemoryWatchEvent::Modified { path: name.clone() };
                    let ghost shown = event@;
                    out.push(event);
                    assert(change_models(out@) =~= change_models(before).push(shown));
                }
            },
            None => {
                let event = MemoryWatchEvent::Created { path: name.clone() };
                let ghost shown = event@;
                out.push(event);
                assert(change_models(out@) =~= change_models(before).push(shown));
            },
        }
        i = i + 1;
    }
    let ghost first = change_models(out@);
    assert(first + deletions_upto(new@, old.order(), 0) =~= first);
    let m: usize = old.len();
    let mut j: usize = 0;
    while j < m
        invariant
            j <= m,
            m == old.order().len(),
            old.wf(),
            new.wf(),
            change_models(out@) == first + deletions_upto(new@, old.order(), j as nat),
        decreases m - j,
    {
        let ghost before = out@;
        let name = old.key_at(j);
        if !new.contains_key(name.as_str()) {
            let event = MemoryWatchEvent::Deleted { path: name.clone() };
            let ghost shown = event@;
            out.push(event);
            assert(change_models(out@) =~= change_models(before).push(shown));
            assert((first + deletions_upto(new@, old.order(), j as nat)).push(shown) =~= first
                + deletions_upto(new@, old.order(), j as nat).push(shown));
        }
        j = j + 1;
    }
    out
}

/// Where nothing has changed there is nothing to tell.
pub proof fn law_no_change_is_silent(m: Moments, files: Seq<Seq<char>>, n: nat)
    requires
        n <= files.len(),
        forall|i: int| 0 <= i < files.len() ==> m.contains_key(#[trigger] files[i]),
    ensures
        changes_upto(m, m, files, n) == Seq::<ChangeModel>::empty(),
        deletions_upto(m, files, n) == Seq::<ChangeModel>::empty(),
    decreases n,
{
    if n > 0 {
        law_no_change_is_silent(m, files, (n - 1) as nat);
        assert(m.contains_key(files[n - 1]));
    }
}

/// A file that was not there is told as new, and one that is no longer there as
/// gone.
pub proof fn law_changes_are_told(old: Moments, new: Moments, files: Seq<Seq<char>>, n: nat, i: int)
    requires
        0 <= i < n <= files.len(),
    ensures
        !old.contains_key(files[i]) ==> changes_upto(old, new, files, n).contains(
            ChangeModel::Created { path: files[i] },
        ),
        !new.contains_key(files[i]) ==> deletions_upto(new, files, n).contains(
            ChangeModel::Deleted { path: files[i] },
        ),
    decreases n,
{
    let a = changes_upto(old, new, files, (n - 1) as nat);
    let b = changes_upto(old, new, files, n);
    let c = deletions_upto(new, files, (n - 1) as nat);
    let d = deletions_upto(new, files, n);
    if i < n - 1 {
        law_changes_are_told(old, new, files, (n - 1) as nat, i);
        if !old.contains_key(files[i]) {
            let k = a.index_of(ChangeModel::Created { path: files[i] });
            assert(b[k] == a[k]);
        }
        if !new.contains_key(files[i]) {
            let k = c.index_of(ChangeModel::Deleted { path: files[i] });
            assert(d[k] == c[k]);
        }
    } else {
        if !old.contains_key(files[i]) {
            assert(b.last() == ChangeModel::Created { path: files[i] });
        }
        if !new.contains_key(files[i]) {
            assert(d.last() == ChangeModel::Deleted { path: files[i] });
        }
    }
}

/// A file that was changed is told as modified, where its moment is known.
pub proof fn law_modification_is_told(
    old: Moments,
    new: Moments,
    files: Seq<Seq<char>>,
    n: nat,
    i: int,
)
    requires
        0 <= i < n <= files.len(),
        old.contains_key(files[i]),
        old[files[i]] != new[files[i]],
        new[files[i]] is Some,
    ensures
        changes_upto(old, new, files, n).contains(ChangeModel::Modified { path: files[i] }),
    decreases n,
{
    let before = changes_upto(old, new, files, (n - 1) as nat);
    let all = changes_upto(old, new, files, n);
    if i < n - 1 {
        law_modification_is_told(old, new, files, (n - 1) as nat, i);
        let c = ChangeModel::Modified { path: files[i] };
        let j = choose|j: int| 0 <= j < before.len() && before[j] == c;
        assert(all[j] == c);
    } else {
        assert(all.last() == (ChangeModel::Modified { path: files[i] }));
    }
}

/// Nothing is told that did not happen.
pub proof fn law_only_changes_are_told(
    old: Moments,
    new: Moments,
    files: Seq<Seq<char>>,
    n: nat,
    j: int,
)
    requires
        n <= files.len(),
    ensures
        0 <= j < changes_upto(old, new, files, n).len() ==> match changes_upto(old, new, files, n)[j] {
            ChangeModel::Created { path } => files.contains(path) && !old.contains_key(path),
            ChangeModel::Modified { path } => files.contains(path) && old.contains_key(path)
                && new[path] is Some && old[path] != new[path],
            ChangeModel::Deleted { .. } => false,
        },
        0 <= j < deletions_upto(new, files, n).len() ==> match deletions_upto(new, files, n)[j] {
            ChangeModel::Deleted { path } => files.contains(path) && !new.contains_key(path),
            _ => false,
        },
    decreases n,
{
    if n > 0 {
        law_only_changes_are_told(old, new, files, (n - 1) as nat, j);
        assert(files.contains(files[n - 1]));
    }
}

} // verus!

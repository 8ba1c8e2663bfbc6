//! Where memories are kept on disk, at three levels: one file for everything,
//! one for each workspace, and one for each session.

use crate::outside;
use crate::path;
use crate::path::FilePath;
use crate::text::order;
use crate::text::{lemmas, model, ops};
use vstd::prelude::*;
use vstd::string::*;

verus! {

/// A level of storage.
#[derive(Debug, Clone, Copy, PartialEq, Eq, Structural)]
pub enum MemoryScope {
    /// Everything.
    Global,
    /// A workspace.
    Workspace,
    /// A session.
    Session,
}

/// Why memories cannot be written.
#[derive(Debug, Clone, Copy, PartialEq, Eq, Structural)]
pub enum StorageError {
    /// A session's file needs a name of its own.
    SessionScope,
}

impl StorageError {
    /// The error in words.
    pub fn describe(&self) -> (r: String)
        ensures
            r@ == "Session scope requires write_session method"@,
    {
        String::from_str("Session scope requires write_session method")
    }
}

/// The storage of memories.
#[derive(Debug)]
pub struct MemoryStorage {
    /// The root directory.
    pub root: FilePath,
    /// Names the workspace.
    pub workspace_hash: String,
}

/// What names a workspace: the beginning of the hash of its path.
pub open spec fn workspace_name(cwd: Seq<char>) -> Seq<char> {
    outside::hash_hex_of(cwd).take(16)
}

/// The directory of a workspace.
pub open spec fn workspace_dir(root: Seq<char>, hash: Seq<char>) -> Seq<char> {
    path::join(root, hash)
}

/// The directory of a workspace's sessions.
pub open spec fn session_dir(root: Seq<char>, hash: Seq<char>) -> Seq<char> {
    path::join(workspace_dir(root, hash), "sessions"@)
}

/// The file of a level; a session has none of that name.
pub open spec fn memory_file(root: Seq<char>, hash: Seq<char>, scope: MemoryScope) -> Option<
    Seq<char>,
> {
    match scope {
        MemoryScope::Global => Some(path::join(root, "MEMORY.md"@)),
        MemoryScope::Workspace => Some(path::join(workspace_dir(root, hash), "MEMORY.md"@)),
        MemoryScope::Session => None,
    }
}

/// What a file holds after something was appended.
pub open spec fn appended(existing: Option<Seq<char>>, content: Seq<char>) -> Seq<char> {
    match existing {
        None => content,
        Some(e) => if e.len() == 0 {
            content
        } else {
            model::trim_end(e) + "\n\n"@ + content
        },
    }
}

/// How many bytes of a session's name its file name shows.
pub open spec fn shown_bytes(sid: Seq<char>) -> nat {
    if model::byte_len(sid) <= 8 {
        model::byte_len(sid)
    } else {
        8
    }
}

/// The file name of a session.
pub open spec fn session_file_name(date: Seq<char>, slug: Seq<char>, sid: Seq<char>) -> Seq<char> {
    date + "-"@ + slug + "-"@ + sid.take(model::chars_in(sid, shown_bytes(sid))) + ".md"@
}

/// Whether a file name is that of a session.
pub open spec fn is_session_name(name: Seq<char>) -> bool {
    path::extension(name) == Some("md"@)
}

impl MemoryStorage {
    /// The storage of a workspace under a root directory.
    pub fn new(root: FilePath, cwd: &str) -> (r: Self)
        ensures
            r.root@ == root@,
            r.workspace_hash@ == workspace_name(cwd@),
    {
        MemoryStorage { root, workspace_hash: MemoryStorage::compute_workspace_hash(cwd) }
    }

    /// The storage of a workspace under the default root directory; without a
    /// home directory, under the current one.
    pub fn with_default_root(home: Option<&str>, cwd: &str) -> (r: Self)
        ensures
            r.root@ == path::join(
                path::join(
                    match home {
                        Some(h) => h@,
                        None => "."@,
                    },
                    ".ccode"@,
                ),
                "memory"@,
            ),
            r.workspace_hash@ == workspace_name(cwd@),
    {
        let home = match home {
            Some(h) => h,
            None => ".",
        };
        MemoryStorage::new(FilePath::new(home).join(".ccode").join("memory"), cwd)
    }

    /// What names a workspace: sixteen hexadecimal digits.
    pub fn compute_workspace_hash(cwd: &str) -> (r: String)
        ensures
            r@ == workspace_name(cwd@),
            r@.len() == 16,
            forall|i: int| 0 <= i < 16 ==> outside::is_hex_digit(#[trigger] r@[i]),
    {
        let full = outside::hash_hex(cwd);
        let chars = ops::chars_of(full.as_str());
        let r = ops::string_of(ops::take(chars.as_slice(), 16));
        assert forall|i: int| 0 <= i < 16 implies outside::is_hex_digit(#[trigger] r@[i]) by {
            assert(r@[i] == full@[i]);
        }
        r
    }

    /// What the file for everything holds at first.
    pub fn global_template() -> (r: String)
        ensures
            r@
                == "# Global Memory\n\n> This file is automatically managed by ccode's memory system.\n> You can also edit it manually — changes will be indexed on next session.\n\n## Preferences\n\n<!-- Add any cross-project preferences here -->\n"@,
    {
        String::from_str(
            "# Global Memory\n\n> This file is automatically managed by ccode's memory system.\n> You can also edit it manually — changes will be indexed on next session.\n\n## Preferences\n\n<!-- Add any cross-project preferences here -->\n",
        )
    }

    /// What the file of a workspace holds at first.
    pub fn workspace_template() -> (r: String)
        ensures
            r@ == "# Project Memory\n\n> Auto-populated by dream consolidation. Edit freely.\n"@,
    {
        String::from_str("# Project Memory\n\n> Auto-populated by dream consolidation. Edit freely.\n")
    }

    /// The directory of the workspace.
    pub fn workspace_dir(&self) -> (r: FilePath)
        ensures
            r@ == workspace_dir(self.root@, self.workspace_hash@),
    {
        self.root.join(self.workspace_hash.as_str())
    }

    /// The directory of the workspace's sessions.
    pub fn session_dir(&self) -> (r: FilePath)
        ensures
            r@ == session_dir(self.root@, self.workspace_hash@),
    {
        self.workspace_dir().join("sessions")
    }

    /// The file that is read for a level.
    pub fn read_path(&self, scope: MemoryScope) -> (r: Option<FilePath>)
        ensures
            match r {
                Some(p) => memory_file(self.root@, self.workspace_hash@, scope) == Some(p@),
                None => memory_file(self.root@, self.workspace_hash@, scope) is None,
            },
    {
        match scope {
            MemoryScope::Global => Some(self.root.join("MEMORY.md")),
            MemoryScope::Workspace => Some(self.workspace_dir().join("MEMORY.md")),
            MemoryScope::Session => None,
        }
    }

    /// The directory that must be there, and the file that is written, for a
    /// level.
    pub fn write_target(&self, scope: MemoryScope) -> (r: Result<(FilePath, FilePath), StorageError>)
        ensures
            match r {
                Ok(t) => {
                    &&& scope != MemoryScope::Session
                    &&& t.0@ == if scope == MemoryScope::Global {
                        self.root@
                    } else {
                        workspace_dir(self.root@, self.workspace_hash@)
                    }
                    &&& memory_file(self.root@, self.workspace_hash@, scope) == Some(t.1@)
                },
                Err(e) => scope == MemoryScope::Session && e == StorageError::SessionScope,
            },
    {
        match scope {
            MemoryScope::Global => Ok(
                (FilePath::new(self.root.as_text()), self.root.join("MEMORY.md")),
            ),
            MemoryScope::Workspace => Ok(
                (self.workspace_dir(), self.workspace_dir().join("MEMORY.md")),
            ),
            MemoryScope::Session => Err(StorageError::SessionScope),
        }
    }

    /// What a file holds after something was appended; `existing` is what it held,
    /// where there was such a file.
    pub fn appended(existing: Option<&str>, content: &str) -> (r: String)
        ensures
            r@ == appended(
                match existing {
                    Some(e) => Some(e@),
                    None => None,
                },
                content@,
            ),
    {
        match existing {
            None => String::from_str(content),
            Some(e) => {
                let chars = ops::chars_of(e);
                if chars.len() == 0 {
                    return String::from_str(content);
                }
                let kept = ops::string_of(ops::trim_end(chars.as_slice()));
                ops::concat3(kept.as_str(), "\n\n", content)
            },
        }
    }

    /// The session files among the names in the directory of the sessions, in
    /// order.
    pub fn list_sessions(&self, names: Vec<String>) -> (r: Vec<FilePath>)
        ensures
            path_texts(r@) == order::sorted(
                model::texts(names@).filter(|n: Seq<char>| is_session_name(n)),
            ).map_values(
                |n: Seq<char>| path::join(session_dir(self.root@, self.workspace_hash@), n),
            ),
    {
        let ghost f = |n: Seq<char>| is_session_name(n);
        let ghost all = model::texts(names@);
        let mut kept: Vec<String> = Vec::new();
        assert(model::texts(kept@) =~= Seq::empty());
        proof {
            reveal(Seq::filter);
        }
        assert(all.take(0).filter(f) =~= Seq::empty());
        for name in it: names
            invariant
                all == model::texts(it.seq()),
                f == (|n: Seq<char>| is_session_name(n)),
                model::texts(kept@) == all.take(it.index() as int).filter(f),
        {
            proof {
                reveal(Seq::filter);
            }
            let ghost i = it.index() as int;
            let ghost before = kept@;
            let ghost shown = name@;
            assert(all[i] == shown);
            assert(all.take(i + 1).drop_last() =~= all.take(i));
            if MemoryStorage::is_session_name(name.as_str()) {
                kept.push(name);
                assert(model::texts(kept@) =~= model::texts(before).push(shown));
            }
        }
        assert(all.take(all.len() as int) =~= all);
        let sorted = order::sort(kept);
        let ghost names = model::texts(sorted@);
        let ghost dir = session_dir(self.root@, self.workspace_hash@);
        let base = self.session_dir();
        let mut out: Vec<FilePath> = Vec::new();
        let ghost wanted = names.map_values(|n: Seq<char>| path::join(dir, n));
        assert(path_texts(out@) =~= wanted.take(0));
        let mut j: usize = 0;
        while j < sorted.len()
            invariant
                j <= sorted@.len(),
                names == model::texts(sorted@),
                dir == base@,
                wanted == names.map_values(|n: Seq<char>| path::join(dir, n)),
                path_texts(out@) == wanted.take(j as int),
            decreases sorted@.len() - j,
        {
            assert(names[j as int] == sorted@[j as int]@);
            let ghost before = out@;
            let file = base.join(sorted[j].as_str());
            let ghost shown = file@;
            out.push(file);
            assert(path_texts(out@) =~= path_texts(before).push(shown));
            assert(wanted.take(j + 1) =~= wanted.take(j as int).push(shown));
            j = j + 1;
        }
        assert(wanted.take(wanted.len() as int) =~= wanted);
        out
    }

    /// Whether a file name is that of a session.
    pub fn is_session_name(name: &str) -> (r: bool)
        ensures
            r == is_session_name(name@),
    {
        match FilePath::new(name).extension() {
            Some(e) => ops::same_text(e.as_str(), "md"),
            None => false,
        }
    }

    /// The file of a session. The session's name must not end inside a character
    /// where it is cut.
    pub fn session_file(&self, date: &str, slug: &str, sid: &str) -> (r: FilePath)
        requires
            model::is_boundary(sid@, shown_bytes(sid@)),
        ensures
            r@ == path::join(
                session_dir(self.root@, self.workspace_hash@),
                session_file_name(date@, slug@, sid@),
            ),
    {
        let chars = ops::chars_of(sid);
        let total: usize = ops::byte_len(chars.as_slice());
        let shown: usize = if total <= 8 {
            total
        } else {
            8
        };
        let n: usize = match ops::chars_in(chars.as_slice(), shown) {
            Some(n) => n,
            None => 0,
        };
        let short = ops::string_of(ops::take(chars.as_slice(), n));
        let start = ops::concat5(date, "-", slug, "-", short.as_str());
        let name = ops::concat2(start.as_str(), ".md");
        self.session_dir().join(name.as_str())
    }

    /// The root directory.
    pub fn root(&self) -> (r: &FilePath)
        ensures
            r@ == self.root@,
    {
        &self.root
    }

    /// What names the workspace.
    pub fn workspace_hash(&self) -> (r: &str)
        ensures
            r@ == self.workspace_hash@,
    {
        self.workspace_hash.as_str()
    }
}

/// The texts of some paths.
pub open spec fn path_texts(v: Seq<FilePath>) -> Seq<Seq<char>> {
    v.map_values(|p: FilePath| p@)
}

/// What is appended stands at the end, and what was there before stands at the
/// beginning but for white space at its end.
pub proof fn law_append_keeps_both(existing: Seq<char>, content: Seq<char>)
    ensures
        model::ends_with(appended(Some(existing), content), content),
        model::starts_with(appended(Some(existing), content), model::trim_end(existing)),
{
    let r = appended(Some(existing), content);
    if existing.len() > 0 {
        let head = model::trim_end(existing) + "\n\n"@;
        assert(r == head + content);
        assert(r.skip(r.len() - content.len()) =~= content);
        assert(r.take(model::trim_end(existing).len() as int) =~= model::trim_end(existing));
    } else {
        assert(model::trim_end(existing) =~= Seq::empty());
        assert(r.skip(0) =~= content);
        assert(r.take(0) =~= Seq::empty());
    }
}

/// Everything and a workspace are kept in different files.
pub proof fn law_levels_have_their_own_files(root: Seq<char>, hash: Seq<char>)
    requires
        hash.len() > 0,
        !path::is_absolute(hash),
    ensures
        memory_file(root, hash, MemoryScope::Global) != memory_file(
            root,
            hash,
            MemoryScope::Workspace,
        ),
{
    reveal_strlit("MEMORY.md");
    let file = "MEMORY.md"@;
    assert(path::join(root, file).len() + hash.len() <= path::join(
        path::join(root, hash),
        file,
    ).len());
}

/// The last piece of a name that ends with `.md` after a character ends so, too.
proof fn lemma_last_piece(s: Seq<char>)
    requires
        s.len() >= 4,
        s.skip(s.len() - 3) == ".md"@,
        s[s.len() - 4] != '/',
    ensures
        ({
            let v = model::split(s, "/"@);
            &&& v.len() > 0
            &&& v.last().len() >= 4
            &&& v.last().skip(v.last().len() - 3) == ".md"@
        }),
    decreases s.len(),
{
    reveal_strlit("/");
    reveal_strlit(".md");
    match model::find(s, "/"@) {
        Some(i) => {
            lemmas::lemma_find_sound(s, "/"@, 0);
            assert(s.subrange(i, i + 1)[0] == '/');
            assert(s.skip(s.len() - 3)[0] == '.' && s.skip(s.len() - 3)[1] == 'm'
                && s.skip(s.len() - 3)[2] == 'd');
            assert(i < s.len() - 4);
            let rest = s.skip(i + 1);
            assert(rest.skip(rest.len() - 3) =~= s.skip(s.len() - 3));
            lemma_last_piece(rest);
            assert(model::split(s, "/"@).last() == model::split(rest, "/"@).last());
        },
        None => {},
    }
}

/// A name that ends with `.md` after a character is that of a file, which is called
/// what its last piece is.
proof fn lemma_markdown_name(name: Seq<char>)
    requires
        name.len() >= 4,
        name.skip(name.len() - 3) == ".md"@,
        name[name.len() - 4] != '/',
    ensures
        path::file_name(name) == Some(model::split(name, "/"@).last()),
{
    reveal_strlit(".");
    reveal_strlit("..");
    reveal_strlit(".md");
    lemma_last_piece(name);
    let pieces = model::split(name, "/"@);
    let last = pieces.last();
    let keep = |p: Seq<char>| path::is_name(p);
    let rest = pieces.skip(1);
    reveal(Seq::filter);
    if pieces.len() == 1 {
        assert(rest =~= Seq::empty());
        assert(path::parts(name) =~= seq![last]);
    } else {
        assert(rest.last() == last);
        assert(rest.filter(keep) == rest.drop_last().filter(keep).push(last));
    }
}

/// The file of a session counts among the sessions. What the file's name shows of
/// the session's name must not end with a separator.
pub proof fn law_session_file_is_listed(date: Seq<char>, slug: Seq<char>, sid: Seq<char>)
    requires
        model::is_boundary(sid, shown_bytes(sid)),
        !model::ends_with(sid.take(model::chars_in(sid, shown_bytes(sid))), "/"@),
    ensures
        is_session_name(session_file_name(date, slug, sid)),
{
    reveal_strlit("/");
    reveal_strlit("-");
    reveal_strlit(".");
    reveal_strlit("md");
    reveal_strlit(".md");
    let shown = sid.take(model::chars_in(sid, shown_bytes(sid)));
    let name = session_file_name(date, slug, sid);
    assert(name.skip(name.len() - 3) =~= ".md"@);
    if shown.len() > 0 {
        assert(name[name.len() - 4] == shown.last());
        if shown.last() == '/' {
            assert(shown.skip(shown.len() - 1) =~= "/"@);
        }
    } else {
        assert(name[name.len() - 4] == '-');
    }
    lemma_last_piece(name);
    lemma_markdown_name(name);
    let last = model::split(name, "/"@).last();
    let n = last.len() as int;
    let end = last.skip(n - 3);
    assert(last[n - 3] == end[0] && last[n - 2] == end[1] && last[n - 1] == end[2]);
    assert(last.subrange(n - 1, n)[0] == 'd');
    assert(last.subrange(n - 2, n - 1)[0] == 'm');
    assert(last.subrange(n - 3, n - 2) =~= "."@);
    reveal_with_fuel(model::rfind_from, 4);
    assert(last.skip(n - 2) =~= "md"@);
}

/// A note is added below what stands already, with a blank line between; where nothing
/// stands, it is all that is written.
pub proof fn law_note_is_added_below(existing: Seq<char>, content: Seq<char>)
    ensures
        appended(None, content) == content,
        existing.len() == 0 ==> appended(Some(existing), content) == content,
        existing.len() > 0 ==> appended(Some(existing), content) == model::trim_end(existing)
            + "\n\n"@ + content,
{
}

/// The global memory stands at the root, that of a workspace in a directory of its own
/// below it, and a session has no single file.
pub proof fn law_memory_stands_in_its_file(root: Seq<char>, hash: Seq<char>)
    ensures
        memory_file(root, hash, MemoryScope::Global) == Some(path::join(root, "MEMORY.md"@)),
        memory_file(root, hash, MemoryScope::Workspace) == Some(
            path::join(path::join(root, hash), "MEMORY.md"@),
        ),
        memory_file(root, hash, MemoryScope::Session) is None,
        session_dir(root, hash) == path::join(path::join(root, hash), "sessions"@),
{
}

/// The file of a session is named by its day, its subject and the first eight bytes of
/// its name, or the whole name where it is shorter.
pub proof fn law_session_is_named(date: Seq<char>, slug: Seq<char>, sid: Seq<char>) -> (k: int)
    requires
        model::byte_len(sid) <= 8 || model::is_boundary(sid, 8),
    ensures
        0 <= k <= sid.len(),
        model::byte_len(sid) <= 8 ==> model::byte_len(sid.take(k)) == model::byte_len(sid),
        model::byte_len(sid) > 8 ==> model::byte_len(sid.take(k)) == 8,
        session_file_name(date, slug, sid) == date + "-"@ + slug + "-"@ + sid.take(k) + ".md"@,
{
    assert(sid.take(sid.len() as int) =~= sid);
    assert(model::is_boundary(sid, shown_bytes(sid)));
    model::chars_in(sid, shown_bytes(sid))
}

} // verus!

//! Keeps data in files, one for each key.
//!
//! Data is written to a temporary file, which then takes the place of the file:
//! no reader ever meets half of it. Files are read and written by the caller.

use crate::path;
use crate::path::FilePath;
use crate::text::{model, ops};
use vstd::prelude::*;
use vstd::string::*;

verus! {

/// Keeps data in the files of a directory.
#[derive(Debug)]
pub struct FileStorage {
    base_dir: FilePath,
}

/// What happens when a file is read or removed.
#[derive(Debug)]
pub enum FileOutcome<T> {
    /// It is done.
    Done(T),
    /// There is no such file.
    NotFound,
    /// Something else has gone wrong.
    Failed(String),
}

/// Where data is written, and where it comes to lie.
#[derive(Debug)]
pub struct SavePlan {
    /// The file that is written first.
    pub temp_path: FilePath,
    /// The file whose place it takes.
    pub path: FilePath,
}

impl View for FileStorage {
    type V = Seq<char>;

    closed spec fn view(&self) -> Seq<char> {
        self.base_dir@
    }
}

/// The file for a key.
pub open spec fn file_of(dir: Seq<char>, key: Seq<char>) -> Seq<char> {
    path::join(dir, key + ".json"@)
}

/// The temporary file for a file: its extension is replaced; where the file has
/// nothing but an extension, another is added.
pub open spec fn temp_of(file: Seq<char>) -> Seq<char> {
    if file == ".json"@ || model::ends_with(file, "/.json"@) {
        file + ".tmp"@
    } else {
        file.take(file.len() - 4) + "tmp"@
    }
}

impl FileStorage {
    /// Keeps data in the files of a directory, which must exist.
    pub fn new(base_dir: FilePath) -> (r: Self)
        ensures
            r@ == base_dir@,
    {
        FileStorage { base_dir }
    }

    /// The directory.
    pub fn base_dir(&self) -> (r: &FilePath)
        ensures
            r@ == self@,
    {
        &self.base_dir
    }

    /// The file for a key.
    pub fn key_to_path(&self, key: &str) -> (r: FilePath)
        ensures
            r@ == file_of(self@, key@),
    {
        let name = ops::concat2(key, ".json");
        self.base_dir.join(name.as_str())
    }

    /// Where the data for a key is written, and where it comes to lie.
    pub fn save_plan(&self, key: &str) -> (r: SavePlan)
        ensures
            r.path@ == file_of(self@, key@),
            r.temp_path@ == temp_of(file_of(self@, key@)),
    {
        let file = self.key_to_path(key);
        let chars = ops::chars_of(file.as_text());
        let s = chars.as_slice();
        let temp = if ops::is_text(s, ".json") || ops::ends_with(s, "/.json") {
            ops::concat2(file.as_text(), ".tmp")
        } else {
            proof {
                reveal_strlit(".json");
                lemma_file_of_ends(self@, key@);
            }
            let stem = ops::string_of(ops::take(s, s.len() - 4));
            ops::concat2(stem.as_str(), "tmp")
        };
        SavePlan { temp_path: FilePath::new(temp.as_str()), path: file }
    }

    /// What loading data gives: a file that is not there holds none.
    pub fn loaded(outcome: FileOutcome<Vec<u8>>) -> (r: Result<Option<Vec<u8>>, String>)
        ensures
            match outcome {
                FileOutcome::Done(data) => r == Ok::<Option<Vec<u8>>, String>(Some(data)),
                FileOutcome::NotFound => r == Ok::<Option<Vec<u8>>, String>(None),
                FileOutcome::Failed(reason) => r == Err::<Option<Vec<u8>>, String>(reason),
            },
    {
        match outcome {
            FileOutcome::Done(data) => Ok(Some(data)),
            FileOutcome::NotFound => Ok(None),
            FileOutcome::Failed(reason) => Err(reason),
        }
    }

    /// What deleting data gives: a file that is not there is as good as deleted.
    pub fn deleted(outcome: FileOutcome<()>) -> (r: Result<(), String>)
        ensures
            match outcome {
                FileOutcome::Failed(reason) => r == Err::<(), String>(reason),
                _ => r is Ok,
            },
    {
        match outcome {
            FileOutcome::Failed(reason) => Err(reason),
            _ => Ok(()),
        }
    }
}

proof fn lemma_file_of_ends(dir: Seq<char>, key: Seq<char>)
    ensures
        file_of(dir, key).len() >= 5,
        file_of(dir, key).skip(file_of(dir, key).len() - 5) == ".json"@,
{
    reveal_strlit(".json");
    let name = key + ".json"@;
    let file = file_of(dir, key);
    assert(name.skip(name.len() - 5) =~= ".json"@);
    assert(file.skip(file.len() - 5) =~= ".json"@);
}

/// A temporary file is never the file of a key, so that writing one disturbs
/// nothing that is kept.
pub proof fn law_temporary_file_is_no_key(dir: Seq<char>, key: Seq<char>, other: Seq<char>)
    ensures
        temp_of(file_of(dir, key)) != file_of(dir, other),
{
    reveal_strlit(".json");
    reveal_strlit(".tmp");
    reveal_strlit("tmp");
    let t = temp_of(file_of(dir, key));
    let f = file_of(dir, other);
    lemma_file_of_ends(dir, key);
    lemma_file_of_ends(dir, other);
    assert(".json"@[4] == 'n');
    assert(f.skip(f.len() - 5)[4] == 'n');
    assert(f.last() == 'n');
    assert(t.last() == 'p');
}

/// Different keys that do not start at the root have different files.
pub proof fn law_keys_have_their_own_files(dir: Seq<char>, a: Seq<char>, b: Seq<char>)
    requires
        a != b,
        !path::is_absolute(a + ".json"@),
        !path::is_absolute(b + ".json"@),
    ensures
        file_of(dir, a) != file_of(dir, b),
{
    reveal_strlit(".json");
    let x = file_of(dir, a);
    let y = file_of(dir, b);
    let lead = if dir.len() > 0 && dir.last() != '/' {
        dir + "/"@
    } else {
        dir
    };
    assert(x =~= lead + (a + ".json"@));
    assert(y =~= lead + (b + ".json"@));
    if x == y {
        assert(a.len() == b.len());
        assert(a =~= x.subrange(lead.len() as int, (lead.len() + a.len()) as int));
        assert(b =~= y.subrange(lead.len() as int, (lead.len() + b.len()) as int));
    }
}

/// The file for a key stands in the directory and is named by the key; its temporary file
/// stands beside it, with another extension in place of its own, or added where a key ends
/// without a name.
pub proof fn law_files_are_named_by_their_keys(dir: Seq<char>, key: Seq<char>)
    requires
        !path::is_absolute(key + ".json"@),
    ensures
        file_of(dir, key) == path::join(dir, key + ".json"@),
        path::is_plain(key + ".json"@) ==> path::file_name(file_of(dir, key)) == Some(
            key + ".json"@,
        ),
        key.len() > 0 && key.last() != '/' ==> temp_of(file_of(dir, key)) == path::join(
            dir,
            key + ".tmp"@,
        ),
        key.len() == 0 ==> temp_of(file_of(dir, key)) == path::join(dir, ".json.tmp"@),
{
    reveal_strlit(".json");
    reveal_strlit("/.json");
    reveal_strlit(".tmp");
    reveal_strlit("tmp");
    reveal_strlit(".json.tmp");
    reveal_strlit("/");
    let f = file_of(dir, key);
    let lead = if dir.len() > 0 && dir.last() != '/' {
        dir + "/"@
    } else {
        dir
    };
    assert(f =~= lead + key + ".json"@);
    if path::is_plain(key + ".json"@) {
        path::law_joined_name_is_the_file(dir, key + ".json"@);
    }
    if key.len() > 0 && key.last() != '/' {
        let n = f.len() as int;
        assert(f[n - 6] == key.last());
        if model::ends_with(f, "/.json"@) {
            assert(f.skip(n - 6)[0] == '/');
        }
        assert((key + ".tmp"@)[0] == (key + ".json"@)[0]);
        assert(f.take(n - 4) + "tmp"@ =~= lead + key + ".tmp"@);
        assert(path::join(dir, key + ".tmp"@) =~= lead + key + ".tmp"@);
    }
    if key.len() == 0 {
        assert(f =~= lead + ".json"@);
        if lead.len() > 0 {
            assert(lead.last() == '/');
            assert(f.skip(f.len() - 6) =~= "/.json"@);
        } else {
            assert(f =~= ".json"@);
        }
        assert(f + ".tmp"@ =~= lead + ".json.tmp"@);
        assert(path::join(dir, ".json.tmp"@) =~= lead + ".json.tmp"@);
    }
}

} // verus!

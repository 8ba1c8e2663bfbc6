//! File paths in the notation of Unix: components separated by `/`.

use crate::text::{lemmas, model, ops};
use vstd::prelude::*;
use vstd::string::*;

verus! {

/// Whether the path starts at the root.
pub open spec fn is_absolute(s: Seq<char>) -> bool {
    s.len() > 0 && s[0] == '/'
}

/// A piece between separators that names something.
pub open spec fn is_name(p: Seq<char>) -> bool {
    p.len() > 0 && p != "."@
}

/// The components of a path. Empty pieces and `.` name nothing and are left
/// out, but for a `.` that the path begins with.
pub open spec fn parts(s: Seq<char>) -> Seq<Seq<char>> {
    let pieces = model::split(s, "/"@);
    let rest = pieces.skip(1).filter(|p: Seq<char>| is_name(p));
    if pieces[0].len() > 0 {
        seq![pieces[0]] + rest
    } else {
        rest
    }
}

/// What tells paths apart: whether they start at the root, and their
/// components.
pub type PathKey = (bool, Seq<Seq<char>>);

/// What makes two paths equal: both start at the root or neither does, and
/// their components agree.
pub open spec fn key(s: Seq<char>) -> PathKey {
    (is_absolute(s), parts(s))
}

/// The last component, unless it is `.` or `..`.
pub open spec fn file_name(s: Seq<char>) -> Option<Seq<char>> {
    let p = parts(s);
    if p.len() > 0 && p.last() != "."@ && p.last() != ".."@ {
        Some(p.last())
    } else {
        None
    }
}

/// Where the extension's dot stands in a file name. A dot at the front starts
/// no extension.
pub open spec fn extension_dot(name: Seq<char>) -> Option<int> {
    match model::rfind(name, "."@) {
        Some(i) => if i > 0 {
            Some(i)
        } else {
            None
        },
        None => None,
    }
}

/// The file name up to its extension.
pub open spec fn file_stem(s: Seq<char>) -> Option<Seq<char>> {
    match file_name(s) {
        Some(name) => Some(
            match extension_dot(name) {
                Some(i) => name.take(i),
                None => name,
            },
        ),
        None => None,
    }
}

/// What follows the extension's dot in the file name.
pub open spec fn extension(s: Seq<char>) -> Option<Seq<char>> {
    match file_name(s) {
        Some(name) => match extension_dot(name) {
            Some(i) => Some(name.skip(i + 1)),
            None => None,
        },
        None => None,
    }
}

/// The path `r` seen from the directory `b`.
pub open spec fn join(b: Seq<char>, r: Seq<char>) -> Seq<char> {
    if is_absolute(r) {
        r
    } else if b.len() > 0 && b.last() != '/' {
        b + "/"@ + r
    } else {
        b + r
    }
}

/// The path without separators and `.` components at its end.
pub open spec fn without_tail(s: Seq<char>) -> Seq<char>
    decreases s.len(),
{
    if s.len() > 1 && s.last() == '/' {
        without_tail(s.drop_last())
    } else if s.len() > 1 && s.last() == '.' && s[s.len() - 2] == '/' {
        without_tail(s.drop_last())
    } else {
        s
    }
}

/// The path up to and with its last separator.
pub open spec fn through_separator(s: Seq<char>) -> Seq<char>
    decreases s.len(),
{
    if s.len() > 0 && s.last() != '/' {
        through_separator(s.drop_last())
    } else {
        s
    }
}

/// The path of the directory that holds the last component.
pub open spec fn parent(s: Seq<char>) -> Option<Seq<char>> {
    let t = without_tail(s);
    if t.len() == 0 || t == "/"@ {
        None
    } else {
        Some(without_tail(through_separator(t)))
    }
}

/// The path without separators and `.` components at its front.
pub open spec fn without_lead(s: Seq<char>) -> Seq<char>
    decreases s.len(),
{
    if s.len() > 0 && s[0] == '/' {
        without_lead(s.skip(1))
    } else if s.len() > 0 && s[0] == '.' && (s.len() == 1 || s[1] == '/') {
        without_lead(s.skip(1))
    } else {
        s
    }
}

/// What follows the first separator.
pub open spec fn past_separator(s: Seq<char>) -> Seq<char>
    decreases s.len(),
{
    if s.len() == 0 {
        s
    } else if s[0] == '/' {
        s.skip(1)
    } else {
        past_separator(s.skip(1))
    }
}

/// What follows the first `n` components of a path that does not begin with
/// `.`.
pub open spec fn past_parts(s: Seq<char>, n: nat) -> Seq<char>
    decreases n,
{
    if n == 0 {
        s
    } else {
        past_parts(past_separator(without_lead(s)), (n - 1) as nat)
    }
}

/// Whether the path has no component and does not start at the root.
pub open spec fn is_nothing(s: Seq<char>) -> bool {
    !is_absolute(s) && parts(s).len() == 0
}

/// The path `s` seen from the directory `base`, if it lies in it.
pub open spec fn strip_prefix(s: Seq<char>, base: Seq<char>) -> Option<Seq<char>> {
    let n = parts(base).len();
    if is_nothing(base) {
        Some(without_tail(s))
    } else if is_absolute(s) == is_absolute(base) && n <= parts(s).len() && parts(s).take(n as int)
        == parts(base) {
        let rest = if !is_absolute(s) && parts(s)[0] == "."@ {
            past_parts(s.skip(1), (n - 1) as nat)
        } else {
            past_parts(s, n)
        };
        Some(without_tail(without_lead(rest)))
    } else {
        None
    }
}

/// A file path.
#[derive(Debug)]
pub struct FilePath {
    pub text: String,
}

impl View for FilePath {
    type V = Seq<char>;

    open spec fn view(&self) -> Seq<char> {
        self.text@
    }
}

impl Clone for FilePath {
    fn clone(&self) -> (r: Self)
        ensures
            r@ == self@,
    {
        FilePath { text: self.text.clone() }
    }
}

/// The pieces that name something.
fn names<'a>(v: &[&'a [char]]) -> (r: Vec<&'a [char]>)
    ensures
        model::slices(r@) == model::slices(v@).filter(|p: Seq<char>| is_name(p)),
{
    let ghost keep = |p: Seq<char>| is_name(p);
    let mut out: Vec<&'a [char]> = Vec::new();
    let mut i: usize = 0;
    reveal(Seq::filter);
    while i < v.len()
        invariant
            i <= v@.len(),
            keep == (|p: Seq<char>| is_name(p)),
            model::slices(out@) == model::slices(v@.take(i as int)).filter(keep),
        decreases v@.len() - i,
    {
        reveal(Seq::filter);
        let ghost now = model::slices(v@.take(i + 1));
        let ghost before = out@;
        assert(now.drop_last() =~= model::slices(v@.take(i as int)));
        assert(now.last() == v@[i as int]@);
        if v[i].len() > 0 && !ops::is_text(v[i], ".") {
            out.push(v[i]);
            assert(model::slices(out@) =~= model::slices(before).push(v@[i as int]@));
        }
        i = i + 1;
    }
    assert(v@.take(v@.len() as int) =~= v@);
    out
}

/// The components of a path.
fn parts_of(s: &[char]) -> (r: Vec<&[char]>)
    ensures
        model::slices(r@) == parts(s@),
{
    proof {
        reveal_strlit("/");
    }
    let pieces = ops::split(s, "/");
    assert(model::slices(pieces@)[0] == pieces@[0]@);
    let tail = vstd::slice::slice_subrange(pieces.as_slice(), 1, pieces.len());
    assert(model::slices(tail@) =~= model::split(s@, "/"@).skip(1));
    let mut rest = names(tail);
    if pieces[0].len() > 0 {
        let mut out: Vec<&[char]> = Vec::new();
        out.push(pieces[0]);
        let ghost added = rest@;
        out.append(&mut rest);
        assert(model::slices(out@) =~= seq![pieces@[0]@] + model::slices(added));
        out
    } else {
        rest
    }
}

/// Whether two lists of pieces agree.
fn same_parts(a: &[&[char]], b: &[&[char]]) -> (r: bool)
    ensures
        r == (model::slices(a@) == model::slices(b@)),
{
    if a.len() != b.len() {
        assert(model::slices(a@).len() != model::slices(b@).len());
        return false;
    }
    let mut i: usize = 0;
    while i < a.len()
        invariant
            i <= a@.len(),
            a@.len() == b@.len(),
            forall|j: int| 0 <= j < i ==> (#[trigger] a@[j])@ == b@[j]@,
        decreases a@.len() - i,
    {
        if !ops::same(a[i], b[i]) {
            assert(model::slices(a@)[i as int] != model::slices(b@)[i as int]);
            return false;
        }
        i = i + 1;
    }
    assert(model::slices(a@) =~= model::slices(b@));
    true
}

/// Whether the path starts at the root.
fn starts_at_root(s: &[char]) -> (r: bool)
    ensures
        r == is_absolute(s@),
{
    s.len() > 0 && s[0] == '/'
}

impl FilePath {
    /// The path that the text denotes.
    pub fn new(text: &str) -> (r: Self)
        ensures
            r@ == text@,
    {
        FilePath { text: String::from_str(text) }
    }

    /// The path as it was written.
    pub fn as_text(&self) -> (r: &str)
        ensures
            r@ == self@,
    {
        self.text.as_str()
    }

    /// Whether the two paths are equal, component by component.
    pub fn same(&self, other: &FilePath) -> (r: bool)
        ensures
            r == (key(self@) == key(other@)),
    {
        let a = ops::chars_of(self.text.as_str());
        let b = ops::chars_of(other.text.as_str());
        starts_at_root(a.as_slice()) == starts_at_root(b.as_slice()) && same_parts(
            parts_of(a.as_slice()).as_slice(),
            parts_of(b.as_slice()).as_slice(),
        )
    }

    /// The last component, unless it is `.` or `..`.
    pub fn file_name(&self) -> (r: Option<String>)
        ensures
            model::opt_text(r) == file_name(self@),
    {
        let chars = ops::chars_of(self.text.as_str());
        let p = parts_of(chars.as_slice());
        if p.len() == 0 {
            return None;
        }
        let last = p[p.len() - 1];
        assert(model::slices(p@).last() == last@);
        if ops::is_text(last, ".") || ops::is_text(last, "..") {
            None
        } else {
            Some(ops::string_of(last))
        }
    }

    /// The file name up to its extension.
    pub fn file_stem(&self) -> (r: Option<String>)
        ensures
            model::opt_text(r) == file_stem(self@),
    {
        match self.file_name() {
            Some(name) => {
                let chars = ops::chars_of(name.as_str());
                match ops::rfind(chars.as_slice(), ".") {
                    Some(i) if i > 0 => Some(ops::string_of(ops::take(chars.as_slice(), i))),
                    _ => Some(name),
                }
            },
            None => None,
        }
    }

    /// What follows the last dot of the file name.
    pub fn extension(&self) -> (r: Option<String>)
        ensures
            model::opt_text(r) == extension(self@),
    {
        proof {
            reveal_strlit(".");
        }
        match self.file_name() {
            Some(name) => {
                let chars = ops::chars_of(name.as_str());
                let len: usize = chars.len();
                match ops::rfind(chars.as_slice(), ".") {
                    Some(i) if i > 0 && i < len => Some(ops::string_of(ops::skip(chars.as_slice(), i + 1))),
                    _ => None,
                }
            },
            None => None,
        }
    }

    /// The path `rest` seen from this directory.
    pub fn join(&self, rest: &str) -> (r: FilePath)
        ensures
            r@ == join(self@, rest@),
    {
        let b = ops::chars_of(self.text.as_str());
        let tail = ops::chars_of(rest);
        if starts_at_root(tail.as_slice()) {
            FilePath::new(rest)
        } else if b.len() > 0 && b[b.len() - 1] != '/' {
            FilePath { text: ops::concat3(self.text.as_str(), "/", rest) }
        } else {
            FilePath { text: ops::concat2(self.text.as_str(), rest) }
        }
    }

    /// The path of the directory that holds the last component.
    pub fn parent(&self) -> (r: Option<FilePath>)
        ensures
            match r {
                Some(p) => parent(self@) == Some(p@),
                None => parent(self@) is None,
            },
    {
        let chars = ops::chars_of(self.text.as_str());
        let t = cut_tail(chars.as_slice());
        if t.len() == 0 || ops::is_text(t, "/") {
            return None;
        }
        let mut n: usize = t.len();
        assert(t@.take(n as int) =~= t@);
        while n > 0 && t[n - 1] != '/'
            invariant
                n <= t@.len(),
                through_separator(t@) == through_separator(t@.take(n as int)),
            decreases n,
        {
            assert(t@.take(n as int).drop_last() =~= t@.take(n - 1));
            n = n - 1;
        }
        let dir = cut_tail(ops::take(t, n));
        Some(FilePath { text: ops::string_of(dir) })
    }
}

impl FilePath {
    /// The path seen from the directory `base`, if it lies in it.
    pub fn strip_prefix(&self, base: &FilePath) -> (r: Option<FilePath>)
        ensures
            match r {
                Some(p) => strip_prefix(self@, base@) == Some(p@),
                None => strip_prefix(self@, base@) is None,
            },
    {
        let s = ops::chars_of(self.text.as_str());
        let b = ops::chars_of(base.text.as_str());
        let own = parts_of(s.as_slice());
        let start = parts_of(b.as_slice());
        let n: usize = start.len();
        let ghost all = model::slices(own@);
        assert(all.len() == own@.len());
        assert(model::slices(start@).len() == start@.len());
        if n == 0 && !starts_at_root(b.as_slice()) {
            return Some(FilePath { text: ops::string_of(cut_tail(s.as_slice())) });
        }
        if starts_at_root(s.as_slice()) != starts_at_root(b.as_slice()) || n > own.len() {
            return None;
        }
        let front = vstd::slice::slice_subrange(own.as_slice(), 0, n);
        assert(model::slices(front@) =~= all.take(n as int));
        if !same_parts(front, start.as_slice()) {
            return None;
        }
        assert(own@.len() > 0 ==> all[0] == own@[0]@);
        let rest = if !starts_at_root(s.as_slice()) && ops::is_text(own[0], ".") {
            proof {
                lemma_first_part(s@);
            }
            cut_parts(ops::skip(s.as_slice(), 1), n - 1)
        } else {
            cut_parts(s.as_slice(), n)
        };
        Some(FilePath { text: ops::string_of(cut_tail(cut_lead(rest))) })
    }
}

/// A path that has a component has a character.
proof fn lemma_first_part(s: Seq<char>)
    requires
        parts(s).len() > 0,
    ensures
        s.len() > 0,
{
    if s.len() == 0 {
        reveal_strlit("/");
        assert(model::split(s, "/"@) =~= seq![s]);
        assert(seq![s].skip(1) =~= Seq::<Seq<char>>::empty());
        reveal(Seq::filter);
    }
}

/// The path without separators and `.` components at its front.
fn cut_lead(s: &[char]) -> (r: &[char])
    ensures
        r@ == without_lead(s@),
{
    let mut rest = s;
    while rest.len() > 0 && (rest[0] == '/' || (rest[0] == '.' && (rest.len() == 1 || rest[1]
        == '/')))
        invariant
            without_lead(s@) == without_lead(rest@),
        decreases rest@.len(),
    {
        rest = ops::skip(rest, 1);
    }
    rest
}

/// What follows the first `n` components.
fn cut_parts(s: &[char], n: usize) -> (r: &[char])
    ensures
        r@ == past_parts(s@, n as nat),
{
    let mut rest = s;
    let mut left: usize = n;
    while left > 0
        invariant
            left <= n,
            past_parts(s@, n as nat) == past_parts(rest@, left as nat),
        decreases left,
    {
        let from = cut_lead(rest);
        let mut tail = from;
        while tail.len() > 0 && tail[0] != '/'
            invariant
                past_separator(from@) == past_separator(tail@),
            decreases tail@.len(),
        {
            tail = ops::skip(tail, 1);
        }
        if tail.len() > 0 {
            tail = ops::skip(tail, 1);
        }
        assert(tail@ == past_separator(from@));
        rest = tail;
        left = left - 1;
    }
    rest
}

/// The path without separators and `.` components at its end.
fn cut_tail(s: &[char]) -> (r: &[char])
    ensures
        r@ == without_tail(s@),
{
    let mut n: usize = s.len();
    assert(s@.take(n as int) =~= s@);
    while n > 1 && (s[n - 1] == '/' || (s[n - 1] == '.' && s[n - 2] == '/'))
        invariant
            n <= s@.len(),
            without_tail(s@) == without_tail(s@.take(n as int)),
        decreases n,
    {
        assert(s@.take(n as int).drop_last() =~= s@.take(n - 1));
        n = n - 1;
    }
    ops::take(s, n)
}

/// A plain name of a file or a directory.
pub open spec fn is_plain(name: Seq<char>) -> bool {
    name.len() > 0 && !name.contains('/') && name != "."@ && name != ".."@
}

/// An absolute path replaces the one that it is joined to; a relative one comes after it,
/// with one separator between.
pub proof fn law_paths_are_joined(b: Seq<char>, r: Seq<char>)
    ensures
        r.len() > 0 && r[0] == '/' ==> join(b, r) == r,
        r.len() == 0 || r[0] != '/' ==> {
            &&& b.len() == 0 ==> join(b, r) == r
            &&& b.len() > 0 && b.last() == '/' ==> join(b, r) == b + r
            &&& b.len() > 0 && b.last() != '/' ==> join(b, r) == b + seq!['/'] + r
        },
{
    reveal_strlit("/");
    assert("/"@ =~= seq!['/']);
    if b.len() == 0 {
        assert(b + r =~= r);
    }
}

/// A name that is joined to a path is its last component: it names the file, and what it
/// was joined to is the parent.
pub proof fn law_joined_name_is_the_file(b: Seq<char>, name: Seq<char>)
    requires
        is_plain(name),
    ensures
        parts(join(b, name)) == parts(b).push(name),
        file_name(join(b, name)) == Some(name),
        parent(join(b, name)) == Some(without_tail(b)),
        b.len() > 0 && b.last() != '/' && b.last() != '.' ==> parent(join(b, name)) == Some(b),
{
    reveal_strlit("/");
    reveal_strlit(".");
    assert("/"@ =~= seq!['/']);
    assert("."@ =~= seq!['.']);
    assert(name[0] != '/') by {
        if name[0] == '/' {
            assert(name.contains('/'));
        }
    }
    let s = join(b, name);
    let last = name[name.len() - 1];
    assert(last != '/') by {
        if last == '/' {
            assert(name.contains('/'));
        }
    }
    assert(s.last() == last);
    lemmas::lemma_split_single(name, '/');
    lemmas::lemma_split_single(Seq::empty(), '/');
    if b.len() == 0 {
        assert(s =~= name);
        lemma_parts_push(seq![Seq::<char>::empty()], name);
        assert(model::split(b, "/"@) == seq![b]);
        assert(b =~= Seq::<char>::empty());
        reveal(Seq::filter);
        assert(seq![name].skip(1) =~= Seq::<Seq<char>>::empty());
        assert(seq![b].skip(1) =~= Seq::<Seq<char>>::empty());
        assert(parts(s) =~= seq![name]);
        assert(parts(b) =~= Seq::<Seq<char>>::empty());
    } else if b.last() == '/' {
        let c = b.drop_last();
        assert(b =~= c + seq!['/'] + Seq::<char>::empty());
        assert(s =~= c + seq!['/'] + name);
        lemmas::lemma_split_last(c, '/', name);
        lemmas::lemma_split_last(c, '/', Seq::empty());
        lemma_parts_push(model::split(c, "/"@), name);
        lemma_parts_push(model::split(c, "/"@), Seq::empty());
    } else {
        assert(s =~= b + seq!['/'] + name);
        lemmas::lemma_split_last(b, '/', name);
        lemma_parts_push(model::split(b, "/"@), name);
    }
    assert(parts(s).last() == name);
    assert(s.skip(s.len() - name.len()) =~= name);
    lemma_tail_stays(s, name);
    lemma_through(s, s.len() - name.len(), name.len() as int);
    let rest = s.take(s.len() - name.len());
    if b.len() == 0 {
        assert(rest =~= b);
    } else if b.last() == '/' {
        assert(rest =~= b);
    } else {
        assert(rest =~= b.push('/'));
        assert(rest.drop_last() =~= b);
    }
    assert(s != "/"@) by {
        assert(s.last() != '/');
    }
}

proof fn lemma_parts_push(pieces: Seq<Seq<char>>, x: Seq<char>)
    requires
        pieces.len() > 0,
    ensures
        ({
            let f = |p: Seq<char>| is_name(p);
            let a = pieces.skip(1).filter(f);
            let b = pieces.push(x).skip(1).filter(f);
            &&& is_name(x) ==> b == a.push(x)
            &&& !is_name(x) ==> b == a
            &&& pieces.push(x)[0] == pieces[0]
            &&& (seq![pieces[0]] + a).push(x) == seq![pieces[0]] + a.push(x)
        }),
{
    let f = |p: Seq<char>| is_name(p);
    reveal(Seq::filter);
    let t = pieces.push(x).skip(1);
    assert(t =~= pieces.skip(1).push(x));
    assert(t.drop_last() =~= pieces.skip(1));
    let a = pieces.skip(1).filter(f);
    assert((seq![pieces[0]] + a).push(x) =~= seq![pieces[0]] + a.push(x));
}

proof fn lemma_tail_stays(s: Seq<char>, name: Seq<char>)
    requires
        is_plain(name),
        name.len() <= s.len(),
        s.skip(s.len() - name.len()) == name,
    ensures
        without_tail(s) == s,
        s.last() != '/',
{
    reveal_strlit(".");
    assert("."@ =~= seq!['.']);
    let n = name.len();
    assert(s.skip(s.len() - n)[n - 1] == s.last());
    assert(name.contains(name[n - 1]));
    if s.len() > 1 && s.last() == '.' && s[s.len() - 2] == '/' {
        if n == 1 {
            assert(name =~= "."@);
        } else {
            assert(s.skip(s.len() - n)[n - 2] == s[s.len() - 2]);
            assert(name.contains(name[n - 2]));
        }
    }
}

proof fn lemma_through(s: Seq<char>, k: int, n: int)
    requires
        0 <= k,
        0 <= n,
        s.len() == k + n,
        k == 0 || s[k - 1] == '/',
        forall|i: int| k <= i < s.len() ==> #[trigger] s[i] != '/',
    ensures
        through_separator(s) == s.take(k),
    decreases n,
{
    if n > 0 {
        assert(s[s.len() - 1] != '/');
        let t = s.drop_last();
        assert forall|i: int| k <= i < t.len() implies #[trigger] t[i] != '/' by {
            assert(s[i] != '/');
        }
        lemma_through(t, k, n - 1);
        assert(t.take(k) =~= s.take(k));
    } else {
        assert(s.take(k) =~= s);
    }
}

/// What stands after the last dot of a name is its extension, and what stands before it
/// the stem; a name without a dot has no extension.
pub proof fn law_name_has_stem_and_extension(
    b: Seq<char>,
    stem: Seq<char>,
    ext: Seq<char>,
    name: Seq<char>,
)
    requires
        stem.len() > 0,
        !ext.contains('.'),
        is_plain(stem + seq!['.'] + ext),
        is_plain(name),
        !name.contains('.'),
    ensures
        extension(join(b, stem + seq!['.'] + ext)) == Some(ext),
        file_stem(join(b, stem + seq!['.'] + ext)) == Some(stem),
        extension(join(b, name)) is None,
        file_stem(join(b, name)) == Some(name),
{
    reveal_strlit(".");
    assert("."@ =~= seq!['.']);
    let full = stem + seq!['.'] + ext;
    law_joined_name_is_the_file(b, full);
    law_joined_name_is_the_file(b, name);
    lemma_last_dot(full, stem.len() as int, full.len() - 1);
    assert(full.take(stem.len() as int) =~= stem);
    assert(full.skip(stem.len() as int + 1) =~= ext);
    lemma_no_dot(name, name.len() - 1);
}

proof fn lemma_last_dot(s: Seq<char>, j: int, k: int)
    requires
        0 <= j <= k < s.len(),
        s[j] == '.',
        forall|x: int| j < x < s.len() ==> #[trigger] s[x] != '.',
    ensures
        model::rfind_from(s, seq!['.'], k) == Some(j),
    decreases k - j,
{
    if k == j {
        assert(s.subrange(k, k + 1) =~= seq!['.']);
    } else {
        if model::occurs_at(s, seq!['.'], k) {
            assert(s.subrange(k, k + 1)[0] == '.');
        }
        lemma_last_dot(s, j, k - 1);
    }
}

proof fn lemma_no_dot(s: Seq<char>, k: int)
    requires
        k < s.len(),
        !s.contains('.'),
    ensures
        model::rfind_from(s, seq!['.'], k) is None,
    decreases k + 1,
{
    if k >= 0 {
        if model::occurs_at(s, seq!['.'], k) {
            assert(s.subrange(k, k + 1)[0] == '.');
            assert(s.contains(s[k]));
        }
        lemma_no_dot(s, k - 1);
    }
}

/// A path is named by its components: two texts with the same ones, both absolute or both
/// not, name the same file.
pub proof fn law_components_name_the_path(v: Seq<Seq<char>>)
    requires
        v.len() > 0,
        forall|i: int| 0 <= i < v.len() ==> is_plain(#[trigger] v[i]),
    ensures
        key(model::join(v, "/"@)) == (false, v),
        key("/"@ + model::join(v, "/"@)) == (true, v),
{
    reveal_strlit("/");
    reveal_strlit(".");
    assert("/"@ =~= seq!['/']);
    let s = model::join(v, "/"@);
    assert forall|i: int| 0 <= i < v.len() implies !(#[trigger] v[i]).contains('/') by {
        assert(is_plain(v[i]));
    }
    lemmas::lemma_split_joined(v, '/');
    let f = |p: Seq<char>| is_name(p);
    assert(is_plain(v[0]));
    lemma_all_names(v.skip(1));
    assert(seq![v[0]] + v.skip(1) =~= v);
    lemma_join_begins(v);
    assert(s[0] == v[0][0]);
    assert(v[0].contains(v[0][0]));
    lemma_all_names(v);
    assert("/"@ + s =~= Seq::<char>::empty() + seq!['/'] + s);
    lemmas::lemma_split_first(Seq::empty(), '/', s);
    let pieces = seq![Seq::<char>::empty()] + v;
    assert(pieces.skip(1) =~= v);
}

proof fn lemma_all_names(v: Seq<Seq<char>>)
    requires
        forall|i: int| 0 <= i < v.len() ==> is_plain(#[trigger] v[i]),
    ensures
        v.filter(|p: Seq<char>| is_name(p)) == v,
    decreases v.len(),
{
    reveal(Seq::filter);
    if v.len() > 0 {
        let w = v.drop_last();
        assert forall|i: int| 0 <= i < w.len() implies is_plain(#[trigger] w[i]) by {
            assert(w[i] == v[i]);
        }
        lemma_all_names(w);
        assert(is_plain(v[v.len() - 1]));
        assert(w.push(v.last()) =~= v);
    } else {
        assert(v.filter(|p: Seq<char>| is_name(p)) =~= v);
    }
}

proof fn lemma_join_begins(v: Seq<Seq<char>>)
    requires
        v.len() > 0,
        v[0].len() > 0,
    ensures
        model::join(v, "/"@).len() > 0,
        model::join(v, "/"@)[0] == v[0][0],
    decreases v.len(),
{
    if v.len() > 1 {
        lemma_join_begins(v.drop_last());
    }
}

/// A path below another is told from there on, and one that is not below it is not.
pub proof fn law_prefix_is_stripped(a: Seq<Seq<char>>, b: Seq<Seq<char>>, c: Seq<Seq<char>>)
    requires
        a.len() > 0,
        b.len() > 0,
        c.len() > 0,
        forall|i: int| 0 <= i < a.len() ==> is_plain(#[trigger] a[i]),
        forall|i: int| 0 <= i < b.len() ==> is_plain(#[trigger] b[i]),
        forall|i: int| 0 <= i < c.len() ==> is_plain(#[trigger] c[i]),
    ensures
        strip_prefix(model::join(a + b, "/"@), model::join(a, "/"@)) == Some(
            model::join(b, "/"@),
        ),
        strip_prefix("/"@ + model::join(a + b, "/"@), "/"@ + model::join(a, "/"@)) == Some(
            model::join(b, "/"@),
        ),
        strip_prefix("/"@ + model::join(c, "/"@), model::join(a, "/"@)) is None,
        c.len() < a.len() || c.take(a.len() as int) != a ==> strip_prefix(
            model::join(c, "/"@),
            model::join(a, "/"@),
        ) is None,
{
    reveal_strlit("/");
    reveal_strlit(".");
    assert("/"@ =~= seq!['/']);
    assert("."@ =~= seq!['.']);
    let v = a + b;
    assert forall|i: int| 0 <= i < v.len() implies is_plain(#[trigger] v[i]) by {
        if i < a.len() {
            assert(v[i] == a[i]);
        } else {
            assert(v[i] == b[i - a.len()]);
        }
    }
    law_components_name_the_path(a);
    law_components_name_the_path(v);
    law_components_name_the_path(c);
    let s = model::join(v, "/"@);
    let r = model::join(b, "/"@);
    assert(v.take(a.len() as int) =~= a);
    assert(v[0] == a[0]);
    assert(is_plain(a[0]));
    lemma_past(a, b, a.len());
    assert(a.skip(a.len() as int) + b =~= b);
    lemma_past_lead(s, a.len());
    lemma_lead_stays(b);
    lemma_tail_of_join(b);
}

proof fn lemma_tail_of_join(v: Seq<Seq<char>>)
    requires
        v.len() > 0,
        is_plain(v.last()),
    ensures
        without_tail(model::join(v, "/"@)) == model::join(v, "/"@),
{
    let s = model::join(v, "/"@);
    let name = v.last();
    assert(s.skip(s.len() - name.len()) =~= name);
    lemma_tail_stays(s, name);
}

proof fn lemma_lead_stays(v: Seq<Seq<char>>)
    requires
        v.len() > 0,
        is_plain(v[0]),
    ensures
        without_lead(model::join(v, "/"@)) == model::join(v, "/"@),
{
    reveal_strlit("/");
    reveal_strlit(".");
    assert("/"@ =~= seq!['/']);
    assert("."@ =~= seq!['.']);
    let s = model::join(v, "/"@);
    lemma_join_begins(v);
    assert(v[0].contains(v[0][0]));
    if s[0] == '.' {
        if v[0].len() == 1 {
            assert(v[0] =~= "."@);
        }
        lemma_join_second(v);
        assert(v[0].contains(v[0][1]));
    }
}

proof fn lemma_join_second(v: Seq<Seq<char>>)
    requires
        v.len() > 0,
        v[0].len() > 1,
    ensures
        model::join(v, "/"@).len() > 1,
        model::join(v, "/"@)[1] == v[0][1],
    decreases v.len(),
{
    if v.len() > 1 {
        lemma_join_second(v.drop_last());
    }
}

proof fn lemma_past_lead(s: Seq<char>, n: nat)
    requires
        n > 0,
    ensures
        past_parts("/"@ + s, n) == past_parts(s, n),
{
    reveal_strlit("/");
    assert("/"@ =~= seq!['/']);
    let t = "/"@ + s;
    assert(t[0] == '/');
    assert(t.skip(1) =~= s);
    assert(without_lead(t) == without_lead(s));
}

proof fn lemma_past(a: Seq<Seq<char>>, b: Seq<Seq<char>>, n: nat)
    requires
        n <= a.len(),
        b.len() > 0,
        forall|i: int| 0 <= i < a.len() ==> is_plain(#[trigger] a[i]),
    ensures
        past_parts(model::join(a + b, "/"@), n) == model::join(a.skip(n as int) + b, "/"@),
    decreases n,
{
    reveal_strlit("/");
    assert("/"@ =~= seq!['/']);
    if n == 0 {
        assert(a.skip(0) =~= a);
    } else {
        let v = a + b;
        let w = a.skip(1) + b;
        assert(v =~= seq![a[0]] + w);
        assert(is_plain(a[0]));
        lemmas::lemma_join_cons(a[0], w, "/"@);
        lemma_lead_stays(v);
        let s = model::join(v, "/"@);
        lemma_past_separator(a[0], model::join(w, "/"@));
        assert(s =~= a[0] + seq!['/'] + model::join(w, "/"@));
        let rest = a.skip(1);
        assert forall|i: int| 0 <= i < rest.len() implies is_plain(#[trigger] rest[i]) by {
            assert(rest[i] == a[i + 1]);
        }
        lemma_past(rest, b, (n - 1) as nat);
        assert(rest.skip(n - 1) =~= a.skip(n as int));
    }
}

proof fn lemma_past_separator(x: Seq<char>, rest: Seq<char>)
    requires
        !x.contains('/'),
    ensures
        past_separator(x + seq!['/'] + rest) == rest,
    decreases x.len(),
{
    let s = x + seq!['/'] + rest;
    if x.len() == 0 {
        assert(s[0] == '/');
        assert(s.skip(1) =~= rest);
    } else {
        assert(x.contains(x[0]));
        let y = x.skip(1);
        assert(!y.contains('/')) by {
            if y.contains('/') {
                let k = choose|k: int| 0 <= k < y.len() && y[k] == '/';
                assert(x.contains(x[k + 1]));
            }
        }
        lemma_past_separator(y, rest);
        assert(s.skip(1) =~= y + seq!['/'] + rest);
    }
}

/// A dot at the front of a name starts no extension.
pub proof fn law_hidden_file_has_no_extension(b: Seq<char>, rest: Seq<char>)
    requires
        !rest.contains('.'),
        is_plain(seq!['.'] + rest),
    ensures
        extension(join(b, seq!['.'] + rest)) is None,
        file_stem(join(b, seq!['.'] + rest)) == Some(seq!['.'] + rest),
{
    reveal_strlit(".");
    assert("."@ =~= seq!['.']);
    let name = seq!['.'] + rest;
    law_joined_name_is_the_file(b, name);
    lemma_last_dot(name, 0, name.len() - 1);
}

} // verus!

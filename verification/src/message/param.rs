//! Parameters that all nodes share.
//!
//! A parameter has a name, whose segments are separated by `/`, and a value.

use crate::text::text_map::TextMap;
use crate::text::{lemmas, model, ops, text_map};
use vstd::prelude::*;
use vstd::string::*;

verus! {

/// The value of a parameter.
#[derive(Debug)]
pub enum ParamValue {
    Integer(i64),
    /// A double-precision number, as its bit pattern.
    Float(u64),
    Boolean(bool),
    Text(String),
    Array(Vec<ParamValue>),
    /// Values under names.
    Table(Vec<(String, ParamValue)>),
    Null,
}

/// The parameters.
#[derive(Debug)]
pub struct ParamServer {
    params: TextMap<ParamValue>,
}

impl View for ParamServer {
    type V = Map<Seq<char>, ParamValue>;

    closed spec fn view(&self) -> Map<Seq<char>, ParamValue> {
        self.params@
    }
}

/// The texts that a list of references holds.
pub open spec fn str_refs(v: Seq<&str>) -> Seq<Seq<char>> {
    v.map_values(|s: &str| s@)
}

/// The segments of a name.
pub open spec fn segments(name: Seq<char>) -> Seq<Seq<char>> {
    model::split(name, "/"@)
}

/// Whether a pattern fits a name: as many segments, each `*` or the name's own.
pub open spec fn fits(pattern: Seq<char>, name: Seq<char>) -> bool {
    let p = segments(pattern);
    let k = segments(name);
    &&& p.len() == k.len()
    &&& forall|i: int| 0 <= i < p.len() ==> #[trigger] p[i] == "*"@ || p[i] == k[i]
}

/// Whether a pattern finds a name: it fits where it has a `*` in it, and is the
/// name where it has none.
pub open spec fn finds(pattern: Seq<char>, name: Seq<char>) -> bool {
    if model::contains(pattern, "*"@) {
        fits(pattern, name)
    } else {
        pattern == name
    }
}

/// Whether a pattern fits a name.
fn pattern_fits(pattern: &[char], name: &[char]) -> (r: bool)
    ensures
        r == fits(pattern@, name@),
{
    proof {
        reveal_strlit("/");
    }
    let p = ops::split(pattern, "/");
    let k = ops::split(name, "/");
    let ghost ps = segments(pattern@);
    let ghost ks = segments(name@);
    assert(model::slices(p@).len() == p@.len());
    assert(model::slices(k@).len() == k@.len());
    if p.len() != k.len() {
        return false;
    }
    let mut i: usize = 0;
    while i < p.len()
        invariant
            i <= p@.len(),
            p@.len() == k@.len(),
            ps == model::slices(p@),
            ks == model::slices(k@),
            ps == segments(pattern@),
            ks == segments(name@),
            forall|j: int| 0 <= j < i ==> #[trigger] ps[j] == "*"@ || ps[j] == ks[j],
        decreases p@.len() - i,
    {
        assert(ps[i as int] == p@[i as int]@);
        assert(ks[i as int] == k@[i as int]@);
        if !ops::is_text(p[i], "*") && !ops::same(p[i], k[i]) {
            return false;
        }
        i = i + 1;
    }
    true
}

impl ParamServer {
    pub closed spec fn wf(&self) -> bool {
        self.params.wf()
    }

    /// The names, in the order in which they were first set.
    pub closed spec fn order(&self) -> Seq<Seq<char>> {
        self.params.order()
    }

    /// The names in order are the names of the parameters, each once.
    pub proof fn lemma_order(&self, k: Seq<char>)
        requires
            self.wf(),
        ensures
            self@.contains_key(k) <==> self.order().contains(k),
            self.order().no_duplicates(),
    {
        self.params.lemma_order(k);
    }

    /// No parameters.
    pub fn new() -> (r: Self)
        ensures
            r.wf(),
            r@ == Map::<Seq<char>, ParamValue>::empty(),
            r.order() == Seq::<Seq<char>>::empty(),
    {
        ParamServer { params: TextMap::new() }
    }

    /// Sets a parameter.
    pub fn set(&mut self, key: &str, value: ParamValue)
        requires
            old(self).wf(),
        ensures
            final(self).wf(),
            final(self)@ == old(self)@.insert(key@, value),
            final(self).order() == text_map::with(old(self).order(), key@),
    {
        self.params.insert(String::from_str(key), value);
    }

    /// The value of a parameter.
    pub fn get(&self, key: &str) -> (r: Option<&ParamValue>)
        requires
            self.wf(),
        ensures
            match r {
                Some(v) => self@.contains_key(key@) && *v == self@[key@],
                None => !self@.contains_key(key@),
            },
    {
        self.params.get(key)
    }

    /// Takes away a parameter, and returns the value that it had.
    pub fn delete(&mut self, key: &str) -> (r: Option<ParamValue>)
        requires
            old(self).wf(),
        ensures
            final(self).wf(),
            final(self)@ == old(self)@.remove(key@),
            final(self).order() == text_map::without(old(self).order(), key@),
            match r {
                Some(v) => old(self)@.contains_key(key@) && v == old(self)@[key@],
                None => !old(self)@.contains_key(key@),
            },
    {
        self.params.remove(key)
    }

    /// Whether there is a parameter.
    pub fn has(&self, key: &str) -> (r: bool)
        requires
            self.wf(),
        ensures
            r == self@.contains_key(key@),
    {
        self.params.contains_key(key)
    }

    /// The names of all parameters.
    pub fn list(&self) -> (r: Vec<&str>)
        requires
            self.wf(),
        ensures
            str_refs(r@) == self.order(),
    {
        let mut out: Vec<&str> = Vec::new();
        let mut i: usize = 0;
        assert(str_refs(out@) =~= self.order().take(0));
        while i < self.params.len()
            invariant
                self.wf(),
                i <= self.order().len(),
                str_refs(out@) == self.order().take(i as int),
            decreases self.order().len() - i,
        {
            let ghost before = str_refs(out@);
            out.push(self.params.key_at(i).as_str());
            assert(str_refs(out@) =~= before.push(self.order()[i as int]));
            assert(self.order().take(i + 1) =~= before.push(self.order()[i as int]));
            i = i + 1;
        }
        assert(self.order().take(self.order().len() as int) =~= self.order());
        out
    }

    /// The names that begin with a text.
    pub fn list_prefix(&self, prefix: &str) -> (r: Vec<&str>)
        requires
            self.wf(),
        ensures
            str_refs(r@) == self.order().filter(|k: Seq<char>| model::starts_with(k, prefix@)),
    {
        let ghost keep = |k: Seq<char>| model::starts_with(k, prefix@);
        let ghost order = self.order();
        let mut out: Vec<&str> = Vec::new();
        let mut i: usize = 0;
        reveal(Seq::filter);
        assert(str_refs(out@) =~= Seq::empty());
        while i < self.params.len()
            invariant
                self.wf(),
                order == self.order(),
                i <= order.len(),
                keep == (|k: Seq<char>| model::starts_with(k, prefix@)),
                str_refs(out@) == order.take(i as int).filter(keep),
            decreases order.len() - i,
        {
            reveal(Seq::filter);
            let ghost before = str_refs(out@);
            assert(order.take(i + 1).drop_last() =~= order.take(i as int));
            let key = self.params.key_at(i);
            let chars = ops::chars_of(key.as_str());
            if ops::starts_with(chars.as_slice(), prefix) {
                out.push(key.as_str());
                assert(str_refs(out@) =~= before.push(order[i as int]));
            }
            i = i + 1;
        }
        assert(order.take(order.len() as int) =~= order);
        out
    }

    /// The parameters that a pattern finds, each with its value. In a pattern,
    /// `*` stands for any one segment.
    pub fn search<'a>(&'a self, pattern: &str) -> (r: Vec<(&'a str, &'a ParamValue)>)
        requires
            self.wf(),
        ensures
            r@.map_values(|p: (&'a str, &'a ParamValue)| p.0@) == self.order().filter(
                |k: Seq<char>| finds(pattern@, k),
            ),
            forall|i: int| 0 <= i < r@.len() ==> *(#[trigger] r@[i]).1 == self@[r@[i].0@],
    {
        let ghost keep = |k: Seq<char>| finds(pattern@, k);
        let ghost order = self.order();
        let ghost name = |p: (&'a str, &'a ParamValue)| p.0@;
        let chars = ops::chars_of(pattern);
        let wild = ops::contains(chars.as_slice(), "*");
        let mut out: Vec<(&'a str, &'a ParamValue)> = Vec::new();
        let mut i: usize = 0;
        reveal(Seq::filter);
        assert(out@.map_values(name) =~= Seq::empty());
        while i < self.params.len()
            invariant
                self.wf(),
                order == self.order(),
                i <= order.len(),
                chars@ == pattern@,
                wild == model::contains(pattern@, "*"@),
                keep == (|k: Seq<char>| finds(pattern@, k)),
                name == (|p: (&'a str, &'a ParamValue)| p.0@),
                out@.map_values(name) == order.take(i as int).filter(keep),
                forall|j: int| 0 <= j < out@.len() ==> *(#[trigger] out@[j]).1 == self@[out@[j].0@],
            decreases order.len() - i,
        {
            reveal(Seq::filter);
            let ghost before = out@;
            assert(order.take(i + 1).drop_last() =~= order.take(i as int));
            let key = self.params.key_at(i);
            let own = ops::chars_of(key.as_str());
            let found = if wild {
                pattern_fits(chars.as_slice(), own.as_slice())
            } else {
                ops::same(chars.as_slice(), own.as_slice())
            };
            if found {
                out.push((key.as_str(), self.params.value_at(i)));
                assert(out@.map_values(name) =~= before.map_values(name).push(order[i as int]));
            }
            i = i + 1;
        }
        assert(order.take(order.len() as int) =~= order);
        out
    }

    /// The value of a parameter.
    pub fn get_value(&self, key: &str) -> (r: Option<&ParamValue>)
        requires
            self.wf(),
        ensures
            match r {
                Some(v) => self@.contains_key(key@) && *v == self@[key@],
                None => !self@.contains_key(key@),
            },
    {
        self.params.get(key)
    }

    /// How many parameters there are.
    pub fn len(&self) -> (r: usize)
        requires
            self.wf(),
        ensures
            r == self.order().len(),
    {
        self.params.len()
    }

    /// Whether there are no parameters.
    pub fn is_empty(&self) -> (r: bool)
        requires
            self.wf(),
        ensures
            r == (self.order().len() == 0),
    {
        self.params.len() == 0
    }
}

impl Default for ParamServer {
    fn default() -> (r: Self)
        ensures
            r.wf(),
            r@ == Map::<Seq<char>, ParamValue>::empty(),
            r.order() == Seq::<Seq<char>>::empty(),
    {
        ParamServer::new()
    }
}

/// How a parameter has changed.
#[derive(Debug, Clone, Copy, PartialEq, Eq, Structural)]
pub enum ParamChangeType {
    /// It is new.
    Created,
    /// It has another value.
    Updated,
    /// It is gone.
    Deleted,
}

/// Tells of a change.
#[derive(Debug)]
pub struct ParamChangeNotification {
    /// The parameter's name.
    pub key: String,
    /// Its new value.
    pub new_value: Option<ParamValue>,
    /// How it has changed.
    pub change_type: ParamChangeType,
}

/// A parameter has the value that it was last given, and giving it one changes no
/// other parameter.
pub proof fn law_set_is_read_back(
    m: Map<Seq<char>, ParamValue>,
    key: Seq<char>,
    value: ParamValue,
    other: Seq<char>,
)
    requires
        other != key,
    ensures
        m.insert(key, value).contains_key(key),
        m.insert(key, value)[key] == value,
        m.insert(key, value).contains_key(other) <==> m.contains_key(other),
        m.contains_key(other) ==> m.insert(key, value)[other] == m[other],
        !m.insert(key, value).remove(key).contains_key(key),
{
}

/// A name with a segment `*` has a `*` in it.
proof fn lemma_star_is_inside(s: Seq<char>, i: int) -> (at: int)
    requires
        0 <= i < segments(s).len(),
        segments(s)[i] == "*"@,
    ensures
        model::occurs_at(s, "*"@, at),
        model::contains(s, "*"@),
    decreases s.len(),
{
    reveal_strlit("/");
    reveal_strlit("*");
    let at = match model::find(s, "/"@) {
        Some(j) => {
            lemmas::lemma_find_sound(s, "/"@, 0);
            if i == 0 {
                assert(s.take(j)[0] == '*');
                assert(s.subrange(0, 1) =~= "*"@);
                0
            } else {
                let rest = s.skip(j + 1);
                assert(segments(s)[i] == segments(rest)[i - 1]);
                let k = lemma_star_is_inside(rest, i - 1);
                assert(s.subrange(j + 1 + k, j + 2 + k) =~= rest.subrange(k, k + 1));
                j + 1 + k
            }
        },
        None => {
            assert(s.subrange(0, 1) =~= "*"@);
            0
        },
    };
    lemmas::lemma_found(s, "*"@, 0, at);
    at
}

/// A parameter is found by its own name, and by its name with any one segment
/// replaced by `*`.
pub proof fn law_parameter_is_found(pattern: Seq<char>, name: Seq<char>, i: int)
    requires
        0 <= i < segments(name).len(),
        segments(pattern) == segments(name).update(i, "*"@),
    ensures
        finds(name, name),
        finds(pattern, name),
{
    assert(segments(pattern)[i] == "*"@);
    lemma_star_is_inside(pattern, i);
}

/// A pattern without a star finds the parameter of that name and no other.
pub proof fn law_plain_pattern_finds_one(pattern: Seq<char>, name: Seq<char>)
    requires
        !model::contains(pattern, "*"@),
    ensures
        finds(pattern, name) <==> pattern == name,
{
}

/// A pattern with a star finds the names of as many segments that agree with it wherever
/// it has no star.
pub proof fn law_star_stands_for_a_segment(pattern: Seq<char>, name: Seq<char>)
    requires
        model::contains(pattern, "*"@),
    ensures
        model::split(pattern, "/"@).len() != model::split(name, "/"@).len() ==> !finds(
            pattern,
            name,
        ),
        model::split(pattern, "/"@).len() == model::split(name, "/"@).len() ==> (finds(
            pattern,
            name,
        ) <==> forall|i: int|
            0 <= i < model::split(name, "/"@).len() ==> #[trigger] model::split(pattern, "/"@)[i]
                == "*"@ || model::split(pattern, "/"@)[i] == model::split(name, "/"@)[i]),
{
}

} // verus!

//! What messages between nodes carry: named fields.

use crate::message::frame;
use crate::message::frame::{FrameCodec, Message};
use crate::message::topic::Topic;
use crate::outside;
use crate::text::{model, ops};
use vstd::prelude::*;
use vstd::string::*;

verus! {

/// The value of a field.
#[derive(Debug)]
pub enum Field {
    Null,
    Flag(bool),
    Number(u64),
    Text(String),
    /// A list, a map, or a number that is no `u64`, in MessagePack.
    Packed(Vec<u8>),
}

/// What a field holds.
#[verifier::ext_equal]
pub enum FieldModel {
    Null,
    Flag(bool),
    Number(u64),
    Text(Seq<char>),
    Packed(Seq<u8>),
}

impl View for Field {
    type V = FieldModel;

    open spec fn view(&self) -> FieldModel {
        match *self {
            Field::Null => FieldModel::Null,
            Field::Flag(b) => FieldModel::Flag(b),
            Field::Number(n) => FieldModel::Number(n),
            Field::Text(s) => FieldModel::Text(s@),
            Field::Packed(b) => FieldModel::Packed(b@),
        }
    }
}

/// The named fields of a message.
#[derive(Debug)]
pub struct Payload {
    pub fields: Vec<(String, Field)>,
}

/// What a payload holds: its fields in order.
pub type PayloadModel = Seq<(Seq<char>, FieldModel)>;

impl View for Payload {
    type V = PayloadModel;

    open spec fn view(&self) -> PayloadModel {
        self.fields@.map_values(|f: (String, Field)| (f.0@, f.1@))
    }
}

/// What an optional payload holds.
pub open spec fn opt_payload(o: Option<Payload>) -> Option<PayloadModel> {
    match o {
        Some(p) => Some(p@),
        None => None,
    }
}

/// The fields that a message's bytes carry where they are `read`, and none where
/// they are not; nothing where they are read and are no value in MessagePack.
pub open spec fn carried(read: bool, bytes: Seq<u8>) -> Option<PayloadModel> {
    if read {
        outside::unpacked(bytes)
    } else {
        Some(PayloadModel::empty())
    }
}

/// Whether a length can be written in 32 bits.
pub open spec fn is_short(n: nat) -> bool {
    n <= u32::MAX
}

/// Fields that are read back when they have been packed: none is packed on
/// its own, their names differ, and neither their number nor a text is beyond 32 bits.
pub open spec fn is_packable(p: PayloadModel) -> bool {
    &&& is_short(p.len())
    &&& forall|i: int, j: int| 0 <= i < j < p.len() ==> (#[trigger] p[i]).0 != (#[trigger] p[j]).0
    &&& forall|i: int|
        0 <= i < p.len() ==> is_short(model::byte_len((#[trigger] p[i]).0)) && match p[i].1 {
            FieldModel::Text(s) => is_short(model::byte_len(s)),
            FieldModel::Packed(_) => false,
            _ => true,
        }
}

/// What was read holds the fields that were written, in whatever order.
pub open spec fn reads_back(p: PayloadModel, o: Option<PayloadModel>) -> bool {
    match o {
        Some(q) => forall|name: Seq<char>| #[trigger]
            field(q, name) == field(p, name) && has_field(q, name) == has_field(p, name),
        None => false,
    }
}

/// A field that is a text.
pub open spec fn text_field(name: Seq<char>, value: Seq<char>) -> (Seq<char>, FieldModel) {
    (name, FieldModel::Text(value))
}

/// A field that is a truth value.
pub open spec fn flag_field(name: Seq<char>, value: bool) -> (Seq<char>, FieldModel) {
    (name, FieldModel::Flag(value))
}

/// A field that is packed on its own.
pub open spec fn packed_field(name: Seq<char>, value: Seq<u8>) -> (Seq<char>, FieldModel) {
    (name, FieldModel::Packed(value))
}

/// A field that has named fields itself.
pub open spec fn nested_field(name: Seq<char>, inner: PayloadModel) -> (Seq<char>, FieldModel) {
    packed_field(name, outside::packed(inner))
}

/// A field that is a list of texts.
pub open spec fn list_field(name: Seq<char>, texts: Seq<Seq<char>>) -> (Seq<char>, FieldModel) {
    packed_field(name, outside::packed_texts(texts))
}

/// A field that is a number.
pub open spec fn number_field(name: Seq<char>, value: u64) -> (Seq<char>, FieldModel) {
    (name, FieldModel::Number(value))
}

/// The first field with a name, from place `i` on.
pub open spec fn field_from(p: PayloadModel, name: Seq<char>, i: int) -> FieldModel
    decreases p.len() - i,
{
    if i < 0 || i >= p.len() {
        FieldModel::Null
    } else if p[i].0 == name {
        p[i].1
    } else {
        field_from(p, name, i + 1)
    }
}

/// Whether there is a field with a name, be it null.
pub open spec fn has_field(p: PayloadModel, name: Seq<char>) -> bool {
    exists|i: int| 0 <= i < p.len() && (#[trigger] p[i]).0 == name
}

/// The field with a name; null where there is none.
pub open spec fn field(p: PayloadModel, name: Seq<char>) -> FieldModel {
    field_from(p, name, 0)
}

/// The text under a name, if the field is a text.
pub open spec fn text_at(p: PayloadModel, name: Seq<char>) -> Option<Seq<char>> {
    match field(p, name) {
        FieldModel::Text(s) => Some(s),
        _ => None,
    }
}

/// The text under a name, or another where the field is no text.
pub open spec fn text_or(p: PayloadModel, name: Seq<char>, other: Seq<char>) -> Seq<char> {
    match text_at(p, name) {
        Some(s) => s,
        None => other,
    }
}

/// The truth value under a name, or another where the field is none.
pub open spec fn flag_or(p: PayloadModel, name: Seq<char>, other: bool) -> bool {
    match field(p, name) {
        FieldModel::Flag(b) => b,
        _ => other,
    }
}

/// The number under a name, or another where the field is none.
pub open spec fn number_or(p: PayloadModel, name: Seq<char>, other: u64) -> u64 {
    match field(p, name) {
        FieldModel::Number(n) => n,
        _ => other,
    }
}

impl Payload {
    /// A payload without fields.
    pub fn new() -> (r: Self)
        ensures
            r@ == PayloadModel::empty(),
    {
        let p = Payload { fields: Vec::new() };
        assert(p@ =~= PayloadModel::empty());
        p
    }

    /// The payload with one field more.
    fn with(self, name: &str, value: Field) -> (r: Self)
        ensures
            r@ == self@.push((name@, value@)),
    {
        let mut out = self;
        let ghost shown = value@;
        out.fields.push((String::from_str(name), value));
        assert(out@ =~= self@.push((name@, shown)));
        out
    }

    /// The payload with a text more.
    pub fn text(self, name: &str, value: &str) -> (r: Self)
        ensures
            r@ == self@.push(text_field(name@, value@)),
    {
        self.with(name, Field::Text(String::from_str(value)))
    }

    /// The payload with a value more that is packed on its own.
    pub fn packed(self, name: &str, value: Vec<u8>) -> (r: Self)
        ensures
            r@ == self@.push(packed_field(name@, value@)),
    {
        self.with(name, Field::Packed(value))
    }

    /// The payload with a field more that has named fields itself.
    pub fn nested(self, name: &str, inner: &Payload) -> (r: Self)
        ensures
            r@ == self@.push(nested_field(name@, inner@)),
    {
        self.packed(name, outside::pack(inner))
    }

    /// The payload with a list of texts more.
    pub fn list(self, name: &str, texts: &Vec<String>) -> (r: Self)
        ensures
            r@ == self@.push(list_field(name@, model::texts(texts@))),
    {
        self.packed(name, outside::pack_texts(texts))
    }

    /// The payload with a truth value more.
    pub fn flag(self, name: &str, value: bool) -> (r: Self)
        ensures
            r@ == self@.push(flag_field(name@, value)),
    {
        self.with(name, Field::Flag(value))
    }

    /// The payload with a number more.
    pub fn number(self, name: &str, value: u64) -> (r: Self)
        ensures
            r@ == self@.push(number_field(name@, value)),
    {
        self.with(name, Field::Number(value))
    }

    /// The payload with a null more.
    pub fn null(self, name: &str) -> (r: Self)
        ensures
            r@ == self@.push((name@, FieldModel::Null)),
    {
        self.with(name, Field::Null)
    }

    /// Whether there is a field with a name, be it null.
    pub fn has(&self, name: &str) -> (r: bool)
        ensures
            r == has_field(self@, name@),
    {
        let ghost p = self@;
        let mut i: usize = 0;
        while i < self.fields.len()
            invariant
                i <= self.fields@.len(),
                p == self@,
                forall|j: int| 0 <= j < i ==> (#[trigger] p[j]).0 != name@,
            decreases self.fields@.len() - i,
        {
            assert(p[i as int] == (self.fields@[i as int].0@, self.fields@[i as int].1@));
            if ops::same_text(self.fields[i].0.as_str(), name) {
                return true;
            }
            i = i + 1;
        }
        false
    }

    /// The field with a name.
    pub fn get(&self, name: &str) -> (r: Option<&Field>)
        ensures
            match r {
                Some(f) => f@ == field(self@, name@),
                None => field(self@, name@) is Null,
            },
    {
        let ghost p = self@;
        let mut i: usize = 0;
        while i < self.fields.len()
            invariant
                i <= self.fields@.len(),
                p == self@,
                field(p, name@) == field_from(p, name@, i as int),
            decreases self.fields@.len() - i,
        {
            assert(p[i as int] == (self.fields@[i as int].0@, self.fields@[i as int].1@));
            if ops::same_text(self.fields[i].0.as_str(), name) {
                return Some(&self.fields[i].1);
            }
            i = i + 1;
        }
        None
    }

    /// The text under a name, if the field is a text.
    pub fn text_at(&self, name: &str) -> (r: Option<&str>)
        ensures
            match r {
                Some(s) => text_at(self@, name@) == Some(s@),
                None => text_at(self@, name@) is None,
            },
    {
        match self.get(name) {
            Some(Field::Text(s)) => Some(s.as_str()),
            _ => None,
        }
    }

    /// The text under a name, or another where the field is no text.
    pub fn text_or<'a>(&'a self, name: &str, other: &'a str) -> (r: &'a str)
        ensures
            r@ == text_or(self@, name@, other@),
    {
        match self.text_at(name) {
            Some(s) => s,
            None => other,
        }
    }

    /// The truth value under a name, or another where the field is none.
    pub fn flag_or(&self, name: &str, other: bool) -> (r: bool)
        ensures
            r == flag_or(self@, name@, other),
    {
        match self.get(name) {
            Some(Field::Flag(b)) => *b,
            _ => other,
        }
    }

    /// The number under a name, or another where the field is none.
    pub fn number_or(&self, name: &str, other: u64) -> (r: u64)
        ensures
            r == number_or(self@, name@, other),
    {
        match self.get(name) {
            Some(Field::Number(n)) => *n,
            _ => other,
        }
    }
}

/// How a message is sent.
#[derive(Debug, Clone, Copy, PartialEq, Eq, Structural)]
pub enum Plane {
    /// Through the kernel.
    Control,
    /// To the subscribers directly; through the kernel where that fails.
    Data,
    /// To the subscribers directly; a failure is passed over.
    DataOnly,
    /// Through the kernel; a failure is passed over.
    Quiet,
}

/// A message to send.
#[derive(Debug)]
pub struct Outgoing {
    pub topic: Topic,
    pub payload: Payload,
    pub plane: Plane,
}

/// What a message to send holds.
#[verifier::ext_equal]
pub struct OutgoingModel {
    pub topic: Seq<char>,
    pub payload: PayloadModel,
    pub plane: Plane,
}

impl View for Outgoing {
    type V = OutgoingModel;

    open spec fn view(&self) -> OutgoingModel {
        OutgoingModel { topic: self.topic@, payload: self.payload@, plane: self.plane }
    }
}

impl Outgoing {
    /// The message as a node sends it.
    pub fn to_message(&self, src_node: &str) -> (r: Message)
        ensures
            frame::is_new_message(
                r@,
                self@.topic,
                src_node@,
                None,
                outside::packed(self@.payload),
                0,
            ),
            is_packable(self@.payload) ==> reads_back(
                self@.payload,
                outside::unpacked(r@.payload),
            ),
    {
        FrameCodec::new_message(self.topic.clone(), src_node, outside::pack(&self.payload))
    }
}

/// The messages that a list holds.
pub open spec fn outgoing_models(v: Seq<Outgoing>) -> Seq<OutgoingModel> {
    v.map_values(|o: Outgoing| o@)
}

/// A message through the kernel.
pub open spec fn sent(topic: Seq<char>, payload: PayloadModel) -> OutgoingModel {
    OutgoingModel { topic: topic, payload: payload, plane: Plane::Control }
}

/// A message to the subscribers directly.
pub open spec fn published(topic: Seq<char>, payload: PayloadModel) -> OutgoingModel {
    OutgoingModel { topic: topic, payload: payload, plane: Plane::Data }
}

/// A message through the kernel whose loss is passed over.
pub open spec fn whispered(topic: Seq<char>, payload: PayloadModel) -> OutgoingModel {
    OutgoingModel { topic: topic, payload: payload, plane: Plane::Quiet }
}

/// Adds a message through the kernel.
pub fn send(out: &mut Vec<Outgoing>, topic: Topic, payload: Payload)
    ensures
        outgoing_models(final(out)@) == outgoing_models(old(out)@).push(
            sent(topic@, payload@),
        ),
        final(out)@.len() == old(out)@.len() + 1,
{
    let ghost shown = sent(topic@, payload@);
    let ghost before = outgoing_models(out@);
    out.push(Outgoing { topic: topic, payload: payload, plane: Plane::Control });
    assert(outgoing_models(out@) =~= before.push(shown));
}

/// Adds a message to the subscribers directly.
pub fn publish(out: &mut Vec<Outgoing>, topic: Topic, payload: Payload)
    ensures
        outgoing_models(final(out)@) == outgoing_models(old(out)@).push(
            published(topic@, payload@),
        ),
        final(out)@.len() == old(out)@.len() + 1,
{
    let ghost shown = published(topic@, payload@);
    let ghost before = outgoing_models(out@);
    out.push(Outgoing { topic: topic, payload: payload, plane: Plane::Data });
    assert(outgoing_models(out@) =~= before.push(shown));
}

/// No messages.
pub fn nothing() -> (r: Vec<Outgoing>)
    ensures
        outgoing_models(r@) == Seq::<OutgoingModel>::empty(),
{
    let out: Vec<Outgoing> = Vec::new();
    assert(outgoing_models(out@) =~= Seq::empty());
    out
}

/// The last elements of a list with one more, at most `n` of them.
pub open spec fn pushed_within<A>(v: Seq<A>, x: A, n: nat) -> Seq<A> {
    if v.len() >= n && v.len() > 0 {
        v.skip(1).push(x)
    } else {
        v.push(x)
    }
}

/// A list that is kept within a bound stays within it, and ends with what was
/// added last.
pub proof fn law_bounded_list<A>(v: Seq<A>, x: A, n: nat)
    requires
        v.len() <= n,
        n > 0,
    ensures
        pushed_within(v, x, n).len() <= n,
        pushed_within(v, x, n).last() == x,
        v.len() < n ==> pushed_within(v, x, n) == v.push(x),
        v.len() == n ==> pushed_within(v, x, n).drop_last() == v.skip(1),
{
    if v.len() == n {
        assert(v.skip(1).push(x).drop_last() =~= v.skip(1));
    }
}

/// The texts as strings.
pub fn strings(v: &[&str]) -> (r: Vec<String>)
    ensures
        model::texts(r@) == v@.map_values(|s: &str| s@),
{
    let mut out: Vec<String> = Vec::new();
    let mut i: usize = 0;
    while i < v.len()
        invariant
            i <= v@.len(),
            out@.len() == i,
            forall|j: int| 0 <= j < i ==> (#[trigger] out@[j])@ == v@[j]@,
        decreases v@.len() - i,
    {
        out.push(String::from_str(v[i]));
        i = i + 1;
    }
    assert(model::texts(out@) =~= v@.map_values(|s: &str| s@));
    out
}

/// A field is read under its name, the first where there are several; what stands before
/// it under other names does not matter.
pub proof fn law_field_is_read_by_name(p: PayloadModel, i: int)
    requires
        0 <= i < p.len(),
        forall|j: int| 0 <= j < i ==> (#[trigger] p[j]).0 != p[i].0,
    ensures
        has_field(p, p[i].0),
        field(p, p[i].0) == p[i].1,
        p[i].1 matches FieldModel::Text(s) ==> text_at(p, p[i].0) == Some(s),
        !(p[i].1 is Text) ==> text_at(p, p[i].0) is None,
{
    lemma_field_from(p, p[i].0, 0, i);
}

proof fn lemma_field_from(p: PayloadModel, name: Seq<char>, j: int, i: int)
    requires
        0 <= j <= i < p.len(),
        p[i].0 == name,
        forall|k: int| j <= k < i ==> (#[trigger] p[k]).0 != name,
    ensures
        field_from(p, name, j) == p[i].1,
    decreases i - j,
{
    if j < i {
        assert(p[j].0 != name);
        lemma_field_from(p, name, j + 1, i);
    }
}

/// A field that is not there reads as nothing, and a default stands in for it; so it does
/// for a field of another kind.
pub proof fn law_default_stands_in(
    p: PayloadModel,
    name: Seq<char>,
    text: Seq<char>,
    flag: bool,
    number: u64,
)
    ensures
        !has_field(p, name) ==> field(p, name) is Null && text_at(p, name) is None,
        text_at(p, name) is None ==> text_or(p, name, text) == text,
        text_at(p, name) matches Some(s) ==> text_or(p, name, text) == s,
        field(p, name) matches FieldModel::Flag(b) ==> flag_or(p, name, flag) == b,
        !(field(p, name) is Flag) ==> flag_or(p, name, flag) == flag,
        field(p, name) matches FieldModel::Number(n) ==> number_or(p, name, number) == n,
        !(field(p, name) is Number) ==> number_or(p, name, number) == number,
{
    if !has_field(p, name) {
        lemma_no_field(p, name, 0);
    }
}

proof fn lemma_no_field(p: PayloadModel, name: Seq<char>, i: int)
    requires
        0 <= i <= p.len(),
        !has_field(p, name),
    ensures
        field_from(p, name, i) is Null,
    decreases p.len() - i,
{
    if i < p.len() {
        assert(p[i].0 != name);
        lemma_no_field(p, name, i + 1);
    }
}

/// What is sent, published or whispered goes under its topic with its payload, each on a
/// plane of its own.
pub proof fn law_planes_are_apart(topic: Seq<char>, payload: PayloadModel)
    ensures
        sent(topic, payload).topic == topic && sent(topic, payload).payload == payload && sent(
            topic,
            payload,
        ).plane is Control,
        published(topic, payload).topic == topic && published(topic, payload).payload == payload
            && published(topic, payload).plane is Data,
        whispered(topic, payload).topic == topic && whispered(topic, payload).payload == payload
            && whispered(topic, payload).plane is Quiet,
{
}

/// A message that is read must be readable, and then all its fields count; one that is not
/// read is never refused, and none of its fields counts.
pub proof fn law_read_messages_are_readable(bytes: Seq<u8>, p: PayloadModel)
    ensures
        outside::unpacked(bytes) == Some(p) ==> carried(true, bytes) == Some(p),
        outside::unpacked(bytes) is None ==> carried(true, bytes) is None,
        carried(false, bytes) is Some && carried(false, bytes)->0.len() == 0,
{
}

/// What has been read back answers every question about a field as what was written does.
pub proof fn law_fields_read_back(
    p: PayloadModel,
    q: PayloadModel,
    name: Seq<char>,
    text: Seq<char>,
    flag: bool,
    number: u64,
)
    requires
        reads_back(p, Some(q)),
    ensures
        text_at(q, name) == text_at(p, name),
        text_or(q, name, text) == text_or(p, name, text),
        flag_or(q, name, flag) == flag_or(p, name, flag),
        number_or(q, name, number) == number_or(p, name, number),
        has_field(q, name) == has_field(p, name),
{
    assert(field(q, name) == field(p, name));
}

} // verus!

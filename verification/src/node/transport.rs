//! How a node is connected: to the kernel, through which control messages go, and
//! to other nodes directly, from which data comes.
//!
//! Sockets are opened, read and written by the caller.

use crate::message::frame;
use crate::message::frame::{
    FrameCodec, FrameError, HeaderModel, Message, MessageHeader, MessageModel,
};
use crate::message::topic::Topic;
use crate::node::payload;
use crate::node::payload::{Payload, PayloadModel};
use crate::node::{NodeId, NodeType};
use crate::outside;
use crate::text::text_map::TextMap;
use crate::text::text_set::TextSet;
use crate::text::{lemmas, model, ops};
use vstd::prelude::*;
use vstd::string::*;

verus! {

/// A node that publishes data.
#[derive(Debug)]
pub struct PublisherInfo {
    /// The node.
    pub node_id: String,
    /// Where it publishes.
    pub pub_addr: String,
    /// The topics that it publishes on.
    pub topics: Vec<String>,
}

/// What is known of a publisher.
#[verifier::ext_equal]
pub struct PublisherModel {
    pub node_id: Seq<char>,
    pub pub_addr: Seq<char>,
    pub topics: Seq<Seq<char>>,
}

impl View for PublisherInfo {
    type V = PublisherModel;

    open spec fn view(&self) -> PublisherModel {
        PublisherModel {
            node_id: self.node_id@,
            pub_addr: self.pub_addr@,
            topics: model::texts(self.topics@),
        }
    }
}

/// The publishers that a list holds.
pub open spec fn publisher_models(v: Seq<PublisherInfo>) -> Seq<PublisherModel> {
    v.map_values(|p: PublisherInfo| p@)
}

/// The fields of a packed value; none where it has none.
pub open spec fn fields_of(bytes: Seq<u8>) -> PayloadModel {
    match outside::unpacked(bytes) {
        Some(p) => p,
        None => PayloadModel::empty(),
    }
}

/// The elements of a packed list under a name; none where there is no list.
pub open spec fn items_of(bytes: Seq<u8>, name: Seq<char>) -> Seq<Seq<u8>> {
    match outside::unpacked_items(bytes, name) {
        Some(v) => v,
        None => Seq::empty(),
    }
}

/// The texts of the first `n` elements of a list that are texts.
pub open spec fn texts_among(v: Seq<Option<Seq<char>>>, n: nat) -> Seq<Seq<char>>
    decreases n,
{
    if n == 0 {
        Seq::empty()
    } else {
        match v[n - 1] {
            Some(s) => texts_among(v, (n - 1) as nat).push(s),
            None => texts_among(v, (n - 1) as nat),
        }
    }
}

/// The texts in a packed list under a name; none where there is no list.
pub open spec fn topics_of(bytes: Seq<u8>, name: Seq<char>) -> Seq<Seq<char>> {
    match outside::unpacked_texts(bytes, name) {
        Some(v) => texts_among(v, v.len()),
        None => Seq::empty(),
    }
}

/// The publisher that a packed value describes.
pub open spec fn publisher_of(bytes: Seq<u8>) -> PublisherModel {
    PublisherModel {
        node_id: payload::text_or(fields_of(bytes), "node_id"@, ""@),
        pub_addr: payload::text_or(fields_of(bytes), "pub_addr"@, ""@),
        topics: topics_of(bytes, "topics"@),
    }
}

/// The publishers that the first `n` of some packed values describe.
pub open spec fn publishers_of(items: Seq<Seq<u8>>, n: nat) -> Seq<PublisherModel>
    decreases n,
{
    if n == 0 {
        Seq::empty()
    } else {
        publishers_of(items, (n - 1) as nat).push(publisher_of(items[n - 1]))
    }
}

/// The publishers that the first `n` entries of the kernel's list name.
pub open spec fn entries_named(entries: Seq<Seq<u8>>, n: nat) -> Seq<PublisherModel>
    decreases n,
{
    if n == 0 {
        Seq::empty()
    } else {
        let items = items_of(entries[n - 1], "publishers"@);
        entries_named(entries, (n - 1) as nat) + publishers_of(items, items.len())
    }
}

/// The publishers that a message of the kernel names.
pub open spec fn publishers_named(bytes: Seq<u8>) -> Seq<PublisherModel> {
    let entries = items_of(bytes, "publishers"@);
    entries_named(entries, entries.len())
}

/// The elements of a packed list under a name.
fn read_items(bytes: &Vec<u8>, name: &str) -> (r: Vec<Vec<u8>>)
    ensures
        frame::frame_bytes(r@) == items_of(bytes@, name@),
{
    match outside::unpack_items(bytes, name) {
        Some(v) => v,
        None => {
            let none: Vec<Vec<u8>> = Vec::new();
            assert(frame::frame_bytes(none@) =~= Seq::empty());
            none
        },
    }
}

/// The publisher that a packed value describes.
fn read_publisher(bytes: &Vec<u8>) -> (r: PublisherInfo)
    ensures
        r@ == publisher_of(bytes@),
{
    let fields = match outside::unpack(bytes) {
        Some(p) => p,
        None => Payload::new(),
    };
    let mut topics: Vec<String> = Vec::new();
    assert(model::texts(topics@) =~= Seq::empty());
    if let Some(found) = outside::unpack_texts(bytes, "topics") {
        let ghost all = outside::opt_texts(found@);
        let mut i: usize = 0;
        while i < found.len()
            invariant
                i <= found@.len(),
                all == outside::opt_texts(found@),
                model::texts(topics@) == texts_among(all, i as nat),
            decreases found@.len() - i,
        {
            assert(all[i as int] == model::opt_text(found@[i as int]));
            if let Some(s) = &found[i] {
                let ghost before = topics@;
                let text = s.clone();
                topics.push(text);
                assert(model::texts(topics@) =~= model::texts(before).push(s@));
            }
            i = i + 1;
        }
    }
    PublisherInfo {
        node_id: String::from_str(fields.text_or("node_id", "")),
        pub_addr: String::from_str(fields.text_or("pub_addr", "")),
        topics,
    }
}

/// The publishers that a message of the kernel names.
fn read_publishers(bytes: &Vec<u8>) -> (r: Vec<PublisherInfo>)
    ensures
        publisher_models(r@) == publishers_named(bytes@),
{
    let entries = read_items(bytes, "publishers");
    let ghost es = frame::frame_bytes(entries@);
    let mut out: Vec<PublisherInfo> = Vec::new();
    assert(publisher_models(out@) =~= Seq::empty());
    let mut i: usize = 0;
    while i < entries.len()
        invariant
            i <= entries@.len(),
            es == frame::frame_bytes(entries@),
            publisher_models(out@) == entries_named(es, i as nat),
        decreases entries@.len() - i,
    {
        let items = read_items(&entries[i], "publishers");
        let ghost ps = frame::frame_bytes(items@);
        let ghost begun = publisher_models(out@);
        assert(begun + publishers_of(ps, 0) =~= begun);
        let mut j: usize = 0;
        while j < items.len()
            invariant
                j <= items@.len(),
                ps == frame::frame_bytes(items@),
                publisher_models(out@) == begun + publishers_of(ps, j as nat),
            decreases items@.len() - j,
        {
            let ghost before = publisher_models(out@);
            let p = read_publisher(&items[j]);
            let ghost shown = p@;
            out.push(p);
            assert(publisher_models(out@) =~= before.push(shown));
            assert(begun + publishers_of(ps, j as nat).push(shown) =~= before.push(shown));
            j = j + 1;
        }
        assert(es[i as int] == entries@[i as int]@);
        i = i + 1;
    }
    out
}

/// A connection to open.
#[derive(Debug)]
pub struct DataConnection {
    /// The publisher's address.
    pub pub_addr: String,
    /// The topics to subscribe to.
    pub topics: Vec<String>,
}

/// What a connection holds.
#[verifier::ext_equal]
pub struct ConnectionModel {
    pub pub_addr: Seq<char>,
    pub topics: Seq<Seq<char>>,
}

impl View for DataConnection {
    type V = ConnectionModel;

    open spec fn view(&self) -> ConnectionModel {
        ConnectionModel { pub_addr: self.pub_addr@, topics: model::texts(self.topics@) }
    }
}

/// The connections that a list holds.
pub open spec fn connection_models(v: Seq<DataConnection>) -> Seq<ConnectionModel> {
    v.map_values(|c: DataConnection| c@)
}

/// Whether a topic is one of those listened to, or begins with one.
pub open spec fn listens_to(subscriptions: Seq<Seq<char>>, topic: Seq<char>) -> bool {
    exists|i: int|
        0 <= i < subscriptions.len() && model::starts_with(topic, #[trigger] subscriptions[i])
}

/// Whether data on a topic comes directly from its publisher: the topic is no
/// pattern, and it is listened to.
pub open spec fn comes_directly(subscriptions: Seq<Seq<char>>, topic: Seq<char>) -> bool {
    !model::contains(topic, "*"@) && listens_to(subscriptions, topic)
}

/// The topics whose data comes directly.
pub open spec fn direct_topics(
    subscriptions: Seq<Seq<char>>,
    topics: Seq<Seq<char>>,
) -> Seq<Seq<char>> {
    topics.filter(|t: Seq<char>| comes_directly(subscriptions, t))
}

/// What is known of the data plane.
#[verifier::ext_equal]
pub struct DataPlaneModel {
    /// The publishers by their addresses.
    pub publishers: Map<Seq<char>, PublisherModel>,
    /// The addresses that are connected to.
    pub connected: Set<Seq<char>>,
    /// The topics that are listened to.
    pub subscriptions: Seq<Seq<char>>,
}

/// A connection that follows from learning of a publisher, if one does: to a
/// publisher with an address that is not connected to yet, for topics whose data
/// comes directly.
pub open spec fn connection_to(m: DataPlaneModel, p: PublisherModel) -> Option<ConnectionModel> {
    let topics = direct_topics(m.subscriptions, p.topics);
    if p.pub_addr.len() == 0 || m.connected.contains(p.pub_addr) || topics.len() == 0 {
        None
    } else {
        Some(ConnectionModel { pub_addr: p.pub_addr, topics: topics })
    }
}

/// The data plane after learning of a publisher.
pub open spec fn learned(m: DataPlaneModel, p: PublisherModel) -> DataPlaneModel {
    if p.pub_addr.len() == 0 || m.connected.contains(p.pub_addr) {
        m
    } else {
        DataPlaneModel {
            publishers: m.publishers.insert(p.pub_addr, p),
            connected: if connection_to(m, p) is Some {
                m.connected.insert(p.pub_addr)
            } else {
                m.connected
            },
            subscriptions: m.subscriptions,
        }
    }
}

/// The data plane after learning of the first `n` publishers.
pub open spec fn all_learned(m: DataPlaneModel, v: Seq<PublisherModel>, n: nat) -> DataPlaneModel
    decreases n,
{
    if n == 0 {
        m
    } else {
        learned(all_learned(m, v, (n - 1) as nat), v[n - 1])
    }
}

/// The connections that follow from learning of the first `n` publishers.
pub open spec fn connections(m: DataPlaneModel, v: Seq<PublisherModel>, n: nat) -> Seq<
    ConnectionModel,
>
    decreases n,
{
    if n == 0 {
        Seq::empty()
    } else {
        let before = connections(m, v, (n - 1) as nat);
        match connection_to(all_learned(m, v, (n - 1) as nat), v[n - 1]) {
            Some(c) => before.push(c),
            None => before,
        }
    }
}

/// The publishers that a map of publishers shows.
pub open spec fn shown_publishers(m: Map<Seq<char>, PublisherInfo>) -> Map<
    Seq<char>,
    PublisherModel,
> {
    Map::new(|k: Seq<char>| m.contains_key(k), |k: Seq<char>| m[k]@)
}

/// The beginning of topics that a pattern stands for: what comes before its first
/// star, up to the last slash there.
pub open spec fn plain_prefix(pattern: Seq<char>) -> Seq<char> {
    match model::find(pattern, "*"@) {
        Some(i) => {
            let before = pattern.take(i);
            match model::rfind(before, "/"@) {
                Some(j) => pattern.take(j + 1),
                None => before,
            }
        },
        None => pattern,
    }
}

/// The beginning of topics that a pattern stands for.
pub fn zmq_subscribe_prefix(pattern: &str) -> (r: String)
    ensures
        r@ == plain_prefix(pattern@),
{
    let chars = ops::chars_of(pattern);
    let s = chars.as_slice();
    proof {
        reveal_strlit("*");
        reveal_strlit("/");
    }
    match ops::find(s, "*") {
        Some(i) => {
            let before = ops::take(s, i);
            match ops::rfind(before, "/") {
                Some(j) => ops::string_of(ops::take(s, j + 1)),
                None => ops::string_of(before),
            }
        },
        None => ops::string_of(s),
    }
}

/// What is known of the nodes that publish data.
#[derive(Debug)]
pub struct DataPlaneState {
    publishers: TextMap<PublisherInfo>,
    connected: TextSet,
    local_subscriptions: Vec<String>,
}

impl View for DataPlaneState {
    type V = DataPlaneModel;

    closed spec fn view(&self) -> DataPlaneModel {
        DataPlaneModel {
            publishers: shown_publishers(self.publishers@),
            connected: self.connected@,
            subscriptions: model::texts(self.local_subscriptions@),
        }
    }
}

impl DataPlaneState {
    /// The publishers and the addresses are in order.
    pub closed spec fn wf(&self) -> bool {
        self.publishers.wf() && self.connected.wf()
    }

    /// Nothing is known yet.
    pub fn new(local_subscriptions: Vec<String>) -> (r: Self)
        ensures
            r.wf(),
            r@ == (DataPlaneModel {
                publishers: Map::empty(),
                connected: Set::empty(),
                subscriptions: model::texts(local_subscriptions@),
            }),
    {
        let r = DataPlaneState {
            publishers: TextMap::new(),
            connected: TextSet::new(),
            local_subscriptions,
        };
        assert(r@.publishers =~= Map::empty());
        r
    }

    /// Whether a topic is one of those listened to, or begins with one.
    pub fn topic_matches(subscriptions: &Vec<String>, topic: &str) -> (r: bool)
        ensures
            r == listens_to(model::texts(subscriptions@), topic@),
    {
        let chars = ops::chars_of(topic);
        let ghost all = model::texts(subscriptions@);
        let mut i: usize = 0;
        while i < subscriptions.len()
            invariant
                i <= subscriptions@.len(),
                chars@ == topic@,
                all == model::texts(subscriptions@),
                forall|j: int| 0 <= j < i ==> !model::starts_with(topic@, #[trigger] all[j]),
            decreases subscriptions@.len() - i,
        {
            assert(all[i as int] == subscriptions@[i as int]@);
            if ops::starts_with(chars.as_slice(), subscriptions[i].as_str()) {
                return true;
            }
            i = i + 1;
        }
        false
    }

    /// The topics whose data comes directly.
    fn direct(&self, topics: &Vec<String>) -> (r: Vec<String>)
        ensures
            model::texts(r@) == direct_topics(self@.subscriptions, model::texts(topics@)),
    {
        let ghost f = |t: Seq<char>| comes_directly(self@.subscriptions, t);
        let ghost all = model::texts(topics@);
        let mut out: Vec<String> = Vec::new();
        assert(model::texts(out@) =~= Seq::empty());
        proof {
            reveal(Seq::filter);
        }
        assert(all.take(0).filter(f) =~= Seq::empty());
        let mut i: usize = 0;
        while i < topics.len()
            invariant
                i <= topics@.len(),
                all == model::texts(topics@),
                f == (|t: Seq<char>| comes_directly(self@.subscriptions, t)),
                model::texts(out@) == all.take(i as int).filter(f),
            decreases topics@.len() - i,
        {
            proof {
                reveal(Seq::filter);
            }
            assert(all[i as int] == topics@[i as int]@);
            assert(all.take(i + 1).drop_last() =~= all.take(i as int));
            let t = topics[i].as_str();
            if !ops::text_contains(t, "*") && DataPlaneState::topic_matches(
                &self.local_subscriptions,
                t,
            ) {
                let ghost before = out@;
                let item = topics[i].clone();
                let ghost shown = item@;
                out.push(item);
                assert(model::texts(out@) =~= model::texts(before).push(shown));
            }
            i = i + 1;
        }
        assert(all.take(all.len() as int) =~= all);
        out
    }

    /// Learns of a publisher, and returns the connection to open, if one is.
    fn learn(&mut self, p: PublisherInfo) -> (r: Option<DataConnection>)
        requires
            old(self).wf(),
        ensures
            final(self).wf(),
            final(self)@ == learned(old(self)@, p@),
            match r {
                Some(c) => connection_to(old(self)@, p@) == Some(c@),
                None => connection_to(old(self)@, p@) is None,
            },
    {
        let ghost m = self@;
        let size: usize = ops::text_byte_len(p.pub_addr.as_str());
        proof {
            crate::text::lemmas::lemma_byte_len_at_least(p.pub_addr@);
            if p.pub_addr@.len() == 0 {
                assert(model::byte_len(p.pub_addr@) == 0);
            }
        }
        if size == 0 || self.connected.contains(p.pub_addr.as_str()) {
            return None;
        }
        let topics = self.direct(&p.topics);
        assert(model::texts(topics@).len() == topics@.len());
        let addr = p.pub_addr.clone();
        let ghost shown = p@;
        self.publishers.insert(addr.clone(), p);
        assert(self@.publishers =~= m.publishers.insert(addr@, shown));
        if topics.len() == 0 {
            return None;
        }
        self.connected.insert(addr.clone());
        Some(DataConnection { pub_addr: addr, topics })
    }

    /// Learns of publishers, and returns the connections to open.
    pub fn handle_discovery(&mut self, publishers: Vec<PublisherInfo>) -> (r: Vec<DataConnection>)
        requires
            old(self).wf(),
        ensures
            final(self).wf(),
            final(self)@ == all_learned(
                old(self)@,
                publisher_models(publishers@),
                publishers@.len(),
            ),
            connection_models(r@) == connections(
                old(self)@,
                publisher_models(publishers@),
                publishers@.len(),
            ),
    {
        let ghost m = self@;
        let ghost all = publisher_models(publishers@);
        let mut out: Vec<DataConnection> = Vec::new();
        assert(connection_models(out@) =~= Seq::empty());
        for p in it: publishers
            invariant
                self.wf(),
                all == publisher_models(it.seq()),
                self@ == all_learned(m, all, it.index() as nat),
                connection_models(out@) == connections(m, all, it.index() as nat),
        {
            let ghost i = it.index() as int;
            assert(all[i] == p@);
            if let Some(c) = self.learn(p) {
                let ghost before = out@;
                let ghost shown = c@;
                out.push(c);
                assert(connection_models(out@) =~= connection_models(before).push(shown));
            }
        }
        out
    }

    /// Learns of publishers that have changed, and returns the connections to
    /// open.
    pub fn handle_publisher_change(&mut self, publishers: Vec<PublisherInfo>) -> (r: Vec<
        DataConnection,
    >)
        requires
            old(self).wf(),
        ensures
            final(self).wf(),
            final(self)@ == all_learned(
                old(self)@,
                publisher_models(publishers@),
                publishers@.len(),
            ),
            connection_models(r@) == connections(
                old(self)@,
                publisher_models(publishers@),
                publishers@.len(),
            ),
    {
        self.handle_discovery(publishers)
    }

    /// Takes in the answer to a registration as it came: learns of the publishers
    /// that it names, where that is what it is for. Returns the connections to
    /// open.
    pub fn discover(&mut self, msg: &Message) -> (r: Result<Vec<DataConnection>, FrameError>)
        requires
            old(self).wf(),
        ensures
            final(self).wf(),
            match (r, outside::unpacked(msg@.payload)) {
                (Ok(out), Some(p)) => {
                    let named = if payload::text_at(p, "type"@) == Some("publisher_discovery"@) {
                        publishers_named(msg@.payload)
                    } else {
                        Seq::empty()
                    };
                    &&& final(self)@ == all_learned(old(self)@, named, named.len())
                    &&& connection_models(out@) == connections(old(self)@, named, named.len())
                },
                (Err(e), None) => e == FrameError::BadPayload && final(self)@ == old(self)@,
                _ => false,
            },
    {
        let p = match FrameCodec::decode_payload(msg) {
            Ok(p) => p,
            Err(e) => {
                return Err(e);
            },
        };
        let told = match p.text_at("type") {
            Some(kind) => ops::same_text(kind, "publisher_discovery"),
            None => false,
        };
        let named = if told {
            read_publishers(&msg.payload)
        } else {
            let none: Vec<PublisherInfo> = Vec::new();
            assert(publisher_models(none@) =~= Seq::empty());
            none
        };
        assert(publisher_models(named@).len() == named@.len());
        Ok(self.handle_discovery(named))
    }

    /// Takes in the news of a publisher as it came. Returns the connections to
    /// open.
    pub fn change(&mut self, msg: &Message) -> (r: Result<Vec<DataConnection>, FrameError>)
        requires
            old(self).wf(),
        ensures
            final(self).wf(),
            match (r, outside::unpacked(msg@.payload)) {
                (Ok(out), Some(p)) => {
                    let named = publishers_named(msg@.payload);
                    &&& final(self)@ == all_learned(old(self)@, named, named.len())
                    &&& connection_models(out@) == connections(old(self)@, named, named.len())
                },
                (Err(e), None) => e == FrameError::BadPayload && final(self)@ == old(self)@,
                _ => false,
            },
    {
        match FrameCodec::decode_payload(msg) {
            Ok(_) => {
                let named = read_publishers(&msg.payload);
                assert(publisher_models(named@).len() == named@.len());
                Ok(self.handle_publisher_change(named))
            },
            Err(e) => Err(e),
        }
    }

    /// The publishers by their addresses.
    pub fn publishers(&self) -> (r: &TextMap<PublisherInfo>)
        ensures
            shown_publishers(r@) == self@.publishers,
    {
        &self.publishers
    }
}

/// How a node is connected.
#[derive(Debug)]
pub struct NodeConnectInfo {
    /// The address of the kernel's router socket.
    pub router_addr: String,
    /// The address of the kernel's publisher socket.
    pub pub_addr: String,
    /// The node's identifier.
    pub node_id: NodeId,
    /// What the node is.
    pub node_type: String,
    /// The topics that the node listens to.
    pub subscriptions: Vec<String>,
    /// Where the node publishes data; empty if it does not.
    pub data_pub_addr: String,
    /// The topics that the node publishes on.
    pub published_topics: Vec<String>,
    /// Where the node answers requests for its service.
    pub data_rep_addr: Option<String>,
    /// The service that the node offers.
    pub service_name: Option<String>,
}

/// What a node tells the kernel of itself.
pub open spec fn registered(info: NodeConnectInfo) -> PayloadModel {
    let base = seq![
        payload::text_field("node_id"@, info.node_id@),
        payload::text_field("node_type"@, info.node_type@),
        payload::list_field("subscriptions"@, model::texts(info.subscriptions@)),
        payload::text_field("pub_addr"@, info.data_pub_addr@),
        payload::list_field("published_topics"@, model::texts(info.published_topics@)),
    ];
    let answering = match info.data_rep_addr {
        Some(a) => base.push(payload::text_field("rep_addr"@, a@)),
        None => base,
    };
    match info.service_name {
        Some(s) => answering.push(payload::text_field("service_name"@, s@)),
        None => answering,
    }
}

impl NodeConnectInfo {
    /// The message by which the node registers.
    pub fn registration(&self) -> (r: Message)
        ensures
            frame::is_new_message(
                r@,
                "sys/register"@,
                self.node_id@,
                None,
                outside::packed(registered(*self)),
                0,
            ),
    {
        let base = Payload::new().text("node_id", self.node_id.as_str()).text(
            "node_type",
            self.node_type.as_str(),
        ).list("subscriptions", &self.subscriptions).text(
            "pub_addr",
            self.data_pub_addr.as_str(),
        ).list("published_topics", &self.published_topics);
        let answering = match &self.data_rep_addr {
            Some(a) => base.text("rep_addr", a.as_str()),
            None => base,
        };
        let body = match &self.service_name {
            Some(s) => answering.text("service_name", s.as_str()),
            None => answering,
        };
        assert(body@ =~= registered(*self));
        FrameCodec::new_message(
            Topic::sys_register(),
            self.node_id.as_str(),
            outside::pack(&body),
        )
    }

    /// Whether the node publishes data.
    pub fn publishes(&self) -> (r: bool)
        ensures
            r == (self.data_pub_addr@.len() > 0),
    {
        let size: usize = ops::text_byte_len(self.data_pub_addr.as_str());
        proof {
            crate::text::lemmas::lemma_byte_len_at_least(self.data_pub_addr@);
            if self.data_pub_addr@.len() == 0 {
                assert(model::byte_len(self.data_pub_addr@) == 0);
            }
        }
        size > 0
    }

    /// The connection of a node that offers no service.
    pub fn of_node(
        router_addr: &str,
        pub_addr: &str,
        node_id: NodeId,
        node_type: NodeType,
        subscriptions: Vec<String>,
        data_pub_addr: &str,
        published_topics: Vec<String>,
        data_rep_addr: Option<String>,
    ) -> (r: Self)
        ensures
            r.router_addr@ == router_addr@,
            r.pub_addr@ == pub_addr@,
            r.node_id@ == node_id@,
            r.node_type@ == crate::node::node_type_name(node_type),
            model::texts(r.subscriptions@) == model::texts(subscriptions@),
            r.data_pub_addr@ == data_pub_addr@,
            model::texts(r.published_topics@) == model::texts(published_topics@),
            r.data_rep_addr == data_rep_addr,
            r.service_name is None,
    {
        NodeConnectInfo {
            router_addr: String::from_str(router_addr),
            pub_addr: String::from_str(pub_addr),
            node_id,
            node_type: String::from_str(node_type.as_str()),
            subscriptions,
            data_pub_addr: String::from_str(data_pub_addr),
            published_topics,
            data_rep_addr,
            service_name: None,
        }
    }
}

/// A message with another number.
pub open spec fn numbered(m: MessageModel, sequence: u64) -> MessageModel {
    MessageModel { header: HeaderModel { sequence: sequence, ..m.header }, ..m }
}

/// A message with another number.
pub fn with_sequence(msg: &Message, sequence: u64) -> (r: Message)
    ensures
        r@ == numbered(msg@, sequence),
{
    let copy = msg.clone();
    Message {
        topic: copy.topic,
        header: MessageHeader {
            msg_id: copy.header.msg_id,
            timestamp: copy.header.timestamp,
            src_node: copy.header.src_node,
            reply_to: copy.header.reply_to,
            sequence,
            requires_ack: copy.header.requires_ack,
        },
        payload: copy.payload,
    }
}

/// What a node does with a message.
#[derive(Debug, Clone, Copy, PartialEq, Eq, Structural)]
pub enum Route {
    /// Stop.
    Stop,
    /// Note that a message was acknowledged, if the message says which.
    Acknowledge,
    /// Nothing.
    Ignore,
    /// Learn of publishers from the answer to the registration.
    Discover,
    /// Learn of publishers that have changed.
    Change,
    /// Hand it to the node.
    Handle,
}

/// What a node does with a message on a topic; `is_reply` says whether the message
/// answers another.
pub open spec fn route_of(topic: Seq<char>, is_reply: bool) -> Route {
    if topic == "sys/shutdown"@ {
        Route::Stop
    } else if topic == "sys/ack"@ {
        Route::Acknowledge
    } else if topic == "sys/heartbeat"@ {
        Route::Ignore
    } else if topic == "sys/register"@ && is_reply {
        Route::Discover
    } else if topic == "sys/publisher_change"@ {
        Route::Change
    } else {
        Route::Handle
    }
}

/// What a node does with a message.
pub fn route(msg: &Message) -> (r: Route)
    ensures
        r == route_of(msg@.topic, msg@.header.reply_to is Some),
{
    let name = ops::chars_of(msg.topic.as_str());
    let t = name.as_slice();
    if ops::is_text(t, "sys/shutdown") {
        Route::Stop
    } else if ops::is_text(t, "sys/ack") {
        Route::Acknowledge
    } else if ops::is_text(t, "sys/heartbeat") {
        Route::Ignore
    } else if ops::is_text(t, "sys/register") && msg.header.reply_to.is_some() {
        Route::Discover
    } else if ops::is_text(t, "sys/publisher_change") {
        Route::Change
    } else {
        Route::Handle
    }
}

/// A publisher that is connected to is not connected to again.
pub proof fn law_connected_once(m: DataPlaneModel, p: PublisherModel)
    requires
        connection_to(m, p) is Some,
    ensures
        connection_to(learned(m, p), p) is None,
        learned(learned(m, p), p) == learned(m, p),
{
}

/// A pattern never leads to a direct connection: the kernel passes its messages
/// on.
pub proof fn law_patterns_go_through_the_kernel(
    subscriptions: Seq<Seq<char>>,
    topics: Seq<Seq<char>>,
    i: int,
)
    requires
        0 <= i < direct_topics(subscriptions, topics).len(),
    ensures
        !model::contains(direct_topics(subscriptions, topics)[i], "*"@),
        listens_to(subscriptions, direct_topics(subscriptions, topics)[i]),
{
    let f = |t: Seq<char>| comes_directly(subscriptions, t);
    topics.lemma_filter_pred(f, i);
}

/// What a pattern's plain beginning is, is where the pattern begins.
pub proof fn law_prefix_begins_the_pattern(pattern: Seq<char>)
    ensures
        model::starts_with(pattern, plain_prefix(pattern)),
{
    let star = "*"@;
    reveal_strlit("*");
    reveal_strlit("/");
    match model::find(pattern, star) {
        Some(i) => {
            crate::text::lemmas::lemma_find_sound(pattern, star, 0);
            let before = pattern.take(i);
            match model::rfind(before, "/"@) {
                Some(j) => {
                    lemma_rfind_bound(before, "/"@, before.len() as int);
                    assert(pattern.take(j + 1).len() == j + 1);
                },
                None => {
                    assert(pattern.take(i).len() == i);
                },
            }
        },
        None => {
            assert(pattern.take(pattern.len() as int) =~= pattern);
        },
    }
}

proof fn lemma_rfind_bound(s: Seq<char>, p: Seq<char>, i: int)
    requires
        p.len() == 1,
    ensures
        model::rfind_from(s, p, i) matches Some(j) ==> 0 <= j && j + p.len() <= s.len(),
    decreases i + 1,
{
    if i >= 0 {
        lemma_rfind_bound(s, p, i - 1);
    }
}

/// A pattern is subscribed to by what it begins with: up to the last slash before its
/// first star, or up to the star where no slash comes before it, or wholly where it has no
/// star.
pub proof fn law_prefix_ends_before_the_star(pre: Seq<char>, seg: Seq<char>, rest: Seq<char>)
    requires
        !pre.contains('*'),
        !seg.contains('*'),
        !seg.contains('/'),
    ensures
        plain_prefix(pre) == pre,
        plain_prefix(seg + seq!['*'] + rest) == seg,
        plain_prefix(pre + seq!['/'] + seg + seq!['*'] + rest) == pre + seq!['/'],
{
    reveal_strlit("*");
    reveal_strlit("/");
    assert("*"@ =~= seq!['*']);
    assert("/"@ =~= seq!['/']);
    assert forall|k: int| 0 <= k implies !model::occurs_at(pre, "*"@, k) by {
        if model::occurs_at(pre, "*"@, k) {
            assert(pre.subrange(k, k + 1)[0] == '*');
            assert(pre[k] == '*');
        }
    }
    lemmas::lemma_find_nowhere(pre, "*"@, 0);
    let s = seg + seq!['*'] + rest;
    lemma_star_at(seg, rest);
    assert(s.take(seg.len() as int) =~= seg);
    lemma_no_slash(seg, seg.len() - 1);
    let head = pre + seq!['/'] + seg;
    let t = head + seq!['*'] + rest;
    assert(!head.contains('*')) by {
        if head.contains('*') {
            let k = choose|k: int| 0 <= k < head.len() && head[k] == '*';
            if k < pre.len() {
                assert(pre[k] == '*');
            } else if k > pre.len() {
                assert(seg[k - pre.len() - 1] == '*');
            }
        }
    }
    lemma_star_at(head, rest);
    assert(t.take(head.len() as int) =~= head);
    lemma_last_slash(pre, seg, head.len() - 1);
    assert(t.take(pre.len() as int + 1) =~= pre + seq!['/']);
}

proof fn lemma_star_at(a: Seq<char>, rest: Seq<char>)
    requires
        !a.contains('*'),
    ensures
        model::find(a + seq!['*'] + rest, seq!['*']) == Some(a.len() as int),
{
    let s = a + seq!['*'] + rest;
    let n = a.len() as int;
    assert(s.subrange(n, n + 1) =~= seq!['*']);
    assert forall|k: int| 0 <= k < n implies !model::occurs_at(s, seq!['*'], k) by {
        if model::occurs_at(s, seq!['*'], k) {
            assert(s.subrange(k, k + 1)[0] == '*');
            assert(a[k] == '*');
        }
    }
    lemmas::lemma_find_first(s, seq!['*'], n, 0);
}

proof fn lemma_no_slash(s: Seq<char>, i: int)
    requires
        !s.contains('/'),
        i < s.len(),
    ensures
        model::rfind_from(s, seq!['/'], i) is None,
    decreases i + 1,
{
    if i >= 0 {
        if model::occurs_at(s, seq!['/'], i) {
            assert(s.subrange(i, i + 1)[0] == '/');
            assert(s[i] == '/');
        }
        lemma_no_slash(s, i - 1);
    }
}

proof fn lemma_last_slash(pre: Seq<char>, seg: Seq<char>, i: int)
    requires
        !seg.contains('/'),
        pre.len() <= i < pre.len() + 1 + seg.len(),
    ensures
        model::rfind_from(pre + seq!['/'] + seg, seq!['/'], i) == Some(pre.len() as int),
    decreases i,
{
    let s = pre + seq!['/'] + seg;
    if i == pre.len() {
        assert(s.subrange(i, i + 1) =~= seq!['/']);
    } else {
        if model::occurs_at(s, seq!['/'], i) {
            assert(s.subrange(i, i + 1)[0] == '/');
            assert(seg[i - pre.len() - 1] == '/');
        }
        lemma_last_slash(pre, seg, i - 1);
    }
}

/// A topic without a star that begins with a subscription comes directly.
pub proof fn law_plain_topics_come_directly(
    subscriptions: Seq<Seq<char>>,
    topics: Seq<Seq<char>>,
    i: int,
    j: int,
)
    requires
        0 <= i < topics.len(),
        0 <= j < subscriptions.len(),
        !model::contains(topics[i], "*"@),
        model::starts_with(topics[i], subscriptions[j]),
    ensures
        direct_topics(subscriptions, topics).contains(topics[i]),
    decreases topics.len(),
{
    reveal(Seq::filter);
    let f = |t: Seq<char>| comes_directly(subscriptions, t);
    let t = topics[i];
    assert(listens_to(subscriptions, t));
    let all = direct_topics(subscriptions, topics);
    if i < topics.len() - 1 {
        law_plain_topics_come_directly(subscriptions, topics.drop_last(), i, j);
        let before = direct_topics(subscriptions, topics.drop_last());
        let k = choose|k: int| 0 <= k < before.len() && before[k] == t;
        assert(all[k] == t);
    } else {
        assert(all == topics.drop_last().filter(f).push(t));
        assert(all[all.len() - 1] == t);
    }
}

/// A publisher is connected to where it has an address that is not connected yet and
/// topics that are listened to; then to these topics.
pub proof fn law_publisher_is_connected(m: DataPlaneModel, p: PublisherModel)
    ensures
        connection_to(m, p) is Some <==> p.pub_addr.len() > 0 && !m.connected.contains(p.pub_addr)
            && direct_topics(m.subscriptions, p.topics).len() > 0,
        connection_to(m, p) matches Some(c) ==> c.pub_addr == p.pub_addr && c.topics
            == direct_topics(m.subscriptions, p.topics),
        connection_to(m, p) is Some ==> learned(m, p).connected == m.connected.insert(p.pub_addr),
        connection_to(m, p) is None ==> learned(m, p).connected == m.connected,
        p.pub_addr.len() > 0 && !m.connected.contains(p.pub_addr) ==> learned(m, p).publishers
            == m.publishers.insert(p.pub_addr, p),
        p.pub_addr.len() == 0 ==> learned(m, p) == m,
        learned(m, p).subscriptions == m.subscriptions,
{
}

/// Publishers are learned one after the other, and each that can be is connected to.
pub proof fn law_publishers_are_learned_in_order(
    m: DataPlaneModel,
    v: Seq<PublisherModel>,
    n: nat,
)
    requires
        0 < n <= v.len(),
    ensures
        all_learned(m, v, 0) == m,
        all_learned(m, v, n) == learned(all_learned(m, v, (n - 1) as nat), v[n - 1]),
        connections(m, v, 0).len() == 0,
        connection_to(all_learned(m, v, (n - 1) as nat), v[n - 1]) matches Some(c) ==> connections(
            m,
            v,
            n,
        ) == connections(m, v, (n - 1) as nat).push(c),
        connection_to(all_learned(m, v, (n - 1) as nat), v[n - 1]) is None ==> connections(m, v, n)
            == connections(m, v, (n - 1) as nat),
{
}

/// The texts of a list are kept in their order, and what is no text is left out.
pub proof fn law_texts_are_kept(v: Seq<Option<Seq<char>>>, n: nat)
    requires
        0 < n <= v.len(),
    ensures
        texts_among(v, 0).len() == 0,
        v[n - 1] matches Some(s) ==> texts_among(v, n) == texts_among(v, (n - 1) as nat).push(s),
        v[n - 1] is None ==> texts_among(v, n) == texts_among(v, (n - 1) as nat),
{
}

/// Every publisher that is named is read: with its name, its address and its topics.
pub proof fn law_named_publishers_are_read(items: Seq<Seq<u8>>, n: nat, i: int)
    requires
        0 <= i < n <= items.len(),
    ensures
        publishers_of(items, n).len() == n,
        publishers_of(items, n)[i].node_id == payload::text_or(
            fields_of(items[i]),
            "node_id"@,
            ""@,
        ),
        publishers_of(items, n)[i].pub_addr == payload::text_or(
            fields_of(items[i]),
            "pub_addr"@,
            ""@,
        ),
        publishers_of(items, n)[i].topics == topics_of(items[i], "topics"@),
    decreases n,
{
    if i < n - 1 {
        law_named_publishers_are_read(items, (n - 1) as nat, i);
    } else if n > 1 {
        law_named_publishers_are_read(items, (n - 1) as nat, 0);
    } else {
        assert(publishers_of(items, 0).len() == 0);
    }
}

/// The publishers of all entries are told, entry by entry.
pub proof fn law_entries_name_publishers(entries: Seq<Seq<u8>>, n: nat)
    requires
        0 < n <= entries.len(),
    ensures
        entries_named(entries, 0).len() == 0,
        entries_named(entries, n) == entries_named(entries, (n - 1) as nat) + publishers_of(
            items_of(entries[n - 1], "publishers"@),
            items_of(entries[n - 1], "publishers"@).len(),
        ),
{
}

/// A registration tells the name and the kind of the node and where it publishes, and,
/// where it has them, where it answers and under which service.
pub proof fn law_registration_tells_the_node(info: NodeConnectInfo)
    ensures
        ({
            let p = registered(info);
            &&& payload::text_at(p, "node_id"@) == Some(info.node_id@)
            &&& payload::text_at(p, "node_type"@) == Some(info.node_type@)
            &&& payload::text_at(p, "pub_addr"@) == Some(info.data_pub_addr@)
            &&& payload::field(p, "subscriptions"@) == payload::FieldModel::Packed(
                outside::packed_texts(model::texts(info.subscriptions@)),
            )
            &&& payload::field(p, "published_topics"@) == payload::FieldModel::Packed(
                outside::packed_texts(model::texts(info.published_topics@)),
            )
            &&& info.data_rep_addr matches Some(a) ==> payload::text_at(p, "rep_addr"@) == Some(a@)
            &&& info.service_name matches Some(s) ==> payload::text_at(p, "service_name"@) == Some(
                s@,
            )
        }),
{
    reveal_strlit("node_id");
    reveal_strlit("node_type");
    reveal_strlit("subscriptions");
    reveal_strlit("pub_addr");
    reveal_strlit("published_topics");
    reveal_strlit("rep_addr");
    reveal_strlit("service_name");
    assert("node_id"@.len() == 7 && "node_type"@.len() == 9 && "subscriptions"@.len() == 13 && "pub_addr"@.len() == 8 && "published_topics"@.len() == 16 && "rep_addr"@.len() == 8 && "service_name"@.len() == 12);
    assert("pub_addr"@[0] == 'p' && "rep_addr"@[0] == 'r');
    let p = registered(info);
    payload::law_field_is_read_by_name(p, 0);
    payload::law_field_is_read_by_name(p, 1);
    payload::law_field_is_read_by_name(p, 2);
    payload::law_field_is_read_by_name(p, 3);
    payload::law_field_is_read_by_name(p, 4);
    if info.data_rep_addr is Some {
        payload::law_field_is_read_by_name(p, 5);
        if info.service_name is Some {
            payload::law_field_is_read_by_name(p, 6);
        }
    } else if info.service_name is Some {
        payload::law_field_is_read_by_name(p, 5);
    }
}

/// A number changes nothing else of a message.
pub proof fn law_message_is_numbered(m: MessageModel, sequence: u64)
    ensures
        numbered(m, sequence).header.sequence == sequence,
        numbered(m, sequence).topic == m.topic,
        numbered(m, sequence).payload == m.payload,
        numbered(m, sequence).header.msg_id == m.header.msg_id,
        numbered(m, sequence).header.src_node == m.header.src_node,
        numbered(m, sequence).header.reply_to == m.header.reply_to,
        numbered(m, m.header.sequence) == m,
{
}

/// A shutdown stops the node, an acknowledgement is counted, a heartbeat is ignored, and
/// of the rest what tells of publishers is for the connections and all else for the node.
pub proof fn law_messages_take_their_routes(topic: Seq<char>, is_reply: bool)
    ensures
        route_of("sys/shutdown"@, is_reply) is Stop,
        route_of("sys/ack"@, is_reply) is Acknowledge,
        route_of("sys/heartbeat"@, is_reply) is Ignore,
        route_of("sys/register"@, true) is Discover,
        route_of("sys/register"@, false) is Handle,
        route_of("sys/publisher_change"@, is_reply) is Change,
        topic != "sys/shutdown"@ && topic != "sys/ack"@ && topic != "sys/heartbeat"@ && topic
            != "sys/register"@ && topic != "sys/publisher_change"@ ==> route_of(
            topic,
            is_reply,
        ) is Handle,
{
    reveal_strlit("sys/shutdown");
    reveal_strlit("sys/ack");
    reveal_strlit("sys/heartbeat");
    reveal_strlit("sys/register");
    reveal_strlit("sys/publisher_change");
    assert("sys/shutdown"@.len() == 12 && "sys/ack"@.len() == 7 && "sys/heartbeat"@.len() == 13 && "sys/register"@.len() == 12 && "sys/publisher_change"@.len() == 20);
    assert("sys/register"@[4] == 'r' && "sys/shutdown"@[4] == 's');
}

/// A message of the kernel names the publishers of all its entries, in their order.
pub proof fn law_message_names_publishers(bytes: Seq<u8>, entries: Seq<Seq<u8>>)
    requires
        items_of(bytes, "publishers"@) == entries,
    ensures
        entries.len() == 0 ==> publishers_named(bytes).len() == 0,
        entries.len() > 0 ==> publishers_named(bytes) == entries_named(
            entries,
            (entries.len() - 1) as nat,
        ) + publishers_of(
            items_of(entries.last(), "publishers"@),
            items_of(entries.last(), "publishers"@).len(),
        ),
{
}

} // verus!

//! Requests to services and the responses that answer them.

use crate::message::frame;
use crate::message::frame::{FrameCodec, FrameError, Message, MessageModel};
use crate::message::topic::Topic;
use crate::node::payload;
use crate::node::payload::{Payload, PayloadModel};
use crate::outside;
use crate::text::text_map::TextMap;
use vstd::prelude::*;
use vstd::string::*;

verus! {

/// What tells requests apart.
pub type ServiceRequestId = String;

/// What becomes of a response.
#[derive(Debug, Clone, Copy, PartialEq, Eq, Structural)]
pub enum ResponseOutcome {
    /// It answers a request that was waiting; the request waits no more.
    Delivered,
    /// No request with its identifier is waiting.
    Unknown,
    /// It does not say which request it answers.
    MissingRequestId,
}

/// Keeps track of the requests that wait for a response.
#[derive(Debug)]
pub struct ServiceClient {
    node_id: String,
    pending_requests: TextMap<Topic>,
}

impl View for ServiceClient {
    type V = Map<Seq<char>, Topic>;

    /// The requests that wait, each with the topic that it was sent to.
    closed spec fn view(&self) -> Map<Seq<char>, Topic> {
        self.pending_requests@
    }
}

/// What a request carries; what is asked is packed.
pub open spec fn request_fields(request_id: Seq<char>, request: Seq<u8>) -> PayloadModel {
    seq![
        payload::text_field("request_id"@, request_id),
        payload::packed_field("data"@, request),
    ]
}

/// Whether a message asks something of a service.
pub open spec fn is_request(
    m: MessageModel,
    node: Seq<char>,
    service_name: Seq<char>,
    request_id: Seq<char>,
    request: Seq<u8>,
) -> bool {
    frame::is_new_message(
        m,
        "service/"@ + service_name + "/request"@,
        node,
        None,
        outside::packed(request_fields(request_id, request)),
        0,
    )
}

/// Whether the same requests wait as before, and one more.
pub open spec fn waits_too(
    before: Map<Seq<char>, Topic>,
    after: Map<Seq<char>, Topic>,
    request_id: Seq<char>,
    topic: Seq<char>,
) -> bool {
    &&& after.dom() == before.dom().insert(request_id)
    &&& after[request_id]@ == topic
    &&& forall|k: Seq<char>|
        k != request_id && before.contains_key(k) ==> #[trigger] after[k] == before[k]
}

impl ServiceClient {
    pub closed spec fn wf(&self) -> bool {
        self.pending_requests.wf()
    }

    /// The node that makes the requests.
    pub closed spec fn node(&self) -> Seq<char> {
        self.node_id@
    }

    /// A client without requests.
    pub fn new(node_id: String) -> (r: Self)
        ensures
            r.wf(),
            r.node() == node_id@,
            r@ == Map::<Seq<char>, Topic>::empty(),
    {
        ServiceClient { node_id: node_id, pending_requests: TextMap::new() }
    }

    /// Makes a request to a service, in MessagePack: the request's identifier, and
    /// the message to send. The request waits for a response.
    pub fn call(&mut self, service_name: &str, request: Vec<u8>) -> (r: (
        ServiceRequestId,
        Message,
    ))
        requires
            old(self).wf(),
        ensures
            final(self).wf(),
            final(self).node() == old(self).node(),
            outside::is_uuid_text(r.0@),
            is_request(r.1@, old(self).node(), service_name@, r.0@, request@),
            waits_too(old(self)@, final(self)@, r.0@, r.1@.topic),
    {
        let request_id = outside::fresh_id();
        let msg = self.begin(service_name, request_id.as_str(), request);
        (request_id, msg)
    }

    /// The message for a request with a given identifier, which waits for a response.
    pub fn begin(&mut self, service_name: &str, request_id: &str, request: Vec<u8>) -> (r: Message)
        requires
            old(self).wf(),
        ensures
            final(self).wf(),
            final(self).node() == old(self).node(),
            is_request(r@, old(self).node(), service_name@, request_id@, request@),
            waits_too(old(self)@, final(self)@, request_id@, r@.topic),
    {
        let topic = Topic::service_request(service_name);
        self.pending_requests.insert(String::from_str(request_id), topic.clone());
        assert(self@.dom() =~= old(self)@.dom().insert(request_id@));
        let ghost asked = request@;
        let body = Payload::new().text("request_id", request_id).packed("data", request);
        assert(body@ =~= request_fields(request_id@, asked));
        FrameCodec::new_message(topic, self.node_id.as_str(), outside::pack(&body))
    }

    /// Takes in a response as it came. One that cannot be read changes nothing.
    pub fn receive(&mut self, msg: &Message) -> (r: Result<ResponseOutcome, FrameError>)
        requires
            old(self).wf(),
        ensures
            final(self).wf(),
            final(self).node() == old(self).node(),
            match (r, outside::unpacked(msg@.payload)) {
                (Ok(o), Some(p)) => match payload::text_at(p, "request_id"@) {
                    Some(id) => {
                        &&& o == if old(self)@.contains_key(id) {
                            ResponseOutcome::Delivered
                        } else {
                            ResponseOutcome::Unknown
                        }
                        &&& final(self)@ == old(self)@.remove(id)
                    },
                    None => o == ResponseOutcome::MissingRequestId && final(self)@ == old(self)@,
                },
                (Err(e), None) => e == FrameError::BadPayload && final(self)@ == old(self)@,
                _ => false,
            },
    {
        match FrameCodec::decode_payload(msg) {
            Ok(p) => Ok(self.handle_response(p.text_at("request_id"))),
            Err(e) => Err(e),
        }
    }

    /// Takes in a response, given the identifier of the request that it answers.
    pub fn handle_response(&mut self, request_id: Option<&str>) -> (r: ResponseOutcome)
        requires
            old(self).wf(),
        ensures
            final(self).wf(),
            final(self).node() == old(self).node(),
            match request_id {
                Some(id) => {
                    &&& r == if old(self)@.contains_key(id@) {
                        ResponseOutcome::Delivered
                    } else {
                        ResponseOutcome::Unknown
                    }
                    &&& final(self)@ == old(self)@.remove(id@)
                },
                None => r == ResponseOutcome::MissingRequestId && final(self)@ == old(self)@,
            },
    {
        match request_id {
            Some(id) => match self.pending_requests.remove(id) {
                Some(_) => ResponseOutcome::Delivered,
                None => ResponseOutcome::Unknown,
            },
            None => ResponseOutcome::MissingRequestId,
        }
    }

    /// Whether a request waits for a response.
    pub fn is_waiting(&self, request_id: &str) -> (r: bool)
        requires
            self.wf(),
        ensures
            r == self@.contains_key(request_id@),
    {
        self.pending_requests.contains_key(request_id)
    }
}

/// A request waits until its response has come, and a second response to it is
/// unknown.
pub proof fn law_answered_once(
    before: Map<Seq<char>, Topic>,
    after: Map<Seq<char>, Topic>,
    request_id: Seq<char>,
    topic: Seq<char>,
)
    requires
        waits_too(before, after, request_id, topic),
    ensures
        after.contains_key(request_id),
        !after.remove(request_id).contains_key(request_id),
        forall|k: Seq<char>|
            k != request_id ==> (#[trigger] after.remove(request_id).contains_key(k)
                <==> before.contains_key(k)),
{
}

/// A request goes to the topic of its service, comes from the node that made it, and
/// tells its name and its data.
pub proof fn law_request_names_itself(
    m: MessageModel,
    node: Seq<char>,
    service_name: Seq<char>,
    request_id: Seq<char>,
    request: Seq<u8>,
)
    requires
        is_request(m, node, service_name, request_id, request),
    ensures
        m.topic == "service/"@ + service_name + "/request"@,
        m.header.src_node == node,
        m.payload == outside::packed(request_fields(request_id, request)),
        payload::text_at(request_fields(request_id, request), "request_id"@) == Some(request_id),
        payload::field(request_fields(request_id, request), "data"@)
            == payload::FieldModel::Packed(request),
{
    let p = request_fields(request_id, request);
    reveal_strlit("request_id");
    reveal_strlit("data");
    assert("request_id"@.len() == 10 && "data"@.len() == 4);
    assert(payload::field_from(p, "data"@, 0) == payload::field_from(p, "data"@, 1));
}

} // verus!

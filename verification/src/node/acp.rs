//! The border between JSON-RPC on the standard streams and the message bus.

use crate::message::frame::{FrameCodec, Message};
use crate::message::topic::Topic;
use crate::node::payload;
use crate::node::payload::{FieldModel, Outgoing, OutgoingModel, Payload, PayloadModel, Plane};
use crate::node::{NodeId, NodeType};
use crate::outside;
use crate::text::{lemmas, model, ops};
use vstd::prelude::*;
use vstd::string::*;

verus! {

/// What a JSON-RPC request is answered.
#[derive(Debug, Clone, Copy, PartialEq, Eq, Structural)]
pub enum AcpReply {
    /// Who answers, and which version of the protocol it speaks.
    Initialized,
    /// There is no such method.
    MethodNotFound,
}

/// What is told to the other side of the standard streams.
#[allow(inconsistent_fields)]
#[derive(Debug)]
pub enum AcpNotification {
    /// Something that the agent has said: what it is, and its text.
    Update { kind: String, content: String },
    /// The agent asks for permission; the content is what the message carries, in
    /// MessagePack.
    PermissionRequest { content: Vec<u8> },
    /// The session is over.
    SessionEnd,
}

/// What a notification holds.
#[allow(inconsistent_fields)]
#[verifier::ext_equal]
pub enum NotificationModel {
    Update { kind: Seq<char>, content: Seq<char> },
    PermissionRequest { content: Seq<u8> },
    SessionEnd,
}

impl View for AcpNotification {
    type V = NotificationModel;

    open spec fn view(&self) -> NotificationModel {
        match *self {
            AcpNotification::Update { kind, content } => NotificationModel::Update {
                kind: kind@,
                content: content@,
            },
            AcpNotification::PermissionRequest { content } => NotificationModel::PermissionRequest {
                content: content@,
            },
            AcpNotification::SessionEnd => NotificationModel::SessionEnd,
        }
    }
}

/// What a notification that may be there holds.
pub open spec fn opt_notification(o: Option<AcpNotification>) -> Option<NotificationModel> {
    match o {
        Some(n) => Some(n@),
        None => None,
    }
}

/// The border node.
#[derive(Debug)]
pub struct AcpNode {
    id: NodeId,
    primary_agent_id: String,
}

/// What the border node holds.
#[verifier::ext_equal]
pub struct AcpModel {
    pub id: Seq<char>,
    pub primary_agent_id: Seq<char>,
}

impl View for AcpNode {
    type V = AcpModel;

    closed spec fn view(&self) -> AcpModel {
        AcpModel { id: self.id@, primary_agent_id: self.primary_agent_id@ }
    }
}

/// The result that a request is answered.
pub open spec fn result_of(reply: AcpReply) -> PayloadModel {
    match reply {
        AcpReply::Initialized => seq![
            payload::text_field("protocolVersion"@, "2025-03-26"@),
            payload::nested_field(
                "capabilities"@,
                seq![payload::nested_field("session"@, Seq::empty())],
            ),
            payload::nested_field(
                "agentInfo"@,
                seq![
                    payload::text_field("name"@, "ccore-fusion"@),
                    payload::text_field("version"@, "0.1.0"@),
                ],
            ),
        ],
        AcpReply::MethodNotFound => seq![payload::text_field("error"@, "method not found"@)],
    }
}

/// The line that answers a request with an identifier, which is in JSON notation.
pub open spec fn reply_line(reply: AcpReply, id: Seq<char>) -> Seq<char> {
    outside::json_of(
        seq![
            payload::text_field("jsonrpc"@, "2.0"@),
            payload::packed_field("id"@, outside::packed_json(id)),
            payload::nested_field("result"@, result_of(reply)),
        ],
    )
}

/// What the other side is told of something new in the session.
pub open spec fn update_params(update: PayloadModel) -> PayloadModel {
    seq![
        payload::text_field("sessionId"@, "default"@),
        payload::nested_field("update"@, update),
    ]
}

/// What a notification tells.
pub open spec fn params_of(n: NotificationModel) -> PayloadModel {
    match n {
        NotificationModel::Update { kind, content } => update_params(
            seq![payload::text_field("type"@, kind), payload::text_field("content"@, content)],
        ),
        NotificationModel::PermissionRequest { content } => update_params(
            seq![
                payload::text_field("type"@, "permission_request"@),
                payload::packed_field("content"@, content),
            ],
        ),
        NotificationModel::SessionEnd => seq![payload::text_field("sessionId"@, "default"@)],
    }
}

/// The line by which the other side is notified.
pub open spec fn notification_line(n: NotificationModel) -> Seq<char> {
    outside::json_of(
        seq![
            payload::text_field("jsonrpc"@, "2.0"@),
            payload::text_field(
                "method"@,
                if n is SessionEnd {
                    "session/end"@
                } else {
                    "session/update"@
                },
            ),
            payload::nested_field("params"@, params_of(n)),
        ],
    )
}

/// What a request is answered; requests of the session are not.
pub open spec fn reply_to(method: Seq<char>) -> Option<AcpReply> {
    if method == "session/prompt"@ || method == "session/cancel"@ {
        None
    } else if method == "initialize"@ {
        Some(AcpReply::Initialized)
    } else {
        Some(AcpReply::MethodNotFound)
    }
}

/// The message that a request sends over the bus.
pub open spec fn request_message(
    agent_id: Seq<char>,
    method: Seq<char>,
    params: PayloadModel,
) -> Option<OutgoingModel> {
    let session_id = payload::text_or(params, "sessionId"@, "default"@);
    if method == "session/prompt"@ {
        let text = match payload::text_at(params, "prompt"@) {
            Some(s) => s,
            None => payload::text_or(params, "text"@, ""@),
        };
        Some(
            OutgoingModel {
                topic: "agent/"@ + agent_id + "/input"@,
                payload: seq![
                    payload::text_field("content"@, text),
                    payload::text_field("role"@, "user"@),
                    payload::text_field("session_id"@, session_id),
                ],
                plane: Plane::DataOnly,
            },
        )
    } else if method == "session/cancel"@ {
        Some(
            OutgoingModel {
                topic: "agent/"@ + agent_id + "/cancel"@,
                payload: seq![
                    payload::text_field("agent_id"@, agent_id),
                    payload::text_field("reason"@, "user_cancelled"@),
                    payload::text_field("session_id"@, session_id),
                ],
                plane: Plane::DataOnly,
            },
        )
    } else {
        None
    }
}

/// What a message from the bus makes known to the other side, given its named
/// fields and all that it carries.
pub open spec fn notification_of(topic: Seq<char>, p: PayloadModel, whole: Seq<u8>) -> Option<
    NotificationModel,
> {
    if model::ends_with(topic, "/output"@) {
        Some(
            NotificationModel::Update {
                kind: if payload::text_or(p, "channel"@, "text"@) == "text"@ {
                    "text"@
                } else {
                    "tool_call"@
                },
                content: payload::text_or(p, "content"@, ""@),
            },
        )
    } else if model::ends_with(topic, "/permission"@) {
        Some(NotificationModel::PermissionRequest { content: whole })
    } else if topic == "sys/shutdown"@ {
        Some(NotificationModel::SessionEnd)
    } else {
        None
    }
}

/// The request that a line of input may hold: the line without white space at
/// its ends, unless nothing is left.
pub fn request_line(line: &str) -> (r: Option<String>)
    ensures
        model::opt_text(r) == if model::trim(line@).len() == 0 {
            None
        } else {
            Some(model::trim(line@))
        },
{
    let chars = ops::chars_of(line);
    let trimmed = ops::trim(chars.as_slice());
    if trimmed.len() == 0 {
        None
    } else {
        Some(ops::string_of(trimmed))
    }
}

impl AcpReply {
    /// The line that answers a request with an identifier, which is in JSON notation.
    fn line(self, id: &str) -> (r: String)
        ensures
            r@ == reply_line(self, id@),
    {
        let result = match self {
            AcpReply::Initialized => {
                let agent = Payload::new().text("name", "ccore-fusion").text("version", "0.1.0");
                assert(agent@ =~= seq![
                    payload::text_field("name"@, "ccore-fusion"@),
                    payload::text_field("version"@, "0.1.0"@),
                ]);
                let nothing = Payload::new();
                let capabilities = Payload::new().nested("session", &nothing);
                assert(nothing@ =~= Seq::empty());
                assert(capabilities@ =~= seq![payload::nested_field("session"@, Seq::empty())]);
                Payload::new().text("protocolVersion", "2025-03-26").nested(
                    "capabilities",
                    &capabilities,
                ).nested("agentInfo", &agent)
            },
            AcpReply::MethodNotFound => Payload::new().text("error", "method not found"),
        };
        assert(result@ =~= result_of(self));
        let body = Payload::new().text("jsonrpc", "2.0").packed(
            "id",
            outside::pack_json(id),
        ).nested("result", &result);
        assert(body@ =~= seq![
            payload::text_field("jsonrpc"@, "2.0"@),
            payload::packed_field("id"@, outside::packed_json(id@)),
            payload::nested_field("result"@, result_of(self)),
        ]);
        outside::json_object(&body)
    }
}

/// What the other side is told of something new in the session.
fn make_update(update: Payload) -> (r: Payload)
    ensures
        r@ == update_params(update@),
{
    let r = Payload::new().text("sessionId", "default").nested("update", &update);
    assert(r@ =~= update_params(update@));
    r
}

impl AcpNotification {
    /// The line by which the other side is notified.
    pub fn line(&self) -> (r: String)
        ensures
            r@ == notification_line(self@),
    {
        let (method, params) = match self {
            AcpNotification::Update { kind, content } => {
                let update = Payload::new().text("type", kind.as_str()).text(
                    "content",
                    content.as_str(),
                );
                assert(update@ =~= seq![
                    payload::text_field("type"@, kind@),
                    payload::text_field("content"@, content@),
                ]);
                ("session/update", make_update(update))
            },
            AcpNotification::PermissionRequest { content } => {
                let update = Payload::new().text("type", "permission_request").packed(
                    "content",
                    content.clone(),
                );
                assert(update@ =~= seq![
                    payload::text_field("type"@, "permission_request"@),
                    payload::packed_field("content"@, content@),
                ]);
                ("session/update", make_update(update))
            },
            AcpNotification::SessionEnd => {
                ("session/end", Payload::new().text("sessionId", "default"))
            },
        };
        assert(params@ =~= params_of(self@));
        let body = Payload::new().text("jsonrpc", "2.0").text("method", method).nested(
            "params",
            &params,
        );
        assert(body@ =~= seq![
            payload::text_field("jsonrpc"@, "2.0"@),
            payload::text_field("method"@, method@),
            payload::nested_field("params"@, params_of(self@)),
        ]);
        outside::json_object(&body)
    }
}

impl AcpNode {
    /// A border node for an agent.
    pub fn new(id: NodeId, primary_agent_id: &str) -> (r: Self)
        ensures
            r@ == (AcpModel { id: id@, primary_agent_id: primary_agent_id@ }),
    {
        AcpNode { id: id, primary_agent_id: String::from_str(primary_agent_id) }
    }

    /// Names the agent.
    pub fn set_primary_agent(&mut self, agent_id: &str)
        ensures
            final(self)@ == (AcpModel { primary_agent_id: agent_id@, ..old(self)@ }),
    {
        self.primary_agent_id = String::from_str(agent_id);
    }

    pub fn node_type(&self) -> (r: NodeType)
        ensures
            r == NodeType::Acp,
    {
        NodeType::Acp
    }

    pub fn node_id(&self) -> (r: &NodeId)
        ensures
            r@ == self@.id,
    {
        &self.id
    }

    /// Takes in a JSON-RPC request: the line that answers it, and the message that it
    /// sends over the bus. Only a request with an identifier, which is given in JSON
    /// notation, is answered.
    pub fn handle_jsonrpc_request(&self, method: &str, params: &Payload, id: Option<&str>) -> (r: (
        Option<String>,
        Option<Outgoing>,
    ))
        ensures
            model::opt_text(r.0) == match (reply_to(method@), id) {
                (Some(reply), Some(i)) => Some(reply_line(reply, i@)),
                _ => None,
            },
            match r.1 {
                Some(m) => request_message(self@.primary_agent_id, method@, params@) == Some(m@),
                None => request_message(self@.primary_agent_id, method@, params@) is None,
            },
    {
        let name = ops::chars_of(method);
        let m = name.as_slice();
        let agent_id = self.primary_agent_id.as_str();
        let session_id = params.text_or("sessionId", "default");
        proof {
            reveal_strlit("initialize");
            reveal_strlit("session/prompt");
            reveal_strlit("session/cancel");
            assert("initialize"@.len() == 10);
            assert("session/prompt"@.len() == 14);
            assert("session/cancel"@.len() == 14);
            assert("session/prompt"@[8] == 'p');
            assert("session/cancel"@[8] == 'c');
        }
        if ops::is_text(m, "session/prompt") {
            let text = match params.text_at("prompt") {
                Some(s) => s,
                None => params.text_or("text", ""),
            };
            let body = Payload::new().text("content", text).text("role", "user").text(
                "session_id",
                session_id,
            );
            let out = Outgoing {
                topic: Topic::agent_input(agent_id),
                payload: body,
                plane: Plane::DataOnly,
            };
            assert(out@ =~~= request_message(agent_id@, method@, params@)->0);
            (None, Some(out))
        } else if ops::is_text(m, "session/cancel") {
            let body = Payload::new().text("agent_id", agent_id).text(
                "reason",
                "user_cancelled",
            ).text("session_id", session_id);
            let out = Outgoing {
                topic: Topic::agent_cancel(agent_id),
                payload: body,
                plane: Plane::DataOnly,
            };
            assert(out@ =~~= request_message(agent_id@, method@, params@)->0);
            (None, Some(out))
        } else {
            let reply = if ops::is_text(m, "initialize") {
                AcpReply::Initialized
            } else {
                AcpReply::MethodNotFound
            };
            match id {
                Some(i) => (Some(reply.line(i)), None),
                None => (None, None),
            }
        }
    }

    /// Takes in a message from the bus, as its named fields and as all that it carries:
    /// what it makes known to the other side.
    pub fn handle_message(&self, topic: &Topic, p: &Payload, whole: &Vec<u8>) -> (r: Option<
        AcpNotification,
    >)
        ensures
            opt_notification(r) == notification_of(topic@, p@, whole@),
    {
        let name = ops::chars_of(topic.as_str());
        let t = name.as_slice();
        if ops::ends_with(t, "/output") {
            let channel = p.text_or("channel", "text");
            let kind = if ops::same_text(channel, "text") {
                "text"
            } else {
                "tool_call"
            };
            Some(
                AcpNotification::Update {
                    kind: String::from_str(kind),
                    content: String::from_str(p.text_or("content", "")),
                },
            )
        } else if ops::ends_with(t, "/permission") {
            Some(AcpNotification::PermissionRequest { content: whole.clone() })
        } else if ops::is_text(t, "sys/shutdown") {
            Some(self.stop())
        } else {
            None
        }
    }

    /// Takes in a message as it came. One that cannot be read counts as one that
    /// carries nothing.
    pub fn receive(&self, msg: &Message) -> (r: Option<AcpNotification>)
        ensures
            opt_notification(r) == notification_of(
                msg@.topic,
                match outside::unpacked(msg@.payload) {
                    Some(p) => p,
                    None => PayloadModel::empty(),
                },
                msg@.payload,
            ),
    {
        let p = match FrameCodec::decode_payload(msg) {
            Ok(p) => p,
            Err(_) => Payload::new(),
        };
        self.handle_message(&msg.topic, &p, &msg.payload)
    }

    /// What the other side is told when the node stops.
    pub fn stop(&self) -> (r: AcpNotification)
        ensures
            r@ is SessionEnd,
    {
        AcpNotification::SessionEnd
    }

    /// The topics that the node listens to.
    pub fn subscriptions(&self) -> (r: Vec<String>)
        ensures
            model::texts(r@) == seq![
                "sys/shutdown"@,
                "agent/"@ + self@.primary_agent_id + "/output"@,
                "agent/"@ + self@.primary_agent_id + "/permission"@,
                "agent/"@ + self@.primary_agent_id + "/event"@,
            ],
    {
        let id = self.primary_agent_id.as_str();
        let mut out: Vec<String> = Vec::new();
        out.push(Topic::sys_shutdown().0);
        out.push(Topic::agent_output(id).0);
        out.push(Topic::agent_permission(id).0);
        out.push(Topic::agent_event(id).0);
        assert(model::texts(out@) =~= seq![
            "sys/shutdown"@,
            "agent/"@ + id@ + "/output"@,
            "agent/"@ + id@ + "/permission"@,
            "agent/"@ + id@ + "/event"@,
        ]);
        out
    }

    /// The topics that the node speaks on.
    pub fn published_topics(&self) -> (r: Vec<String>)
        ensures
            model::texts(r@) == seq![
                "agent/"@ + self@.primary_agent_id + "/input"@,
                "agent/"@ + self@.primary_agent_id + "/cancel"@,
            ],
    {
        let id = self.primary_agent_id.as_str();
        let mut out: Vec<String> = Vec::new();
        out.push(Topic::agent_input(id).0);
        out.push(Topic::agent_cancel(id).0);
        assert(model::texts(out@) =~= seq![
            "agent/"@ + id@ + "/input"@,
            "agent/"@ + id@ + "/cancel"@,
        ]);
        out
    }
}

/// A prompt goes to the agent as the user's words, under the session that it names; the
/// field for the prompt comes before the one for a text.
pub proof fn law_prompt_reaches_the_agent(
    agent_id: Seq<char>,
    params: PayloadModel,
    text: Seq<char>,
)
    requires
        payload::text_at(params, "prompt"@) == Some(text) || (payload::text_at(
            params,
            "prompt"@,
        ) is None && payload::text_at(params, "text"@) == Some(text)),
    ensures
        ({
            &&& request_message(agent_id, "session/prompt"@, params) matches Some(m)
            &&& m.topic == "agent/"@ + agent_id + "/input"@
            &&& payload::text_at(m.payload, "content"@) == Some(text)
            &&& payload::text_at(m.payload, "role"@) == Some("user"@)
            &&& payload::text_at(m.payload, "session_id"@) == Some(
                payload::text_or(params, "sessionId"@, "default"@),
            )
        }),
        reply_to("session/prompt"@) is None,
{
    reveal_strlit("content");
    reveal_strlit("role");
    reveal_strlit("session_id");
    assert("content"@.len() == 7 && "role"@.len() == 4 && "session_id"@.len() == 10);
    let q = request_message(agent_id, "session/prompt"@, params)->0.payload;
    payload::law_field_is_read_by_name(q, 0);
    payload::law_field_is_read_by_name(q, 1);
    payload::law_field_is_read_by_name(q, 2);
}

/// A cancellation goes to the agent as the user's wish.
pub proof fn law_cancellation_reaches_the_agent(agent_id: Seq<char>, params: PayloadModel)
    ensures
        ({
            &&& request_message(agent_id, "session/cancel"@, params) matches Some(m)
            &&& m.topic == "agent/"@ + agent_id + "/cancel"@
            &&& payload::text_at(m.payload, "agent_id"@) == Some(agent_id)
            &&& payload::text_at(m.payload, "reason"@) == Some("user_cancelled"@)
        }),
        reply_to("session/cancel"@) is None,
{
    reveal_strlit("session/prompt");
    reveal_strlit("session/cancel");
    assert("session/prompt"@.len() == 14 && "session/cancel"@.len() == 14);
    assert("session/cancel"@[8] == 'c' && "session/prompt"@[8] == 'p');
    reveal_strlit("agent_id");
    reveal_strlit("reason");
    assert("agent_id"@.len() == 8 && "reason"@.len() == 6);
    let q = request_message(agent_id, "session/cancel"@, params)->0.payload;
    payload::law_field_is_read_by_name(q, 0);
    payload::law_field_is_read_by_name(q, 1);
}

/// A beginning is answered with what there is; any other method is told to be unknown,
/// and reaches no agent.
pub proof fn law_other_methods_are_answered(
    agent_id: Seq<char>,
    method: Seq<char>,
    params: PayloadModel,
)
    requires
        method != "session/prompt"@,
        method != "session/cancel"@,
    ensures
        method == "initialize"@ ==> reply_to(method) == Some(AcpReply::Initialized),
        method != "initialize"@ ==> reply_to(method) == Some(AcpReply::MethodNotFound),
        request_message(agent_id, method, params) is None,
        payload::text_at(result_of(AcpReply::MethodNotFound), "error"@) == Some(
            "method not found"@,
        ),
        payload::text_at(result_of(AcpReply::Initialized), "protocolVersion"@) == Some(
            "2025-03-26"@,
        ),
{
}

/// What an agent puts out is told as text or as a tool's, by its channel; a request for
/// permission is told as it came, and the end of all as the end of the session.
pub proof fn law_agent_is_told_of(topic: Seq<char>, p: PayloadModel, whole: Seq<u8>, text: Seq<char>)
    requires
        payload::text_at(p, "content"@) == Some(text),
    ensures
        model::ends_with(topic, "/output"@) ==> {
            &&& notification_of(topic, p, whole) matches Some(n)
            &&& n matches NotificationModel::Update { kind, content }
            &&& content == text
            &&& kind == if payload::text_or(p, "channel"@, "text"@) == "text"@ {
                "text"@
            } else {
                "tool_call"@
            }
        },
        model::ends_with(topic, "/permission"@) ==> notification_of(topic, p, whole) == Some(
            NotificationModel::PermissionRequest { content: whole },
        ),
        topic == "sys/shutdown"@ ==> notification_of(topic, p, whole) == Some(
            NotificationModel::SessionEnd,
        ),
        !model::ends_with(topic, "/output"@) && !model::ends_with(topic, "/permission"@) && topic
            != "sys/shutdown"@ ==> notification_of(topic, p, whole) is None,
{
    reveal_strlit("/output");
    reveal_strlit("/permission");
    reveal_strlit("sys/shutdown");
    let a = "/output"@;
    let b = "/permission"@;
    let c = "sys/shutdown"@;
    assert(a.len() == 7 && b.len() == 11 && c.len() == 12);
    assert(a[6] == 't' && b[10] == 'n' && c[11] == 'n' && b[9] == 'o' && c[10] == 'w');
    if model::ends_with(topic, b) {
        lemmas::lemma_other_ending(topic, b, a, 0);
    }
    if topic == c {
        assert(c.skip(0) =~= c);
        assert(model::ends_with(topic, c));
        lemmas::lemma_other_ending(topic, c, a, 0);
        lemmas::lemma_other_ending(topic, c, b, 1);
    }
}

/// A request is answered with one line of JSON that names the version of the protocol,
/// repeats the request's identifier and holds the result.
pub proof fn law_answers_repeat_the_identifier(reply: AcpReply, id: Seq<char>) -> (p: PayloadModel)
    ensures
        reply_line(reply, id) == outside::json_of(p),
        p.len() == 3,
        payload::text_at(p, "jsonrpc"@) == Some("2.0"@),
        payload::field(p, "id"@) == FieldModel::Packed(outside::packed_json(id)),
        payload::field(p, "result"@) == FieldModel::Packed(outside::packed(result_of(reply))),
{
    reveal_strlit("jsonrpc");
    reveal_strlit("id");
    reveal_strlit("result");
    assert("jsonrpc"@.len() == 7 && "id"@.len() == 2 && "result"@.len() == 6);
    let p = seq![
        payload::text_field("jsonrpc"@, "2.0"@),
        payload::packed_field("id"@, outside::packed_json(id)),
        payload::nested_field("result"@, result_of(reply)),
    ];
    payload::law_field_is_read_by_name(p, 0);
    payload::law_field_is_read_by_name(p, 1);
    payload::law_field_is_read_by_name(p, 2);
    p
}

/// A notification is one line of JSON. The end of the session has a method of its own;
/// everything else is an update, which says of what kind it is and holds the content as it
/// was given.
pub proof fn law_notifications_are_lines(n: NotificationModel) -> (r: (
    PayloadModel,
    PayloadModel,
    PayloadModel,
))
    ensures
        notification_line(n) == outside::json_of(r.0),
        r.0.len() == 3,
        payload::text_at(r.0, "jsonrpc"@) == Some("2.0"@),
        payload::text_at(r.0, "method"@) == Some(
            match n {
                NotificationModel::SessionEnd => "session/end"@,
                _ => "session/update"@,
            },
        ),
        payload::field(r.0, "params"@) == FieldModel::Packed(outside::packed(r.1)),
        payload::text_at(r.1, "sessionId"@) == Some("default"@),
        n is SessionEnd ==> r.1.len() == 1,
        !(n is SessionEnd) ==> r.1.len() == 2 && payload::field(r.1, "update"@)
            == FieldModel::Packed(outside::packed(r.2)),
        n matches NotificationModel::Update { kind, content } ==> payload::text_at(r.2, "type"@)
            == Some(kind) && payload::text_at(r.2, "content"@) == Some(content),
        n matches NotificationModel::PermissionRequest { content } ==> payload::text_at(
            r.2,
            "type"@,
        ) == Some("permission_request"@) && payload::field(r.2, "content"@) == FieldModel::Packed(
            content,
        ),
{
    reveal_strlit("jsonrpc");
    reveal_strlit("method");
    reveal_strlit("params");
    reveal_strlit("sessionId");
    reveal_strlit("update");
    reveal_strlit("type");
    reveal_strlit("content");
    assert("jsonrpc"@.len() == 7 && "method"@.len() == 6 && "params"@.len() == 6);
    assert("method"@[0] == 'm' && "params"@[0] == 'p');
    assert("sessionId"@.len() == 9 && "update"@.len() == 6);
    assert("type"@.len() == 4 && "content"@.len() == 7);
    let p = seq![
        payload::text_field("jsonrpc"@, "2.0"@),
        payload::text_field(
            "method"@,
            if n is SessionEnd {
                "session/end"@
            } else {
                "session/update"@
            },
        ),
        payload::nested_field("params"@, params_of(n)),
    ];
    payload::law_field_is_read_by_name(p, 0);
    payload::law_field_is_read_by_name(p, 1);
    payload::law_field_is_read_by_name(p, 2);
    let q = params_of(n);
    payload::law_field_is_read_by_name(q, 0);
    let u = match n {
        NotificationModel::Update { kind, content } => seq![
            payload::text_field("type"@, kind),
            payload::text_field("content"@, content),
        ],
        NotificationModel::PermissionRequest { content } => seq![
            payload::text_field("type"@, "permission_request"@),
            payload::packed_field("content"@, content),
        ],
        NotificationModel::SessionEnd => Seq::empty(),
    };
    if !(n is SessionEnd) {
        payload::law_field_is_read_by_name(q, 1);
        payload::law_field_is_read_by_name(u, 0);
        payload::law_field_is_read_by_name(u, 1);
    }
    (p, q, u)
}

} // verus!

//! Messages and the three frames that carry them: the topic, the header and the
//! payload.

use crate::message::topic::Topic;
use crate::node::payload;
use crate::node::payload::Payload;
use crate::outside;
use crate::text::{model, ops};
use vstd::prelude::*;
use vstd::string::*;

verus! {

/// What goes before a message's payload.
#[derive(Debug, PartialEq, Eq)]
pub struct MessageHeader {
    /// What tells messages apart.
    pub msg_id: String,
    /// When the message was sent, in the notation of RFC 3339.
    pub timestamp: String,
    /// The node that sent it.
    pub src_node: String,
    /// The message that it answers.
    pub reply_to: Option<String>,
    /// Its number among the messages of the node.
    pub sequence: u64,
    /// Whether it must be acknowledged.
    pub requires_ack: bool,
}

/// What a header holds.
#[verifier::ext_equal]
pub struct HeaderModel {
    pub msg_id: Seq<char>,
    pub timestamp: Seq<char>,
    pub src_node: Seq<char>,
    pub reply_to: Option<Seq<char>>,
    pub sequence: u64,
    pub requires_ack: bool,
}

impl View for MessageHeader {
    type V = HeaderModel;

    open spec fn view(&self) -> HeaderModel {
        HeaderModel {
            msg_id: self.msg_id@,
            timestamp: self.timestamp@,
            src_node: self.src_node@,
            reply_to: model::opt_text(self.reply_to),
            sequence: self.sequence,
            requires_ack: self.requires_ack,
        }
    }
}

impl Clone for MessageHeader {
    fn clone(&self) -> (r: Self)
        ensures
            r@ == self@,
    {
        MessageHeader {
            msg_id: self.msg_id.clone(),
            timestamp: self.timestamp.clone(),
            src_node: self.src_node.clone(),
            reply_to: match &self.reply_to {
                Some(id) => Some(id.clone()),
                None => None,
            },
            sequence: self.sequence,
            requires_ack: self.requires_ack,
        }
    }
}

/// A message.
#[derive(Debug, PartialEq, Eq)]
pub struct Message {
    pub topic: Topic,
    pub header: MessageHeader,
    pub payload: Vec<u8>,
}

/// What a message holds.
#[verifier::ext_equal]
pub struct MessageModel {
    pub topic: Seq<char>,
    pub header: HeaderModel,
    pub payload: Seq<u8>,
}

impl View for Message {
    type V = MessageModel;

    open spec fn view(&self) -> MessageModel {
        MessageModel { topic: self.topic@, header: self.header@, payload: self.payload@ }
    }
}

impl Clone for Message {
    fn clone(&self) -> (r: Self)
        ensures
            r@ == self@,
    {
        let payload = self.payload.clone();
        assert(payload@ =~= self.payload@);
        Message { topic: self.topic.clone(), header: self.header.clone(), payload: payload }
    }
}

/// The messages that a list holds.
pub open spec fn message_models(v: Seq<Message>) -> Seq<MessageModel> {
    v.map_values(|m: Message| m@)
}

/// A message whose header is still encoded.
#[derive(Debug, PartialEq, Eq)]
pub struct RawMessage {
    pub topic: Topic,
    /// The encoded header.
    pub header: Vec<u8>,
    /// The encoded payload.
    pub payload: Vec<u8>,
}

/// What a message with an encoded header holds.
#[verifier::ext_equal]
pub struct RawModel {
    pub topic: Seq<char>,
    pub header: Seq<u8>,
    pub payload: Seq<u8>,
}

impl View for RawMessage {
    type V = RawModel;

    open spec fn view(&self) -> RawModel {
        RawModel { topic: self.topic@, header: self.header@, payload: self.payload@ }
    }
}

/// Why frames are no message.
#[derive(Debug, Clone, Copy, PartialEq, Eq, Structural)]
pub enum FrameError {
    /// There are not three frames but this many.
    WrongCount(usize),
    /// The first frame is no valid UTF-8.
    BadTopic,
    /// The third frame is no value in MessagePack.
    BadPayload,
}

/// What an error says.
pub open spec fn frame_error_text(e: FrameError) -> Seq<char> {
    match e {
        FrameError::WrongCount(n) => "消息帧数量错误：期望 3，实际 "@ + model::decimal(n as nat),
        FrameError::BadTopic => "invalid utf-8 sequence"@,
        FrameError::BadPayload => "invalid payload"@,
    }
}

impl FrameError {
    /// What the error says.
    pub fn describe(&self) -> (r: String)
        ensures
            r@ == frame_error_text(*self),
    {
        match self {
            FrameError::WrongCount(n) => ops::concat2(
                "消息帧数量错误：期望 3，实际 ",
                ops::decimal(*n).as_str(),
            ),
            FrameError::BadTopic => String::from_str("invalid utf-8 sequence"),
            FrameError::BadPayload => String::from_str("invalid payload"),
        }
    }
}

/// The frames that a list holds.
pub open spec fn frame_bytes(v: Seq<Vec<u8>>) -> Seq<Seq<u8>> {
    v.map_values(|f: Vec<u8>| f@)
}

/// The frames of a message.
pub open spec fn frames_of(m: RawModel) -> Seq<Seq<u8>> {
    seq![vstd::utf8::encode_utf8(m.topic), m.header, m.payload]
}

/// The message that frames carry.
pub open spec fn read_frames(f: Seq<Seq<u8>>) -> Result<RawModel, FrameError> {
    if f.len() != 3 {
        Err(FrameError::WrongCount(f.len() as usize))
    } else if !vstd::utf8::valid_utf8(f[0]) {
        Err(FrameError::BadTopic)
    } else {
        Ok(RawModel { topic: vstd::utf8::decode_utf8(f[0]), header: f[1], payload: f[2] })
    }
}

/// A copy of some bytes.
fn copy_bytes(v: &Vec<u8>) -> (r: Vec<u8>)
    ensures
        r@ == v@,
{
    let copy = v.clone();
    assert(copy@ =~= v@);
    copy
}

/// A new message: what its parts are, but for its identifier and its time.
pub open spec fn is_new_message(
    m: MessageModel,
    topic: Seq<char>,
    src_node: Seq<char>,
    reply_to: Option<Seq<char>>,
    payload: Seq<u8>,
    sequence: u64,
) -> bool {
    &&& m.topic == topic
    &&& m.payload == payload
    &&& outside::is_uuid_text(m.header.msg_id)
    &&& m.header.src_node == src_node
    &&& m.header.reply_to == reply_to
    &&& m.header.sequence == sequence
    &&& !m.header.requires_ack
}

/// Makes messages, and turns them into frames and back. Headers and payloads
/// are taken and given encoded.
pub struct FrameCodec;

impl FrameCodec {
    /// The named fields that a message carries.
    pub fn decode_payload(msg: &Message) -> (r: Result<Payload, FrameError>)
        ensures
            match r {
                Ok(p) => outside::unpacked(msg@.payload) == Some(p@),
                Err(e) => outside::unpacked(msg@.payload) is None && e == FrameError::BadPayload,
            },
    {
        match outside::unpack(&msg.payload) {
            Some(p) => Ok(p),
            None => Err(FrameError::BadPayload),
        }
    }

    /// The fields that a message carries where they are `read`, and none where
    /// they are not.
    pub fn decode_if(read: bool, msg: &Message) -> (r: Result<Payload, FrameError>)
        ensures
            match r {
                Ok(p) => payload::carried(read, msg@.payload) == Some(p@),
                Err(e) => payload::carried(read, msg@.payload) is None && e
                    == FrameError::BadPayload,
            },
    {
        if read {
            Self::decode_payload(msg)
        } else {
            Ok(Payload::new())
        }
    }

    /// A message with a given identifier and time.
    fn message(
        msg_id: String,
        timestamp: String,
        topic: Topic,
        src_node: &str,
        reply_to: Option<String>,
        payload: Vec<u8>,
        sequence: u64,
    ) -> (r: Message)
        ensures
            r@ == (MessageModel {
                topic: topic@,
                header: HeaderModel {
                    msg_id: msg_id@,
                    timestamp: timestamp@,
                    src_node: src_node@,
                    reply_to: model::opt_text(reply_to),
                    sequence: sequence,
                    requires_ack: false,
                },
                payload: payload@,
            }),
    {
        Message {
            topic: topic,
            header: MessageHeader {
                msg_id: msg_id,
                timestamp: timestamp,
                src_node: String::from_str(src_node),
                reply_to: reply_to,
                sequence: sequence,
                requires_ack: false,
            },
            payload: payload,
        }
    }

    /// A new message, numbered zero.
    pub fn new_message(topic: Topic, src_node: &str, payload: Vec<u8>) -> (r: Message)
        ensures
            is_new_message(r@, topic@, src_node@, None, payload@, 0),
    {
        Self::new_message_with_sequence(topic, src_node, payload, 0)
    }

    /// A new message with a number.
    pub fn new_message_with_sequence(
        topic: Topic,
        src_node: &str,
        payload: Vec<u8>,
        sequence: u64,
    ) -> (r: Message)
        ensures
            is_new_message(r@, topic@, src_node@, None, payload@, sequence),
    {
        Self::message(
            outside::fresh_id(),
            outside::timestamp(),
            topic,
            src_node,
            None,
            payload,
            sequence,
        )
    }

    /// A new message that answers another, numbered zero.
    pub fn new_reply(
        topic: Topic,
        src_node: &str,
        reply_to_msg_id: &str,
        payload: Vec<u8>,
    ) -> (r: Message)
        ensures
            is_new_message(r@, topic@, src_node@, Some(reply_to_msg_id@), payload@, 0),
    {
        Self::new_reply_with_sequence(topic, src_node, reply_to_msg_id, payload, 0)
    }

    /// A new message that answers another, with a number.
    pub fn new_reply_with_sequence(
        topic: Topic,
        src_node: &str,
        reply_to_msg_id: &str,
        payload: Vec<u8>,
        sequence: u64,
    ) -> (r: Message)
        ensures
            is_new_message(r@, topic@, src_node@, Some(reply_to_msg_id@), payload@, sequence),
    {
        Self::message(
            outside::fresh_id(),
            outside::timestamp(),
            topic,
            src_node,
            Some(String::from_str(reply_to_msg_id)),
            payload,
            sequence,
        )
    }

    /// The three frames of a message.
    pub fn encode(msg: &RawMessage) -> (r: Vec<Vec<u8>>)
        ensures
            frame_bytes(r@) == frames_of(msg@),
    {
        let mut out: Vec<Vec<u8>> = Vec::new();
        out.push(msg.topic.as_str().as_bytes_vec());
        out.push(copy_bytes(&msg.header));
        out.push(copy_bytes(&msg.payload));
        assert(frame_bytes(out@) =~= frames_of(msg@));
        out
    }

    /// The message that frames carry. There must be three frames, the first of
    /// them valid UTF-8.
    pub fn decode(frames: &[Vec<u8>]) -> (r: Result<RawMessage, FrameError>)
        ensures
            match r {
                Ok(m) => read_frames(frame_bytes(frames@)) == Ok::<RawModel, FrameError>(m@),
                Err(e) => read_frames(frame_bytes(frames@)) == Err::<RawModel, FrameError>(e),
            },
    {
        let ghost f = frame_bytes(frames@);
        if frames.len() != 3 {
            return Err(FrameError::WrongCount(frames.len()));
        }
        assert(f[0] == frames@[0]@);
        assert(f[1] == frames@[1]@);
        assert(f[2] == frames@[2]@);
        match outside::text_of_bytes(&frames[0]) {
            Some(text) => Ok(
                RawMessage {
                    topic: Topic(text),
                    header: copy_bytes(&frames[1]),
                    payload: copy_bytes(&frames[2]),
                },
            ),
            None => Err(FrameError::BadTopic),
        }
    }
}

/// Reading the frames of a message gives the message back.
pub proof fn law_frames_read_back(m: RawModel)
    ensures
        read_frames(frames_of(m)) == Ok::<RawModel, FrameError>(m),
{
    broadcast use vstd::utf8::group_utf8_lib;

    vstd::utf8::encode_utf8_valid_utf8(m.topic);
    vstd::utf8::encode_utf8_decode_utf8(m.topic);
}

/// The frames of a message that was read from three frames are the frames that
/// it was read from.
pub proof fn law_read_frames_write_back(f: Seq<Seq<u8>>)
    requires
        read_frames(f) is Ok,
    ensures
        frames_of(read_frames(f)->Ok_0) == f,
{
    vstd::utf8::decode_utf8_encode_utf8(f[0]);
    assert(frames_of(read_frames(f)->Ok_0) =~= f);
}

/// A new message carries what it was given; nobody has to acknowledge it.
pub proof fn law_new_message_carries_what_was_given(
    m: MessageModel,
    topic: Seq<char>,
    src_node: Seq<char>,
    reply_to: Option<Seq<char>>,
    payload: Seq<u8>,
    sequence: u64,
)
    requires
        is_new_message(m, topic, src_node, reply_to, payload, sequence),
    ensures
        m.topic == topic,
        m.payload == payload,
        m.header.src_node == src_node,
        m.header.reply_to == reply_to,
        m.header.sequence == sequence,
        m.header.requires_ack == false,
{
}

/// Frames are refused where there are not three of them, and where the first is no text.
pub proof fn law_broken_frames_are_refused(f: Seq<Seq<u8>>)
    requires
        f.len() <= usize::MAX,
    ensures
        f.len() != 3 ==> read_frames(f) == Err::<RawModel, FrameError>(
            FrameError::WrongCount(f.len() as usize),
        ),
        f.len() == 3 && !vstd::utf8::valid_utf8(f[0]) ==> read_frames(f) == Err::<
            RawModel,
            FrameError,
        >(FrameError::BadTopic),
        f.len() == 3 && vstd::utf8::valid_utf8(f[0]) ==> read_frames(f) is Ok,
{
}

/// Where there are not three frames, the error tells how many there are.
pub proof fn law_wrong_count_is_told(f: Seq<Seq<u8>>)
    requires
        f.len() != 3,
        f.len() <= usize::MAX,
    ensures
        read_frames(f) is Err,
        model::ends_with(frame_error_text(read_frames(f)->Err_0), model::decimal(f.len())),
        model::starts_with(
            frame_error_text(read_frames(f)->Err_0),
            "消息帧数量错误：期望 3，实际 "@,
        ),
{
    let s = frame_error_text(read_frames(f)->Err_0);
    let d = model::decimal(f.len());
    assert(s.skip(s.len() - d.len()) =~= d);
    let head = "消息帧数量错误：期望 3，实际 "@;
    assert(s.take(head.len() as int) =~= head);
}

} // verus!

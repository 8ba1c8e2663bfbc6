//! Nodes: the parts of the agent that exchange messages.

pub mod acp;
pub mod ear;
pub mod eye;
pub mod hand;
pub mod limb;
pub mod mouth;
pub mod nose;
pub mod payload;
pub mod sampler;
pub mod skin;
pub mod state;
pub mod thinker;
pub mod tool;
pub mod transport;
pub mod tui;

use crate::outside;
use vstd::prelude::*;
use vstd::string::*;

verus! {

/// What tells nodes apart.
#[derive(Debug, PartialEq, Eq, Hash)]
pub struct NodeId(pub String);

impl View for NodeId {
    type V = Seq<char>;

    open spec fn view(&self) -> Seq<char> {
        self.0@
    }
}

impl Clone for NodeId {
    fn clone(&self) -> (r: Self)
        ensures
            r@ == self@,
    {
        NodeId(self.0.clone())
    }
}

impl NodeId {
    /// A fresh identifier: a random UUID.
    pub fn new() -> (r: Self)
        ensures
            outside::is_uuid_text(r@),
    {
        NodeId(outside::fresh_id())
    }

    /// The identifier that the text is.
    pub fn from_str(s: &str) -> (r: Self)
        ensures
            r@ == s@,
    {
        NodeId(String::from_str(s))
    }

    /// The identifier as text.
    pub fn as_str(&self) -> (r: &str)
        ensures
            r@ == self@,
    {
        self.0.as_str()
    }
}

/// What a node does.
#[derive(Debug, Clone, Copy, PartialEq, Eq, Hash, Structural)]
pub enum NodeType {
    Kernel,
    Agent,
    Tool,
    Sampler,
    State,
    TUI,
    Plugin,
    Thinker,
    Acp,
    Eye,
    Ear,
    Nose,
    Skin,
    Mouth,
    Hand,
    Limb,
}

/// The name of a node's type.
pub open spec fn node_type_name(t: NodeType) -> Seq<char> {
    match t {
        NodeType::Kernel => "kernel"@,
        NodeType::Agent => "agent"@,
        NodeType::Tool => "tool"@,
        NodeType::Sampler => "sampler"@,
        NodeType::State => "state"@,
        NodeType::TUI => "tui"@,
        NodeType::Plugin => "plugin"@,
        NodeType::Thinker => "thinker"@,
        NodeType::Acp => "acp"@,
        NodeType::Eye => "eye"@,
        NodeType::Ear => "ear"@,
        NodeType::Nose => "nose"@,
        NodeType::Skin => "skin"@,
        NodeType::Mouth => "mouth"@,
        NodeType::Hand => "hand"@,
        NodeType::Limb => "limb"@,
    }
}

impl NodeType {
    /// The name of the type.
    pub fn as_str(&self) -> (r: &'static str)
        ensures
            r@ == node_type_name(*self),
    {
        match self {
            NodeType::Kernel => "kernel",
            NodeType::Agent => "agent",
            NodeType::Tool => "tool",
            NodeType::Sampler => "sampler",
            NodeType::State => "state",
            NodeType::TUI => "tui",
            NodeType::Plugin => "plugin",
            NodeType::Thinker => "thinker",
            NodeType::Acp => "acp",
            NodeType::Eye => "eye",
            NodeType::Ear => "ear",
            NodeType::Nose => "nose",
            NodeType::Skin => "skin",
            NodeType::Mouth => "mouth",
            NodeType::Hand => "hand",
            NodeType::Limb => "limb",
        }
    }
}

/// How freely tools may be used.
#[derive(Debug, Clone, Copy, PartialEq, Eq, Structural)]
pub enum PermissionMode {
    /// Everything is allowed.
    Yolo,
    /// What is known to be harmless is allowed, the rest is asked for.
    Trust,
    /// Everything is asked for.
    Ask,
}

/// How a node is started.
#[derive(Debug)]
pub struct NodeConfig {
    /// The node's identifier.
    pub id: NodeId,
    /// What the node does.
    pub node_type: NodeType,
    /// The directory that it works in.
    pub working_dir: String,
    /// The model, for agents and samplers.
    pub model: Option<String>,
    /// How freely it may use tools.
    pub permission_mode: PermissionMode,
    /// More settings, as JSON text.
    pub extra: String,
}

/// Where the message bus is.
#[derive(Debug)]
pub struct NodeContext {
    /// The address of the kernel's router socket.
    pub router_addr: String,
    /// The address of the kernel's publisher socket.
    pub pub_addr: String,
}

/// Every kind of node has a name of its own.
pub proof fn law_kinds_have_their_own_names(a: NodeType, b: NodeType)
    ensures
        node_type_name(a) == node_type_name(b) ==> a == b,
{
    reveal_strlit("kernel");
    reveal_strlit("agent");
    reveal_strlit("tool");
    reveal_strlit("sampler");
    reveal_strlit("state");
    reveal_strlit("tui");
    reveal_strlit("plugin");
    reveal_strlit("thinker");
    reveal_strlit("acp");
    reveal_strlit("eye");
    reveal_strlit("ear");
    reveal_strlit("nose");
    reveal_strlit("skin");
    reveal_strlit("mouth");
    reveal_strlit("hand");
    reveal_strlit("limb");
    assert("kernel"@.len() == 6 && "agent"@.len() == 5 && "tool"@.len() == 4 && "sampler"@.len() == 7 && "state"@.len() == 5 && "tui"@.len() == 3 && "plugin"@.len() == 6 && "thinker"@.len() == 7 && "acp"@.len() == 3 && "eye"@.len() == 3 && "ear"@.len() == 3 && "nose"@.len() == 4 && "skin"@.len() == 4 && "mouth"@.len() == 5 && "hand"@.len() == 4 && "limb"@.len() == 4);
    assert("kernel"@[0] == 'k' && "plugin"@[0] == 'p');
    assert("agent"@[0] == 'a' && "state"@[0] == 's');
    assert("agent"@[0] == 'a' && "mouth"@[0] == 'm');
    assert("sampler"@[0] == 's' && "thinker"@[0] == 't');
    assert("acp"@[0] == 'a' && "tui"@[0] == 't');
    assert("acp"@[0] == 'a' && "eye"@[0] == 'e');
    assert("acp"@[0] == 'a' && "ear"@[0] == 'e');
    assert("eye"@[0] == 'e' && "tui"@[0] == 't');
    assert("ear"@[0] == 'e' && "tui"@[0] == 't');
    assert("ear"@[1] == 'a' && "eye"@[1] == 'y');
    assert("nose"@[0] == 'n' && "tool"@[0] == 't');
    assert("nose"@[0] == 'n' && "skin"@[0] == 's');
    assert("skin"@[0] == 's' && "tool"@[0] == 't');
    assert("mouth"@[0] == 'm' && "state"@[0] == 's');
    assert("hand"@[0] == 'h' && "tool"@[0] == 't');
    assert("hand"@[0] == 'h' && "nose"@[0] == 'n');
    assert("hand"@[0] == 'h' && "skin"@[0] == 's');
    assert("hand"@[0] == 'h' && "limb"@[0] == 'l');
    assert("limb"@[0] == 'l' && "tool"@[0] == 't');
    assert("limb"@[0] == 'l' && "nose"@[0] == 'n');
    assert("limb"@[0] == 'l' && "skin"@[0] == 's');
}

} // verus!

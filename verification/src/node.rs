use vstd::prelude::*;
use crate::entity::Entity;
use crate::attributes::{AttributeGraph, GraphView};
use crate::text::{decimal, push_decimal};

verus! {

/// Status of an engine.
#[derive(Debug, Clone, Copy, PartialEq, Eq, Hash, Structural)]
pub enum EngineStatus {
    Inactive(Entity),
    Active(Entity),
    Disposed(Entity),
}

impl EngineStatus {
    /// Returns the engine's entity.
    pub fn entity(&self) -> (e: Entity)
        ensures
            e == self.spec_entity(),
    {
        match self {
            EngineStatus::Inactive(e) => *e,
            EngineStatus::Active(e) => *e,
            EngineStatus::Disposed(e) => *e,
        }
    }

    pub open spec fn spec_entity(&self) -> Entity {
        match self {
            EngineStatus::Inactive(e) => *e,
            EngineStatus::Active(e) => *e,
            EngineStatus::Disposed(e) => *e,
        }
    }
}

/// Status of an event.
#[derive(Debug, Clone, Copy, PartialEq, Eq, Hash, Structural)]
pub enum EventStatus {
    Scheduled(Entity),
    New(Entity),
    InProgress(Entity),
    Paused(Entity),
    Ready(Entity),
    Completed(Entity),
    Cancelled(Entity),
    Inactive(Entity),
    Disposed(Entity),
}

impl EventStatus {
    pub open spec fn spec_entity(&self) -> Entity {
        match self {
            EventStatus::Scheduled(e) => *e,
            EventStatus::New(e) => *e,
            EventStatus::InProgress(e) => *e,
            EventStatus::Paused(e) => *e,
            EventStatus::Ready(e) => *e,
            EventStatus::Completed(e) => *e,
            EventStatus::Cancelled(e) => *e,
            EventStatus::Inactive(e) => *e,
            EventStatus::Disposed(e) => *e,
        }
    }

    /// Returns the event's entity.
    pub fn entity(&self) -> (e: Entity)
        ensures
            e == self.spec_entity(),
    {
        match self {
            EventStatus::Scheduled(e) => *e,
            EventStatus::New(e) => *e,
            EventStatus::InProgress(e) => *e,
            EventStatus::Paused(e) => *e,
            EventStatus::Ready(e) => *e,
            EventStatus::Completed(e) => *e,
            EventStatus::Cancelled(e) => *e,
            EventStatus::Inactive(e) => *e,
            EventStatus::Disposed(e) => *e,
        }
    }
}

/// Enumeration of node statuses,
#[derive(Debug, Clone, Copy, PartialEq, Eq, Hash, Structural)]
pub enum NodeStatus {
    /// Engine status,
    Engine(EngineStatus),
    /// Event status,
    Event(EventStatus),
    /// Termination point for event nodes that are adhoc operations,
    Profiler(Entity),
    /// Status of a node with custom behavior,
    Custom(Entity),
    Empty,
}

impl Default for NodeStatus {
    fn default() -> (s: NodeStatus)
        ensures
            s == NodeStatus::Empty,
    {
        NodeStatus::Empty
    }
}

impl NodeStatus {
    pub open spec fn spec_entity(&self) -> Entity
        recommends
            !(self is Empty),
    {
        match self {
            NodeStatus::Engine(s) => s.spec_entity(),
            NodeStatus::Event(s) => s.spec_entity(),
            NodeStatus::Profiler(e) => *e,
            NodeStatus::Custom(e) => *e,
            NodeStatus::Empty => arbitrary(),
        }
    }

    /// Returns true for the empty status.
    pub fn is_empty(&self) -> (b: bool)
        ensures
            b == (*self is Empty),
    {
        match self {
            NodeStatus::Empty => true,
            _ => false,
        }
    }

    /// Returns the entity this status is about; an empty status has none.
    pub fn entity(&self) -> (e: Entity)
        requires
            !(self is Empty),
        ensures
            e == self.spec_entity(),
    {
        match self {
            NodeStatus::Event(status) => status.entity(),
            NodeStatus::Profiler(entity) => *entity,
            NodeStatus::Custom(entity) => *entity,
            NodeStatus::Engine(status) => status.entity(),
            NodeStatus::Empty => vstd::pervasive::unreached(),
        }
    }
}

/// Enumeration of node commands,
#[derive(Debug, Clone)]
pub enum NodeCommand {
    /// Command to activate this node,
    Activate(Entity),
    /// Command to reset this node,
    Reset(Entity),
    /// Command to pause this node,
    Pause(Entity),
    /// Command to resume a paused node,
    Resume(Entity),
    /// Command to cancel this node,
    Cancel(Entity),
    /// Command to spawn this node,
    Spawn(Entity),
    /// Command to update state,
    Update(AttributeGraph),
    /// Command to swap two nodes of an owner,
    Swap { owner: Entity, from: Entity, to: Entity },
    /// Custom command for this node, which extends the node's capabilities,
    Custom(String, Entity),
}

/// Mathematical form of a [`NodeCommand`].
pub enum NodeCommandView {
    Activate(Entity),
    Reset(Entity),
    Pause(Entity),
    Resume(Entity),
    Cancel(Entity),
    Spawn(Entity),
    Update(GraphView),
    Swap { owner: Entity, from: Entity, to: Entity },
    Custom(Seq<char>, Entity),
}

impl View for NodeCommand {
    type V = NodeCommandView;

    open spec fn view(&self) -> NodeCommandView {
        match self {
            NodeCommand::Activate(e) => NodeCommandView::Activate(*e),
            NodeCommand::Reset(e) => NodeCommandView::Reset(*e),
            NodeCommand::Pause(e) => NodeCommandView::Pause(*e),
            NodeCommand::Resume(e) => NodeCommandView::Resume(*e),
            NodeCommand::Cancel(e) => NodeCommandView::Cancel(*e),
            NodeCommand::Spawn(e) => NodeCommandView::Spawn(*e),
            NodeCommand::Update(g) => NodeCommandView::Update(g@),
            NodeCommand::Swap { owner, from, to } => NodeCommandView::Swap { owner: *owner, from: *from, to: *to },
            NodeCommand::Custom(name, e) => NodeCommandView::Custom(name@, *e),
        }
    }
}

/// The text that describes a command: its word, a space and the id of its entity.
pub open spec fn command_description(c: NodeCommandView) -> Seq<char> {
    match c {
        NodeCommandView::Activate(e) => "activate "@ + decimal(e.index as nat),
        NodeCommandView::Reset(e) => "reset "@ + decimal(e.index as nat),
        NodeCommandView::Pause(e) => "pause "@ + decimal(e.index as nat),
        NodeCommandView::Resume(e) => "resume "@ + decimal(e.index as nat),
        NodeCommandView::Cancel(e) => "cancel "@ + decimal(e.index as nat),
        NodeCommandView::Spawn(e) => "spawn "@ + decimal(e.index as nat),
        NodeCommandView::Update(g) => "update "@ + decimal(g.entity as nat),
        NodeCommandView::Swap { owner, .. } => "swap "@ + decimal(owner.index as nat),
        NodeCommandView::Custom(name, e) => "custom."@ + name + " "@ + decimal(e.index as nat),
    }
}

impl NodeCommand {
    /// Returns a custom node command,
    pub fn custom(name: &str, node: Entity) -> (c: NodeCommand)
        ensures
            c@ == NodeCommandView::Custom(name@, node),
    {
        NodeCommand::Custom(name.to_owned(), node)
    }

    /// Returns a copy of this command.
    pub fn duplicate(&self) -> (c: NodeCommand)
        ensures
            c@ == self@,
    {
        match self {
            NodeCommand::Activate(e) => NodeCommand::Activate(*e),
            NodeCommand::Reset(e) => NodeCommand::Reset(*e),
            NodeCommand::Pause(e) => NodeCommand::Pause(*e),
            NodeCommand::Resume(e) => NodeCommand::Resume(*e),
            NodeCommand::Cancel(e) => NodeCommand::Cancel(*e),
            NodeCommand::Spawn(e) => NodeCommand::Spawn(*e),
            NodeCommand::Update(g) => NodeCommand::Update(g.duplicate()),
            NodeCommand::Swap { owner, from, to } => NodeCommand::Swap { owner: *owner, from: *from, to: *to },
            NodeCommand::Custom(name, e) => NodeCommand::Custom(name.clone(), *e),
        }
    }

    /// Describes the command, as its `Display` writes it: for example `activate 4`.
    pub fn describe(&self) -> (s: String)
        ensures
            s@ == command_description(self@),
    {
        match self {
            NodeCommand::Activate(e) => {
                let mut s = "activate ".to_owned();
                push_decimal(&mut s, e.index as u64);
                s
            },
            NodeCommand::Reset(e) => {
                let mut s = "reset ".to_owned();
                push_decimal(&mut s, e.index as u64);
                s
            },
            NodeCommand::Pause(e) => {
                let mut s = "pause ".to_owned();
                push_decimal(&mut s, e.index as u64);
                s
            },
            NodeCommand::Resume(e) => {
                let mut s = "resume ".to_owned();
                push_decimal(&mut s, e.index as u64);
                s
            },
            NodeCommand::Cancel(e) => {
                let mut s = "cancel ".to_owned();
                push_decimal(&mut s, e.index as u64);
                s
            },
            NodeCommand::Spawn(e) => {
                let mut s = "spawn ".to_owned();
                push_decimal(&mut s, e.index as u64);
                s
            },
            NodeCommand::Update(g) => {
                let mut s = "update ".to_owned();
                push_decimal(&mut s, g.entity_id() as u64);
                s
            },
            NodeCommand::Swap { owner, .. } => {
                let mut s = "swap ".to_owned();
                push_decimal(&mut s, owner.index as u64);
                s
            },
            NodeCommand::Custom(name, e) => {
                let mut s = "custom.".to_owned();
                s.append(name.as_str());
                s.append(" ");
                push_decimal(&mut s, e.index as u64);
                s
            },
        }
    }
}

} // verus!

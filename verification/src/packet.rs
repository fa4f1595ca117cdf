//! Messages exchanged with clients, and the instructions to send them.

use vstd::prelude::*;
use vstd::string::*;
use crate::entity::Entity;
use crate::geometry::Vec2;
use crate::terrain::{TerrainChunk, TerrainChunkView};

verus! {

/// An error reported to one client outside the regular packet stream.
#[derive(Debug)]
pub struct ErrorPacket {
    pub error: String,
}

impl ErrorPacket {
    /// Wraps an error code.
    pub fn new(error: &str) -> (packet: Self)
        ensures
            packet.error@ == error@,
    {
        ErrorPacket { error: String::from_str(error) }
    }
}

/// The error code sent where a client names a game that does not exist.
pub open spec fn game_not_found() -> Seq<char> {
    "game-not-found"@
}

/// The error code sent where a client asks for a name that is reserved.
pub open spec fn username_taken() -> Seq<char> {
    "username-taken"@
}

/// The answer to a chat command that cannot be carried out.
pub open spec fn invalid_command() -> Seq<char> {
    "Invalid command"@
}

/// A packet, in either direction.
#[derive(Debug)]
pub enum Packet {
    /// Client: join the game `game_name` as `username`.
    PlayerRegister { game_name: String, username: String, skin: u32 },
    /// Client: my entity moved. Server: an entity moved.
    EntityMove { id: u128, new_position: Vec2 },
    /// Client: say this, or carry out this command.
    ChatMessageSend { message: String },
    /// Client: attack at this position.
    PlayerAttack { cursor_world_pos: Vec2 },
    /// Client: take this slot in hand.
    InventorySelect { selected: u32 },
    /// Server: you are registered, under this id.
    PlayerRegistered { id: u128 },
    /// Server: the tiles of a chunk.
    TerrainChunk { chunk: TerrainChunk },
    /// Server: an entity you now see.
    EntityLoad { entity: Entity },
    /// Server: forget this entity.
    EntityUnload { id: u128 },
    /// Server: a player said this.
    ChatMessage { id: u128, message: String, username: String },
    /// Server: a message from the world itself.
    SystemMessage { message: String },
    /// Server: an entity was hit.
    EntityDamage { id: u128, new_health: i32 },
    /// Server: an entity died.
    EntityDeath { id: u128 },
}

/// A packet as mathematical values.
pub enum PacketView {
    PlayerRegister { game_name: Seq<char>, username: Seq<char>, skin: u32 },
    EntityMove { id: u128, new_position: Vec2 },
    ChatMessageSend { message: Seq<char> },
    PlayerAttack { cursor_world_pos: Vec2 },
    InventorySelect { selected: u32 },
    PlayerRegistered { id: u128 },
    TerrainChunk { chunk: TerrainChunkView },
    EntityLoad { entity: Entity },
    EntityUnload { id: u128 },
    ChatMessage { id: u128, message: Seq<char>, username: Seq<char> },
    SystemMessage { message: Seq<char> },
    EntityDamage { id: u128, new_health: i32 },
    EntityDeath { id: u128 },
}

impl View for Packet {
    type V = PacketView;

    open spec fn view(&self) -> PacketView {
        match *self {
            Packet::PlayerRegister { game_name, username, skin } => PacketView::PlayerRegister {
                game_name: game_name@,
                username: username@,
                skin,
            },
            Packet::EntityMove { id, new_position } => PacketView::EntityMove { id, new_position },
            Packet::ChatMessageSend { message } => PacketView::ChatMessageSend {
                message: message@,
            },
            Packet::PlayerAttack { cursor_world_pos } => PacketView::PlayerAttack {
                cursor_world_pos,
            },
            Packet::InventorySelect { selected } => PacketView::InventorySelect { selected },
            Packet::PlayerRegistered { id } => PacketView::PlayerRegistered { id },
            Packet::TerrainChunk { chunk } => PacketView::TerrainChunk { chunk: chunk@ },
            Packet::EntityLoad { entity } => PacketView::EntityLoad { entity },
            Packet::EntityUnload { id } => PacketView::EntityUnload { id },
            Packet::ChatMessage { id, message, username } => PacketView::ChatMessage {
                id,
                message: message@,
                username: username@,
            },
            Packet::SystemMessage { message } => PacketView::SystemMessage { message: message@ },
            Packet::EntityDamage { id, new_health } => PacketView::EntityDamage { id, new_health },
            Packet::EntityDeath { id } => PacketView::EntityDeath { id },
        }
    }
}

/// What is sent to a client: a packet, or an error outside the packet
/// stream.
#[derive(Debug)]
pub enum Message {
    Packet(Packet),
    Error(ErrorPacket),
}

/// A message as mathematical values.
pub enum MessageView {
    Packet(PacketView),
    Error(Seq<char>),
}

impl View for Message {
    type V = MessageView;

    open spec fn view(&self) -> MessageView {
        match *self {
            Message::Packet(packet) => MessageView::Packet(packet@),
            Message::Error(error) => MessageView::Error(error.error@),
        }
    }
}

/// The instruction to send one message to some clients, in this order. A
/// recipient without a live connection is passed over.
#[derive(Debug)]
pub struct Dispatch {
    pub recipients: Vec<u128>,
    pub message: Message,
}

/// An instruction to send as mathematical values.
pub struct DispatchView {
    pub recipients: Seq<u128>,
    pub message: MessageView,
}

impl View for Dispatch {
    type V = DispatchView;

    open spec fn view(&self) -> DispatchView {
        DispatchView { recipients: self.recipients@, message: self.message@ }
    }
}

/// The instruction to send `packet` to `recipients`.
pub open spec fn packet_to(recipients: Seq<u128>, packet: PacketView) -> DispatchView {
    DispatchView { recipients, message: MessageView::Packet(packet) }
}

/// The instruction to send the error `code` to `client`.
pub open spec fn error_to(client: u128, code: Seq<char>) -> DispatchView {
    DispatchView { recipients: seq![client], message: MessageView::Error(code) }
}

/// The views of a list of instructions.
pub open spec fn views(dispatches: Seq<Dispatch>) -> Seq<DispatchView> {
    Seq::new(dispatches.len(), |i: int| dispatches[i]@)
}

impl Dispatch {
    /// The instruction to send `packet` to `recipients`.
    pub fn packet(recipients: Vec<u128>, packet: Packet) -> (dispatch: Self)
        ensures
            dispatch@ == packet_to(recipients@, packet@),
    {
        Dispatch { recipients, message: Message::Packet(packet) }
    }

    /// The instruction to send `packet` to `client` alone.
    pub fn packet_for(client: u128, packet: Packet) -> (dispatch: Self)
        ensures
            dispatch@ == packet_to(seq![client], packet@),
    {
        let mut recipients: Vec<u128> = Vec::new();
        recipients.push(client);
        assert(recipients@ =~= seq![client]);
        Dispatch { recipients, message: Message::Packet(packet) }
    }

    /// The instruction to send the error `code` to `client` alone.
    pub fn error_for(client: u128, code: &str) -> (dispatch: Self)
        ensures
            dispatch@ == error_to(client, code@),
    {
        let mut recipients: Vec<u128> = Vec::new();
        recipients.push(client);
        assert(recipients@ =~= seq![client]);
        Dispatch { recipients, message: Message::Error(ErrorPacket::new(code)) }
    }
}

} // verus!

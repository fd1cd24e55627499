use vstd::prelude::*;

use crate::util::{
    array_field, be16, text_field, transform_bytes, vec3d_bytes, BufferWriter, Transform, Vec3D,
};

verus! {

/// Server's reply to a client's identification.
pub struct ServerIdentification {
    pub protocol_version: u8,
    pub servername: String,
    pub motd: String,
    pub user_type: u8,
}

impl ServerIdentification {
    pub const ID: u8 = 0x00;
    pub const SIZE: usize = 131;

    /// Payload bytes after the opcode.
    pub open spec fn wire(&self) -> Seq<u8> {
        seq![self.protocol_version] + text_field(self.servername@) + text_field(self.motd@)
            + seq![self.user_type]
    }

    pub fn new(protocol_version: u8, servername: String, motd: String, user_type: u8) -> (r: ServerIdentification)
        ensures
            r.protocol_version == protocol_version,
            r.servername@ == servername@,
            r.motd@ == motd@,
            r.user_type == user_type,
    {
        ServerIdentification { protocol_version, servername, motd, user_type }
    }

    pub fn handle_send(&self, buffer: &mut BufferWriter)
        ensures
            final(buffer)@ == old(buffer)@ + self.wire(),
    {
        buffer.write_byte(self.protocol_version);
        buffer.write_string(self.servername.as_str());
        buffer.write_string(self.motd.as_str());
        buffer.write_byte(self.user_type);
        assert(buffer@ =~= old(buffer)@ + self.wire());
    }
}

/// Announces that level data follows.
#[derive(Clone, Copy, Debug, PartialEq, Eq, Structural)]
pub struct LevelInitialize;

impl LevelInitialize {
    pub const ID: u8 = 0x02;
    pub const SIZE: usize = 1;

    pub fn new() -> (r: LevelInitialize)
        ensures
            r == LevelInitialize,
    {
        LevelInitialize
    }
}

/// One 1024-byte slice of the compressed level stream.
pub struct LevelDataChunk {
    pub chunk_length: u16,
    pub chunk_data: Vec<u8>,
    pub percent_complete: u8,
}

impl LevelDataChunk {
    pub const ID: u8 = 0x03;
    pub const SIZE: usize = 1028;

    pub open spec fn wire(&self) -> Seq<u8> {
        be16(self.chunk_length) + array_field(self.chunk_data@) + seq![self.percent_complete]
    }

    pub fn new(chunk_length: u16, chunk_data: Vec<u8>, percent_complete: u8) -> (r: LevelDataChunk)
        ensures
            r.chunk_length == chunk_length,
            r.chunk_data@ == chunk_data@,
            r.percent_complete == percent_complete,
    {
        LevelDataChunk { chunk_length, chunk_data, percent_complete }
    }

    pub fn handle_send(&self, buffer: &mut BufferWriter)
        ensures
            final(buffer)@ == old(buffer)@ + self.wire(),
    {
        buffer.write_short(self.chunk_length);
        buffer.write_array(self.chunk_data.as_slice());
        buffer.write_byte(self.percent_complete);
        assert(buffer@ =~= old(buffer)@ + self.wire());
    }
}

/// Ends the level transfer and gives the level's size.
#[derive(Clone, Copy, Debug, PartialEq, Eq, Structural)]
pub struct LevelFinalize {
    pub size: Vec3D,
}

impl LevelFinalize {
    pub const ID: u8 = 0x04;
    pub const SIZE: usize = 7;

    pub open spec fn wire(&self) -> Seq<u8> {
        vec3d_bytes(self.size)
    }

    pub fn new(size: Vec3D) -> (r: LevelFinalize)
        ensures
            r == (LevelFinalize { size }),
    {
        LevelFinalize { size }
    }

    pub fn handle_send(&self, buffer: &mut BufferWriter)
        ensures
            final(buffer)@ == old(buffer)@ + self.wire(),
    {
        buffer.write_vec3d(&self.size);
    }
}

/// Tells a client which block now stands at a position.
#[derive(Clone, Copy, Debug, PartialEq, Eq, Structural)]
pub struct ServerSetBlock {
    pub position: Vec3D,
    pub block: u8,
}

impl ServerSetBlock {
    pub const ID: u8 = 0x06;
    pub const SIZE: usize = 8;

    pub open spec fn wire(&self) -> Seq<u8> {
        vec3d_bytes(self.position) + seq![self.block]
    }

    pub fn new(position: Vec3D, block: u8) -> (r: ServerSetBlock)
        ensures
            r == (ServerSetBlock { position, block }),
    {
        ServerSetBlock { position, block }
    }

    pub fn handle_send(&self, buffer: &mut BufferWriter)
        ensures
            final(buffer)@ == old(buffer)@ + self.wire(),
    {
        buffer.write_vec3d(&self.position);
        buffer.write_byte(self.block);
    }
}

/// Makes a player entity appear; id −1 means the receiving client itself.
pub struct SpawnPlayer {
    pub player_id: i8,
    pub player_name: String,
    pub transform: Transform,
}

impl SpawnPlayer {
    pub const ID: u8 = 0x07;
    pub const SIZE: usize = 74;

    pub open spec fn wire(&self) -> Seq<u8> {
        seq![self.player_id as u8] + text_field(self.player_name@) + transform_bytes(self.transform)
    }

    pub fn new(player_id: i8, player_name: String, transform: Transform) -> (r: SpawnPlayer)
        ensures
            r.player_id == player_id,
            r.player_name@ == player_name@,
            r.transform == transform,
    {
        SpawnPlayer { player_id, player_name, transform }
    }

    pub fn handle_send(&self, buffer: &mut BufferWriter)
        ensures
            final(buffer)@ == old(buffer)@ + self.wire(),
    {
        buffer.write_sbyte(self.player_id);
        buffer.write_string(self.player_name.as_str());
        buffer.write_transform(&self.transform);
        assert(buffer@ =~= old(buffer)@ + self.wire());
    }
}

/// Moves a player entity.
#[derive(Clone, Copy, Debug, PartialEq, Eq, Structural)]
pub struct ServerPositionAndOrientation {
    pub player_id: i8,
    pub transform: Transform,
}

impl ServerPositionAndOrientation {
    pub const ID: u8 = 0x08;
    pub const SIZE: usize = 10;

    pub open spec fn wire(&self) -> Seq<u8> {
        seq![self.player_id as u8] + transform_bytes(self.transform)
    }

    pub fn new(player_id: i8, transform: Transform) -> (r: ServerPositionAndOrientation)
        ensures
            r == (ServerPositionAndOrientation { player_id, transform }),
    {
        ServerPositionAndOrientation { player_id, transform }
    }

    pub fn handle_send(&self, buffer: &mut BufferWriter)
        ensures
            final(buffer)@ == old(buffer)@ + self.wire(),
    {
        buffer.write_sbyte(self.player_id);
        buffer.write_transform(&self.transform);
        assert(buffer@ =~= old(buffer)@ + self.wire());
    }
}

/// Removes a player entity.
#[derive(Clone, Copy, Debug, PartialEq, Eq, Structural)]
pub struct DespawnPlayer {
    pub player_id: i8,
}

impl DespawnPlayer {
    pub const ID: u8 = 0x0c;
    pub const SIZE: usize = 2;

    pub open spec fn wire(&self) -> Seq<u8> {
        seq![self.player_id as u8]
    }

    pub fn new(player_id: i8) -> (r: DespawnPlayer)
        ensures
            r == (DespawnPlayer { player_id }),
    {
        DespawnPlayer { player_id }
    }

    pub fn handle_send(&self, buffer: &mut BufferWriter)
        ensures
            final(buffer)@ == old(buffer)@ + self.wire(),
    {
        buffer.write_sbyte(self.player_id);
        assert(buffer@ =~= old(buffer)@ + self.wire());
    }
}

/// A chat line.
pub struct Message {
    pub player_id: i8,
    pub message: String,
}

impl Message {
    pub const ID: u8 = 0x0d;
    pub const SIZE: usize = 66;

    pub open spec fn wire(&self) -> Seq<u8> {
        seq![self.player_id as u8] + text_field(self.message@)
    }

    pub fn new(player_id: i8, message: String) -> (r: Message)
        ensures
            r.player_id == player_id,
            r.message@ == message@,
    {
        Message { player_id, message }
    }

    pub fn handle_send(&self, buffer: &mut BufferWriter)
        ensures
            final(buffer)@ == old(buffer)@ + self.wire(),
    {
        buffer.write_sbyte(self.player_id);
        buffer.write_string(self.message.as_str());
        assert(buffer@ =~= old(buffer)@ + self.wire());
    }
}

/// Closes a client's session with a reason; handed to the dispatcher as an
/// incoming event when a connection ends.
pub struct DisconnectPlayer {
    pub sender: usize,
    pub reason: String,
}

impl DisconnectPlayer {
    pub const ID: u8 = 0x0e;
    pub const SIZE: usize = 65;

    pub open spec fn wire(&self) -> Seq<u8> {
        text_field(self.reason@)
    }

    pub fn new(sender: usize, reason: String) -> (r: DisconnectPlayer)
        ensures
            r.sender == sender,
            r.reason@ == reason@,
    {
        DisconnectPlayer { sender, reason }
    }

    pub fn handle_send(&self, buffer: &mut BufferWriter)
        ensures
            final(buffer)@ == old(buffer)@ + self.wire(),
    {
        buffer.write_string(self.reason.as_str());
    }
}

} // verus!

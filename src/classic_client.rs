use vstd::prelude::*;

use crate::util::{
    be16, byte_at, fits_field, lemma_be16_round_trip, lemma_text_round_trip, rd16, string_read,
    text_field, vec3d_bytes, BufferReader, BufferWriter, Vec3D, STRING_LEN,
};

verus! {

/// A client's first packet: protocol, account name and key.
pub struct PlayerIdentification {
    pub sender: usize,
    pub protocol_version: u8,
    pub username: String,
    pub verification_key: String,
    pub magic_number: u8,
}

impl PlayerIdentification {
    pub const ID: u8 = 0x00;
    pub const SIZE: usize = 131;

    /// Payload bytes after the opcode.
    pub open spec fn wire(&self) -> Seq<u8> {
        seq![self.protocol_version] + text_field(self.username@) + text_field(self.verification_key@)
            + seq![self.magic_number]
    }

    /// The fields are those read from `d` at `at`, for the given sender.
    pub open spec fn decoded(&self, d: Seq<u8>, at: int, sender: usize) -> bool {
        &&& self.sender == sender
        &&& self.protocol_version == byte_at(d, at)
        &&& self.username@ == string_read(d, at + 1)
        &&& self.verification_key@ == string_read(d, at + 65)
        &&& self.magic_number == byte_at(d, at + 129)
    }

    pub fn new(buffer_reader: &mut BufferReader, sender: usize) -> (r: PlayerIdentification)
        requires
            old(buffer_reader).pos() + Self::SIZE <= usize::MAX,
        ensures
            r.decoded(old(buffer_reader).data(), old(buffer_reader).pos(), sender),
            final(buffer_reader).pos() == old(buffer_reader).pos() + Self::SIZE - 1,
            final(buffer_reader).data() == old(buffer_reader).data(),
    {
        let protocol_version = buffer_reader.read_byte();
        let username = buffer_reader.read_string();
        let verification_key = buffer_reader.read_string();
        let magic_number = buffer_reader.read_byte();
        PlayerIdentification { sender, protocol_version, username, verification_key, magic_number }
    }

    /// Writes the payload as a client would.
    pub fn handle_send(&self, buffer: &mut BufferWriter)
        ensures
            final(buffer)@ == old(buffer)@ + self.wire(),
    {
        buffer.write_byte(self.protocol_version);
        buffer.write_string(self.username.as_str());
        buffer.write_string(self.verification_key.as_str());
        buffer.write_byte(self.magic_number);
        assert(buffer@ =~= old(buffer)@ + self.wire());
    }
}

/// Decoding what an identification encodes to gives its fields back, the two
/// texts exactly when they fit the string field.
pub proof fn lemma_identification_round_trip(p: PlayerIdentification, pre: Seq<u8>, post: Seq<u8>)
    requires
        fits_field(p.username@),
        fits_field(p.verification_key@),
    ensures
        p.decoded(pre + p.wire() + post, pre.len() as int, p.sender),
{
    let at = pre.len() as int;
    let d = pre + p.wire() + post;
    let u = text_field(p.username@);
    let k = text_field(p.verification_key@);
    assert(d =~= (pre + seq![p.protocol_version]) + u + (k + seq![p.magic_number] + post));
    lemma_text_round_trip(pre + seq![p.protocol_version], p.username@, k + seq![p.magic_number] + post);
    assert(d =~= (pre + seq![p.protocol_version] + u) + k + (seq![p.magic_number] + post));
    lemma_text_round_trip(pre + seq![p.protocol_version] + u, p.verification_key@, seq![p.magic_number] + post);
    assert(byte_at(d, at) == p.protocol_version);
    assert(byte_at(d, at + 129) == d[at + 129]);
}

/// A client placing (mode 1) or destroying (mode 0) a block.
#[derive(Clone, Copy, Debug, PartialEq, Eq, Structural)]
pub struct PlayerSetBlock {
    pub sender: usize,
    pub position: Vec3D,
    pub mode: u8,
    pub block: u8,
}

impl PlayerSetBlock {
    pub const ID: u8 = 0x05;
    pub const SIZE: usize = 9;

    pub open spec fn wire(&self) -> Seq<u8> {
        vec3d_bytes(self.position) + seq![self.mode, self.block]
    }

    pub open spec fn decoded(&self, d: Seq<u8>, at: int, sender: usize) -> bool {
        *self == PlayerSetBlock {
            sender,
            position: Vec3D(rd16(d, at), rd16(d, at + 2), rd16(d, at + 4)),
            mode: byte_at(d, at + 6),
            block: byte_at(d, at + 7),
        }
    }

    pub fn new(buffer_reader: &mut BufferReader, sender: usize) -> (r: PlayerSetBlock)
        requires
            old(buffer_reader).pos() + Self::SIZE <= usize::MAX,
        ensures
            r.decoded(old(buffer_reader).data(), old(buffer_reader).pos(), sender),
            final(buffer_reader).pos() == old(buffer_reader).pos() + Self::SIZE - 1,
            final(buffer_reader).data() == old(buffer_reader).data(),
    {
        let x = buffer_reader.read_ushort();
        let y = buffer_reader.read_ushort();
        let z = buffer_reader.read_ushort();
        let mode = buffer_reader.read_byte();
        let block = buffer_reader.read_byte();
        PlayerSetBlock { sender, position: Vec3D::new(x, y, z), mode, block }
    }

    pub fn handle_send(&self, buffer: &mut BufferWriter)
        ensures
            final(buffer)@ == old(buffer)@ + self.wire(),
    {
        buffer.write_vec3d(&self.position);
        buffer.write_byte(self.mode);
        buffer.write_byte(self.block);
        assert(buffer@ =~= old(buffer)@ + self.wire());
    }
}

/// Decoding what a set-block packet encodes to gives it back bit for bit.
pub proof fn lemma_set_block_round_trip(p: PlayerSetBlock, pre: Seq<u8>, post: Seq<u8>)
    ensures
        p.decoded(pre + p.wire() + post, pre.len() as int, p.sender),
{
    let at = pre.len() as int;
    let d = pre + p.wire() + post;
    assert(d[at] == be16(p.position.0)[0] && d[at + 1] == be16(p.position.0)[1]);
    assert(d[at + 2] == be16(p.position.1)[0] && d[at + 3] == be16(p.position.1)[1]);
    assert(d[at + 4] == be16(p.position.2)[0] && d[at + 5] == be16(p.position.2)[1]);
    lemma_be16_round_trip(d, at, p.position.0);
    lemma_be16_round_trip(d, at + 2, p.position.1);
    lemma_be16_round_trip(d, at + 4, p.position.2);
    assert(byte_at(d, at + 6) == p.mode);
    assert(byte_at(d, at + 7) == p.block);
}

/// A client reporting its own position and orientation.
#[derive(Clone, Copy, Debug, PartialEq, Eq, Structural)]
pub struct PlayerPositionAndOrientation {
    pub sender: usize,
    pub player_id: u8,
    pub x: u16,
    pub y: u16,
    pub z: u16,
    pub pitch: u8,
    pub yaw: u8,
}

impl PlayerPositionAndOrientation {
    pub const ID: u8 = 0x08;
    pub const SIZE: usize = 10;

    pub open spec fn wire(&self) -> Seq<u8> {
        seq![self.player_id] + be16(self.x) + be16(self.y) + be16(self.z) + seq![self.yaw, self.pitch]
    }

    pub open spec fn decoded(&self, d: Seq<u8>, at: int, sender: usize) -> bool {
        *self == PlayerPositionAndOrientation {
            sender,
            player_id: byte_at(d, at),
            x: rd16(d, at + 1),
            y: rd16(d, at + 3),
            z: rd16(d, at + 5),
            yaw: byte_at(d, at + 7),
            pitch: byte_at(d, at + 8),
        }
    }

    pub fn new(buffer_reader: &mut BufferReader, sender: usize) -> (r: PlayerPositionAndOrientation)
        requires
            old(buffer_reader).pos() + Self::SIZE <= usize::MAX,
        ensures
            r.decoded(old(buffer_reader).data(), old(buffer_reader).pos(), sender),
            final(buffer_reader).pos() == old(buffer_reader).pos() + Self::SIZE - 1,
            final(buffer_reader).data() == old(buffer_reader).data(),
    {
        let player_id = buffer_reader.read_byte();
        let x = buffer_reader.read_ushort();
        let y = buffer_reader.read_ushort();
        let z = buffer_reader.read_ushort();
        let yaw = buffer_reader.read_byte();
        let pitch = buffer_reader.read_byte();
        PlayerPositionAndOrientation { sender, player_id, x, y, z, pitch, yaw }
    }

    pub fn handle_send(&self, buffer: &mut BufferWriter)
        ensures
            final(buffer)@ == old(buffer)@ + self.wire(),
    {
        buffer.write_byte(self.player_id);
        buffer.write_short(self.x);
        buffer.write_short(self.y);
        buffer.write_short(self.z);
        buffer.write_byte(self.yaw);
        buffer.write_byte(self.pitch);
        assert(buffer@ =~= old(buffer)@ + self.wire());
    }
}

/// Decoding what a position packet encodes to gives it back bit for bit.
pub proof fn lemma_position_round_trip(p: PlayerPositionAndOrientation, pre: Seq<u8>, post: Seq<u8>)
    ensures
        p.decoded(pre + p.wire() + post, pre.len() as int, p.sender),
{
    let at = pre.len() as int;
    let d = pre + p.wire() + post;
    assert(d[at + 1] == be16(p.x)[0] && d[at + 2] == be16(p.x)[1]);
    assert(d[at + 3] == be16(p.y)[0] && d[at + 4] == be16(p.y)[1]);
    assert(d[at + 5] == be16(p.z)[0] && d[at + 6] == be16(p.z)[1]);
    lemma_be16_round_trip(d, at + 1, p.x);
    lemma_be16_round_trip(d, at + 3, p.y);
    lemma_be16_round_trip(d, at + 5, p.z);
    assert(byte_at(d, at) == p.player_id);
    assert(byte_at(d, at + 7) == p.yaw);
    assert(byte_at(d, at + 8) == p.pitch);
}

/// A chat line typed by a client.
pub struct PlayerMessage {
    pub sender: usize,
    pub unused: u8,
    pub message: String,
}

impl PlayerMessage {
    pub const ID: u8 = 0x0d;
    pub const SIZE: usize = 66;

    pub open spec fn wire(&self) -> Seq<u8> {
        seq![self.unused] + text_field(self.message@)
    }

    pub open spec fn decoded(&self, d: Seq<u8>, at: int, sender: usize) -> bool {
        &&& self.sender == sender
        &&& self.unused == byte_at(d, at)
        &&& self.message@ == string_read(d, at + 1)
    }

    pub fn new(buffer_reader: &mut BufferReader, sender: usize) -> (r: PlayerMessage)
        requires
            old(buffer_reader).pos() + Self::SIZE <= usize::MAX,
        ensures
            r.decoded(old(buffer_reader).data(), old(buffer_reader).pos(), sender),
            final(buffer_reader).pos() == old(buffer_reader).pos() + Self::SIZE - 1,
            final(buffer_reader).data() == old(buffer_reader).data(),
    {
        let unused = buffer_reader.read_byte();
        let message = buffer_reader.read_string();
        PlayerMessage { sender, unused, message }
    }

    pub fn get_message(&self) -> (r: &str)
        ensures
            r@ == self.message@,
    {
        self.message.as_str()
    }

    pub fn handle_send(&self, buffer: &mut BufferWriter)
        ensures
            final(buffer)@ == old(buffer)@ + self.wire(),
    {
        buffer.write_byte(self.unused);
        buffer.write_string(self.message.as_str());
        assert(buffer@ =~= old(buffer)@ + self.wire());
    }
}

/// Decoding what a chat packet encodes to gives it back, the text exactly
/// when it fits the string field.
pub proof fn lemma_message_round_trip(p: PlayerMessage, pre: Seq<u8>, post: Seq<u8>)
    requires
        fits_field(p.message@),
    ensures
        p.decoded(pre + p.wire() + post, pre.len() as int, p.sender),
{
    let d = pre + p.wire() + post;
    assert(d =~= (pre + seq![p.unused]) + text_field(p.message@) + post);
    lemma_text_round_trip(pre + seq![p.unused], p.message@, post);
    assert(byte_at(d, pre.len() as int) == p.unused);
}

} // verus!

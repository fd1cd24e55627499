use vstd::prelude::*;

use crate::classic_client::{PlayerIdentification, PlayerMessage, PlayerPositionAndOrientation, PlayerSetBlock};
use crate::classic_server::{
    DespawnPlayer, DisconnectPlayer, LevelDataChunk, LevelFinalize, LevelInitialize, Message,
    ServerIdentification, ServerPositionAndOrientation, ServerSetBlock, SpawnPlayer,
};
use crate::util::{byte_at, copy_vec, BufferReader, BufferWriter};

verus! {

/// A packet the server sends to a client.
pub enum OutgoingPacket {
    Identification(ServerIdentification),
    LevelInitialize(LevelInitialize),
    LevelDataChunk(LevelDataChunk),
    LevelFinalize(LevelFinalize),
    SetBlock(ServerSetBlock),
    SpawnPlayer(SpawnPlayer),
    Position(ServerPositionAndOrientation),
    DespawnPlayer(DespawnPlayer),
    Message(Message),
    Disconnect(DisconnectPlayer),
}

impl OutgoingPacket {
    /// The packet on the wire: opcode, then payload.
    pub open spec fn bytes(&self) -> Seq<u8> {
        match self {
            OutgoingPacket::Identification(p) => seq![ServerIdentification::ID] + p.wire(),
            OutgoingPacket::LevelInitialize(_) => seq![LevelInitialize::ID],
            OutgoingPacket::LevelDataChunk(p) => seq![LevelDataChunk::ID] + p.wire(),
            OutgoingPacket::LevelFinalize(p) => seq![LevelFinalize::ID] + p.wire(),
            OutgoingPacket::SetBlock(p) => seq![ServerSetBlock::ID] + p.wire(),
            OutgoingPacket::SpawnPlayer(p) => seq![SpawnPlayer::ID] + p.wire(),
            OutgoingPacket::Position(p) => seq![ServerPositionAndOrientation::ID] + p.wire(),
            OutgoingPacket::DespawnPlayer(p) => seq![DespawnPlayer::ID] + p.wire(),
            OutgoingPacket::Message(p) => seq![Message::ID] + p.wire(),
            OutgoingPacket::Disconnect(p) => seq![DisconnectPlayer::ID] + p.wire(),
        }
    }

    pub fn get_id(&self) -> (r: u8)
        ensures
            r == self.bytes()[0],
    {
        match self {
            OutgoingPacket::Identification(_) => ServerIdentification::ID,
            OutgoingPacket::LevelInitialize(_) => LevelInitialize::ID,
            OutgoingPacket::LevelDataChunk(_) => LevelDataChunk::ID,
            OutgoingPacket::LevelFinalize(_) => LevelFinalize::ID,
            OutgoingPacket::SetBlock(_) => ServerSetBlock::ID,
            OutgoingPacket::SpawnPlayer(_) => SpawnPlayer::ID,
            OutgoingPacket::Position(_) => ServerPositionAndOrientation::ID,
            OutgoingPacket::DespawnPlayer(_) => DespawnPlayer::ID,
            OutgoingPacket::Message(_) => Message::ID,
            OutgoingPacket::Disconnect(_) => DisconnectPlayer::ID,
        }
    }

    /// Size of the packet kind on the wire, opcode included.
    pub fn get_size(&self) -> (r: usize)
        ensures
            r == match self {
                OutgoingPacket::Identification(_) => ServerIdentification::SIZE,
                OutgoingPacket::LevelInitialize(_) => LevelInitialize::SIZE,
                OutgoingPacket::LevelDataChunk(_) => LevelDataChunk::SIZE,
                OutgoingPacket::LevelFinalize(_) => LevelFinalize::SIZE,
                OutgoingPacket::SetBlock(_) => ServerSetBlock::SIZE,
                OutgoingPacket::SpawnPlayer(_) => SpawnPlayer::SIZE,
                OutgoingPacket::Position(_) => ServerPositionAndOrientation::SIZE,
                OutgoingPacket::DespawnPlayer(_) => DespawnPlayer::SIZE,
                OutgoingPacket::Message(_) => Message::SIZE,
                OutgoingPacket::Disconnect(_) => DisconnectPlayer::SIZE,
            },
    {
        match self {
            OutgoingPacket::Identification(_) => ServerIdentification::SIZE,
            OutgoingPacket::LevelInitialize(_) => LevelInitialize::SIZE,
            OutgoingPacket::LevelDataChunk(_) => LevelDataChunk::SIZE,
            OutgoingPacket::LevelFinalize(_) => LevelFinalize::SIZE,
            OutgoingPacket::SetBlock(_) => ServerSetBlock::SIZE,
            OutgoingPacket::SpawnPlayer(_) => SpawnPlayer::SIZE,
            OutgoingPacket::Position(_) => ServerPositionAndOrientation::SIZE,
            OutgoingPacket::DespawnPlayer(_) => DespawnPlayer::SIZE,
            OutgoingPacket::Message(_) => Message::SIZE,
            OutgoingPacket::Disconnect(_) => DisconnectPlayer::SIZE,
        }
    }

    /// A packet with the same bytes.
    pub fn duplicate(&self) -> (r: OutgoingPacket)
        ensures
            r.bytes() == self.bytes(),
    {
        match self {
            OutgoingPacket::Identification(p) => OutgoingPacket::Identification(ServerIdentification::new(
                p.protocol_version,
                p.servername.clone(),
                p.motd.clone(),
                p.user_type,
            )),
            OutgoingPacket::LevelInitialize(p) => OutgoingPacket::LevelInitialize(*p),
            OutgoingPacket::LevelDataChunk(p) => OutgoingPacket::LevelDataChunk(LevelDataChunk::new(
                p.chunk_length,
                copy_vec(&p.chunk_data),
                p.percent_complete,
            )),
            OutgoingPacket::LevelFinalize(p) => OutgoingPacket::LevelFinalize(*p),
            OutgoingPacket::SetBlock(p) => OutgoingPacket::SetBlock(*p),
            OutgoingPacket::SpawnPlayer(p) => OutgoingPacket::SpawnPlayer(SpawnPlayer::new(
                p.player_id,
                p.player_name.clone(),
                p.transform,
            )),
            OutgoingPacket::Position(p) => OutgoingPacket::Position(*p),
            OutgoingPacket::DespawnPlayer(p) => OutgoingPacket::DespawnPlayer(*p),
            OutgoingPacket::Message(p) => OutgoingPacket::Message(Message::new(p.player_id, p.message.clone())),
            OutgoingPacket::Disconnect(p) => OutgoingPacket::Disconnect(DisconnectPlayer::new(p.sender, p.reason.clone())),
        }
    }

    /// Serializes the packet for the socket.
    pub fn encode(&self) -> (r: Vec<u8>)
        ensures
            r@ == self.bytes(),
    {
        let mut buffer = BufferWriter::new(self.get_size());
        buffer.write_byte(self.get_id());
        match self {
            OutgoingPacket::Identification(p) => p.handle_send(&mut buffer),
            OutgoingPacket::LevelInitialize(_) => {},
            OutgoingPacket::LevelDataChunk(p) => p.handle_send(&mut buffer),
            OutgoingPacket::LevelFinalize(p) => p.handle_send(&mut buffer),
            OutgoingPacket::SetBlock(p) => p.handle_send(&mut buffer),
            OutgoingPacket::SpawnPlayer(p) => p.handle_send(&mut buffer),
            OutgoingPacket::Position(p) => p.handle_send(&mut buffer),
            OutgoingPacket::DespawnPlayer(p) => p.handle_send(&mut buffer),
            OutgoingPacket::Message(p) => p.handle_send(&mut buffer),
            OutgoingPacket::Disconnect(p) => p.handle_send(&mut buffer),
        }
        let r = buffer.get_data().clone();
        assert(r@ =~= self.bytes());
        r
    }
}

/// A packet addressed to one registered player.
pub struct Outgoing {
    pub to: usize,
    pub packet: OutgoingPacket,
}

impl Outgoing {
    /// Recipient and bytes.
    pub open spec fn view(&self) -> (usize, Seq<u8>) {
        (self.to, self.packet.bytes())
    }
}

/// The recipients and bytes of a list of outgoing packets.
pub open spec fn sent(v: Seq<Outgoing>) -> Seq<(usize, Seq<u8>)> {
    v.map_values(|o: Outgoing| o.view())
}

/// A decoded event for the dispatcher.
pub enum IncomingPacket {
    Identification(PlayerIdentification),
    SetBlock(PlayerSetBlock),
    Position(PlayerPositionAndOrientation),
    Message(PlayerMessage),
    /// The connection of the sender ended.
    Disconnect(DisconnectPlayer),
}

impl IncomingPacket {
    pub open spec fn sender_spec(&self) -> usize {
        match self {
            IncomingPacket::Identification(p) => p.sender,
            IncomingPacket::SetBlock(p) => p.sender,
            IncomingPacket::Position(p) => p.sender,
            IncomingPacket::Message(p) => p.sender,
            IncomingPacket::Disconnect(p) => p.sender,
        }
    }

    pub fn get_sender_uid(&self) -> (r: usize)
        ensures
            r == self.sender_spec(),
    {
        match self {
            IncomingPacket::Identification(p) => p.sender,
            IncomingPacket::SetBlock(p) => p.sender,
            IncomingPacket::Position(p) => p.sender,
            IncomingPacket::Message(p) => p.sender,
            IncomingPacket::Disconnect(p) => p.sender,
        }
    }
}

/// Size on the wire, opcode included, of an incoming packet with this opcode;
/// 0 for an opcode that clients do not send.
pub open spec fn incoming_size(op: u8) -> int {
    if op == PlayerIdentification::ID {
        PlayerIdentification::SIZE as int
    } else if op == PlayerSetBlock::ID {
        PlayerSetBlock::SIZE as int
    } else if op == PlayerPositionAndOrientation::ID {
        PlayerPositionAndOrientation::SIZE as int
    } else if op == PlayerMessage::ID {
        PlayerMessage::SIZE as int
    } else {
        0
    }
}

/// Whether `p` is the packet decoded from opcode `op` at `at` (the opcode
/// itself at `at - 1`).
pub open spec fn decoded_as(p: IncomingPacket, op: u8, d: Seq<u8>, at: int, sender: usize) -> bool {
    match p {
        IncomingPacket::Identification(q) => op == PlayerIdentification::ID && q.decoded(d, at, sender),
        IncomingPacket::SetBlock(q) => op == PlayerSetBlock::ID && q.decoded(d, at, sender),
        IncomingPacket::Position(q) => op == PlayerPositionAndOrientation::ID && q.decoded(d, at, sender),
        IncomingPacket::Message(q) => op == PlayerMessage::ID && q.decoded(d, at, sender),
        IncomingPacket::Disconnect(_) => false,
    }
}

/// The packets found in the first `size` bytes of `d`, reading from `i`.
pub open spec fn packets_from(d: Seq<u8>, size: int, i: int) -> Seq<int>
    decreases size - i,
{
    if i >= size || i < 0 {
        Seq::empty()
    } else {
        let n = incoming_size(byte_at(d, i));
        if n <= 0 {
            if i + 1 >= size { Seq::empty() } else { packets_from(d, size, i + 1) }
        } else {
            seq![i] + if i + n >= size { Seq::empty() } else { packets_from(d, size, i + n) }
        }
    }
}

/// Splits the first `size` received bytes into packets, by opcode alone.
/// A byte that is no known opcode is skipped; a packet cut off by the end
/// of the read is completed with 0xFF bytes.
pub fn parse_packets(buffer: &Vec<u8>, size: usize, sender: usize) -> (r: Vec<IncomingPacket>)
    requires
        size <= buffer@.len(),
        buffer@.len() + PlayerIdentification::SIZE <= usize::MAX,
    ensures
        r@.len() == packets_from(buffer@, size as int, 0).len(),
        forall|k: int| 0 <= k < r@.len() ==> {
            let at = #[trigger] packets_from(buffer@, size as int, 0)[k];
            decoded_as(r@[k], byte_at(buffer@, at), buffer@, at + 1, sender)
        },
{
    let mut reader = BufferReader::new(buffer);
    let mut r: Vec<IncomingPacket> = Vec::new();
    let ghost d = buffer@;
    let ghost mut acc: Seq<int> = Seq::empty();
    while reader.get_index() < size
        invariant
            reader.data() == d,
            d == buffer@,
            size <= d.len(),
            d.len() + PlayerIdentification::SIZE <= usize::MAX,
            0 <= reader.pos() <= size + PlayerIdentification::SIZE,
            acc.len() == r@.len(),
            packets_from(d, size as int, 0) == acc + packets_from(d, size as int, reader.pos()),
            forall|k: int| 0 <= k < r@.len() ==> decoded_as(#[trigger] r@[k], byte_at(d, acc[k]), d, acc[k] + 1, sender),
        decreases size + PlayerIdentification::SIZE - reader.pos(),
    {
        let ghost at = reader.pos();
        let ghost old_r = r@;
        let op_code = reader.read_byte();
        if op_code == PlayerIdentification::ID {
            r.push(IncomingPacket::Identification(PlayerIdentification::new(&mut reader, sender)));
        } else if op_code == PlayerSetBlock::ID {
            r.push(IncomingPacket::SetBlock(PlayerSetBlock::new(&mut reader, sender)));
        } else if op_code == PlayerPositionAndOrientation::ID {
            r.push(IncomingPacket::Position(PlayerPositionAndOrientation::new(&mut reader, sender)));
        } else if op_code == PlayerMessage::ID {
            r.push(IncomingPacket::Message(PlayerMessage::new(&mut reader, sender)));
        }
        proof {
            if incoming_size(op_code) == 0 {
                assert(packets_from(d, size as int, at) == packets_from(d, size as int, at + 1));
            } else {
                assert(packets_from(d, size as int, at) == seq![at] + packets_from(d, size as int, reader.pos()));
                acc = acc.push(at);
                assert(packets_from(d, size as int, 0) =~= acc + packets_from(d, size as int, reader.pos()));
                assert forall|k: int| 0 <= k < r@.len() implies decoded_as(#[trigger] r@[k], byte_at(d, acc[k]), d, acc[k] + 1, sender) by {
                    if k < old_r.len() {
                        assert(r@[k] == old_r[k]);
                    }
                }
            }
        }
    }
    assert(packets_from(d, size as int, reader.pos()) =~= Seq::<int>::empty());
    assert(acc =~= packets_from(d, size as int, 0));
    r
}

} // verus!

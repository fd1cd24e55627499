use std::io::{Read, Write};

use flate2::read::GzDecoder;
use flate2::write::GzEncoder;
use flate2::Compression;
use rcclassic::classic_client::{PlayerIdentification, PlayerMessage, PlayerPositionAndOrientation, PlayerSetBlock};
use rcclassic::commands::{eq_ignore_case, find_sub, get_last_word, get_rest_words, starts_with_ignore_case, to_lower};
use rcclassic::map::{position_in_bounds, BlockMap, MCSharpMap, MemoryMap};
use rcclassic::packet::{parse_packets, IncomingPacket, OutgoingPacket};
use rcclassic::transfer::{compress_map, level_transfer_packets};
use rcclassic::util::{math_min, BufferReader, BufferWriter, Transform, Vec3D};
use rcclassic::world::World;

fn gunzip(bytes: &[u8]) -> Vec<u8> {
    let mut out = Vec::new();
    GzDecoder::new(bytes).read_to_end(&mut out).unwrap();
    out
}

fn gzip(bytes: &[u8]) -> Vec<u8> {
    let mut gz = GzEncoder::new(Vec::new(), Compression::default());
    gz.write_all(bytes).unwrap();
    gz.finish().unwrap()
}

fn level_file(w: u16, d: u16, h: u16, spawn: (i16, i16, i16), yaw: u8, pitch: u8, blocks: &[u8]) -> Vec<u8> {
    let mut raw = Vec::new();
    raw.extend_from_slice(&0x0752u16.to_le_bytes());
    raw.extend_from_slice(&w.to_le_bytes());
    raw.extend_from_slice(&d.to_le_bytes());
    raw.extend_from_slice(&h.to_le_bytes());
    raw.extend_from_slice(&spawn.0.to_le_bytes());
    raw.extend_from_slice(&spawn.1.to_le_bytes());
    raw.extend_from_slice(&spawn.2.to_le_bytes());
    raw.push(yaw);
    raw.push(pitch);
    raw.push(0);
    raw.push(0);
    raw.extend_from_slice(blocks);
    raw
}

#[test]
fn math_min_picks_smaller() {
    assert_eq!(math_min(3, 9), 3);
    assert_eq!(math_min(200, 50), 50);
    assert_eq!(math_min(7, 7), 7);
}

#[test]
fn writer_encodes_big_endian() {
    let mut w = BufferWriter::new(16);
    w.write_short(0x1234);
    w.write_uint(0xdeadbeef);
    w.write_int(-2);
    w.write_sbyte(-1);
    w.write_byte(7);
    assert_eq!(
        w.get_data().clone(),
        vec![0x12, 0x34, 0xde, 0xad, 0xbe, 0xef, 0xff, 0xff, 0xff, 0xfe, 0xff, 7]
    );
}

#[test]
fn writer_transform_and_vec3d() {
    let mut w = BufferWriter::new(8);
    w.write_transform(&Transform::new(Vec3D::new(1, 256, 0xffff), 9, 255));
    assert_eq!(w.get_data().clone(), vec![0, 1, 1, 0, 0xff, 0xff, 9, 255]);
}

#[test]
fn writer_array_is_capped_not_padded() {
    let mut w = BufferWriter::new(0);
    w.write_array(&[1, 2, 3]);
    assert_eq!(w.get_data().len(), 3);
    let mut w = BufferWriter::new(0);
    w.write_array(&vec![5u8; 2000]);
    assert_eq!(w.get_data().len(), 1024);
}

#[test]
fn string_64_bytes_round_trip() {
    let text = "a".repeat(63) + "z";
    assert_eq!(text.len(), 64);
    let mut w = BufferWriter::new(64);
    w.write_string(&text);
    assert_eq!(w.get_data().len(), 64);
    let data = w.get_data().clone();
    let mut r = BufferReader::new(&data);
    assert_eq!(r.read_string(), text);
    assert_eq!(r.get_index(), 64);
}

#[test]
fn string_65_bytes_truncated() {
    let text = "b".repeat(64) + "!";
    let mut w = BufferWriter::new(64);
    w.write_string(&text);
    assert_eq!(w.get_data().len(), 64);
    let data = w.get_data().clone();
    let mut r = BufferReader::new(&data);
    let back = r.read_string();
    assert_eq!(back.len(), 64);
    assert!(!back.ends_with('!'));
    assert_eq!(back, "b".repeat(64));
}

#[test]
fn short_string_is_space_padded_and_trimmed() {
    let mut w = BufferWriter::new(64);
    w.write_string("alice");
    let data = w.get_data().clone();
    assert_eq!(&data[..5], b"alice");
    assert!(data[5..].iter().all(|b| *b == b' '));
    let mut r = BufferReader::new(&data);
    assert_eq!(r.read_string(), "alice");
}

#[test]
fn invalid_utf8_string_reads_empty() {
    let mut data = vec![0xc3u8, 0x28];
    data.resize(64, b' ');
    let mut r = BufferReader::new(&data);
    assert_eq!(r.read_string(), "");
}

#[test]
fn reader_past_end_gives_sentinel() {
    let data = vec![0x01u8];
    let mut r = BufferReader::new(&data);
    assert_eq!(r.read_byte(), 1);
    assert_eq!(r.read_byte(), 0xff);
    assert_eq!(r.read_sbyte(), -1);
    assert_eq!(r.get_index(), 3);
}

#[test]
fn reader_shorts_both_orders() {
    let data = vec![0x12u8, 0x34, 0x12, 0x34, 0xff, 0xfe, 0xfe, 0xff];
    let mut r = BufferReader::new(&data);
    assert_eq!(r.read_ushort(), 0x1234);
    assert_eq!(r.read_ushort_le(), 0x3412);
    assert_eq!(r.read_short(), -2);
    assert_eq!(r.read_short_le(), -2);
}

#[test]
fn reader_read_to_end_keeps_index() {
    let data = vec![1u8, 2, 3, 4];
    let mut r = BufferReader::new(&data);
    r.read_byte();
    assert_eq!(r.read_to_end(), vec![2, 3, 4]);
    assert_eq!(r.get_index(), 1);
}

#[test]
fn identification_round_trip() {
    let p = PlayerIdentification {
        sender: 3,
        protocol_version: 7,
        username: String::from("alice"),
        verification_key: String::from("k3y"),
        magic_number: 0x42,
    };
    let mut w = BufferWriter::new(131);
    w.write_byte(PlayerIdentification::ID);
    p.handle_send(&mut w);
    assert_eq!(w.get_data().len(), PlayerIdentification::SIZE);
    let data = w.get_data().clone();
    let mut r = BufferReader::new(&data);
    r.read_byte();
    let q = PlayerIdentification::new(&mut r, 3);
    assert_eq!(q.protocol_version, 7);
    assert_eq!(q.username, "alice");
    assert_eq!(q.verification_key, "k3y");
    assert_eq!(q.magic_number, 0x42);
    assert_eq!(r.get_index(), PlayerIdentification::SIZE);
}

#[test]
fn set_block_round_trip() {
    let p = PlayerSetBlock { sender: 2, position: Vec3D::new(3, 8, 0x1234), mode: 1, block: 49 };
    let mut w = BufferWriter::new(9);
    p.handle_send(&mut w);
    let data = w.get_data().clone();
    let mut r = BufferReader::new(&data);
    assert_eq!(PlayerSetBlock::new(&mut r, 2), p);
}

#[test]
fn position_round_trip() {
    let p = PlayerPositionAndOrientation { sender: 4, player_id: 255, x: 1, y: 0xfffe, z: 300, pitch: 12, yaw: 250 };
    let mut w = BufferWriter::new(10);
    p.handle_send(&mut w);
    let data = w.get_data().clone();
    let mut r = BufferReader::new(&data);
    assert_eq!(PlayerPositionAndOrientation::new(&mut r, 4), p);
}

#[test]
fn message_round_trip() {
    let p = PlayerMessage { sender: 1, unused: 0xff, message: String::from("hello world") };
    let mut w = BufferWriter::new(66);
    p.handle_send(&mut w);
    let data = w.get_data().clone();
    let mut r = BufferReader::new(&data);
    let q = PlayerMessage::new(&mut r, 1);
    assert_eq!(q.unused, 0xff);
    assert_eq!(q.get_message(), "hello world");
}

#[test]
fn parse_packets_splits_by_opcode() {
    let mut w = BufferWriter::new(32);
    w.write_byte(PlayerSetBlock::ID);
    PlayerSetBlock { sender: 5, position: Vec3D::new(1, 2, 3), mode: 0, block: 0 }.handle_send(&mut w);
    w.write_byte(0x42);
    w.write_byte(PlayerPositionAndOrientation::ID);
    PlayerPositionAndOrientation { sender: 5, player_id: 255, x: 10, y: 20, z: 30, pitch: 1, yaw: 2 }
        .handle_send(&mut w);
    let data = w.get_data().clone();
    let packets = parse_packets(&data, data.len(), 5);
    assert_eq!(packets.len(), 2);
    match &packets[0] {
        IncomingPacket::SetBlock(p) => assert_eq!(p.position, Vec3D::new(1, 2, 3)),
        _ => panic!("expected a set-block packet"),
    }
    match &packets[1] {
        IncomingPacket::Position(p) => {
            assert_eq!((p.x, p.y, p.z), (10, 20, 30));
            assert_eq!(p.sender, 5);
        },
        _ => panic!("expected a position packet"),
    }
}

#[test]
fn parse_packets_pads_cut_packet_with_sentinel() {
    let data = vec![PlayerSetBlock::ID, 0x00, 0x03];
    let packets = parse_packets(&data, data.len(), 1);
    assert_eq!(packets.len(), 1);
    match &packets[0] {
        IncomingPacket::SetBlock(p) => {
            assert_eq!(p.position.0, 3);
            assert_eq!(p.position.1, 0xffff);
            assert_eq!(p.block, 0xff);
        },
        _ => panic!("expected a set-block packet"),
    }
}

#[test]
fn memory_map_has_grass_plane() {
    let m = MemoryMap::new(Vec3D::new(4, 6, 2));
    assert_eq!(m.get_chunks().len(), 48);
    for x in 0..4u16 {
        for z in 0..2u16 {
            assert_eq!(m.get_block(&Vec3D::new(x, 2, z)), 2);
            assert_eq!(m.get_block(&Vec3D::new(x, 3, z)), 0);
            assert_eq!(m.get_block(&Vec3D::new(x, 0, z)), 0);
        }
    }
}

#[test]
fn memory_map_without_plane_when_flat() {
    let m = MemoryMap::new(Vec3D::new(1, 1, 1));
    assert_eq!(m.get_chunks().clone(), vec![0]);
}

#[test]
fn memory_map_index_formula() {
    let m = MemoryMap::new(Vec3D::new(5, 4, 3));
    assert_eq!(m.get_data_index(&Vec3D::new(2, 3, 1)), 2 + 1 * 5 + 3 * 5 * 3);
}

#[test]
fn set_block_then_get_block() {
    let mut m = MemoryMap::new(Vec3D::new(8, 8, 8));
    for (i, p) in [Vec3D::new(0, 0, 0), Vec3D::new(7, 7, 7), Vec3D::new(3, 1, 6)].iter().enumerate() {
        let b = (i as u8) * 100 + 7;
        m.set_block(p, b);
        assert_eq!(m.get_block(p), b);
    }
    assert_eq!(m.get_chunks().len(), 512);
}

#[test]
fn set_data_chunks_clamps_blocks() {
    let mut m = MemoryMap::new(Vec3D::new(2, 1, 2));
    m.set_data_chunks(vec![1, 50, 51, 255]);
    assert_eq!(m.get_chunks().clone(), vec![1, 50, 50, 50]);
}

#[test]
fn bounds_check() {
    let size = Vec3D::new(4, 4, 4);
    assert!(position_in_bounds(&size, &Vec3D::new(3, 3, 3)));
    assert!(!position_in_bounds(&size, &Vec3D::new(4, 0, 0)));
}

#[test]
fn level_file_loads() {
    let raw = level_file(2, 2, 1, (1, 2, 3), 64, 255, &[1, 60, 3, 4]);
    let m = MCSharpMap::from_file_bytes(&gzip(&raw)).unwrap();
    assert_eq!(*m.get_size(), Vec3D::new(2, 2, 1));
    assert_eq!(m.get_spawnarea(), Vec3D::new(32, 64, 96));
    assert_eq!(m.get_spawnyaw(), 64);
    assert_eq!(m.get_spawnpitch(), 255);
    assert_eq!(m.get_chunks().clone(), vec![1, 50, 3, 4]);
}

#[test]
fn level_file_bad_magic_is_refused() {
    let mut raw = level_file(2, 2, 1, (0, 0, 0), 0, 0, &[0, 0, 0, 0]);
    raw[0] = 0x53;
    assert!(MCSharpMap::from_file_bytes(&gzip(&raw)).is_none());
}

#[test]
fn level_file_not_gzip_is_refused() {
    assert!(MCSharpMap::from_file_bytes(&vec![1, 2, 3, 4]).is_none());
}

#[test]
fn world_from_level_keeps_spawn() {
    let raw = level_file(2, 2, 2, (1, 1, 1), 10, 20, &[0; 8]);
    let m = MCSharpMap::from_file_bytes(&gzip(&raw)).unwrap();
    let w = World::new(String::from("foo"), m);
    assert_eq!(w.get_name(), "foo");
    assert_eq!(w.get_spawnarea(), Vec3D::new(32, 32, 32));
    assert_eq!((w.get_spawnyaw(), w.get_spawnpitch()), (10, 20));
}

#[test]
fn world_player_list() {
    let mut w = World::new(String::from("main"), MemoryMap::new(Vec3D::new(2, 2, 2)));
    w.add_player(3);
    w.add_player(5);
    w.add_player(3);
    w.add_player(9);
    assert_eq!(w.get_players().clone(), vec![3, 5, 9]);
    w.remove_player(3);
    assert_eq!(w.get_players().clone(), vec![5, 9]);
    w.remove_player(42);
    assert_eq!(w.get_players().clone(), vec![5, 9]);
}

#[test]
fn world_set_block_destroy_forces_air() {
    let mut w = World::new(String::from("main"), MemoryMap::new(Vec3D::new(4, 4, 4)));
    w.set_block(&Vec3D::new(1, 1, 1), 9, false);
    assert_eq!(w.get_block(&Vec3D::new(1, 1, 1)), 9);
    w.set_block(&Vec3D::new(1, 1, 1), 9, true);
    assert_eq!(w.get_block(&Vec3D::new(1, 1, 1)), 0);
    assert_eq!(w.get_spawnarea(), Vec3D::new(64, 128, 64));
    assert_eq!((w.get_spawnyaw(), w.get_spawnpitch()), (0, 255));
}

#[test]
fn compressed_map_starts_with_length() {
    let m = MemoryMap::new(Vec3D::new(8, 4, 8));
    let gz = compress_map(m.get_chunks());
    let plain = gunzip(&gz);
    assert_eq!(&plain[..4], &(256u32).to_be_bytes());
    assert_eq!(plain.len() - 4, 256);
    assert_eq!(&plain[4..], &m.get_chunks()[..]);
    assert_ne!(gz, plain);
}

#[test]
fn tiny_map_transfers_in_one_chunk() {
    let m = MemoryMap::new(Vec3D::new(1, 1, 1));
    let gz = compress_map(m.get_chunks());
    assert!(gz.len() <= 1024);
    let packets = level_transfer_packets(&gz, *m.get_size());
    assert_eq!(packets.len(), 3);
    assert!(matches!(packets[0], OutgoingPacket::LevelInitialize(_)));
    match &packets[1] {
        OutgoingPacket::LevelDataChunk(c) => {
            assert_eq!(c.chunk_length as usize, gz.len());
            assert_eq!(c.percent_complete, 0);
            assert_eq!(c.chunk_data.len(), 1024);
        },
        _ => panic!("expected a data chunk"),
    }
    match &packets[2] {
        OutgoingPacket::LevelFinalize(f) => assert_eq!(f.size, Vec3D::new(1, 1, 1)),
        _ => panic!("expected finalize"),
    }
    assert_eq!(packets[2].encode(), vec![0x04, 0, 1, 0, 1, 0, 1]);
}

#[test]
fn main_sized_map_final_chunk_zero_padded() {
    let mut m = MemoryMap::new(Vec3D::new(64, 16, 64));
    let mut seed: u32 = 12345;
    for x in 0..64u16 {
        for z in 0..64u16 {
            seed = seed.wrapping_mul(1103515245).wrapping_add(12345);
            m.set_block(&Vec3D::new(x, 3, z), (seed >> 24) as u8);
        }
    }
    let gz = compress_map(m.get_chunks());
    let packets = level_transfer_packets(&gz, *m.get_size());
    let chunks: Vec<_> = packets
        .iter()
        .filter_map(|p| match p {
            OutgoingPacket::LevelDataChunk(c) => Some(c),
            _ => None,
        })
        .collect();
    assert!(chunks.len() >= 1);
    assert_eq!(chunks.len(), (gz.len() + 1023) / 1024);
    let last = chunks[chunks.len() - 1];
    let n = last.chunk_length as usize;
    assert_eq!(last.chunk_data.len(), 1024);
    assert!(last.chunk_data[n..].iter().all(|b| *b == 0));
    let joined: Vec<u8> = chunks.iter().flat_map(|c| c.chunk_data[..c.chunk_length as usize].to_vec()).collect();
    assert_eq!(joined, gz);
    assert!(chunks.iter().all(|c| c.percent_complete == 0));
    assert_eq!(last.chunk_data.len() + 4, OutgoingPacket::LevelDataChunk(rcclassic::classic_server::LevelDataChunk::new(last.chunk_length, last.chunk_data.clone(), 0)).encode().len());
}

#[test]
fn command_text_helpers() {
    assert!(eq_ignore_case(b"/HeLp", b"/help"));
    assert!(!eq_ignore_case(b"/helpx", b"/help"));
    assert!(starts_with_ignore_case(b"/Join foo", b"/j"));
    assert_eq!(to_lower(b"AbC1"), b"abc1".to_vec());
    assert_eq!(get_last_word(&b"/j  foo  ".to_vec()), b"foo".to_vec());
    assert_eq!(get_rest_words(&b"/tp al ice".to_vec()), b"alice".to_vec());
    assert!(find_sub(b"alice", b"lic"));
    assert!(!find_sub(b"alice", b"bob"));
    assert!(find_sub(b"alice", b""));
}

#[test]
fn block_map_spawns() {
    let m = MemoryMap::new(Vec3D::new(64, 16, 64));
    assert_eq!(BlockMap::get_spawnarea(&m), Vec3D::new(1024, 512, 1024));
    assert_eq!((BlockMap::get_spawnyaw(&m), BlockMap::get_spawnpitch(&m)), (0, 255));
    assert_eq!(BlockMap::get_magic_id(&m), 0x271bb788);
    assert_eq!(BlockMap::get_version_number(&m), 2);
    let raw = level_file(1, 1, 1, (5, 6, 7), 8, 9, &[77]);
    let mut l = MCSharpMap::from_file_bytes(&gzip(&raw)).unwrap();
    assert_eq!(BlockMap::get_spawnarea(&l), Vec3D::new(160, 192, 224));
    assert_eq!(BlockMap::get_block(&l, &Vec3D::new(0, 0, 0)), 50);
    BlockMap::set_block(&mut l, &Vec3D::new(0, 0, 0), 3);
    assert_eq!(BlockMap::get_block(&l, &Vec3D::new(0, 0, 0)), 3);
    assert_eq!(l.into_volume().get_chunks().clone(), vec![3]);
}

#[test]
fn unicode_white_space_is_trimmed() {
    let mut w = BufferWriter::new(66);
    w.write_byte(0);
    w.write_string("\u{a0}a");
    let data = w.get_data().clone();
    let mut r = BufferReader::new(&data);
    let m = PlayerMessage::new(&mut r, 1);
    assert_eq!(m.get_message(), "a");
    let mut w = BufferWriter::new(64);
    w.write_string("\u{3000}b\u{2009}c\u{85}");
    let data = w.get_data().clone();
    let mut r = BufferReader::new(&data);
    assert_eq!(r.read_string(), "b\u{2009}c");
}

#[test]
fn short_buffer_string_reads_empty() {
    let data = vec![b'h', b'i'];
    let mut r = BufferReader::new(&data);
    assert_eq!(r.read_string(), "");
    assert_eq!(r.get_index(), 64);
}

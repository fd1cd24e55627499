use std::io::Write;

use flate2::write::GzEncoder;
use flate2::Compression;
use rcclassic::classic_client::{PlayerIdentification, PlayerMessage, PlayerPositionAndOrientation, PlayerSetBlock};
use rcclassic::classic_server::DisconnectPlayer;
use rcclassic::packet::{IncomingPacket, Outgoing, OutgoingPacket};
use rcclassic::server::{decimal_text, parse_command, resolve_threadsize, Command, Core, MAX_NETWORK_UID};
use rcclassic::util::{Transform, Vec3D};

fn identify(core: &mut Core, uid: usize, name: &str) {
    let p = PlayerIdentification {
        sender: uid,
        protocol_version: 7,
        username: String::from(name),
        verification_key: " ".repeat(64),
        magic_number: 0x42,
    };
    core.handle_received_packet(&IncomingPacket::Identification(p));
}

fn say(core: &mut Core, uid: usize, text: &str) {
    core.handle_received_packet(&IncomingPacket::Message(PlayerMessage {
        sender: uid,
        unused: 0,
        message: String::from(text),
    }));
}

fn to(out: &[Outgoing], uid: usize) -> Vec<&OutgoingPacket> {
    out.iter().filter(|o| o.to == uid).map(|o| &o.packet).collect()
}

fn chat_lines(out: &[Outgoing], uid: usize) -> Vec<String> {
    to(out, uid)
        .into_iter()
        .filter_map(|p| match p {
            OutgoingPacket::Message(m) => Some(m.message.clone()),
            _ => None,
        })
        .collect()
}

fn level_file(w: u16, d: u16, h: u16) -> Vec<u8> {
    let mut raw = Vec::new();
    raw.extend_from_slice(&0x0752u16.to_le_bytes());
    raw.extend_from_slice(&w.to_le_bytes());
    raw.extend_from_slice(&d.to_le_bytes());
    raw.extend_from_slice(&h.to_le_bytes());
    raw.extend_from_slice(&2i16.to_le_bytes());
    raw.extend_from_slice(&3i16.to_le_bytes());
    raw.extend_from_slice(&4i16.to_le_bytes());
    raw.push(1);
    raw.push(2);
    raw.push(0);
    raw.push(0);
    raw.extend(std::iter::repeat(1u8).take(w as usize * d as usize * h as usize));
    let mut gz = GzEncoder::new(Vec::new(), Compression::default());
    gz.write_all(&raw).unwrap();
    gz.finish().unwrap()
}

#[test]
fn create_default_core() {
    let core = Core::new(0);
    assert_eq!(core.get_world_count(), 1);
    assert!(core.get_world("main").is_some());
    let console = core.get_player_by_uid(0).unwrap();
    assert!(console.is_console());
    assert_eq!(console.get_display_name(), "&0Console");
}

#[test]
fn threadsize_defaults_to_cores() {
    assert_eq!(resolve_threadsize(0, 6), 6);
    assert_eq!(resolve_threadsize(3, 6), 3);
    assert_eq!(Core::new(3).get_threadsize(), 3);
}

#[test]
fn ids_are_allocated_from_one() {
    let mut core = Core::new(1);
    assert_eq!(core.add_network_player(), Some(1));
    assert_eq!(core.add_network_player(), Some(2));
    core.handle_received_packet(&IncomingPacket::Disconnect(DisconnectPlayer::new(1, String::new())));
    assert_eq!(core.add_network_player(), Some(1));
    for i in 3..=MAX_NETWORK_UID {
        assert_eq!(core.add_network_player(), Some(i));
    }
    assert_eq!(core.add_network_player(), None);
}

#[test]
fn identification_then_spawn() {
    let mut core = Core::new(1);
    let a = core.add_network_player().unwrap();
    identify(&mut core, a, "alice");
    let out = core.take_outbox();
    let mine = to(&out, a);
    match mine[0] {
        OutgoingPacket::Identification(p) => assert_eq!(p.protocol_version, 7),
        _ => panic!("expected the identification first"),
    }
    assert!(matches!(mine[1], OutgoingPacket::LevelInitialize(_)));
    let n = mine.len();
    assert!(n >= 5);
    for p in &mine[2..n - 2] {
        assert!(matches!(p, OutgoingPacket::LevelDataChunk(_)));
    }
    match mine[n - 2] {
        OutgoingPacket::LevelFinalize(f) => assert_eq!(f.size, Vec3D::new(64, 16, 64)),
        _ => panic!("expected finalize"),
    }
    match mine[n - 1] {
        OutgoingPacket::SpawnPlayer(s) => {
            assert_eq!(s.player_id, -1);
            assert_eq!(s.player_name, "&7alice");
            assert_eq!(s.transform, Transform::new(Vec3D::new(1024, 512, 1024), 0, 255));
        },
        _ => panic!("expected the spawn last"),
    }
    let p = core.get_player_by_uid(a).unwrap();
    assert_eq!(p.get_name(), "alice");
    assert_eq!(p.get_world(), "main");
    assert_eq!(core.get_world("main").unwrap().get_players().clone(), vec![a]);
    assert_eq!(chat_lines(&out, 0), vec![String::from("&7alice &6has joined the server!")]);
}

#[test]
fn two_clients_one_block() {
    let mut core = Core::new(1);
    core.set_readonly(false);
    let a = core.add_network_player().unwrap();
    let b = core.add_network_player().unwrap();
    identify(&mut core, a, "A");
    identify(&mut core, b, "B");
    let out = core.take_outbox();
    let spawns_to_a: Vec<i8> = to(&out, a)
        .into_iter()
        .filter_map(|p| match p {
            OutgoingPacket::SpawnPlayer(s) => Some(s.player_id),
            _ => None,
        })
        .collect();
    assert_eq!(spawns_to_a, vec![-1, b as i8]);
    let place = PlayerSetBlock { sender: a, position: Vec3D::new(3, 8, 5), mode: 1, block: 1 };
    core.handle_received_packet(&IncomingPacket::SetBlock(place));
    let out = core.take_outbox();
    for uid in [a, b] {
        let got = to(&out, uid);
        assert_eq!(got.len(), 1);
        assert_eq!(got[0].encode(), vec![0x06, 0, 3, 0, 8, 0, 5, 1]);
    }
    let dig = PlayerSetBlock { sender: a, position: Vec3D::new(3, 8, 5), mode: 0, block: 0 };
    core.handle_received_packet(&IncomingPacket::SetBlock(dig));
    let out = core.take_outbox();
    for uid in [a, b] {
        let got = to(&out, uid);
        assert_eq!(got.len(), 1);
        assert_eq!(got[0].encode(), vec![0x06, 0, 3, 0, 8, 0, 5, 0]);
    }
    assert_eq!(core.get_world("main").unwrap().get_block(&Vec3D::new(3, 8, 5)), 0);
}

#[test]
fn set_block_out_of_bounds_is_dropped() {
    let mut core = Core::new(1);
    core.set_readonly(false);
    let a = core.add_network_player().unwrap();
    identify(&mut core, a, "A");
    core.take_outbox();
    let p = PlayerSetBlock { sender: a, position: Vec3D::new(64, 0, 0), mode: 1, block: 1 };
    core.handle_received_packet(&IncomingPacket::SetBlock(p));
    assert!(core.take_outbox().is_empty());
}

#[test]
fn chat_broadcast() {
    let mut core = Core::new(1);
    let a = core.add_network_player().unwrap();
    let b = core.add_network_player().unwrap();
    identify(&mut core, a, "A");
    identify(&mut core, b, "B");
    core.take_outbox();
    say(&mut core, b, "hello");
    let out = core.take_outbox();
    let to_a = to(&out, a);
    assert_eq!(to_a.len(), 1);
    match to_a[0] {
        OutgoingPacket::Message(m) => {
            assert_eq!(m.player_id, 0);
            assert_eq!(m.message, "&7B: &fhello");
        },
        _ => panic!("expected chat"),
    }
    assert!(to(&out, b).is_empty());
}

#[test]
fn position_goes_to_peers_only() {
    let mut core = Core::new(1);
    let a = core.add_network_player().unwrap();
    let b = core.add_network_player().unwrap();
    identify(&mut core, a, "A");
    identify(&mut core, b, "B");
    core.take_outbox();
    let p = PlayerPositionAndOrientation { sender: a, player_id: 255, x: 64, y: 96, z: 128, pitch: 5, yaw: 6 };
    core.handle_received_packet(&IncomingPacket::Position(p));
    let out = core.take_outbox();
    assert!(to(&out, a).is_empty());
    let got = to(&out, b);
    assert_eq!(got.len(), 1);
    assert_eq!(got[0].encode(), vec![0x08, a as u8, 0, 64, 0, 96, 0, 128, 6, 5]);
    assert_eq!(*core.get_player_by_uid(a).unwrap().get_transform(), Transform::new(Vec3D::new(64, 96, 128), 6, 5));
}

#[test]
fn teleport_across_worlds() {
    let mut core = Core::new(1);
    let a = core.add_network_player().unwrap();
    let b = core.add_network_player().unwrap();
    identify(&mut core, a, "A");
    identify(&mut core, b, "B");
    say(&mut core, b, "/j foo");
    let requests = core.take_requests();
    assert_eq!(requests.len(), 1);
    assert_eq!(requests[0].uid, b);
    assert_eq!(requests[0].name, "foo");
    core.level_loaded(&requests[0], Some(level_file(8, 8, 8)));
    assert_eq!(core.get_world_count(), 2);
    assert_eq!(core.get_player_by_uid(b).unwrap().get_world(), "foo");
    let moved = PlayerPositionAndOrientation { sender: b, player_id: 255, x: 70, y: 80, z: 90, pitch: 3, yaw: 4 };
    core.handle_received_packet(&IncomingPacket::Position(moved));
    core.take_outbox();
    say(&mut core, a, "/tp B");
    let out = core.take_outbox();
    let mine = to(&out, a);
    let init = mine.iter().position(|p| matches!(p, OutgoingPacket::LevelInitialize(_))).unwrap();
    let fin = mine.iter().position(|p| matches!(p, OutgoingPacket::LevelFinalize(_))).unwrap();
    assert!(init < fin);
    match mine[fin] {
        OutgoingPacket::LevelFinalize(f) => assert_eq!(f.size, Vec3D::new(8, 8, 8)),
        _ => panic!("expected finalize"),
    }
    let spawned_b = mine.iter().any(|p| match p {
        OutgoingPacket::SpawnPlayer(s) => s.player_id == b as i8,
        _ => false,
    });
    assert!(spawned_b);
    let pa = core.get_player_by_uid(a).unwrap();
    let pb = core.get_player_by_uid(b).unwrap();
    assert_eq!(pa.get_world(), "foo");
    assert_eq!(pa.get_transform(), pb.get_transform());
    match mine[mine.len() - 1] {
        OutgoingPacket::Position(p) => assert_eq!(p.player_id, -1),
        _ => panic!("expected the teleport last"),
    }
    assert_eq!(core.get_world("main").unwrap().get_players().clone(), Vec::<usize>::new());
    assert_eq!(core.get_world("foo").unwrap().get_players().clone(), vec![b, a]);
}

#[test]
fn missing_world_is_reported() {
    let mut core = Core::new(1);
    let a = core.add_network_player().unwrap();
    identify(&mut core, a, "A");
    core.take_outbox();
    say(&mut core, a, "/join Nowhere");
    let requests = core.take_requests();
    assert_eq!(requests[0].name, "nowhere");
    core.level_loaded(&requests[0], None);
    let out = core.take_outbox();
    assert_eq!(chat_lines(&out, a), vec![String::from("&8The world \"nowhere\" does not exist.")]);
    assert_eq!(core.get_world_count(), 1);
}

#[test]
fn teleport_without_match() {
    let mut core = Core::new(1);
    let a = core.add_network_player().unwrap();
    identify(&mut core, a, "A");
    core.take_outbox();
    say(&mut core, a, "/tp zed");
    let out = core.take_outbox();
    assert_eq!(chat_lines(&out, a), vec![String::from("&7Couldn't find a player with name \"zed\".")]);
}

#[test]
fn disconnect() {
    let mut core = Core::new(1);
    let a = core.add_network_player().unwrap();
    let b = core.add_network_player().unwrap();
    identify(&mut core, a, "A");
    identify(&mut core, b, "B");
    core.take_outbox();
    core.handle_received_packet(&IncomingPacket::Disconnect(DisconnectPlayer::new(b, String::new())));
    let out = core.take_outbox();
    let to_a = to(&out, a);
    assert_eq!(to_a[0].encode(), vec![0x0c, b as u8]);
    assert_eq!(chat_lines(&out, a), vec![String::from("&7B &6has left the server.")]);
    assert!(core.get_player_by_uid(b).is_none());
    assert_eq!(core.get_world("main").unwrap().get_players().clone(), vec![a]);
}

#[test]
fn readonly_block() {
    let mut core = Core::new(1);
    let a = core.add_network_player().unwrap();
    let b = core.add_network_player().unwrap();
    identify(&mut core, a, "A");
    identify(&mut core, b, "B");
    core.take_outbox();
    let place = PlayerSetBlock { sender: a, position: Vec3D::new(3, 8, 5), mode: 1, block: 1 };
    core.handle_received_packet(&IncomingPacket::SetBlock(place));
    let out = core.take_outbox();
    let to_a = to(&out, a);
    assert_eq!(to_a.len(), 2);
    match to_a[0] {
        OutgoingPacket::Message(m) => assert_eq!(m.message, "&8Server is on read-only state."),
        _ => panic!("expected the notice"),
    }
    assert_eq!(to_a[1].encode(), vec![0x06, 0, 3, 0, 8, 0, 5, 0]);
    assert!(to(&out, b).is_empty());
}

#[test]
fn help_players_and_worlds_commands() {
    let mut core = Core::new(1);
    let a = core.add_network_player().unwrap();
    let b = core.add_network_player().unwrap();
    identify(&mut core, a, "A");
    identify(&mut core, b, "B");
    core.take_outbox();
    say(&mut core, a, "/HELP");
    say(&mut core, a, "/players");
    say(&mut core, a, "/worlds");
    let lines = chat_lines(&core.take_outbox(), a);
    assert_eq!(lines.len(), 5 + 3 + 2);
    assert_eq!(lines[0], "&cMC Classic Written in Rust by Ali Deym.");
    assert_eq!(&lines[5..8], &["&6Players Online:", "&7A", "&7B"]);
    assert_eq!(lines[9], "&6the number of worlds loaded: &81");
}

#[test]
fn main_command_rejoins_main() {
    let mut core = Core::new(1);
    let a = core.add_network_player().unwrap();
    identify(&mut core, a, "A");
    core.take_outbox();
    say(&mut core, a, "/main");
    let out = core.take_outbox();
    assert!(to(&out, a).iter().any(|p| matches!(p, OutgoingPacket::LevelInitialize(_))));
    assert_eq!(chat_lines(&out, 0), vec![String::from("&7A &8joined the world \"main\".")]);
    assert_eq!(core.get_world("main").unwrap().get_players().clone(), vec![a]);
}

#[test]
fn command_parsing() {
    assert_eq!(parse_command("/Help"), Command::Help);
    assert_eq!(parse_command("/main"), Command::Main);
    assert_eq!(parse_command("/join x"), Command::Join);
    assert_eq!(parse_command("/teleport x"), Command::Teleport);
    assert_eq!(parse_command("/worlds"), Command::Worlds);
    assert_eq!(parse_command("/players"), Command::Players);
    assert_eq!(parse_command("hi"), Command::Chat);
    assert_eq!(decimal_text(0), "0");
    assert_eq!(decimal_text(1207), "1207");
}

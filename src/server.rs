use vstd::prelude::*;

use crate::classic_client::{PlayerIdentification, PlayerMessage, PlayerPositionAndOrientation, PlayerSetBlock};
use crate::commands::{
    contains_sub, eq_ci, find_sub, get_last_word, get_rest_words, last_word, lower_seq, rest_words,
    starts_ci, eq_ignore_case, starts_with_ignore_case, to_lower,
};
use crate::classic_server::{
    DespawnPlayer, DisconnectPlayer, Message, ServerIdentification, ServerPositionAndOrientation,
    ServerSetBlock, SpawnPlayer,
};
use crate::map::{
    gunzip_of, gzip_of, in_bounds, index_of, initial_blocks, lemma_index_in_volume, level_accepted,
    level_size, level_spawn, loaded_blocks, position_in_bounds, MCSharpMap, MemoryMap, LEVEL_HEADER_LEN,
};
use crate::packet::{sent, IncomingPacket, Outgoing, OutgoingPacket};
use crate::player::{Console, Player, PlayerView, CONSOLE_UID};
use crate::transfer::{compress_map, level_stream, level_transfer_packets, map_payload};
use crate::util::{
    byte_at, copy_vec, decode_text, rest_from, text_field, text_from_bytes, transform_bytes, vec3d_bytes, Transform, Vec3D,
};
use vstd::utf8::encode_utf8;
use crate::world::{lemma_with_member, lemma_without, with_member, without, World};

verus! {

/// Number of player slots; ids run from 0 (the console) to 127.
pub const MAX_PLAYERS: usize = 128;

/// Highest id handed to a new connection.
pub const MAX_NETWORK_UID: usize = 126;

/// Bytes of a chat packet carrying `t`, as the server sends it.
pub open spec fn msg_bytes(t: Seq<char>) -> Seq<u8> {
    seq![Message::ID, 0u8] + text_field(t)
}

/// Chat lines from `sender` to every other registered player among the
/// first `n` slots, in id order.
pub open spec fn broadcast_sent(slots: Seq<Option<Player>>, sender: usize, t: Seq<char>, n: int) -> Seq<(usize, Seq<u8>)>
    decreases n,
{
    if n <= 0 {
        Seq::empty()
    } else {
        let prev = broadcast_sent(slots, sender, t, n - 1);
        if n - 1 != sender && slots[n - 1] is Some {
            prev.push(((n - 1) as usize, msg_bytes(t)))
        } else {
            prev
        }
    }
}

/// The same bytes to each id of `l` other than `skip` and the console, in
/// list order.
pub open spec fn fan_out(l: Seq<usize>, skip: usize, b: Seq<u8>) -> Seq<(usize, Seq<u8>)>
    decreases l.len(),
{
    if l.len() == 0 {
        Seq::empty()
    } else {
        let prev = fan_out(l.drop_last(), skip, b);
        if l.last() != skip && l.last() != CONSOLE_UID {
            prev.push((l.last(), b))
        } else {
            prev
        }
    }
}

pub open spec fn setblock_bytes(p: Vec3D, b: u8) -> Seq<u8> {
    seq![ServerSetBlock::ID] + vec3d_bytes(p) + seq![b]
}

pub open spec fn position_bytes(id: i8, t: Transform) -> Seq<u8> {
    seq![ServerPositionAndOrientation::ID, id as u8] + transform_bytes(t)
}

/// Name the server gives in its identification.
pub const SERVER_NAME: &'static str = "RustCraftClassic by Ali Deym (Rust <3)";

/// Message of the day sent with the identification.
pub const SERVER_MOTD: &'static str = "RustCraftClassic by Ali Deym (Rust <3) +hax";

/// Protocol version the server speaks.
pub const PROTOCOL_VERSION: u8 = 0x07;

/// Bytes of the server's identification reply.
pub open spec fn identification_bytes() -> Seq<u8> {
    seq![ServerIdentification::ID, PROTOCOL_VERSION] + text_field(SERVER_NAME@) + text_field(SERVER_MOTD@) + seq![0u8]
}

/// Chat line announcing that a player entered a world.
pub open spec fn joined_text(display: Seq<char>, world: Seq<char>) -> Seq<char> {
    display + " &8joined the world \""@ + world + "\"."@
}

/// Chat line for a world that is neither loaded nor loadable.
pub open spec fn not_found_text(world: Seq<char>) -> Seq<char> {
    "&8The world \""@ + world + "\" does not exist."@
}

/// Whether file bytes hold a level that loads.
pub open spec fn level_loads(f: Seq<u8>) -> bool {
    gunzip_of(f) is Some && level_accepted(gunzip_of(f)->0)
}

/// World `w` holds what the decompressed level bytes `d` describe.
pub open spec fn holds_level(w: World, d: Seq<u8>) -> bool {
    &&& w.size_spec() == level_size(d)
    &&& w.blocks() == loaded_blocks(initial_blocks(level_size(d)), rest_from(d, LEVEL_HEADER_LEN as int))
    &&& w.spawn_spec() == (Transform { position: level_spawn(d), yaw: byte_at(d, 14), pitch: byte_at(d, 15) })
}

/// What a chat line asks for.
#[derive(Clone, Copy, Debug, PartialEq, Eq, Structural)]
pub enum Command {
    Help,
    Main,
    Join,
    Teleport,
    Worlds,
    Players,
    /// No command: the line is chat.
    Chat,
}

/// The command of a chat line, from its UTF-8 bytes, ignoring ASCII case:
/// the first of these hooks that claims it.
pub open spec fn command_of(mb: Seq<u8>) -> Command {
    if eq_ci(mb, encode_utf8("/help"@)) {
        Command::Help
    } else if eq_ci(mb, encode_utf8("/main"@)) {
        Command::Main
    } else if starts_ci(mb, encode_utf8("/j"@)) {
        Command::Join
    } else if starts_ci(mb, encode_utf8("/tp"@)) || starts_ci(mb, encode_utf8("/teleport"@)) {
        Command::Teleport
    } else if starts_ci(mb, encode_utf8("/worlds"@)) {
        Command::Worlds
    } else if starts_ci(mb, encode_utf8("/players"@)) {
        Command::Players
    } else {
        Command::Chat
    }
}

/// Classifies a chat line.
pub fn parse_command(text: &str) -> (r: Command)
    ensures
        r == command_of(encode_utf8(text@)),
{
    let mb = text.as_bytes();
    if eq_ignore_case(mb, "/help".as_bytes()) {
        Command::Help
    } else if eq_ignore_case(mb, "/main".as_bytes()) {
        Command::Main
    } else if starts_with_ignore_case(mb, "/j".as_bytes()) {
        Command::Join
    } else if starts_with_ignore_case(mb, "/tp".as_bytes()) || starts_with_ignore_case(mb, "/teleport".as_bytes()) {
        Command::Teleport
    } else if starts_with_ignore_case(mb, "/worlds".as_bytes()) {
        Command::Worlds
    } else if starts_with_ignore_case(mb, "/players".as_bytes()) {
        Command::Players
    } else {
        Command::Chat
    }
}

/// The help screen, one chat line per entry.
pub open spec fn help_sent(uid: usize) -> Seq<(usize, Seq<u8>)> {
    seq![
        (uid, msg_bytes("&cMC Classic Written in Rust by Ali Deym."@)),
        (uid, msg_bytes("&7/main - Go to main."@)),
        (uid, msg_bytes("&7/join {map} - Joins or loads the specified map. (/j)"@)),
        (uid, msg_bytes("&7/tp {player} - Go to {player} if any."@)),
        (uid, msg_bytes("&7/players - List of online players."@)),
    ]
}

/// Decimal digits of a number.
pub open spec fn digit_text(d: nat) -> Seq<char> {
    if d == 0 { "0"@ } else if d == 1 { "1"@ } else if d == 2 { "2"@ } else if d == 3 { "3"@ }
    else if d == 4 { "4"@ } else if d == 5 { "5"@ } else if d == 6 { "6"@ } else if d == 7 { "7"@ }
    else if d == 8 { "8"@ } else { "9"@ }
}

pub open spec fn decimal(n: nat) -> Seq<char>
    decreases n,
{
    if n < 10 { digit_text(n) } else { decimal(n / 10) + digit_text(n % 10) }
}

fn digit_str(d: usize) -> (r: &'static str)
    requires
        d < 10,
    ensures
        r@ == digit_text(d as nat),
{
    if d == 0 { "0" } else if d == 1 { "1" } else if d == 2 { "2" } else if d == 3 { "3" }
    else if d == 4 { "4" } else if d == 5 { "5" } else if d == 6 { "6" } else if d == 7 { "7" }
    else if d == 8 { "8" } else { "9" }
}

/// A number written in decimal.
pub fn decimal_text(n: usize) -> (r: String)
    ensures
        r@ == decimal(n as nat),
    decreases n,
{
    if n < 10 {
        String::from_str(digit_str(n))
    } else {
        let mut s = decimal_text(n / 10);
        s.append(digit_str(n % 10));
        s
    }
}

/// The answer to "/worlds".
pub open spec fn worlds_sent(uid: usize, count: nat) -> Seq<(usize, Seq<u8>)> {
    seq![
        (uid, msg_bytes("&6Due to API Limitations, we can only display"@)),
        (uid, msg_bytes("&6the number of worlds loaded: &8"@ + decimal(count))),
    ]
}

/// Display names of the registered clients among the first `n` slots but
/// `uid`, each as a chat line to `uid`.
pub open spec fn others_listing(slots: Seq<Option<Player>>, uid: usize, n: int) -> Seq<(usize, Seq<u8>)>
    decreases n,
{
    if n <= 0 {
        Seq::empty()
    } else {
        let prev = others_listing(slots, uid, n - 1);
        if n - 1 != uid && n - 1 != CONSOLE_UID && slots[n - 1] is Some {
            prev.push((uid, msg_bytes(slots[n - 1]->0.display_name@)))
        } else {
            prev
        }
    }
}

/// First id from `i` on, other than `uid`, of a registered player whose
/// lowercased account name contains `q`.
pub open spec fn first_match(slots: Seq<Option<Player>>, uid: usize, q: Seq<u8>, i: int) -> Option<int>
    decreases MAX_PLAYERS - i,
{
    if i < 0 || i >= MAX_PLAYERS {
        None
    } else if i != uid && slots[i] is Some && contains_sub(lower_seq(encode_utf8(slots[i]->0.name@)), q) {
        Some(i)
    } else {
        first_match(slots, uid, q, i + 1)
    }
}

pub proof fn lemma_first_match(slots: Seq<Option<Player>>, uid: usize, q: Seq<u8>, i: int)
    requires
        0 <= i,
    ensures
        match first_match(slots, uid, q, i) {
            Some(f) => i <= f < MAX_PLAYERS && f != uid && slots[f] is Some,
            None => true,
        },
    decreases MAX_PLAYERS - i,
{
    if i < MAX_PLAYERS {
        lemma_first_match(slots, uid, q, i + 1);
    }
}

/// Chat line for a teleport query that matched nobody.
pub open spec fn no_player_text(q: Seq<char>) -> Seq<char> {
    "&7Couldn't find a player with name \""@ + q + "\"."@
}

/// Each packet of `l` to player `uid`.
pub open spec fn to_one(uid: usize, l: Seq<Seq<u8>>) -> Seq<(usize, Seq<u8>)> {
    l.map_values(|b: Seq<u8>| (uid, b))
}

pub open spec fn despawn_bytes(uid: usize) -> Seq<u8> {
    seq![DespawnPlayer::ID, (uid as i8) as u8]
}

pub open spec fn spawn_bytes(id: i8, name: Seq<char>, t: Transform) -> Seq<u8> {
    seq![SpawnPlayer::ID, id as u8] + text_field(name) + transform_bytes(t)
}

/// Packets of player `uid`, shown as `name`, arriving in world `w`: the
/// level, its own spawn, and the introductions to the members.
pub open spec fn arrive_sent(w: World, slots: Seq<Option<Player>>, uid: usize, name: Seq<char>) -> Seq<(usize, Seq<u8>)> {
    to_one(uid, level_stream(gzip_of(map_payload(w.blocks())), w.size_spec()))
        + seq![(uid, spawn_bytes(-1i8, name, w.spawn_spec()))]
        + spawn_pairs(with_member(w.players_spec(), uid), slots, uid, name, w.spawn_spec())
}

/// For each other registered member `pid` of `l`: a spawn of the newcomer
/// `uid` to `pid`, then a spawn of `pid` to the newcomer.
pub open spec fn spawn_pairs(l: Seq<usize>, slots: Seq<Option<Player>>, uid: usize, name: Seq<char>, t: Transform) -> Seq<(usize, Seq<u8>)>
    decreases l.len(),
{
    if l.len() == 0 {
        Seq::empty()
    } else {
        let prev = spawn_pairs(l.drop_last(), slots, uid, name, t);
        let pid = l.last();
        if pid != uid && pid != CONSOLE_UID && pid < MAX_PLAYERS && slots[pid as int] is Some {
            prev + seq![
                (pid, spawn_bytes(uid as i8, name, t)),
                (uid, spawn_bytes(pid as i8, slots[pid as int]->0.display_name@, t)),
            ]
        } else {
            prev
        }
    }
}

/// Spawn pairs read only the slots of members other than the newcomer.
pub proof fn lemma_spawn_pairs_frame(
    l: Seq<usize>,
    s1: Seq<Option<Player>>,
    s2: Seq<Option<Player>>,
    uid: usize,
    name: Seq<char>,
    t: Transform,
)
    requires
        s1.len() == MAX_PLAYERS,
        s2.len() == MAX_PLAYERS,
        forall|u: int| 0 <= u < MAX_PLAYERS && u != uid ==> #[trigger] s1[u] == s2[u],
    ensures
        spawn_pairs(l, s1, uid, name, t) == spawn_pairs(l, s2, uid, name, t),
    decreases l.len(),
{
    if l.len() > 0 {
        lemma_spawn_pairs_frame(l.drop_last(), s1, s2, uid, name, t);
        let pid = l.last();
        if pid != uid && pid < MAX_PLAYERS {
            assert(s1[pid as int] == s2[pid as int]);
        }
    }
}

/// Broadcasts depend only on which slots are taken.
pub proof fn lemma_broadcast_frame(s1: Seq<Option<Player>>, s2: Seq<Option<Player>>, sender: usize, t: Seq<char>, n: int)
    requires
        0 <= n <= s1.len(),
        s1.len() == s2.len(),
        forall|u: int| 0 <= u < s1.len() ==> (#[trigger] s1[u] is Some) == s2[u] is Some,
    ensures
        broadcast_sent(s1, sender, t, n) == broadcast_sent(s2, sender, t, n),
    decreases n,
{
    if n > 0 {
        lemma_broadcast_frame(s1, s2, sender, t, n - 1);
        assert((s1[n - 1] is Some) == s2[n - 1] is Some);
    }
}

/// The smallest free id in 1..=126, if any.
pub open spec fn first_free(slots: Seq<Option<Player>>) -> Option<usize> {
    if exists|i: int| 1 <= i <= MAX_NETWORK_UID && slots[i] is None {
        Some(choose|i: usize| 1 <= i <= MAX_NETWORK_UID && slots[i as int] is None
            && forall|j: int| 1 <= j < i ==> slots[j] is Some)
    } else {
        None
    }
}

/// A request, for whoever can read files, to load the level named `name` on
/// behalf of player `uid`.
pub struct LevelRequest {
    pub uid: usize,
    pub name: String,
}

/// The server state: player registry, loaded worlds, and the packets and
/// level requests that handlers produced and that wait to be carried out.
pub struct Core {
    threadsize: usize,
    players: Vec<Option<Player>>,
    worlds: Vec<World>,
    outbox: Vec<Outgoing>,
    requests: Vec<LevelRequest>,
    readonly: bool,
}

/// Thread count for connection workers: the requested one, or the core
/// count when none is requested.
pub fn resolve_threadsize(requested: usize, physical_cores: usize) -> (r: usize)
    ensures
        r == if requested == 0 { physical_cores } else { requested },
{
    if requested == 0 {
        physical_cores
    } else {
        requested
    }
}

impl Core {
    pub closed spec fn slots(&self) -> Seq<Option<Player>> {
        self.players@
    }

    pub closed spec fn worlds_spec(&self) -> Seq<World> {
        self.worlds@
    }

    pub closed spec fn outbox_spec(&self) -> Seq<Outgoing> {
        self.outbox@
    }

    pub closed spec fn requests_spec(&self) -> Seq<LevelRequest> {
        self.requests@
    }

    pub closed spec fn readonly_spec(&self) -> bool {
        self.readonly
    }

    /// Number of connection workers the server was set up with.
    pub closed spec fn threadsize_spec(&self) -> usize {
        self.threadsize
    }

    pub fn get_threadsize(&self) -> (r: usize)
        ensures
            r == self.threadsize_spec(),
    {
        self.threadsize
    }

    /// Recipients and bytes of the packets waiting to be sent.
    pub open spec fn sent_spec(&self) -> Seq<(usize, Seq<u8>)> {
        sent(self.outbox_spec())
    }

    pub open spec fn live(&self, u: int) -> bool {
        0 <= u < MAX_PLAYERS && self.slots()[u] is Some
    }

    pub open spec fn player(&self, u: int) -> PlayerView {
        self.slots()[u]->0@
    }

    pub open spec fn world_count(&self) -> int {
        self.worlds_spec().len() as int
    }

    /// Index of the world named `name`, if it is loaded.
    pub open spec fn world_named(&self, name: Seq<char>) -> Option<int> {
        if exists|i: int| 0 <= i < self.world_count() && self.worlds_spec()[i].name_spec() == name {
            Some(choose|i: int| 0 <= i < self.world_count() && self.worlds_spec()[i].name_spec() == name)
        } else {
            None
        }
    }

    /// Ids are unique: slot `u` holds the player with id `u`, and only slot 0
    /// holds the console.
    pub open spec fn ids_unique(&self) -> bool {
        &&& self.slots().len() == MAX_PLAYERS
        &&& self.live(0)
        &&& self.player(0).uid == CONSOLE_UID
        &&& self.player(0).console
        &&& self.player(0).world == Seq::<char>::empty()
        &&& forall|u: int| 1 <= u < MAX_PLAYERS && #[trigger] self.slots()[u] is Some
            ==> self.player(u).uid == u && !self.player(u).console
    }

    /// A player is listed in a world exactly when its world field names it.
    pub open spec fn colocated(&self) -> bool {
        forall|i: int, u: usize| 0 <= i < self.world_count() ==>
            (#[trigger] self.worlds_spec()[i].players_spec().contains(u)
                <==> (self.live(u as int) && self.player(u as int).world == self.worlds_spec()[i].name_spec()))
    }

    pub open spec fn worlds_wf(&self) -> bool {
        &&& self.world_count() >= 1
        &&& self.worlds_spec()[0].name_spec() == "main"@
        &&& forall|i: int| 0 <= i < self.world_count() ==> (#[trigger] self.worlds_spec()[i]).wf()
            && self.worlds_spec()[i].name_spec().len() > 0
        &&& forall|i: int, j: int| 0 <= i < self.world_count() && 0 <= j < self.world_count() && i != j
            ==> #[trigger] self.worlds_spec()[i].name_spec() != #[trigger] self.worlds_spec()[j].name_spec()
    }

    /// Every player that has joined a world is in a loaded one.
    pub open spec fn worlds_known(&self) -> bool {
        forall|u: int| #[trigger] self.live(u) && self.player(u).world.len() > 0
            ==> self.world_named(self.player(u).world) is Some
    }

    pub open spec fn wf(&self) -> bool {
        &&& self.ids_unique()
        &&& self.worlds_wf()
        &&& self.colocated()
        &&& self.worlds_known()
    }

    /// A server with the console registered and a generated 64×16×64 "main"
    /// world; the read-only hook is installed.
    pub fn new(threadsize: usize) -> (r: Core)
        ensures
            r.wf(),
            r.threadsize_spec() == threadsize,
            r.world_count() == 1,
            r.worlds_spec()[0].size_spec() == Vec3D(64, 16, 64),
            r.worlds_spec()[0].players_spec() == Seq::<usize>::empty(),
            forall|u: int| 1 <= u < MAX_PLAYERS ==> !#[trigger] r.live(u),
            r.sent_spec() == Seq::<(usize, Seq<u8>)>::empty(),
            r.requests_spec() == Seq::<LevelRequest>::empty(),
            r.readonly_spec(),
    {
        let mut players: Vec<Option<Player>> = Vec::new();
        players.push(Some(Console::new().into_player()));
        while players.len() < MAX_PLAYERS
            invariant
                1 <= players@.len() <= MAX_PLAYERS,
                players@[0] is Some,
                players@[0]->0@.uid == CONSOLE_UID,
                players@[0]->0@.console,
                players@[0]->0@.world == Seq::<char>::empty(),
                forall|u: int| 1 <= u < players@.len() ==> #[trigger] players@[u] is None,
            decreases MAX_PLAYERS - players@.len(),
        {
            players.push(None);
        }
        let main = World::new(String::from_str("main"), MemoryMap::new(Vec3D::new(64, 16, 64)));
        proof {
            reveal_strlit("main");
        }
        let mut worlds: Vec<World> = Vec::new();
        worlds.push(main);
        let r = Core {
            threadsize,
            players,
            worlds,
            outbox: Vec::new(),
            requests: Vec::new(),
            readonly: true,
        };
        assert(r.sent_spec() =~= Seq::<(usize, Seq<u8>)>::empty());
        assert forall|u: int| #[trigger] r.live(u) && r.player(u).world.len() > 0
            implies r.world_named(r.player(u).world) is Some by {
            assert(u == 0);
        }
        r
    }

    /// Installs or removes the hook that refuses every block edit.
    pub fn set_readonly(&mut self, readonly: bool)
        ensures
            final(self).readonly_spec() == readonly,
            final(self).slots() == old(self).slots(),
            final(self).worlds_spec() == old(self).worlds_spec(),
            final(self).outbox_spec() == old(self).outbox_spec(),
            final(self).requests_spec() == old(self).requests_spec(),
            final(self).threadsize_spec() == old(self).threadsize_spec(),
    {
        self.readonly = readonly;
    }

    /// The player with this id; id 0 is the console.
    pub fn get_player_by_uid(&self, uid: usize) -> (r: Option<&Player>)
        requires
            self.wf(),
        ensures
            match r {
                Some(p) => self.live(uid as int) && *p == self.slots()[uid as int]->0,
                None => !self.live(uid as int),
            },
    {
        if uid >= self.players.len() {
            return None;
        }
        match &self.players[uid] {
            Some(p) => Some(p),
            None => None,
        }
    }

    /// Index of the loaded world with this name.
    pub fn find_world(&self, name: &str) -> (r: Option<usize>)
        requires
            self.wf(),
        ensures
            r == match self.world_named(name@) {
                Some(i) => Some(i as usize),
                None => None::<usize>,
            },
            r is Some ==> r->0 < self.world_count() && self.worlds_spec()[r->0 as int].name_spec() == name@,
    {
        let mut i: usize = 0;
        while i < self.worlds.len()
            invariant
                self.wf(),
                i <= self.worlds@.len(),
                forall|k: int| 0 <= k < i ==> self.worlds@[k].name_spec() != name@,
            decreases self.worlds@.len() - i,
        {
            if self.worlds[i].has_name(name) {
                assert(self.world_named(name@) is Some);
                let ghost j = self.world_named(name@)->0;
                assert(self.worlds_spec()[j].name_spec() == self.worlds_spec()[i as int].name_spec());
                assert(self.world_named(name@) == Some(i as int));
                return Some(i);
            }
            i = i + 1;
        }
        None
    }

    pub fn get_world(&self, name: &str) -> (r: Option<&World>)
        requires
            self.wf(),
        ensures
            match r {
                Some(w) => self.world_named(name@) is Some && *w == self.worlds_spec()[self.world_named(name@)->0],
                None => self.world_named(name@) is None,
            },
    {
        match self.find_world(name) {
            Some(i) => Some(&self.worlds[i]),
            None => None,
        }
    }

    pub fn get_world_count(&self) -> (r: usize)
        ensures
            r == self.world_count(),
    {
        self.worlds.len()
    }

    /// Hands out the packets produced so far, in order.
    pub fn take_outbox(&mut self) -> (r: Vec<Outgoing>)
        ensures
            r@ == old(self).outbox_spec(),
            final(self).outbox_spec() == Seq::<Outgoing>::empty(),
            final(self).slots() == old(self).slots(),
            final(self).worlds_spec() == old(self).worlds_spec(),
            final(self).requests_spec() == old(self).requests_spec(),
            final(self).readonly_spec() == old(self).readonly_spec(),
            final(self).threadsize_spec() == old(self).threadsize_spec(),
            old(self).wf() ==> final(self).wf(),
    {
        let mut r: Vec<Outgoing> = Vec::new();
        let ghost o = *self;
        std::mem::swap(&mut r, &mut self.outbox);
        proof {
            if o.wf() {
                self.lemma_wf_frame(&o);
            }
        }
        r
    }

    /// Hands out the pending level requests, in order.
    pub fn take_requests(&mut self) -> (r: Vec<LevelRequest>)
        ensures
            r@ == old(self).requests_spec(),
            final(self).requests_spec() == Seq::<LevelRequest>::empty(),
            final(self).slots() == old(self).slots(),
            final(self).worlds_spec() == old(self).worlds_spec(),
            final(self).outbox_spec() == old(self).outbox_spec(),
            final(self).readonly_spec() == old(self).readonly_spec(),
            final(self).threadsize_spec() == old(self).threadsize_spec(),
            old(self).wf() ==> final(self).wf(),
    {
        let mut r: Vec<LevelRequest> = Vec::new();
        let ghost o = *self;
        std::mem::swap(&mut r, &mut self.requests);
        proof {
            if o.wf() {
                self.lemma_wf_frame(&o);
            }
        }
        r
    }

    /// Everything but the outbox is as in `other`.
    pub open spec fn same_but_outbox(&self, other: &Core) -> bool {
        &&& self.slots() == other.slots()
        &&& self.worlds_spec() == other.worlds_spec()
        &&& self.requests_spec() == other.requests_spec()
        &&& self.readonly_spec() == other.readonly_spec()
        &&& self.threadsize_spec() == other.threadsize_spec()
    }

    /// Queues a packet; packets for the console are dropped.
    fn send(&mut self, to: usize, packet: OutgoingPacket)
        ensures
            final(self).same_but_outbox(old(self)),
            final(self).sent_spec() == if to != CONSOLE_UID {
                old(self).sent_spec().push((to, packet.bytes()))
            } else {
                old(self).sent_spec()
            },
    {
        if to != CONSOLE_UID {
            let ghost pb = packet.bytes();
            self.outbox.push(Outgoing { to, packet });
            assert(self.sent_spec() =~= old(self).sent_spec().push((to, pb)));
        }
    }

    /// Queues a chat line for a player; the console's goes to the server log.
    pub fn send_message(&mut self, to: usize, text: &str)
        ensures
            final(self).same_but_outbox(old(self)),
            final(self).sent_spec() == old(self).sent_spec().push((to, msg_bytes(text@))),
    {
        let packet = OutgoingPacket::Message(Message::new(0, text.to_owned()));
        assert(packet.bytes() =~= msg_bytes(text@));
        self.outbox.push(Outgoing { to, packet });
        assert(self.sent_spec() =~= old(self).sent_spec().push((to, msg_bytes(text@))));
    }

    /// Sends a chat line to every registered player but the sender.
    pub fn broadcast_message(&mut self, sender: usize, text: &str)
        requires
            old(self).slots().len() == MAX_PLAYERS,
        ensures
            final(self).same_but_outbox(old(self)),
            final(self).sent_spec() == old(self).sent_spec()
                + broadcast_sent(old(self).slots(), sender, text@, MAX_PLAYERS as int),
    {
        let mut i: usize = 0;
        while i < MAX_PLAYERS
            invariant
                i <= MAX_PLAYERS,
                self.same_but_outbox(old(self)),
                self.players@.len() == MAX_PLAYERS,
                self.sent_spec() == old(self).sent_spec() + broadcast_sent(old(self).slots(), sender, text@, i as int),
            decreases MAX_PLAYERS - i,
        {
            if i != sender && self.players[i].is_some() {
                self.send_message(i, text);
                assert(old(self).sent_spec() + broadcast_sent(old(self).slots(), sender, text@, i + 1)
                    =~= old(self).sent_spec() + broadcast_sent(old(self).slots(), sender, text@, i as int).push((i, msg_bytes(text@))));
            }
            i = i + 1;
        }
    }

    /// Registers a new connection under the smallest free id in 1..=126;
    /// `None` when every one is taken.
    pub fn add_network_player(&mut self) -> (r: Option<usize>)
        requires
            old(self).wf(),
        ensures
            final(self).wf(),
            r == first_free(old(self).slots()),
            final(self).worlds_spec() == old(self).worlds_spec(),
            final(self).outbox_spec() == old(self).outbox_spec(),
            final(self).requests_spec() == old(self).requests_spec(),
            final(self).readonly_spec() == old(self).readonly_spec(),
            match r {
                Some(i) => {
                    &&& final(self).live(i as int)
                    &&& final(self).player(i as int) == PlayerView {
                        uid: i,
                        name: "Uninitialized Player"@,
                        display_name: "Uninitialized Player"@,
                        world: Seq::<char>::empty(),
                        transform: Transform::default_spec(),
                        console: false,
                    }
                    &&& forall|u: int| 0 <= u < MAX_PLAYERS && u != i ==> #[trigger] final(self).slots()[u] == old(self).slots()[u]
                    &&& final(self).slots().len() == MAX_PLAYERS
                },
                None => final(self).slots() == old(self).slots(),
            },
    {
        let mut i: usize = 1;
        while i <= MAX_NETWORK_UID
            invariant
                1 <= i <= MAX_NETWORK_UID + 1,
                *self == *old(self),
                self.wf(),
                forall|j: int| 1 <= j < i ==> self.slots()[j] is Some,
            decreases MAX_NETWORK_UID + 1 - i,
        {
            if self.players[i].is_none() {
                proof {
                    let c = choose|c: usize| 1 <= c <= MAX_NETWORK_UID && self.slots()[c as int] is None
                        && forall|j: int| 1 <= j < c ==> self.slots()[j] is Some;
                    assert(1 <= i <= MAX_NETWORK_UID && self.slots()[i as int] is None
                        && forall|j: int| 1 <= j < i ==> self.slots()[j] is Some);
                    if c < i {
                        assert(self.slots()[c as int] is Some);
                    }
                    if c > i {
                        assert(self.slots()[i as int] is Some);
                    }
                    assert(first_free(self.slots()) == Some(i));
                }
                let ghost before = *self;
                self.players.set(i, Some(Player::new_network(i)));
                proof {
                    assert forall|u: int| 0 <= u < MAX_PLAYERS && u != i implies #[trigger] self.slots()[u] == before.slots()[u] by {}
                    assert forall|w: int, u: usize| 0 <= w < self.world_count() implies
                        (#[trigger] self.worlds_spec()[w].players_spec().contains(u)
                            <==> (self.live(u as int) && self.player(u as int).world == self.worlds_spec()[w].name_spec())) by {
                        assert(before.worlds_spec()[w].players_spec().contains(u)
                            <==> (before.live(u as int) && before.player(u as int).world == before.worlds_spec()[w].name_spec()));
                        assert(self.worlds_spec()[w].name_spec().len() > 0);
                    }
                    assert forall|u: int| #[trigger] self.live(u) && self.player(u).world.len() > 0
                        implies self.world_named(self.player(u).world) is Some by {
                        assert(before.live(u));
                    }
                    assert forall|u: int| 1 <= u < MAX_PLAYERS && #[trigger] self.slots()[u] is Some
                        implies self.player(u).uid == u && !self.player(u).console by {
                        if u != i {
                            assert(before.slots()[u] is Some);
                        }
                    }
                }
                return Some(i);
            }
            i = i + 1;
        }
        assert(!exists|j: int| 1 <= j <= MAX_NETWORK_UID && self.slots()[j] is None);
        None
    }

    /// The world that player `uid` is in, if any.
    pub open spec fn world_of(&self, uid: int) -> Option<int> {
        self.world_named(self.player(uid).world)
    }

    /// Whether moving `uid` to world `dest` takes it out of another world.
    pub open spec fn leaves_world(&self, uid: int, dest: int) -> bool {
        self.world_of(uid) is Some && self.world_of(uid)->0 != dest
    }

    /// Worlds after moving player `uid` from `old` into world `dest`.
    pub open spec fn moved_worlds(&self, old: &Core, uid: usize, dest: int) -> bool {
        &&& self.world_count() == old.world_count()
        &&& forall|i: int| 0 <= i < old.world_count() ==> {
            &&& (#[trigger] self.worlds_spec()[i]).name_spec() == old.worlds_spec()[i].name_spec()
            &&& self.worlds_spec()[i].map_spec() == old.worlds_spec()[i].map_spec()
            &&& self.worlds_spec()[i].spawn_spec() == old.worlds_spec()[i].spawn_spec()
            &&& self.worlds_spec()[i].players_spec() == if i == dest {
                with_member(old.worlds_spec()[i].players_spec(), uid)
            } else if old.leaves_world(uid as int, dest) && i == old.world_of(uid as int)->0 {
                without(old.worlds_spec()[i].players_spec(), uid)
            } else {
                old.worlds_spec()[i].players_spec()
            }
        }
        &&& self.requests_spec() == old.requests_spec()
        &&& self.readonly_spec() == old.readonly_spec()
        &&& self.threadsize_spec() == old.threadsize_spec()
    }

    /// Every slot but `uid`'s is as in `old`.
    pub open spec fn others_kept(&self, old: &Core, uid: usize) -> bool {
        &&& self.slots().len() == MAX_PLAYERS
        &&& forall|u: int| 0 <= u < MAX_PLAYERS && u != uid ==> #[trigger] self.slots()[u] == old.slots()[u]
    }

    /// State after moving player `uid` from `old` into world `dest`.
    pub open spec fn transferred(&self, old: &Core, uid: usize, dest: int) -> bool {
        &&& self.moved_worlds(old, uid, dest)
        &&& self.others_kept(old, uid)
        &&& self.live(uid as int)
        &&& self.player(uid as int) == (PlayerView { world: old.worlds_spec()[dest].name_spec(), ..old.player(uid as int) })
    }

    /// Packets of a transfer of `uid` into world `dest`, from this state.
    pub open spec fn transfer_sent(&self, uid: usize, dest: int) -> Seq<(usize, Seq<u8>)> {
        self.transfer_sent_named(uid, dest, self.player(uid as int).display_name)
    }

    /// Packets of a transfer of `uid`, shown to others as `name`, into world
    /// `dest`, from this state.
    pub open spec fn transfer_sent_named(&self, uid: usize, dest: int, name: Seq<char>) -> Seq<(usize, Seq<u8>)> {
        self.leave_sent(uid, dest) + arrive_sent(self.worlds_spec()[dest], self.slots(), uid, name)
    }

    /// Despawns that player `uid` leaving its world for `dest` causes.
    pub open spec fn leave_sent(&self, uid: usize, dest: int) -> Seq<(usize, Seq<u8>)> {
        if self.leaves_world(uid as int, dest) {
            fan_out(without(self.worlds_spec()[self.world_of(uid as int)->0].players_spec(), uid), uid, despawn_bytes(uid))
        } else {
            Seq::empty()
        }
    }

    /// Sends a copy of `packet` to each listed player but `skip` and the
    /// console, in list order.
    fn send_to_each(&mut self, ids: &Vec<usize>, skip: usize, packet: &OutgoingPacket)
        ensures
            final(self).same_but_outbox(old(self)),
            final(self).sent_spec() == old(self).sent_spec() + fan_out(ids@, skip, packet.bytes()),
    {
        let mut i: usize = 0;
        while i < ids.len()
            invariant
                i <= ids@.len(),
                self.same_but_outbox(old(self)),
                self.sent_spec() == old(self).sent_spec() + fan_out(ids@.take(i as int), skip, packet.bytes()),
            decreases ids@.len() - i,
        {
            let pid = ids[i];
            assert(ids@.take(i as int + 1).drop_last() =~= ids@.take(i as int));
            if pid != skip {
                self.send(pid, packet.duplicate());
            }
            i = i + 1;
            assert(self.sent_spec() =~= old(self).sent_spec() + fan_out(ids@.take(i as int), skip, packet.bytes()));
        }
        assert(ids@.take(i as int) =~= ids@);
    }

    proof fn lemma_world_named(&self, n: Seq<char>, i: int)
        requires
            self.worlds_wf(),
            0 <= i < self.world_count(),
            self.worlds_spec()[i].name_spec() == n,
        ensures
            self.world_named(n) == Some(i),
    {
        let j = self.world_named(n)->0;
        assert(self.worlds_spec()[j].name_spec() == self.worlds_spec()[i].name_spec());
    }

    /// Records the world a player is in.
    fn set_player_world(&mut self, uid: usize, world: String)
        requires
            old(self).slots().len() == MAX_PLAYERS,
            uid < MAX_PLAYERS,
            old(self).live(uid as int),
        ensures
            final(self).slots().len() == MAX_PLAYERS,
            final(self).live(uid as int),
            final(self).player(uid as int) == (PlayerView { world: world@, ..old(self).player(uid as int) }),
            forall|u: int| 0 <= u < MAX_PLAYERS && u != uid ==> #[trigger] final(self).slots()[u] == old(self).slots()[u],
            final(self).worlds_spec() == old(self).worlds_spec(),
            final(self).outbox_spec() == old(self).outbox_spec(),
            final(self).requests_spec() == old(self).requests_spec(),
            final(self).readonly_spec() == old(self).readonly_spec(),
            final(self).threadsize_spec() == old(self).threadsize_spec(),
    {
        let mut slot: Option<Player> = None;
        std::mem::swap(&mut slot, &mut self.players[uid]);
        let mut p = slot.unwrap();
        p.world = world;
        self.players.set(uid, Some(p));
    }

    proof fn lemma_wf_frame(&self, other: &Core)
        requires
            other.wf(),
            self.slots() == other.slots(),
            self.worlds_spec() == other.worlds_spec(),
        ensures
            self.wf(),
    {
        assert forall|u: int| #[trigger] self.live(u) && self.player(u).world.len() > 0
            implies self.world_named(self.player(u).world) is Some by {
            assert(other.live(u));
            let j = other.world_named(other.player(u).world)->0;
            assert(self.worlds_spec()[j].name_spec() == self.player(u).world);
        }
    }

    /// Takes player `uid` out of its current world, unless that is `dest`;
    /// the remaining members see it despawn.
    fn leave_world(&mut self, uid: usize, dest: usize)
        requires
            old(self).wf(),
            1 <= uid < MAX_PLAYERS,
            old(self).live(uid as int),
            dest < old(self).world_count(),
        ensures
            final(self).slots() == old(self).slots(),
            final(self).world_count() == old(self).world_count(),
            forall|i: int| 0 <= i < old(self).world_count() ==> {
                &&& (#[trigger] final(self).worlds_spec()[i]).name_spec() == old(self).worlds_spec()[i].name_spec()
                &&& final(self).worlds_spec()[i].map_spec() == old(self).worlds_spec()[i].map_spec()
                &&& final(self).worlds_spec()[i].spawn_spec() == old(self).worlds_spec()[i].spawn_spec()
                &&& final(self).worlds_spec()[i].wf()
                &&& final(self).worlds_spec()[i].players_spec() == if old(self).leaves_world(uid as int, dest as int)
                    && i == old(self).world_of(uid as int)->0 {
                    without(old(self).worlds_spec()[i].players_spec(), uid)
                } else {
                    old(self).worlds_spec()[i].players_spec()
                }
            },
            final(self).requests_spec() == old(self).requests_spec(),
            final(self).readonly_spec() == old(self).readonly_spec(),
            final(self).threadsize_spec() == old(self).threadsize_spec(),
            final(self).sent_spec() == old(self).sent_spec() + (if old(self).leaves_world(uid as int, dest as int) {
                fan_out(without(old(self).worlds_spec()[old(self).world_of(uid as int)->0].players_spec(), uid), uid, despawn_bytes(uid))
            } else {
                Seq::<(usize, Seq<u8>)>::empty()
            }),
    {
        let ghost o = *self;
        let cur = match &self.players[uid] {
            Some(p) => self.find_world(p.get_world()),
            None => None,
        };
        assert(cur == match o.world_of(uid as int) { Some(i) => Some(i as usize), None => None::<usize> });
        if let Some(src) = cur {
            if src != dest {
                self.worlds[src].remove_player(uid);
                let others = copy_vec(self.worlds[src].get_players());
                let packet = OutgoingPacket::DespawnPlayer(DespawnPlayer::new(uid as i8));
                assert(packet.bytes() =~= despawn_bytes(uid));
                self.send_to_each(&others, uid, &packet);
            }
        }
        assert(self.sent_spec() =~= o.sent_spec() + (if o.leaves_world(uid as int, dest as int) {
            fan_out(without(o.worlds_spec()[o.world_of(uid as int)->0].players_spec(), uid), uid, despawn_bytes(uid))
        } else {
            Seq::<(usize, Seq<u8>)>::empty()
        }));
    }

    /// Sends world `dest`'s compressed level to player `uid`.
    fn stream_level(&mut self, uid: usize, dest: usize)
        requires
            uid != CONSOLE_UID,
            dest < old(self).world_count(),
        ensures
            final(self).same_but_outbox(old(self)),
            final(self).sent_spec() == old(self).sent_spec() + to_one(
                uid,
                level_stream(
                    gzip_of(map_payload(old(self).worlds_spec()[dest as int].blocks())),
                    old(self).worlds_spec()[dest as int].size_spec(),
                ),
            ),
    {
        let compressed = compress_map(self.worlds[dest].get_chunks());
        let size = *self.worlds[dest].get_size();
        let mut packets = level_transfer_packets(&compressed, size);
        let ghost stream = level_stream(compressed@, size);
        let ghost base = self.sent_spec();
        let ghost all = packets@;
        let total = packets.len();
        let mut k: usize = 0;
        while packets.len() > 0
            invariant
                self.same_but_outbox(old(self)),
                uid != CONSOLE_UID,
                total == all.len(),
                k + packets@.len() == all.len(),
                packets@ == all.skip(k as int),
                all.len() == stream.len(),
                forall|j: int| 0 <= j < all.len() ==> #[trigger] all[j].bytes() == stream[j],
                self.sent_spec() == base + to_one(uid, stream.take(k as int)),
            decreases packets@.len(),
        {
            let packet = packets.remove(0);
            assert(packet == all[k as int]);
            assert(all[k as int].bytes() == stream[k as int]);
            self.send(uid, packet);
            k = k + 1;
            assert(packets@ =~= all.skip(k as int));
            assert(self.sent_spec() =~= base + to_one(uid, stream.take(k as int)));
        }
        assert(stream.take(k as int) =~= stream);
    }

    /// Spawns player `uid` in world `dest`, which lists it, and introduces
    /// it and the other members to each other.
    fn spawn_in_world(&mut self, uid: usize, dest: usize)
        requires
            old(self).slots().len() == MAX_PLAYERS,
            1 <= uid < MAX_PLAYERS,
            old(self).live(uid as int),
            dest < old(self).world_count(),
        ensures
            final(self).same_but_outbox(old(self)),
            final(self).sent_spec() == old(self).sent_spec() + seq![(uid, spawn_bytes(
                -1i8,
                old(self).player(uid as int).display_name,
                old(self).worlds_spec()[dest as int].spawn_spec(),
            ))] + spawn_pairs(
                old(self).worlds_spec()[dest as int].players_spec(),
                old(self).slots(),
                uid,
                old(self).player(uid as int).display_name,
                old(self).worlds_spec()[dest as int].spawn_spec(),
            ),
    {
        let ghost o = *self;
        let t = Transform::new(
            self.worlds[dest].get_spawnarea(),
            self.worlds[dest].get_spawnyaw(),
            self.worlds[dest].get_spawnpitch(),
        );
        let display: String = match &self.players[uid] {
            Some(p) => p.display_name.clone(),
            None => String::new(),
        };
        let to_self = OutgoingPacket::SpawnPlayer(SpawnPlayer::new(-1, display.clone(), t));
        assert(to_self.bytes() =~= spawn_bytes(-1i8, display@, t));
        self.send(uid, to_self);
        let members = copy_vec(self.worlds[dest].get_players());
        let ghost base2 = self.sent_spec();
        let mut i: usize = 0;
        while i < members.len()
            invariant
                i <= members@.len(),
                1 <= uid < MAX_PLAYERS,
                self.same_but_outbox(&o),
                o.slots().len() == MAX_PLAYERS,
                self.sent_spec() == base2 + spawn_pairs(members@.take(i as int), o.slots(), uid, display@, t),
            decreases members@.len() - i,
        {
            let pid = members[i];
            assert(members@.take(i as int + 1).drop_last() =~= members@.take(i as int));
            if pid != uid && pid != CONSOLE_UID && pid < MAX_PLAYERS && self.players[pid].is_some() {
                let to_member = OutgoingPacket::SpawnPlayer(SpawnPlayer::new(uid as i8, display.clone(), t));
                assert(to_member.bytes() =~= spawn_bytes(uid as i8, display@, t));
                self.send(pid, to_member);
                let other: String = match &self.players[pid] {
                    Some(q) => q.display_name.clone(),
                    None => String::new(),
                };
                let to_newcomer = OutgoingPacket::SpawnPlayer(SpawnPlayer::new(pid as i8, other, t));
                assert(to_newcomer.bytes() =~= spawn_bytes(pid as i8, o.slots()[pid as int]->0.display_name@, t));
                self.send(uid, to_newcomer);
            }
            i = i + 1;
            assert(self.sent_spec() =~= base2 + spawn_pairs(members@.take(i as int), o.slots(), uid, display@, t));
        }
        assert(members@.take(i as int) =~= members@);
        assert(self.sent_spec() =~= o.sent_spec() + seq![(uid, spawn_bytes(-1i8, display@, t))]
            + spawn_pairs(members@, o.slots(), uid, display@, t));
    }

    /// Moves player `uid` into world `dest` and streams the world to it:
    /// leave the old world (its members see a despawn), join `dest`, send
    /// the compressed level, spawn the player at the world's spawn, and
    /// introduce it and the other members to each other.
    pub fn send_map(&mut self, uid: usize, dest: usize)
        requires
            old(self).wf(),
            1 <= uid < MAX_PLAYERS,
            old(self).live(uid as int),
            dest < old(self).world_count(),
        ensures
            final(self).wf(),
            final(self).transferred(old(self), uid, dest as int),
            final(self).sent_spec() == old(self).sent_spec() + old(self).transfer_sent(uid, dest as int),
    {
        let ghost o = *self;
        self.leave_world(uid, dest);
        let ghost left = *self;
        self.worlds[dest].add_player(uid);
        let name = self.worlds[dest].get_name().to_owned();
        self.set_player_world(uid, name);
        proof {
            self.lemma_after_move(&o, uid, dest as int);
        }
        let ghost moved = *self;
        assert(moved.moved_worlds(&o, uid, dest as int));
        assert(moved.transferred(&o, uid, dest as int));
        self.stream_level(uid, dest);
        let ghost streamed = *self;
        self.spawn_in_world(uid, dest);
        proof {
            self.lemma_wf_frame(&moved);
            assert forall|u: int| 0 <= u < MAX_PLAYERS && u != uid implies #[trigger] moved.slots()[u] == o.slots()[u] by {}
            lemma_spawn_pairs_frame(
                moved.worlds_spec()[dest as int].players_spec(),
                moved.slots(),
                o.slots(),
                uid,
                o.player(uid as int).display_name,
                o.worlds_spec()[dest as int].spawn_spec(),
            );
        }
        assert(self.sent_spec() =~= o.sent_spec() + o.transfer_sent(uid, dest as int));
    }

    proof fn lemma_after_move(&self, o: &Core, uid: usize, dest: int)
        requires
            o.wf(),
            1 <= uid < MAX_PLAYERS,
            o.live(uid as int),
            0 <= dest < o.world_count(),
            self.world_count() == o.world_count(),
            forall|i: int| 0 <= i < o.world_count() ==> {
                &&& (#[trigger] self.worlds_spec()[i]).name_spec() == o.worlds_spec()[i].name_spec()
                &&& self.worlds_spec()[i].map_spec() == o.worlds_spec()[i].map_spec()
                &&& self.worlds_spec()[i].spawn_spec() == o.worlds_spec()[i].spawn_spec()
                &&& self.worlds_spec()[i].players_spec() == if i == dest {
                    with_member(o.worlds_spec()[i].players_spec(), uid)
                } else if o.leaves_world(uid as int, dest) && i == o.world_of(uid as int)->0 {
                    without(o.worlds_spec()[i].players_spec(), uid)
                } else {
                    o.worlds_spec()[i].players_spec()
                }
            },
            self.slots().len() == MAX_PLAYERS,
            forall|u: int| 0 <= u < MAX_PLAYERS && u != uid ==> #[trigger] self.slots()[u] == o.slots()[u],
            self.live(uid as int),
            self.player(uid as int) == (PlayerView { world: o.worlds_spec()[dest].name_spec(), ..o.player(uid as int) }),
        ensures
            self.wf(),
    {
        let ws = self.worlds_spec();
        let ow = o.worlds_spec();
        assert(self.slots()[0] == o.slots()[0]);
        assert forall|u: int| 1 <= u < MAX_PLAYERS && #[trigger] self.slots()[u] is Some
            implies self.player(u).uid == u && !self.player(u).console by {
            if u != uid {
                assert(o.slots()[u] is Some);
            }
        }
        assert forall|i: int| 0 <= i < self.world_count()
            implies (#[trigger] ws[i]).wf() && ws[i].name_spec().len() > 0 by {
            assert(ow[i].wf());
            lemma_without(ow[i].players_spec(), uid);
            lemma_with_member(ow[i].players_spec(), uid);
        }
        assert forall|i: int, j: int| 0 <= i < self.world_count() && 0 <= j < self.world_count() && i != j
            implies #[trigger] ws[i].name_spec() != #[trigger] ws[j].name_spec() by {
            assert(ow[i].name_spec() != ow[j].name_spec());
        }
        assert(self.worlds_wf());
        assert forall|i: int, u: usize| 0 <= i < self.world_count() implies
            (#[trigger] ws[i].players_spec().contains(u)
                <==> (self.live(u as int) && self.player(u as int).world == ws[i].name_spec())) by {
            let ol = ow[i].players_spec();
            assert(ol.contains(u) <==> (o.live(u as int) && o.player(u as int).world == ow[i].name_spec()));
            lemma_without(ol, uid);
            lemma_with_member(ol, uid);
            if u < MAX_PLAYERS && u != uid {
                assert(self.slots()[u as int] == o.slots()[u as int]);
            }
            if i != dest {
                assert(ow[i].name_spec() != ow[dest].name_spec());
                if ol.contains(uid) {
                    o.lemma_world_named(ow[i].name_spec(), i);
                }
            }
        }
        assert forall|u: int| #[trigger] self.live(u) && self.player(u).world.len() > 0
            implies self.world_named(self.player(u).world) is Some by {
            if u == uid {
                assert(ws[dest].name_spec() == self.player(u).world);
            } else {
                assert(o.slots()[u] == self.slots()[u]);
                assert(o.live(u));
                let j = o.world_named(o.player(u).world)->0;
                assert(ws[j].name_spec() == self.player(u).world);
            }
        }
    }

    /// The invariant holds again after a change that keeps every world's
    /// name and members and every registry entry's id, kind and world.
    proof fn lemma_frame(&self, other: &Core)
        requires
            other.wf(),
            self.slots().len() == MAX_PLAYERS,
            self.world_count() == other.world_count(),
            forall|i: int| 0 <= i < other.world_count() ==> {
                &&& (#[trigger] self.worlds_spec()[i]).name_spec() == other.worlds_spec()[i].name_spec()
                &&& self.worlds_spec()[i].players_spec() == other.worlds_spec()[i].players_spec()
                &&& self.worlds_spec()[i].wf()
            },
            forall|u: int| 0 <= u < MAX_PLAYERS ==> (#[trigger] self.slots()[u] is Some) == other.slots()[u] is Some,
            forall|u: int| 0 <= u < MAX_PLAYERS && #[trigger] self.slots()[u] is Some ==> {
                &&& self.player(u).uid == other.player(u).uid
                &&& self.player(u).console == other.player(u).console
                &&& self.player(u).world == other.player(u).world
            },
        ensures
            self.wf(),
    {
        assert(self.slots()[0] is Some);
        assert forall|u: int| 1 <= u < MAX_PLAYERS && #[trigger] self.slots()[u] is Some
            implies self.player(u).uid == u && !self.player(u).console by {
            assert(other.slots()[u] is Some);
        }
        assert forall|i: int, j: int| 0 <= i < self.world_count() && 0 <= j < self.world_count() && i != j
            implies #[trigger] self.worlds_spec()[i].name_spec() != #[trigger] self.worlds_spec()[j].name_spec() by {
            assert(other.worlds_spec()[i].name_spec() != other.worlds_spec()[j].name_spec());
        }
        assert forall|i: int, u: usize| 0 <= i < self.world_count() implies
            (#[trigger] self.worlds_spec()[i].players_spec().contains(u)
                <==> (self.live(u as int) && self.player(u as int).world == self.worlds_spec()[i].name_spec())) by {
            assert(other.worlds_spec()[i].players_spec().contains(u)
                <==> (other.live(u as int) && other.player(u as int).world == other.worlds_spec()[i].name_spec()));
            if u < MAX_PLAYERS {
                assert((self.slots()[u as int] is Some) == other.slots()[u as int] is Some);
            }
        }
        assert forall|u: int| #[trigger] self.live(u) && self.player(u).world.len() > 0
            implies self.world_named(self.player(u).world) is Some by {
            assert(other.live(u));
            let j = other.world_named(other.player(u).world)->0;
            assert(self.worlds_spec()[j].name_spec() == self.player(u).world);
        }
    }

    /// Records where a player stands.
    fn set_player_transform(&mut self, uid: usize, t: Transform)
        requires
            old(self).slots().len() == MAX_PLAYERS,
            uid < MAX_PLAYERS,
            old(self).live(uid as int),
        ensures
            final(self).slots().len() == MAX_PLAYERS,
            final(self).live(uid as int),
            final(self).player(uid as int) == (PlayerView { transform: t, ..old(self).player(uid as int) }),
            forall|u: int| 0 <= u < MAX_PLAYERS && u != uid ==> #[trigger] final(self).slots()[u] == old(self).slots()[u],
            final(self).worlds_spec() == old(self).worlds_spec(),
            final(self).outbox_spec() == old(self).outbox_spec(),
            final(self).requests_spec() == old(self).requests_spec(),
            final(self).readonly_spec() == old(self).readonly_spec(),
            final(self).threadsize_spec() == old(self).threadsize_spec(),
    {
        let mut slot: Option<Player> = None;
        std::mem::swap(&mut slot, &mut self.players[uid]);
        let mut p = slot.unwrap();
        p.transform = t;
        self.players.set(uid, Some(p));
    }

    /// World whose block at `pos` an edit by `s` addresses: the sender is a
    /// registered client inside a loaded world and `pos` lies in it.
    pub open spec fn block_target(&self, s: usize, pos: Vec3D) -> Option<int> {
        if 1 <= s < MAX_PLAYERS && self.live(s as int) && self.world_of(s as int) is Some
            && in_bounds(self.worlds_spec()[self.world_of(s as int)->0].size_spec(), pos) {
            self.world_of(s as int)
        } else {
            None
        }
    }

    /// A client places or destroys a block. With the read-only hook
    /// installed the edit is refused with a notice; otherwise the block is
    /// written and the other members of the world are told. Either way the
    /// sender gets the block that now stands there.
    pub fn handle_set_block(&mut self, packet: &PlayerSetBlock)
        requires
            old(self).wf(),
        ensures
            final(self).wf(),
            final(self).set_block_done(old(self), packet),
    {
        let s = packet.sender;
        if s == CONSOLE_UID || s >= MAX_PLAYERS {
            return;
        }
        let found = match &self.players[s] {
            Some(p) => self.find_world(p.get_world()),
            None => None,
        };
        let wi = match found {
            Some(i) => i,
            None => {
                return;
            },
        };
        let pos = packet.position;
        if !position_in_bounds(self.worlds[wi].get_size(), &pos) {
            return;
        }
        let ghost o = *self;
        assert(o.block_target(s, pos) == Some(wi as int));
        let destroy = packet.mode == 0;
        if self.readonly {
            self.send_message(s, "&8Server is on read-only state.");
        } else {
            self.worlds[wi].set_block(&pos, packet.block, destroy);
            proof {
                assert forall|i: int| 0 <= i < o.world_count() implies
                    (#[trigger] self.worlds_spec()[i]).name_spec() == o.worlds_spec()[i].name_spec()
                    && self.worlds_spec()[i].players_spec() == o.worlds_spec()[i].players_spec()
                    && self.worlds_spec()[i].wf() by {
                    assert(o.worlds_spec()[i].wf());
                }
                self.lemma_frame(&o);
            }
            let ghost edited = *self;
            let sending = self.worlds[wi].get_block(&pos);
            proof {
                lemma_index_in_volume(o.worlds_spec()[wi as int].size_spec(), pos);
            }
            assert(sending == (if packet.mode == 0 { 0u8 } else { packet.block }));
            let others = copy_vec(self.worlds[wi].get_players());
            let packet_out = OutgoingPacket::SetBlock(ServerSetBlock::new(pos, sending));
            assert(packet_out.bytes() =~= setblock_bytes(pos, sending));
            self.send_to_each(&others, s, &packet_out);
            proof {
                self.lemma_wf_frame(&edited);
            }
        }
        proof {
            if o.readonly {
                self.lemma_wf_frame(&o);
            }
        }
        let current = self.worlds[wi].get_block(&pos);
        let echo = OutgoingPacket::SetBlock(ServerSetBlock::new(pos, current));
        assert(echo.bytes() =~= setblock_bytes(pos, current));
        let ghost before_echo = *self;
        self.send(s, echo);
        proof {
            self.lemma_wf_frame(&before_echo);
        }
        proof {
            if !o.readonly {
                assert forall|i: int| 0 <= i < o.world_count() && i != wi implies
                    #[trigger] self.worlds_spec()[i] == o.worlds_spec()[i] by {}
                let w = wi as int;
                let world = o.worlds_spec()[w];
                let idx = index_of(world.size_spec(), pos);
                let nb: u8 = if packet.mode == 0 { 0u8 } else { packet.block };
                assert(self.slots() == o.slots());
                assert(self.requests_spec() == o.requests_spec());
                assert(self.world_count() == o.world_count());
                assert(self.worlds_spec()[w].name_spec() == world.name_spec());
                assert(self.worlds_spec()[w].players_spec() == world.players_spec());
                assert(self.worlds_spec()[w].spawn_spec() == world.spawn_spec());
                assert(self.worlds_spec()[w].size_spec() == world.size_spec());
                assert(self.worlds_spec()[w].blocks() == world.blocks().update(idx, nb));
                assert(self.sent_spec() == o.sent_spec() + fan_out(world.players_spec(), s, setblock_bytes(pos, nb))
                    + seq![(s, setblock_bytes(pos, nb))]);
            }
            if o.readonly {
                assert(self.sent_spec() =~= o.sent_spec() + seq![
                    (s, msg_bytes("&8Server is on read-only state."@)),
                    (s, setblock_bytes(pos, current)),
                ]);
            }
        }
    }

    /// A client moved: its transform is stored and the other members of
    /// its world are told.
    pub fn handle_position(&mut self, packet: &PlayerPositionAndOrientation)
        requires
            old(self).wf(),
        ensures
            final(self).wf(),
            final(self).position_done(old(self), packet),
    {
        let s = packet.sender;
        if s == CONSOLE_UID || s >= MAX_PLAYERS || self.players[s].is_none() {
            return;
        }
        let ghost o = *self;
        let t = Transform::new(Vec3D::new(packet.x, packet.y, packet.z), packet.yaw, packet.pitch);
        self.set_player_transform(s, t);
        proof {
            self.lemma_frame(&o);
        }
        let found = match &self.players[s] {
            Some(p) => self.find_world(p.get_world()),
            None => None,
        };
        assert(self.player(s as int).world == o.player(s as int).world);
        let ghost moved = *self;
        if let Some(wi) = found {
            let others = copy_vec(self.worlds[wi].get_players());
            let packet_out = OutgoingPacket::Position(ServerPositionAndOrientation::new(s as i8, t));
            assert(packet_out.bytes() =~= position_bytes(s as i8, t));
            self.send_to_each(&others, s, &packet_out);
            proof {
                self.lemma_wf_frame(&moved);
            }
        } else {
            assert(self.sent_spec() =~= o.sent_spec() + Seq::<(usize, Seq<u8>)>::empty());
        }
    }

    proof fn lemma_after_leave(&self, o: &Core, s: usize)
        requires
            o.wf(),
            1 <= s < MAX_PLAYERS,
            o.live(s as int),
            self.world_count() == o.world_count(),
            forall|i: int| 0 <= i < o.world_count() ==> {
                &&& (#[trigger] self.worlds_spec()[i]).name_spec() == o.worlds_spec()[i].name_spec()
                &&& self.worlds_spec()[i].wf()
                &&& self.worlds_spec()[i].players_spec() == if o.world_of(s as int) == Some(i) {
                    without(o.worlds_spec()[i].players_spec(), s)
                } else {
                    o.worlds_spec()[i].players_spec()
                }
            },
            self.slots().len() == MAX_PLAYERS,
            self.slots()[s as int] is None,
            forall|u: int| 0 <= u < MAX_PLAYERS && u != s ==> #[trigger] self.slots()[u] == o.slots()[u],
        ensures
            self.wf(),
    {
        let ws = self.worlds_spec();
        let ow = o.worlds_spec();
        assert(self.slots()[0] == o.slots()[0]);
        assert forall|u: int| 1 <= u < MAX_PLAYERS && #[trigger] self.slots()[u] is Some
            implies self.player(u).uid == u && !self.player(u).console by {
            assert(o.slots()[u] is Some);
        }
        assert forall|i: int, j: int| 0 <= i < self.world_count() && 0 <= j < self.world_count() && i != j
            implies #[trigger] ws[i].name_spec() != #[trigger] ws[j].name_spec() by {
            assert(ow[i].name_spec() != ow[j].name_spec());
        }
        assert forall|i: int, u: usize| 0 <= i < self.world_count() implies
            (#[trigger] ws[i].players_spec().contains(u)
                <==> (self.live(u as int) && self.player(u as int).world == ws[i].name_spec())) by {
            let ol = ow[i].players_spec();
            assert(ol.contains(u) <==> (o.live(u as int) && o.player(u as int).world == ow[i].name_spec()));
            lemma_without(ol, s);
            if u < MAX_PLAYERS && u != s {
                assert(self.slots()[u as int] == o.slots()[u as int]);
            }
            if ol.contains(s) {
                o.lemma_world_named(ow[i].name_spec(), i);
            }
        }
        assert forall|u: int| #[trigger] self.live(u) && self.player(u).world.len() > 0
            implies self.world_named(self.player(u).world) is Some by {
            assert(o.slots()[u] == self.slots()[u]);
            assert(o.live(u));
            let j = o.world_named(o.player(u).world)->0;
            assert(ws[j].name_spec() == self.player(u).world);
        }
    }

    /// A client's connection ended: the other members of its world see it
    /// despawn, it leaves the world, everyone is told, and its entry is
    /// removed.
    pub fn handle_disconnect(&mut self, packet: &DisconnectPlayer)
        requires
            old(self).wf(),
        ensures
            final(self).wf(),
            final(self).disconnect_done(old(self), packet),
    {
        let s = packet.sender;
        if s == CONSOLE_UID || s >= MAX_PLAYERS || self.players[s].is_none() {
            return;
        }
        let ghost o = *self;
        let found = match &self.players[s] {
            Some(p) => self.find_world(p.get_world()),
            None => None,
        };
        if let Some(wi) = found {
            let others = copy_vec(self.worlds[wi].get_players());
            let packet_out = OutgoingPacket::DespawnPlayer(DespawnPlayer::new(s as i8));
            assert(packet_out.bytes() =~= despawn_bytes(s));
            self.send_to_each(&others, s, &packet_out);
            self.worlds[wi].remove_player(s);
        } else {
            assert(self.sent_spec() =~= o.sent_spec() + Seq::<(usize, Seq<u8>)>::empty());
        }
        let ghost despawned = self.sent_spec();
        let mut text: String = match &self.players[s] {
            Some(p) => p.display_name.clone(),
            None => String::new(),
        };
        text.append(" &6has left the server.");
        assert(self.slots() == o.slots());
        self.broadcast_message(s, text.as_str());
        self.players.set(s, None);
        proof {
            assert forall|i: int| 0 <= i < o.world_count() implies
                (#[trigger] self.worlds_spec()[i]).name_spec() == o.worlds_spec()[i].name_spec()
                && self.worlds_spec()[i].wf()
                && self.worlds_spec()[i].players_spec() == if o.world_of(s as int) == Some(i) {
                    without(o.worlds_spec()[i].players_spec(), s)
                } else {
                    o.worlds_spec()[i].players_spec()
                } by {
                assert(o.worlds_spec()[i].wf());
            }
            self.lemma_after_leave(&o, s);
        }
    }

    /// A client identified itself: it takes the account name, is shown as
    /// "&7<name>", gets the server's identification, everyone hears that
    /// it joined, and it is moved into "main".
    pub fn handle_identification(&mut self, packet: &PlayerIdentification)
        requires
            old(self).wf(),
        ensures
            final(self).wf(),
            final(self).identification_done(old(self), packet),
    {
        let s = packet.sender;
        if s == CONSOLE_UID || s >= MAX_PLAYERS || self.players[s].is_none() {
            return;
        }
        let ghost o = *self;
        let mut display = String::from_str("&7");
        display.append(packet.username.as_str());
        let mut slot: Option<Player> = None;
        std::mem::swap(&mut slot, &mut self.players[s]);
        let mut p = slot.unwrap();
        p.name = packet.username.clone();
        p.display_name = display.clone();
        self.players.set(s, Some(p));
        proof {
            assert forall|i: int| 0 <= i < o.world_count() implies
                (#[trigger] self.worlds_spec()[i]).name_spec() == o.worlds_spec()[i].name_spec()
                && self.worlds_spec()[i].players_spec() == o.worlds_spec()[i].players_spec()
                && self.worlds_spec()[i].wf() by {
                assert(o.worlds_spec()[i].wf());
            }
            self.lemma_frame(&o);
        }
        let ghost named = *self;
        let reply = OutgoingPacket::Identification(ServerIdentification::new(
            PROTOCOL_VERSION,
            String::from_str(SERVER_NAME),
            String::from_str(SERVER_MOTD),
            0,
        ));
        assert(reply.bytes() =~= identification_bytes());
        self.send(s, reply);
        let mut welcome = display.clone();
        welcome.append(" &6has joined the server!");
        self.broadcast_message(s, welcome.as_str());
        proof {
            self.lemma_wf_frame(&named);
        }
        let ghost announced = *self;
        proof {
            reveal_strlit("main");
        }
        self.send_map(s, 0);
        proof {
            assert forall|u: int| 0 <= u < MAX_PLAYERS && u != s implies #[trigger] named.slots()[u] == o.slots()[u] by {}
            lemma_spawn_pairs_frame(
                with_member(o.worlds_spec()[0].players_spec(), s),
                named.slots(),
                o.slots(),
                s,
                display@,
                o.worlds_spec()[0].spawn_spec(),
            );
            assert(broadcast_sent(named.slots(), s, welcome@, MAX_PLAYERS as int)
                == broadcast_sent(o.slots(), s, welcome@, MAX_PLAYERS as int)) by {
                lemma_broadcast_frame(named.slots(), o.slots(), s, welcome@, MAX_PLAYERS as int);
            }
            assert(announced.transfer_sent(s, 0) == o.transfer_sent_named(s, 0, display@));
        }
        assert(self.sent_spec() =~= o.sent_spec() + seq![(s, identification_bytes())]
            + broadcast_sent(o.slots(), s, welcome@, MAX_PLAYERS as int)
            + o.transfer_sent_named(s, 0, display@));
    }

    /// Outcome of `handle_set_block` from state `old`.
    pub open spec fn set_block_done(&self, old: &Core, packet: &PlayerSetBlock) -> bool {
            let s = packet.sender;
            let pos = packet.position;
            match old.block_target(s, pos) {
                None => self.same_but_outbox(old) && self.sent_spec() == old.sent_spec(),
                Some(w) => {
                    let world = old.worlds_spec()[w];
                    let idx = index_of(world.size_spec(), pos);
                    let nb: u8 = if packet.mode == 0 { 0u8 } else { packet.block };
                    if old.readonly_spec() {
                        &&& self.same_but_outbox(old)
                        &&& self.sent_spec() == old.sent_spec() + seq![
                            (s, msg_bytes("&8Server is on read-only state."@)),
                            (s, setblock_bytes(pos, world.blocks()[idx])),
                        ]
                    } else {
                        &&& self.slots() == old.slots()
                        &&& self.requests_spec() == old.requests_spec()
                        &&& self.readonly_spec() == old.readonly_spec()
                        &&& self.world_count() == old.world_count()
                        &&& forall|i: int| 0 <= i < old.world_count() && i != w
                            ==> #[trigger] self.worlds_spec()[i] == old.worlds_spec()[i]
                        &&& self.worlds_spec()[w].name_spec() == world.name_spec()
                        &&& self.worlds_spec()[w].players_spec() == world.players_spec()
                        &&& self.worlds_spec()[w].spawn_spec() == world.spawn_spec()
                        &&& self.worlds_spec()[w].size_spec() == world.size_spec()
                        &&& self.worlds_spec()[w].blocks() == world.blocks().update(idx, nb)
                        &&& self.sent_spec() == old.sent_spec()
                            + fan_out(world.players_spec(), s, setblock_bytes(pos, nb))
                            + seq![(s, setblock_bytes(pos, nb))]
                    }
                },
            }
        }

    /// Outcome of `handle_position` from state `old`.
    pub open spec fn position_done(&self, old: &Core, packet: &PlayerPositionAndOrientation) -> bool {
            let s = packet.sender;
            let t = Transform { position: Vec3D(packet.x, packet.y, packet.z), yaw: packet.yaw, pitch: packet.pitch };
            if 1 <= s < MAX_PLAYERS && old.live(s as int) {
                &&& self.worlds_spec() == old.worlds_spec()
                &&& self.requests_spec() == old.requests_spec()
                &&& self.readonly_spec() == old.readonly_spec()
                &&& self.slots().len() == MAX_PLAYERS
                &&& forall|u: int| 0 <= u < MAX_PLAYERS && u != s ==> #[trigger] self.slots()[u] == old.slots()[u]
                &&& self.live(s as int)
                &&& self.player(s as int) == (PlayerView { transform: t, ..old.player(s as int) })
                &&& self.sent_spec() == old.sent_spec() + match old.world_of(s as int) {
                    Some(w) => fan_out(old.worlds_spec()[w].players_spec(), s, position_bytes(s as i8, t)),
                    None => Seq::<(usize, Seq<u8>)>::empty(),
                }
            } else {
                self.same_but_outbox(old) && self.sent_spec() == old.sent_spec()
            }
        }

    /// Outcome of `handle_disconnect` from state `old`.
    pub open spec fn disconnect_done(&self, old: &Core, packet: &DisconnectPlayer) -> bool {
            let s = packet.sender;
            if 1 <= s < MAX_PLAYERS && old.live(s as int) {
                &&& !self.live(s as int)
                &&& self.others_kept(old, s)
                &&& self.world_count() == old.world_count()
                &&& forall|i: int| 0 <= i < old.world_count() ==> {
                    &&& (#[trigger] self.worlds_spec()[i]).name_spec() == old.worlds_spec()[i].name_spec()
                    &&& self.worlds_spec()[i].map_spec() == old.worlds_spec()[i].map_spec()
                    &&& self.worlds_spec()[i].spawn_spec() == old.worlds_spec()[i].spawn_spec()
                    &&& self.worlds_spec()[i].players_spec() == if old.world_of(s as int) == Some(i) {
                        without(old.worlds_spec()[i].players_spec(), s)
                    } else {
                        old.worlds_spec()[i].players_spec()
                    }
                }
                &&& self.requests_spec() == old.requests_spec()
                &&& self.readonly_spec() == old.readonly_spec()
                &&& self.sent_spec() == old.sent_spec() + match old.world_of(s as int) {
                    Some(w) => fan_out(old.worlds_spec()[w].players_spec(), s, despawn_bytes(s)),
                    None => Seq::<(usize, Seq<u8>)>::empty(),
                } + broadcast_sent(
                    old.slots(),
                    s,
                    old.player(s as int).display_name + " &6has left the server."@,
                    MAX_PLAYERS as int,
                )
            } else {
                self.same_but_outbox(old) && self.sent_spec() == old.sent_spec()
            }
        }

    /// Outcome of `handle_identification` from state `old`.
    pub open spec fn identification_done(&self, old: &Core, packet: &PlayerIdentification) -> bool {
            let s = packet.sender;
            let display = "&7"@ + packet.username@;
            if 1 <= s < MAX_PLAYERS && old.live(s as int) {
                &&& self.moved_worlds(old, s, 0)
                &&& self.others_kept(old, s)
                &&& self.live(s as int)
                &&& self.player(s as int) == (PlayerView {
                    name: packet.username@,
                    display_name: display,
                    world: "main"@,
                    ..old.player(s as int)
                })
                &&& self.sent_spec() == old.sent_spec() + seq![(s, identification_bytes())]
                    + broadcast_sent(old.slots(), s, display + " &6has joined the server!"@, MAX_PLAYERS as int)
                    + old.transfer_sent_named(s, 0, display)
            } else {
                self.same_but_outbox(old) && self.sent_spec() == old.sent_spec()
            }
        }

    /// Outcome of `handle_message` from state `old`.
    pub open spec fn message_done(&self, old: &Core, packet: &PlayerMessage) -> bool {
            let s = packet.sender;
            let mb = encode_utf8(packet.message@);
            let lowered = lower_seq(mb);
            if 1 <= s < MAX_PLAYERS && old.live(s as int) {
                match command_of(mb) {
                    Command::Chat => self.same_but_outbox(old)
                        && self.sent_spec() == old.sent_spec() + broadcast_sent(
                            old.slots(),
                            s,
                            old.player(s as int).display_name + ": &f"@ + packet.message@,
                            MAX_PLAYERS as int,
                        ),
                    Command::Help => self.same_but_outbox(old)
                        && self.sent_spec() == old.sent_spec() + help_sent(s),
                    Command::Main => self.joined(old, s, "main"@),
                    Command::Join => self.joined(old, s, decode_text(last_word(lowered))),
                    Command::Teleport => match first_match(old.slots(), s, rest_words(lowered), 0) {
                        Some(f) => self.teleported(old, s, f),
                        None => self.same_but_outbox(old)
                            && self.sent_spec() == old.sent_spec().push(
                                (s, msg_bytes(no_player_text(decode_text(rest_words(lowered))))),
                            ),
                    },
                    Command::Worlds => self.same_but_outbox(old)
                        && self.sent_spec() == old.sent_spec() + worlds_sent(s, old.world_count() as nat),
                    Command::Players => self.same_but_outbox(old)
                        && self.sent_spec() == old.sent_spec() + seq![
                            (s, msg_bytes("&6Players Online:"@)),
                            (s, msg_bytes(old.player(s as int).display_name)),
                        ] + others_listing(old.slots(), s, MAX_PLAYERS as int),
                }
            } else {
                self.same_but_outbox(old) && self.sent_spec() == old.sent_spec()
            }
        }

    /// Outcome of teleporting player `uid` to player `f` from `old`: when
    /// `f` is in another loaded world, `uid` first joins it (transfer and
    /// announcement); when `f` is in another world that is not loaded (only
    /// the console's empty world), `uid` is told so. Then `uid` takes `f`'s
    /// transform and its client is sent the position with id −1.
    pub open spec fn teleported(&self, old: &Core, uid: usize, f: int) -> bool {
        let target = old.player(f);
        let me = old.player(uid as int);
        let t = target.transform;
        &&& self.others_kept(old, uid)
        &&& self.live(uid as int)
        &&& self.requests_spec() == old.requests_spec()
        &&& self.readonly_spec() == old.readonly_spec()
        &&& self.threadsize_spec() == old.threadsize_spec()
        &&& if target.world != me.world && old.world_named(target.world) is Some {
            let i = old.world_named(target.world)->0;
            &&& self.moved_worlds(old, uid, i)
            &&& self.player(uid as int) == (PlayerView { world: target.world, transform: t, ..me })
            &&& self.sent_spec() == old.sent_spec() + old.transfer_sent(uid, i)
                + broadcast_sent(old.slots(), uid, joined_text(me.display_name, target.world), MAX_PLAYERS as int)
                + seq![(uid, position_bytes(-1i8, t))]
        } else {
            &&& self.worlds_spec() == old.worlds_spec()
            &&& self.player(uid as int) == (PlayerView { transform: t, ..me })
            &&& self.sent_spec() == old.sent_spec() + (if target.world != me.world {
                seq![(uid, msg_bytes(not_found_text(target.world)))]
            } else {
                Seq::<(usize, Seq<u8>)>::empty()
            }) + seq![(uid, position_bytes(-1i8, t))]
        }
    }

    /// Outcome of sending player `uid` towards the world named `name`.
    pub open spec fn joined(&self, old: &Core, uid: usize, name: Seq<char>) -> bool {
        match old.world_named(name) {
            Some(i) => {
                &&& self.transferred(old, uid, i)
                &&& self.sent_spec() == old.sent_spec() + old.transfer_sent(uid, i)
                    + broadcast_sent(old.slots(), uid, joined_text(old.player(uid as int).display_name, name), MAX_PLAYERS as int)
            },
            None => if name.len() > 0 {
                &&& self.slots() == old.slots()
                &&& self.worlds_spec() == old.worlds_spec()
                &&& self.readonly_spec() == old.readonly_spec()
                &&& self.threadsize_spec() == old.threadsize_spec()
                &&& self.sent_spec() == old.sent_spec()
                &&& self.requests_spec().len() == old.requests_spec().len() + 1
                &&& self.requests_spec().drop_last() == old.requests_spec()
                &&& self.requests_spec().last().uid == uid
                &&& self.requests_spec().last().name@ == name
            } else {
                &&& self.same_but_outbox(old)
                &&& self.sent_spec() == old.sent_spec().push((uid, msg_bytes(not_found_text(name))))
            },
        }
    }

    /// Puts a player at `t` and tells its client (id −1).
    pub fn update_transform(&mut self, uid: usize, t: Transform)
        requires
            old(self).wf(),
            1 <= uid < MAX_PLAYERS,
            old(self).live(uid as int),
        ensures
            final(self).wf(),
            final(self).worlds_spec() == old(self).worlds_spec(),
            final(self).requests_spec() == old(self).requests_spec(),
            final(self).readonly_spec() == old(self).readonly_spec(),
            final(self).others_kept(old(self), uid),
            final(self).live(uid as int),
            final(self).player(uid as int) == (PlayerView { transform: t, ..old(self).player(uid as int) }),
            final(self).threadsize_spec() == old(self).threadsize_spec(),
            final(self).sent_spec() == old(self).sent_spec().push((uid, position_bytes(-1i8, t))),
    {
        let ghost o = *self;
        self.set_player_transform(uid, t);
        proof {
            self.lemma_frame(&o);
        }
        let ghost moved = *self;
        let packet = OutgoingPacket::Position(ServerPositionAndOrientation::new(-1, t));
        assert(packet.bytes() =~= position_bytes(-1i8, t));
        self.send(uid, packet);
        proof {
            self.lemma_wf_frame(&moved);
        }
    }

    /// Moves player `uid` into the loaded world `dest` and announces it.
    fn join_world_at(&mut self, uid: usize, dest: usize)
        requires
            old(self).wf(),
            1 <= uid < MAX_PLAYERS,
            old(self).live(uid as int),
            dest < old(self).world_count(),
        ensures
            final(self).wf(),
            final(self).transferred(old(self), uid, dest as int),
            final(self).sent_spec() == old(self).sent_spec() + old(self).transfer_sent(uid, dest as int)
                + broadcast_sent(
                    old(self).slots(),
                    uid,
                    joined_text(old(self).player(uid as int).display_name, old(self).worlds_spec()[dest as int].name_spec()),
                    MAX_PLAYERS as int,
                ),
    {
        let ghost o = *self;
        self.send_map(uid, dest);
        let ghost moved = *self;
        let mut text: String = match &self.players[uid] {
            Some(p) => p.display_name.clone(),
            None => String::new(),
        };
        text.append(" &8joined the world \"");
        text.append(self.worlds[dest].get_name());
        text.append("\".");
        self.broadcast_message(uid, text.as_str());
        proof {
            self.lemma_wf_frame(&moved);
            lemma_broadcast_frame(moved.slots(), o.slots(), uid, text@, MAX_PLAYERS as int);
        }
    }

    /// Sends player `uid` into the world named `name`: at once when it is
    /// loaded; otherwise a level request is queued, or, for an empty name,
    /// the player is told that the world does not exist.
    pub fn try_join_world(&mut self, uid: usize, name: &str)
        requires
            old(self).wf(),
            1 <= uid < MAX_PLAYERS,
            old(self).live(uid as int),
        ensures
            final(self).wf(),
            final(self).joined(old(self), uid, name@),
    {
        match self.find_world(name) {
            Some(i) => {
                self.join_world_at(uid, i);
            },
            None => {
                if !name.is_empty() {
                    let ghost o = *self;
                    self.requests.push(LevelRequest { uid, name: name.to_owned() });
                    assert(self.requests_spec().drop_last() =~= o.requests_spec());
                    proof {
                        self.lemma_wf_frame(&o);
                    }
                } else {
                    self.notify_not_found(uid, name);
                }
            },
        }
    }

    fn notify_not_found(&mut self, uid: usize, name: &str)
        requires
            old(self).wf(),
        ensures
            final(self).wf(),
            final(self).same_but_outbox(old(self)),
            final(self).sent_spec() == old(self).sent_spec().push((uid, msg_bytes(not_found_text(name@)))),
    {
        let ghost o = *self;
        let mut text = String::from_str("&8The world \"");
        text.append(name);
        text.append("\" does not exist.");
        self.send_message(uid, text.as_str());
        proof {
            self.lemma_wf_frame(&o);
        }
    }

    proof fn lemma_after_add_world(&self, o: &Core)
        requires
            o.wf(),
            self.slots() == o.slots(),
            self.world_count() == o.world_count() + 1,
            forall|i: int| 0 <= i < o.world_count() ==> #[trigger] self.worlds_spec()[i] == o.worlds_spec()[i],
            self.worlds_spec()[o.world_count()].wf(),
            self.worlds_spec()[o.world_count()].name_spec().len() > 0,
            self.worlds_spec()[o.world_count()].players_spec() == Seq::<usize>::empty(),
            o.world_named(self.worlds_spec()[o.world_count()].name_spec()) is None,
        ensures
            self.wf(),
            forall|n: Seq<char>| #[trigger] self.world_named(n) == if n == self.worlds_spec()[o.world_count()].name_spec() {
                Some(o.world_count())
            } else {
                o.world_named(n)
            },
    {
        let k = o.world_count();
        let nn = self.worlds_spec()[k].name_spec();
        assert forall|i: int| 0 <= i < self.world_count() implies (#[trigger] self.worlds_spec()[i]).wf()
            && self.worlds_spec()[i].name_spec().len() > 0 by {
            if i < k {
                assert(o.worlds_spec()[i].wf());
            }
        }
        assert forall|i: int, j: int| 0 <= i < self.world_count() && 0 <= j < self.world_count() && i != j
            implies #[trigger] self.worlds_spec()[i].name_spec() != #[trigger] self.worlds_spec()[j].name_spec() by {
            if i < k && j < k {
                assert(o.worlds_spec()[i].name_spec() != o.worlds_spec()[j].name_spec());
            } else if i < k {
                assert(o.worlds_spec()[i].name_spec() != nn);
            } else {
                assert(o.worlds_spec()[j].name_spec() != nn);
            }
        }
        assert(self.worlds_spec()[0] == o.worlds_spec()[0]);
        assert(self.worlds_wf());
        assert forall|n: Seq<char>| #[trigger] self.world_named(n) == if n == nn { Some(k) } else { o.world_named(n) } by {
            if n == nn {
                self.lemma_world_named(n, k);
            } else if o.world_named(n) is Some {
                let j = o.world_named(n)->0;
                assert(o.worlds_spec()[j].name_spec() == n);
                self.lemma_world_named(n, j);
            } else {
                if self.world_named(n) is Some {
                    let j = self.world_named(n)->0;
                    assert(self.worlds_spec()[j].name_spec() == n);
                    assert(o.worlds_spec()[j].name_spec() == n);
                }
            }
        }
        assert forall|i: int, u: usize| 0 <= i < self.world_count() implies
            (#[trigger] self.worlds_spec()[i].players_spec().contains(u)
                <==> (self.live(u as int) && self.player(u as int).world == self.worlds_spec()[i].name_spec())) by {
            if i < k {
                assert(o.worlds_spec()[i].players_spec().contains(u)
                    <==> (o.live(u as int) && o.player(u as int).world == o.worlds_spec()[i].name_spec()));
            } else {
                if self.live(u as int) && self.player(u as int).world == nn {
                    assert(o.live(u as int) && o.player(u as int).world.len() > 0);
                }
            }
        }
        assert forall|u: int| #[trigger] self.live(u) && self.player(u).world.len() > 0
            implies self.world_named(self.player(u).world) is Some by {
            assert(o.live(u));
        }
    }

    /// Answers a level request with the bytes of the level file (`None`
    /// when it could not be read). A level that loads becomes a new world
    /// and the player joins it; otherwise the player is told that the world
    /// does not exist. A world loaded in the meantime is joined directly.
    pub fn level_loaded(&mut self, request: &LevelRequest, file: Option<Vec<u8>>)
        requires
            old(self).wf(),
        ensures
            final(self).wf(),
            ({
                let uid = request.uid;
                let name = request.name@;
                let n = old(self).world_count();
                let display = old(self).player(uid as int).display_name;
                if !(1 <= uid < MAX_PLAYERS && old(self).live(uid as int)) {
                    final(self).same_but_outbox(old(self)) && final(self).sent_spec() == old(self).sent_spec()
                } else if old(self).world_named(name) is Some {
                    let i = old(self).world_named(name)->0;
                    &&& final(self).transferred(old(self), uid, i)
                    &&& final(self).sent_spec() == old(self).sent_spec() + old(self).transfer_sent(uid, i)
                        + broadcast_sent(old(self).slots(), uid, joined_text(display, name), MAX_PLAYERS as int)
                } else if name.len() > 0 && file is Some && level_loads(file->0@) {
                    let w = final(self).worlds_spec()[n];
                    &&& final(self).world_count() == n + 1
                    &&& w.name_spec() == name
                    &&& w.players_spec() == seq![uid]
                    &&& holds_level(w, gunzip_of(file->0@)->0)
                    &&& forall|i: int| 0 <= i < n ==> {
                        &&& (#[trigger] final(self).worlds_spec()[i]).name_spec() == old(self).worlds_spec()[i].name_spec()
                        &&& final(self).worlds_spec()[i].map_spec() == old(self).worlds_spec()[i].map_spec()
                        &&& final(self).worlds_spec()[i].spawn_spec() == old(self).worlds_spec()[i].spawn_spec()
                        &&& final(self).worlds_spec()[i].players_spec() == if old(self).world_of(uid as int) == Some(i) {
                            without(old(self).worlds_spec()[i].players_spec(), uid)
                        } else {
                            old(self).worlds_spec()[i].players_spec()
                        }
                    }
                    &&& final(self).others_kept(old(self), uid)
                    &&& final(self).live(uid as int)
                    &&& final(self).player(uid as int) == (PlayerView { world: name, ..old(self).player(uid as int) })
                    &&& final(self).sent_spec() == old(self).sent_spec() + old(self).leave_sent(uid, n)
                        + arrive_sent(w, old(self).slots(), uid, display)
                        + broadcast_sent(old(self).slots(), uid, joined_text(display, name), MAX_PLAYERS as int)
                } else {
                    &&& final(self).same_but_outbox(old(self))
                    &&& final(self).sent_spec() == old(self).sent_spec().push((uid, msg_bytes(not_found_text(name))))
                }
            }),
    {
        let uid = request.uid;
        if uid == CONSOLE_UID || uid >= MAX_PLAYERS || self.players[uid].is_none() {
            return;
        }
        let name = request.name.as_str();
        if let Some(i) = self.find_world(name) {
            self.join_world_at(uid, i);
            return;
        }
        let level = match file {
            Some(bytes) => {
                if name.is_empty() {
                    None
                } else {
                    MCSharpMap::from_file_bytes(&bytes)
                }
            },
            None => None,
        };
        match level {
            Some(level) => {
                let ghost o = *self;
                let ghost d = gunzip_of(file->0@)->0;
                self.worlds.push(World::new(name.to_owned(), level));
                proof {
                    assert forall|i: int| 0 <= i < o.world_count() implies #[trigger] self.worlds_spec()[i] == o.worlds_spec()[i] by {}
                    self.lemma_after_add_world(&o);
                }
                let ghost mid = *self;
                let n = self.worlds.len() - 1;
                self.join_world_at(uid, n);
                proof {
                    assert(mid.world_of(uid as int) == o.world_of(uid as int));
                    assert(mid.leave_sent(uid, n as int) == o.leave_sent(uid, n as int));
                    assert(with_member(mid.worlds_spec()[n as int].players_spec(), uid) =~= seq![uid]);
                    assert(self.worlds_spec()[n as int].players_spec() =~= seq![uid]);
                    assert(with_member(self.worlds_spec()[n as int].players_spec(), uid) =~= seq![uid]);
                    assert(arrive_sent(mid.worlds_spec()[n as int], mid.slots(), uid, o.player(uid as int).display_name)
                        == arrive_sent(self.worlds_spec()[n as int], o.slots(), uid, o.player(uid as int).display_name));
                    assert forall|i: int| 0 <= i < o.world_count() implies
                        (#[trigger] self.worlds_spec()[i]).players_spec() == if o.world_of(uid as int) == Some(i) {
                            without(o.worlds_spec()[i].players_spec(), uid)
                        } else {
                            o.worlds_spec()[i].players_spec()
                        } by {
                        assert(mid.worlds_spec()[i] == o.worlds_spec()[i]);
                    }
                }
                assert(self.sent_spec() =~= o.sent_spec() + o.leave_sent(uid, n as int)
                    + arrive_sent(self.worlds_spec()[n as int], o.slots(), uid, o.player(uid as int).display_name)
                    + broadcast_sent(o.slots(), uid, joined_text(o.player(uid as int).display_name, name@), MAX_PLAYERS as int));
            },
            None => {
                self.notify_not_found(uid, name);
            },
        }
    }

    fn send_help(&mut self, uid: usize)
        requires
            old(self).wf(),
        ensures
            final(self).wf(),
            final(self).same_but_outbox(old(self)),
            final(self).sent_spec() == old(self).sent_spec() + help_sent(uid),
    {
        let ghost o = *self;
        self.send_message(uid, "&cMC Classic Written in Rust by Ali Deym.");
        self.send_message(uid, "&7/main - Go to main.");
        self.send_message(uid, "&7/join {map} - Joins or loads the specified map. (/j)");
        self.send_message(uid, "&7/tp {player} - Go to {player} if any.");
        self.send_message(uid, "&7/players - List of online players.");
        assert(self.sent_spec() =~= o.sent_spec() + help_sent(uid));
        proof {
            self.lemma_wf_frame(&o);
        }
    }

    fn send_world_count(&mut self, uid: usize)
        requires
            old(self).wf(),
        ensures
            final(self).wf(),
            final(self).same_but_outbox(old(self)),
            final(self).sent_spec() == old(self).sent_spec() + worlds_sent(uid, old(self).world_count() as nat),
    {
        let ghost o = *self;
        self.send_message(uid, "&6Due to API Limitations, we can only display");
        let mut text = String::from_str("&6the number of worlds loaded: &8");
        let count = decimal_text(self.worlds.len());
        text.append(count.as_str());
        self.send_message(uid, text.as_str());
        assert(self.sent_spec() =~= o.sent_spec() + worlds_sent(uid, o.world_count() as nat));
        proof {
            self.lemma_wf_frame(&o);
        }
    }

    fn send_player_list(&mut self, uid: usize)
        requires
            old(self).wf(),
            old(self).live(uid as int),
        ensures
            final(self).wf(),
            final(self).same_but_outbox(old(self)),
            final(self).sent_spec() == old(self).sent_spec() + seq![
                (uid, msg_bytes("&6Players Online:"@)),
                (uid, msg_bytes(old(self).player(uid as int).display_name)),
            ] + others_listing(old(self).slots(), uid, MAX_PLAYERS as int),
    {
        let ghost o = *self;
        self.send_message(uid, "&6Players Online:");
        let own: String = match &self.players[uid] {
            Some(p) => p.display_name.clone(),
            None => String::new(),
        };
        self.send_message(uid, own.as_str());
        let ghost base = self.sent_spec();
        let mut i: usize = 0;
        while i < MAX_PLAYERS
            invariant
                i <= MAX_PLAYERS,
                self.same_but_outbox(&o),
                o.slots().len() == MAX_PLAYERS,
                self.sent_spec() == base + others_listing(o.slots(), uid, i as int),
            decreases MAX_PLAYERS - i,
        {
            if i != uid && i != CONSOLE_UID {
                let name: Option<String> = match &self.players[i] {
                    Some(p) => Some(p.display_name.clone()),
                    None => None,
                };
                if let Some(n) = name {
                    self.send_message(uid, n.as_str());
                }
            }
            i = i + 1;
            assert(self.sent_spec() =~= base + others_listing(o.slots(), uid, i as int));
        }
        proof {
            self.lemma_wf_frame(&o);
        }
    }

    /// The first other registered player whose lowercased account name
    /// contains `query`.
    fn find_player_matching(&self, uid: usize, query: &Vec<u8>) -> (r: Option<usize>)
        requires
            self.wf(),
        ensures
            r == match first_match(self.slots(), uid, query@, 0) {
                Some(i) => Some(i as usize),
                None => None::<usize>,
            },
    {
        let mut i: usize = 0;
        while i < MAX_PLAYERS
            invariant
                i <= MAX_PLAYERS,
                self.wf(),
                first_match(self.slots(), uid, query@, 0) == first_match(self.slots(), uid, query@, i as int),
            decreases MAX_PLAYERS - i,
        {
            if i != uid {
                if let Some(p) = &self.players[i] {
                    let lowered = to_lower(p.get_name().as_bytes());
                    if find_sub(lowered.as_slice(), query.as_slice()) {
                        return Some(i);
                    }
                }
            }
            i = i + 1;
        }
        None
    }

    /// "/tp <query>": the invoker joins the world of the first match if
    /// needed and takes its transform; without a match it is told so.
    fn teleport(&mut self, uid: usize, query: &Vec<u8>)
        requires
            old(self).wf(),
            1 <= uid < MAX_PLAYERS,
            old(self).live(uid as int),
        ensures
            final(self).wf(),
            match first_match(old(self).slots(), uid, query@, 0) {
                Some(f) => final(self).teleported(old(self), uid, f),
                None => final(self).same_but_outbox(old(self))
                    && final(self).sent_spec() == old(self).sent_spec().push((uid, msg_bytes(no_player_text(decode_text(query@))))),
            },
    {
        let ghost o = *self;
        proof {
            lemma_first_match(o.slots(), uid, query@, 0);
        }
        match self.find_player_matching(uid, query) {
            Some(f) => {
                let (target, other_world, same) = match (&self.players[f], &self.players[uid]) {
                    (Some(other), Some(me)) => (other.transform, other.world.clone(), other.world == me.world),
                    _ => (Transform::default(), String::new(), true),
                };
                assert(target == o.player(f as int).transform);
                assert(same == (o.player(f as int).world == o.player(uid as int).world));
                let ghost n = other_world@;
                proof {
                    if !same && n.len() > 0 {
                        assert(o.live(f as int));
                        assert(o.world_named(n) is Some);
                    }
                }
                if !same {
                    self.try_join_world(uid, other_world.as_str());
                }
                let ghost mid = *self;
                proof {
                    if same || o.world_named(n) is None {
                        assert(mid.slots() == o.slots());
                    } else {
                        let i = o.world_named(n)->0;
                        assert(mid.transferred(&o, uid, i));
                        assert(mid.moved_worlds(&o, uid, i));
                    }
                    assert(mid.others_kept(&o, uid));
                    assert(mid.live(uid as int));
                }
                self.update_transform(uid, target);
                proof {
                    assert forall|u: int| 0 <= u < MAX_PLAYERS && u != uid implies
                        #[trigger] self.slots()[u] == o.slots()[u] by {
                        assert(self.slots()[u] == mid.slots()[u]);
                    }
                    if !same && o.world_named(n) is Some {
                        let i = o.world_named(n)->0;
                        assert(o.worlds_spec()[i].name_spec() == n);
                        assert(self.moved_worlds(&o, uid, i));
                        assert(self.sent_spec() =~= o.sent_spec() + o.transfer_sent(uid, i)
                            + broadcast_sent(o.slots(), uid, joined_text(o.player(uid as int).display_name, n), MAX_PLAYERS as int)
                            + seq![(uid, position_bytes(-1i8, target))]);
                    } else if !same {
                        assert(self.sent_spec() =~= o.sent_spec() + seq![(uid, msg_bytes(not_found_text(n)))]
                            + seq![(uid, position_bytes(-1i8, target))]);
                    } else {
                        assert(self.sent_spec() =~= o.sent_spec() + Seq::<(usize, Seq<u8>)>::empty()
                            + seq![(uid, position_bytes(-1i8, target))]);
                    }
                }
            },
            None => {
                let mut text = String::from_str("&7Couldn't find a player with name \"");
                let q = text_from_bytes(copy_vec(query));
                text.append(q.as_str());
                text.append("\".");
                self.send_message(uid, text.as_str());
                proof {
                    self.lemma_wf_frame(&o);
                }
            },
        }
    }

    /// A chat line from a client: a command is carried out, anything else
    /// goes to every other player as "<display name>: &f<text>".
    pub fn handle_message(&mut self, packet: &PlayerMessage)
        requires
            old(self).wf(),
        ensures
            final(self).wf(),
            final(self).message_done(old(self), packet),
    {
        let s = packet.sender;
        if s == CONSOLE_UID || s >= MAX_PLAYERS || self.players[s].is_none() {
            return;
        }
        let ghost o = *self;
        let text = packet.get_message();
        let lowered = to_lower(text.as_bytes());
        match parse_command(text) {
            Command::Help => self.send_help(s),
            Command::Main => {
                proof {
                    reveal_strlit("main");
                }
                self.try_join_world(s, "main");
            },
            Command::Join => {
                let name = text_from_bytes(get_last_word(&lowered));
                self.try_join_world(s, name.as_str());
            },
            Command::Teleport => {
                let query = get_rest_words(&lowered);
                self.teleport(s, &query);
            },
            Command::Worlds => self.send_world_count(s),
            Command::Players => self.send_player_list(s),
            Command::Chat => {
                let mut line: String = match &self.players[s] {
                    Some(p) => p.display_name.clone(),
                    None => String::new(),
                };
                line.append(": &f");
                line.append(text);
                self.broadcast_message(s, line.as_str());
                proof {
                    self.lemma_wf_frame(&o);
                }
            },
        }
    }

    /// Runs the handler of one decoded packet; all state changes happen
    /// here, one packet at a time.
    pub fn handle_received_packet(&mut self, packet: &IncomingPacket)
        requires
            old(self).wf(),
        ensures
            final(self).wf(),
            match packet {
                IncomingPacket::Identification(p) => final(self).identification_done(old(self), p),
                IncomingPacket::SetBlock(p) => final(self).set_block_done(old(self), p),
                IncomingPacket::Position(p) => final(self).position_done(old(self), p),
                IncomingPacket::Message(p) => final(self).message_done(old(self), p),
                IncomingPacket::Disconnect(p) => final(self).disconnect_done(old(self), p),
            },
    {
        match packet {
            IncomingPacket::Identification(p) => self.handle_identification(p),
            IncomingPacket::SetBlock(p) => self.handle_set_block(p),
            IncomingPacket::Position(p) => self.handle_position(p),
            IncomingPacket::Message(p) => self.handle_message(p),
            IncomingPacket::Disconnect(p) => self.handle_disconnect(p),
        }
    }
}

/// In a well-formed server, a player is listed in a world exactly when the
/// player's world field names that world.
pub proof fn lemma_colocation(c: &Core, p: usize, w: int)
    requires
        c.wf(),
        0 <= w < c.world_count(),
    ensures
        c.worlds_spec()[w].players_spec().contains(p)
            <==> (c.live(p as int) && c.player(p as int).world == c.worlds_spec()[w].name_spec()),
{
}

/// In a well-formed server no two registered players share an id, and id 0
/// belongs to the console alone.
pub proof fn lemma_ids_unique(c: &Core, u: int, v: int)
    requires
        c.wf(),
        c.live(u),
        c.live(v),
        u != v,
    ensures
        c.player(u).uid != c.player(v).uid,
        c.player(u).uid == 0 <==> c.player(u).console,
{
    assert(c.slots()[u] is Some && c.slots()[v] is Some);
}

} // verus!

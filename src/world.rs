use vstd::prelude::*;

use crate::map::{in_bounds, index_of, BlockMap, MemoryMap};
use crate::util::{Transform, Vec3D};

verus! {

/// `s` with every occurrence of `u` removed, order kept.
pub open spec fn without(s: Seq<usize>, u: usize) -> Seq<usize>
    decreases s.len(),
{
    if s.len() == 0 {
        s
    } else {
        let r = without(s.drop_last(), u);
        if s.last() == u {
            r
        } else {
            r.push(s.last())
        }
    }
}

pub proof fn lemma_without(s: Seq<usize>, u: usize)
    ensures
        forall|x: usize| #[trigger] without(s, u).contains(x) <==> (s.contains(x) && x != u),
        s.no_duplicates() ==> without(s, u).no_duplicates(),
    decreases s.len(),
{
    if s.len() > 0 {
        lemma_without(s.drop_last(), u);
        assert(s =~= s.drop_last().push(s.last()));
        assert forall|x: usize| s.contains(x) <==> (s.drop_last().contains(x) || x == s.last()) by {
            if s.contains(x) {
                let k = choose|k: int| 0 <= k < s.len() && s[k] == x;
                if k < s.len() - 1 {
                    assert(s.drop_last()[k] == x);
                }
            }
            if s.drop_last().contains(x) {
                let k = choose|k: int| 0 <= k < s.drop_last().len() && s.drop_last()[k] == x;
                assert(s[k] == x);
            }
            if x == s.last() {
                assert(s[s.len() - 1] == x);
            }
        }
        let r = without(s.drop_last(), u);
        if s.last() != u {
            assert forall|x: usize| r.push(s.last()).contains(x) <==> (r.contains(x) || x == s.last()) by {
                if r.push(s.last()).contains(x) {
                    let k = choose|k: int| 0 <= k < r.len() + 1 && r.push(s.last())[k] == x;
                    if k < r.len() {
                        assert(r[k] == x);
                    }
                }
                if r.contains(x) {
                    let k = choose|k: int| 0 <= k < r.len() && r[k] == x;
                    assert(r.push(s.last())[k] == x);
                }
                if x == s.last() {
                    assert(r.push(s.last())[r.len() as int] == x);
                }
            }
            if s.no_duplicates() {
                assert(!s.drop_last().contains(s.last())) by {
                    if s.drop_last().contains(s.last()) {
                        let k = choose|k: int| 0 <= k < s.drop_last().len() && s.drop_last()[k] == s.last();
                        assert(s[k] == s[s.len() - 1]);
                    }
                }
                assert(s.drop_last().no_duplicates()) by {
                    assert forall|i: int, j: int|
                        0 <= i < s.drop_last().len() && 0 <= j < s.drop_last().len() && i != j implies
                        s.drop_last()[i] != s.drop_last()[j] by {
                        assert(s[i] != s[j]);
                    }
                }
                assert(!r.contains(s.last()));
                assert forall|i: int, j: int|
                    0 <= i < r.len() + 1 && 0 <= j < r.len() + 1 && i != j implies
                    r.push(s.last())[i] != r.push(s.last())[j] by {
                    if i < r.len() && j == r.len() {
                        assert(r.contains(r[i]));
                    }
                    if j < r.len() && i == r.len() {
                        assert(r.contains(r[j]));
                    }
                }
            }
        } else if s.no_duplicates() {
            assert(s.drop_last().no_duplicates()) by {
                assert forall|i: int, j: int|
                    0 <= i < s.drop_last().len() && 0 <= j < s.drop_last().len() && i != j implies
                    s.drop_last()[i] != s.drop_last()[j] by {
                    assert(s[i] != s[j]);
                }
            }
        }
        assert forall|x: usize| #[trigger] without(s, u).contains(x) <==> (s.contains(x) && x != u) by {
            assert(without(s.drop_last(), u).contains(x) <==> (s.drop_last().contains(x) && x != u));
        }
    }
}

/// `l` with `u` appended unless already there.
pub open spec fn with_member(l: Seq<usize>, u: usize) -> Seq<usize> {
    if l.contains(u) { l } else { l.push(u) }
}

pub proof fn lemma_with_member(s: Seq<usize>, u: usize)
    ensures
        forall|x: usize| #[trigger] with_member(s, u).contains(x) <==> (s.contains(x) || x == u),
        s.no_duplicates() ==> with_member(s, u).no_duplicates(),
{
    if !s.contains(u) {
        let t = s.push(u);
        assert forall|x: usize| #[trigger] t.contains(x) <==> (s.contains(x) || x == u) by {
            if t.contains(x) {
                let k = choose|k: int| 0 <= k < t.len() && t[k] == x;
                if k < s.len() {
                    assert(s[k] == x);
                }
            }
            if s.contains(x) {
                let k = choose|k: int| 0 <= k < s.len() && s[k] == x;
                assert(t[k] == x);
            }
            if x == u {
                assert(t[s.len() as int] == x);
            }
        }
        if s.no_duplicates() {
            assert forall|i: int, j: int| 0 <= i < t.len() && 0 <= j < t.len() && i != j implies t[i] != t[j] by {
                if i < s.len() && j == s.len() {
                    assert(s.contains(s[i]));
                }
                if j < s.len() && i == s.len() {
                    assert(s.contains(s[j]));
                }
            }
        }
    }
}

/// A named block volume and the ids of the players inside it.
pub struct World {
    name: String,
    players: Vec<usize>,
    map: MemoryMap,
    spawn_point: Vec3D,
    spawn_yaw: u8,
    spawn_pitch: u8,
}

impl World {
    pub closed spec fn name_spec(&self) -> Seq<char> {
        self.name@
    }

    pub closed spec fn players_spec(&self) -> Seq<usize> {
        self.players@
    }

    pub closed spec fn map_spec(&self) -> MemoryMap {
        self.map
    }

    /// Where players appear when they enter the world.
    pub closed spec fn spawn_spec(&self) -> Transform {
        Transform { position: self.spawn_point, yaw: self.spawn_yaw, pitch: self.spawn_pitch }
    }

    pub open spec fn size_spec(&self) -> Vec3D {
        self.map_spec().size_spec()
    }

    pub open spec fn blocks(&self) -> Seq<u8> {
        self.map_spec().blocks()
    }

    /// The volume is well formed and no player is listed twice.
    pub open spec fn wf(&self) -> bool {
        &&& self.map_spec().wf()
        &&& self.players_spec().no_duplicates()
    }

    /// A world around a block volume, spawning players where the volume
    /// says.
    pub fn new<M: BlockMap>(name: String, map: M) -> (r: World)
        requires
            map.map_wf(),
        ensures
            r.wf(),
            r.name_spec() == name@,
            r.players_spec() == Seq::<usize>::empty(),
            r.size_spec() == map.map_size(),
            r.blocks() == map.map_blocks(),
            r.spawn_spec() == map.map_spawn(),
    {
        let spawn_point = map.get_spawnarea();
        let spawn_yaw = map.get_spawnyaw();
        let spawn_pitch = map.get_spawnpitch();
        let map = map.into_volume();
        World { name, players: Vec::new(), map, spawn_point, spawn_yaw, spawn_pitch }
    }

    pub fn has_name(&self, name: &str) -> (r: bool)
        ensures
            r == (self.name_spec() == name@),
    {
        let other: String = name.to_owned();
        self.name == other
    }

    pub fn get_name(&self) -> (r: &str)
        ensures
            r@ == self.name_spec(),
    {
        self.name.as_str()
    }

    /// Lists the player, unless already listed.
    pub fn add_player(&mut self, player_uid: usize)
        requires
            old(self).wf(),
        ensures
            final(self).wf(),
            final(self).players_spec() == with_member(old(self).players_spec(), player_uid),
            final(self).name_spec() == old(self).name_spec(),
            final(self).map_spec() == old(self).map_spec(),
            final(self).spawn_spec() == old(self).spawn_spec(),
    {
        let mut i: usize = 0;
        while i < self.players.len()
            invariant
                i <= self.players@.len(),
                *self == *old(self),
                self.wf(),
                forall|k: int| 0 <= k < i ==> self.players@[k] != player_uid,
            decreases self.players@.len() - i,
        {
            if self.players[i] == player_uid {
                assert(self.players@.contains(player_uid));
                return;
            }
            i = i + 1;
        }
        let ghost before = self.players@;
        self.players.push(player_uid);
        assert forall|a: int, b: int|
            0 <= a < self.players@.len() && 0 <= b < self.players@.len() && a != b implies
            self.players@[a] != self.players@[b] by {
            if a < before.len() && b < before.len() {
                assert(before[a] != before[b]);
            }
        }
    }

    /// Unlists the player, keeping the order of the others.
    pub fn remove_player(&mut self, player_uid: usize)
        requires
            old(self).wf(),
        ensures
            final(self).wf(),
            final(self).players_spec() == without(old(self).players_spec(), player_uid),
            final(self).name_spec() == old(self).name_spec(),
            final(self).map_spec() == old(self).map_spec(),
            final(self).spawn_spec() == old(self).spawn_spec(),
    {
        let mut kept: Vec<usize> = Vec::new();
        let mut i: usize = 0;
        while i < self.players.len()
            invariant
                i <= self.players@.len(),
                kept@ == without(self.players@.take(i as int), player_uid),
            decreases self.players@.len() - i,
        {
            let p = self.players[i];
            assert(self.players@.take(i as int + 1).drop_last() =~= self.players@.take(i as int));
            if p != player_uid {
                kept.push(p);
            }
            i = i + 1;
        }
        assert(self.players@.take(i as int) =~= self.players@);
        proof {
            lemma_without(self.players@, player_uid);
        }
        self.players = kept;
    }

    pub fn get_players(&self) -> (r: &Vec<usize>)
        ensures
            r@ == self.players_spec(),
    {
        &self.players
    }

    /// Writes a block, or air when destroying.
    pub fn set_block(&mut self, coordinates: &Vec3D, block: u8, destroy: bool)
        requires
            old(self).wf(),
            in_bounds(old(self).size_spec(), *coordinates),
        ensures
            final(self).wf(),
            final(self).size_spec() == old(self).size_spec(),
            final(self).blocks() == old(self).blocks().update(
                index_of(old(self).size_spec(), *coordinates),
                if destroy { 0u8 } else { block },
            ),
            final(self).players_spec() == old(self).players_spec(),
            final(self).name_spec() == old(self).name_spec(),
            final(self).spawn_spec() == old(self).spawn_spec(),
    {
        let b: u8 = if destroy { 0 } else { block };
        self.map.set_block(coordinates, b);
    }

    pub fn get_block(&self, coordinates: &Vec3D) -> (r: u8)
        requires
            self.wf(),
            in_bounds(self.size_spec(), *coordinates),
        ensures
            r == self.blocks()[index_of(self.size_spec(), *coordinates)],
    {
        self.map.get_block(coordinates)
    }

    pub fn get_chunks(&self) -> (r: &Vec<u8>)
        ensures
            r@ == self.blocks(),
    {
        self.map.get_chunks()
    }

    pub fn get_size(&self) -> (r: &Vec3D)
        ensures
            *r == self.size_spec(),
    {
        self.map.get_size()
    }

    pub fn get_spawnarea(&self) -> (r: Vec3D)
        ensures
            r == self.spawn_spec().position,
    {
        self.spawn_point
    }

    pub fn get_spawnyaw(&self) -> (r: u8)
        ensures
            r == self.spawn_spec().yaw,
    {
        self.spawn_yaw
    }

    pub fn get_spawnpitch(&self) -> (r: u8)
        ensures
            r == self.spawn_spec().pitch,
    {
        self.spawn_pitch
    }
}

} // verus!

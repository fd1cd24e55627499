use std::io::Read;
use std::io::Write;

use flate2::read::GzDecoder;
use flate2::write::GzEncoder;
use flate2::Compression;
use vstd::prelude::*;

use crate::util::{byte_at, math_min, rd16_le, rest_from, BufferReader, Transform, Vec3D};

verus! {

/// Number of blocks in a volume of the given size.
pub open spec fn volume_len(size: Vec3D) -> int {
    size.0 as int * size.1 as int * size.2 as int
}

/// Whether a position lies inside a volume of the given size.
pub open spec fn in_bounds(size: Vec3D, p: Vec3D) -> bool {
    p.0 < size.0 && p.1 < size.1 && p.2 < size.2
}

/// Linear index of a position: x + z·W + y·W·H, with size (W, D, H).
pub open spec fn index_of(size: Vec3D, p: Vec3D) -> int {
    p.0 as int + p.2 as int * size.0 as int + p.1 as int * size.0 as int * size.2 as int
}

/// Whether linear index `i` lies on the grass plane y = D/2 − 1.
pub open spec fn on_grass_plane(size: Vec3D, i: int) -> bool {
    let layer = size.0 as int * size.2 as int;
    size.1 >= 2 && (size.1 / 2 - 1) as int * layer <= i < (size.1 / 2) as int * layer
}

/// Blocks of a fresh volume: grass (2) on the plane y = D/2 − 1, air elsewhere.
pub open spec fn initial_blocks(size: Vec3D) -> Seq<u8> {
    Seq::new(volume_len(size) as nat, |i: int| if on_grass_plane(size, i) { 2u8 } else { 0u8 })
}

/// Block ids above 50 are unknown and stored as 50.
pub open spec fn clamp_block(b: u8) -> u8 {
    if b < 50 { b } else { 50u8 }
}

/// The volume after loading raw bytes over it.
pub open spec fn loaded_blocks(old_blocks: Seq<u8>, raw: Seq<u8>) -> Seq<u8> {
    Seq::new(old_blocks.len(), |i: int| if i < raw.len() { clamp_block(raw[i]) } else { old_blocks[i] })
}

pub proof fn lemma_index_in_volume(size: Vec3D, p: Vec3D)
    requires
        in_bounds(size, p),
    ensures
        0 <= index_of(size, p) < volume_len(size),
{
    let (w, d, h) = (size.0 as int, size.1 as int, size.2 as int);
    let (x, y, z) = (p.0 as int, p.1 as int, p.2 as int);
    assert(x + z * w < (z + 1) * w) by (nonlinear_arith)
        requires x < w;
    assert((z + 1) * w <= h * w) by (nonlinear_arith)
        requires z < h, 0 <= w;
    assert(y * w * h + w * h <= d * w * h) by (nonlinear_arith)
        requires y < d, 0 <= w, 0 <= h;
    assert(0 <= z * w && 0 <= y * w * h) by (nonlinear_arith)
        requires 0 <= z, 0 <= w, 0 <= y, 0 <= h;
    assert(h * w == w * h) by (nonlinear_arith);
    assert(d * w * h == w * d * h) by (nonlinear_arith);
}

/// Whether `p` lies inside a volume of size `size`.
pub fn position_in_bounds(size: &Vec3D, p: &Vec3D) -> (r: bool)
    ensures
        r == in_bounds(*size, *p),
{
    p.0 < size.0 && p.1 < size.1 && p.2 < size.2
}

/// Spawn point of a generated volume in fixed-point units: 16·W, 32·D, 16·H
/// (the middle of the map in x and z), each kept to 16 bits.
pub open spec fn default_spawn(size: Vec3D) -> Vec3D {
    Vec3D(
        ((size.0 as int * 16) % 65536) as u16,
        ((size.1 as int * 32) % 65536) as u16,
        ((size.2 as int * 16) % 65536) as u16,
    )
}

/// A block volume that a world can be made of, with the place where players
/// appear in it.
pub trait BlockMap {
    /// Magic number of the in-memory map format.
    fn get_magic_id(&self) -> (r: i32)
        ensures
            r == 0x271bb788,
    {
        0x271bb788
    }

    /// Version of the in-memory map format.
    fn get_version_number(&self) -> (r: u8)
        ensures
            r == 2,
    {
        2
    }

    spec fn map_size(&self) -> Vec3D;

    spec fn map_blocks(&self) -> Seq<u8>;

    spec fn map_spawn(&self) -> Transform;

    /// The block array holds W·D·H entries.
    spec fn map_wf(&self) -> bool;

    fn get_size(&self) -> (r: &Vec3D)
        ensures
            *r == self.map_size(),
    ;

    fn get_chunks(&self) -> (r: &Vec<u8>)
        ensures
            r@ == self.map_blocks(),
    ;

    fn get_block(&self, position: &Vec3D) -> (r: u8)
        requires
            self.map_wf(),
            in_bounds(self.map_size(), *position),
        ensures
            r == self.map_blocks()[index_of(self.map_size(), *position)],
    ;

    fn set_block(&mut self, position: &Vec3D, block: u8)
        requires
            old(self).map_wf(),
            in_bounds(old(self).map_size(), *position),
        ensures
            final(self).map_wf(),
            final(self).map_size() == old(self).map_size(),
            final(self).map_spawn() == old(self).map_spawn(),
            final(self).map_blocks() == old(self).map_blocks().update(index_of(old(self).map_size(), *position), block),
    ;

    fn get_spawnarea(&self) -> (r: Vec3D)
        ensures
            r == self.map_spawn().position,
    ;

    fn get_spawnyaw(&self) -> (r: u8)
        ensures
            r == self.map_spawn().yaw,
    ;

    fn get_spawnpitch(&self) -> (r: u8)
        ensures
            r == self.map_spawn().pitch,
    ;

    /// The blocks as a plain volume.
    fn into_volume(self) -> (r: MemoryMap)
        requires
            self.map_wf(),
        ensures
            r.wf(),
            r.size_spec() == self.map_size(),
            r.blocks() == self.map_blocks(),
    ;
}

/// A dense volume of blocks of a fixed size.
pub struct MemoryMap {
    size: Vec3D,
    data: Vec<u8>,
}

impl MemoryMap {
    pub closed spec fn size_spec(&self) -> Vec3D {
        self.size
    }

    pub closed spec fn blocks(&self) -> Seq<u8> {
        self.data@
    }

    /// The block array always holds W·D·H entries.
    pub open spec fn wf(&self) -> bool {
        self.blocks().len() == volume_len(self.size_spec())
    }

    /// A volume of the given size with a layer of grass at half depth.
    pub fn new(size: Vec3D) -> (r: MemoryMap)
        requires
            volume_len(size) <= usize::MAX,
        ensures
            r.wf(),
            r.size_spec() == size,
            r.blocks() == initial_blocks(size),
    {
        let w = size.0 as usize;
        let d = size.1 as usize;
        let h = size.2 as usize;
        assert(w * h <= 0xffff * 0xffff) by (nonlinear_arith)
            requires w <= 0xffff, h <= 0xffff;
        let layer = w * h;
        assert(layer * d == volume_len(size)) by (nonlinear_arith)
            requires layer == w * h, w == size.0, d == size.1, h == size.2;
        let n = layer * d;
        let (lo, hi) = if d >= 2 {
            assert((d / 2) * layer <= d * layer) by (nonlinear_arith)
                requires 0 <= layer;
            assert((d / 2 - 1) * layer <= (d / 2) * layer) by (nonlinear_arith)
                requires 0 <= layer, d >= 2;
            ((d / 2 - 1) * layer, (d / 2) * layer)
        } else {
            (0, 0)
        };
        let mut data: Vec<u8> = Vec::with_capacity(n);
        let mut i: usize = 0;
        while i < n
            invariant
                i <= n,
                n == volume_len(size),
                layer == size.0 as int * size.2 as int,
                d == size.1,
                d >= 2 ==> lo == (size.1 / 2 - 1) as int * layer && hi == (size.1 / 2) as int * layer,
                d < 2 ==> lo == 0 && hi == 0,
                data@ == initial_blocks(size).take(i as int),
            decreases n - i,
        {
            let b: u8 = if lo <= i && i < hi { 2 } else { 0 };
            data.push(b);
            i = i + 1;
            assert(data@ =~= initial_blocks(size).take(i as int));
        }
        assert(data@ =~= initial_blocks(size));
        MemoryMap { size, data }
    }

    /// Overwrites the volume from raw file bytes, clamping each to at most 50.
    pub fn set_data_chunks(&mut self, data: Vec<u8>)
        ensures
            final(self).size_spec() == old(self).size_spec(),
            final(self).blocks() == loaded_blocks(old(self).blocks(), data@),
    {
        let n = self.data.len();
        let mut i: usize = 0;
        while i < n && i < data.len()
            invariant
                i <= n,
                n == self.data@.len(),
                n == old(self).blocks().len(),
                self.size == old(self).size_spec(),
                forall|k: int| 0 <= k < n ==> #[trigger] self.data@[k] == if k < i { loaded_blocks(old(self).blocks(), data@)[k] } else { old(self).blocks()[k] },
            decreases n - i,
        {
            self.data.set(i, math_min(data[i], 50));
            i = i + 1;
        }
        assert(self.data@ =~= loaded_blocks(old(self).blocks(), data@));
    }

    pub fn get_data_index(&self, position: &Vec3D) -> (r: usize)
        requires
            self.wf(),
            in_bounds(self.size_spec(), *position),
        ensures
            r == index_of(self.size_spec(), *position),
            r < self.blocks().len(),
    {
        proof {
            lemma_index_in_volume(self.size, *position);
        }
        let len = self.data.len();
        let w = self.size.0 as usize;
        let h = self.size.2 as usize;
        let x = position.0 as usize;
        let y = position.1 as usize;
        let z = position.2 as usize;
        assert(0 <= z * w && 0 <= y * w * h && y * w <= y * w * h || h == 0) by (nonlinear_arith)
            requires 0 <= z, 0 <= w, 0 <= y, 0 <= h;
        assert(h > 0) by {
            assert(position.2 < self.size.2);
        }
        assert(y * w <= y * w * h) by (nonlinear_arith)
            requires 0 <= y, 0 <= w, 1 <= h;
        assert(x + z * w + y * w * h < len);
        x + z * w + y * w * h
    }

    pub fn get_size(&self) -> (r: &Vec3D)
        ensures
            *r == self.size_spec(),
    {
        &self.size
    }

    pub fn get_chunks(&self) -> (r: &Vec<u8>)
        ensures
            r@ == self.blocks(),
    {
        &self.data
    }

    pub fn get_block(&self, position: &Vec3D) -> (r: u8)
        requires
            self.wf(),
            in_bounds(self.size_spec(), *position),
        ensures
            r == self.blocks()[index_of(self.size_spec(), *position)],
    {
        let i = self.get_data_index(position);
        self.data[i]
    }

    pub fn set_block(&mut self, position: &Vec3D, block: u8)
        requires
            old(self).wf(),
            in_bounds(old(self).size_spec(), *position),
        ensures
            final(self).wf(),
            final(self).size_spec() == old(self).size_spec(),
            final(self).blocks() == old(self).blocks().update(index_of(old(self).size_spec(), *position), block),
    {
        let i = self.get_data_index(position);
        self.data.set(i, block);
    }
}

impl BlockMap for MemoryMap {
    open spec fn map_size(&self) -> Vec3D {
        self.size_spec()
    }

    open spec fn map_blocks(&self) -> Seq<u8> {
        self.blocks()
    }

    /// A generated volume spawns players above its middle, with yaw 0 and
    /// pitch 255.
    open spec fn map_spawn(&self) -> Transform {
        Transform { position: default_spawn(self.size_spec()), yaw: 0, pitch: 255 }
    }

    open spec fn map_wf(&self) -> bool {
        self.wf()
    }

    fn get_size(&self) -> (r: &Vec3D) {
        MemoryMap::get_size(self)
    }

    fn get_chunks(&self) -> (r: &Vec<u8>) {
        MemoryMap::get_chunks(self)
    }

    fn get_block(&self, position: &Vec3D) -> (r: u8) {
        MemoryMap::get_block(self, position)
    }

    fn set_block(&mut self, position: &Vec3D, block: u8) {
        MemoryMap::set_block(self, position, block)
    }

    fn get_spawnarea(&self) -> (r: Vec3D) {
        let size = MemoryMap::get_size(self);
        Vec3D::new(
            ((size.0 as u32 * 16) % 65536) as u16,
            ((size.1 as u32 * 32) % 65536) as u16,
            ((size.2 as u32 * 16) % 65536) as u16,
        )
    }

    fn get_spawnyaw(&self) -> (r: u8) {
        0
    }

    fn get_spawnpitch(&self) -> (r: u8) {
        255
    }

    fn into_volume(self) -> (r: MemoryMap) {
        self
    }
}

/// Reading a block just written at an in-bounds position gives that block back.
pub proof fn lemma_set_then_get(m: MemoryMap, p: Vec3D, b: u8, after: MemoryMap)
    requires
        m.wf(),
        in_bounds(m.size_spec(), p),
        after.size_spec() == m.size_spec(),
        after.blocks() == m.blocks().update(index_of(m.size_spec(), p), b),
    ensures
        after.wf(),
        after.blocks()[index_of(after.size_spec(), p)] == b,
{
    lemma_index_in_volume(m.size_spec(), p);
}

/// What gzip compression (flate2, default level) makes of the bytes.
pub uninterp spec fn gzip_of(data: Seq<u8>) -> Seq<u8>;

/// What gzip decompression (flate2) makes of the bytes: `None` when they are
/// not a well-formed gzip stream.
pub uninterp spec fn gunzip_of(data: Seq<u8>) -> Option<Seq<u8>>;

/// Relies on flate2::write::GzEncoder at the default level: writing into a
/// `Vec` cannot fail, the output depends on the input alone, and
/// decompressing it gives the input back.
#[verifier::external_body]
pub(crate) fn gzip_compress(data: &Vec<u8>) -> (r: Vec<u8>)
    ensures
        r@ == gzip_of(data@),
        gunzip_of(r@) == Some(data@),
{
    let mut gz = GzEncoder::new(Vec::new(), Compression::default());
    gz.write_all(data).unwrap();
    gz.finish().unwrap()
}

/// Relies on flate2::read::GzDecoder: reads the whole decompressed stream,
/// failing on malformed input.
#[verifier::external_body]
fn gzip_decompress(data: &Vec<u8>) -> (r: Option<Vec<u8>>)
    ensures
        match r {
            Some(v) => gunzip_of(data@) == Some(v@),
            None => gunzip_of(data@) is None,
        },
{
    let mut out = Vec::new();
    match GzDecoder::new(&data[..]).read_to_end(&mut out) {
        Ok(_) => Some(out),
        Err(_) => None,
    }
}

/// Magic number that opens a level file.
pub const LEVEL_MAGIC: u16 = 0x752;

/// Bytes of header before the block data of a level file.
pub const LEVEL_HEADER_LEN: usize = 18;

/// Spawn coordinates are stored in blocks and kept in 1/32 of a block.
pub open spec fn scaled(v: u16) -> u16 {
    ((v as int * 32) % 65536) as u16
}

pub open spec fn level_size(d: Seq<u8>) -> Vec3D {
    Vec3D(rd16_le(d, 2), rd16_le(d, 4), rd16_le(d, 6))
}

pub open spec fn level_spawn(d: Seq<u8>) -> Vec3D {
    Vec3D(scaled(rd16_le(d, 8)), scaled(rd16_le(d, 10)), scaled(rd16_le(d, 12)))
}

/// Whether decompressed level bytes are accepted: the magic matches and the
/// volume fits in memory.
pub open spec fn level_accepted(d: Seq<u8>) -> bool {
    rd16_le(d, 0) == LEVEL_MAGIC && volume_len(level_size(d)) <= usize::MAX
}

/// A level loaded from the legacy file format.
pub struct MCSharpMap {
    size: Vec3D,
    spawn_yaw: u8,
    spawn_pitch: u8,
    spawn_point: Vec3D,
    internal_map: MemoryMap,
}

/// `r` is what parsing the decompressed level bytes `d` gives.
pub open spec fn parsed_level(d: Seq<u8>, r: Option<MCSharpMap>) -> bool {
    match r {
        None => !level_accepted(d),
        Some(m) => {
            &&& level_accepted(d)
            &&& m.wf()
            &&& m.size_spec() == level_size(d)
            &&& m.spawn_point_spec() == level_spawn(d)
            &&& m.spawn_yaw_spec() == byte_at(d, 14)
            &&& m.spawn_pitch_spec() == byte_at(d, 15)
            &&& m.map_spec().blocks() == loaded_blocks(
                initial_blocks(level_size(d)),
                rest_from(d, LEVEL_HEADER_LEN as int),
            )
        },
    }
}

impl MCSharpMap {
    pub closed spec fn size_spec(&self) -> Vec3D {
        self.size
    }

    pub closed spec fn spawn_point_spec(&self) -> Vec3D {
        self.spawn_point
    }

    pub closed spec fn spawn_yaw_spec(&self) -> u8 {
        self.spawn_yaw
    }

    pub closed spec fn spawn_pitch_spec(&self) -> u8 {
        self.spawn_pitch
    }

    pub closed spec fn map_spec(&self) -> MemoryMap {
        self.internal_map
    }

    pub open spec fn wf(&self) -> bool {
        &&& self.map_spec().wf()
        &&& self.map_spec().size_spec() == self.size_spec()
    }

    /// Parses decompressed level bytes: little-endian header, then blocks.
    pub fn parse(data: &Vec<u8>) -> (r: Option<MCSharpMap>)
        ensures
            parsed_level(data@, r),
    {
        let mut reader = BufferReader::new(data);
        let magic_num = reader.read_ushort_le();
        if magic_num != LEVEL_MAGIC {
            return None;
        }
        let size = Vec3D::new(reader.read_ushort_le(), reader.read_ushort_le(), reader.read_ushort_le());
        let w = size.0 as u64;
        let d = size.1 as u64;
        let h = size.2 as u64;
        assert(w * d <= 0xffff * 0xffff) by (nonlinear_arith)
            requires w <= 0xffff, d <= 0xffff;
        assert(w * d * h <= 0xffff * 0xffff * 0xffff) by (nonlinear_arith)
            requires w * d <= 0xffff * 0xffff, h <= 0xffff;
        if w * d * h > usize::MAX as u64 {
            return None;
        }
        let mut internal_map = MemoryMap::new(size);
        let sx = reader.read_ushort_le();
        let sy = reader.read_ushort_le();
        let sz = reader.read_ushort_le();
        let spawn_point = Vec3D::new(
            ((sx as u32 * 32) % 65536) as u16,
            ((sy as u32 * 32) % 65536) as u16,
            ((sz as u32 * 32) % 65536) as u16,
        );
        let yaw = reader.read_byte();
        let pitch = reader.read_byte();
        // Visit and build permissions are not used.
        reader.read_byte();
        reader.read_byte();
        let blocks = reader.read_to_end();
        internal_map.set_data_chunks(blocks);
        Some(MCSharpMap { size, spawn_yaw: yaw, spawn_pitch: pitch, spawn_point, internal_map })
    }

    /// Decompresses and parses the contents of a level file.
    pub fn from_file_bytes(bytes: &Vec<u8>) -> (r: Option<MCSharpMap>)
        ensures
            match gunzip_of(bytes@) {
                None => r is None,
                Some(d) => parsed_level(d, r),
            },
    {
        match gzip_decompress(bytes) {
            None => None,
            Some(d) => Self::parse(&d),
        }
    }

    pub fn get_size(&self) -> (r: &Vec3D)
        ensures
            *r == self.size_spec(),
    {
        &self.size
    }

    pub fn get_spawnarea(&self) -> (r: Vec3D)
        ensures
            r == self.spawn_point_spec(),
    {
        self.spawn_point
    }

    pub fn get_spawnyaw(&self) -> (r: u8)
        ensures
            r == self.spawn_yaw_spec(),
    {
        self.spawn_yaw
    }

    pub fn get_spawnpitch(&self) -> (r: u8)
        ensures
            r == self.spawn_pitch_spec(),
    {
        self.spawn_pitch
    }

    pub fn get_chunks(&self) -> (r: &Vec<u8>)
        ensures
            r@ == self.map_spec().blocks(),
    {
        self.internal_map.get_chunks()
    }
}

impl BlockMap for MCSharpMap {
    open spec fn map_size(&self) -> Vec3D {
        self.size_spec()
    }

    open spec fn map_blocks(&self) -> Seq<u8> {
        self.map_spec().blocks()
    }

    /// A loaded level spawns players where its header says.
    open spec fn map_spawn(&self) -> Transform {
        Transform { position: self.spawn_point_spec(), yaw: self.spawn_yaw_spec(), pitch: self.spawn_pitch_spec() }
    }

    open spec fn map_wf(&self) -> bool {
        self.wf()
    }

    fn get_size(&self) -> (r: &Vec3D) {
        MCSharpMap::get_size(self)
    }

    fn get_chunks(&self) -> (r: &Vec<u8>) {
        MCSharpMap::get_chunks(self)
    }

    fn get_block(&self, position: &Vec3D) -> (r: u8) {
        self.internal_map.get_block(position)
    }

    fn set_block(&mut self, position: &Vec3D, block: u8) {
        self.internal_map.set_block(position, block)
    }

    fn get_spawnarea(&self) -> (r: Vec3D) {
        MCSharpMap::get_spawnarea(self)
    }

    fn get_spawnyaw(&self) -> (r: u8) {
        MCSharpMap::get_spawnyaw(self)
    }

    fn get_spawnpitch(&self) -> (r: u8) {
        MCSharpMap::get_spawnpitch(self)
    }

    fn into_volume(self) -> (r: MemoryMap) {
        self.internal_map
    }
}

} // verus!

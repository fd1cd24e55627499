use vstd::prelude::*;

use crate::classic_server::{LevelDataChunk, LevelFinalize, LevelInitialize};
use crate::map::{gunzip_of, gzip_compress, gzip_of};
use crate::packet::OutgoingPacket;
use crate::util::{be16, be32, vec3d_bytes, BufferWriter, Vec3D, ARRAY_LEN};

verus! {

/// What is compressed for a map transfer: the block count as a big-endian
/// u32 (truncated to 32 bits), then the blocks.
pub open spec fn map_payload(blocks: Seq<u8>) -> Seq<u8> {
    be32((blocks.len() % 0x1_0000_0000) as u32) + blocks
}

/// The big-endian u32 at the start of `d`.
pub open spec fn be32_prefix(d: Seq<u8>) -> int {
    d[0] as int * 0x100_0000 + d[1] as int * 0x1_0000 + d[2] as int * 0x100 + d[3] as int
}

/// Number of 1024-byte chunks a stream of `len` bytes is cut into.
pub open spec fn chunk_count(len: int) -> int {
    (len + 1023) / 1024
}

/// The `k`-th chunk of the stream, before padding.
pub open spec fn chunk_of(c: Seq<u8>, k: int) -> Seq<u8> {
    let end = if (k + 1) * 1024 < c.len() { (k + 1) * 1024 } else { c.len() as int };
    c.subrange(k * 1024, end)
}

/// A chunk right-padded with zero bytes to 1024.
pub open spec fn padded(s: Seq<u8>) -> Seq<u8> {
    s + Seq::new((1024 - s.len()) as nat, |i: int| 0u8)
}

/// Progress value of chunk `k` of `n`: integer division first, so 0 for
/// every chunk.
pub open spec fn chunk_percent(k: int, n: int) -> u8 {
    ((k / n) * 100) as u8
}

/// Bytes of the level-data packet for chunk `k`.
pub open spec fn chunk_packet(c: Seq<u8>, k: int) -> Seq<u8> {
    seq![LevelDataChunk::ID] + be16(chunk_of(c, k).len() as u16) + padded(chunk_of(c, k))
        + seq![chunk_percent(k, chunk_count(c.len() as int))]
}

/// Bytes of each packet of a level transfer: initialize, one data packet per
/// chunk of the compressed stream, finalize with the level's size.
pub open spec fn level_stream(c: Seq<u8>, size: Vec3D) -> Seq<Seq<u8>> {
    seq![seq![LevelInitialize::ID]]
        + Seq::new(chunk_count(c.len() as int) as nat, |k: int| chunk_packet(c, k))
        + seq![seq![LevelFinalize::ID] + vec3d_bytes(size)]
}

/// The gzip stream sent for a volume; decompressed, it opens with the block
/// count in four big-endian bytes, which equals the number of bytes that
/// follow whenever that count fits in 32 bits.
pub fn compress_map(blocks: &Vec<u8>) -> (r: Vec<u8>)
    ensures
        r@ == gzip_of(map_payload(blocks@)),
        gunzip_of(r@) == Some(map_payload(blocks@)),
        blocks@.len() < 0x1_0000_0000 ==> be32_prefix(map_payload(blocks@)) == map_payload(blocks@).len() - 4,
{
    let mut w = BufferWriter::new(blocks.len());
    w.write_uint((blocks.len() as u64 % 0x1_0000_0000) as u32);
    let mut i: usize = 0;
    let ghost head = w@;
    while i < blocks.len()
        invariant
            i <= blocks@.len(),
            w@ == head + blocks@.take(i as int),
        decreases blocks@.len() - i,
    {
        w.write_byte(blocks[i]);
        i = i + 1;
        assert(w@ =~= head + blocks@.take(i as int));
    }
    assert(w@ =~= map_payload(blocks@));
    proof {
        let n = blocks@.len();
        if n < 0x1_0000_0000 {
            let x = (n % 0x1_0000_0000) as u32;
            assert(x == n);
            let p = map_payload(blocks@);
            assert(p[0] == (x / 0x100_0000) as u8);
            assert(p[1] == ((x / 0x1_0000) % 256) as u8);
            assert(p[2] == ((x / 256) % 256) as u8);
            assert(p[3] == (x % 256) as u8);
            assert((x / 0x100_0000) * 0x100_0000 + ((x / 0x1_0000) % 256) * 0x1_0000
                + ((x / 256) % 256) * 256 + x % 256 == x) by (nonlinear_arith)
                requires 0 <= x < 0x1_0000_0000;
        }
    }
    gzip_compress(w.get_data())
}

/// The packets of a level transfer for a compressed stream `compressed` and
/// a level of size `size`.
pub fn level_transfer_packets(compressed: &Vec<u8>, size: Vec3D) -> (r: Vec<OutgoingPacket>)
    ensures
        r@.len() == level_stream(compressed@, size).len(),
        forall|k: int| 0 <= k < r@.len() ==> #[trigger] r@[k].bytes() == level_stream(compressed@, size)[k],
{
    let ghost c = compressed@;
    let mut r: Vec<OutgoingPacket> = Vec::new();
    r.push(OutgoingPacket::LevelInitialize(LevelInitialize::new()));
    let len = compressed.len();
    let total = len / 1024 + if len % 1024 != 0 { 1 } else { 0 };
    let mut k: usize = 0;
    while k < total
        invariant
            len == c.len(),
            c == compressed@,
            total == chunk_count(len as int),
            k <= total,
            r@.len() == k + 1,
            forall|j: int| 0 <= j < r@.len() ==> #[trigger] r@[j].bytes() == level_stream(c, size)[j],
        decreases total - k,
    {
        assert(k * 1024 < len);
        let start = k * 1024;
        let end = if len - start > 1024 { start + 1024 } else { len };
        let mut data: Vec<u8> = Vec::with_capacity(ARRAY_LEN);
        let mut i: usize = start;
        while i < end
            invariant
                start == k * 1024,
                start <= end <= len,
                end - start <= 1024,
                start <= i <= end,
                len == c.len(),
                c == compressed@,
                data@ == c.subrange(start as int, i as int),
            decreases end - i,
        {
            data.push(compressed[i]);
            i = i + 1;
            assert(data@ =~= c.subrange(start as int, i as int));
        }
        let chunk_len = data.len();
        assert(data@ =~= chunk_of(c, k as int));
        while data.len() < ARRAY_LEN
            invariant
                chunk_len <= data@.len() <= ARRAY_LEN,
                data@.subrange(0, chunk_len as int) == chunk_of(c, k as int),
                chunk_len == chunk_of(c, k as int).len(),
                forall|j: int| chunk_len <= j < data@.len() ==> data@[j] == 0,
            decreases ARRAY_LEN - data@.len(),
        {
            data.push(0);
        }
        assert(data@ =~= padded(chunk_of(c, k as int)));
        let percent = ((k / total) * 100) as u8;
        let packet = OutgoingPacket::LevelDataChunk(LevelDataChunk::new(chunk_len as u16, data, percent));
        assert(packet.bytes() =~= chunk_packet(c, k as int));
        r.push(packet);
        k = k + 1;
    }
    let fin = OutgoingPacket::LevelFinalize(LevelFinalize::new(size));
    r.push(fin);
    r
}

/// The first `n` chunks of `c`, unpadded, one after the other.
pub open spec fn rejoined(c: Seq<u8>, n: int) -> Seq<u8>
    decreases n,
{
    if n <= 0 {
        Seq::empty()
    } else {
        rejoined(c, n - 1) + chunk_of(c, n - 1)
    }
}

proof fn lemma_rejoined_prefix(c: Seq<u8>, n: int)
    requires
        0 <= n <= chunk_count(c.len() as int),
    ensures
        rejoined(c, n) == c.take(if n * 1024 < c.len() { n * 1024 } else { c.len() as int }),
    decreases n,
{
    if n > 0 {
        lemma_rejoined_prefix(c, n - 1);
        let lo = (n - 1) * 1024;
        assert(lo < c.len());
        assert(rejoined(c, n) =~= c.take(if n * 1024 < c.len() { n * 1024 } else { c.len() as int }));
    } else {
        assert(rejoined(c, 0) =~= c.take(0));
    }
}

/// The shape of a level transfer for a compressed stream `c`: the data
/// chunks put back together are `c` itself; every chunk but the last is
/// full, the last holds the remaining bytes; every progress value is 0; and
/// a stream of at most 1024 bytes goes in a single chunk.
pub proof fn lemma_level_stream_shape(c: Seq<u8>, size: Vec3D)
    ensures
        rejoined(c, chunk_count(c.len() as int)) == c,
        level_stream(c, size).len() == chunk_count(c.len() as int) + 2,
        c.len() > 0 ==> chunk_count(c.len() as int) >= 1,
        forall|k: int| 0 <= k < chunk_count(c.len() as int) ==> chunk_percent(k, chunk_count(c.len() as int)) == 0,
        forall|k: int| 0 <= k < chunk_count(c.len() as int) - 1 ==> (#[trigger] chunk_of(c, k)).len() == 1024,
        c.len() > 0 ==> chunk_of(c, chunk_count(c.len() as int) - 1).len()
            == c.len() - 1024 * (chunk_count(c.len() as int) - 1),
        0 < c.len() <= 1024 ==> chunk_count(c.len() as int) == 1 && chunk_of(c, 0) == c,
{
    let n = chunk_count(c.len() as int);
    lemma_rejoined_prefix(c, n);
    assert(c.take(c.len() as int) =~= c);
    assert forall|k: int| 0 <= k < n implies chunk_percent(k, n) == 0 by {
        assert(k / n == 0) by (nonlinear_arith)
            requires 0 <= k < n;
    }
    if 0 < c.len() <= 1024 {
        assert(chunk_of(c, 0) =~= c);
    }
}

} // verus!

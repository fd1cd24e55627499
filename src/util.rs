use vstd::prelude::*;
use vstd::string::StringSliceAdditionalSpecFns;
use vstd::utf8::{decode_utf8, encode_utf8, valid_utf8};

verus! {

/// The smaller of two bytes.
pub fn math_min(num1: u8, num2: u8) -> (r: u8)
    ensures
        r == if num1 < num2 { num1 } else { num2 },
{
    if num1 < num2 {
        num1
    } else {
        num2
    }
}

/// A triple of 16-bit coordinates (x, y, z).
#[derive(Clone, Copy, Debug, PartialEq, Eq, Structural)]
pub struct Vec3D(pub u16, pub u16, pub u16);

impl Vec3D {
    pub fn new(x: u16, y: u16, z: u16) -> (r: Vec3D)
        ensures
            r == Vec3D(x, y, z),
    {
        Vec3D(x, y, z)
    }

    pub fn get_x(&self) -> (r: u16)
        ensures
            r == self.0,
    {
        self.0
    }

    pub fn get_y(&self) -> (r: u16)
        ensures
            r == self.1,
    {
        self.1
    }

    pub fn get_z(&self) -> (r: u16)
        ensures
            r == self.2,
    {
        self.2
    }

    pub fn set_x(&mut self, x: u16)
        ensures
            *final(self) == Vec3D(x, old(self).1, old(self).2),
    {
        self.0 = x;
    }

    pub fn set_y(&mut self, y: u16)
        ensures
            *final(self) == Vec3D(old(self).0, y, old(self).2),
    {
        self.1 = y;
    }

    pub fn set_z(&mut self, z: u16)
        ensures
            *final(self) == Vec3D(old(self).0, old(self).1, z),
    {
        self.2 = z;
    }
}

/// A position in fixed-point units plus yaw and pitch.
#[derive(Clone, Copy, Debug, PartialEq, Eq, Structural)]
pub struct Transform {
    pub position: Vec3D,
    pub yaw: u8,
    pub pitch: u8,
}

impl Transform {
    pub open spec fn default_spec() -> Transform {
        Transform { position: Vec3D(0, 0, 0), yaw: 0, pitch: 0 }
    }

    pub fn new(position: Vec3D, yaw: u8, pitch: u8) -> (r: Transform)
        ensures
            r == (Transform { position, yaw, pitch }),
    {
        Transform { position, yaw, pitch }
    }

    pub fn default() -> (r: Transform)
        ensures
            r == (Transform { position: Vec3D(0, 0, 0), yaw: 0, pitch: 0 }),
    {
        Self::new(Vec3D::new(0, 0, 0), 0, 0)
    }

    pub fn get_pos(&self) -> (r: &Vec3D)
        ensures
            *r == self.position,
    {
        &self.position
    }

    pub fn get_yaw(&self) -> (r: u8)
        ensures
            r == self.yaw,
    {
        self.yaw
    }

    pub fn get_pitch(&self) -> (r: u8)
        ensures
            r == self.pitch,
    {
        self.pitch
    }

    pub fn set_pos(&mut self, x: u16, y: u16, z: u16)
        ensures
            *final(self) == (Transform { position: Vec3D(x, y, z), ..*old(self) }),
    {
        self.position.0 = x;
        self.position.1 = y;
        self.position.2 = z;
    }

    pub fn set_yaw(&mut self, yaw: u8)
        ensures
            *final(self) == (Transform { yaw, ..*old(self) }),
    {
        self.yaw = yaw;
    }

    pub fn set_pitch(&mut self, pitch: u8)
        ensures
            *final(self) == (Transform { pitch, ..*old(self) }),
    {
        self.pitch = pitch;
    }
}

/// Length of the fixed string field on the wire.
pub const STRING_LEN: usize = 64;

/// Largest byte array the writer emits.
pub const ARRAY_LEN: usize = 1024;

/// Big-endian bytes of a 16-bit value.
pub open spec fn be16(x: u16) -> Seq<u8> {
    seq![(x / 256) as u8, (x % 256) as u8]
}

/// Big-endian bytes of a 32-bit value.
pub open spec fn be32(x: u32) -> Seq<u8> {
    seq![(x / 0x100_0000) as u8, ((x / 0x1_0000) % 256) as u8, ((x / 256) % 256) as u8, (x % 256) as u8]
}

/// The 64-byte string field: the bytes, cut at 64, right-padded with spaces.
pub open spec fn string_field(s: Seq<u8>) -> Seq<u8> {
    Seq::new(STRING_LEN as nat, |i: int| if i < s.len() { s[i] } else { 0x20u8 })
}

/// The string field that carries a text: its UTF-8 bytes, cut and padded to 64.
pub open spec fn text_field(t: Seq<char>) -> Seq<u8> {
    string_field(encode_utf8(t))
}

/// What the writer emits for a byte array: at most 1024 bytes, unpadded.
pub open spec fn array_field(s: Seq<u8>) -> Seq<u8> {
    if s.len() > ARRAY_LEN { s.take(ARRAY_LEN as int) } else { s }
}

pub open spec fn vec3d_bytes(v: Vec3D) -> Seq<u8> {
    be16(v.0) + be16(v.1) + be16(v.2)
}

pub open spec fn transform_bytes(t: Transform) -> Seq<u8> {
    vec3d_bytes(t.position) + seq![t.yaw, t.pitch]
}

/// An append-only byte buffer for encoding packets.
pub struct BufferWriter {
    buffer: Vec<u8>,
}

impl View for BufferWriter {
    type V = Seq<u8>;

    closed spec fn view(&self) -> Seq<u8> {
        self.buffer@
    }
}

impl BufferWriter {
    pub fn new(size: usize) -> (r: BufferWriter)
        ensures
            r@ == Seq::<u8>::empty(),
    {
        BufferWriter { buffer: Vec::with_capacity(size) }
    }

    pub fn get_data(&self) -> (r: &Vec<u8>)
        ensures
            r@ == self@,
    {
        &self.buffer
    }

    pub fn write_byte(&mut self, data: u8)
        ensures
            final(self)@ == old(self)@.push(data),
    {
        self.buffer.push(data);
    }

    pub fn write_sbyte(&mut self, data: i8)
        ensures
            final(self)@ == old(self)@.push(data as u8),
    {
        self.buffer.push(data as u8);
    }

    pub fn write_short(&mut self, data: u16)
        ensures
            final(self)@ == old(self)@ + be16(data),
    {
        self.buffer.push((data / 256) as u8);
        self.buffer.push((data % 256) as u8);
        assert(self.buffer@ =~= old(self)@ + be16(data));
    }

    pub fn write_uint(&mut self, data: u32)
        ensures
            final(self)@ == old(self)@ + be32(data),
    {
        self.buffer.push((data / 0x100_0000) as u8);
        self.buffer.push(((data / 0x1_0000) % 256) as u8);
        self.buffer.push(((data / 256) % 256) as u8);
        self.buffer.push((data % 256) as u8);
        assert(self.buffer@ =~= old(self)@ + be32(data));
    }

    pub fn write_int(&mut self, data: i32)
        ensures
            final(self)@ == old(self)@ + be32(data as u32),
    {
        self.write_uint(data as u32);
    }

    pub fn write_string(&mut self, data: &str)
        ensures
            final(self)@ == old(self)@ + string_field(data.spec_bytes()),
    {
        let bytes = data.as_bytes();
        let ghost start = self@;
        let mut i: usize = 0;
        while i < STRING_LEN
            invariant
                i <= STRING_LEN,
                bytes@ == data.spec_bytes(),
                self@ == start + string_field(bytes@).take(i as int),
            decreases STRING_LEN - i,
        {
            let b: u8 = if i < bytes.len() { bytes[i] } else { 0x20 };
            self.buffer.push(b);
            i = i + 1;
            assert(self@ =~= start + string_field(bytes@).take(i as int));
        }
        assert(string_field(bytes@).take(STRING_LEN as int) =~= string_field(bytes@));
    }

    pub fn write_vec3d(&mut self, data: &Vec3D)
        ensures
            final(self)@ == old(self)@ + vec3d_bytes(*data),
    {
        self.write_short(data.0);
        self.write_short(data.1);
        self.write_short(data.2);
        assert(self@ =~= old(self)@ + vec3d_bytes(*data));
    }

    pub fn write_transform(&mut self, data: &Transform)
        ensures
            final(self)@ == old(self)@ + transform_bytes(*data),
    {
        self.write_vec3d(data.get_pos());
        self.write_byte(data.yaw);
        self.write_byte(data.pitch);
        assert(self@ =~= old(self)@ + transform_bytes(*data));
    }

    pub fn write_array(&mut self, data: &[u8])
        ensures
            final(self)@ == old(self)@ + array_field(data@),
    {
        let ghost start = self@;
        let n: usize = if data.len() > ARRAY_LEN { ARRAY_LEN } else { data.len() };
        let mut i: usize = 0;
        while i < n
            invariant
                i <= n,
                n == if data@.len() > ARRAY_LEN { ARRAY_LEN as int } else { data@.len() as int },
                self@ == start + data@.take(i as int),
            decreases n - i,
        {
            self.buffer.push(data[i]);
            i = i + 1;
            assert(self@ =~= start + data@.take(i as int));
        }
        assert(data@.take(n as int) =~= array_field(data@));
    }
}

/// The byte at `i`, or the 0xFF sentinel past either end of the buffer.
pub open spec fn byte_at(s: Seq<u8>, i: int) -> u8 {
    if 0 <= i < s.len() {
        s[i]
    } else {
        0xffu8
    }
}

/// A big-endian 16-bit value read at `i`.
pub open spec fn rd16(s: Seq<u8>, i: int) -> u16 {
    (byte_at(s, i) as int * 256 + byte_at(s, i + 1) as int) as u16
}

/// A little-endian 16-bit value read at `i`.
pub open spec fn rd16_le(s: Seq<u8>, i: int) -> u16 {
    (byte_at(s, i + 1) as int * 256 + byte_at(s, i) as int) as u16
}

/// The 64 raw bytes of a string field starting at `i`.
pub open spec fn string_at(s: Seq<u8>, i: int) -> Seq<u8> {
    Seq::new(STRING_LEN as nat, |k: int| byte_at(s, i + k))
}

/// Unicode White_Space: tab to carriage return, space, next line, no-break
/// space, Ogham space mark, the spaces U+2000 to U+200A, line and paragraph
/// separators, narrow no-break space, medium mathematical space and
/// ideographic space.
pub open spec fn is_white_space(c: char) -> bool {
    ('\u{9}' <= c && c <= '\u{d}') || c == ' ' || c == '\u{85}' || c == '\u{a0}' || c == '\u{1680}'
        || ('\u{2000}' <= c && c <= '\u{200a}') || c == '\u{2028}' || c == '\u{2029}' || c == '\u{202f}'
        || c == '\u{205f}' || c == '\u{3000}'
}

/// Index of the first non-white-space character at or after `i` (or the
/// length).
pub open spec fn lead_from(s: Seq<char>, i: int) -> int
    decreases s.len() - i,
{
    if i < 0 || i >= s.len() {
        s.len() as int
    } else if is_white_space(s[i]) {
        lead_from(s, i + 1)
    } else {
        i
    }
}

/// End of `s[lo..j]` once trailing white space is dropped.
pub open spec fn trail_to(s: Seq<char>, lo: int, j: int) -> int
    decreases j - lo,
{
    if j <= lo || j > s.len() {
        if j > s.len() { s.len() as int } else { lo }
    } else if is_white_space(s[j - 1]) {
        trail_to(s, lo, j - 1)
    } else {
        j
    }
}

/// The text with leading and trailing white space removed.
pub open spec fn trim_white_space(s: Seq<char>) -> Seq<char> {
    let a = lead_from(s, 0);
    s.subrange(a, trail_to(s, a, s.len() as int))
}

/// The text that a field of bytes stands for: its UTF-8 decoding, or empty
/// when the bytes are not UTF-8.
pub open spec fn decode_text(b: Seq<u8>) -> Seq<char> {
    if valid_utf8(b) {
        decode_utf8(b)
    } else {
        Seq::empty()
    }
}

/// What a string field read at `i` yields: its text, trimmed of white
/// space.
pub open spec fn string_read(s: Seq<u8>, i: int) -> Seq<char> {
    trim_white_space(decode_text(string_at(s, i)))
}

/// Bytes from `i` to the end of the buffer.
pub open spec fn rest_from(s: Seq<u8>, i: int) -> Seq<u8> {
    if 0 <= i <= s.len() {
        s.subrange(i, s.len() as int)
    } else {
        Seq::empty()
    }
}

/// Relies on String::from_utf8: it succeeds exactly on valid UTF-8 and then
/// holds the decoded characters.
#[verifier::external_body]
fn string_from_utf8(b: Vec<u8>) -> (r: Option<String>)
    ensures
        r is Some <==> valid_utf8(b@),
        r is Some ==> r->0@ == decode_utf8(b@),
{
    String::from_utf8(b).ok()
}

/// The text that bytes stand for: their UTF-8 decoding, or empty when they
/// are not UTF-8.
pub fn text_from_bytes(b: Vec<u8>) -> (r: String)
    ensures
        r@ == decode_text(b@),
{
    match string_from_utf8(b) {
        Some(s) => s,
        None => String::new(),
    }
}

/// Relies on str::trim: it drops leading and trailing characters with the
/// Unicode White_Space property.
#[verifier::external_body]
fn trim_text(s: &str) -> (r: String)
    ensures
        r@ == trim_white_space(s@),
{
    s.trim().to_string()
}

/// Copies a vector element by element.
pub fn copy_vec<T: Copy>(v: &Vec<T>) -> (r: Vec<T>)
    ensures
        r@ == v@,
{
    let mut r: Vec<T> = Vec::new();
    let mut i: usize = 0;
    while i < v.len()
        invariant
            i <= v@.len(),
            r@ == v@.take(i as int),
        decreases v@.len() - i,
    {
        r.push(v[i]);
        i = i + 1;
        assert(r@ =~= v@.take(i as int));
    }
    assert(r@ =~= v@);
    r
}

/// A cursor over a received buffer. Reads past the end yield the 0xFF
/// sentinel instead of failing.
pub struct BufferReader<'a> {
    index: usize,
    buffer: &'a Vec<u8>,
}

impl<'a> BufferReader<'a> {
    /// Position of the cursor.
    pub closed spec fn pos(&self) -> int {
        self.index as int
    }

    /// The bytes being read.
    pub closed spec fn data(&self) -> Seq<u8> {
        self.buffer@
    }

    pub fn new(buffer: &'a Vec<u8>) -> (r: BufferReader<'a>)
        ensures
            r.pos() == 0,
            r.data() == buffer@,
    {
        BufferReader { index: 0, buffer }
    }

    pub fn get_index(&self) -> (r: usize)
        ensures
            r == self.pos(),
    {
        self.index
    }

    pub fn read_byte(&mut self) -> (r: u8)
        requires
            old(self).pos() + 1 <= usize::MAX,
        ensures
            r == byte_at(old(self).data(), old(self).pos()),
            final(self).pos() == old(self).pos() + 1,
            final(self).data() == old(self).data(),
    {
        let i = self.index;
        self.index = i + 1;
        if i < self.buffer.len() {
            self.buffer[i]
        } else {
            0xff
        }
    }

    pub fn read_sbyte(&mut self) -> (r: i8)
        requires
            old(self).pos() + 1 <= usize::MAX,
        ensures
            r == byte_at(old(self).data(), old(self).pos()) as i8,
            final(self).pos() == old(self).pos() + 1,
            final(self).data() == old(self).data(),
    {
        self.read_byte() as i8
    }

    pub fn read_ushort(&mut self) -> (r: u16)
        requires
            old(self).pos() + 2 <= usize::MAX,
        ensures
            r == rd16(old(self).data(), old(self).pos()),
            final(self).pos() == old(self).pos() + 2,
            final(self).data() == old(self).data(),
    {
        let b1 = self.read_byte();
        let b2 = self.read_byte();
        (b1 as u16) * 256 + (b2 as u16)
    }

    pub fn read_ushort_le(&mut self) -> (r: u16)
        requires
            old(self).pos() + 2 <= usize::MAX,
        ensures
            r == rd16_le(old(self).data(), old(self).pos()),
            final(self).pos() == old(self).pos() + 2,
            final(self).data() == old(self).data(),
    {
        let b1 = self.read_byte();
        let b2 = self.read_byte();
        (b2 as u16) * 256 + (b1 as u16)
    }

    pub fn read_short(&mut self) -> (r: i16)
        requires
            old(self).pos() + 2 <= usize::MAX,
        ensures
            r == rd16(old(self).data(), old(self).pos()) as i16,
            final(self).pos() == old(self).pos() + 2,
            final(self).data() == old(self).data(),
    {
        self.read_ushort() as i16
    }

    pub fn read_short_le(&mut self) -> (r: i16)
        requires
            old(self).pos() + 2 <= usize::MAX,
        ensures
            r == rd16_le(old(self).data(), old(self).pos()) as i16,
            final(self).pos() == old(self).pos() + 2,
            final(self).data() == old(self).data(),
    {
        self.read_ushort_le() as i16
    }

    /// Reads a 64-byte string field, trimmed of white space; bytes that are
    /// not UTF-8 read as the empty string.
    pub fn read_string(&mut self) -> (r: String)
        requires
            old(self).pos() + STRING_LEN <= usize::MAX,
        ensures
            r@ == string_read(old(self).data(), old(self).pos()),
            final(self).pos() == old(self).pos() + STRING_LEN,
            final(self).data() == old(self).data(),
    {
        let ghost start = self.index as int;
        let mut raw: Vec<u8> = Vec::new();
        let mut k: usize = 0;
        while k < STRING_LEN
            invariant
                k <= STRING_LEN,
                start + STRING_LEN <= usize::MAX,
                self.pos() == start + k,
                self.data() == old(self).data(),
                start == old(self).pos(),
                raw@ == string_at(self.data(), start).take(k as int),
            decreases STRING_LEN - k,
        {
            let b = self.read_byte();
            raw.push(b);
            k = k + 1;
            assert(raw@ =~= string_at(self.data(), start).take(k as int));
        }
        assert(raw@ =~= string_at(self.data(), start));
        match string_from_utf8(raw) {
            Some(s) => trim_text(s.as_str()),
            None => String::new(),
        }
    }

    /// The bytes from the cursor to the end of the buffer; the cursor stays.
    pub fn read_to_end(&mut self) -> (r: Vec<u8>)
        ensures
            r@ == rest_from(old(self).data(), old(self).pos()),
            *final(self) == *old(self),
    {
        let mut r: Vec<u8> = Vec::new();
        let n = self.buffer.len();
        if self.index > n {
            return r;
        }
        let mut k: usize = self.index;
        while k < n
            invariant
                self.index <= k <= n,
                n == self.buffer@.len(),
                r@ == self.buffer@.subrange(self.index as int, k as int),
            decreases n - k,
        {
            r.push(self.buffer[k]);
            k = k + 1;
            assert(r@ =~= self.buffer@.subrange(self.index as int, k as int));
        }
        r
    }
}

/// Whether a text survives the string field unchanged: at most 64 UTF-8
/// bytes and no white space at either end.
pub open spec fn fits_field(t: Seq<char>) -> bool {
    &&& encode_utf8(t).len() <= STRING_LEN
    &&& t.len() > 0 ==> !is_white_space(t[0]) && !is_white_space(t[t.len() - 1])
}

/// `k` spaces.
pub open spec fn spaces(k: nat) -> Seq<char> {
    Seq::new(k, |i: int| ' ')
}

proof fn lemma_encode_concat(a: Seq<char>, b: Seq<char>)
    ensures
        encode_utf8(a + b) == encode_utf8(a) + encode_utf8(b),
    decreases a.len(),
{
    if a.len() > 0 {
        lemma_encode_concat(a.drop_first(), b);
        assert((a + b).drop_first() =~= a.drop_first() + b);
        assert((a + b)[0] == a[0]);
        assert(encode_utf8(a + b) =~= encode_utf8(a) + encode_utf8(b));
    } else {
        assert(a + b =~= b);
        assert(encode_utf8(a) + encode_utf8(b) =~= encode_utf8(b));
    }
}

proof fn lemma_encode_spaces(k: nat)
    ensures
        encode_utf8(spaces(k)) =~= Seq::new(k, |i: int| 0x20u8),
{
    assert(vstd::utf8::is_ascii_chars(spaces(k)));
    vstd::utf8::is_ascii_chars_encode_utf8(spaces(k));
    assert forall|i: int| 0 <= i < k implies encode_utf8(spaces(k))[i] == 0x20u8 by {
        assert(spaces(k)[i] as u8 == encode_utf8(spaces(k))[i]);
    }
}

proof fn lemma_lead_all_ws(f: Seq<char>, i: int)
    requires
        0 <= i <= f.len(),
        forall|k: int| i <= k < f.len() ==> is_white_space(#[trigger] f[k]),
    ensures
        lead_from(f, i) == f.len(),
    decreases f.len() - i,
{
    if i < f.len() {
        lemma_lead_all_ws(f, i + 1);
    }
}

proof fn lemma_trail_padded(t: Seq<char>, k: nat, j: int)
    requires
        t.len() > 0,
        !is_white_space(t[t.len() - 1]),
        t.len() <= j <= t.len() + k,
    ensures
        trail_to(t + spaces(k), 0, j) == t.len(),
    decreases j,
{
    let f = t + spaces(k);
    if j > t.len() {
        assert(f[j - 1] == ' ');
        lemma_trail_padded(t, k, j - 1);
    } else {
        assert(f[j - 1] == t[t.len() - 1]);
    }
}

/// A text that fits the field is read back exactly as written, wherever the
/// field stands in the buffer.
pub proof fn lemma_text_round_trip(pre: Seq<u8>, t: Seq<char>, post: Seq<u8>)
    requires
        fits_field(t),
    ensures
        string_read(pre + text_field(t) + post, pre.len() as int) == t,
{
    let b = encode_utf8(t);
    let k = (STRING_LEN - b.len()) as nat;
    let f = text_field(t);
    let d = pre + f + post;
    assert(string_at(d, pre.len() as int) =~= f);
    lemma_encode_spaces(k);
    lemma_encode_concat(t, spaces(k));
    assert(f =~= encode_utf8(t + spaces(k)));
    vstd::utf8::encode_utf8_valid_utf8(t + spaces(k));
    vstd::utf8::encode_utf8_decode_utf8(t + spaces(k));
    let u = t + spaces(k);
    assert(decode_text(f) == u);
    if t.len() == 0 {
        assert forall|i: int| 0 <= i < u.len() implies is_white_space(#[trigger] u[i]) by {
            assert(u[i] == ' ');
        }
        lemma_lead_all_ws(u, 0);
        assert(trim_white_space(u) =~= t);
    } else {
        assert(u[0] == t[0]);
        assert(lead_from(u, 0) == 0);
        lemma_trail_padded(t, k, u.len() as int);
        assert(trim_white_space(u) =~= t);
    }
}

/// A big-endian 16-bit value is read back as written.
pub proof fn lemma_be16_round_trip(d: Seq<u8>, i: int, x: u16)
    requires
        0 <= i,
        i + 2 <= d.len(),
        d[i] == be16(x)[0],
        d[i + 1] == be16(x)[1],
    ensures
        rd16(d, i) == x,
{
}

} // verus!

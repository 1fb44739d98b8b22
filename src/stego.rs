//! Least-significant-bit codec: frames a payload and spreads its bits over
//! the R, G and B channels of an RGBA image, pixel by pixel in row-major order.

use vstd::prelude::*;

verus! {

/// Bytes of the fixed marker that opens every frame.
pub const MAGIC_LEN: usize = 5;

/// Bytes of marker plus big-endian length field.
pub const HEADER_LEN: usize = 9;

/// The marker `PXVLT`.
pub open spec fn magic() -> Seq<u8> {
    seq![0x50u8, 0x58u8, 0x56u8, 0x4cu8, 0x54u8]
}

/// Four big-endian bytes of `n`.
pub open spec fn be32(n: int) -> Seq<u8> {
    seq![
        (n / 0x1000000) as u8,
        ((n / 0x10000) % 0x100) as u8,
        ((n / 0x100) % 0x100) as u8,
        (n % 0x100) as u8,
    ]
}

/// The number that four big-endian bytes hold.
pub open spec fn be32_value(b: Seq<u8>) -> int {
    b[0] as int * 0x1000000 + b[1] as int * 0x10000 + b[2] as int * 0x100 + b[3] as int
}

/// `marker ‖ length ‖ payload`.
pub open spec fn frame(d: Seq<u8>) -> Seq<u8> {
    magic() + be32(d.len() as int) + d
}

/// Bytes the low bits of a `w`×`h` image can carry, frame included.
pub open spec fn raw_capacity(w: int, h: int) -> int {
    (w * h * 3) / 8
}

/// Bit `k` of `f`, most significant bit of each byte first.
pub open spec fn frame_bit(f: Seq<u8>, k: int) -> u8 {
    (f[k / 8] >> ((7 - k % 8) as u8)) & 1u8
}

/// Index in the RGBA buffer of the channel that carries bit `k`.
pub open spec fn slot_index(k: int) -> int {
    (k / 3) * 4 + k % 3
}

/// Bit position carried by the byte at index `i` of an RGBA buffer (when `i % 4 < 3`).
pub open spec fn slot_of(i: int) -> int {
    (i / 4) * 3 + i % 4
}

/// `px` with the first `n` carrier channels holding bits of `f`.
pub open spec fn embedded_upto(px: Seq<u8>, f: Seq<u8>, n: int) -> Seq<u8> {
    Seq::new(
        px.len(),
        |i: int|
            if i % 4 < 3 && slot_of(i) < n {
                (px[i] & 0xfeu8) | frame_bit(f, slot_of(i))
            } else {
                px[i]
            },
    )
}

/// `px` with every bit of `f` written into the carrier channels.
pub open spec fn embedded(px: Seq<u8>, f: Seq<u8>) -> Seq<u8> {
    embedded_upto(px, f, 8 * f.len() as int)
}

/// Low bit of the channel that carries bit `k`.
pub open spec fn slot_bit(px: Seq<u8>, k: int) -> u8 {
    px[slot_index(k)] & 1u8
}

/// The first `n` of the eight bits that make decoded byte `j`, packed from the top.
pub open spec fn pack(px: Seq<u8>, nslots: int, j: int, n: nat) -> u8
    decreases n,
{
    if n == 0 {
        0u8
    } else {
        let i = n - 1;
        let acc = pack(px, nslots, j, (n - 1) as nat);
        if 8 * j + i < nslots {
            acc | (slot_bit(px, 8 * j + i) << ((7 - i) as u8))
        } else {
            acc
        }
    }
}

/// Every low bit of the first `nslots` carrier channels, eight to a byte; a last
/// short group fills its byte from the top.
pub open spec fn lsb_bytes(px: Seq<u8>, nslots: int) -> Seq<u8> {
    Seq::new(((nslots + 7) / 8) as nat, |j: int| pack(px, nslots, j, 8))
}

/// Why a payload could not be embedded or recovered.
#[derive(Clone, Copy, Debug, PartialEq, Eq, Structural)]
pub enum StegoError {
    /// The frame needs more bytes than the image can carry.
    CapacityExceeded,
    /// Fewer decoded bytes than the marker.
    NoData,
    /// The decoded bytes do not open with the marker.
    NotAVaultImage,
    /// The length field is missing.
    TruncatedHeader,
    /// The length field points past the decoded bytes.
    CorruptLength,
}

/// What a frame read from decoded bytes yields.
pub open spec fn extract_frame(bytes: Seq<u8>) -> Result<Seq<u8>, StegoError> {
    if bytes.len() < 5 {
        Err(StegoError::NoData)
    } else if bytes.subrange(0, 5) != magic() {
        Err(StegoError::NotAVaultImage)
    } else if bytes.len() < 9 {
        Err(StegoError::TruncatedHeader)
    } else {
        let n = be32_value(bytes.subrange(5, 9));
        if 9 + n > bytes.len() {
            Err(StegoError::CorruptLength)
        } else {
            Ok(bytes.subrange(9, 9 + n))
        }
    }
}

/// An image of `width`×`height` pixels, four bytes each (R, G, B, A), row by row.
#[derive(Clone, Debug)]
pub struct RgbaImage {
    pub width: u32,
    pub height: u32,
    pub pixels: Vec<u8>,
}

impl RgbaImage {
    /// The buffer holds exactly four bytes per pixel.
    pub open spec fn wf(&self) -> bool {
        self.pixels@.len() == 4 * (self.width as int) * (self.height as int)
    }

    /// Carrier channels: three per pixel.
    pub open spec fn slots(&self) -> int {
        3 * (self.width as int) * (self.height as int)
    }

    /// The bytes that decoding reads out of the low bits.
    pub open spec fn decoded(&self) -> Seq<u8> {
        lsb_bytes(self.pixels@, self.slots())
    }
}

proof fn lemma_slot_roundtrip(k: int)
    requires
        k >= 0,
    ensures
        slot_index(k) % 4 == k % 3,
        slot_index(k) / 4 == k / 3,
        slot_index(k) % 4 < 3,
        slot_of(slot_index(k)) == k,
{
    let q = k / 3;
    let r = k % 3;
    assert(0 <= r < 3);
    assert(k == 3 * q + r);
    assert((4 * q + r) % 4 == r && (4 * q + r) / 4 == q) by (nonlinear_arith)
        requires
            0 <= r < 3,
            q >= 0,
    ;
}

proof fn lemma_of_slot(i: int)
    requires
        i >= 0,
        i % 4 < 3,
    ensures
        slot_of(i) >= 0,
        slot_index(slot_of(i)) == i,
{
    let q = i / 4;
    let r = i % 4;
    assert(i == 4 * q + r);
    assert((3 * q + r) % 3 == r && (3 * q + r) / 3 == q) by (nonlinear_arith)
        requires
            0 <= r < 3,
            q >= 0,
    ;
}

proof fn lemma_slot_bound(k: int, npix: int)
    requires
        0 <= k < 3 * npix,
    ensures
        0 <= slot_index(k) < 4 * npix,
{
    assert(k / 3 < npix);
    assert((k / 3) * 4 + k % 3 < 4 * npix) by (nonlinear_arith)
        requires
            k / 3 < npix,
            0 <= k % 3 < 3,
            k / 3 >= 0,
    ;
}

proof fn lemma_embed_step(px: Seq<u8>, f: Seq<u8>, k: int)
    requires
        0 <= k < 8 * f.len(),
        0 <= slot_index(k) < px.len(),
    ensures
        embedded_upto(px, f, k).update(
            slot_index(k),
            (embedded_upto(px, f, k)[slot_index(k)] & 0xfeu8) | frame_bit(f, k),
        ) =~= embedded_upto(px, f, k + 1),
{
    lemma_slot_roundtrip(k);
    let idx = slot_index(k);
    assert forall|i: int| 0 <= i < px.len() && i != idx implies embedded_upto(px, f, k)[i]
        == embedded_upto(px, f, k + 1)[i] by {
        if i % 4 < 3 {
            lemma_of_slot(i);
        }
    }
}

/// The frame for `data`: marker, big-endian length, payload.
fn build_frame(data: &[u8]) -> (f: Vec<u8>)
    requires
        data@.len() <= u32::MAX,
    ensures
        f@ == frame(data@),
{
    let n: u32 = data.len() as u32;
    let mut f: Vec<u8> = Vec::new();
    f.push(0x50u8);
    f.push(0x58u8);
    f.push(0x56u8);
    f.push(0x4cu8);
    f.push(0x54u8);
    f.push((n / 0x1000000) as u8);
    f.push(((n / 0x10000) % 0x100) as u8);
    f.push(((n / 0x100) % 0x100) as u8);
    f.push((n % 0x100) as u8);
    let mut i: usize = 0;
    while i < data.len()
        invariant
            i <= data@.len(),
            f@ == magic() + be32(data@.len() as int) + data@.subrange(0, i as int),
        decreases data@.len() - i,
    {
        f.push(data[i]);
        i += 1;
        assert(data@.subrange(0, i as int) =~= data@.subrange(0, i - 1) + seq![data@[i - 1]]);
    }
    assert(data@.subrange(0, i as int) =~= data@);
    f
}

/// Writes the frame of `data` into the low bits of the R, G and B channels,
/// pixel by pixel in row-major order, and leaves every other byte as it was.
pub fn encode(image: &RgbaImage, data: &[u8]) -> (r: Result<RgbaImage, StegoError>)
    requires
        image.wf(),
        data@.len() <= u32::MAX,
    ensures
        r is Err <==> HEADER_LEN + data@.len() > raw_capacity(
            image.width as int,
            image.height as int,
        ),
        r is Err ==> r == Err::<RgbaImage, StegoError>(StegoError::CapacityExceeded),
        r matches Ok(out) ==> {
            &&& out.width == image.width
            &&& out.height == image.height
            &&& out.wf()
            &&& out.pixels@ == embedded(image.pixels@, frame(data@))
        },
{
    let npix: usize = image.pixels.len() / 4;
    let nslots: usize = npix * 3;
    let capacity: usize = nslots / 8;
    assert(nslots == image.slots()) by (nonlinear_arith)
        requires
            image.pixels@.len() == 4 * (image.width as int) * (image.height as int),
            npix == image.pixels@.len() / 4,
            nslots == npix * 3,
    ;
    assert(capacity as int == raw_capacity(image.width as int, image.height as int)) by (nonlinear_arith)
        requires
            nslots == 3 * (image.width as int) * (image.height as int),
            capacity == nslots / 8,
    ;
    if data.len() > capacity || HEADER_LEN > capacity - data.len() {
        return Err(StegoError::CapacityExceeded);
    }
    let f = build_frame(data);
    let nbits: usize = f.len() * 8;
    let ghost m = image.width as int * image.height as int;
    assert(image.pixels@.len() == 4 * m) by (nonlinear_arith)
        requires
            image.pixels@.len() == 4 * (image.width as int) * (image.height as int),
            m == image.width as int * image.height as int,
    ;
    assert(image.pixels@.len() == 4 * npix);
    let mut out = image.pixels.clone();
    assert(out@ =~= image.pixels@);
    let ghost px = image.pixels@;
    assert(px =~= embedded_upto(px, f@, 0));
    let mut k: usize = 0;
    while k < nbits
        invariant
            nbits == 8 * f@.len(),
            nbits <= nslots,
            nslots == 3 * npix,
            px.len() == 4 * npix,
            px.len() == image.pixels.len(),
            k <= nbits,
            out@ == embedded_upto(px, f@, k as int),
        decreases nbits - k,
    {
        proof {
            lemma_slot_roundtrip(k as int);
            lemma_slot_bound(k as int, npix as int);
        }
        let idx: usize = (k / 3) * 4 + k % 3;
        let bit: u8 = (f[k / 8] >> ((7 - k % 8) as u8)) & 1u8;
        let old_byte: u8 = out[idx];
        out[idx] = (old_byte & 0xfeu8) | bit;
        proof {
            lemma_embed_step(px, f@, k as int);
        }
        k += 1;
    }
    Ok(RgbaImage { width: image.width, height: image.height, pixels: out })
}

/// A decoded result with its bytes seen as a sequence.
pub open spec fn bytes_result(r: Result<Vec<u8>, StegoError>) -> Result<Seq<u8>, StegoError> {
    match r {
        Ok(v) => Ok(v@),
        Err(e) => Err(e),
    }
}

/// Reads the low bit of every R, G and B channel of the whole image, packs the
/// bits into bytes, and returns the payload of the frame they hold.
pub fn decode(image: &RgbaImage) -> (r: Result<Vec<u8>, StegoError>)
    requires
        image.wf(),
    ensures
        bytes_result(r) == extract_frame(image.decoded()),
{
    let npix: usize = image.pixels.len() / 4;
    let nslots: usize = npix * 3;
    let ghost m = image.width as int * image.height as int;
    assert(image.pixels@.len() == 4 * m) by (nonlinear_arith)
        requires
            image.pixels@.len() == 4 * (image.width as int) * (image.height as int),
            m == image.width as int * image.height as int,
    ;
    assert(nslots == image.slots()) by (nonlinear_arith)
        requires
            npix == m,
            nslots == npix * 3,
            m == image.width as int * image.height as int,
    ;
    let nbytes: usize = if nslots % 8 == 0 { nslots / 8 } else { nslots / 8 + 1 };
    assert(nbytes == (nslots + 7) / 8);
    let ghost px = image.pixels@;
    let ghost all = lsb_bytes(px, nslots as int);
    let mut bytes: Vec<u8> = Vec::new();
    let mut j: usize = 0;
    while j < nbytes
        invariant
            px == image.pixels@,
            px.len() == 4 * npix,
            px.len() == image.pixels.len(),
            nslots == 3 * npix,
            nbytes == (nslots + 7) / 8,
            all == lsb_bytes(px, nslots as int),
            j <= nbytes,
            bytes@ == all.subrange(0, j as int),
        decreases nbytes - j,
    {
        let mut acc: u8 = 0;
        let mut i: usize = 0;
        while i < 8
            invariant
                px == image.pixels@,
                px.len() == 4 * npix,
                px.len() == image.pixels.len(),
                nslots == 3 * npix,
                j < nbytes,
                nbytes == (nslots + 7) / 8,
                i <= 8,
                acc == pack(px, nslots as int, j as int, i as nat),
            decreases 8 - i,
        {
            if 8 * j + i < nslots {
                let k: usize = 8 * j + i;
                proof {
                    lemma_slot_bound(k as int, npix as int);
                }
                let idx: usize = (k / 3) * 4 + k % 3;
                let bit: u8 = image.pixels[idx] & 1u8;
                acc = acc | (bit << ((7 - i) as u8));
            }
            i += 1;
        }
        bytes.push(acc);
        j += 1;
        assert(bytes@ =~= all.subrange(0, j as int));
    }
    assert(bytes@ =~= all);
    if bytes.len() < MAGIC_LEN {
        return Err(StegoError::NoData);
    }
    if bytes[0] != 0x50u8 || bytes[1] != 0x58u8 || bytes[2] != 0x56u8 || bytes[3] != 0x4cu8
        || bytes[4] != 0x54u8 {
        proof {
            let s = bytes@.subrange(0, 5);
            assert(s[0] != 0x50u8 || s[1] != 0x58u8 || s[2] != 0x56u8 || s[3] != 0x4cu8 || s[4]
                != 0x54u8);
            assert(s != magic());
        }
        return Err(StegoError::NotAVaultImage);
    }
    assert(bytes@.subrange(0, 5) =~= magic());
    if bytes.len() < HEADER_LEN {
        return Err(StegoError::TruncatedHeader);
    }
    let n: usize = (bytes[5] as usize) * 0x1000000 + (bytes[6] as usize) * 0x10000
        + (bytes[7] as usize) * 0x100 + (bytes[8] as usize);
    assert(n == be32_value(bytes@.subrange(5, 9)));
    if n > bytes.len() - HEADER_LEN {
        return Err(StegoError::CorruptLength);
    }
    let mut out: Vec<u8> = Vec::new();
    let mut t: usize = 0;
    while t < n
        invariant
            t <= n,
            HEADER_LEN + n <= bytes.len(),
            out@ == bytes@.subrange(9, 9 + t),
        decreases n - t,
    {
        out.push(bytes[HEADER_LEN + t]);
        t += 1;
        assert(out@ =~= bytes@.subrange(9, 9 + t));
    }
    Ok(out)
}

proof fn lemma_lsb_write(b: u8, x: u8)
    requires
        x <= 1,
    ensures
        ((b & 0xfeu8) | x) & 1u8 == x,
{
    assert(((b & 0xfeu8) | x) & 1u8 == x) by (bit_vector)
        requires
            x <= 1,
    ;
}

proof fn lemma_bit_le_one(y: u8)
    ensures
        y & 1u8 <= 1,
{
    assert(y & 1u8 <= 1) by (bit_vector);
}

proof fn lemma_pack_byte(x: u8)
    ensures
        (((((((((0u8 | (((x >> 7u8) & 1u8) << 7u8)) | (((x >> 6u8) & 1u8) << 6u8)) | (((x
            >> 5u8) & 1u8) << 5u8)) | (((x >> 4u8) & 1u8) << 4u8)) | (((x >> 3u8) & 1u8)
            << 3u8)) | (((x >> 2u8) & 1u8) << 2u8)) | (((x >> 1u8) & 1u8) << 1u8)) | (((x
            >> 0u8) & 1u8) << 0u8))) == x,
{
    assert((((((((((0u8 | (((x >> 7u8) & 1u8) << 7u8)) | (((x >> 6u8) & 1u8) << 6u8)) | (((x
        >> 5u8) & 1u8) << 5u8)) | (((x >> 4u8) & 1u8) << 4u8)) | (((x >> 3u8) & 1u8) << 3u8))
        | (((x >> 2u8) & 1u8) << 2u8)) | (((x >> 1u8) & 1u8) << 1u8)) | (((x >> 0u8) & 1u8)
        << 0u8))) == x) by (bit_vector);
}

proof fn lemma_be32_value(n: int)
    requires
        0 <= n <= u32::MAX,
    ensures
        be32_value(be32(n)) == n,
{
    let q1 = n / 0x100;
    let q2 = n / 0x10000;
    let a = n / 0x1000000;
    vstd::arithmetic::div_mod::lemma_fundamental_div_mod(n, 0x100);
    vstd::arithmetic::div_mod::lemma_fundamental_div_mod(q1, 0x100);
    vstd::arithmetic::div_mod::lemma_fundamental_div_mod(q2, 0x100);
    vstd::arithmetic::div_mod::lemma_div_denominator(n, 0x100, 0x100);
    vstd::arithmetic::div_mod::lemma_div_denominator(n, 0x10000, 0x100);
    assert(q1 / 0x100 == q2);
    assert(q2 / 0x100 == a);
    assert(a < 0x100);
}

/// Every carrier bit of the embedded image below `8 * f.len()` is the frame's bit.
proof fn lemma_embedded_bits(px: Seq<u8>, f: Seq<u8>, npix: int, k: int)
    requires
        px.len() == 4 * npix,
        8 * f.len() <= 3 * npix,
        0 <= k < 8 * f.len(),
    ensures
        slot_bit(embedded(px, f), k) == frame_bit(f, k),
{
    lemma_slot_roundtrip(k);
    lemma_slot_bound(k, npix);
    lemma_bit_le_one(f[k / 8] >> ((7 - k % 8) as u8));
    lemma_lsb_write(px[slot_index(k)], frame_bit(f, k));
}

proof fn lemma_bit_in_byte(px: Seq<u8>, f: Seq<u8>, npix: int, j: int, i: int)
    requires
        px.len() == 4 * npix,
        8 * f.len() <= 3 * npix,
        0 <= j < f.len(),
        0 <= i < 8,
    ensures
        slot_bit(embedded(px, f), 8 * j + i) == (f[j] >> ((7 - i) as u8)) & 1u8,
{
    lemma_embedded_bits(px, f, npix, 8 * j + i);
    assert((8 * j + i) / 8 == j);
    assert((8 * j + i) % 8 == i);
}

/// Every byte of the frame comes back out of the embedded image's low bits.
proof fn lemma_embedded_byte(px: Seq<u8>, f: Seq<u8>, npix: int, j: int)
    requires
        px.len() == 4 * npix,
        8 * f.len() <= 3 * npix,
        0 <= j < f.len(),
    ensures
        pack(embedded(px, f), 3 * npix, j, 8) == f[j],
{
    let e = embedded(px, f);
    let n = 3 * npix;
    let x = f[j];
    lemma_bit_in_byte(px, f, npix, j, 0);
    lemma_bit_in_byte(px, f, npix, j, 1);
    lemma_bit_in_byte(px, f, npix, j, 2);
    lemma_bit_in_byte(px, f, npix, j, 3);
    lemma_bit_in_byte(px, f, npix, j, 4);
    lemma_bit_in_byte(px, f, npix, j, 5);
    lemma_bit_in_byte(px, f, npix, j, 6);
    lemma_bit_in_byte(px, f, npix, j, 7);
    assert(pack(e, n, j, 0) == 0u8);
    assert(pack(e, n, j, 1) == (0u8 | (((x >> 7u8) & 1u8) << 7u8)));
    assert(pack(e, n, j, 2) == (pack(e, n, j, 1) | (((x >> 6u8) & 1u8) << 6u8)));
    assert(pack(e, n, j, 3) == (pack(e, n, j, 2) | (((x >> 5u8) & 1u8) << 5u8)));
    assert(pack(e, n, j, 4) == (pack(e, n, j, 3) | (((x >> 4u8) & 1u8) << 4u8)));
    assert(pack(e, n, j, 5) == (pack(e, n, j, 4) | (((x >> 3u8) & 1u8) << 3u8)));
    assert(pack(e, n, j, 6) == (pack(e, n, j, 5) | (((x >> 2u8) & 1u8) << 2u8)));
    assert(pack(e, n, j, 7) == (pack(e, n, j, 6) | (((x >> 1u8) & 1u8) << 1u8)));
    assert(pack(e, n, j, 8) == (pack(e, n, j, 7) | (((x >> 0u8) & 1u8) << 0u8)));
    lemma_pack_byte(x);
}

proof fn lemma_extract_of_frame(b: Seq<u8>, d: Seq<u8>)
    requires
        d.len() <= u32::MAX,
        b.len() >= frame(d).len(),
        forall|j: int| 0 <= j < frame(d).len() ==> b[j] == #[trigger] frame(d)[j],
    ensures
        extract_frame(b) == Ok::<Seq<u8>, StegoError>(d),
{
    let f = frame(d);
    assert(f.len() == 9 + d.len());
    assert(b.subrange(0, 5) =~= magic()) by {
        assert forall|j: int| 0 <= j < 5 implies b.subrange(0, 5)[j] == magic()[j] by {
            assert(f[j] == magic()[j]);
        }
    }
    assert(b.subrange(5, 9) =~= be32(d.len() as int)) by {
        assert forall|j: int| 0 <= j < 4 implies b.subrange(5, 9)[j] == be32(d.len() as int)[j] by {
            assert(f[5 + j] == be32(d.len() as int)[j]);
        }
    }
    lemma_be32_value(d.len() as int);
    assert(b.subrange(9, 9 + d.len() as int) =~= d) by {
        assert forall|j: int| 0 <= j < d.len() implies b.subrange(9, 9 + d.len() as int)[j] == d[j] by {
            assert(f[9 + j] == d[j]);
        }
    }
}

/// Decoding gives back the payload that encoding wrote: for every well-formed
/// image and every payload whose frame fits the image's capacity, the frame
/// read from the low bits of the embedded pixels is that payload.
pub proof fn lemma_stego_round_trip(image: RgbaImage, d: Seq<u8>)
    requires
        image.wf(),
        d.len() <= u32::MAX,
        HEADER_LEN + d.len() <= raw_capacity(image.width as int, image.height as int),
    ensures
        extract_frame(lsb_bytes(embedded(image.pixels@, frame(d)), image.slots())) == Ok::<
            Seq<u8>,
            StegoError,
        >(d),
{
    let px = image.pixels@;
    let f = frame(d);
    let w = image.width as int;
    let h = image.height as int;
    let npix = w * h;
    assert(px.len() == 4 * npix) by (nonlinear_arith)
        requires
            px.len() == 4 * w * h,
            npix == w * h,
    ;
    assert(image.slots() == 3 * npix) by (nonlinear_arith)
        requires
            image.slots() == 3 * w * h,
            npix == w * h,
    ;
    assert(raw_capacity(w, h) == (3 * npix) / 8) by (nonlinear_arith)
        requires
            raw_capacity(w, h) == (w * h * 3) / 8,
            npix == w * h,
    ;
    assert(f.len() == 9 + d.len());
    let b = lsb_bytes(embedded(px, f), 3 * npix);
    assert forall|j: int| 0 <= j < f.len() implies b[j] == #[trigger] f[j] by {
        lemma_embedded_byte(px, f, npix, j);
    }
    lemma_extract_of_frame(b, d);
}

/// Payload bytes an image of `w`×`h` pixels can carry: the raw capacity less the
/// frame header, or zero when the header alone does not fit.
pub open spec fn usable_capacity(w: int, h: int) -> int {
    if raw_capacity(w, h) >= HEADER_LEN {
        raw_capacity(w, h) - HEADER_LEN
    } else {
        0
    }
}

/// Payload bytes that fit in a `width`×`height` image once the frame header is
/// taken off; zero for images too small to hold the header.
pub fn calculate_capacity(width: u32, height: u32) -> (r: usize)
    requires
        raw_capacity(width as int, height as int) <= usize::MAX,
    ensures
        r == usable_capacity(width as int, height as int),
{
    assert(width as int * height as int <= u64::MAX) by (nonlinear_arith)
        requires
            width <= u32::MAX,
            height <= u32::MAX,
    ;
    let wh: u64 = width as u64 * height as u64;
    let raw: u64 = (wh / 8) * 3 + ((wh % 8) * 3) / 8;
    assert(raw == raw_capacity(width as int, height as int)) by (nonlinear_arith)
        requires
            wh == width as int * height as int,
            raw == (wh / 8) * 3 + ((wh % 8) * 3) / 8,
    ;
    if raw >= HEADER_LEN as u64 {
        (raw - HEADER_LEN as u64) as usize
    } else {
        0
    }
}

impl RgbaImage {
    /// An image of `width`×`height` pixels, each equal to `pixel`.
    pub fn from_pixel(width: u32, height: u32, pixel: [u8; 4]) -> (r: RgbaImage)
        requires
            4 * (width as int) * (height as int) <= usize::MAX,
        ensures
            r.wf(),
            r.width == width,
            r.height == height,
            forall|i: int| 0 <= i < r.pixels@.len() ==> r.pixels@[i] == pixel@[i % 4],
    {
        assert(width as int * height as int <= 4 * (width as int) * (height as int))
            by (nonlinear_arith);
        assert(4 * (width as int * height as int) == 4 * (width as int) * (height as int))
            by (nonlinear_arith);
        let total: usize = (width as usize) * (height as usize) * 4;
        let mut pixels: Vec<u8> = Vec::new();
        let mut i: usize = 0;
        while i < total
            invariant
                i <= total,
                pixels@.len() == i,
                forall|t: int| 0 <= t < i ==> pixels@[t] == pixel@[t % 4],
            decreases total - i,
        {
            pixels.push(pixel[i % 4]);
            i += 1;
        }
        RgbaImage { width, height, pixels }
    }

    /// An image over `pixels`, or `None` unless it holds exactly four bytes
    /// for each of the `width`×`height` pixels.
    pub fn from_raw(width: u32, height: u32, pixels: Vec<u8>) -> (r: Option<RgbaImage>)
        ensures
            r is Some <==> pixels@.len() == 4 * (width as int) * (height as int),
            r matches Some(img) ==> img.width == width && img.height == height && img.pixels@
                == pixels@,
    {
        assert(width as int * height as int <= u64::MAX) by (nonlinear_arith)
            requires
                width <= u32::MAX,
                height <= u32::MAX,
        ;
        let wh: u64 = width as u64 * height as u64;
        let len: u64 = pixels.len() as u64;
        assert(4 * (width as int) * (height as int) == 4 * (width as int * height as int))
            by (nonlinear_arith);
        if len % 4 == 0 && len / 4 == wh {
            Some(RgbaImage { width, height, pixels })
        } else {
            None
        }
    }

    /// Width and height in pixels.
    pub fn dimensions(&self) -> (r: (u32, u32))
        ensures
            r == (self.width, self.height),
    {
        (self.width, self.height)
    }
}

} // verus!

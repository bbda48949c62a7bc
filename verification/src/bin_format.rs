//! Layout of the `.bin` vector files: an 8-byte header holding the number of
//! points and the number of dimensions (two little-endian `u32`s), followed by
//! the vectors, row by row.
use vstd::prelude::*;
use vstd::arithmetic::div_mod::lemma_fundamental_div_mod_converse;

verus! {

/// Length in bytes of the header of a `.bin` file.
pub const HEADER_LEN: usize = 8;

/// The header of a `.bin` vector file.
#[derive(Debug, Clone, Copy)]
pub struct Metadata {
    pub npts_u32: u32,
    pub ndims_u32: u32,
}

impl Default for Metadata {
    fn default() -> (m: Self)
        ensures
            m.npts_u32 == 0,
            m.ndims_u32 == 0,
    {
        Metadata { npts_u32: 0, ndims_u32: 0 }
    }
}

/// Why a byte image is not a complete `.bin` file.
#[derive(Debug, Clone, Copy, PartialEq, Eq, Structural)]
pub enum BinFormatError {
    /// Fewer than `HEADER_LEN` bytes.
    TruncatedHeader,
    /// The header promises more vector data than the image holds.
    TruncatedPayload,
}

/// The four little-endian bytes of `v`.
pub open spec fn le_u32_bytes(v: u32) -> Seq<u8> {
    seq![
        (v % 256) as u8,
        ((v / 256) % 256) as u8,
        ((v / 65536) % 256) as u8,
        (v / 16777216) as u8,
    ]
}

/// The `u32` whose little-endian bytes start at `at` in `b`.
pub open spec fn le_u32_at(b: Seq<u8>, at: int) -> u32 {
    (b[at] + b[at + 1] * 256 + b[at + 2] * 65536 + b[at + 3] * 16777216) as u32
}

/// The header bytes that describe `m`.
pub open spec fn header_bytes(m: Metadata) -> Seq<u8> {
    le_u32_bytes(m.npts_u32) + le_u32_bytes(m.ndims_u32)
}

/// The metadata read from the first `HEADER_LEN` bytes of `b`.
pub open spec fn header_of(b: Seq<u8>) -> Metadata {
    Metadata { npts_u32: le_u32_at(b, 0), ndims_u32: le_u32_at(b, 4) }
}

/// Number of payload bytes of a file described by `m` whose elements take
/// `elem_size` bytes each.
pub open spec fn payload_len(m: Metadata, elem_size: nat) -> nat {
    m.npts_u32 as nat * m.ndims_u32 as nat * elem_size
}

/// Length of the whole file described by `m`.
pub open spec fn file_len(m: Metadata, elem_size: nat) -> nat {
    HEADER_LEN as nat + payload_len(m, elem_size)
}

/// What reading a `.bin` image gives: the header, then exactly the payload
/// the header announces; bytes after it are not read.
pub open spec fn parse_bin(b: Seq<u8>, elem_size: nat) -> Result<(Metadata, Seq<u8>), BinFormatError> {
    if b.len() < HEADER_LEN {
        Err(BinFormatError::TruncatedHeader)
    } else {
        let m = header_of(b);
        if b.len() < file_len(m, elem_size) {
            Err(BinFormatError::TruncatedPayload)
        } else {
            Ok((m, b.subrange(HEADER_LEN as int, file_len(m, elem_size) as int)))
        }
    }
}

proof fn lemma_le_u32_roundtrip(v: u32)
    ensures
        ({
            let b = le_u32_bytes(v);
            le_u32_at(b, 0) == v
        }),
{
    let b = le_u32_bytes(v);
    assert(b[0] + b[1] * 256 + b[2] * 65536 + b[3] * 16777216 == v) by (nonlinear_arith)
        requires
            b[0] == v % 256,
            b[1] == (v / 256) % 256,
            b[2] == (v / 65536) % 256,
            b[3] == v / 16777216,
    ;
}

fn push_le_u32(out: &mut Vec<u8>, v: u32)
    ensures
        final(out)@ == old(out)@ + le_u32_bytes(v),
{
    out.push((v % 256) as u8);
    out.push(((v / 256) % 256) as u8);
    out.push(((v / 65536) % 256) as u8);
    out.push((v / 16777216) as u8);
    assert(final(out)@ =~= old(out)@ + le_u32_bytes(v));
}

fn read_le_u32(b: &[u8], at: usize) -> (v: u32)
    requires
        at + 4 <= b@.len(),
    ensures
        v == le_u32_at(b@, at as int),
{
    let b0 = b[at] as u32;
    let b1 = b[at + 1] as u32;
    let b2 = b[at + 2] as u32;
    let b3 = b[at + 3] as u32;
    b0 + b1 * 256 + b2 * 65536 + b3 * 16777216
}

/// The header bytes of `m`: the number of points, then the number of
/// dimensions, each least significant byte first.
pub fn encode_header(m: &Metadata) -> (bytes: Vec<u8>)
    ensures
        bytes@ == header_bytes(*m),
        bytes@.len() == HEADER_LEN,
        bytes@[0] == m.npts_u32 % 256,
        bytes@[1] == (m.npts_u32 / 256) % 256,
        bytes@[2] == (m.npts_u32 / 65536) % 256,
        bytes@[3] == (m.npts_u32 / 16777216) % 256,
        bytes@[4] == m.ndims_u32 % 256,
        bytes@[5] == (m.ndims_u32 / 256) % 256,
        bytes@[6] == (m.ndims_u32 / 65536) % 256,
        bytes@[7] == (m.ndims_u32 / 16777216) % 256,
{
    let mut out = Vec::new();
    push_le_u32(&mut out, m.npts_u32);
    push_le_u32(&mut out, m.ndims_u32);
    assert(out@ =~= header_bytes(*m));
    proof {
        lemma_header_little_endian(*m);
    }
    out
}

/// The header stores each count least significant byte first: byte `k` of
/// the header is digit `k` in base 256 of the number of points, and byte
/// `4 + k` is digit `k` of the number of dimensions.
pub proof fn lemma_header_little_endian(m: Metadata)
    ensures
        header_bytes(m).len() == HEADER_LEN,
        header_bytes(m)[0] == m.npts_u32 % 256,
        header_bytes(m)[1] == (m.npts_u32 / 256) % 256,
        header_bytes(m)[2] == (m.npts_u32 / 65536) % 256,
        header_bytes(m)[3] == (m.npts_u32 / 16777216) % 256,
        header_bytes(m)[4] == m.ndims_u32 % 256,
        header_bytes(m)[5] == (m.ndims_u32 / 256) % 256,
        header_bytes(m)[6] == (m.ndims_u32 / 65536) % 256,
        header_bytes(m)[7] == (m.ndims_u32 / 16777216) % 256,
{
    assert(m.npts_u32 / 16777216 < 256);
    assert(m.ndims_u32 / 16777216 < 256);
}

/// Reading a header takes each count least significant byte first: the
/// number of points is `b[0] + 256 b[1] + 256^2 b[2] + 256^3 b[3]`, the
/// number of dimensions the same over `b[4..8]`.
pub proof fn lemma_read_header_little_endian(b: Seq<u8>)
    requires
        b.len() >= HEADER_LEN,
    ensures
        header_of(b).npts_u32 == b[0] + b[1] * 256 + b[2] * 65536 + b[3] * 16777216,
        header_of(b).ndims_u32 == b[4] + b[5] * 256 + b[6] * 65536 + b[7] * 16777216,
{
}

/// Reads the header at the start of `bytes`.
pub fn decode_header(bytes: &[u8]) -> (res: Result<Metadata, BinFormatError>)
    ensures
        bytes@.len() < HEADER_LEN <==> res is Err,
        res matches Ok(m) ==> m == header_of(bytes@),
        res matches Ok(m) ==> m.npts_u32 == bytes@[0] + bytes@[1] * 256 + bytes@[2] * 65536 + bytes@[3] * 16777216,
        res matches Ok(m) ==> m.ndims_u32 == bytes@[4] + bytes@[5] * 256 + bytes@[6] * 65536 + bytes@[7] * 16777216,
        res matches Err(e) ==> e == BinFormatError::TruncatedHeader,
{
    proof {
        if bytes@.len() >= HEADER_LEN {
            lemma_read_header_little_endian(bytes@);
        }
    }
    if bytes.len() < HEADER_LEN {
        Err(BinFormatError::TruncatedHeader)
    } else {
        let npts_u32 = read_le_u32(bytes, 0);
        let ndims_u32 = read_le_u32(bytes, 4);
        Ok(Metadata { npts_u32, ndims_u32 })
    }
}


/// Reading back a header gives the metadata it was written from.
pub proof fn lemma_header_roundtrip(m: Metadata)
    ensures
        header_bytes(m).len() == HEADER_LEN,
        header_of(header_bytes(m)) == m,
{
    let b = header_bytes(m);
    lemma_le_u32_roundtrip(m.npts_u32);
    lemma_le_u32_roundtrip(m.ndims_u32);
    assert(b.subrange(0, 4) =~= le_u32_bytes(m.npts_u32));
    assert(b.subrange(4, 8) =~= le_u32_bytes(m.ndims_u32));
    assert(le_u32_at(b, 4) == le_u32_at(le_u32_bytes(m.ndims_u32), 0));
}

/// Splits the image of a `.bin` file whose elements take `elem_size` bytes
/// into its header and its payload.
pub fn parse_bin_file(bytes: &[u8], elem_size: usize) -> (res: Result<(Metadata, Vec<u8>), BinFormatError>)
    ensures
        match res {
            Ok((m, payload)) => parse_bin(bytes@, elem_size as nat) == Ok::<(Metadata, Seq<u8>), BinFormatError>((m, payload@)),
            Err(e) => parse_bin(bytes@, elem_size as nat) == Err::<(Metadata, Seq<u8>), BinFormatError>(e),
        },
{
    let m = match decode_header(bytes) {
        Ok(m) => m,
        Err(e) => return Err(e),
    };
    let ghost np = m.npts_u32 as nat * m.ndims_u32 as nat;
    proof {
        assert(payload_len(m, elem_size as nat) == np * elem_size);
    }
    let total: Option<usize> = if elem_size == 0 {
        Some(HEADER_LEN)
    } else {
        match (m.npts_u32 as usize).checked_mul(m.ndims_u32 as usize) {
            Some(points) => match points.checked_mul(elem_size) {
                Some(n) => n.checked_add(HEADER_LEN),
                None => None,
            },
            None => {
                proof {
                    assert(np * elem_size >= np) by (nonlinear_arith)
                        requires
                            elem_size >= 1,
                    ;
                }
                None
            },
        }
    };
    let end = match total {
        Some(end) => end,
        None => {
            assert(file_len(m, elem_size as nat) > usize::MAX);
            assert(bytes@.len() == bytes.len());
            assert(parse_bin(bytes@, elem_size as nat) == Err::<(Metadata, Seq<u8>), BinFormatError>(BinFormatError::TruncatedPayload));
            return Err(BinFormatError::TruncatedPayload);
        },
    };
    if bytes.len() < end {
        return Err(BinFormatError::TruncatedPayload);
    }
    let mut payload: Vec<u8> = Vec::new();
    let mut i: usize = HEADER_LEN;
    while i < end
        invariant
            HEADER_LEN <= i <= end <= bytes@.len(),
            payload@ == bytes@.subrange(HEADER_LEN as int, i as int),
        decreases end - i,
    {
        payload.push(bytes[i]);
        i = i + 1;
        assert(payload@ =~= bytes@.subrange(HEADER_LEN as int, i as int));
    }
    Ok((m, payload))
}

/// The image of a `.bin` file: the header of `m`, then `payload`.
pub fn encode_bin_file(m: &Metadata, payload: &[u8]) -> (bytes: Vec<u8>)
    ensures
        bytes@ == header_bytes(*m) + payload@,
{
    let mut out = encode_header(m);
    let mut i: usize = 0;
    while i < payload.len()
        invariant
            i <= payload@.len(),
            out@ == header_bytes(*m) + payload@.subrange(0, i as int),
        decreases payload@.len() - i,
    {
        out.push(payload[i]);
        i = i + 1;
        assert(out@ =~= header_bytes(*m) + payload@.subrange(0, i as int));
    }
    assert(payload@.subrange(0, payload@.len() as int) =~= payload@);
    out
}

/// The image of a freshly created `.bin` file described by `m`: its header,
/// then all of its vectors zeroed.
pub fn empty_bin_file(m: &Metadata, elem_size: usize) -> (bytes: Vec<u8>)
    requires
        file_len(*m, elem_size as nat) <= usize::MAX,
    ensures
        bytes@ == header_bytes(*m) + Seq::new(payload_len(*m, elem_size as nat), |i: int| 0u8),
{
    proof {
        assert(payload_len(*m, elem_size as nat) == (m.npts_u32 as nat * m.ndims_u32 as nat) * elem_size)
            by (nonlinear_arith);
        assert(m.npts_u32 as nat * m.ndims_u32 as nat <= payload_len(*m, elem_size as nat) || elem_size == 0)
            by (nonlinear_arith)
            requires
                payload_len(*m, elem_size as nat) == (m.npts_u32 as nat * m.ndims_u32 as nat) * elem_size,
        ;
    }
    let n: usize = if elem_size == 0 {
        0
    } else {
        assert(m.npts_u32 as nat * m.ndims_u32 as nat <= usize::MAX);
        let points = (m.npts_u32 as usize) * (m.ndims_u32 as usize);
        points * elem_size
    };
    let mut out = encode_header(m);
    let mut i: usize = 0;
    while i < n
        invariant
            i <= n,
            n == payload_len(*m, elem_size as nat),
            out@ == header_bytes(*m) + Seq::new(i as nat, |j: int| 0u8),
        decreases n - i,
    {
        out.push(0u8);
        i = i + 1;
        assert(out@ =~= header_bytes(*m) + Seq::new(i as nat, |j: int| 0u8));
    }
    out
}

/// Reading back a written file gives the metadata and payload it was written
/// from, when the payload has the length that the metadata announces.
pub proof fn lemma_parse_encoded(m: Metadata, payload: Seq<u8>, elem_size: nat)
    requires
        payload.len() == payload_len(m, elem_size),
    ensures
        parse_bin(header_bytes(m) + payload, elem_size) == Ok::<(Metadata, Seq<u8>), BinFormatError>((m, payload)),
{
    let b = header_bytes(m) + payload;
    lemma_header_roundtrip(m);
    assert(b.subrange(0, HEADER_LEN as int) =~= header_bytes(m));
    assert(header_of(b) == header_of(header_bytes(m))) by {
        assert(forall|i: int| 0 <= i < HEADER_LEN ==> b[i] == header_bytes(m)[i]);
    }
    assert(b.subrange(HEADER_LEN as int, file_len(m, elem_size) as int) =~= payload);
}

/// A freshly created file reads back as its metadata and an all-zero payload.
pub proof fn lemma_parse_empty(m: Metadata, elem_size: nat)
    ensures
        parse_bin(header_bytes(m) + Seq::new(payload_len(m, elem_size), |i: int| 0u8), elem_size)
            == Ok::<(Metadata, Seq<u8>), BinFormatError>((m, Seq::new(payload_len(m, elem_size), |i: int| 0u8))),
{
    lemma_parse_encoded(m, Seq::new(payload_len(m, elem_size), |i: int| 0u8), elem_size);
}


/// Byte offset in a file of one-byte elements at which vector `idx` starts.
pub open spec fn vector_start(m: Metadata, idx: nat) -> nat {
    HEADER_LEN as nat + idx * m.ndims_u32 as nat
}

/// Where vector `idx` of a file of one-byte elements described by `m` starts:
/// `None` when the file holds no vector `idx`.
pub fn vector_offset(m: &Metadata, idx: usize) -> (off: Option<u64>)
    ensures
        (idx < m.npts_u32) <==> off is Some,
        off matches Some(o) ==> o == vector_start(*m, idx as nat),
{
    if idx < m.npts_u32 as usize {
        let i = idx as u64;
        let d = m.ndims_u32 as u64;
        assert(i * d <= 0xffff_fffeu64 * 0xffff_ffffu64) by (nonlinear_arith)
            requires
                i < 0xffff_ffffu64,
                d <= 0xffff_ffffu64,
        ;
        Some(HEADER_LEN as u64 + i * d)
    } else {
        None
    }
}

/// The vectors of a file occupy disjoint byte ranges.
pub proof fn lemma_vector_spans_disjoint(m: Metadata, i: nat, j: nat)
    requires
        i != j,
    ensures
        vector_start(m, i) + m.ndims_u32 <= vector_start(m, j)
            || vector_start(m, j) + m.ndims_u32 <= vector_start(m, i),
{
    let d = m.ndims_u32 as nat;
    if i < j {
        assert(i * d + d <= j * d) by (nonlinear_arith)
            requires
                i < j,
        ;
    } else {
        assert(j * d + d <= i * d) by (nonlinear_arith)
            requires
                j < i,
        ;
    }
}

/// Every vector that the header announces lies inside the file.
pub proof fn lemma_vector_span_in_file(m: Metadata, i: nat)
    requires
        i < m.npts_u32,
    ensures
        vector_start(m, i) + m.ndims_u32 <= file_len(m, 1),
{
    let d = m.ndims_u32 as nat;
    let n = m.npts_u32 as nat;
    assert(i * d + d <= n * d * 1) by (nonlinear_arith)
        requires
            i < n,
    ;
}


/// Vector `idx` as it stands in the image of a file of one-byte elements.
pub open spec fn read_vector(image: Seq<u8>, m: Metadata, idx: nat) -> Seq<u8> {
    image.subrange(vector_start(m, idx) as int, vector_start(m, idx) + m.ndims_u32)
}

/// The image after `v` is written over vector `idx`.
pub open spec fn write_vector(image: Seq<u8>, m: Metadata, idx: nat, v: Seq<u8>) -> Seq<u8> {
    image.subrange(0, vector_start(m, idx) as int) + v + image.subrange(
        vector_start(m, idx) + m.ndims_u32,
        image.len() as int,
    )
}

/// Writing a vector at the offset of its index keeps the image's length and
/// its header, reads back as the written vector, and leaves every other
/// vector as it was. Bytes after the announced vectors, if any, do not
/// matter.
pub proof fn lemma_read_after_write(image: Seq<u8>, m: Metadata, i: nat, j: nat, v: Seq<u8>)
    requires
        image.len() >= file_len(m, 1),
        i < m.npts_u32,
        j < m.npts_u32,
        v.len() == m.ndims_u32,
    ensures
        write_vector(image, m, i, v).len() == image.len(),
        write_vector(image, m, i, v).subrange(0, HEADER_LEN as int) == image.subrange(0, HEADER_LEN as int),
        read_vector(write_vector(image, m, i, v), m, j) == if i == j {
            v
        } else {
            read_vector(image, m, j)
        },
{
    lemma_vector_span_in_file(m, i);
    lemma_vector_span_in_file(m, j);
    let w = write_vector(image, m, i, v);
    let si = vector_start(m, i) as int;
    let sj = vector_start(m, j) as int;
    let d = m.ndims_u32 as int;
    assert(w.len() == image.len());
    assert(w.subrange(0, HEADER_LEN as int) =~= image.subrange(0, HEADER_LEN as int));
    if i == j {
        assert(read_vector(w, m, j) =~= v);
    } else {
        lemma_vector_spans_disjoint(m, i, j);
        assert forall|k: int| 0 <= k < d implies #[trigger] w[sj + k] == image[sj + k] by {
            if sj + k < si {
            } else {
                assert(sj + k >= si + d);
            }
        }
        assert(read_vector(w, m, j) =~= read_vector(image, m, j));
    }
}

proof fn lemma_le_u32_bytes_at(b: Seq<u8>, at: int)
    requires
        0 <= at,
        at + 4 <= b.len(),
    ensures
        le_u32_bytes(le_u32_at(b, at)) == b.subrange(at, at + 4),
{
    let b0 = b[at] as int;
    let b1 = b[at + 1] as int;
    let b2 = b[at + 2] as int;
    let b3 = b[at + 3] as int;
    let x = b0 + b1 * 256 + b2 * 65536 + b3 * 16777216;
    assert(0 <= x < 0x1_0000_0000);
    let v = le_u32_at(b, at);
    assert(v as int == x);
    lemma_fundamental_div_mod_converse(x, 256, b1 + b2 * 256 + b3 * 65536, b0);
    lemma_fundamental_div_mod_converse(x, 65536, b2 + b3 * 256, b0 + b1 * 256);
    lemma_fundamental_div_mod_converse(x, 16777216, b3, b0 + b1 * 256 + b2 * 65536);
    lemma_fundamental_div_mod_converse(b1 + b2 * 256 + b3 * 65536, 256, b2 + b3 * 256, b1);
    lemma_fundamental_div_mod_converse(b2 + b3 * 256, 256, b3, b2);
    assert(le_u32_bytes(v) =~= b.subrange(at, at + 4));
}

/// The header written for the metadata read from an image is byte for byte
/// the image's own header.
pub proof fn lemma_header_bytes_of_read_header(b: Seq<u8>)
    requires
        b.len() >= HEADER_LEN,
    ensures
        header_bytes(header_of(b)) == b.subrange(0, HEADER_LEN as int),
{
    lemma_le_u32_bytes_at(b, 0);
    lemma_le_u32_bytes_at(b, 4);
    assert(header_bytes(header_of(b)) =~= b.subrange(0, HEADER_LEN as int));
}

} // verus!

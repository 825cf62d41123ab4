//! LoxCC decompression: a Loxone backup's `sps0.LoxCC` is a 16-byte header
//! followed by an LZ4-style token stream that expands to the project XML.
//!
//! Layout:
//!   [0..4]   u32 little-endian magic (0xaabbccee)
//!   [4..8]   u32 little-endian compressed payload size (ignored)
//!   [8..12]  u32 little-endian uncompressed size hint (ignored)
//!   [12..16] u32 little-endian reserved / checksum (ignored)
//!   [16..]   token stream
//!
//! Each block: a token byte (high nibble = literal count, low nibble = match
//! length minus 4; a nibble of 15 is extended by following bytes, each 255
//! continuing the extension), the literal bytes, then a little-endian `u16`
//! back-reference offset and the match copy. A stream may end after any
//! block's literals; a literal block running past the end is copied as far
//! as the data goes.

use vstd::prelude::*;
use crate::archive::{zip_open, zip_len, zip_name_at, zip_bytes_at, zip_error_message, zip_opens, zip_entry_count, zip_entry_name, zip_entry_bytes};
use crate::text::{chars_of, push_str, push_decimal, push_hex_fixed, string_of, contains_chars, lowercase_chars, decimal, hex_fixed, contains_seq, lowercase_of};

verus! {

/// The magic number that opens every LoxCC file.
pub const LOXCC_MAGIC: u32 = 0xaabbccee;

/// Why a LoxCC blob (or the backup ZIP around it) could not be expanded.
#[derive(Debug)]
pub enum LoxccError {
    /// Fewer than 16 bytes: no room for the header.
    TooShort { len: usize },
    /// The first four bytes are not the LoxCC magic.
    BadMagic { magic: u32 },
    /// A back-reference with offset 0, at this position of the token stream.
    ZeroOffset { at: usize },
    /// A back-reference reaching before the start of the output.
    OffsetTooLarge { offset: usize, output_len: usize },
    /// The backup is not a readable ZIP archive (the archive reader's message).
    InvalidZip { detail: String },
    /// An entry of the ZIP archive could not be opened or read.
    ZipEntry { detail: String },
    /// The ZIP archive has no entry whose name contains `sps0.loxcc`.
    MissingLoxcc,
}

/// Little-endian `u32` at `i`.
pub open spec fn le_u32(b: Seq<u8>, i: int) -> int {
    b[i] + b[i + 1] * 256 + b[i + 2] * 65536 + b[i + 3] * 16777216
}

/// Little-endian `u16` at `i`.
pub open spec fn le_u16(b: Seq<u8>, i: int) -> int {
    b[i] + b[i + 1] * 256
}

/// A length extension starting at `pos`: bytes are added up while each is
/// 255; the first byte below 255 is added and ends it, as does the end of
/// the stream. Yields the sum and the position after the extension.
pub open spec fn ext_len(c: Seq<u8>, pos: int) -> (int, int)
    decreases c.len() - pos,
{
    if pos < 0 || pos >= c.len() {
        (0, pos)
    } else if c[pos] == 255 {
        let r = ext_len(c, pos + 1);
        (r.0 + 255, r.1)
    } else {
        (c[pos] as int, pos + 1)
    }
}

/// An extension never moves backwards and never adds a negative amount.
pub proof fn lemma_ext_len_bounds(c: Seq<u8>, pos: int)
    ensures
        ext_len(c, pos).1 >= pos,
        ext_len(c, pos).0 >= 0,
        0 <= pos <= c.len() ==> ext_len(c, pos).1 <= c.len(),
    decreases c.len() - pos,
{
    if 0 <= pos < c.len() && c[pos] == 255 {
        lemma_ext_len_bounds(c, pos + 1);
    }
}

/// `out` followed by `n` bytes copied from `offset` bytes back; a copy longer
/// than `offset` repeats the last `offset` bytes.
pub open spec fn lz_copy(out: Seq<u8>, offset: int, n: int) -> Seq<u8> {
    out + Seq::new(n as nat, |i: int| out[out.len() - offset + i % offset])
}

/// Expands the token stream `c` from `pos` on, with `out` already produced.
pub open spec fn decode_from(c: Seq<u8>, pos: int, out: Seq<u8>) -> Result<Seq<u8>, LoxccError>
    decreases c.len() - pos,
{
    if pos < 0 || pos >= c.len() {
        Ok(out)
    } else {
        let token = c[pos];
        let lit_nib = token / 16;
        let lit_ext = ext_len(c, pos + 1);
        let lit = if lit_nib == 15 { 15 + lit_ext.0 } else { lit_nib as int };
        let p2 = if lit_nib == 15 { lit_ext.1 } else { pos + 1 };
        if p2 + lit > c.len() {
            Ok(out + c.subrange(p2, c.len() as int))
        } else {
            let out2 = out + c.subrange(p2, p2 + lit);
            let p3 = p2 + lit;
            if p3 + 2 > c.len() {
                Ok(out2)
            } else {
                let offset = le_u16(c, p3);
                let p4 = p3 + 2;
                if offset == 0 {
                    Err(LoxccError::ZeroOffset { at: p3 as usize })
                } else if offset > out2.len() {
                    Err(LoxccError::OffsetTooLarge { offset: offset as usize, output_len: out2.len() as usize })
                } else {
                    let m_nib = token % 16;
                    let m_ext = ext_len(c, p4);
                    let mlen = if m_nib == 15 { 19 + m_ext.0 } else { m_nib + 4 };
                    let p5 = if m_nib == 15 { m_ext.1 } else { p4 };
                    proof {
                        lemma_ext_len_bounds(c, pos + 1);
                        lemma_ext_len_bounds(c, p4);
                    }
                    decode_from(c, p5, lz_copy(out2, offset, mlen))
                }
            }
        }
    }
}

/// What `decompress_loxcc` yields for `data`.
pub open spec fn decompress_spec(data: Seq<u8>) -> Result<Seq<u8>, LoxccError> {
    if data.len() < 16 {
        Err(LoxccError::TooShort { len: data.len() as usize })
    } else if le_u32(data, 0) != LOXCC_MAGIC {
        Err(LoxccError::BadMagic { magic: le_u32(data, 0) as u32 })
    } else {
        decode_from(data.subrange(16, data.len() as int), 0, Seq::empty())
    }
}

/// `r` read as a result over byte sequences.
pub open spec fn bytes_result(r: Result<Vec<u8>, LoxccError>) -> Result<Seq<u8>, LoxccError> {
    match r {
        Ok(v) => Ok(v@),
        Err(e) => Err(e),
    }
}

/// The smaller of two integers.
pub open spec fn min_int(a: int, b: int) -> int {
    if a <= b { a } else { b }
}

/// Appends `data[from..to]` to `out`.
fn push_range(out: &mut Vec<u8>, data: &[u8], from: usize, to: usize)
    requires
        from <= to <= data@.len(),
    ensures
        final(out)@ == old(out)@ + data@.subrange(from as int, to as int),
{
    let ghost start = out@;
    let mut k = from;
    while k < to
        invariant
            from <= k <= to <= data@.len(),
            out@ == start + data@.subrange(from as int, k as int),
        decreases to - k,
    {
        out.push(data[k]);
        assert(data@.subrange(from as int, k + 1) == data@.subrange(from as int, k as int).push(data@[k as int]));
        k = k + 1;
    }
}

/// Extends a back-reference copy of `base` by `n` more bytes, `i` bytes having been copied.
fn lz_extend(out: &mut Vec<u8>, Ghost(base): Ghost<Seq<u8>>, offset: usize, i: usize, n: usize)
    requires
        1 <= offset <= base.len(),
        old(out)@ == lz_copy(base, offset as int, i as int),
    ensures
        final(out)@ == lz_copy(base, offset as int, i + n),
        i + n <= final(out)@.len(),
{
    let start = out.len() - i - offset;
    let mut k: usize = 0;
    while k < n
        invariant
            1 <= offset <= base.len(),
            start == base.len() - offset,
            k <= n,
            out@ == lz_copy(base, offset as int, i + k),
        decreases n - k,
    {
        let cur = out.len();
        assert(cur == base.len() + i + k);
        let idx = start + (i + k) % offset;
        let b = out[idx];
        assert(b == base[base.len() - offset + ((i + k) as int) % (offset as int)]);
        out.push(b);
        assert(out@ =~= lz_copy(base, offset as int, i + k + 1));
        k = k + 1;
    }
    let fin = out.len();
    assert(fin == base.len() + i + n);
}

/// Expands a `sps0.LoxCC` blob to the bytes it encodes (the project XML).
///
/// Fails when the blob is shorter than its 16-byte header, when the magic is
/// wrong, and when a back-reference has offset 0 or reaches before the start
/// of the output; otherwise the expansion is returned, a truncated final
/// block contributing what it holds. It takes every input: no index leaves
/// its bounds, no arithmetic overflows or divides by zero, and the stream
/// position grows with every block, so the call always returns.
pub fn decompress_loxcc(data: &[u8]) -> (r: Result<Vec<u8>, LoxccError>)
    ensures
        bytes_result(r) == decompress_spec(data@),
{
    let len = data.len();
    if len < 16 {
        return Err(LoxccError::TooShort { len });
    }
    let magic: u32 = (data[0] as u32) + (data[1] as u32) * 256 + (data[2] as u32) * 65536 + (data[3] as u32) * 16777216;
    if magic != LOXCC_MAGIC {
        return Err(LoxccError::BadMagic { magic });
    }
    let ghost c = data@.subrange(16, len as int);
    let clen = len - 16;
    let mut out: Vec<u8> = Vec::new();
    let mut pos: usize = 0;
    while pos < clen
        invariant
            len == data@.len(),
            clen == len - 16,
            c == data@.subrange(16, len as int),
            pos <= clen,
            decode_from(c, pos as int, out@) == decode_from(c, 0, Seq::empty()),
            decompress_spec(data@) == decode_from(c, 0, Seq::empty()),
        decreases clen - pos,
    {
        let ghost pos0 = pos as int;
        let ghost out0 = out@;
        let token = data[16 + pos];
        assert(token == c[pos0]);
        pos = pos + 1;
        let lit_nib = token / 16;
        let mut lit_len: usize = lit_nib as usize;
        proof {
            lemma_ext_len_bounds(c, pos0 + 1);
        }
        if lit_nib == 15 {
            let ghost ext = ext_len(c, pos0 + 1);
            let ghost mut acc: int = 0;
            lit_len = if 15 <= clen { 15 } else { clen };
            loop
                invariant_except_break
                    len == data@.len(),
                    clen == len - 16,
                    c == data@.subrange(16, len as int),
                    pos0 + 1 <= pos <= clen,
                    acc >= 0,
                    acc + ext_len(c, pos as int).0 == ext.0,
                    ext_len(c, pos as int).1 == ext.1,
                    lit_len == min_int(15 + acc, clen as int),
                ensures
                    pos0 + 1 <= pos <= clen,
                    pos == ext.1,
                    lit_len == min_int(15 + ext.0, clen as int),
                decreases clen - pos,
            {
                if pos >= clen {
                    break;
                }
                let extra = data[16 + pos] as usize;
                assert(extra == c[pos as int]);
                pos = pos + 1;
                lit_len = if extra >= clen - lit_len { clen } else { lit_len + extra };
                proof {
                    acc = acc + extra;
                }
                if extra != 255 {
                    break;
                }
            }
        }
        // From here `lit_len` is the literal count, capped at `clen`; the cap
        // cannot change the comparison below because `clen - pos < clen`.
        let ghost lit_ext = ext_len(c, pos0 + 1);
        let ghost tl: int = if lit_nib == 15 { 15 + lit_ext.0 } else { lit_nib as int };
        assert(pos as int == if lit_nib == 15 { lit_ext.1 } else { pos0 + 1 });
        assert((lit_len > clen - pos) == (pos + tl > c.len()));
        if lit_len > clen - pos {
            push_range(&mut out, data, 16 + pos, len);
            assert(c.subrange(pos as int, clen as int) == data@.subrange(16 + pos, len as int));
            assert(decode_from(c, pos0, out0) == Ok::<Seq<u8>, LoxccError>(out@));
            return Ok(out);
        }
        assert(lit_len == tl);
        push_range(&mut out, data, 16 + pos, 16 + pos + lit_len);
        assert(c.subrange(pos as int, pos + lit_len) == data@.subrange(16 + pos, 16 + pos + lit_len));
        pos = pos + lit_len;
        if pos + 2 > clen {
            assert(decode_from(c, pos0, out0) == Ok::<Seq<u8>, LoxccError>(out@));
            return Ok(out);
        }
        let offset = (data[16 + pos] as usize) + (data[16 + pos + 1] as usize) * 256;
        assert(offset == le_u16(c, pos as int));
        if offset == 0 {
            return Err(LoxccError::ZeroOffset { at: pos });
        }
        if offset > out.len() {
            return Err(LoxccError::OffsetTooLarge { offset, output_len: out.len() });
        }
        pos = pos + 2;
        let ghost base = out@;
        let m_nib = token % 16;
        let ghost m_ext = ext_len(c, pos as int);
        proof {
            lemma_ext_len_bounds(c, pos as int);
        }
        let first: usize = if m_nib == 15 { 19 } else { m_nib as usize + 4 };
        assert(out@ == lz_copy(base, offset as int, 0));
        lz_extend(&mut out, Ghost(base), offset, 0, first);
        let mut copied: usize = first;
        if m_nib == 15 {
            loop
                invariant_except_break
                    len == data@.len(),
                    clen == len - 16,
                    c == data@.subrange(16, len as int),
                    pos <= clen,
                    1 <= offset <= base.len(),
                    out@ == lz_copy(base, offset as int, copied as int),
                    copied + ext_len(c, pos as int).0 == 19 + m_ext.0,
                    ext_len(c, pos as int).1 == m_ext.1,
                ensures
                    pos <= clen,
                    pos == m_ext.1,
                    out@ == lz_copy(base, offset as int, 19 + m_ext.0),
                decreases clen - pos,
            {
                if pos >= clen {
                    break;
                }
                let extra = data[16 + pos] as usize;
                assert(extra == c[pos as int]);
                pos = pos + 1;
                lz_extend(&mut out, Ghost(base), offset, copied, extra);
                let cur = out.len();
                assert(copied + extra <= cur);
                copied = copied + extra;
                if extra != 255 {
                    break;
                }
            }
        }
    }
    Ok(out)
}

impl LoxccError {
    /// The error's message, as the command line prints it.
    pub open spec fn message(&self) -> Seq<char> {
        match self {
            LoxccError::TooShort { len } =>
                "LoxCC data too short ("@ + decimal(*len as nat) + " bytes)"@,
            LoxccError::BadMagic { magic } =>
                "Not a valid LoxCC file (magic: 0x"@ + hex_fixed(*magic as nat, 8)
                    + ", expected 0x"@ + hex_fixed(LOXCC_MAGIC as nat, 8) + ")"@,
            LoxccError::ZeroOffset { at } =>
                "LoxCC: zero back-reference offset at byte "@ + decimal(*at as nat),
            LoxccError::OffsetTooLarge { offset, output_len } =>
                "LoxCC: back-reference offset "@ + decimal(*offset as nat)
                    + " exceeds output size "@ + decimal(*output_len as nat),
            LoxccError::InvalidZip { detail } => "Invalid ZIP archive"@,
            LoxccError::ZipEntry { detail } => detail@,
            LoxccError::MissingLoxcc => "Backup ZIP does not contain sps0.LoxCC"@,
        }
    }

    /// Renders the message.
    pub fn to_string(&self) -> (s: String)
        ensures
            s@ == self.message(),
    {
        let mut v: Vec<char> = Vec::new();
        match self {
            LoxccError::TooShort { len } => {
                push_str(&mut v, "LoxCC data too short (");
                push_decimal(&mut v, *len as u64);
                push_str(&mut v, " bytes)");
            },
            LoxccError::BadMagic { magic } => {
                push_str(&mut v, "Not a valid LoxCC file (magic: 0x");
                push_hex_fixed(&mut v, *magic as u64, 8);
                push_str(&mut v, ", expected 0x");
                push_hex_fixed(&mut v, LOXCC_MAGIC as u64, 8);
                push_str(&mut v, ")");
            },
            LoxccError::ZeroOffset { at } => {
                push_str(&mut v, "LoxCC: zero back-reference offset at byte ");
                push_decimal(&mut v, *at as u64);
            },
            LoxccError::OffsetTooLarge { offset, output_len } => {
                push_str(&mut v, "LoxCC: back-reference offset ");
                push_decimal(&mut v, *offset as u64);
                push_str(&mut v, " exceeds output size ");
                push_decimal(&mut v, *output_len as u64);
            },
            LoxccError::InvalidZip { detail } => {
                push_str(&mut v, "Invalid ZIP archive");
            },
            LoxccError::ZipEntry { detail } => {
                push_str(&mut v, detail.as_str());
            },
            LoxccError::MissingLoxcc => {
                push_str(&mut v, "Backup ZIP does not contain sps0.LoxCC");
            },
        }
        string_of(&v)
    }
}

/// The four header bytes of the magic, little-endian.
pub open spec fn magic_bytes() -> Seq<u8> {
    seq![0xeeu8, 0xccu8, 0xbbu8, 0xaau8]
}

/// Extension bytes that add up to `n`: 255 as often as it fits, then the rest.
pub open spec fn ext_bytes(n: nat) -> Seq<u8>
    decreases n,
{
    if n < 255 {
        seq![n as u8]
    } else {
        seq![255u8] + ext_bytes((n - 255) as nat)
    }
}

/// A block that carries `x` as literals and nothing else.
pub open spec fn literal_block(x: Seq<u8>) -> Seq<u8> {
    if x.len() < 15 {
        seq![(x.len() * 16) as u8] + x
    } else {
        seq![0xf0u8] + ext_bytes((x.len() - 15) as nat) + x
    }
}

/// A block of literals `lits` followed by a back-reference of `offset` and
/// `mlen` bytes (both nibbles below 15).
pub open spec fn short_match_block(lits: Seq<u8>, offset: int, mlen: int) -> Seq<u8> {
    seq![(lits.len() * 16 + (mlen - 4)) as u8] + lits + seq![(offset % 256) as u8, (offset / 256) as u8]
}

proof fn lemma_ext_bytes_read(c: Seq<u8>, p: int, n: nat)
    requires
        0 <= p,
        p + ext_bytes(n).len() <= c.len(),
        c.subrange(p, p + ext_bytes(n).len()) == ext_bytes(n),
    ensures
        ext_len(c, p) == (n as int, p + ext_bytes(n).len()),
    decreases n,
{
    if n < 255 {
        assert(c[p] == c.subrange(p, p + 1)[0]);
    } else {
        let rest = ext_bytes((n - 255) as nat);
        assert(ext_bytes(n) == seq![255u8] + rest);
        assert(c[p] == ext_bytes(n)[0]);
        assert(c.subrange(p + 1, p + 1 + rest.len()) =~= rest) by {
            assert forall|k: int| 0 <= k < rest.len() implies c.subrange(p + 1, p + 1 + rest.len())[k] == rest[k] by {
                assert(c.subrange(p, p + ext_bytes(n).len())[k + 1] == ext_bytes(n)[k + 1]);
            }
        }
        lemma_ext_bytes_read(c, p + 1, (n - 255) as nat);
    }
}

proof fn lemma_ext_bytes_len(n: nat)
    ensures
        ext_bytes(n).len() >= 1,
    decreases n,
{
    if n >= 255 {
        lemma_ext_bytes_len((n - 255) as nat);
    }
}

/// The header fields after the magic (payload size, size hint, checksum)
/// are not read: blobs that agree in magic and token stream expand alike.
pub proof fn law_header_fields_ignored(a: Seq<u8>, b: Seq<u8>)
    requires
        a.len() == b.len(),
        a.len() >= 16,
        a.subrange(0, 4) == b.subrange(0, 4),
        a.subrange(16, a.len() as int) == b.subrange(16, b.len() as int),
    ensures
        decompress_spec(a) == decompress_spec(b),
{
    assert forall|i: int| 0 <= i < 4 implies a[i] == b[i] by {
        assert(a[i] == a.subrange(0, 4)[i]);
        assert(b[i] == b.subrange(0, 4)[i]);
    }
}

/// A blob whose stream is a single literal block expands to exactly those
/// literals, whatever the twelve header bytes after the magic hold.
pub proof fn law_literal_block_roundtrip(header_rest: Seq<u8>, x: Seq<u8>)
    requires
        header_rest.len() == 12,
    ensures
        decompress_spec(magic_bytes() + header_rest + literal_block(x)) == Ok::<Seq<u8>, LoxccError>(x),
{
    let data = magic_bytes() + header_rest + literal_block(x);
    let c = data.subrange(16, data.len() as int);
    assert(c =~= literal_block(x));
    assert(le_u32(data, 0) == LOXCC_MAGIC);
    if x.len() < 15 {
        assert(c[0] == (x.len() * 16) as u8);
        assert(c.subrange(1, c.len() as int) =~= x);
        assert(decode_from(c, 0, Seq::empty()) == Ok::<Seq<u8>, LoxccError>(Seq::empty() + x));
        assert(Seq::<u8>::empty() + x =~= x);
    } else {
        let e = ext_bytes((x.len() - 15) as nat);
        lemma_ext_bytes_len((x.len() - 15) as nat);
        assert(c.subrange(1, 1 + e.len() as int) =~= e);
        lemma_ext_bytes_read(c, 1, (x.len() - 15) as nat);
        assert(c.subrange(1 + e.len() as int, c.len() as int) =~= x);
        assert(decode_from(c, 0, Seq::empty()) == Ok::<Seq<u8>, LoxccError>(Seq::empty() + x));
        assert(Seq::<u8>::empty() + x =~= x);
    }
}

/// A back-reference repeats the last `offset` output bytes cyclically: a
/// blob holding literals `lits` and a match of `offset`, `mlen` expands to
/// `lits` followed by `mlen` bytes taken `offset` back.
pub proof fn law_back_reference(header_rest: Seq<u8>, lits: Seq<u8>, offset: int, mlen: int)
    requires
        header_rest.len() == 12,
        lits.len() < 15,
        1 <= offset <= lits.len(),
        4 <= mlen < 19,
    ensures
        decompress_spec(magic_bytes() + header_rest + short_match_block(lits, offset, mlen))
            == Ok::<Seq<u8>, LoxccError>(lz_copy(lits, offset, mlen)),
{
    let data = magic_bytes() + header_rest + short_match_block(lits, offset, mlen);
    let c = data.subrange(16, data.len() as int);
    assert(c =~= short_match_block(lits, offset, mlen));
    assert(le_u32(data, 0) == LOXCC_MAGIC);
    let token = c[0];
    assert(token / 16 == lits.len());
    assert(token % 16 == mlen - 4);
    assert(c.subrange(1, 1 + lits.len() as int) =~= lits);
    assert(le_u16(c, 1 + lits.len() as int) == offset);
    assert(Seq::<u8>::empty() + lits =~= lits);
    let p5: int = 1 + lits.len() as int + 2;
    assert(p5 == c.len());
    assert(decode_from(c, p5, lz_copy(lits, offset, mlen)) == Ok::<Seq<u8>, LoxccError>(lz_copy(lits, offset, mlen)));
    assert(decode_from(c, 0, Seq::empty()) == decode_from(c, p5, lz_copy(lits, offset, mlen)));
}

/// A literal block read at position `p` of `c`, where it runs to the end
/// of `c`, appends its literals to the output and ends the stream.
proof fn lemma_literal_block_at(c: Seq<u8>, p: int, x: Seq<u8>, out: Seq<u8>)
    requires
        0 <= p <= c.len(),
        c.subrange(p, c.len() as int) == literal_block(x),
    ensures
        decode_from(c, p, out) == Ok::<Seq<u8>, LoxccError>(out + x),
{
    let b = literal_block(x);
    if x.len() >= 15 {
        lemma_ext_bytes_len((x.len() - 15) as nat);
    }
    assert(b.len() >= 1);
    assert(p < c.len());
    assert(c[p] == c.subrange(p, c.len() as int)[0]);
    assert forall|k: int| 0 <= k < b.len() implies c[p + k] == b[k] by {
        assert(c[p + k] == c.subrange(p, c.len() as int)[k]);
    }
    if x.len() < 15 {
        assert(b[0] == (x.len() * 16) as u8);
        assert(c.len() == p + 1 + x.len());
        assert(c.subrange(p + 1, c.len() as int) =~= x) by {
            assert forall|k: int| 0 <= k < x.len() implies c.subrange(p + 1, c.len() as int)[k] == x[k] by {
                assert(c[p + 1 + k] == b[1 + k]);
            }
        }
    } else {
        let n = (x.len() - 15) as nat;
        let e = ext_bytes(n);
        lemma_ext_bytes_len(n);
        assert(b =~= seq![0xf0u8] + e + x);
        assert(c.subrange(p + 1, p + 1 + e.len() as int) =~= e) by {
            assert forall|k: int| 0 <= k < e.len() implies c.subrange(p + 1, p + 1 + e.len() as int)[k] == e[k] by {
                assert(c[p + 1 + k] == b[1 + k]);
            }
        }
        lemma_ext_bytes_read(c, p + 1, n);
        let q = p + 1 + e.len();
        assert(c.len() == q + x.len());
        assert(c.subrange(q, c.len() as int) =~= x) by {
            assert forall|k: int| 0 <= k < x.len() implies c.subrange(q, c.len() as int)[k] == x[k] by {
                assert(c[q + k] == b[1 + e.len() + k]);
            }
        }
    }
}

/// A block with literals and a match read at position `p` of `c`: the
/// literals and the match copy are appended, and decoding goes on right
/// after the block.
proof fn lemma_match_block_at(c: Seq<u8>, p: int, lits: Seq<u8>, offset: int, mlen: int, out: Seq<u8>)
    requires
        0 <= p,
        lits.len() < 15,
        1 <= offset <= out.len() + lits.len(),
        offset < 65536,
        4 <= mlen < 19,
        p + short_match_block(lits, offset, mlen).len() <= c.len(),
        c.subrange(p, p + short_match_block(lits, offset, mlen).len()) == short_match_block(lits, offset, mlen),
    ensures
        decode_from(c, p, out) == decode_from(c, p + 3 + lits.len(), lz_copy(out + lits, offset, mlen)),
{
    let b = short_match_block(lits, offset, mlen);
    assert forall|k: int| 0 <= k < b.len() implies c[p + k] == b[k] by {
        assert(c[p + k] == c.subrange(p, p + b.len())[k]);
    }
    let token = c[p];
    assert(token == b[0]);
    assert(token / 16 == lits.len());
    assert(token % 16 == mlen - 4);
    assert(c.subrange(p + 1, p + 1 + lits.len()) =~= lits) by {
        assert forall|k: int| 0 <= k < lits.len() implies c.subrange(p + 1, p + 1 + lits.len())[k] == lits[k] by {
            assert(c[p + 1 + k] == b[1 + k]);
        }
    }
    let i = 1 + lits.len() as int;
    assert(c[p + i] == b[i]);
    assert(c[p + i + 1] == b[i + 1]);
    assert(le_u16(c, p + i) == offset);
}

/// Blocks with literals and a match, given as (literals, offset, match
/// length), as a token stream.
pub open spec fn match_blocks(bs: Seq<(Seq<u8>, int, int)>) -> Seq<u8>
    decreases bs.len(),
{
    if bs.len() == 0 {
        Seq::empty()
    } else {
        short_match_block(bs[0].0, bs[0].1, bs[0].2) + match_blocks(bs.drop_first())
    }
}

/// What the blocks produce after `out`: each appends its literals, then
/// its match copy.
pub open spec fn blocks_output(out: Seq<u8>, bs: Seq<(Seq<u8>, int, int)>) -> Seq<u8>
    decreases bs.len(),
{
    if bs.len() == 0 {
        out
    } else {
        blocks_output(lz_copy(out + bs[0].0, bs[0].1, bs[0].2), bs.drop_first())
    }
}

/// Each block has fewer than 15 literals, a match length from 4 to 18, and
/// an offset from 1 to the output produced up to its match.
pub open spec fn blocks_valid(out: Seq<u8>, bs: Seq<(Seq<u8>, int, int)>) -> bool
    decreases bs.len(),
{
    if bs.len() == 0 {
        true
    } else {
        &&& bs[0].0.len() < 15
        &&& 1 <= bs[0].1 <= out.len() + bs[0].0.len()
        &&& bs[0].1 < 65536
        &&& 4 <= bs[0].2 < 19
        &&& blocks_valid(lz_copy(out + bs[0].0, bs[0].1, bs[0].2), bs.drop_first())
    }
}

proof fn lemma_blocks_at(c: Seq<u8>, p: int, bs: Seq<(Seq<u8>, int, int)>, x: Seq<u8>, out: Seq<u8>)
    requires
        0 <= p <= c.len(),
        blocks_valid(out, bs),
        c.subrange(p, c.len() as int) == match_blocks(bs) + literal_block(x),
    ensures
        decode_from(c, p, out) == Ok::<Seq<u8>, LoxccError>(blocks_output(out, bs) + x),
    decreases bs.len(),
{
    if bs.len() == 0 {
        assert(match_blocks(bs) + literal_block(x) =~= literal_block(x));
        lemma_literal_block_at(c, p, x, out);
    } else {
        let (lits, offset, mlen) = bs[0];
        let b = short_match_block(lits, offset, mlen);
        let rest = match_blocks(bs.drop_first()) + literal_block(x);
        assert(match_blocks(bs) + literal_block(x) =~= b + rest);
        assert(b.len() == 3 + lits.len());
        let q = p + b.len();
        assert(c.subrange(p, q) =~= b) by {
            assert forall|k: int| 0 <= k < b.len() implies c.subrange(p, q)[k] == b[k] by {
                assert(c.subrange(p, q)[k] == c.subrange(p, c.len() as int)[k]);
            }
        }
        assert(c.subrange(q, c.len() as int) =~= rest) by {
            assert forall|k: int| 0 <= k < rest.len() implies c.subrange(q, c.len() as int)[k] == rest[k] by {
                assert(c.subrange(q, c.len() as int)[k] == c.subrange(p, c.len() as int)[b.len() + k]);
            }
        }
        lemma_match_block_at(c, p, lits, offset, mlen, out);
        lemma_blocks_at(c, q, bs.drop_first(), x, lz_copy(out + lits, offset, mlen));
    }
}

/// A stream is expanded block after block: blocks with literals and a
/// match, followed by a final block of literals `x`, expand to what the
/// blocks produce in turn, followed by `x`.
pub proof fn law_stream_of_blocks(header_rest: Seq<u8>, bs: Seq<(Seq<u8>, int, int)>, x: Seq<u8>)
    requires
        header_rest.len() == 12,
        blocks_valid(Seq::empty(), bs),
    ensures
        decompress_spec(magic_bytes() + header_rest + match_blocks(bs) + literal_block(x))
            == Ok::<Seq<u8>, LoxccError>(blocks_output(Seq::empty(), bs) + x),
{
    let data = magic_bytes() + header_rest + match_blocks(bs) + literal_block(x);
    let c = data.subrange(16, data.len() as int);
    assert(c =~= match_blocks(bs) + literal_block(x));
    assert(le_u32(data, 0) == LOXCC_MAGIC);
    assert(c.subrange(0, c.len() as int) =~= c);
    lemma_blocks_at(c, 0, bs, x, Seq::empty());
}

/// Decoding goes on after a back-reference: a stream of a block with
/// literals and a match, followed by a final block of literals `x`, expands
/// to the first block's expansion followed by `x`.
pub proof fn law_blocks_compose(header_rest: Seq<u8>, lits: Seq<u8>, offset: int, mlen: int, x: Seq<u8>)
    requires
        header_rest.len() == 12,
        lits.len() < 15,
        1 <= offset <= lits.len(),
        4 <= mlen < 19,
    ensures
        decompress_spec(magic_bytes() + header_rest + short_match_block(lits, offset, mlen) + literal_block(x))
            == Ok::<Seq<u8>, LoxccError>(lz_copy(lits, offset, mlen) + x),
{
    let first = short_match_block(lits, offset, mlen);
    let data = magic_bytes() + header_rest + first + literal_block(x);
    let c = data.subrange(16, data.len() as int);
    assert(c =~= first + literal_block(x));
    assert(le_u32(data, 0) == LOXCC_MAGIC);
    assert(literal_block(x).len() >= 1);
    let token = c[0];
    assert(token == first[0]);
    assert(token / 16 == lits.len());
    assert(token % 16 == mlen - 4);
    assert(c.subrange(1, 1 + lits.len() as int) =~= lits);
    assert(c[1 + lits.len() as int] == first[1 + lits.len() as int]);
    assert(c[2 + lits.len() as int] == first[2 + lits.len() as int]);
    assert(le_u16(c, 1 + lits.len() as int) == offset);
    assert(Seq::<u8>::empty() + lits =~= lits);
    let p5: int = 1 + lits.len() as int + 2;
    assert(p5 == first.len());
    assert(c.subrange(p5, c.len() as int) =~= literal_block(x));
    lemma_literal_block_at(c, p5, x, lz_copy(lits, offset, mlen));
    assert(decode_from(c, 0, Seq::empty()) == decode_from(c, p5, lz_copy(lits, offset, mlen)));
}

/// The entry name a backup's LoxCC file is recognised by (case-insensitively).
pub open spec fn loxcc_entry_marker() -> Seq<char> {
    "sps0.loxcc"@
}

/// Whether an archive entry name denotes the LoxCC file: its lowercase form
/// contains `sps0.loxcc`.
pub fn is_loxcc_entry_name(name: &str) -> (b: bool)
    ensures
        b == contains_seq(lowercase_of(name@), loxcc_entry_marker()),
{
    let lower = lowercase_chars(name);
    let marker = chars_of("sps0.loxcc");
    contains_chars(&lower, &marker)
}

/// Scanning the archive held by `d` from entry `i` on: `None` when an entry
/// fails to open before the LoxCC entry is found, `Some(None)` when no entry
/// is the LoxCC file, `Some(Some(k))` when entry `k` is the first that is.
pub open spec fn loxcc_search(d: Seq<u8>, i: int) -> Option<Option<int>>
    decreases zip_entry_count(d) - i,
{
    if i < 0 || i >= zip_entry_count(d) {
        Some(None)
    } else {
        match zip_entry_name(d, i) {
            None => None,
            Some(n) => if contains_seq(lowercase_of(n), loxcc_entry_marker()) {
                Some(Some(i))
            } else {
                loxcc_search(d, i + 1)
            },
        }
    }
}

/// Extracts `sps0.LoxCC` from a backup ZIP (the first entry whose name,
/// lowercased, contains `sps0.loxcc`) and expands it.
pub fn extract_and_decompress(zip_data: &[u8]) -> (r: Result<Vec<u8>, LoxccError>)
    ensures
        !zip_opens(zip_data@) ==> r matches Err(LoxccError::InvalidZip { .. }),
        zip_opens(zip_data@) ==> match loxcc_search(zip_data@, 0) {
            None => r matches Err(LoxccError::ZipEntry { .. }),
            Some(None) => r matches Err(LoxccError::MissingLoxcc),
            Some(Some(k)) => match zip_entry_bytes(zip_data@, k) {
                None => r matches Err(LoxccError::ZipEntry { .. }),
                Some(blob) => bytes_result(r) == decompress_spec(blob),
            },
        },
{
    let mut archive = match zip_open(zip_data) {
        Ok(a) => a,
        Err(e) => {
            return Err(LoxccError::InvalidZip { detail: zip_error_message(&e) });
        },
    };
    let n = zip_len(&archive);
    let mut i: usize = 0;
    while i < n
        invariant
            archive@ == zip_data@,
            zip_opens(zip_data@),
            n == zip_entry_count(zip_data@),
            i <= n,
            loxcc_search(zip_data@, i as int) == loxcc_search(zip_data@, 0),
        decreases n - i,
    {
        let name = match zip_name_at(&mut archive, i) {
            Ok(s) => s,
            Err(e) => {
                return Err(LoxccError::ZipEntry { detail: zip_error_message(&e) });
            },
        };
        if is_loxcc_entry_name(name.as_str()) {
            let blob = match zip_bytes_at(&mut archive, i) {
                Ok(b) => b,
                Err(m) => {
                    return Err(LoxccError::ZipEntry { detail: m });
                },
            };
            return decompress_loxcc(blob.as_slice());
        }
        i = i + 1;
    }
    Err(LoxccError::MissingLoxcc)
}

} // verus!

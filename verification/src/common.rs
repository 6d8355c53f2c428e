//! Shared primitives of the container family: the back-reference
//! decompression engine and the generic chunk-header envelope that opens
//! every container.
//!
//! A stream begins with one marker byte. When the marker announces a
//! compressed stream, a 3-byte little-endian declared output length follows,
//! and then flag bytes whose bits, most significant first, select between a
//! literal byte and a back-reference token; decoding stops the moment the
//! output reaches the declared length and demands that the stream end there.
//! Any other marker means store-raw: the whole stream, the marker byte
//! included, is the data.

use vstd::prelude::*;

use crate::bytes::get_u24_le;
use crate::bytes::get_u32_le;
use crate::bytes::get_u8;
use crate::bytes::le24_at;
use crate::bytes::le32_at;
use crate::error::FieldName;
use crate::error::NtrError;

verus! {

/// Marker byte that announces a compressed stream.
pub const LZ_MARKER: u8 = 0x11;

/// The length, distance and following position of the back-reference token
/// stored at `pos`, or `None` when the input ends inside the token. The high
/// nibble of the first byte selects one of three encodings that trade extra
/// token bytes for larger length and distance ranges.
pub open spec fn lz_token(b: Seq<u8>, pos: int) -> Option<(int, int, int)> {
    if pos + 2 > b.len() {
        None
    } else {
        let high = b[pos] as int;
        let low = b[pos + 1] as int;
        if high / 16 == 0 {
            if pos + 3 > b.len() {
                None
            } else {
                let low2 = b[pos + 2] as int;
                Some((high * 16 + low / 16 + 0x11, (low % 16) * 0x100 + low2 + 1, pos + 3))
            }
        } else if high / 16 == 1 {
            if pos + 4 > b.len() {
                None
            } else {
                let low2 = b[pos + 2] as int;
                let low3 = b[pos + 3] as int;
                Some(
                    (
                        (high % 16) * 0x1000 + low * 16 + low2 / 16 + 0x111,
                        (low2 % 16) * 0x100 + low3 + 1,
                        pos + 4,
                    ),
                )
            }
        } else {
            Some((high / 16 + 1, (high % 16) * 0x100 + low + 1, pos + 2))
        }
    }
}

/// The output after appending `k` bytes copied from `offs` bytes before the
/// end, one byte at a time, so that each appended byte is at once available
/// as a source for the bytes after it.
pub open spec fn lz_copy(out: Seq<u8>, offs: int, k: nat) -> Seq<u8>
    recommends
        1 <= offs <= out.len(),
    decreases k,
{
    if k == 0 {
        out
    } else {
        lz_copy(out.push(out[out.len() - offs]), offs, (k - 1) as nat)
    }
}

/// The result of decoding from `pos` onward: `head` holds the current flag
/// byte, of which the `nbits` least processed bits remain, `out` is the
/// output produced so far and `target` the declared output length. Decoding
/// stops the moment the output reaches `target`, even inside a token, and
/// then demands that the input end exactly there.
pub open spec fn lz_run(
    b: Seq<u8>,
    pos: int,
    head: u8,
    nbits: nat,
    out: Seq<u8>,
    target: nat,
) -> Result<Seq<u8>, NtrError>
    recommends
        0 <= pos <= b.len(),
        nbits <= 8,
    decreases b.len() - pos, nbits,
{
    if nbits == 0 {
        if pos >= b.len() {
            Err(NtrError::Truncated)
        } else {
            lz_run(b, pos + 1, b[pos], 8, out, target)
        }
    } else {
        let bit = (head >> ((nbits - 1) as u8)) & 1;
        if bit == 0 {
            if pos >= b.len() {
                Err(NtrError::Truncated)
            } else {
                let out2 = out.push(b[pos]);
                if out2.len() == target {
                    if pos + 1 == b.len() {
                        Ok(out2)
                    } else {
                        Err(NtrError::TrailingData)
                    }
                } else {
                    lz_run(b, pos + 1, head, (nbits - 1) as nat, out2, target)
                }
            }
        } else {
            match lz_token(b, pos) {
                None => Err(NtrError::Truncated),
                Some((len, offs, pos2)) => {
                    if offs > out.len() {
                        Err(NtrError::InvalidBackReference)
                    } else if out.len() < target && target <= out.len() + len {
                        let out2 = lz_copy(out, offs, (target - out.len()) as nat);
                        if pos2 == b.len() {
                            Ok(out2)
                        } else {
                            Err(NtrError::TrailingData)
                        }
                    } else {
                        lz_run(
                            b,
                            pos2,
                            head,
                            (nbits - 1) as nat,
                            lz_copy(out, offs, len as nat),
                            target,
                        )
                    }
                },
            }
        }
    }
}

/// The decoded form of a full stream: the stream itself when the marker byte
/// says store-raw, otherwise the back-reference decoding of the rest against
/// the declared 3-byte little-endian output length.
pub open spec fn lz_decompress(b: Seq<u8>) -> Result<Seq<u8>, NtrError> {
    if b.len() < 1 {
        Err(NtrError::Truncated)
    } else if b[0] != LZ_MARKER {
        Ok(b)
    } else if b.len() < 4 {
        Err(NtrError::Truncated)
    } else {
        lz_run(b, 4, 0, 0, Seq::<u8>::empty(), le24_at(b, 1) as nat)
    }
}

proof fn lemma_lz_copy_len(out: Seq<u8>, offs: int, k: nat)
    ensures
        lz_copy(out, offs, k).len() == out.len() + k,
    decreases k,
{
    if k > 0 {
        lemma_lz_copy_len(out.push(out[out.len() - offs]), offs, (k - 1) as nat);
    }
}

proof fn lemma_lz_copy_snoc(out: Seq<u8>, offs: int, k: nat)
    requires
        1 <= offs <= out.len(),
    ensures
        lz_copy(out, offs, k).len() == out.len() + k,
        lz_copy(out, offs, (k + 1) as nat) == lz_copy(out, offs, k).push(
            lz_copy(out, offs, k)[out.len() + k - offs],
        ),
    decreases k,
{
    lemma_lz_copy_len(out, offs, k);
    let out2 = out.push(out[out.len() - offs]);
    assert(lz_copy(out, offs, (k + 1) as nat) == lz_copy(out2, offs, k));
    if k == 0 {
        assert(lz_copy(out, offs, 0) == out);
        assert(lz_copy(out2, offs, 0) == out2);
    } else {
        lemma_lz_copy_snoc(out2, offs, (k - 1) as nat);
        assert(lz_copy(out, offs, k) == lz_copy(out2, offs, (k - 1) as nat));
    }
}

proof fn lemma_lz_copy_prefix(out: Seq<u8>, offs: int, k: nat)
    requires
        1 <= offs <= out.len(),
    ensures
        forall|i: int| 0 <= i < out.len() ==> #[trigger] lz_copy(out, offs, k)[i] == out[i],
    decreases k,
{
    if k == 0 {
        assert(lz_copy(out, offs, 0) == out);
    } else {
        let out2 = out.push(out[out.len() - offs]);
        lemma_lz_copy_prefix(out2, offs, (k - 1) as nat);
        assert(lz_copy(out, offs, k) == lz_copy(out2, offs, (k - 1) as nat));
        assert forall|i: int| 0 <= i < out.len() implies #[trigger] lz_copy(out, offs, k)[i]
            == out[i] by {
            assert(lz_copy(out2, offs, (k - 1) as nat)[i] == out2[i]);
        }
    }
}

/// Law: a back-reference copy of `k` bytes at distance `offs` appends
/// exactly the bytes that stand `offs` positions earlier in the output as it
/// grows. Bytes still inside the original output are copied from it
/// verbatim; once the copy overtakes the original end, each byte repeats one
/// appended `offs` positions before, so a distance of one repeats the last
/// byte of the original output `k` times.
pub proof fn lemma_back_reference_copy(out: Seq<u8>, offs: int, k: nat)
    requires
        1 <= offs <= out.len(),
    ensures
        lz_copy(out, offs, k).len() == out.len() + k,
        forall|i: int| 0 <= i < out.len() ==> #[trigger] lz_copy(out, offs, k)[i] == out[i],
        forall|i: int|
            out.len() <= i < out.len() + k ==> #[trigger] lz_copy(out, offs, k)[i] == lz_copy(
                out,
                offs,
                k,
            )[i - offs],
        forall|i: int|
            out.len() <= i < out.len() + k && i - offs < out.len() ==> #[trigger] lz_copy(
                out,
                offs,
                k,
            )[i] == out[i - offs],
        offs == 1 ==> forall|i: int|
            out.len() <= i < out.len() + k ==> #[trigger] lz_copy(out, offs, k)[i] == out[out.len()
                - 1],
    decreases k,
{
    lemma_lz_copy_len(out, offs, k);
    lemma_lz_copy_prefix(out, offs, k);
    if k > 0 {
        lemma_back_reference_copy(out, offs, (k - 1) as nat);
        lemma_lz_copy_snoc(out, offs, (k - 1) as nat);
        let prev = lz_copy(out, offs, (k - 1) as nat);
        let full = lz_copy(out, offs, k);
        assert(full == prev.push(prev[out.len() + (k - 1) - offs]));
        assert forall|i: int| 0 <= i < prev.len() implies full[i] == prev[i] by {}
    }
}

proof fn lemma_lz_run_length(
    b: Seq<u8>,
    pos: int,
    head: u8,
    nbits: nat,
    out: Seq<u8>,
    target: nat,
)
    requires
        0 <= pos <= b.len(),
        lz_run(b, pos, head, nbits, out, target) is Ok,
    ensures
        lz_run(b, pos, head, nbits, out, target)->Ok_0.len() == target,
    decreases b.len() - pos, nbits,
{
    if nbits == 0 {
        lemma_lz_run_length(b, pos + 1, b[pos], 8, out, target);
    } else {
        let bit = (head >> ((nbits - 1) as u8)) & 1;
        if bit == 0 {
            let out2 = out.push(b[pos]);
            if out2.len() == target {
            } else {
                lemma_lz_run_length(b, pos + 1, head, (nbits - 1) as nat, out2, target);
            }
        } else {
            match lz_token(b, pos) {
                None => {},
                Some((len, offs, pos2)) => {
                    if offs > out.len() {
                    } else if out.len() < target && target <= out.len() + len {
                        lemma_lz_copy_len(out, offs, (target - out.len()) as nat);
                    } else {
                        lemma_lz_run_length(
                            b,
                            pos2,
                            head,
                            (nbits - 1) as nat,
                            lz_copy(out, offs, len as nat),
                            target,
                        );
                    }
                },
            }
        }
    }
}

/// Law: whenever a compressed stream decodes successfully, the output holds
/// exactly the declared number of bytes, never more and never fewer.
pub proof fn lemma_decompress_length(b: Seq<u8>)
    requires
        b.len() >= 1,
        b[0] == LZ_MARKER,
        lz_decompress(b) is Ok,
    ensures
        b.len() >= 4,
        lz_decompress(b)->Ok_0.len() == le24_at(b, 1),
{
    lemma_lz_run_length(b, 4, 0, 0, Seq::<u8>::empty(), le24_at(b, 1) as nat);
}

/// Decodes a stream: store-raw passthrough when the marker byte differs
/// from the compression marker, otherwise back-reference decompression to
/// the declared length.
pub fn decompress(data: &Vec<u8>) -> (r: Result<Vec<u8>, NtrError>)
    ensures
        (r is Ok) <==> (lz_decompress(data@) is Ok),
        r is Ok ==> r->Ok_0@ == lz_decompress(data@)->Ok_0,
        r is Err ==> r->Err_0 == lz_decompress(data@)->Err_0,
        data@.len() > 0 && data@[0] != LZ_MARKER ==> r is Ok && r->Ok_0@ == data@,
{
    let n = data.len();
    if n == 0 {
        return Err(NtrError::Truncated);
    }
    let marker = get_u8(data, 0);
    if marker != LZ_MARKER {
        let mut out: Vec<u8> = Vec::new();
        let mut i: usize = 0;
        while i < n
            invariant
                i <= n,
                n == data@.len(),
                out@ == data@.subrange(0, i as int),
            decreases n - i,
        {
            let x = get_u8(data, i);
            out.push(x);
            proof {
                assert(out@ =~= data@.subrange(0, i + 1));
            }
            i = i + 1;
        }
        proof {
            assert(out@ =~= data@);
        }
        return Ok(out);
    }
    if n < 4 {
        return Err(NtrError::Truncated);
    }
    let target: usize = get_u24_le(data, 1) as usize;
    let mut pos: usize = 4;
    let mut head: u8 = 0;
    let mut nbits: u8 = 0;
    let mut out: Vec<u8> = Vec::new();
    loop
        invariant
            4 <= pos <= n,
            n == data@.len(),
            nbits <= 8,
            target == le24_at(data@, 1) as nat,
            lz_decompress(data@) == lz_run(
                data@,
                pos as int,
                head,
                nbits as nat,
                out@,
                target as nat,
            ),
        decreases n - pos,
    {
        if nbits == 0 {
            if pos == n {
                return Err(NtrError::Truncated);
            }
            head = get_u8(data, pos);
            pos = pos + 1;
            nbits = 8;
        } else {
            let bit = (head >> (nbits - 1)) & 1;
            nbits = nbits - 1;
            if bit == 0 {
                if pos == n {
                    return Err(NtrError::Truncated);
                }
                let x = get_u8(data, pos);
                pos = pos + 1;
                out.push(x);
                if out.len() == target {
                    if pos == n {
                        return Ok(out);
                    } else {
                        return Err(NtrError::TrailingData);
                    }
                }
            } else {
                if n - pos < 2 {
                    return Err(NtrError::Truncated);
                }
                let high = get_u8(data, pos);
                let low = get_u8(data, pos + 1) as usize;
                let mode = high / 16;
                let len_: usize;
                let offs: usize;
                if mode == 0 {
                    if n - pos < 3 {
                        return Err(NtrError::Truncated);
                    }
                    let low2 = get_u8(data, pos + 2) as usize;
                    len_ = (high as usize) * 16 + low / 16 + 0x11;
                    offs = (low % 16) * 0x100 + low2 + 1;
                    pos = pos + 3;
                } else if mode == 1 {
                    if n - pos < 4 {
                        return Err(NtrError::Truncated);
                    }
                    let low2 = get_u8(data, pos + 2) as usize;
                    let low3 = get_u8(data, pos + 3) as usize;
                    len_ = (high as usize % 16) * 0x1000 + low * 16 + low2 / 16 + 0x111;
                    offs = (low2 % 16) * 0x100 + low3 + 1;
                    pos = pos + 4;
                } else {
                    len_ = mode as usize + 1;
                    offs = (high as usize % 16) * 0x100 + low + 1;
                    pos = pos + 2;
                }
                if offs > out.len() {
                    return Err(NtrError::InvalidBackReference);
                }
                let stop = out.len() < target && target - out.len() <= len_;
                let k: usize = if stop {
                    target - out.len()
                } else {
                    len_
                };
                let ghost out0 = out@;
                let mut j: usize = 0;
                while j < k
                    invariant
                        j <= k,
                        1 <= offs <= out0.len(),
                        out@ == lz_copy(out0, offs as int, j as nat),
                        out@.len() == out0.len() + j,
                    decreases k - j,
                {
                    proof {
                        lemma_lz_copy_snoc(out0, offs as int, j as nat);
                    }
                    let idx = out.len() - offs;
                    let x = out[idx];
                    out.push(x);
                    j = j + 1;
                }
                if stop {
                    if pos == n {
                        return Ok(out);
                    } else {
                        return Err(NtrError::TrailingData);
                    }
                }
            }
        }
    }
}

/// The 4-byte tag and declared size of the generic 16-byte envelope that
/// opens every container file, validated against the format's expected tag.
#[derive(Clone, Copy, Debug, PartialEq, Eq, Structural)]
pub struct ChunkHeader {
    pub magic: u32,
    pub size: u32,
}

/// The envelope at the start of `b`, held against the expected tag: the tag
/// is read first and checked before the rest of the envelope is demanded.
pub open spec fn header_parse(b: Seq<u8>, expected_magic: u32) -> Result<ChunkHeader, NtrError> {
    if b.len() < 4 {
        Err(NtrError::Truncated)
    } else if le32_at(b, 0) != expected_magic {
        Err(
            NtrError::Mismatch {
                field: FieldName::FileMagic,
                expected: expected_magic,
                actual: le32_at(b, 0),
            },
        )
    } else if b.len() < 16 {
        Err(NtrError::Truncated)
    } else {
        Ok(ChunkHeader { magic: le32_at(b, 0), size: le32_at(b, 8) })
    }
}

/// Reads the generic container envelope and checks its tag.
pub fn read_header(data: &Vec<u8>, expected_magic: u32) -> (r: Result<ChunkHeader, NtrError>)
    ensures
        r == header_parse(data@, expected_magic),
{
    if data.len() < 4 {
        return Err(NtrError::Truncated);
    }
    let magic = get_u32_le(data, 0);
    if magic != expected_magic {
        return Err(
            NtrError::Mismatch {
                field: FieldName::FileMagic,
                expected: expected_magic,
                actual: magic,
            },
        );
    }
    if data.len() < 16 {
        return Err(NtrError::Truncated);
    }
    let size = get_u32_le(data, 8);
    Ok(ChunkHeader { magic, size })
}

} // verus!

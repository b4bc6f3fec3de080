use vstd::prelude::*;

use crate::error::StorageError;
use crate::rows::InputRowModel;
use crate::rows::KernelRowModel;
use crate::rows::OutputRowModel;
use crate::rows::Row;
use crate::rows::RowModel;
use crate::rows::TransactionInputRowData;
use crate::rows::TransactionKernelRowData;
use crate::rows::TransactionOutputRowData;

verus! {

/// Record tag for an output row.
pub const TAG_OUTPUT: u8 = 0;

/// Record tag for an input row.
pub const TAG_INPUT: u8 = 1;

/// Record tag for a kernel row.
pub const TAG_KERNEL: u8 = 2;

/// Byte length of the fixed part of an encoded output row.
pub const OUTPUT_FIXED_LEN: usize = 110;

/// Byte length of the fixed part of an encoded input or kernel row.
pub const SLIM_FIXED_LEN: usize = 69;

/// Big-endian bytes of a position.
pub open spec fn u32_be(x: u32) -> Seq<u8> {
    seq![(x >> 24) as u8, (x >> 16) as u8, (x >> 8) as u8, x as u8]
}

/// Big-endian bytes of a height.
pub open spec fn u64_be(x: u64) -> Seq<u8> {
    seq![
        (x >> 56) as u8,
        (x >> 48) as u8,
        (x >> 40) as u8,
        (x >> 32) as u8,
        (x >> 24) as u8,
        (x >> 16) as u8,
        (x >> 8) as u8,
        x as u8,
    ]
}

/// The position four big-endian bytes spell.
pub open spec fn be_u32(s: Seq<u8>) -> u32
    recommends
        s.len() == 4,
{
    ((s[0] as u32) << 24) | ((s[1] as u32) << 16) | ((s[2] as u32) << 8) | (s[3] as u32)
}

/// The height eight big-endian bytes spell.
pub open spec fn be_u64(s: Seq<u8>) -> u64
    recommends
        s.len() == 8,
{
    ((s[0] as u64) << 56) | ((s[1] as u64) << 48) | ((s[2] as u64) << 40) | ((s[3] as u64)
        << 32) | ((s[4] as u64) << 24) | ((s[5] as u64) << 16) | ((s[6] as u64) << 8) | (
    s[7] as u64)
}

pub proof fn lemma_u32_be_round_trip(x: u32)
    ensures
        be_u32(u32_be(x)) == x,
{
    assert((((((x >> 24) as u8) as u32) << 24) | ((((x >> 16) as u8) as u32) << 16) | ((((
    x >> 8) as u8) as u32) << 8) | ((x as u8) as u32)) == x) by (bit_vector);
}

pub proof fn lemma_u64_be_round_trip(x: u64)
    ensures
        be_u64(u64_be(x)) == x,
{
    assert((((((x >> 56) as u8) as u64) << 56) | ((((x >> 48) as u8) as u64) << 48) | ((((
    x >> 40) as u8) as u64) << 40) | ((((x >> 32) as u8) as u64) << 32) | ((((x >> 24) as u8)
        as u64) << 24) | ((((x >> 16) as u8) as u64) << 16) | ((((x >> 8) as u8) as u64)
        << 8) | ((x as u8) as u64)) == x) by (bit_vector);
}

/// The byte image of an output row: tag, presence marker, the fixed fields,
/// then the payload if it is present.
pub open spec fn spec_encode_output(m: OutputRowModel) -> Seq<u8> {
    seq![TAG_OUTPUT, (if m.output is Some { 1u8 } else { 0u8 })] + m.header_hash + u32_be(
        m.mmr_position,
    ) + m.hash + m.witness_hash + u64_be(m.mined_height) + (match m.output {
        Some(p) => p,
        None => Seq::<u8>::empty(),
    })
}

/// The byte image of an input row: tag, fixed fields, then the witness data.
pub open spec fn spec_encode_input(m: InputRowModel) -> Seq<u8> {
    seq![TAG_INPUT] + m.header_hash + u32_be(m.mmr_position) + m.hash + m.input
}

/// The byte image of a kernel row: tag, fixed fields, then the kernel data.
pub open spec fn spec_encode_kernel(m: KernelRowModel) -> Seq<u8> {
    seq![TAG_KERNEL] + m.header_hash + u32_be(m.mmr_position) + m.hash + m.kernel
}

/// The byte image of a row of any kind.
pub open spec fn spec_encode(m: RowModel) -> Seq<u8> {
    match m {
        RowModel::Output(r) => spec_encode_output(r),
        RowModel::Input(r) => spec_encode_input(r),
        RowModel::Kernel(r) => spec_encode_kernel(r),
    }
}

/// The output row a byte string spells, if its layout is sound. An absent
/// payload is a marker, never a sentinel value, so a pruned and an unpruned
/// row can never collide.
pub open spec fn spec_decode_output(s: Seq<u8>) -> Option<RowModel> {
    if s.len() < OUTPUT_FIXED_LEN {
        None
    } else if s[1] == 1u8 || (s[1] == 0u8 && s.len() == OUTPUT_FIXED_LEN) {
        Some(
            RowModel::Output(
                OutputRowModel {
                    output: if s[1] == 1u8 {
                        Some(s.subrange(OUTPUT_FIXED_LEN as int, s.len() as int))
                    } else {
                        None
                    },
                    header_hash: s.subrange(2, 34),
                    mmr_position: be_u32(s.subrange(34, 38)),
                    hash: s.subrange(38, 70),
                    witness_hash: s.subrange(70, 102),
                    mined_height: be_u64(s.subrange(102, 110)),
                },
            ),
        )
    } else {
        None
    }
}

/// The input row a byte string spells, if its layout is sound.
pub open spec fn spec_decode_input(s: Seq<u8>) -> Option<RowModel> {
    if s.len() < SLIM_FIXED_LEN {
        None
    } else {
        Some(
            RowModel::Input(
                InputRowModel {
                    input: s.subrange(SLIM_FIXED_LEN as int, s.len() as int),
                    header_hash: s.subrange(1, 33),
                    mmr_position: be_u32(s.subrange(33, 37)),
                    hash: s.subrange(37, 69),
                },
            ),
        )
    }
}

/// The kernel row a byte string spells, if its layout is sound.
pub open spec fn spec_decode_kernel(s: Seq<u8>) -> Option<RowModel> {
    if s.len() < SLIM_FIXED_LEN {
        None
    } else {
        Some(
            RowModel::Kernel(
                KernelRowModel {
                    kernel: s.subrange(SLIM_FIXED_LEN as int, s.len() as int),
                    header_hash: s.subrange(1, 33),
                    mmr_position: be_u32(s.subrange(33, 37)),
                    hash: s.subrange(37, 69),
                },
            ),
        )
    }
}

/// The row a byte string spells, or nothing where the layout does not match.
pub open spec fn spec_decode(s: Seq<u8>) -> Option<RowModel> {
    if s.len() == 0 {
        None
    } else if s[0] == TAG_OUTPUT {
        spec_decode_output(s)
    } else if s[0] == TAG_INPUT {
        spec_decode_input(s)
    } else if s[0] == TAG_KERNEL {
        spec_decode_kernel(s)
    } else {
        None
    }
}

/// Decoding an encoded row gives the row back: the codec is lossless over
/// every well-formed row, pruned or not.
pub proof fn lemma_codec_round_trip(m: RowModel)
    requires
        m.wf(),
    ensures
        spec_decode(spec_encode(m)) == Some(m),
{
    match m {
        RowModel::Output(r) => {
            let s = spec_encode_output(r);
            let payload = match r.output {
                Some(p) => p,
                None => Seq::<u8>::empty(),
            };
            assert(s.len() == OUTPUT_FIXED_LEN + payload.len());
            assert(s[0] == TAG_OUTPUT);
            assert(s[1] == (if r.output is Some {
                1u8
            } else {
                0u8
            }));
            assert(s.subrange(2, 34) =~= r.header_hash);
            assert(s.subrange(34, 38) =~= u32_be(r.mmr_position));
            assert(s.subrange(38, 70) =~= r.hash);
            assert(s.subrange(70, 102) =~= r.witness_hash);
            assert(s.subrange(102, 110) =~= u64_be(r.mined_height));
            assert(s.subrange(OUTPUT_FIXED_LEN as int, s.len() as int) =~= payload);
            lemma_u32_be_round_trip(r.mmr_position);
            lemma_u64_be_round_trip(r.mined_height);
            assert(spec_decode_output(s) == Some(m));
        },
        RowModel::Input(r) => {
            let s = spec_encode_input(r);
            assert(s.len() == SLIM_FIXED_LEN + r.input.len());
            assert(s[0] == TAG_INPUT);
            assert(s.subrange(1, 33) =~= r.header_hash);
            assert(s.subrange(33, 37) =~= u32_be(r.mmr_position));
            assert(s.subrange(37, 69) =~= r.hash);
            assert(s.subrange(SLIM_FIXED_LEN as int, s.len() as int) =~= r.input);
            lemma_u32_be_round_trip(r.mmr_position);
            assert(spec_decode_input(s) == Some(m));
        },
        RowModel::Kernel(r) => {
            let s = spec_encode_kernel(r);
            assert(s.len() == SLIM_FIXED_LEN + r.kernel.len());
            assert(s[0] == TAG_KERNEL);
            assert(s.subrange(1, 33) =~= r.header_hash);
            assert(s.subrange(33, 37) =~= u32_be(r.mmr_position));
            assert(s.subrange(37, 69) =~= r.hash);
            assert(s.subrange(SLIM_FIXED_LEN as int, s.len() as int) =~= r.kernel);
            lemma_u32_be_round_trip(r.mmr_position);
            assert(spec_decode_kernel(s) == Some(m));
        },
    }
}

fn append_bytes(out: &mut Vec<u8>, b: &Vec<u8>)
    ensures
        final(out)@ == old(out)@ + b@,
{
    let mut i: usize = 0;
    while i < b.len()
        invariant
            i <= b@.len(),
            out@ == old(out)@ + b@.subrange(0, i as int),
        decreases b@.len() - i,
    {
        out.push(b[i]);
        proof {
            assert(old(out)@ + b@.subrange(0, i as int) + seq![b@[i as int]] =~= old(out)@
                + b@.subrange(0, i + 1));
        }
        i += 1;
    }
    proof {
        assert(out@ =~= old(out)@ + b@);
    }
}

fn push_u32_be(out: &mut Vec<u8>, x: u32)
    ensures
        final(out)@ == old(out)@ + u32_be(x),
{
    out.push((x >> 24) as u8);
    out.push((x >> 16) as u8);
    out.push((x >> 8) as u8);
    out.push(x as u8);
    proof {
        assert(out@ =~= old(out)@ + u32_be(x));
    }
}

fn push_u64_be(out: &mut Vec<u8>, x: u64)
    ensures
        final(out)@ == old(out)@ + u64_be(x),
{
    out.push((x >> 56) as u8);
    out.push((x >> 48) as u8);
    out.push((x >> 40) as u8);
    out.push((x >> 32) as u8);
    out.push((x >> 24) as u8);
    out.push((x >> 16) as u8);
    out.push((x >> 8) as u8);
    out.push(x as u8);
    proof {
        assert(out@ =~= old(out)@ + u64_be(x));
    }
}

fn read_u32_be(s: &Vec<u8>, off: usize) -> (x: u32)
    requires
        off + 4 <= s.len(),
    ensures
        x == be_u32(s@.subrange(off as int, off + 4)),
{
    ((s[off] as u32) << 24) | ((s[off + 1] as u32) << 16) | ((s[off + 2] as u32) << 8) | (
    s[off + 3] as u32)
}

fn read_u64_be(s: &Vec<u8>, off: usize) -> (x: u64)
    requires
        off + 8 <= s.len(),
    ensures
        x == be_u64(s@.subrange(off as int, off + 8)),
{
    ((s[off] as u64) << 56) | ((s[off + 1] as u64) << 48) | ((s[off + 2] as u64) << 40) | (
    (s[off + 3] as u64) << 32) | ((s[off + 4] as u64) << 24) | ((s[off + 5] as u64) << 16)
        | ((s[off + 6] as u64) << 8) | (s[off + 7] as u64)
}

fn copy_range(s: &Vec<u8>, a: usize, b: usize) -> (r: Vec<u8>)
    requires
        a <= b <= s@.len(),
    ensures
        r@ == s@.subrange(a as int, b as int),
{
    let mut r: Vec<u8> = Vec::new();
    let mut i: usize = a;
    while i < b
        invariant
            a <= i <= b <= s@.len(),
            r@ == s@.subrange(a as int, i as int),
        decreases b - i,
    {
        r.push(s[i]);
        proof {
            assert(r@ =~= s@.subrange(a as int, i + 1));
        }
        i += 1;
    }
    r
}

/// Writes a row in the on-disk record shape; total over the row shapes.
pub fn encode_row(row: &Row) -> (out: Vec<u8>)
    ensures
        out@ == spec_encode(row@),
{
    let mut out: Vec<u8> = Vec::new();
    match row {
        Row::Output(r) => {
            out.push(TAG_OUTPUT);
            if r.output.is_some() {
                out.push(1u8);
            } else {
                out.push(0u8);
            }
            append_bytes(&mut out, &r.header_hash);
            push_u32_be(&mut out, r.mmr_position);
            append_bytes(&mut out, &r.hash);
            append_bytes(&mut out, &r.witness_hash);
            push_u64_be(&mut out, r.mined_height);
            match &r.output {
                Some(p) => append_bytes(&mut out, p),
                None => (),
            }
            proof {
                assert(out@ =~= spec_encode(row@));
            }
        },
        Row::Input(r) => {
            out.push(TAG_INPUT);
            append_bytes(&mut out, &r.header_hash);
            push_u32_be(&mut out, r.mmr_position);
            append_bytes(&mut out, &r.hash);
            append_bytes(&mut out, &r.input);
            proof {
                assert(out@ =~= spec_encode(row@));
            }
        },
        Row::Kernel(r) => {
            out.push(TAG_KERNEL);
            append_bytes(&mut out, &r.header_hash);
            push_u32_be(&mut out, r.mmr_position);
            append_bytes(&mut out, &r.hash);
            append_bytes(&mut out, &r.kernel);
            proof {
                assert(out@ =~= spec_encode(row@));
            }
        },
    }
    out
}

/// Reads a row back from its on-disk record shape, or reports a corrupt
/// record exactly where no row shape matches the bytes.
pub fn decode_row(bytes: &Vec<u8>) -> (r: Result<Row, StorageError>)
    ensures
        r matches Ok(row) ==> spec_decode(bytes@) == Some(row@),
        r is Err ==> spec_decode(bytes@) is None && r == Err::<Row, StorageError>(
            StorageError::CorruptRecord,
        ),
{
    if bytes.len() == 0 {
        return Err(StorageError::CorruptRecord);
    }
    let tag = bytes[0];
    if tag == TAG_OUTPUT {
        if bytes.len() < OUTPUT_FIXED_LEN {
            return Err(StorageError::CorruptRecord);
        }
        let present = bytes[1];
        if present > 1 {
            return Err(StorageError::CorruptRecord);
        }
        if present == 0 && bytes.len() != OUTPUT_FIXED_LEN {
            return Err(StorageError::CorruptRecord);
        }
        let row = TransactionOutputRowData {
            output: if present == 1 {
                Some(copy_range(bytes, OUTPUT_FIXED_LEN, bytes.len()))
            } else {
                None
            },
            header_hash: copy_range(bytes, 2, 34),
            mmr_position: read_u32_be(bytes, 34),
            hash: copy_range(bytes, 38, 70),
            witness_hash: copy_range(bytes, 70, 102),
            mined_height: read_u64_be(bytes, 102),
        };
        Ok(Row::Output(row))
    } else if tag == TAG_INPUT {
        if bytes.len() < SLIM_FIXED_LEN {
            return Err(StorageError::CorruptRecord);
        }
        let row = TransactionInputRowData {
            input: copy_range(bytes, SLIM_FIXED_LEN, bytes.len()),
            header_hash: copy_range(bytes, 1, 33),
            mmr_position: read_u32_be(bytes, 33),
            hash: copy_range(bytes, 37, 69),
        };
        Ok(Row::Input(row))
    } else if tag == TAG_KERNEL {
        if bytes.len() < SLIM_FIXED_LEN {
            return Err(StorageError::CorruptRecord);
        }
        let row = TransactionKernelRowData {
            kernel: copy_range(bytes, SLIM_FIXED_LEN, bytes.len()),
            header_hash: copy_range(bytes, 1, 33),
            mmr_position: read_u32_be(bytes, 33),
            hash: copy_range(bytes, 37, 69),
        };
        Ok(Row::Kernel(row))
    } else {
        Err(StorageError::CorruptRecord)
    }
}

} // verus!

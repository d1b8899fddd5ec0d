//! The fixed-record binary format: 32 bytes per point, nothing else.

use crate::encoding::{
    gather, le_bytes, le_word, lemma_gather_fixed_width, lemma_gather_step, lemma_le_bytes_of_word,
    lemma_le_word_of_bytes, push_le, read_le,
};
use crate::error::ConversionError;
use crate::scene::{Exporter, Importer};
use vstd::prelude::*;

verus! {

pub struct SplatImporter;

pub struct SplatExporter;

/// The size of one record.
pub const SPLAT_SIZE_BYTES: usize = 32;

/// One record, field by field. Position and scale are bit patterns of
/// single-precision numbers; colour, alpha and rotation are the stored
/// bytes.
#[derive(Debug, Clone, Copy, PartialEq, Eq)]
pub struct SplatRecord {
    /// x, y, z.
    pub position: [u32; 3],
    /// The extent along each axis, not its logarithm.
    pub scale: [u32; 3],
    /// R, G, B.
    pub color: [u8; 3],
    /// Opacity after the sigmoid, on the scale 0 to 255.
    pub alpha: u8,
    /// w, x, y, z; the file holds them in the order x, y, z, w.
    pub rotation: [u8; 4],
}

/// The 32 bytes of a record.
pub open spec fn record_bytes(r: SplatRecord) -> Seq<u8> {
    le_bytes(r.position[0]) + le_bytes(r.position[1]) + le_bytes(r.position[2]) + le_bytes(
        r.scale[0],
    ) + le_bytes(r.scale[1]) + le_bytes(r.scale[2]) + seq![
        r.color[0],
        r.color[1],
        r.color[2],
        r.alpha,
        r.rotation[1],
        r.rotation[2],
        r.rotation[3],
        r.rotation[0],
    ]
}

/// The record that the 32 bytes from `at` on hold.
pub open spec fn record_at(bytes: Seq<u8>, at: int) -> SplatRecord
    recommends
        0 <= at,
        at + 32 <= bytes.len(),
{
    SplatRecord {
        position: [le_word(bytes, at), le_word(bytes, at + 4), le_word(bytes, at + 8)],
        scale: [le_word(bytes, at + 12), le_word(bytes, at + 16), le_word(bytes, at + 20)],
        color: [bytes[at + 24], bytes[at + 25], bytes[at + 26]],
        alpha: bytes[at + 27],
        rotation: [bytes[at + 31], bytes[at + 28], bytes[at + 29], bytes[at + 30]],
    }
}

/// The bytes of a file that holds `records`.
pub open spec fn file_bytes(records: Seq<SplatRecord>) -> Seq<u8> {
    gather(records, |r: SplatRecord| record_bytes(r))
}

/// The records of a file whose length is a multiple of 32.
pub open spec fn file_records(bytes: Seq<u8>) -> Seq<SplatRecord> {
    Seq::new(bytes.len() / 32, |i: int| record_at(bytes, 32 * i))
}

impl Importer for SplatImporter {
    type Source = [u8];

    type Decoded = Vec<SplatRecord>;

    /// Cuts a file into its records. A file whose length is not a multiple
    /// of 32 is refused, and no other.
    fn import(bytes: &[u8]) -> (r: Result<Vec<SplatRecord>, ConversionError>)
        ensures
            bytes@.len() % 32 == 0 ==> r is Ok && r->Ok_0@ == file_records(bytes@),
            bytes@.len() % 32 != 0 ==> r is Err && r->Err_0 is ParseError
                && r->Err_0->ParseError_format@ == "SPLAT"@ && r->Err_0->ParseError_message@
                == "Invalid file size. Expected multiple of 32."@,
    {
        if bytes.len() % SPLAT_SIZE_BYTES != 0 {
            return Err(
                ConversionError::parse("SPLAT", "Invalid file size. Expected multiple of 32."),
            );
        }
        let count = bytes.len() / SPLAT_SIZE_BYTES;
        let mut records: Vec<SplatRecord> = Vec::new();
        let mut i: usize = 0;
        while i < count
            invariant
                i <= count,
                count == bytes@.len() / 32,
                bytes@.len() % 32 == 0,
                bytes@.len() <= usize::MAX,
                records@ == file_records(bytes@).take(i as int),
            decreases count - i,
        {
            assert(32 * (i + 1) <= bytes@.len()) by {
                assert(bytes@.len() == 32 * (bytes@.len() / 32));
            }
            let at = 32 * i;
            let record = SplatRecord {
                position: [read_le(bytes, at), read_le(bytes, at + 4), read_le(bytes, at + 8)],
                scale: [read_le(bytes, at + 12), read_le(bytes, at + 16), read_le(bytes, at + 20)],
                color: [bytes[at + 24], bytes[at + 25], bytes[at + 26]],
                alpha: bytes[at + 27],
                rotation: [bytes[at + 31], bytes[at + 28], bytes[at + 29], bytes[at + 30]],
            };
            assert(record == record_at(bytes@, 32 * i));
            records.push(record);
            assert(records@ =~= file_records(bytes@).take(i + 1));
            i += 1;
        }
        assert(file_records(bytes@).take(count as int) =~= file_records(bytes@));
        Ok(records)
    }
}

/// Appends the 32 bytes of a record.
fn push_record(out: &mut Vec<u8>, r: &SplatRecord)
    ensures
        final(out)@ == old(out)@ + record_bytes(*r),
{
    push_le(out, r.position[0]);
    push_le(out, r.position[1]);
    push_le(out, r.position[2]);
    push_le(out, r.scale[0]);
    push_le(out, r.scale[1]);
    push_le(out, r.scale[2]);
    out.push(r.color[0]);
    out.push(r.color[1]);
    out.push(r.color[2]);
    out.push(r.alpha);
    out.push(r.rotation[1]);
    out.push(r.rotation[2]);
    out.push(r.rotation[3]);
    out.push(r.rotation[0]);
    assert(out@ =~= old(out)@ + record_bytes(*r));
}

impl Exporter for SplatExporter {
    type Source = Vec<SplatRecord>;

    /// Writes the records one after the other. It never fails.
    fn export(records: &Vec<SplatRecord>) -> (r: Result<Vec<u8>, ConversionError>)
        ensures
            r is Ok,
            r->Ok_0@ == file_bytes(records@),
    {
        let mut bytes: Vec<u8> = Vec::new();
        let mut i: usize = 0;
        while i < records.len()
            invariant
                i <= records.len(),
                bytes@ == file_bytes(records@.take(i as int)),
            decreases records.len() - i,
        {
            proof {
                lemma_gather_step(records@, |r: SplatRecord| record_bytes(r), i as int);
            }
            push_record(&mut bytes, &records[i]);
            i += 1;
        }
        assert(records@.take(records.len() as int) =~= records@);
        Ok(bytes)
    }
}

/// The seven fields of a record as they lie in its bytes: six words, then
/// the eight single bytes.
proof fn lemma_record_layout(r: SplatRecord)
    ensures
        record_bytes(r).len() == 32,
        record_bytes(r).subrange(0, 4) == le_bytes(r.position[0]),
        record_bytes(r).subrange(4, 8) == le_bytes(r.position[1]),
        record_bytes(r).subrange(8, 12) == le_bytes(r.position[2]),
        record_bytes(r).subrange(12, 16) == le_bytes(r.scale[0]),
        record_bytes(r).subrange(16, 20) == le_bytes(r.scale[1]),
        record_bytes(r).subrange(20, 24) == le_bytes(r.scale[2]),
        record_bytes(r).subrange(24, 32) == seq![
            r.color[0],
            r.color[1],
            r.color[2],
            r.alpha,
            r.rotation[1],
            r.rotation[2],
            r.rotation[3],
            r.rotation[0],
        ],
{
    let b = record_bytes(r);
    assert(b.subrange(0, 4) =~= le_bytes(r.position[0]));
    assert(b.subrange(4, 8) =~= le_bytes(r.position[1]));
    assert(b.subrange(8, 12) =~= le_bytes(r.position[2]));
    assert(b.subrange(12, 16) =~= le_bytes(r.scale[0]));
    assert(b.subrange(16, 20) =~= le_bytes(r.scale[1]));
    assert(b.subrange(20, 24) =~= le_bytes(r.scale[2]));
    assert(b.subrange(24, 32) =~= seq![
        r.color[0],
        r.color[1],
        r.color[2],
        r.alpha,
        r.rotation[1],
        r.rotation[2],
        r.rotation[3],
        r.rotation[0],
    ]);
}

/// The word at an offset is the word at the start of the four bytes cut out
/// there.
proof fn lemma_le_word_shift(bytes: Seq<u8>, at: int)
    requires
        0 <= at,
        at + 4 <= bytes.len(),
    ensures
        le_word(bytes, at) == le_word(bytes.subrange(at, at + 4), 0),
{
}

/// A record has 32 bytes, and reading them back gives the record.
pub proof fn lemma_record_round_trip(r: SplatRecord)
    ensures
        record_bytes(r).len() == 32,
        record_at(record_bytes(r), 0) == r,
{
    let b = record_bytes(r);
    lemma_record_layout(r);
    lemma_le_word_shift(b, 0);
    lemma_le_word_shift(b, 4);
    lemma_le_word_shift(b, 8);
    lemma_le_word_shift(b, 12);
    lemma_le_word_shift(b, 16);
    lemma_le_word_shift(b, 20);
    lemma_le_word_of_bytes(r.position[0]);
    lemma_le_word_of_bytes(r.position[1]);
    lemma_le_word_of_bytes(r.position[2]);
    lemma_le_word_of_bytes(r.scale[0]);
    lemma_le_word_of_bytes(r.scale[1]);
    lemma_le_word_of_bytes(r.scale[2]);
    let tail = b.subrange(24, 32);
    assert(b[24] == tail[0] && b[25] == tail[1] && b[26] == tail[2] && b[27] == tail[3]);
    assert(b[28] == tail[4] && b[29] == tail[5] && b[30] == tail[6] && b[31] == tail[7]);
    let back = record_at(b, 0);
    assert(back.position@ =~= r.position@);
    assert(back.scale@ =~= r.scale@);
    assert(back.color@ =~= r.color@);
    assert(back.rotation@ =~= r.rotation@);
    assert(back.position == r.position);
    assert(back.scale == r.scale);
    assert(back.color == r.color);
    assert(back.rotation == r.rotation);
}

/// Writing out the record read from 32 bytes gives those bytes.
pub proof fn lemma_bytes_round_trip(bytes: Seq<u8>, at: int)
    requires
        0 <= at,
        at + 32 <= bytes.len(),
    ensures
        record_bytes(record_at(bytes, at)) == bytes.subrange(at, at + 32),
{
    let r = record_at(bytes, at);
    let b = record_bytes(r);
    let cut = bytes.subrange(at, at + 32);
    lemma_record_layout(r);
    lemma_le_bytes_of_word(bytes, at);
    lemma_le_bytes_of_word(bytes, at + 4);
    lemma_le_bytes_of_word(bytes, at + 8);
    lemma_le_bytes_of_word(bytes, at + 12);
    lemma_le_bytes_of_word(bytes, at + 16);
    lemma_le_bytes_of_word(bytes, at + 20);
    assert(b.subrange(0, 4) =~= cut.subrange(0, 4));
    assert(b.subrange(4, 8) =~= cut.subrange(4, 8));
    assert(b.subrange(8, 12) =~= cut.subrange(8, 12));
    assert(b.subrange(12, 16) =~= cut.subrange(12, 16));
    assert(b.subrange(16, 20) =~= cut.subrange(16, 20));
    assert(b.subrange(20, 24) =~= cut.subrange(20, 24));
    assert(b.subrange(24, 32) =~= cut.subrange(24, 32));
    assert forall|k: int| 0 <= k < 32 implies b[k] == cut[k] by {
        if k < 4 {
            assert(b[k] == b.subrange(0, 4)[k]);
            assert(cut[k] == cut.subrange(0, 4)[k]);
        } else if k < 8 {
            assert(b[k] == b.subrange(4, 8)[k - 4]);
            assert(cut[k] == cut.subrange(4, 8)[k - 4]);
        } else if k < 12 {
            assert(b[k] == b.subrange(8, 12)[k - 8]);
            assert(cut[k] == cut.subrange(8, 12)[k - 8]);
        } else if k < 16 {
            assert(b[k] == b.subrange(12, 16)[k - 12]);
            assert(cut[k] == cut.subrange(12, 16)[k - 12]);
        } else if k < 20 {
            assert(b[k] == b.subrange(16, 20)[k - 16]);
            assert(cut[k] == cut.subrange(16, 20)[k - 16]);
        } else if k < 24 {
            assert(b[k] == b.subrange(20, 24)[k - 20]);
            assert(cut[k] == cut.subrange(20, 24)[k - 20]);
        } else {
            assert(b[k] == b.subrange(24, 32)[k - 24]);
            assert(cut[k] == cut.subrange(24, 32)[k - 24]);
        }
    }
    assert(b =~= cut);
}

/// Every file that the exporter writes is one that the importer accepts,
/// and decoding it gives back the records that were written.
pub proof fn lemma_export_then_import(records: Seq<SplatRecord>)
    ensures
        file_bytes(records).len() == 32 * records.len(),
        file_bytes(records).len() % 32 == 0,
        file_records(file_bytes(records)) == records,
{
    let part = |r: SplatRecord| record_bytes(r);
    assert forall|i: int| 0 <= i < records.len() implies (#[trigger] part(records[i])).len()
        == 32 by {
        lemma_record_round_trip(records[i]);
    }
    lemma_gather_fixed_width(records, part, 32);
    let bytes = file_bytes(records);
    assert(bytes.len() == 32 * records.len()) by {
        assert(records.len() * 32 == 32 * records.len());
    }
    assert forall|i: int| 0 <= i < records.len() implies #[trigger] file_records(bytes)[i]
        == records[i] by {
        let cut = bytes.subrange(i * 32, i * 32 + 32);
        assert(cut == record_bytes(records[i]));
        lemma_record_round_trip(records[i]);
        lemma_record_at_shift(bytes, 32 * i);
    }
    assert(file_records(bytes) =~= records);
}

/// The record at an offset is the record at the start of the 32 bytes cut
/// out there.
pub proof fn lemma_record_at_shift(bytes: Seq<u8>, at: int)
    requires
        0 <= at,
        at + 32 <= bytes.len(),
    ensures
        record_at(bytes, at) == record_at(bytes.subrange(at, at + 32), 0),
{
    let cut = bytes.subrange(at, at + 32);
    let a = record_at(bytes, at);
    let b = record_at(cut, 0);
    assert(a.position@ =~= b.position@);
    assert(a.scale@ =~= b.scale@);
    assert(a.color@ =~= b.color@);
    assert(a.rotation@ =~= b.rotation@);
    assert(a.position == b.position);
    assert(a.scale == b.scale);
    assert(a.color == b.color);
    assert(a.rotation == b.rotation);
}

/// Every file that the importer accepts is written back byte for byte.
pub proof fn lemma_import_then_export(bytes: Seq<u8>)
    requires
        bytes.len() % 32 == 0,
    ensures
        file_bytes(file_records(bytes)) == bytes,
{
    let records = file_records(bytes);
    let part = |r: SplatRecord| record_bytes(r);
    assert forall|i: int| 0 <= i < records.len() implies (#[trigger] part(records[i])).len()
        == 32 by {
        lemma_record_round_trip(records[i]);
    }
    lemma_gather_fixed_width(records, part, 32);
    let back = file_bytes(records);
    assert(back.len() == bytes.len()) by {
        assert(records.len() * 32 == 32 * records.len());
        assert(bytes.len() == 32 * (bytes.len() / 32));
    }
    assert forall|j: int| 0 <= j < bytes.len() implies back[j] == bytes[j] by {
        let i = j / 32;
        let cut = back.subrange(i * 32, i * 32 + 32);
        assert(cut == record_bytes(records[i]));
        lemma_bytes_round_trip(bytes, 32 * i);
        assert(back[j] == cut[j - 32 * i]);
        assert(bytes[j] == bytes.subrange(32 * i, 32 * i + 32)[j - 32 * i]);
    }
    assert(back =~= bytes);
}

} // verus!

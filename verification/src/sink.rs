//! The archive writer of the `zip` crate, and what is assumed of it.
//!
//! Nothing in this file is proved. Each contract states what the source of
//! `zip` 0.6 shows of the call that the function makes. The writer works on
//! a buffer in memory, so a call fails or succeeds by the state of the
//! writer and by its arguments alone; when it succeeds has a name here, and
//! so has the state that it leaves.

use vstd::prelude::*;
use std::io::Cursor;
use std::io::Write;
use zip::read::ZipFile;
use zip::result::ZipError;
use zip::write::FileOptions;
use zip::write::ZipWriter;
use zip::CompressionMethod;
use crate::align::padding_len;
use crate::options::Compression;
use crate::record::Record;

verus! {

/// A `zip::write::ZipWriter` over a buffer in memory. The writer is bound
/// by `std::io::Write + std::io::Seek`, traits that Verus knows nothing of,
/// so it is held here behind an opaque struct.
#[verifier::external_body]
pub struct ZipSink {
    zip: ZipWriter<Cursor<Vec<u8>>>,
}

/// `zip::read::ZipFile`: one entry of an archive that is open for reading.
#[verifier::external_type_specification]
#[verifier::external_body]
pub struct ExZipFile<'a>(ZipFile<'a>);

/// `zip::result::ZipError`.
#[verifier::external_type_specification]
#[verifier::external_body]
pub struct ExZipError(ZipError);

/// The entries that the writer has taken so far, in the order in which they
/// were started: its list of files, each with what was written to it.
pub uninterp spec fn sink_records(sink: ZipSink) -> Seq<Record>;

/// The last entry was started for writing and takes data.
pub uninterp spec fn sink_accepting(sink: ZipSink) -> bool;

/// The bytes of the archive that finishing the writer yields.
pub uninterp spec fn sink_image(sink: ZipSink) -> Seq<u8>;

/// Starting an entry of this name, compression and boundary on the writer
/// succeeds. The writer works in memory: whether it does depends on the
/// writer and on what it is asked, and on nothing else.
pub uninterp spec fn sink_starts(sink: ZipSink, name: Seq<char>, compression: Compression, align: u16) -> bool;

/// The writer after such a start has succeeded.
pub uninterp spec fn sink_started(sink: ZipSink, name: Seq<char>, compression: Compression, align: u16) -> ZipSink;

/// Writing these bytes to the writer succeeds.
pub uninterp spec fn sink_takes(sink: ZipSink, bytes: Seq<u8>) -> bool;

/// The writer after such a write has succeeded.
pub uninterp spec fn sink_written(sink: ZipSink, bytes: Seq<u8>) -> ZipSink;

/// Finishing the writer succeeds.
pub uninterp spec fn sink_finishes(sink: ZipSink) -> bool;

/// The name of an entry that is open for reading.
pub uninterp spec fn source_name(source: ZipFile) -> Seq<char>;

/// The checksum that the source archive lists for the entry.
pub uninterp spec fn source_crc32(source: ZipFile) -> u32;

/// The compression method that the source archive lists for the entry, as
/// it is numbered in archives (0 for stored, 8 for deflated).
pub uninterp spec fn source_method(source: ZipFile) -> u16;

/// The size that the source archive lists for the entry's data before
/// compression.
pub uninterp spec fn source_size(source: ZipFile) -> u64;

/// The offset in the source archive at which the stored form of the entry
/// begins. It is 0 for an entry that is read from a stream and not from an
/// archive with a central directory, and for no other.
pub uninterp spec fn source_data_start(source: ZipFile) -> u64;

/// The bytes that the entry hands out when it is copied without decoding:
/// for an entry that nothing was read from yet, its stored form.
pub uninterp spec fn source_payload(source: ZipFile) -> Seq<u8>;

/// `ZipWriter::new` on an empty buffer: a writer without entries. It can
/// be finished as it is: there is no entry to close, and the directory of
/// an empty archive is written to memory.
#[verifier::external_body]
pub(crate) fn sink_new() -> (sink: ZipSink)
    ensures
        sink_records(sink) == Seq::<Record>::empty(),
        !sink_accepting(sink),
        sink_finishes(sink),
{
    ZipSink { zip: ZipWriter::new(Cursor::new(Vec::new())) }
}

/// `ZipWriter::start_file_aligned` with default options but for the
/// compression. Where it succeeds, the writer has one more entry, of this
/// name and compression and without data, which now takes data. The call
/// returns the length of what it put before the data: where `align` is over 1
/// and the data would not start on a multiple of it, a padding field (a
/// header of four bytes and the filler), else nothing.
#[verifier::external_body]
pub(crate) fn sink_start(sink: &mut ZipSink, name: &str, compression: Compression, align: u16) -> (r:
    Result<u64, ZipError>)
    ensures
        r is Ok <==> sink_starts(*old(sink), name@, compression, align),
        r is Ok ==> *final(sink) == sink_started(*old(sink), name@, compression, align),
        r matches Ok(pad) ==> {
            let before = sink_records(*old(sink));
            let after = sink_records(*final(sink));
            &&& after.len() == before.len() + 1
            &&& after.drop_last() == before
            &&& after.last() matches Record::Written { name: n, compression: c, data_start: d, data: b }
            &&& n == name@
            &&& c == compression
            &&& b == Seq::<u8>::empty()
            &&& pad <= d
            &&& pad == padding_len((d - pad) as nat, align)
            &&& sink_accepting(*final(sink))
        },
{
    let method = match compression {
        Compression::Stored => CompressionMethod::Stored,
        Compression::Deflated => CompressionMethod::Deflated,
    };
    sink.zip.start_file_aligned(name, FileOptions::default().compression_method(method), align)
}

/// `Write::write_all` on the writer. Where it succeeds on a writer whose
/// last entry takes data, `bytes` were added to the data of that entry.
#[verifier::external_body]
pub(crate) fn sink_write(sink: &mut ZipSink, bytes: &[u8]) -> (r: Result<(), ZipError>)
    ensures
        r is Ok <==> sink_takes(*old(sink), bytes@),
        r is Ok ==> *final(sink) == sink_written(*old(sink), bytes@),
        r is Ok && sink_accepting(*old(sink)) && sink_records(*old(sink)).len() > 0 ==> {
            let before = sink_records(*old(sink));
            &&& sink_records(*final(sink)) == before.update(
                before.len() - 1,
                before.last().extended(bytes@),
            )
            &&& sink_accepting(*final(sink))
        },
{
    sink.zip.write_all(bytes).map_err(ZipError::from)
}

/// `ZipWriter::raw_copy_file`. Where it succeeds, the writer has one more
/// entry, which has the name, the method, the size and the checksum of
/// `source` and holds the bytes that `source` handed out undecoded. An entry
/// that is read from a stream is left out: it reads on when it is dropped,
/// and panics if that fails.
#[verifier::external_body]
pub(crate) fn sink_raw_copy(sink: &mut ZipSink, source: ZipFile) -> (r: Result<(), ZipError>)
    requires
        source_data_start(source) != 0,
    ensures
        r is Ok ==> sink_records(*final(sink)) == sink_records(*old(sink)).push(
            Record::Copied {
                name: source_name(source),
                method: source_method(source),
                size: source_size(source),
                crc32: source_crc32(source),
                payload: source_payload(source),
            },
        ),
{
    sink.zip.raw_copy_file(source)
}

/// `ZipWriter::finish`: closes the last entry and writes the central
/// directory. Where it succeeds, the buffer that the writer wrote to comes
/// back.
#[verifier::external_body]
pub(crate) fn sink_finish(sink: ZipSink) -> (r: Result<Vec<u8>, ZipError>)
    ensures
        r is Ok <==> sink_finishes(sink),
        r matches Ok(bytes) ==> bytes@ == sink_image(sink),
{
    let mut sink = sink;
    sink.zip.finish().map(Cursor::into_inner)
}

/// `ZipFile::name`.
#[verifier::external_body]
pub(crate) fn source_entry_name(source: &ZipFile) -> (name: String)
    ensures
        name@ == source_name(*source),
{
    source.name().to_owned()
}

/// `ZipFile::data_start`.
#[verifier::external_body]
pub(crate) fn source_entry_data_start(source: &ZipFile) -> (start: u64)
    ensures
        start == source_data_start(*source),
{
    source.data_start()
}

/// The text of a `ZipError`, as its `Display` gives it.
#[verifier::external_body]
pub(crate) fn zip_error_text(error: &ZipError) -> (text: String) {
    error.to_string()
}

} // verus!

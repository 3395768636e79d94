//! Starting aligned entries and streaming bytes into them.

use vstd::prelude::*;
use zip::read::ZipFile;
use crate::align::lemma_padding_aligns;
use crate::error::ApkError;
use crate::name::valid_entry_name;
use crate::options::EntryOptions;
use crate::record::{added_file, appended, distinct_names, has_name, Record};
use crate::sink::{
    sink_accepting, sink_finish, sink_finishes, sink_image, sink_new, sink_raw_copy, sink_records,
    sink_start, sink_started, sink_starts, sink_takes, sink_write, sink_written, source_crc32,
    source_data_start, source_entry_data_start, source_entry_name, source_method, source_name,
    source_payload, source_size, zip_error_text, ZipSink,
};

verus! {

/// Writes the entries of one archive, one after the other. Entries are only
/// ever added; an entry stays open for data until the next one is started.
pub struct ArchiveWriter {
    sink: ZipSink,
    names: Vec<String>,
    open: bool,
    failed: bool,
}

/// The message of the error that a writer gives once output has failed.
pub open spec fn failed_message() -> Seq<char> {
    "the archive writer has failed"@
}

/// The message of the error for data that no entry is open for.
pub open spec fn closed_message() -> Seq<char> {
    "no entry is open"@
}

/// The entry comes from an archive with a central directory, not from a
/// stream.
pub open spec fn source_indexed(source: ZipFile) -> bool {
    source_data_start(source) != 0
}

/// The entry that copying `source` adds.
pub open spec fn copied_record(source: ZipFile) -> Record {
    Record::Copied {
        name: source_name(source),
        method: source_method(source),
        size: source_size(source),
        crc32: source_crc32(source),
        payload: source_payload(source),
    }
}

/// A file of this name, stored under these options and holding `data`, can
/// be written to `sink`: the entry can be started and then takes the data.
pub open spec fn file_fits(sink: ZipSink, name: Seq<char>, options: EntryOptions, data: Seq<u8>) -> bool {
    &&& sink_starts(sink, name, options.compression(), options.alignment())
    &&& sink_takes(sink_started(sink, name, options.compression(), options.alignment()), data)
}

/// `sink` after such a file was written to it.
pub open spec fn with_file(sink: ZipSink, name: Seq<char>, options: EntryOptions, data: Seq<u8>) -> ZipSink {
    sink_written(sink_started(sink, name, options.compression(), options.alignment()), data)
}

/// Tells whether the entry comes from an archive with a central directory.
pub fn is_indexed(source: &ZipFile) -> (indexed: bool)
    ensures
        indexed == source_indexed(*source),
{
    source_entry_data_start(source) != 0
}

impl ArchiveWriter {
    /// What the writer has written: the state of the archive under
    /// construction, on which alone it depends whether more can be written.
    pub closed spec fn sink(&self) -> ZipSink {
        self.sink
    }

    /// An entry of this name can be started under these options.
    pub open spec fn takes_start(&self, name: Seq<char>, options: EntryOptions) -> bool {
        sink_starts(self.sink(), name, options.compression(), options.alignment())
    }

    /// The writer takes these bytes.
    pub open spec fn takes_write(&self, bytes: Seq<u8>) -> bool {
        sink_takes(self.sink(), bytes)
    }

    /// The archive can be finished.
    pub open spec fn finishes(&self) -> bool {
        sink_finishes(self.sink())
    }

    /// The entries written so far, in the order in which they were added.
    /// Of a writer that has failed it says nothing.
    pub closed spec fn entries(&self) -> Seq<Record> {
        sink_records(self.sink)
    }

    /// The bytes of the finished archive: the entries in the order in which
    /// they were added, each behind its header, and the central directory
    /// that lists them.
    pub closed spec fn image(&self) -> Seq<u8> {
        sink_image(self.sink)
    }

    /// An entry is open and takes data.
    pub closed spec fn is_open_spec(&self) -> bool {
        self.open
    }

    /// Output has failed: what was written is to be thrown away.
    pub closed spec fn has_failed_spec(&self) -> bool {
        self.failed
    }

    /// The writer is consistent: unless it has failed, it knows the names of
    /// its entries, no two of which are the same, and an open entry is one
    /// that takes data.
    pub closed spec fn wf(&self) -> bool {
        !self.failed ==> {
            let records = sink_records(self.sink);
            &&& self.names@.len() == records.len()
            &&& forall|i: int| 0 <= i < records.len() ==> (#[trigger] self.names@[i])@ == records[i].name()
            &&& distinct_names(records)
            &&& self.open ==> {
                &&& sink_accepting(self.sink)
                &&& records.len() > 0
                &&& records.last() is Written
            }
        }
    }

    /// Every entry is listed once: no two entries of a writer share a name.
    pub proof fn lemma_names_are_distinct(&self)
        requires
            self.wf(),
            !self.has_failed(),
        ensures
            distinct_names(self.entries()),
    {
    }

    /// The open entry is the last one, and one that data was written to.
    pub proof fn lemma_open_entry_is_last(&self)
        requires
            self.wf(),
            !self.has_failed(),
            self.is_open(),
        ensures
            self.entries().len() > 0,
            self.entries().last() is Written,
    {
    }

    /// A writer without entries.
    pub fn new() -> (writer: Self)
        ensures
            writer.wf(),
            writer.entries() == Seq::<Record>::empty(),
            !writer.is_open(),
            !writer.has_failed(),
            writer.finishes(),
    {
        ArchiveWriter { sink: sink_new(), names: Vec::new(), open: false, failed: false }
    }

    /// Tells whether an entry is open.
    #[verifier::when_used_as_spec(is_open_spec)]
    pub fn is_open(&self) -> (open: bool)
        ensures
            open == self.is_open(),
    {
        self.open
    }

    /// Tells whether output has failed.
    #[verifier::when_used_as_spec(has_failed_spec)]
    pub fn has_failed(&self) -> (failed: bool)
        ensures
            failed == self.has_failed(),
    {
        self.failed
    }

    /// Tells whether an entry of this name was added.
    pub fn contains(&self, name: &str) -> (found: bool)
        requires
            self.wf(),
        ensures
            !self.has_failed() ==> found == has_name(self.entries(), name@),
    {
        let wanted = name.to_owned();
        let mut i: usize = 0;
        while i < self.names.len()
            invariant
                self.wf(),
                wanted@ == name@,
                i <= self.names.len(),
                forall|k: int| 0 <= k < i ==> (#[trigger] self.names@[k])@ != name@,
            decreases self.names.len() - i,
        {
            if self.names[i] == wanted {
                assert(!self.failed ==> sink_records(self.sink)[i as int].name() == name@);
                return true;
            }
            i += 1;
        }
        assert(!self.failed ==> !has_name(self.entries(), name@)) by {
            if !self.failed {
                let records = sink_records(self.sink);
                assert forall|k: int| 0 <= k < records.len() implies #[trigger] records[k].name()
                    != name@ by {
                    assert(self.names@[k]@ == records[k].name());
                }
            }
        }
        false
    }

    /// Starts an entry of this name. Padding is put before its data so that
    /// the data starts on the boundary that `options` names; the result is
    /// how many bytes that took. The entry is then open, and the one before
    /// it closed. A name that an earlier entry has is refused and leaves the
    /// writer as it was.
    pub fn start_entry(&mut self, name: &str, options: EntryOptions) -> (r: Result<u64, ApkError>)
        requires
            old(self).wf(),
            valid_entry_name(name@),
        ensures
            final(self).wf(),
            r is Ok <==> !old(self).has_failed() && !has_name(old(self).entries(), name@)
                && old(self).takes_start(name@, options),
            r is Ok ==> final(self).sink() == sink_started(
                old(self).sink(),
                name@,
                options.compression(),
                options.alignment(),
            ),
            old(self).has_failed() ==> {
                &&& *final(self) == *old(self)
                &&& r matches Err(ApkError::Io(text))
                &&& text@ == failed_message()
            },
            !old(self).has_failed() && has_name(old(self).entries(), name@) ==> {
                &&& *final(self) == *old(self)
                &&& r matches Err(ApkError::DuplicateEntry(taken))
                &&& taken@ == name@
            },
            !old(self).has_failed() && !has_name(old(self).entries(), name@) ==> match r {
                Ok(pad) => {
                    &&& !final(self).has_failed()
                    &&& final(self).is_open()
                    &&& added_file(
                        old(self).entries(),
                        final(self).entries(),
                        name@,
                        options,
                        Seq::<u8>::empty(),
                    )
                    &&& final(self).entries().last().padded_by(pad as nat, options.alignment())
                },
                Err(error) => error is Io && final(self).has_failed(),
            },
    {
        if self.failed {
            return Err(ApkError::Io("the archive writer has failed".to_owned()));
        }
        if self.contains(name) {
            return Err(ApkError::DuplicateEntry(name.to_owned()));
        }
        let ghost before = sink_records(self.sink);
        match sink_start(&mut self.sink, name, options.compression(), options.alignment()) {
            Ok(pad) => {
                self.names.push(name.to_owned());
                self.open = true;
                proof {
                    let after = sink_records(self.sink);
                    let start = after.last()->data_start;
                    lemma_padding_aligns((start - pad) as nat, options.alignment());
                    assert forall|i: int| 0 <= i < after.len() implies (#[trigger] self.names@[i])@
                        == after[i].name() by {
                        if i < before.len() {
                            assert(after[i] == after.drop_last()[i]);
                            assert(self.names@[i] == old(self).names@[i]);
                        }
                    }
                    assert forall|i: int, j: int| 0 <= i < j < after.len() implies #[trigger] after[i].name()
                        != #[trigger] after[j].name() by {
                        assert(after[i] == after.drop_last()[i]);
                        if j < before.len() {
                            assert(after[j] == after.drop_last()[j]);
                        }
                    }
                }
                Ok(pad)
            },
            Err(error) => {
                self.failed = true;
                self.open = false;
                Err(ApkError::Io(zip_error_text(&error)))
            },
        }
    }

    /// Adds `bytes` to the data of the open entry. Fails, and changes
    /// nothing, where no entry is open.
    pub fn write(&mut self, bytes: &[u8]) -> (r: Result<(), ApkError>)
        requires
            old(self).wf(),
        ensures
            final(self).wf(),
            r is Ok <==> !old(self).has_failed() && old(self).is_open() && old(self).takes_write(
                bytes@,
            ),
            r is Ok ==> final(self).sink() == sink_written(old(self).sink(), bytes@),
            old(self).has_failed() ==> {
                &&& *final(self) == *old(self)
                &&& r matches Err(ApkError::Io(text))
                &&& text@ == failed_message()
            },
            !old(self).has_failed() && !old(self).is_open() ==> {
                &&& *final(self) == *old(self)
                &&& r matches Err(ApkError::Io(text))
                &&& text@ == closed_message()
            },
            !old(self).has_failed() && old(self).is_open() ==> match r {
                Ok(()) => {
                    &&& !final(self).has_failed()
                    &&& final(self).is_open()
                    &&& final(self).entries() == appended(old(self).entries(), bytes@)
                },
                Err(error) => error is Io && final(self).has_failed(),
            },
    {
        if self.failed {
            return Err(ApkError::Io("the archive writer has failed".to_owned()));
        }
        if !self.open {
            return Err(ApkError::Io("no entry is open".to_owned()));
        }
        let ghost before = sink_records(self.sink);
        match sink_write(&mut self.sink, bytes) {
            Ok(()) => {
                proof {
                    let after = sink_records(self.sink);
                    assert forall|i: int| 0 <= i < after.len() implies #[trigger] after[i].name()
                        == before[i].name() by {}
                    assert forall|i: int| 0 <= i < after.len() implies (#[trigger] self.names@[i])@
                        == after[i].name() by {
                        assert(after[i].name() == before[i].name());
                    }
                    assert forall|i: int, j: int| 0 <= i < j < after.len() implies #[trigger] after[i].name()
                        != #[trigger] after[j].name() by {
                        assert(after[i].name() == before[i].name());
                        assert(after[j].name() == before[j].name());
                    }
                }
                Ok(())
            },
            Err(error) => {
                self.failed = true;
                self.open = false;
                Err(ApkError::Io(zip_error_text(&error)))
            },
        }
    }

    /// Adds an entry of another archive as it stands there, without decoding
    /// it: under the name it has there, with the method, size and checksum
    /// that are listed there, and the bytes that it hands out. The entry must
    /// come from an archive with a central directory. No entry is open
    /// afterwards. A name that an earlier
    /// entry has is refused and leaves the writer as it was.
    pub fn copy_raw(&mut self, source: ZipFile) -> (r: Result<(), ApkError>)
        requires
            old(self).wf(),
            source_indexed(source),
        ensures
            final(self).wf(),
            old(self).has_failed() ==> {
                &&& *final(self) == *old(self)
                &&& r matches Err(ApkError::Io(text))
                &&& text@ == failed_message()
            },
            !old(self).has_failed() && has_name(old(self).entries(), source_name(source)) ==> {
                &&& *final(self) == *old(self)
                &&& r matches Err(ApkError::DuplicateEntry(taken))
                &&& taken@ == source_name(source)
            },
            !old(self).has_failed() && !has_name(old(self).entries(), source_name(source))
                ==> match r {
                Ok(()) => {
                    &&& !final(self).has_failed()
                    &&& !final(self).is_open()
                    &&& final(self).entries() == old(self).entries().push(copied_record(source))
                },
                Err(error) => error is Io && final(self).has_failed(),
            },
    {
        if self.failed {
            return Err(ApkError::Io("the archive writer has failed".to_owned()));
        }
        let name = source_entry_name(&source);
        if self.contains(name.as_str()) {
            return Err(ApkError::DuplicateEntry(name));
        }
        let ghost before = sink_records(self.sink);
        match sink_raw_copy(&mut self.sink, source) {
            Ok(()) => {
                self.names.push(name);
                self.open = false;
                proof {
                    let after = sink_records(self.sink);
                    assert forall|i: int| 0 <= i < after.len() implies (#[trigger] self.names@[i])@
                        == after[i].name() by {
                        if i < before.len() {
                            assert(self.names@[i] == old(self).names@[i]);
                        }
                    }
                }
                Ok(())
            },
            Err(error) => {
                self.failed = true;
                self.open = false;
                Err(ApkError::Io(zip_error_text(&error)))
            },
        }
    }

    /// Closes the open entry, writes the central directory, which lists
    /// every entry that was added, and hands out the bytes of the archive.
    pub fn finalize(self) -> (r: Result<Vec<u8>, ApkError>)
        requires
            self.wf(),
        ensures
            self.has_failed() ==> {
                &&& r matches Err(ApkError::Io(text))
                &&& text@ == failed_message()
            },
            r is Ok <==> !self.has_failed() && self.finishes(),
            match r {
                Ok(bytes) => bytes@ == self.image(),
                Err(error) => error is Io,
            },
    {
        if self.failed {
            return Err(ApkError::Io("the archive writer has failed".to_owned()));
        }
        match sink_finish(self.sink) {
            Ok(bytes) => Ok(bytes),
            Err(error) => Err(ApkError::Io(zip_error_text(&error))),
        }
    }
}

} // verus!

//! The entries of an archive as a reader of the finished archive finds them.

use vstd::prelude::*;
use crate::align::{is_aligned, padding_len};
use crate::options::{Compression, EntryOptions};

verus! {

/// One entry of an archive.
pub enum Record {
    /// An entry whose data was written into the archive: `data` is what was
    /// written, before compression, and `data_start` is the offset in the
    /// archive at which the stored form of it begins.
    Written { name: Seq<char>, compression: Compression, data_start: nat, data: Seq<u8> },
    /// An entry taken over from another archive as it stood there: `payload`
    /// is its stored form; `method` is the number of the compression method
    /// that it is stored by, `size` the length of its data before compression
    /// and `crc32` the checksum of that data, all three as the other archive
    /// lists them.
    Copied { name: Seq<char>, method: u16, size: u64, crc32: u32, payload: Seq<u8> },
}

impl Record {
    /// The name under which the entry is listed.
    pub open spec fn name(self) -> Seq<char> {
        match self {
            Record::Written { name, .. } => name,
            Record::Copied { name, .. } => name,
        }
    }

    /// The entry after `bytes` more were written to it. An entry that was
    /// copied takes none.
    pub open spec fn extended(self, bytes: Seq<u8>) -> Record {
        match self {
            Record::Written { name, compression, data_start, data } => Record::Written {
                name,
                compression,
                data_start,
                data: data + bytes,
            },
            Record::Copied { .. } => self,
        }
    }

    /// The data of the entry starts `pad` bytes behind where it would have
    /// started unaligned, and `pad` is the length of the padding that aligns
    /// it to `align`.
    pub open spec fn padded_by(self, pad: nat, align: u16) -> bool {
        &&& self matches Record::Written { data_start: d, .. }
        &&& pad <= d
        &&& pad == padding_len((d - pad) as nat, align)
    }

    /// The entry is a file of this name, stored under these options and
    /// holding exactly `data`.
    pub open spec fn is_file(self, name: Seq<char>, options: EntryOptions, data: Seq<u8>) -> bool {
        &&& self matches Record::Written { name: n, compression: c, data_start: d, data: b }
        &&& n == name
        &&& c == options.compression()
        &&& b == data
        &&& is_aligned(d, options.alignment())
    }
}

/// Some entry of `records` has this name.
pub open spec fn has_name(records: Seq<Record>, name: Seq<char>) -> bool {
    exists|i: int| 0 <= i < records.len() && #[trigger] records[i].name() == name
}

/// No two entries of `records` share a name.
pub open spec fn distinct_names(records: Seq<Record>) -> bool {
    forall|i: int, j: int|
        0 <= i < j < records.len() ==> #[trigger] records[i].name() != #[trigger] records[j].name()
}

/// `after` is `before` and one more entry, a file of this name, stored under
/// these options and holding exactly `data`.
pub open spec fn added_file(
    before: Seq<Record>,
    after: Seq<Record>,
    name: Seq<char>,
    options: EntryOptions,
    data: Seq<u8>,
) -> bool {
    &&& after.len() == before.len() + 1
    &&& after.drop_last() == before
    &&& after.last().is_file(name, options, data)
}

/// `records` after `bytes` more were written to its last entry.
pub open spec fn appended(records: Seq<Record>, bytes: Seq<u8>) -> Seq<Record> {
    if records.len() > 0 {
        records.update(records.len() - 1, records.last().extended(bytes))
    } else {
        records
    }
}

/// An added file takes its name: a second entry of that name will be
/// refused. The names taken before stay taken.
pub proof fn lemma_added_file_takes_name(
    before: Seq<Record>,
    after: Seq<Record>,
    name: Seq<char>,
    options: EntryOptions,
    data: Seq<u8>,
)
    requires
        added_file(before, after, name, options, data),
    ensures
        has_name(after, name),
        forall|other: Seq<char>| has_name(before, other) ==> has_name(after, other),
{
    assert(after[after.len() - 1].name() == name);
    assert forall|other: Seq<char>| has_name(before, other) implies has_name(after, other) by {
        let i = choose|i: int| 0 <= i < before.len() && #[trigger] before[i].name() == other;
        assert(after.drop_last()[i] == after[i]);
        assert(after[i].name() == other);
    }
}

/// Writing to the open entry changes no name.
pub proof fn lemma_appended_keeps_names(records: Seq<Record>, bytes: Seq<u8>, name: Seq<char>)
    ensures
        has_name(appended(records, bytes), name) == has_name(records, name),
{
    let after = appended(records, bytes);
    if has_name(records, name) {
        let i = choose|i: int| 0 <= i < records.len() && #[trigger] records[i].name() == name;
        assert(after[i].name() == name);
    }
    if has_name(after, name) {
        let i = choose|i: int| 0 <= i < after.len() && #[trigger] after[i].name() == name;
        assert(records[i].name() == name);
    }
}

/// A copied entry takes its name, and the names taken before stay taken.
pub proof fn lemma_pushed_record_takes_name(before: Seq<Record>, record: Record)
    ensures
        has_name(before.push(record), record.name()),
        forall|other: Seq<char>| has_name(before, other) ==> has_name(before.push(record), other),
{
    let after = before.push(record);
    assert(after[before.len() as int].name() == record.name());
    assert forall|other: Seq<char>| has_name(before, other) implies has_name(after, other) by {
        let i = choose|i: int| 0 <= i < before.len() && #[trigger] before[i].name() == other;
        assert(after[i].name() == other);
    }
}

} // verus!

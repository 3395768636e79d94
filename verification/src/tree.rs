//! A directory and what is below it, as it was read from a file system.

use vstd::prelude::*;
use crate::name::{
    is_valid_component, join, lemma_join_is_valid, valid_component, valid_entry_name, valid_prefix,
};
use crate::options::EntryOptions;
use crate::record::{added_file, has_name, Record};
use crate::sink::ZipSink;
use crate::writer::{file_fits, with_file};

verus! {

/// One entry of a directory.
#[derive(Debug)]
pub enum DirEntry {
    /// A regular file and what it holds.
    File { name: String, contents: Vec<u8> },
    /// A directory and its entries, in the order in which they were read.
    Dir { name: String, entries: Vec<DirEntry> },
    /// Anything else, such as a symbolic link. It is passed over.
    Other { name: String },
}

/// A file that adding a directory puts into the archive: the name of its
/// entry and the data.
pub struct PlannedFile {
    pub name: Seq<char>,
    pub contents: Seq<u8>,
}

impl DirEntry {
    /// The name of the entry in its directory.
    pub open spec fn name(self) -> Seq<char> {
        match self {
            DirEntry::File { name, .. } => name@,
            DirEntry::Dir { name, .. } => name@,
            DirEntry::Other { name } => name@,
        }
    }

    /// Below this entry no directory lists a name twice.
    pub open spec fn distinct(self) -> bool
        decreases self, 0nat,
    {
        match self {
            DirEntry::Dir { entries, .. } => distinct_first(entries@, entries@.len()),
            _ => true,
        }
    }

    /// The files that this entry gives below `dest`: a file gives itself, a
    /// directory the files of its entries, anything else nothing.
    pub open spec fn planned(self, dest: Seq<char>) -> Seq<PlannedFile>
        decreases self, 0nat,
    {
        match self {
            DirEntry::File { name, contents } => seq![
                PlannedFile { name: join(dest, name@), contents: contents@ },
            ],
            DirEntry::Dir { name, entries } => planned_first(entries@, entries@.len(), join(dest, name@)),
            DirEntry::Other { .. } => Seq::empty(),
        }
    }

    /// The names in this entry are single parts of a path, as far as they
    /// end up in names of archive entries.
    pub open spec fn valid(self) -> bool
        decreases self, 0nat,
    {
        match self {
            DirEntry::File { name, .. } => valid_component(name@),
            DirEntry::Dir { name, entries } => valid_component(name@) && valid_first(
                entries@,
                entries@.len(),
            ),
            DirEntry::Other { .. } => true,
        }
    }
}

/// The files that the first `n` entries of `entries` give below `dest`, in
/// the order of the entries.
pub open spec fn planned_first(entries: Seq<DirEntry>, n: nat, dest: Seq<char>) -> Seq<PlannedFile>
    decreases entries, n,
{
    if n == 0 || n > entries.len() {
        Seq::empty()
    } else {
        planned_first(entries, (n - 1) as nat, dest) + entries[n - 1].planned(dest)
    }
}

/// The first `n` entries of `entries` are valid.
pub open spec fn valid_first(entries: Seq<DirEntry>, n: nat) -> bool
    decreases entries, n,
{
    if n == 0 || n > entries.len() {
        true
    } else {
        valid_first(entries, (n - 1) as nat) && entries[n - 1].valid()
    }
}

/// Among the first `n` entries of `entries`, and below them, no directory
/// lists a name twice.
pub open spec fn distinct_first(entries: Seq<DirEntry>, n: nat) -> bool
    decreases entries, n,
{
    if n == 0 || n > entries.len() {
        true
    } else {
        &&& distinct_first(entries, (n - 1) as nat)
        &&& entries[n - 1].distinct()
        &&& forall|i: int| 0 <= i < n - 1 ==> (#[trigger] entries[i]).name() != entries[n - 1].name()
    }
}

/// No directory lists a name twice, as is so of every directory of a file
/// system.
pub open spec fn distinct_tree(entries: Seq<DirEntry>) -> bool {
    distinct_first(entries, entries.len())
}

/// `name` lies below `stem`: it is `stem`, a slash, and more.
pub open spec fn below(name: Seq<char>, stem: Seq<char>) -> bool {
    &&& name.len() > stem.len()
    &&& name.take(stem.len() as int) == stem
    &&& name[stem.len() as int] == '/'
}

/// No two of `files` share a name.
pub open spec fn distinct_files(files: Seq<PlannedFile>) -> bool {
    forall|j: int, k: int|
        0 <= j < k < files.len() ==> (#[trigger] files[j]).name != (#[trigger] files[k]).name
}

/// The files that a directory with these entries gives below `dest`: one
/// for each regular file anywhere below it, named by `dest` and the file's
/// path from the directory.
pub open spec fn planned_files(entries: Seq<DirEntry>, dest: Seq<char>) -> Seq<PlannedFile> {
    planned_first(entries, entries.len(), dest)
}

/// Every name below a directory with these entries is a single part of a
/// path.
pub open spec fn valid_tree(entries: Seq<DirEntry>) -> bool {
    valid_first(entries, entries.len())
}

/// The files that the entries of `entries` from the `n`th up to the `m`th
/// give below `dest`.
pub open spec fn planned_between(entries: Seq<DirEntry>, n: nat, m: nat, dest: Seq<char>) -> Seq<
    PlannedFile,
>
    decreases m,
{
    if m <= n || m > entries.len() {
        Seq::empty()
    } else {
        planned_between(entries, n, (m - 1) as nat, dest) + entries[m - 1].planned(dest)
    }
}

/// `after` is `before` and, behind it, one deflated file for each of
/// `files`, in their order, with the name and the data of that file.
pub open spec fn added_files(before: Seq<Record>, after: Seq<Record>, files: Seq<PlannedFile>) -> bool {
    &&& after.len() == before.len() + files.len()
    &&& after.take(before.len() as int) == before
    &&& forall|k: int|
        0 <= k < files.len() ==> after[before.len() + k].is_file(
            (#[trigger] files[k]).name,
            EntryOptions::Compressed,
            files[k].contents,
        )
}

/// Adding `files` stopped at the `k`th, whose name `name` was taken: the
/// files before it were added, and nothing else.
pub open spec fn stopped_at(
    before: Seq<Record>,
    after: Seq<Record>,
    files: Seq<PlannedFile>,
    k: int,
    name: Seq<char>,
) -> bool {
    &&& 0 <= k < files.len()
    &&& added_files(before, after, files.take(k))
    &&& files[k].name == name
    &&& has_name(after, name)
}

/// None of `files` has a name that an entry of `before` or an earlier one of
/// `files` has.
pub open spec fn all_fresh(before: Seq<Record>, files: Seq<PlannedFile>) -> bool {
    &&& forall|k: int| 0 <= k < files.len() ==> !has_name(before, (#[trigger] files[k]).name)
    &&& forall|j: int, k: int|
        0 <= j < k < files.len() ==> (#[trigger] files[j]).name != (#[trigger] files[k]).name
}

/// `files` can be written to `sink`, one after the other, each as a
/// deflated file.
pub open spec fn files_fit(sink: ZipSink, files: Seq<PlannedFile>) -> bool
    decreases files.len(),
{
    if files.len() == 0 {
        true
    } else {
        &&& files_fit(sink, files.drop_last())
        &&& file_fits(
            with_files(sink, files.drop_last()),
            files.last().name,
            EntryOptions::Compressed,
            files.last().contents,
        )
    }
}

/// `sink` after `files` were written to it, one after the other.
pub open spec fn with_files(sink: ZipSink, files: Seq<PlannedFile>) -> ZipSink
    decreases files.len(),
{
    if files.len() == 0 {
        sink
    } else {
        with_file(
            with_files(sink, files.drop_last()),
            files.last().name,
            EntryOptions::Compressed,
            files.last().contents,
        )
    }
}

/// A list of one file fits where the file does.
pub proof fn lemma_one_file_fits(sink: ZipSink, file: PlannedFile)
    ensures
        files_fit(sink, seq![file]) == file_fits(
            sink,
            file.name,
            EntryOptions::Compressed,
            file.contents,
        ),
        with_files(sink, seq![file]) == with_file(
            sink,
            file.name,
            EntryOptions::Compressed,
            file.contents,
        ),
{
    let files = seq![file];
    assert(files.drop_last() =~= Seq::<PlannedFile>::empty());
    assert(files.last() == file);
    assert(files_fit(sink, files.drop_last()));
    assert(with_files(sink, files.drop_last()) == sink);
}

/// Two lists, one behind the other, fit where the first fits and then the
/// second.
pub proof fn lemma_files_fit_in_turn(sink: ZipSink, first: Seq<PlannedFile>, second: Seq<PlannedFile>)
    ensures
        files_fit(sink, first + second) == (files_fit(sink, first) && files_fit(
            with_files(sink, first),
            second,
        )),
        with_files(sink, first + second) == with_files(with_files(sink, first), second),
    decreases second.len(),
{
    if second.len() == 0 {
        assert(first + second =~= first);
    } else {
        lemma_files_fit_in_turn(sink, first, second.drop_last());
        assert((first + second).drop_last() =~= first + second.drop_last());
        assert((first + second).last() == second.last());
    }
}

/// Where the first files of a list were added, the whole list is new to the
/// archive as it was just where the first files were and the others are new
/// to the archive as it is.
pub proof fn lemma_fresh_in_turn(
    before: Seq<Record>,
    between: Seq<Record>,
    first: Seq<PlannedFile>,
    second: Seq<PlannedFile>,
)
    requires
        added_files(before, between, first),
    ensures
        all_fresh(before, first + second) == (all_fresh(before, first) && all_fresh(between, second)),
{
    let files = first + second;
    assert forall|i: int| 0 <= i < before.len() implies between[i] == before[i] by {
        assert(between.take(before.len() as int)[i] == before[i]);
    }
    assert forall|j: int| 0 <= j < first.len() implies (#[trigger] between[before.len() + j]).name()
        == first[j].name by {
        assert(between[before.len() + j].is_file(
            first[j].name,
            EntryOptions::Compressed,
            first[j].contents,
        ));
    }
    if all_fresh(before, first) && all_fresh(between, second) {
        assert forall|k: int| 0 <= k < files.len() implies !has_name(
            before,
            (#[trigger] files[k]).name,
        ) by {
            if k >= first.len() {
                let file = second[k - first.len()];
                assert(files[k] == file);
                if has_name(before, file.name) {
                    let i = choose|i: int| 0 <= i < before.len() && #[trigger] before[i].name() == file.name;
                    assert(between[i].name() == file.name);
                }
            } else {
                assert(files[k] == first[k]);
            }
        }
        assert forall|j: int, k: int| 0 <= j < k < files.len() implies (#[trigger] files[j]).name
            != (#[trigger] files[k]).name by {
            if k < first.len() {
                assert(files[j] == first[j] && files[k] == first[k]);
            } else if j >= first.len() {
                assert(files[j] == second[j - first.len()]);
                assert(files[k] == second[k - first.len()]);
            } else {
                assert(files[j] == first[j]);
                assert(files[k] == second[k - first.len()]);
                assert(between[before.len() + j].name() == first[j].name);
            }
        }
    }
    if all_fresh(before, files) {
        assert forall|k: int| 0 <= k < first.len() implies !has_name(
            before,
            (#[trigger] first[k]).name,
        ) by {
            assert(files[k] == first[k]);
        }
        assert forall|j: int, k: int| 0 <= j < k < first.len() implies (#[trigger] first[j]).name
            != (#[trigger] first[k]).name by {
            assert(files[j] == first[j] && files[k] == first[k]);
        }
        assert forall|k: int| 0 <= k < second.len() implies !has_name(
            between,
            (#[trigger] second[k]).name,
        ) by {
            assert(files[first.len() + k] == second[k]);
            if has_name(between, second[k].name) {
                let i = choose|i: int|
                    0 <= i < between.len() && #[trigger] between[i].name() == second[k].name;
                if i < before.len() {
                    assert(before[i].name() == second[k].name);
                } else {
                    let j = i - before.len();
                    assert(between[before.len() + j].name() == first[j].name);
                    assert(files[j] == first[j]);
                }
            }
        }
        assert forall|j: int, k: int| 0 <= j < k < second.len() implies (#[trigger] second[j]).name
            != (#[trigger] second[k]).name by {
            assert(files[first.len() + j] == second[j]);
            assert(files[first.len() + k] == second[k]);
        }
    }
}

/// Where the first files of a list were added and the next cannot all be,
/// the whole list cannot be: it is not all new, or does not fit.
pub proof fn lemma_stops_the_whole(
    before: Seq<Record>,
    between: Seq<Record>,
    sink: ZipSink,
    first: Seq<PlannedFile>,
    next: Seq<PlannedFile>,
    rest: Seq<PlannedFile>,
)
    requires
        added_files(before, between, first),
        !(all_fresh(between, next) && files_fit(with_files(sink, first), next)),
    ensures
        !(all_fresh(before, first + next + rest) && files_fit(sink, first + next + rest)),
{
    assert(first + next + rest =~= first + (next + rest));
    lemma_fresh_in_turn(before, between, first, next + rest);
    lemma_files_fit_in_turn(sink, first, next + rest);
    lemma_files_fit_in_turn(with_files(sink, first), next, rest);
    if all_fresh(between, next + rest) {
        assert forall|k: int| 0 <= k < next.len() implies !has_name(
            between,
            (#[trigger] next[k]).name,
        ) by {
            assert((next + rest)[k] == next[k]);
        }
        assert forall|j: int, k: int| 0 <= j < k < next.len() implies (#[trigger] next[j]).name
            != (#[trigger] next[k]).name by {
            assert((next + rest)[j] == next[j] && (next + rest)[k] == next[k]);
        }
    }
}

/// Adding no file changes nothing.
pub proof fn lemma_added_none(before: Seq<Record>)
    ensures
        added_files(before, before, Seq::empty()),
{
    assert(before.take(before.len() as int) =~= before);
}

/// One deflated file added is a list of one file added.
pub proof fn lemma_added_one(before: Seq<Record>, after: Seq<Record>, file: PlannedFile)
    requires
        added_file(before, after, file.name, EntryOptions::Compressed, file.contents),
    ensures
        added_files(before, after, seq![file]),
{
    assert(after.take(before.len() as int) =~= after.drop_last());
}

/// Files added after files added are the two lists added, one behind the
/// other.
pub proof fn lemma_added_then_added(
    before: Seq<Record>,
    between: Seq<Record>,
    after: Seq<Record>,
    first: Seq<PlannedFile>,
    second: Seq<PlannedFile>,
)
    requires
        added_files(before, between, first),
        added_files(between, after, second),
    ensures
        added_files(before, after, first + second),
{
    let files = first + second;
    assert(after.take(before.len() as int) =~= before) by {
        assert forall|i: int| 0 <= i < before.len() implies after[i] == before[i] by {
            assert(after.take(between.len() as int)[i] == between[i]);
            assert(between.take(before.len() as int)[i] == before[i]);
        }
    }
    assert forall|k: int| 0 <= k < files.len() implies after[before.len() + k].is_file(
        (#[trigger] files[k]).name,
        EntryOptions::Compressed,
        files[k].contents,
    ) by {
        if k < first.len() {
            assert(files[k] == first[k]);
            assert(after.take(between.len() as int)[before.len() + k] == between[before.len() + k]);
        } else {
            assert(files[k] == second[k - first.len()]);
        }
    }
}

/// Where adding a list of files stopped, adding a longer list that starts
/// with it stops too, at the same file.
pub proof fn lemma_stopped_in_longer(
    before: Seq<Record>,
    after: Seq<Record>,
    files: Seq<PlannedFile>,
    more: Seq<PlannedFile>,
    k: int,
    name: Seq<char>,
)
    requires
        stopped_at(before, after, files, k, name),
    ensures
        stopped_at(before, after, files + more, k, name),
{
    assert((files + more).take(k) =~= files.take(k));
}

/// Where files were added and adding more then stopped, adding the two
/// lists, one behind the other, stops at that same file.
pub proof fn lemma_added_then_stopped(
    before: Seq<Record>,
    between: Seq<Record>,
    after: Seq<Record>,
    first: Seq<PlannedFile>,
    second: Seq<PlannedFile>,
    k: int,
    name: Seq<char>,
)
    requires
        added_files(before, between, first),
        stopped_at(between, after, second, k, name),
    ensures
        stopped_at(before, after, first + second, first.len() + k, name),
{
    lemma_added_then_added(before, between, after, first, second.take(k));
    assert((first + second).take(first.len() + k) =~= first + second.take(k));
}

/// A list of files whose names are all new is added in full or not at all
/// stopped by a taken name.
pub proof fn lemma_fresh_files_never_stop(
    before: Seq<Record>,
    after: Seq<Record>,
    files: Seq<PlannedFile>,
    k: int,
    name: Seq<char>,
)
    requires
        all_fresh(before, files),
    ensures
        !stopped_at(before, after, files, k, name),
{
    if stopped_at(before, after, files, k, name) {
        let added = files.take(k);
        let i = choose|i: int| 0 <= i < after.len() && #[trigger] after[i].name() == name;
        if i < before.len() {
            assert(after.take(before.len() as int)[i] == before[i]);
            assert(before[i].name() == files[k].name);
        } else {
            let j = i - before.len();
            assert(after[before.len() + j].is_file(
                added[j].name,
                EntryOptions::Compressed,
                added[j].contents,
            ));
            assert(added[j] == files[j]);
        }
    }
}

/// The files of the first entries of a directory come first among the files
/// of more of its entries.
pub proof fn lemma_planned_first_splits(entries: Seq<DirEntry>, n: nat, m: nat, dest: Seq<char>)
    requires
        n <= m <= entries.len(),
    ensures
        planned_first(entries, m, dest) == planned_first(entries, n, dest) + planned_between(
            entries,
            n,
            m,
            dest,
        ),
    decreases m,
{
    if m == n {
        assert(planned_first(entries, n, dest) + Seq::<PlannedFile>::empty() =~= planned_first(
            entries,
            n,
            dest,
        ));
    } else {
        lemma_planned_first_splits(entries, n, (m - 1) as nat, dest);
        let last = entries[m - 1].planned(dest);
        assert((planned_first(entries, n, dest) + planned_between(entries, n, (m - 1) as nat, dest))
            + last =~= planned_first(entries, n, dest) + (planned_between(
            entries,
            n,
            (m - 1) as nat,
            dest,
        ) + last));
    }
}

/// In a valid directory every entry is valid.
pub proof fn lemma_valid_entry(entries: Seq<DirEntry>, n: nat, i: int)
    requires
        valid_first(entries, n),
        0 <= i < n <= entries.len(),
    ensures
        entries[i].valid(),
    decreases n,
{
    if i < n - 1 {
        lemma_valid_entry(entries, (n - 1) as nat, i);
    }
}

/// What a valid prefix and a part of a path join to is not empty and does
/// not end in a slash, and the prefix with its slash stands before the part.
pub proof fn lemma_join_shape(dest: Seq<char>, part: Seq<char>)
    requires
        valid_prefix(dest),
        valid_component(part),
    ensures
        join(dest, part).len() == join(dest, Seq::empty()).len() + part.len(),
        join(dest, part) == join(dest, Seq::empty()) + part,
        join(dest, part).last() != '/',
        forall|i: int| 0 <= i < part.len() ==> join(dest, part)[join(dest, Seq::empty()).len() + i] == part[i],
{
    let base = join(dest, Seq::empty());
    assert(join(dest, part) =~= base + part);
    assert(join(dest, part).last() == part.last());
}

/// The name of every file of an entry is the entry's path or lies below
/// it.
pub proof fn lemma_files_of_entry_lie_below(entry: DirEntry, dest: Seq<char>, k: int)
    requires
        entry.valid(),
        valid_prefix(dest),
        0 <= k < entry.planned(dest).len(),
    ensures
        !(entry is Other),
        entry.planned(dest)[k].name == join(dest, entry.name()) || below(
            entry.planned(dest)[k].name,
            join(dest, entry.name()),
        ),
    decreases entry, 0nat,
{
    match entry {
        DirEntry::Dir { name, entries } => {
            lemma_join_is_valid(dest, name@);
            lemma_join_shape(dest, name@);
            lemma_files_of_list_lie_below(entries@, entries@.len(), join(dest, name@), k);
        },
        _ => {},
    }
}

/// The name of every file of the entries of a directory lies below the
/// path of the directory.
pub proof fn lemma_files_of_list_lie_below(entries: Seq<DirEntry>, n: nat, stem: Seq<char>, k: int)
    requires
        valid_first(entries, n),
        n <= entries.len(),
        valid_entry_name(stem),
        stem.last() != '/',
        0 <= k < planned_first(entries, n, stem).len(),
    ensures
        below(planned_first(entries, n, stem)[k].name, stem),
    decreases entries, n,
{
    let before = planned_first(entries, (n - 1) as nat, stem);
    if k < before.len() {
        lemma_files_of_list_lie_below(entries, (n - 1) as nat, stem, k);
    } else {
        let entry = entries[n - 1];
        let name = entry.planned(stem)[k - before.len()].name;
        lemma_files_of_entry_lie_below(entry, stem, k - before.len());
        let path = join(stem, entry.name());
        assert(path =~= stem + seq!['/'] + entry.name());
        assert(path.take(stem.len() as int) =~= stem);
        if name != path {
            assert(name.take(stem.len() as int) =~= name.take(path.len() as int).take(
                stem.len() as int,
            ));
            assert(name[stem.len() as int] == name.take(path.len() as int)[stem.len() as int]);
        }
    }
}

/// Files of entries with different names have different names.
pub proof fn lemma_entries_keep_apart(
    dest: Seq<char>,
    one: Seq<char>,
    other: Seq<char>,
    name: Seq<char>,
)
    requires
        valid_prefix(dest),
        valid_component(one),
        valid_component(other),
        one != other,
        name == join(dest, one) || below(name, join(dest, one)),
    ensures
        !(name == join(dest, other) || below(name, join(dest, other))),
{
    if name == join(dest, other) || below(name, join(dest, other)) {
        lemma_join_shape(dest, one);
        lemma_join_shape(dest, other);
        let base = join(dest, Seq::empty());
        let a = join(dest, one);
        let b = join(dest, other);
        assert(name.take(a.len() as int) =~= a);
        assert(name.take(b.len() as int) =~= b);
        assert forall|i: int| 0 <= i < one.len() && i < other.len() implies one[i] == other[i] by {
            assert(a[base.len() + i] == name.take(a.len() as int)[base.len() + i]);
            assert(b[base.len() + i] == name.take(b.len() as int)[base.len() + i]);
        }
        if one.len() == other.len() {
            assert(one =~= other);
        } else if one.len() < other.len() {
            assert(name != a);
            assert(b[a.len() as int] == name.take(b.len() as int)[a.len() as int]);
            assert(b[(base.len() + one.len()) as int] == other[one.len() as int]);
        } else {
            assert(name != b);
            assert(a[b.len() as int] == name.take(a.len() as int)[b.len() as int]);
            assert(a[(base.len() + other.len()) as int] == one[other.len() as int]);
        }
    }
}

/// Every file of the first entries of a directory is a file of one of
/// them.
pub proof fn lemma_file_has_an_entry(entries: Seq<DirEntry>, n: nat, dest: Seq<char>, k: int) -> (at: (
    int,
    int,
))
    requires
        n <= entries.len(),
        0 <= k < planned_first(entries, n, dest).len(),
    ensures
        0 <= at.0 < n,
        0 <= at.1 < entries[at.0].planned(dest).len(),
        planned_first(entries, n, dest)[k] == entries[at.0].planned(dest)[at.1],
    decreases n,
{
    let before = planned_first(entries, (n - 1) as nat, dest);
    if k < before.len() {
        lemma_file_has_an_entry(entries, (n - 1) as nat, dest, k)
    } else {
        (n - 1, k - before.len())
    }
}

/// In a directory that lists no name twice, here or below, no two files of
/// an entry share a name.
pub proof fn lemma_files_of_entry_are_distinct(entry: DirEntry, dest: Seq<char>)
    requires
        entry.valid(),
        entry.distinct(),
        valid_prefix(dest),
    ensures
        distinct_files(entry.planned(dest)),
    decreases entry, 0nat,
{
    match entry {
        DirEntry::Dir { name, entries } => {
            lemma_join_is_valid(dest, name@);
            lemma_files_of_list_are_distinct(entries@, entries@.len(), join(dest, name@));
        },
        _ => {},
    }
}

/// In a directory that lists no name twice, here or below, no two files of
/// its first entries share a name.
pub proof fn lemma_files_of_list_are_distinct(entries: Seq<DirEntry>, n: nat, dest: Seq<char>)
    requires
        valid_first(entries, n),
        distinct_first(entries, n),
        n <= entries.len(),
        valid_prefix(dest),
    ensures
        distinct_files(planned_first(entries, n, dest)),
    decreases entries, n,
{
    if n > 0 {
        let before = planned_first(entries, (n - 1) as nat, dest);
        let last = entries[n - 1];
        let files = planned_first(entries, n, dest);
        lemma_files_of_list_are_distinct(entries, (n - 1) as nat, dest);
        lemma_files_of_entry_are_distinct(last, dest);
        assert forall|j: int, k: int| 0 <= j < k < files.len() implies (#[trigger] files[j]).name
            != (#[trigger] files[k]).name by {
            if k < before.len() {
                assert(files[j] == before[j] && files[k] == before[k]);
            } else if j >= before.len() {
                assert(files[j] == last.planned(dest)[j - before.len()]);
                assert(files[k] == last.planned(dest)[k - before.len()]);
            } else {
                let at = lemma_file_has_an_entry(entries, (n - 1) as nat, dest, j);
                let first = entries[at.0];
                lemma_valid_entry(entries, n, at.0);
                lemma_valid_entry(entries, n, n - 1);
                lemma_files_of_entry_lie_below(first, dest, at.1);
                lemma_files_of_entry_lie_below(last, dest, k - before.len());
                assert(first.name() != last.name());
                lemma_entries_keep_apart(dest, first.name(), last.name(), files[j].name);
            }
        }
    }
}

/// A directory of a file system gives each of its files one name of its
/// own: where no directory lists a name twice, no two of the files that are
/// added share a name.
pub proof fn lemma_planned_files_are_distinct(entries: Seq<DirEntry>, dest: Seq<char>)
    requires
        valid_tree(entries),
        distinct_tree(entries),
        valid_prefix(dest),
    ensures
        distinct_files(planned_files(entries, dest)),
{
    lemma_files_of_list_are_distinct(entries, entries.len(), dest);
}

/// The files of a directory of a file system are all new to an archive
/// that holds none of their names: adding the directory is then not stopped
/// by a taken name.
pub proof fn lemma_untaken_files_are_fresh(
    before: Seq<Record>,
    entries: Seq<DirEntry>,
    dest: Seq<char>,
)
    requires
        valid_tree(entries),
        distinct_tree(entries),
        valid_prefix(dest),
        forall|k: int|
            0 <= k < planned_files(entries, dest).len() ==> !has_name(
                before,
                (#[trigger] planned_files(entries, dest)[k]).name,
            ),
    ensures
        all_fresh(before, planned_files(entries, dest)),
{
    lemma_planned_files_are_distinct(entries, dest);
}

impl DirEntry {
    /// `other` holds what this entry holds: the same file, or a directory
    /// of the same name that lists, in any order, all that this one lists.
    pub open spec fn within(self, other: DirEntry) -> bool
        decreases self, 0nat,
    {
        match self {
            DirEntry::File { name, contents } => other matches DirEntry::File {
                name: same,
                contents: held,
            } && name@ == same@ && contents@ == held@,
            DirEntry::Dir { name, entries } => other matches DirEntry::Dir {
                name: same,
                entries: listed,
            } && name@ == same@ && listed_within(entries@, entries@.len(), listed@),
            DirEntry::Other { .. } => true,
        }
    }
}

/// Each of the first `n` entries of `entries` is held by some entry of
/// `other`.
pub open spec fn listed_within(entries: Seq<DirEntry>, n: nat, other: Seq<DirEntry>) -> bool
    decreases entries, n,
{
    if n == 0 || n > entries.len() {
        true
    } else {
        &&& listed_within(entries, (n - 1) as nat, other)
        &&& exists|j: int| 0 <= j < other.len() && entries[n - 1].within(#[trigger] other[j])
    }
}

/// Two listings of one directory: each lists, in its own order, here and
/// below, what the other lists.
pub open spec fn same_listing(one: Seq<DirEntry>, other: Seq<DirEntry>) -> bool {
    listed_within(one, one.len(), other) && listed_within(other, other.len(), one)
}

/// Each of the first entries that are held by a listing is held by one of
/// its entries.
pub proof fn lemma_listed_entry(entries: Seq<DirEntry>, n: nat, other: Seq<DirEntry>, i: int) -> (j: int)
    requires
        listed_within(entries, n, other),
        0 <= i < n <= entries.len(),
    ensures
        0 <= j < other.len(),
        entries[i].within(other[j]),
    decreases n,
{
    if i < n - 1 {
        lemma_listed_entry(entries, (n - 1) as nat, other, i)
    } else {
        choose|j: int| 0 <= j < other.len() && entries[n - 1].within(#[trigger] other[j])
    }
}

/// Every file of an entry of a directory is among the files of the
/// directory.
pub proof fn lemma_file_of_entry_is_planned(entries: Seq<DirEntry>, n: nat, dest: Seq<char>, i: int, k: int) -> (at: int)
    requires
        0 <= i < n <= entries.len(),
        0 <= k < entries[i].planned(dest).len(),
    ensures
        0 <= at < planned_first(entries, n, dest).len(),
        planned_first(entries, n, dest)[at] == entries[i].planned(dest)[k],
    decreases n,
{
    let before = planned_first(entries, (n - 1) as nat, dest);
    if i < n - 1 {
        lemma_file_of_entry_is_planned(entries, (n - 1) as nat, dest, i, k)
    } else {
        before.len() + k
    }
}

/// Every file of an entry is a file of an entry that holds it.
pub proof fn lemma_held_entry_gives_the_file(entry: DirEntry, other: DirEntry, dest: Seq<char>, k: int) -> (at: int)
    requires
        entry.within(other),
        0 <= k < entry.planned(dest).len(),
    ensures
        0 <= at < other.planned(dest).len(),
        other.planned(dest)[at] == entry.planned(dest)[k],
    decreases entry, 0nat,
{
    match entry {
        DirEntry::Dir { name, entries } => {
            let listed = other->Dir_entries;
            lemma_held_listing_gives_the_file(
                entries@,
                entries@.len(),
                listed@,
                join(dest, name@),
                k,
            )
        },
        _ => 0,
    }
}

/// Every file of the first entries of a listing is a file of a listing
/// that holds them.
pub proof fn lemma_held_listing_gives_the_file(
    entries: Seq<DirEntry>,
    n: nat,
    other: Seq<DirEntry>,
    dest: Seq<char>,
    k: int,
) -> (at: int)
    requires
        listed_within(entries, n, other),
        n <= entries.len(),
        0 <= k < planned_first(entries, n, dest).len(),
    ensures
        0 <= at < planned_files(other, dest).len(),
        planned_files(other, dest)[at] == planned_first(entries, n, dest)[k],
    decreases entries, n,
{
    let before = planned_first(entries, (n - 1) as nat, dest);
    if k < before.len() {
        lemma_held_listing_gives_the_file(entries, (n - 1) as nat, other, dest, k)
    } else {
        let j = lemma_listed_entry(entries, n, other, n - 1);
        let m = lemma_held_entry_gives_the_file(entries[n - 1], other[j], dest, k - before.len());
        lemma_file_of_entry_is_planned(other, other.len(), dest, j, m)
    }
}

/// The order in which a directory is listed does not matter to what is
/// added: two listings of one directory give the same files.
pub proof fn lemma_listing_order_is_free(one: Seq<DirEntry>, other: Seq<DirEntry>, dest: Seq<char>)
    requires
        same_listing(one, other),
    ensures
        forall|file: PlannedFile|
            planned_files(one, dest).contains(file) <==> planned_files(other, dest).contains(file),
{
    assert forall|file: PlannedFile| planned_files(one, dest).contains(file) implies planned_files(
        other,
        dest,
    ).contains(file) by {
        let k = choose|k: int|
            0 <= k < planned_files(one, dest).len() && planned_files(one, dest)[k] == file;
        let at = lemma_held_listing_gives_the_file(one, one.len(), other, dest, k);
    }
    assert forall|file: PlannedFile| planned_files(other, dest).contains(file) implies planned_files(
        one,
        dest,
    ).contains(file) by {
        let k = choose|k: int|
            0 <= k < planned_files(other, dest).len() && planned_files(other, dest)[k] == file;
        let at = lemma_held_listing_gives_the_file(other, other.len(), one, dest, k);
    }
}

/// Tells whether every name below a directory with these entries is a
/// single part of a path.
pub fn is_valid_tree(entries: &Vec<DirEntry>) -> (ok: bool)
    ensures
        ok == valid_tree(entries@),
    decreases entries,
{
    let mut i: usize = 0;
    while i < entries.len()
        invariant
            i <= entries.len(),
            valid_first(entries@, i as nat),
        decreases entries.len() - i,
    {
        let ok = match &entries[i] {
            DirEntry::File { name, .. } => is_valid_component(name.as_str()),
            DirEntry::Dir { name, entries: below } => is_valid_component(name.as_str())
                && is_valid_tree(below),
            DirEntry::Other { .. } => true,
        };
        assert(ok == entries@[i as int].valid());
        if !ok {
            proof {
                lemma_invalid_entry(entries@, entries@.len(), i as int);
            }
            return false;
        }
        assert(valid_first(entries@, (i + 1) as nat));
        i += 1;
    }
    true
}

/// A directory with an entry that is not valid is not valid.
pub proof fn lemma_invalid_entry(entries: Seq<DirEntry>, n: nat, i: int)
    requires
        0 <= i < n <= entries.len(),
        !entries[i].valid(),
    ensures
        !valid_first(entries, n),
    decreases n,
{
    if i < n - 1 {
        lemma_invalid_entry(entries, (n - 1) as nat, i);
    }
}

} // verus!

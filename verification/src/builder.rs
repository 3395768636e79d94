//! Putting a package together: the manifest, files, directories, and entries
//! of other archives.

use vstd::prelude::*;
use xcommon::Signer;
use zip::read::ZipFile;
use crate::error::ApkError;
use crate::name::{join_names, lemma_join_is_valid, valid_entry_name, valid_prefix};
use crate::options::EntryOptions;
use crate::record::{added_file, appended, distinct_names, has_name, Record};
use crate::sign::signed;
use crate::sink::{sink_finishes, sink_started, source_name, ZipSink};
use crate::tree::{
    added_files, all_fresh, lemma_added_none, lemma_added_one, lemma_added_then_added,
    files_fit, lemma_added_then_stopped, lemma_files_fit_in_turn, lemma_fresh_files_never_stop,
    lemma_fresh_in_turn, lemma_one_file_fits, lemma_planned_first_splits, lemma_stopped_in_longer,
    lemma_stops_the_whole, lemma_valid_entry, planned_between, planned_files, planned_first,
    stopped_at, valid_tree, with_files, DirEntry, PlannedFile,
};
use crate::writer::{
    copied_record, failed_message, file_fits, source_indexed, with_file, ArchiveWriter,
};

verus! {

/// The name of the entry that holds the manifest of a package.
pub const MANIFEST_NAME: &'static str = "AndroidManifest.xml";

/// Builds one package. A builder has no state but that of its writer.
pub struct ApkBuilder {
    writer: ArchiveWriter,
}

impl ApkBuilder {
    /// The builder is consistent.
    pub closed spec fn wf(&self) -> bool {
        self.writer.wf()
    }

    /// The entries of the package so far, in the order in which they were
    /// added. Of a builder that has failed it says nothing.
    pub closed spec fn entries(&self) -> Seq<Record> {
        self.writer.entries()
    }

    /// The bytes of the finished package.
    pub closed spec fn image(&self) -> Seq<u8> {
        self.writer.image()
    }

    /// Output has failed: what was built is to be thrown away.
    pub closed spec fn has_failed_spec(&self) -> bool {
        self.writer.has_failed()
    }

    /// What the builder has written: the state of the archive under
    /// construction, on which alone it depends whether more can be written.
    pub closed spec fn sink(&self) -> ZipSink {
        self.writer.sink()
    }

    /// The package can be finished.
    pub open spec fn finishes(&self) -> bool {
        sink_finishes(self.sink())
    }

    /// What adding a file does to a builder, and what comes back: a builder
    /// that has failed refuses; a name that is taken is refused; either
    /// leaves the builder as it was. Else the file is added just where it
    /// fits, and is then the last entry; where it does not fit, output has
    /// failed.
    pub open spec fn adds_file(
        self,
        after: ApkBuilder,
        r: Result<(), ApkError>,
        name: Seq<char>,
        options: EntryOptions,
        data: Seq<u8>,
    ) -> bool {
        if self.has_failed() {
            &&& after == self
            &&& r matches Err(ApkError::Io(text))
            &&& text@ == failed_message()
        } else if has_name(self.entries(), name) {
            &&& after == self
            &&& r matches Err(ApkError::DuplicateEntry(taken))
            &&& taken@ == name
        } else {
            &&& r is Ok <==> file_fits(self.sink(), name, options, data)
            &&& r is Ok ==> after.sink() == with_file(self.sink(), name, options, data)
            &&& match r {
                Ok(()) => !after.has_failed() && added_file(
                    self.entries(),
                    after.entries(),
                    name,
                    options,
                    data,
                ),
                Err(error) => error is Io && after.has_failed(),
            }
        }
    }

    /// What adding a list of files, one after the other, does to a builder
    /// that has not failed, and what comes back. All are added just where
    /// all are new and fit. Else one of them had a name that was taken, and
    /// those before it were added; or one did not fit, and output has
    /// failed.
    pub open spec fn adds_files(self, after: ApkBuilder, r: Result<(), ApkError>, files: Seq<PlannedFile>) -> bool {
        &&& r is Ok <==> all_fresh(self.entries(), files) && files_fit(self.sink(), files)
        &&& r is Ok ==> after.sink() == with_files(self.sink(), files)
        &&& match r {
            Ok(()) => !after.has_failed() && added_files(self.entries(), after.entries(), files),
            Err(ApkError::DuplicateEntry(taken)) => !after.has_failed() && exists|k: int|
                stopped_at(self.entries(), after.entries(), files, k, taken@),
            Err(error) => error is Io && after.has_failed(),
        }
    }

    /// Every entry is listed once: no two entries of a package share a
    /// name.
    pub proof fn lemma_names_are_distinct(&self)
        requires
            self.wf(),
            !self.has_failed(),
        ensures
            distinct_names(self.entries()),
    {
        self.writer.lemma_names_are_distinct();
    }

    /// A builder of a package without entries.
    pub fn new() -> (builder: Self)
        ensures
            builder.wf(),
            builder.entries() == Seq::<Record>::empty(),
            !builder.has_failed(),
            builder.finishes(),
    {
        ApkBuilder { writer: ArchiveWriter::new() }
    }

    /// Tells whether output has failed.
    #[verifier::when_used_as_spec(has_failed_spec)]
    pub fn has_failed(&self) -> (failed: bool)
        ensures
            failed == self.has_failed(),
    {
        self.writer.has_failed()
    }

    /// Starts an entry of this name, stored as `opts` says.
    fn start_file(&mut self, name: &str, opts: EntryOptions) -> (r: Result<(), ApkError>)
        requires
            old(self).wf(),
            valid_entry_name(name@),
        ensures
            final(self).wf(),
            r is Ok <==> !old(self).has_failed() && !has_name(old(self).entries(), name@)
                && old(self).writer.takes_start(name@, opts),
            r is Ok ==> final(self).sink() == sink_started(
                old(self).sink(),
                name@,
                opts.compression(),
                opts.alignment(),
            ),
            old(self).has_failed() ==> {
                &&& *final(self) == *old(self)
                &&& r matches Err(ApkError::Io(text))
                &&& text@ == failed_message()
            },
            !old(self).has_failed() && has_name(old(self).entries(), name@) ==> {
                &&& *final(self) == *old(self)
                &&& r matches Err(ApkError::DuplicateEntry(taken))
                &&& taken@ == name@
            },
            !old(self).has_failed() && !has_name(old(self).entries(), name@) ==> match r {
                Ok(()) => {
                    &&& !final(self).has_failed()
                    &&& final(self).writer.is_open()
                    &&& added_file(
                        old(self).entries(),
                        final(self).entries(),
                        name@,
                        opts,
                        Seq::<u8>::empty(),
                    )
                },
                Err(error) => error is Io && final(self).has_failed(),
            },
    {
        match self.writer.start_entry(name, opts) {
            Ok(_) => Ok(()),
            Err(error) => Err(error),
        }
    }

    /// Adds a file that holds `data`.
    fn add_bytes(&mut self, data: &[u8], name: &str, opts: EntryOptions) -> (r: Result<(), ApkError>)
        requires
            old(self).wf(),
            valid_entry_name(name@),
        ensures
            final(self).wf(),
            old(self).adds_file(*final(self), r, name@, opts, data@),
    {
        match self.start_file(name, opts) {
            Ok(()) => {},
            Err(error) => {
                return Err(error);
            },
        }
        let ghost started = self.entries();
        let r = self.writer.write(data);
        proof {
            if r is Ok {
                let after = self.entries();
                assert(after == appended(started, data@));
                assert(after.drop_last() =~= started.drop_last());
                assert(Seq::<u8>::empty() + data@ =~= data@);
            }
        }
        r
    }

    /// Adds the manifest, given what compiling it gave: the bytes become one
    /// deflated entry under the name that is fixed for manifests. Where
    /// compiling failed, so does this, and the builder stays as it was. A
    /// package holds one manifest: a second is refused as a taken name.
    pub fn add_manifest(&mut self, manifest: Result<Vec<u8>, String>) -> (r: Result<(), ApkError>)
        requires
            old(self).wf(),
        ensures
            final(self).wf(),
            match manifest {
                Ok(compiled) => old(self).adds_file(
                    *final(self),
                    r,
                    MANIFEST_NAME@,
                    EntryOptions::Compressed,
                    compiled@,
                ),
                Err(text) => *final(self) == *old(self) && r == Err::<(), ApkError>(
                    ApkError::Compile(text),
                ),
            },
    {
        match manifest {
            Ok(compiled) => {
                proof {
                    lemma_manifest_name_is_valid();
                }
                self.add_bytes(compiled.as_slice(), MANIFEST_NAME, EntryOptions::Compressed)
            },
            Err(text) => Err(ApkError::Compile(text)),
        }
    }

    /// Adds a file under `name`, given what reading it gave: the bytes become
    /// one entry, stored as `opts` says. Where reading failed, so does this,
    /// and the builder stays as it was.
    pub fn add_file(&mut self, source: Result<Vec<u8>, String>, name: &str, opts: EntryOptions) -> (r:
        Result<(), ApkError>)
        requires
            old(self).wf(),
            valid_entry_name(name@),
        ensures
            final(self).wf(),
            match source {
                Ok(contents) => old(self).adds_file(*final(self), r, name@, opts, contents@),
                Err(text) => *final(self) == *old(self) && r == Err::<(), ApkError>(
                    ApkError::Io(text),
                ),
            },
    {
        match source {
            Ok(contents) => self.add_bytes(contents.as_slice(), name, opts),
            Err(text) => Err(ApkError::Io(text)),
        }
    }

    /// Adds an entry of another archive as it stands there, without decoding
    /// it: under the name it has there, with the method, size and checksum
    /// that are listed there, and the bytes that it hands out. The entry must
    /// come from an archive with a central directory. A name that is taken is refused and leaves the builder
    /// as it was.
    pub fn add_file_from_archive(&mut self, f: ZipFile) -> (r: Result<(), ApkError>)
        requires
            old(self).wf(),
            source_indexed(f),
        ensures
            final(self).wf(),
            old(self).has_failed() ==> {
                &&& *final(self) == *old(self)
                &&& r matches Err(ApkError::Io(text))
                &&& text@ == failed_message()
            },
            !old(self).has_failed() && has_name(old(self).entries(), source_name(f)) ==> {
                &&& *final(self) == *old(self)
                &&& r matches Err(ApkError::DuplicateEntry(taken))
                &&& taken@ == source_name(f)
            },
            !old(self).has_failed() && !has_name(old(self).entries(), source_name(f)) ==> match r {
                Ok(()) => {
                    &&& !final(self).has_failed()
                    &&& final(self).entries() == old(self).entries().push(copied_record(f))
                },
                Err(error) => error is Io && final(self).has_failed(),
            },
    {
        self.writer.copy_raw(f)
    }

    /// Adds the regular files of a directory and of the directories below
    /// it, each as a deflated entry named by `dest`, where one is given, and
    /// the path of the file from the directory. Directories get no entries of
    /// their own, and what is neither file nor directory is passed over. The
    /// files are added in the order in which the directory lists them; the
    /// first whose name is taken stops the work.
    pub fn add_directory(&mut self, source: &Vec<DirEntry>, dest: Option<&str>) -> (r: Result<
        (),
        ApkError,
    >)
        requires
            old(self).wf(),
            valid_tree(source@),
            dest matches Some(prefix) ==> valid_prefix(prefix@),
        ensures
            final(self).wf(),
            old(self).has_failed() ==> {
                &&& *final(self) == *old(self)
                &&& r matches Err(ApkError::Io(text))
                &&& text@ == failed_message()
            },
            !old(self).has_failed() ==> old(self).adds_files(
                *final(self),
                r,
                planned_files(source@, prefix_of(dest)),
            ),
            !old(self).has_failed() && all_fresh(
                old(self).entries(),
                planned_files(source@, prefix_of(dest)),
            ) ==> !(r matches Err(ApkError::DuplicateEntry(_))),
    {
        if self.has_failed() {
            return Err(ApkError::Io("the archive writer has failed".to_owned()));
        }
        let prefix = match dest {
            Some(prefix) => prefix,
            None => "",
        };
        proof {
            reveal_strlit("");
            assert(prefix@ =~= prefix_of(dest));
        }
        let r = add_recursive(self, source, prefix);
        proof {
            let files = planned_files(source@, prefix@);
            if r is Err && r->Err_0 is DuplicateEntry && all_fresh(old(self).entries(), files) {
                let taken = r->Err_0->DuplicateEntry_0@;
                let k = choose|k: int|
                    stopped_at(old(self).entries(), self.entries(), files, k, taken);
                lemma_fresh_files_never_stop(old(self).entries(), self.entries(), files, k, taken);
            }
        }
        r
    }

    /// Finishes the package: closes the last entry and writes the central
    /// directory. Without a signer the bytes of the package are handed out
    /// unsigned. With one the build fails: no signature scheme is
    /// implemented.
    pub fn sign(self, signer: Option<Signer>) -> (r: Result<Vec<u8>, ApkError>)
        requires
            self.wf(),
        ensures
            self.has_failed() ==> {
                &&& r matches Err(ApkError::Io(text))
                &&& text@ == failed_message()
            },
            r is Ok <==> !self.has_failed() && self.finishes() && signer is None,
            r matches Ok(package) ==> package@ == self.image(),
            !self.has_failed() && self.finishes() && signer is Some ==> r == Err::<Vec<u8>, ApkError>(
                ApkError::Sign,
            ),
            !self.has_failed() && !self.finishes() ==> r matches Err(ApkError::Io(_)),
    {
        signed(self.writer.finalize(), signer)
    }
}

/// The prefix that a destination stands for: itself, or none.
pub open spec fn prefix_of(dest: Option<&str>) -> Seq<char> {
    match dest {
        Some(prefix) => prefix@,
        None => Seq::empty(),
    }
}

/// Adds the files of `source` and of the directories below it to the
/// package, each as a deflated entry named by its path below `dest`.
fn add_recursive(builder: &mut ApkBuilder, source: &Vec<DirEntry>, dest: &str) -> (r: Result<
    (),
    ApkError,
>)
    requires
        old(builder).wf(),
        !old(builder).has_failed(),
        valid_tree(source@),
        valid_prefix(dest@),
    ensures
        final(builder).wf(),
        old(builder).adds_files(*final(builder), r, planned_files(source@, dest@)),
    decreases source,
{
    let ghost before = builder.entries();
    let ghost start = builder.sink();
    let ghost all = planned_files(source@, dest@);
    let mut i: usize = 0;
    proof {
        lemma_added_none(before);
    }
    while i < source.len()
        invariant
            i <= source.len(),
            builder.wf(),
            !builder.has_failed(),
            valid_tree(source@),
            valid_prefix(dest@),
            before == old(builder).entries(),
            start == old(builder).sink(),
            all == planned_files(source@, dest@),
            added_files(before, builder.entries(), planned_first(source@, i as nat, dest@)),
            all_fresh(before, planned_first(source@, i as nat, dest@)),
            files_fit(start, planned_first(source@, i as nat, dest@)),
            builder.sink() == with_files(start, planned_first(source@, i as nat, dest@)),
        decreases source.len() - i,
    {
        let ghost done = planned_first(source@, i as nat, dest@);
        let ghost here = builder.entries();
        let ghost this = source@[i as int].planned(dest@);
        proof {
            lemma_valid_entry(source@, source@.len(), i as int);
            lemma_planned_first_splits(source@, (i + 1) as nat, source@.len(), dest@);
            assert(planned_first(source@, (i + 1) as nat, dest@) == done + this);
            lemma_fresh_in_turn(before, here, done, this);
            lemma_files_fit_in_turn(start, done, this);
        }
        let ghost rest = planned_between(source@, (i + 1) as nat, source@.len(), dest@);
        assert(all == done + this + rest);
        match &source[i] {
            DirEntry::Dir { name, entries } => {
                proof {
                    lemma_join_is_valid(dest@, name@);
                }
                let below = join_names(dest, name.as_str());
                let r = add_recursive(builder, entries, below.as_str());
                match r {
                    Ok(()) => {
                        proof {
                            lemma_added_then_added(before, here, builder.entries(), done, this);
                        }
                    },
                    Err(error) => {
                        proof {
                            lemma_stops_the_whole(before, here, start, done, this, rest);
                            if error is DuplicateEntry {
                                let taken = error->DuplicateEntry_0@;
                                let k = choose|k: int|
                                    stopped_at(here, builder.entries(), this, k, taken);
                                lemma_added_then_stopped(
                                    before,
                                    here,
                                    builder.entries(),
                                    done,
                                    this,
                                    k,
                                    taken,
                                );
                                lemma_stopped_in_longer(
                                    before,
                                    builder.entries(),
                                    done + this,
                                    rest,
                                    done.len() + k,
                                    taken,
                                );
                            }
                        }
                        return Err(error);
                    },
                }
            },
            DirEntry::File { name, contents } => {
                proof {
                    lemma_join_is_valid(dest@, name@);
                }
                let path = join_names(dest, name.as_str());
                let r = builder.add_bytes(contents.as_slice(), path.as_str(), EntryOptions::Compressed);
                match r {
                    Ok(()) => {
                        proof {
                            lemma_added_one(here, builder.entries(), this[0]);
                            assert(this =~= seq![this[0]]);
                            lemma_one_file_fits(with_files(start, done), this[0]);
                            lemma_added_then_added(before, here, builder.entries(), done, this);
                        }
                    },
                    Err(error) => {
                        proof {
                            assert(this =~= seq![this[0]]);
                            lemma_one_file_fits(with_files(start, done), this[0]);
                            assert(all_fresh(here, this) ==> !has_name(here, this[0].name));
                            lemma_stops_the_whole(before, here, start, done, this, rest);
                            if error is DuplicateEntry {
                                let taken = error->DuplicateEntry_0@;
                                assert(builder.entries() == here);
                                assert((done + this).take(done.len() as int) =~= done);
                                assert(stopped_at(
                                    before,
                                    builder.entries(),
                                    done + this,
                                    done.len() as int,
                                    taken,
                                ));
                                lemma_stopped_in_longer(
                                    before,
                                    builder.entries(),
                                    done + this,
                                    rest,
                                    done.len() as int,
                                    taken,
                                );
                            }
                        }
                        return Err(error);
                    },
                }
            },
            DirEntry::Other { .. } => {
                proof {
                    assert(done + this =~= done);
                }
            },
        }
        i += 1;
    }
    Ok(())
}

/// The name of manifests can name an entry.
pub proof fn lemma_manifest_name_is_valid()
    ensures
        valid_entry_name(MANIFEST_NAME@),
{
    reveal_strlit("AndroidManifest.xml");
}

} // verus!

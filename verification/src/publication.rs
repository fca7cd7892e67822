//! Publishing a prepared replacement by renaming it over the original.
//!
//! The order of the steps is the safety argument: every point at which the
//! system may fail is bracketed by a proof that the files are still exactly
//! what was certified, so that what is left is either the old file or the new
//! one, never a blend.
use vstd::prelude::*;
use crate::certificate::CertifiedFile;
use crate::directory;
use crate::directory::Files;

verus! {

/// One step of a publication.
#[derive(Clone, Copy, Debug, PartialEq, Eq, Structural)]
pub enum PublicationStep {
    /// Make the directory durable.
    SyncDirectory,
    /// Prove that the original is still the one that was read.
    RecertifySource,
    /// Prove that the replacement, and the backup where there is one, are still
    /// what was prepared.
    RecertifyStaged,
    /// From now on the backup stays, whatever happens.
    CommitBackup,
    /// Rename the replacement over the original.
    Rename,
    /// Prove that the replacement is now the original, and that the backup is
    /// still what was prepared.
    RecertifyInstalled,
    /// From now on nothing is left to discard.
    CommitReplacement,
    /// Read the store version back.
    ConfirmVersion,
}

/// The steps of publishing a replacement, in order.
pub open spec fn steps_of(file: CertifiedFile) -> Seq<PublicationStep> {
    match file {
        CertifiedFile::Manifest => seq![
            PublicationStep::RecertifySource,
            PublicationStep::RecertifyStaged,
            PublicationStep::Rename,
            PublicationStep::RecertifyInstalled,
            PublicationStep::CommitReplacement,
            PublicationStep::RecertifyInstalled,
            PublicationStep::SyncDirectory,
            PublicationStep::RecertifyInstalled,
            PublicationStep::RecertifyInstalled,
            PublicationStep::ConfirmVersion,
            PublicationStep::RecertifyInstalled,
        ],
        CertifiedFile::Journal => seq![
            PublicationStep::SyncDirectory,
            PublicationStep::RecertifyStaged,
            PublicationStep::CommitBackup,
            PublicationStep::RecertifySource,
            PublicationStep::RecertifyStaged,
            PublicationStep::Rename,
            PublicationStep::RecertifyInstalled,
            PublicationStep::CommitReplacement,
            PublicationStep::RecertifyInstalled,
            PublicationStep::SyncDirectory,
            PublicationStep::RecertifyInstalled,
            PublicationStep::RecertifyInstalled,
        ],
    }
}

/// A publication in the making.
#[derive(Clone, Copy, Debug, PartialEq, Eq, Structural)]
pub struct Publication {
    file: CertifiedFile,
    position: usize,
}

impl Publication {
    /// The file that is replaced.
    pub closed spec fn file(self) -> CertifiedFile {
        self.file
    }

    /// How many steps were taken.
    pub closed spec fn taken(self) -> nat {
        self.position as nat
    }

    /// No more steps were taken than there are.
    pub open spec fn well_formed(self) -> bool {
        self.taken() <= steps_of(self.file()).len()
    }

    /// Whether a step was taken.
    pub open spec fn has_taken(self, step: PublicationStep) -> bool {
        exists|i: int| 0 <= i < self.taken() && #[trigger] steps_of(self.file())[i] == step
    }

    /// Begins a publication.
    pub fn of(file: CertifiedFile) -> (publication: Self)
        ensures
            publication.well_formed(),
            publication.file() == file,
            publication.taken() == 0,
    {
        Publication { file, position: 0 }
    }

    /// The next step, or none when everything is published.
    pub fn next(&self) -> (step: Option<PublicationStep>)
        requires
            self.well_formed(),
        ensures
            step == if self.taken() < steps_of(self.file()).len() {
                Some(steps_of(self.file())[self.taken() as int])
            } else {
                None
            },
    {
        match self.file {
            CertifiedFile::Manifest => {
                if self.position == 0 {
                    Some(PublicationStep::RecertifySource)
                } else if self.position == 1 {
                    Some(PublicationStep::RecertifyStaged)
                } else if self.position == 2 {
                    Some(PublicationStep::Rename)
                } else if self.position == 4 {
                    Some(PublicationStep::CommitReplacement)
                } else if self.position == 6 {
                    Some(PublicationStep::SyncDirectory)
                } else if self.position == 9 {
                    Some(PublicationStep::ConfirmVersion)
                } else if self.position < 11 {
                    Some(PublicationStep::RecertifyInstalled)
                } else {
                    None
                }
            },
            CertifiedFile::Journal => {
                if self.position == 0 || self.position == 9 {
                    Some(PublicationStep::SyncDirectory)
                } else if self.position == 1 || self.position == 4 {
                    Some(PublicationStep::RecertifyStaged)
                } else if self.position == 2 {
                    Some(PublicationStep::CommitBackup)
                } else if self.position == 3 {
                    Some(PublicationStep::RecertifySource)
                } else if self.position == 5 {
                    Some(PublicationStep::Rename)
                } else if self.position == 7 {
                    Some(PublicationStep::CommitReplacement)
                } else if self.position < 12 {
                    Some(PublicationStep::RecertifyInstalled)
                } else {
                    None
                }
            },
        }
    }

    /// Goes on once the step was taken.
    pub fn done(&mut self)
        requires
            old(self).well_formed(),
            old(self).taken() < steps_of(old(self).file()).len(),
        ensures
            final(self).well_formed(),
            final(self).file() == old(self).file(),
            final(self).taken() == old(self).taken() + 1,
    {
        self.position = self.position + 1;
    }

    /// Whether a failure now discards the prepared replacement: it does until
    /// the replacement is committed.
    pub fn discards_replacement(&self) -> (discards: bool)
        requires
            self.well_formed(),
        ensures
            discards == !self.has_taken(PublicationStep::CommitReplacement),
    {
        let limit: usize = match self.file {
            CertifiedFile::Manifest => 4,
            CertifiedFile::Journal => 7,
        };
        proof {
            assert(steps_of(self.file)[limit as int] == PublicationStep::CommitReplacement);
        }
        self.position <= limit
    }

    /// Whether a failure now discards the prepared backup: it does until the
    /// backup is committed. A manifest has none.
    pub fn discards_backup(&self) -> (discards: bool)
        requires
            self.well_formed(),
        ensures
            discards == (self.file() == CertifiedFile::Journal && !self.has_taken(
                PublicationStep::CommitBackup,
            )),
    {
        proof {
            if self.file == CertifiedFile::Journal {
                assert(steps_of(self.file)[2] == PublicationStep::CommitBackup);
            }
        }
        match self.file {
            CertifiedFile::Manifest => false,
            CertifiedFile::Journal => self.position <= 2,
        }
    }
}

/// Right before the rename, both the original and the replacement are proved to
/// be what was certified; right after it, the installed file is.
pub proof fn law_the_rename_is_bracketed_by_proofs(file: CertifiedFile, position: int)
    requires
        0 <= position < steps_of(file).len(),
        steps_of(file)[position] == PublicationStep::Rename,
    ensures
        2 <= position,
        position + 1 < steps_of(file).len(),
        steps_of(file)[position - 2] == PublicationStep::RecertifySource,
        steps_of(file)[position - 1] == PublicationStep::RecertifyStaged,
        steps_of(file)[position + 1] == PublicationStep::RecertifyInstalled,
{
}

/// After the rename, the installed file is proved to be the certified one right
/// before and right after the directory is made durable, and once more at the
/// end.
pub proof fn law_durability_is_bracketed_by_proofs(
    file: CertifiedFile,
    renamed: int,
    synced: int,
)
    requires
        0 <= renamed < synced < steps_of(file).len(),
        steps_of(file)[renamed] == PublicationStep::Rename,
        steps_of(file)[synced] == PublicationStep::SyncDirectory,
    ensures
        steps_of(file)[synced - 1] == PublicationStep::RecertifyInstalled,
        synced + 1 < steps_of(file).len(),
        steps_of(file)[synced + 1] == PublicationStep::RecertifyInstalled,
        steps_of(file).last() == PublicationStep::RecertifyInstalled,
{
}

/// A prepared replacement of a file, with a backup: the names that take part, the
/// bytes that were read, and those that take their place.
pub struct Replacement {
    /// The file that is replaced.
    pub target: Seq<char>,
    /// The prepared file.
    pub staged: Seq<char>,
    /// The backup.
    pub backup: Seq<char>,
    /// The bytes that were read.
    pub source: Seq<u8>,
    /// The bytes that take their place.
    pub output: Seq<u8>,
}

impl Replacement {
    /// The replacement fits a directory: the file is what was read, and neither
    /// the prepared file nor the backup takes a name that is in use.
    pub open spec fn fits(self, files: Files) -> bool {
        &&& files.contains_key(self.target)
        &&& files[self.target] == self.source
        &&& !files.contains_key(self.staged)
        &&& !files.contains_key(self.backup)
        &&& self.staged != self.backup
    }

    /// The directory once both files are written.
    pub open spec fn prepared(self, files: Files) -> Files {
        files.insert(self.staged, self.output).insert(self.backup, self.source)
    }

    /// Whether a step finds what it is to prove.
    pub open spec fn proves(self, step: PublicationStep, files: Files) -> bool {
        match step {
            PublicationStep::RecertifySource => files.contains_key(self.target)
                && files[self.target] == self.source,
            PublicationStep::RecertifyStaged => files.contains_key(self.staged)
                && files[self.staged] == self.output && files.contains_key(self.backup)
                && files[self.backup] == self.source,
            PublicationStep::RecertifyInstalled => files.contains_key(self.target)
                && files[self.target] == self.output && files.contains_key(self.backup)
                && files[self.backup] == self.source,
            _ => true,
        }
    }

    /// The directory after a step: only the rename changes it.
    pub open spec fn after(self, step: PublicationStep, files: Files) -> Files {
        if step == PublicationStep::Rename {
            files.insert(self.target, files[self.staged]).remove(self.staged)
        } else {
            files
        }
    }

    /// The directory after the first steps of a journal's publication.
    pub open spec fn after_steps(self, files: Files, count: nat) -> Files
        decreases count,
    {
        if count == 0 {
            self.prepared(files)
        } else {
            self.after(
                steps_of(CertifiedFile::Journal)[count - 1],
                self.after_steps(files, (count - 1) as nat),
            )
        }
    }

    /// The directory after a journal's whole publication.
    pub open spec fn published(self, files: Files) -> Files {
        self.after_steps(files, steps_of(CertifiedFile::Journal).len())
    }
}

proof fn lemma_after_steps(replacement: Replacement, files: Files, count: nat)
    requires
        replacement.fits(files),
        count <= steps_of(CertifiedFile::Journal).len(),
    ensures
        replacement.after_steps(files, count) == if count <= 5 {
            replacement.prepared(files)
        } else {
            files.insert(replacement.target, replacement.output).insert(
                replacement.backup,
                replacement.source,
            )
        },
    decreases count,
{
    if count > 0 {
        lemma_after_steps(replacement, files, (count - 1) as nat);
        let step = steps_of(CertifiedFile::Journal)[count - 1];
        assert(step == PublicationStep::Rename <==> count == 6);
        if count == 6 {
            let before = replacement.prepared(files);
            assert(before[replacement.staged] == replacement.output);
            assert(replacement.after(step, before) =~= files.insert(
                replacement.target,
                replacement.output,
            ).insert(replacement.backup, replacement.source));
        }
    }
}

/// A journal's publication, undisturbed, finds everything that it is to prove.
/// In the end the journal holds its replacement, a new file holds the bytes that
/// the journal held before, and every other file is what it was.
pub proof fn law_a_publication_keeps_the_old_journal(replacement: Replacement, files: Files)
    requires
        replacement.fits(files),
    ensures
        forall|i: int|
            0 <= i < steps_of(CertifiedFile::Journal).len() ==> replacement.proves(
                #[trigger] steps_of(CertifiedFile::Journal)[i],
                replacement.after_steps(files, i as nat),
            ),
        replacement.published(files) == files.insert(
            replacement.target,
            replacement.output,
        ).insert(replacement.backup, replacement.source),
        replacement.published(files)[replacement.backup] == files[replacement.target],
        !files.contains_key(replacement.backup),
        forall|name: Seq<char>|
            name != replacement.target && name != replacement.backup
                ==> #[trigger] directory::same_file(files, replacement.published(files), name),
{
    let steps = steps_of(CertifiedFile::Journal);
    assert forall|i: int| 0 <= i < steps.len() implies replacement.proves(
        #[trigger] steps[i],
        replacement.after_steps(files, i as nat),
    ) by {
        lemma_after_steps(replacement, files, i as nat);
        assert(steps[i] == PublicationStep::RecertifySource ==> i == 3);
        assert(steps[i] == PublicationStep::RecertifyStaged ==> i == 1 || i == 4);
        assert(steps[i] == PublicationStep::RecertifyInstalled ==> i >= 6);
    }
    lemma_after_steps(replacement, files, steps.len());
}

/// Whatever else happens to the directory between its steps, a journal's
/// publication that came to its end found the journal to hold what was read,
/// right before the rename, and in the end the replacement in its place and the
/// bytes that were read in the backup.
pub proof fn law_a_finished_publication_proved_its_files(
    replacement: Replacement,
    states: Seq<Files>,
)
    requires
        states.len() == steps_of(CertifiedFile::Journal).len(),
        forall|i: int|
            0 <= i < states.len() ==> replacement.proves(
                steps_of(CertifiedFile::Journal)[i],
                #[trigger] states[i],
            ),
    ensures
        exists|i: int|
            0 <= i < states.len() - 2 && steps_of(CertifiedFile::Journal)[i + 2]
                == PublicationStep::Rename && (#[trigger] states[i]).contains_key(
                replacement.target,
            ) && states[i][replacement.target] == replacement.source,
        states.last().contains_key(replacement.target),
        states.last()[replacement.target] == replacement.output,
        states.last().contains_key(replacement.backup),
        states.last()[replacement.backup] == replacement.source,
{
    let steps = steps_of(CertifiedFile::Journal);
    assert(steps[3] == PublicationStep::RecertifySource);
    assert(steps[5] == PublicationStep::Rename);
    assert(replacement.proves(steps[3], states[3]));
    assert(steps[11] == PublicationStep::RecertifyInstalled);
    assert(replacement.proves(steps[11], states[11]));
}

/// A replaced journal always leaves its backup: by the time of the rename the
/// backup is durable and committed, so that no later failure discards it.
pub proof fn law_a_replaced_journal_leaves_its_backup(publication: Publication)
    requires
        publication.well_formed(),
        publication.file() == CertifiedFile::Journal,
        publication.has_taken(PublicationStep::Rename),
    ensures
        publication.has_taken(PublicationStep::CommitBackup),
        publication.has_taken(PublicationStep::SyncDirectory),
{
    let steps = steps_of(CertifiedFile::Journal);
    let i = choose|i: int|
        0 <= i < publication.taken() && #[trigger] steps[i] == PublicationStep::Rename;
    assert(i == 5);
    assert(steps[2] == PublicationStep::CommitBackup);
    assert(steps[0] == PublicationStep::SyncDirectory);
}

} // verus!

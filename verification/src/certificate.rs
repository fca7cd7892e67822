//! Certificates: proofs that a file is still exactly the one that was read or
//! written, by identity and by every byte.
use vstd::prelude::*;
use vstd::string::*;
use crate::error::Error;
use crate::journal::rewrite::bytes_equal;

verus! {

/// What tells one file from another on a system.
#[derive(Clone, Copy, Debug, PartialEq, Eq, Structural)]
pub struct FileIdentity {
    /// The device.
    pub device: u64,
    /// The inode.
    pub inode: u64,
}

/// Which file a certificate is about: it decides how a refusal reads.
#[derive(Clone, Copy, Debug, PartialEq, Eq, Structural)]
pub enum CertifiedFile {
    /// The manifest, or its replacement.
    Manifest,
    /// The journal, its replacement or its backup.
    Journal,
}

/// What a look at a file through its path showed: what the path leads to, and
/// what was then opened.
#[derive(Debug)]
pub struct FileSighting {
    /// Whether the path leads to a regular file.
    pub link_is_file: bool,
    /// The identity of what the path leads to.
    pub link: FileIdentity,
    /// Whether what was opened is a regular file.
    pub reopened_is_file: bool,
    /// The identity of what was opened.
    pub reopened: FileIdentity,
    /// Every byte of what was opened.
    pub bytes: Vec<u8>,
}

/// Why a file is not the expected one.
pub open spec fn sighting_fault(
    file: CertifiedFile,
    label: Seq<char>,
    path: Seq<char>,
    sighting: FileSighting,
    identity: FileIdentity,
    bytes: Seq<u8>,
) -> Option<Seq<char>> {
    let named = label + " "@ + path;
    if !sighting.link_is_file {
        Some(named + " is not regular"@)
    } else if !sighting.reopened_is_file {
        match file {
            CertifiedFile::Manifest => Some(named + " is not regular"@),
            CertifiedFile::Journal => Some("reopened "@ + named + " is not regular"@),
        }
    } else if sighting.link != identity || sighting.reopened != identity {
        match file {
            CertifiedFile::Manifest => Some(named + " changed identity before publication"@),
            CertifiedFile::Journal => Some(named + " changed identity after it was prepared"@),
        }
    } else if sighting.bytes@ != bytes {
        match file {
            CertifiedFile::Manifest => Some(named + " changed before publication"@),
            CertifiedFile::Journal => Some(named + " differs from the exact prepared bytes"@),
        }
    } else {
        None
    }
}

fn named(prefix: &str, label: &str, path: &str, remark: &str) -> (error: Error)
    ensures
        error.refuses(prefix@ + (label@ + " "@ + path@) + remark@),
{
    let mut details = String::new();
    details.append(prefix);
    details.append(label);
    details.append(" ");
    details.append(path);
    details.append(remark);
    assert(details@ =~= prefix@ + (label@ + " "@ + path@) + remark@);
    Error::InvalidFormat { details }
}

/// Refuses a file that is not the expected one: another kind of file, another
/// inode, or a single other byte.
pub fn open_verified_file(
    file: CertifiedFile,
    label: &str,
    path: &str,
    sighting: &FileSighting,
    identity: FileIdentity,
    bytes: &[u8],
) -> (verified: Result<(), Error>)
    ensures
        match verified {
            Ok(_) => sighting_fault(file, label@, path@, *sighting, identity, bytes@) is None,
            Err(error) => sighting_fault(
                file,
                label@,
                path@,
                *sighting,
                identity,
                bytes@,
            ) is Some && error.refuses(
                sighting_fault(file, label@, path@, *sighting, identity, bytes@)->0,
            ),
        },
{
    let ghost plain = label@ + " "@ + path@;
    proof {
        reveal_strlit("");
        assert(""@ + plain =~= plain);
    }
    if !sighting.link_is_file {
        return Err(named("", label, path, " is not regular"));
    }
    if !sighting.reopened_is_file {
        return Err(
            match file {
                CertifiedFile::Manifest => named("", label, path, " is not regular"),
                CertifiedFile::Journal => named("reopened ", label, path, " is not regular"),
            },
        );
    }
    if sighting.link != identity || sighting.reopened != identity {
        return Err(
            match file {
                CertifiedFile::Manifest => named(
                    "",
                    label,
                    path,
                    " changed identity before publication",
                ),
                CertifiedFile::Journal => named(
                    "",
                    label,
                    path,
                    " changed identity after it was prepared",
                ),
            },
        );
    }
    if !bytes_equal(&sighting.bytes, bytes) {
        return Err(
            match file {
                CertifiedFile::Manifest => named("", label, path, " changed before publication"),
                CertifiedFile::Journal => named(
                    "",
                    label,
                    path,
                    " differs from the exact prepared bytes",
                ),
            },
        );
    }
    Ok(())
}

/// A file that was certified and is held open since.
#[derive(Clone, Copy, Debug, PartialEq, Eq, Structural)]
pub struct FileCertificate {
    /// Which file.
    pub file: CertifiedFile,
    /// Its identity.
    pub identity: FileIdentity,
}

/// Why a certificate does not hold any more.
pub open spec fn recertification_fault(
    certificate: FileCertificate,
    label: Seq<char>,
    path: Seq<char>,
    held_is_file: bool,
    held: FileIdentity,
    sighting: FileSighting,
    bytes: Seq<u8>,
) -> Option<Seq<char>> {
    if !held_is_file {
        Some("held "@ + label + " is no longer regular"@)
    } else if held != certificate.identity {
        match certificate.file {
            CertifiedFile::Manifest => Some(
                "held "@ + label + " changed identity before publication"@,
            ),
            CertifiedFile::Journal => Some("held "@ + label + " changed identity"@),
        }
    } else {
        sighting_fault(certificate.file, label, path, sighting, held, bytes)
    }
}

impl FileCertificate {
    /// Certifies a file that was prepared or read: it is the expected one.
    pub fn certify(
        file: CertifiedFile,
        label: &str,
        path: &str,
        sighting: &FileSighting,
        identity: FileIdentity,
        bytes: &[u8],
    ) -> (certified: Result<FileCertificate, Error>)
        ensures
            match certified {
                Ok(certificate) => sighting_fault(
                    file,
                    label@,
                    path@,
                    *sighting,
                    identity,
                    bytes@,
                ) is None && certificate == (FileCertificate { file, identity }),
                Err(error) => sighting_fault(
                    file,
                    label@,
                    path@,
                    *sighting,
                    identity,
                    bytes@,
                ) is Some && error.refuses(
                    sighting_fault(file, label@, path@, *sighting, identity, bytes@)->0,
                ),
            },
    {
        open_verified_file(file, label, path, sighting, identity, bytes)?;
        Ok(FileCertificate { file, identity })
    }

    /// Proves again that the held file and the file at a path are both the
    /// certified one, byte for byte. A certificate follows its file through a
    /// rename, and refuses another file in its place even with the same bytes.
    pub fn recertify(
        &self,
        label: &str,
        path: &str,
        held_is_file: bool,
        held: FileIdentity,
        sighting: &FileSighting,
        bytes: &[u8],
    ) -> (recertified: Result<(), Error>)
        ensures
            match recertified {
                Ok(_) => recertification_fault(
                    *self,
                    label@,
                    path@,
                    held_is_file,
                    held,
                    *sighting,
                    bytes@,
                ) is None,
                Err(error) => recertification_fault(
                    *self,
                    label@,
                    path@,
                    held_is_file,
                    held,
                    *sighting,
                    bytes@,
                ) is Some && error.refuses(
                    recertification_fault(
                        *self,
                        label@,
                        path@,
                        held_is_file,
                        held,
                        *sighting,
                        bytes@,
                    )->0,
                ),
            },
    {
        if !held_is_file {
            return Err(held_fault(label, " is no longer regular"));
        }
        if held != self.identity {
            return Err(
                match self.file {
                    CertifiedFile::Manifest => held_fault(
                        label,
                        " changed identity before publication",
                    ),
                    CertifiedFile::Journal => held_fault(label, " changed identity"),
                },
            );
        }
        open_verified_file(self.file, label, path, sighting, held, bytes)
    }
}

fn held_fault(label: &str, remark: &str) -> (error: Error)
    ensures
        error.refuses("held "@ + label@ + remark@),
{
    let mut details = String::from_str("held ");
    details.append(label);
    details.append(remark);
    assert(details@ =~= "held "@ + label@ + remark@);
    Error::InvalidFormat { details }
}

/// A certificate that holds speaks of one inode and exactly the expected bytes,
/// whichever way the file is looked at.
pub proof fn law_a_certificate_pins_inode_and_bytes(
    certificate: FileCertificate,
    label: Seq<char>,
    path: Seq<char>,
    held_is_file: bool,
    held: FileIdentity,
    sighting: FileSighting,
    bytes: Seq<u8>,
)
    requires
        recertification_fault(
            certificate,
            label,
            path,
            held_is_file,
            held,
            sighting,
            bytes,
        ) is None,
    ensures
        held == certificate.identity,
        sighting.link == certificate.identity,
        sighting.reopened == certificate.identity,
        sighting.bytes@ == bytes,
{
}

/// Why a journal cannot be opened for reading.
pub open spec fn journal_fault(
    path: Seq<char>,
    exists: bool,
    link_is_file: bool,
    opened_is_file: bool,
    link: FileIdentity,
    opened: FileIdentity,
) -> Option<Seq<char>> {
    if !exists {
        Some("journal file "@ + path + " does not exist"@)
    } else if !link_is_file || !opened_is_file {
        Some("journal "@ + path + " is not a regular file"@)
    } else if link != opened {
        Some("journal "@ + path + " changed identity while opening"@)
    } else {
        None
    }
}

/// Refuses a journal that is missing, that is not a regular file, or that was
/// replaced while it was opened.
pub fn open_regular_journal(
    path: &str,
    exists: bool,
    link_is_file: bool,
    opened_is_file: bool,
    link: FileIdentity,
    opened: FileIdentity,
) -> (checked: Result<(), Error>)
    ensures
        match checked {
            Ok(_) => journal_fault(path@, exists, link_is_file, opened_is_file, link, opened)
                is None,
            Err(error) => journal_fault(
                path@,
                exists,
                link_is_file,
                opened_is_file,
                link,
                opened,
            ) is Some && error.refuses(
                journal_fault(path@, exists, link_is_file, opened_is_file, link, opened)->0,
            ),
        },
{
    let mut details = String::new();
    if !exists {
        details.append("journal file ");
        details.append(path);
        details.append(" does not exist");
        assert(details@ =~= "journal file "@ + path@ + " does not exist"@);
        return Err(Error::InvalidFormat { details });
    }
    if !link_is_file || !opened_is_file {
        details.append("journal ");
        details.append(path);
        details.append(" is not a regular file");
        assert(details@ =~= "journal "@ + path@ + " is not a regular file"@);
        return Err(Error::InvalidFormat { details });
    }
    if link != opened {
        details.append("journal ");
        details.append(path);
        details.append(" changed identity while opening");
        assert(details@ =~= "journal "@ + path@ + " changed identity while opening"@);
        return Err(Error::InvalidFormat { details });
    }
    Ok(())
}

} // verus!

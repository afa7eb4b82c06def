//! Precondition gathering for the three batch commands.  Every missing
//! precondition is collected and reported together, before anything touches
//! the filesystem or a container; the checks on the filesystem itself happen
//! outside and hand in plain booleans.

use vstd::prelude::*;

verus! {

/// Where a runtime reader takes its container from: the statically supplied
/// byte buffer when one is given; otherwise the well-known archive file,
/// which only a platform with ordinary filesystem access can open; with
/// neither, construction is a fatal configuration error and must not
/// continue.
#[derive(Debug, Clone, Copy, PartialEq, Eq)]
pub enum ArchiveSource {
    /// Use the supplied in-memory buffer directly; no file I/O.
    UseBuffer,
    /// Open the archive file at its well-known location.
    OpenWellKnownFile,
    /// No buffer and no filesystem: refuse to construct anything.
    FatalNoSource,
}

/// Decides where a reader's container comes from, from whether a static
/// buffer was supplied and whether the platform has ordinary filesystem
/// access.  Exactly one source resolves, or construction is fatal.
pub fn resolve_archive_source(buffer_present: bool, platform_has_fs: bool) -> (r: ArchiveSource)
    ensures
        (r == ArchiveSource::UseBuffer) <==> buffer_present,
        (r == ArchiveSource::OpenWellKnownFile) <==> (!buffer_present && platform_has_fs),
        (r == ArchiveSource::FatalNoSource) <==> (!buffer_present && !platform_has_fs),
{
    if buffer_present {
        ArchiveSource::UseBuffer
    } else if platform_has_fs {
        ArchiveSource::OpenWellKnownFile
    } else {
        ArchiveSource::FatalNoSource
    }
}

/// One precondition a batch command found violated.
#[derive(Debug, Clone, Copy, PartialEq, Eq)]
pub enum PreconditionIssue {
    /// The asset source directory does not exist.
    MissingAssetsDir,
    /// The combined key-pair file does not exist.
    MissingKeyPair,
    /// The archive file does not exist.
    MissingArchive,
    /// The public verifying key file does not exist.
    MissingPublicKey,
    /// The secrets directory already exists; keys are never overwritten.
    SecretsDirExists,
}

/// The issues the archive build reports, in order.
pub open spec fn archive_issue_list(assets_dir_exists: bool, key_pair_exists: bool) -> Seq<
    PreconditionIssue,
> {
    let a = if !assets_dir_exists {
        seq![PreconditionIssue::MissingAssetsDir]
    } else {
        Seq::empty()
    };
    if !key_pair_exists {
        a.push(PreconditionIssue::MissingKeyPair)
    } else {
        a
    }
}

/// The issues the consistency check reports, in order.
pub open spec fn check_issue_list(archive_exists: bool, public_key_exists: bool) -> Seq<
    PreconditionIssue,
> {
    let a = if !archive_exists {
        seq![PreconditionIssue::MissingArchive]
    } else {
        Seq::empty()
    };
    if !public_key_exists {
        a.push(PreconditionIssue::MissingPublicKey)
    } else {
        a
    }
}

/// The issues key generation reports.
pub open spec fn generate_issue_list(secrets_dir_exists: bool) -> Seq<PreconditionIssue> {
    if secrets_dir_exists {
        seq![PreconditionIssue::SecretsDirExists]
    } else {
        Seq::empty()
    }
}

/// Every precondition the archive build needs, all violations at once: the
/// build may start only when the result is empty.
pub fn archive_preconditions(assets_dir_exists: bool, key_pair_exists: bool) -> (r: Vec<
    PreconditionIssue,
>)
    ensures
        r@ == archive_issue_list(assets_dir_exists, key_pair_exists),
{
    let mut r: Vec<PreconditionIssue> = Vec::new();
    if !assets_dir_exists {
        r.push(PreconditionIssue::MissingAssetsDir);
    }
    if !key_pair_exists {
        r.push(PreconditionIssue::MissingKeyPair);
    }
    proof {
        assert(r@ =~= archive_issue_list(assets_dir_exists, key_pair_exists));
    }
    r
}

/// Every precondition the consistency check needs, all violations at once.
pub fn check_preconditions(archive_exists: bool, public_key_exists: bool) -> (r: Vec<
    PreconditionIssue,
>)
    ensures
        r@ == check_issue_list(archive_exists, public_key_exists),
{
    let mut r: Vec<PreconditionIssue> = Vec::new();
    if !archive_exists {
        r.push(PreconditionIssue::MissingArchive);
    }
    if !public_key_exists {
        r.push(PreconditionIssue::MissingPublicKey);
    }
    proof {
        assert(r@ =~= check_issue_list(archive_exists, public_key_exists));
    }
    r
}

/// Every precondition key generation needs: it refuses to run over an
/// existing secrets directory.
pub fn generate_preconditions(secrets_dir_exists: bool) -> (r: Vec<PreconditionIssue>)
    ensures
        r@ == generate_issue_list(secrets_dir_exists),
{
    let mut r: Vec<PreconditionIssue> = Vec::new();
    if secrets_dir_exists {
        r.push(PreconditionIssue::SecretsDirExists);
    }
    proof {
        assert(r@ =~= generate_issue_list(secrets_dir_exists));
    }
    r
}

} // verus!

//! Over-the-air artifacts: the download retry policy, the checksum check,
//! the archive format, the checks on archive members and the extraction
//! budget, the plan of a tar or zip extraction from the archive's members,
//! and the choice of the payload among the extracted files.

use sha2::Digest;
use vstd::prelude::*;
use crate::auth::{hex_encode, spec_hex};
use crate::text::{chars_of, concat2, concat3, debug_str, fmt_u64, spec_debug_str, spec_dec, str_eq, string_of_range};
use crate::ui::spec_ends_with;

verus! {

/// Most extracted files an archive may hold.
pub const MAX_EXTRACT_FILES: usize = 256;

/// Most uncompressed bytes an archive may hold (512 MiB).
pub const MAX_EXTRACT_BYTES: u64 = 536_870_912;

/// Retries of a failed download before giving up.
pub const MAX_DOWNLOAD_RETRIES: u32 = 3;

/// What to do after a failed download attempt.
#[derive(Clone, Copy, Debug, PartialEq, Eq, Structural)]
pub enum RetryStep {
    /// Give up: the failure is fatal (a 4xx answer) or retries are spent.
    GiveUp { attempts: u32 },
    /// Wait this many seconds, then try again.
    Retry { attempt: u32, wait_secs: u64 },
}

/// Decision after the download attempt number `failed + 1` failed:
/// exponential backoff of 1, 2, 4 seconds over three retries.
pub open spec fn spec_retry_step(failed: u32, fatal: bool) -> RetryStep {
    let attempt = failed + 1;
    if fatal || attempt > MAX_DOWNLOAD_RETRIES {
        RetryStep::GiveUp { attempts: attempt as u32 }
    } else {
        RetryStep::Retry {
            attempt: attempt as u32,
            wait_secs: vstd::arithmetic::power2::pow2((attempt - 1) as nat) as u64,
        }
    }
}

pub fn next_retry(failed: u32, fatal: bool) -> (r: RetryStep)
    requires
        failed <= MAX_DOWNLOAD_RETRIES,
    ensures
        r == spec_retry_step(failed, fatal),
{
    let attempt = failed + 1;
    if fatal || attempt > MAX_DOWNLOAD_RETRIES {
        RetryStep::GiveUp { attempts: attempt }
    } else {
        proof {
            vstd::arithmetic::power2::lemma2_to64();
        }
        let wait: u64 = if attempt == 1 {
            1
        } else if attempt == 2 {
            2
        } else {
            4
        };
        RetryStep::Retry { attempt, wait_secs: wait }
    }
}

/// Wait before the next download attempt, after `attempt` attempts
/// (counting the one that just failed, so at least one) failed; `None`
/// when the failure is a client error (4xx) or the retries are spent.
/// The waits double: 1 s, 2 s, 4 s.
pub fn download_retry(attempt: u32, client_error: bool) -> (r: Option<u64>)
    requires
        attempt >= 1,
    ensures
        r is None <==> (client_error || attempt > MAX_DOWNLOAD_RETRIES),
        r matches Some(s) ==> s == vstd::arithmetic::power2::pow2((attempt - 1) as nat),
{
    if client_error || attempt > MAX_DOWNLOAD_RETRIES {
        None
    } else {
        proof {
            vstd::arithmetic::power2::lemma2_to64();
        }
        match next_retry(attempt - 1, client_error) {
            RetryStep::Retry { wait_secs, .. } => Some(wait_secs),
            RetryStep::GiveUp { .. } => None,
        }
    }
}

/// SHA-256 digest of a byte string (`sha2::Sha256`).
pub uninterp spec fn spec_sha256(b: Seq<u8>) -> Seq<u8>;

/// `sha2::Sha256::digest`: the digest is a function of the bytes, 32
/// bytes long.
#[verifier::external_body]
fn sha256_digest(b: &[u8]) -> (r: Vec<u8>)
    ensures
        r@ == spec_sha256(b@),
        r@.len() == 32,
{
    sha2::Sha256::digest(b).to_vec()
}

/// The downloaded artifact matches the configured checksum: the
/// lower-case hexadecimal SHA-256 of its bytes is exactly `expected`;
/// otherwise the mismatch reports both texts.
pub fn verify_artifact_checksum(downloaded: &[u8], expected: &str) -> (r: Result<(), ArtifactError>)
    ensures
        r is Ok <==> spec_hex(spec_sha256(downloaded@)) == expected@,
        match r {
            Ok(()) => true,
            Err(ArtifactError::ChecksumMismatch { expected: e, got }) => e@ == expected@ && got@ == spec_hex(
                spec_sha256(downloaded@),
            ),
            Err(_) => false,
        },
{
    let digest = sha256_digest(downloaded);
    let hash = hex_encode(digest.as_slice());
    verify_checksum(hash.as_str(), expected)
}

/// Why an artifact was rejected.
#[derive(Debug)]
pub enum ArtifactError {
    ChecksumMismatch { expected: String, got: String },
    UnsupportedFormat { file_name: Option<String> },
    MemberRejected { name: String },
    MemberNotRelative { name: String },
    TooManyFiles,
    TooLarge,
    NoFiles,
    AmbiguousPayload { basename: String },
    NoPayload { count: u64, basename: String },
    LinkMember,
    UnsupportedMember { kind: String },
    ZipMemberRejected { name: String },
}

/// Text of an artifact error.
pub open spec fn spec_artifact_error_message(e: ArtifactError) -> Seq<char> {
    match e {
        ArtifactError::ChecksumMismatch { expected, got } => "Checksum mismatch! Expected: "@
            + expected@ + ", Got: "@ + got@,
        ArtifactError::UnsupportedFormat { file_name } => "Unsupported OTA archive format for "@
            + (match file_name {
            Some(n) => "Some("@ + spec_debug_str(n@) + ")"@,
            None => "None"@,
        }) + "; use .tar.gz, .tgz, .tar, or .zip"@,
        ArtifactError::MemberRejected { name } => "archive member path rejected: "@
            + spec_debug_str(name@),
        ArtifactError::MemberNotRelative { name } => "archive member must be relative: "@
            + spec_debug_str(name@),
        ArtifactError::TooManyFiles => "archive exceeds max file count (256)"@,
        ArtifactError::TooLarge => "archive exceeds max uncompressed size (536870912 bytes)"@,
        ArtifactError::NoFiles => "archive contained no regular files"@,
        ArtifactError::AmbiguousPayload { basename } => "archive contains multiple files named "@
            + spec_debug_str(basename@) + "; cannot choose payload"@,
        ArtifactError::NoPayload { count, basename } => "archive has "@ + spec_dec(count as nat)
            + " files and none named "@ + spec_debug_str(basename@)
            + "; set destination basename to match or ship a single-file archive"@,
        ArtifactError::LinkMember => "archive must not contain symlinks or hard links"@,
        ArtifactError::UnsupportedMember { kind } => "unsupported archive entry type: "@ + kind@,
        ArtifactError::ZipMemberRejected { name } => "zip member path rejected: "@ + spec_debug_str(name@),
    }
}

impl ArtifactError {
    pub fn message(&self) -> (r: String)
        ensures
            r@ == spec_artifact_error_message(*self),
    {
        match self {
            ArtifactError::ChecksumMismatch { expected, got } => {
                let a = concat3("Checksum mismatch! Expected: ", expected.as_str(), ", Got: ");
                concat2(a.as_str(), got.as_str())
            },
            ArtifactError::UnsupportedFormat { file_name } => {
                let shown = match file_name {
                    Some(n) => {
                        let d = debug_str(n.as_str());
                        concat3("Some(", d.as_str(), ")")
                    },
                    None => "None".to_owned(),
                };
                concat3(
                    "Unsupported OTA archive format for ",
                    shown.as_str(),
                    "; use .tar.gz, .tgz, .tar, or .zip",
                )
            },
            ArtifactError::MemberRejected { name } => {
                let d = debug_str(name.as_str());
                concat2("archive member path rejected: ", d.as_str())
            },
            ArtifactError::MemberNotRelative { name } => {
                let d = debug_str(name.as_str());
                concat2("archive member must be relative: ", d.as_str())
            },
            ArtifactError::TooManyFiles => "archive exceeds max file count (256)".to_owned(),
            ArtifactError::TooLarge => "archive exceeds max uncompressed size (536870912 bytes)".to_owned(),
            ArtifactError::NoFiles => "archive contained no regular files".to_owned(),
            ArtifactError::AmbiguousPayload { basename } => {
                let d = debug_str(basename.as_str());
                concat3("archive contains multiple files named ", d.as_str(), "; cannot choose payload")
            },
            ArtifactError::NoPayload { count, basename } => {
                let c = fmt_u64(*count);
                let d = debug_str(basename.as_str());
                let a = concat3("archive has ", c.as_str(), " files and none named ");
                concat3(
                    a.as_str(),
                    d.as_str(),
                    "; set destination basename to match or ship a single-file archive",
                )
            },
            ArtifactError::LinkMember => "archive must not contain symlinks or hard links".to_owned(),
            ArtifactError::UnsupportedMember { kind } => concat2("unsupported archive entry type: ", kind.as_str()),
            ArtifactError::ZipMemberRejected { name } => {
                let d = debug_str(name.as_str());
                concat2("zip member path rejected: ", d.as_str())
            },
        }
    }
}

/// The checksum of the download must be the configured one.
pub fn verify_checksum(calculated: &str, expected: &str) -> (r: Result<(), ArtifactError>)
    ensures
        match r {
            Ok(()) => calculated@ == expected@,
            Err(ArtifactError::ChecksumMismatch { expected: e, got }) => calculated@ != expected@
                && e@ == expected@ && got@ == calculated@,
            Err(_) => false,
        },
{
    if str_eq(calculated, expected) {
        Ok(())
    } else {
        Err(ArtifactError::ChecksumMismatch { expected: expected.to_owned(), got: calculated.to_owned() })
    }
}

/// Archive formats.
#[derive(Clone, Copy, Debug, PartialEq, Eq, Structural)]
pub enum ArchiveKind {
    TarGz,
    Tar,
    Zip,
}

/// ASCII lower case of a character.
pub open spec fn spec_ascii_lower(c: char) -> char {
    if 'A' <= c <= 'Z' {
        ((c as u32) + 32) as char
    } else {
        c
    }
}

/// ASCII lower case of a text (`str::to_ascii_lowercase`).
pub open spec fn spec_ascii_lowercase(s: Seq<char>) -> Seq<char> {
    s.map_values(|c: char| spec_ascii_lower(c))
}

fn ascii_lowercase(s: &str) -> (r: Vec<char>)
    ensures
        r@ == spec_ascii_lowercase(s@),
{
    let cs = chars_of(s);
    let mut out: Vec<char> = Vec::new();
    let mut i: usize = 0;
    while i < cs.len()
        invariant
            i <= cs@.len(),
            cs@ == s@,
            out@ == spec_ascii_lowercase(cs@.subrange(0, i as int)),
        decreases cs.len() - i,
    {
        let c = cs[i];
        let l = if 'A' <= c && c <= 'Z' {
            ((c as u32) + 32) as u8 as char
        } else {
            c
        };
        out.push(l);
        assert(spec_ascii_lowercase(cs@.subrange(0, i + 1)) =~= spec_ascii_lowercase(
            cs@.subrange(0, i as int),
        ).push(spec_ascii_lower(c)));
        i = i + 1;
    }
    assert(cs@.subrange(0, cs@.len() as int) == cs@);
    out
}

fn chars_end_with(cs: &Vec<char>, suffix: &str) -> (r: bool)
    ensures
        r == spec_ends_with(cs@, suffix@),
{
    let xs = chars_of(suffix);
    if xs.len() > cs.len() {
        return false;
    }
    let off = cs.len() - xs.len();
    let mut i: usize = 0;
    while i < xs.len()
        invariant
            off + xs@.len() == cs@.len(),
            cs.len() == cs@.len(),
            xs@ == suffix@,
            i <= xs@.len(),
            forall|k: int| 0 <= k < i ==> xs@[k] == cs@[off + k],
        decreases xs.len() - i,
    {
        if xs[i] != cs[off + i] {
            return false;
        }
        i = i + 1;
    }
    assert(cs@.subrange(off as int, cs@.len() as int) =~= suffix@);
    true
}

/// Archive format by file name (case-insensitive suffix).
pub open spec fn spec_kind_by_name(name: Seq<char>) -> Option<ArchiveKind> {
    let l = spec_ascii_lowercase(name);
    if spec_ends_with(l, ".tar.gz"@) || spec_ends_with(l, ".tgz"@) {
        Some(ArchiveKind::TarGz)
    } else if spec_ends_with(l, ".tar"@) {
        Some(ArchiveKind::Tar)
    } else if spec_ends_with(l, ".zip"@) {
        Some(ArchiveKind::Zip)
    } else {
        None
    }
}

/// Archive format by the first bytes of the file (gzip or zip magic).
pub open spec fn spec_kind_by_magic(magic: Seq<u8>) -> Option<ArchiveKind> {
    if magic.len() >= 2 && magic[0] == 0x1fu8 && magic[1] == 0x8bu8 {
        Some(ArchiveKind::TarGz)
    } else if magic.len() >= 4 && magic[0] == 0x50u8 && magic[1] == 0x4bu8 && magic[2] == 0x03u8
        && magic[3] == 0x04u8 {
        Some(ArchiveKind::Zip)
    } else {
        None
    }
}

/// Format of a downloaded archive: by its file name, else by its first
/// bytes (`magic`: up to four bytes read from the file).
pub fn detect_archive_kind(file_name: Option<&str>, magic: &[u8]) -> (r: Result<
    ArchiveKind,
    ArtifactError,
>)
    ensures
        ({
            let by_name = match file_name {
                Some(n) => spec_kind_by_name(n@),
                None => spec_kind_by_name(Seq::empty()),
            };
            match by_name {
                Some(k) => r == Ok::<ArchiveKind, ArtifactError>(k),
                None => match spec_kind_by_magic(magic@) {
                    Some(k) => r == Ok::<ArchiveKind, ArtifactError>(k),
                    None => r matches Err(ArtifactError::UnsupportedFormat { file_name: f }) && match file_name {
                        Some(n) => f matches Some(g) && g@ == n@,
                        None => f is None,
                    },
                },
            }
        }),
{
    let name: &str = match file_name {
        Some(n) => n,
        None => "",
    };
    proof {
        reveal_strlit("");
    }
    let l = ascii_lowercase(name);
    let ghost nm = match file_name {
        Some(n) => n@,
        None => Seq::<char>::empty(),
    };
    assert(name@ == nm);
    if chars_end_with(&l, ".tar.gz") || chars_end_with(&l, ".tgz") {
        assert(spec_kind_by_name(nm) == Some(ArchiveKind::TarGz));
        return Ok(ArchiveKind::TarGz);
    }
    if chars_end_with(&l, ".tar") {
        return Ok(ArchiveKind::Tar);
    }
    if chars_end_with(&l, ".zip") {
        return Ok(ArchiveKind::Zip);
    }
    assert(spec_kind_by_name(nm) is None);
    if magic.len() >= 2 && magic[0] == 0x1fu8 && magic[1] == 0x8bu8 {
        assert(spec_kind_by_magic(magic@) == Some(ArchiveKind::TarGz));
        return Ok(ArchiveKind::TarGz);
    }
    if magic.len() >= 4 && magic[0] == 0x50u8 && magic[1] == 0x4bu8 && magic[2] == 0x03u8 && magic[3]
        == 0x04u8 {
        return Ok(ArchiveKind::Zip);
    }
    let shown = match file_name {
        Some(n) => Some(n.to_owned()),
        None => None,
    };
    Err(ArtifactError::UnsupportedFormat { file_name: shown })
}

/// The text without its leading `./` prefixes (`trim_start_matches("./")`).
pub open spec fn spec_strip_dot_slash(s: Seq<char>) -> Seq<char>
    decreases s.len(),
{
    if s.len() >= 2 && s[0] == '.' && s[1] == '/' {
        spec_strip_dot_slash(s.subrange(2, s.len() as int))
    } else {
        s
    }
}

/// Whether `s` has a `/`-separated segment equal to `..`.
pub open spec fn spec_has_dotdot(s: Seq<char>) -> bool {
    crate::ui::spec_has_parent_segment(s)
}

/// Archive members must name regular files by a relative path that stays
/// inside the extraction directory.
pub open spec fn spec_member_check(name: Seq<char>) -> Result<Seq<char>, u8> {
    let raw = spec_strip_dot_slash(name);
    if raw.len() == 0 || raw.last() == '/' {
        Err(0)
    } else if raw[0] == '/' {
        Err(1)
    } else if spec_has_dotdot(raw) {
        Err(0)
    } else {
        Ok(raw)
    }
}

fn parent_segment(cs: &Vec<char>, from: usize) -> (r: bool)
    requires
        from <= cs@.len(),
    ensures
        r == crate::ui::spec_has_parent_segment(cs@.subrange(from as int, cs@.len() as int)),
{
    let sub = string_of_range(cs, from, cs.len());
    let v = chars_of(sub.as_str());
    let n = v.len();
    let mut i: usize = 0;
    while n >= 2 && i < n - 1
        invariant
            n == v@.len(),
            v@ == cs@.subrange(from as int, cs@.len() as int),
            forall|k: int|
                0 <= k < i && k + 2 <= n ==> !(#[trigger] v@[k] == '.' && v@[k + 1] == '.' && (k
                    == 0 || v@[k - 1] == '/') && (k + 2 == n || v@[k + 2] == '/')),
        decreases n - i,
    {
        if v[i] == '.' && v[i + 1] == '.' && (i == 0 || v[i - 1] == '/') && (i + 2 == n || v[i
            + 2] == '/') {
            return true;
        }
        i = i + 1;
    }
    false
}

/// Check an archive member's path; returns the relative path to extract
/// it to.
pub fn validate_member_path(name: &str) -> (r: Result<String, ArtifactError>)
    ensures
        match spec_member_check(name@) {
            Ok(p) => r matches Ok(s) && s@ == p,
            Err(k) => if k == 0 {
                r matches Err(ArtifactError::MemberRejected { name: n }) && n@ == name@
            } else {
                r matches Err(ArtifactError::MemberNotRelative { name: n }) && n@ == name@
            },
        },
{
    let cs = chars_of(name);
    let n = cs.len();
    let mut i: usize = 0;
    assert(cs@.subrange(0, n as int) == cs@);
    while n >= 2 && i <= n - 2 && cs[i] == '.' && cs[i + 1] == '/'
        invariant
            i <= n == cs@.len(),
            cs@ == name@,
            spec_strip_dot_slash(name@) == spec_strip_dot_slash(cs@.subrange(i as int, n as int)),
        decreases n - i,
    {
        assert(cs@.subrange(i as int, n as int).subrange(2, n - i) == cs@.subrange(i + 2, n as int));
        i = i + 2;
    }
    let ghost raw = cs@.subrange(i as int, n as int);
    assert(spec_strip_dot_slash(name@) == raw);
    if i == n || cs[n - 1] == '/' {
        return Err(ArtifactError::MemberRejected { name: name.to_owned() });
    }
    if cs[i] == '/' {
        return Err(ArtifactError::MemberNotRelative { name: name.to_owned() });
    }
    if parent_segment(&cs, i) {
        return Err(ArtifactError::MemberRejected { name: name.to_owned() });
    }
    Ok(string_of_range(&cs, i, n))
}

/// Count and size of the files extracted so far.
pub struct ExtractBudget {
    pub files: usize,
    pub bytes: u64,
}

impl ExtractBudget {
    pub fn new() -> (r: Self)
        ensures
            r.files == 0 && r.bytes == 0,
    {
        ExtractBudget { files: 0, bytes: 0 }
    }

    /// Account for one more regular file of `size` bytes: at most
    /// `MAX_EXTRACT_FILES` files and `MAX_EXTRACT_BYTES` bytes in all.
    pub fn admit_file(&mut self, size: u64) -> (r: Result<(), ArtifactError>)
        requires
            old(self).files <= MAX_EXTRACT_FILES,
        ensures
            final(self).files == old(self).files + 1,
            final(self).bytes == (if old(self).bytes + size > u64::MAX {
                u64::MAX as int
            } else {
                old(self).bytes + size
            }),
            match r {
                Ok(()) => final(self).files <= MAX_EXTRACT_FILES && final(self).bytes
                    <= MAX_EXTRACT_BYTES,
                Err(ArtifactError::TooManyFiles) => final(self).files > MAX_EXTRACT_FILES,
                Err(ArtifactError::TooLarge) => final(self).files <= MAX_EXTRACT_FILES
                    && final(self).bytes > MAX_EXTRACT_BYTES,
                Err(_) => false,
            },
    {
        self.files = self.files + 1;
        if self.files > MAX_EXTRACT_FILES {
            self.bytes = self.bytes.saturating_add(size);
            return Err(ArtifactError::TooManyFiles);
        }
        self.bytes = self.bytes.saturating_add(size);
        if self.bytes > MAX_EXTRACT_BYTES {
            return Err(ArtifactError::TooLarge);
        }
        Ok(())
    }
}

/// Type of an archive member as the archive records it.
#[derive(Clone, Copy, Debug, PartialEq, Eq, Structural)]
pub enum MemberType {
    Directory,
    Regular,
    /// A symbolic or hard link.
    Link,
    Other,
}

/// A member of a tar archive: its type (`type_text` is how the archive
/// names the type), its stored path and its size.
pub struct ArchiveMember {
    pub kind: MemberType,
    pub type_text: String,
    pub path: String,
    pub size: u64,
}

/// Extraction of the members of a tar archive from member `i` on, with
/// `files` regular files and `bytes` bytes admitted before it: the relative
/// paths and sizes of the files to write, in order, or the member that
/// stops the extraction and why (`0` a link, `1` an unsupported type, `2`
/// too many files, `3` a rejected path, `4` a path that is not relative,
/// `5` too many bytes). Directories are skipped.
pub open spec fn spec_tar_scan(ms: Seq<ArchiveMember>, i: int, files: nat, bytes: nat) -> Result<
    Seq<(Seq<char>, u64)>,
    (int, u8),
>
    decreases ms.len() - i,
{
    if i < 0 || i >= ms.len() {
        Ok(Seq::empty())
    } else {
        match ms[i].kind {
            MemberType::Directory => spec_tar_scan(ms, i + 1, files, bytes),
            MemberType::Link => Err((i, 0u8)),
            MemberType::Other => Err((i, 1u8)),
            MemberType::Regular => if files + 1 > MAX_EXTRACT_FILES {
                Err((i, 2u8))
            } else {
                match spec_member_check(ms[i].path@) {
                    Err(k) => Err((i, (3 + k) as u8)),
                    Ok(p) => if bytes + ms[i].size > MAX_EXTRACT_BYTES {
                        Err((i, 5u8))
                    } else {
                        match spec_tar_scan(ms, i + 1, files + 1, (bytes + ms[i].size) as nat) {
                            Ok(rest) => Ok(seq![(p, ms[i].size)] + rest),
                            Err(e) => Err(e),
                        }
                    },
                }
            },
        }
    }
}

/// The error that member `m` stops an extraction with, for the reason `k`
/// (see [`spec_tar_scan`]).
pub open spec fn spec_tar_error(m: ArchiveMember, k: u8, e: ArtifactError) -> bool {
    if k == 0 {
        e is LinkMember
    } else if k == 1 {
        e matches ArtifactError::UnsupportedMember { kind } && kind@ == m.type_text@
    } else if k == 2 {
        e is TooManyFiles
    } else if k == 3 {
        e matches ArtifactError::MemberRejected { name } && name@ == m.path@
    } else if k == 4 {
        e matches ArtifactError::MemberNotRelative { name } && name@ == m.path@
    } else {
        e is TooLarge
    }
}

/// Prepend the files planned before member `i` to the plan from `i` on.
pub open spec fn spec_plan_after(
    done: Seq<(Seq<char>, u64)>,
    rest: Result<Seq<(Seq<char>, u64)>, (int, u8)>,
) -> Result<Seq<(Seq<char>, u64)>, (int, u8)> {
    match rest {
        Ok(r) => Ok(done + r),
        Err(e) => Err(e),
    }
}

/// Views of planned files.
pub open spec fn spec_plan_view(v: Seq<(String, u64)>) -> Seq<(Seq<char>, u64)> {
    v.map_values(|f: (String, u64)| (f.0@, f.1))
}

/// Plan the extraction of a tar archive from its members, in archive
/// order: directories are skipped; a link or a member of another type
/// stops it; each regular file counts towards `MAX_EXTRACT_FILES`, then
/// its path is checked (see [`validate_member_path`]), then its size
/// towards `MAX_EXTRACT_BYTES`. Returns the relative path and size of each
/// file to write (see [`spec_tar_scan`]).
pub fn plan_tar_extraction(members: &Vec<ArchiveMember>) -> (r: Result<Vec<(String, u64)>, ArtifactError>)
    ensures
        match spec_tar_scan(members@, 0, 0, 0) {
            Ok(plan) => r matches Ok(v) && spec_plan_view(v@) == plan,
            Err((i, k)) => {
                &&& 0 <= i < members@.len()
                &&& (r matches Err(e) && spec_tar_error(members@[i], k, e))
            },
        },
{
    let mut out: Vec<(String, u64)> = Vec::new();
    let mut files: usize = 0;
    let mut bytes: u64 = 0;
    let mut i: usize = 0;
    while i < members.len()
        invariant
            i <= members@.len(),
            files <= MAX_EXTRACT_FILES,
            bytes <= MAX_EXTRACT_BYTES,
            spec_tar_scan(members@, 0, 0, 0) == spec_plan_after(
                spec_plan_view(out@),
                spec_tar_scan(members@, i as int, files as nat, bytes as nat),
            ),
        decreases members.len() - i,
    {
        let m = &members[i];
        match m.kind {
            MemberType::Directory => {},
            MemberType::Link => {
                return Err(ArtifactError::LinkMember);
            },
            MemberType::Other => {
                return Err(ArtifactError::UnsupportedMember { kind: m.type_text.clone() });
            },
            MemberType::Regular => {
                if files + 1 > MAX_EXTRACT_FILES {
                    return Err(ArtifactError::TooManyFiles);
                }
                let p = match validate_member_path(m.path.as_str()) {
                    Ok(p) => p,
                    Err(e) => {
                        return Err(e);
                    },
                };
                if m.size > MAX_EXTRACT_BYTES - bytes {
                    return Err(ArtifactError::TooLarge);
                }
                let ghost before = out@;
                out.push((p, m.size));
                proof {
                    assert(spec_plan_view(out@) =~= spec_plan_view(before) + seq![(p@, m.size)]);
                }
                files = files + 1;
                bytes = bytes + m.size;
                proof {
                    let rest = spec_tar_scan(members@, i + 1, files as nat, bytes as nat);
                    assert(spec_member_check(m.path@) == Ok::<Seq<char>, u8>(p@));
                    match rest {
                        Ok(r) => {
                            assert(spec_plan_view(before) + (seq![(p@, m.size)] + r) =~= spec_plan_view(out@)
                                + r);
                        },
                        Err(_) => {},
                    }
                }
            },
        }
        i = i + 1;
    }
    proof {
        assert(spec_plan_view(out@) + Seq::<(Seq<char>, u64)>::empty() =~= spec_plan_view(out@));
    }
    Ok(out)
}

/// A member of a zip archive: its stored name, the name as a path that
/// stays inside the extraction directory (`None` when the zip format
/// refuses it), whether it is a directory, and its size.
pub struct ZipMember {
    pub name: String,
    pub enclosed: Option<String>,
    pub is_dir: bool,
    pub size: u64,
}

/// Extraction of the members of a zip archive from member `i` on (see
/// [`spec_tar_scan`]); the reasons: `6` a name the zip format refuses,
/// `3`/`4` a rejected path, `2` too many files, `5` too many bytes. The
/// name is checked before the member counts, and directories only after
/// their name.
pub open spec fn spec_zip_scan(ms: Seq<ZipMember>, i: int, files: nat, bytes: nat) -> Result<
    Seq<(Seq<char>, u64)>,
    (int, u8),
>
    decreases ms.len() - i,
{
    if i < 0 || i >= ms.len() {
        Ok(Seq::empty())
    } else {
        match ms[i].enclosed {
            None => Err((i, 6u8)),
            Some(n) => if ms[i].is_dir {
                spec_zip_scan(ms, i + 1, files, bytes)
            } else {
                match spec_member_check(n@) {
                    Err(k) => Err((i, (3 + k) as u8)),
                    Ok(_) => if files + 1 > MAX_EXTRACT_FILES {
                        Err((i, 2u8))
                    } else if bytes + ms[i].size > MAX_EXTRACT_BYTES {
                        Err((i, 5u8))
                    } else {
                        match spec_zip_scan(ms, i + 1, files + 1, (bytes + ms[i].size) as nat) {
                            Ok(rest) => Ok(seq![(n@, ms[i].size)] + rest),
                            Err(e) => Err(e),
                        }
                    },
                }
            },
        }
    }
}

/// The error that zip member `m` stops an extraction with, for the reason
/// `k` (see [`spec_zip_scan`]).
pub open spec fn spec_zip_error(m: ZipMember, k: u8, e: ArtifactError) -> bool {
    if k == 6 {
        e matches ArtifactError::ZipMemberRejected { name } && name@ == m.name@
    } else if k == 2 {
        e is TooManyFiles
    } else if k == 3 {
        e matches ArtifactError::MemberRejected { name } && m.enclosed matches Some(n) && name@ == n@
    } else if k == 4 {
        e matches ArtifactError::MemberNotRelative { name } && m.enclosed matches Some(n) && name@ == n@
    } else {
        e is TooLarge
    }
}

/// Plan the extraction of a zip archive from its members, in archive
/// order (see [`spec_zip_scan`]): each file is written under its enclosed
/// name. Returns the path and size of each file to write.
pub fn plan_zip_extraction(members: &Vec<ZipMember>) -> (r: Result<Vec<(String, u64)>, ArtifactError>)
    ensures
        match spec_zip_scan(members@, 0, 0, 0) {
            Ok(plan) => r matches Ok(v) && spec_plan_view(v@) == plan,
            Err((i, k)) => {
                &&& 0 <= i < members@.len()
                &&& (r matches Err(e) && spec_zip_error(members@[i], k, e))
            },
        },
{
    let mut out: Vec<(String, u64)> = Vec::new();
    let mut files: usize = 0;
    let mut bytes: u64 = 0;
    let mut i: usize = 0;
    while i < members.len()
        invariant
            i <= members@.len(),
            files <= MAX_EXTRACT_FILES,
            bytes <= MAX_EXTRACT_BYTES,
            spec_zip_scan(members@, 0, 0, 0) == spec_plan_after(
                spec_plan_view(out@),
                spec_zip_scan(members@, i as int, files as nat, bytes as nat),
            ),
        decreases members.len() - i,
    {
        let m = &members[i];
        match &m.enclosed {
            None => {
                return Err(ArtifactError::ZipMemberRejected { name: m.name.clone() });
            },
            Some(n) => {
                if !m.is_dir {
                    match validate_member_path(n.as_str()) {
                        Ok(_) => {},
                        Err(e) => {
                            return Err(e);
                        },
                    }
                    if files + 1 > MAX_EXTRACT_FILES {
                        return Err(ArtifactError::TooManyFiles);
                    }
                    if m.size > MAX_EXTRACT_BYTES - bytes {
                        return Err(ArtifactError::TooLarge);
                    }
                    let ghost before = out@;
                    out.push((n.clone(), m.size));
                    files = files + 1;
                    bytes = bytes + m.size;
                    proof {
                        assert(spec_plan_view(out@) =~= spec_plan_view(before) + seq![(n@, m.size)]);
                        let rest = spec_zip_scan(members@, i + 1, files as nat, bytes as nat);
                        match rest {
                            Ok(r) => {
                                assert(spec_plan_view(before) + (seq![(n@, m.size)] + r) =~= spec_plan_view(
                                    out@,
                                ) + r);
                            },
                            Err(_) => {},
                        }
                    }
                }
            },
        }
        i = i + 1;
    }
    proof {
        assert(spec_plan_view(out@) + Seq::<(Seq<char>, u64)>::empty() =~= spec_plan_view(out@));
    }
    Ok(out)
}

/// Indices of the files named `basename`.
pub open spec fn spec_named(names: Seq<String>, basename: Seq<char>) -> Seq<int> {
    Seq::new(names.len(), |i: int| i).filter(|i: int| names[i]@ == basename)
}

/// Choose the payload among the extracted regular files (given by their
/// file names): the single file named like the destination; else the only
/// file; else an error. Returns the chosen file's index.
pub fn pick_payload(file_names: &Vec<String>, dest_basename: &str) -> (r: Result<
    usize,
    ArtifactError,
>)
    ensures
        ({
            let m = spec_named(file_names@, dest_basename@);
            if file_names@.len() == 0 {
                r matches Err(ArtifactError::NoFiles)
            } else if m.len() == 1 {
                r == Ok::<usize, ArtifactError>(m[0] as usize)
            } else if m.len() > 1 {
                r matches Err(ArtifactError::AmbiguousPayload { basename: b }) && b@ == dest_basename@
            } else if file_names@.len() == 1 {
                r == Ok::<usize, ArtifactError>(0)
            } else {
                r matches Err(ArtifactError::NoPayload { count, basename: b }) && count
                    == file_names@.len() && b@ == dest_basename@
            }
        }),
{
    if file_names.len() == 0 {
        return Err(ArtifactError::NoFiles);
    }
    let ghost all = Seq::new(file_names@.len(), |i: int| i);
    let mut matches: Vec<usize> = Vec::new();
    let mut i: usize = 0;
    while i < file_names.len()
        invariant
            i <= file_names@.len(),
            all == Seq::new(file_names@.len(), |i: int| i),
            matches@.map_values(|k: usize| k as int) == all.subrange(0, i as int).filter(
                |k: int| file_names@[k]@ == dest_basename@,
            ),
        decreases file_names.len() - i,
    {
        assert(all.subrange(0, i + 1).drop_last() == all.subrange(0, i as int));
        reveal(Seq::filter);
        if str_eq(file_names[i].as_str(), dest_basename) {
            matches.push(i);
        }
        assert(matches@.map_values(|k: usize| k as int) =~= all.subrange(0, i + 1).filter(
            |k: int| file_names@[k]@ == dest_basename@,
        ));
        i = i + 1;
    }
    assert(all.subrange(0, file_names@.len() as int) == all);
    assert(matches@.len() == spec_named(file_names@, dest_basename@).len());
    if matches.len() == 1 {
        assert(matches@[0] as int == spec_named(file_names@, dest_basename@)[0]);
        return Ok(matches[0]);
    }
    if matches.len() > 1 {
        return Err(ArtifactError::AmbiguousPayload { basename: dest_basename.to_owned() });
    }
    if file_names.len() == 1 {
        return Ok(0);
    }
    Err(ArtifactError::NoPayload { count: file_names.len() as u64, basename: dest_basename.to_owned() })
}

/// Paths of a transaction on a target file: where the download lands,
/// the staging file swapped in, and the backup kept until commit.
pub fn download_name(file_name: &str) -> (r: String)
    ensures
        r@ == file_name@ + ".download"@,
{
    concat2(file_name, ".download")
}

/// Staging file of a target (`{name}.new`).
pub fn staging_name(file_name: &str) -> (r: String)
    ensures
        r@ == file_name@ + ".new"@,
{
    concat2(file_name, ".new")
}

/// Backup of a target (`{name}.bak`).
pub fn backup_name(file_name: &str) -> (r: String)
    ensures
        r@ == file_name@ + ".bak"@,
{
    concat2(file_name, ".bak")
}

/// Extraction directory of a staging file (`.{staging}.extract`).
pub fn extract_dir_name(staging_file_name: &str) -> (r: String)
    ensures
        r@ == "."@ + staging_file_name@ + ".extract"@,
{
    concat3(".", staging_file_name, ".extract")
}

} // verus!

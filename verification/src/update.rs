//! The self-updater's decisions: whether a release is newer than the running
//! build, which download belongs to this platform, and whether a download and
//! the executable inside it can be trusted.

use vstd::prelude::*;
use sha2::Digest;
use crate::text::{
    all_digits, all_hex_digits, chars_of, eq_ignore_case, is_digit, is_hex_digit,
    lemma_str_less_asymmetric, lemma_str_less_first_difference,
    lemma_str_less_irreflexive, less, only_digits, only_hex_digits, same,
    same_ignoring_ascii_case, str_less, string_of,
};

verus! {

/// Where release downloads live; a download's URL is this, the tag, `/` and
/// the asset's name.
pub const DOWNLOAD_URL: &'static str = "https://github.com/stackrot/osrs-random/releases/download/";

/// The largest release asset, and executable, that is accepted (100 MiB).
pub const MAX_ASSET_SIZE: u64 = 104857600;

/// The prefix of a SHA-256 digest as the release metadata writes it.
pub const DIGEST_PREFIX: &'static str = "sha256:";

/// A published release.
pub struct Release {
    pub tag_name: String,
    pub draft: bool,
    pub prerelease: bool,
    pub assets: Vec<Asset>,
}

/// A file attached to a release.
pub struct Asset {
    pub name: String,
    pub browser_download_url: String,
    pub size: u64,
    pub digest: Option<String>,
}

/// Why an update was refused.
#[derive(Debug, PartialEq, Eq)]
pub enum UpdateError {
    NotStable,
    InvalidInstalledVersion,
    InvalidReleaseVersion,
    PrereleaseLatest,
    IncomparableVersions,
    UnsupportedPlatform(String),
    NoAssetForPlatform,
    InvalidAssetSize,
    UnexpectedDownloadUrl,
    MissingDigest,
    InvalidDigest,
    IncompleteDownload,
    DigestMismatch,
    InvalidArchive,
    MissingExecutable,
    InvalidExecutable,
    InvalidExecutableSize,
    ArchiveReadFailed,
    IncompleteExecutable,
}

// ---------------------------------------------------------------------------
// Versions
// ---------------------------------------------------------------------------

/// Whether `semver::Version::parse` accepts `text`.
pub uninterp spec fn spec_semver_parses(text: Seq<char>) -> bool;

/// Whether the pre-release part of the version parsed from `text` is empty.
pub uninterp spec fn spec_semver_pre_empty(text: Seq<char>) -> bool;

/// Whether the version parsed from `a` has a greater precedence (major, minor,
/// patch, pre-release; build metadata ignored) than the one parsed from `b`.
pub uninterp spec fn spec_semver_greater(a: Seq<char>, b: Seq<char>) -> bool;

/// `semver::Version::parse(text).is_ok()`.
#[verifier::external_body]
fn semver_parses(text: &str) -> (r: bool)
    ensures
        r == spec_semver_parses(text@),
{
    semver::Version::parse(text).is_ok()
}

/// `Prerelease::is_empty` of `semver::Version::parse(text)`.
#[verifier::external_body]
fn semver_pre_empty(text: &str) -> (r: bool)
    requires
        spec_semver_parses(text@),
    ensures
        r == spec_semver_pre_empty(text@),
{
    semver::Version::parse(text).map(|v| v.pre.is_empty()).unwrap_or(false)
}

/// `Version::cmp_precedence(a, b).is_gt()` of the parsed versions; precedence
/// is a total order (`Ord::cmp` on major, minor, patch and pre-release), so no
/// version is greater than itself and of two versions at most one is greater.
#[verifier::external_body]
fn semver_greater(a: &str, b: &str) -> (r: bool)
    requires
        spec_semver_parses(a@),
        spec_semver_parses(b@),
    ensures
        r == spec_semver_greater(a@, b@),
        r ==> !spec_semver_greater(b@, a@),
        a@ == b@ ==> !r,
{
    match (semver::Version::parse(a), semver::Version::parse(b)) {
        (Ok(x), Ok(y)) => x.cmp_precedence(&y).is_gt(),
        _ => false,
    }
}

/// A tag without its leading `v`, if it has one.
pub open spec fn unprefixed(tag: Seq<char>) -> Seq<char> {
    if tag.len() > 0 && tag[0] == 'v' {
        tag.drop_first()
    } else {
        tag
    }
}

/// A timestamp tag: fourteen ASCII digits (`YYYYMMDDhhmmss`).
pub open spec fn is_timestamp(tag: Seq<char>) -> bool {
    tag.len() == 14 && all_digits(tag)
}

/// Whether the release `latest` is newer than the build `current`: two
/// timestamps compare as text, two semantic versions by precedence (a
/// pre-release is never offered), and a timestamp never compares with a
/// semantic version.
pub open spec fn newer(current: Seq<char>, latest: Seq<char>) -> Result<bool, UpdateError> {
    let c = unprefixed(current);
    let l = unprefixed(latest);
    if is_timestamp(c) && is_timestamp(l) {
        Ok(str_less(c, l))
    } else if !is_timestamp(c) && !is_timestamp(l) {
        if !spec_semver_parses(c) {
            Err(UpdateError::InvalidInstalledVersion)
        } else if !spec_semver_parses(l) {
            Err(UpdateError::InvalidReleaseVersion)
        } else if !spec_semver_pre_empty(l) {
            Err(UpdateError::PrereleaseLatest)
        } else {
            Ok(spec_semver_greater(l, c))
        }
    } else {
        Err(UpdateError::IncomparableVersions)
    }
}

fn strip_v(tag: &str) -> (r: String)
    ensures
        r@ == unprefixed(tag@),
{
    let cs = chars_of(tag);
    if cs.len() > 0 && cs[0] == 'v' {
        let mut rest: Vec<char> = Vec::new();
        let mut i: usize = 1;
        while i < cs.len()
            invariant
                1 <= i <= cs.len(),
                cs@ == tag@,
                rest@ == cs@.subrange(1, i as int),
            decreases cs.len() - i,
        {
            rest.push(cs[i]);
            i = i + 1;
            assert(rest@ =~= cs@.subrange(1, i as int));
        }
        assert(rest@ =~= tag@.drop_first());
        string_of(&rest)
    } else {
        string_of(&cs)
    }
}

fn timestamp(tag: &String) -> (r: bool)
    ensures
        r == is_timestamp(tag@),
{
    let cs = chars_of(tag.as_str());
    cs.len() == 14 && only_digits(&cs)
}

/// Whether the release tagged `latest` is newer than the running build
/// `current` (see `newer`).
pub fn is_newer(current: &str, latest: &str) -> (r: Result<bool, UpdateError>)
    ensures
        r == newer(current@, latest@),
        // Never a downgrade: of two builds at most one is newer than the other,
        r == Ok::<bool, UpdateError>(true) ==> newer(latest@, current@) != Ok::<bool, UpdateError>(
            true,
        ),
        // and a build is never newer than itself.
        current@ == latest@ ==> r != Ok::<bool, UpdateError>(true),
{
    let c = strip_v(current);
    let l = strip_v(latest);
    let ct = timestamp(&c);
    let lt = timestamp(&l);
    if ct && lt {
        proof {
            lemma_str_less_asymmetric(c@, l@);
            lemma_str_less_irreflexive(c@);
        }
        Ok(less(c.as_str(), l.as_str()))
    } else if !ct && !lt {
        if !semver_parses(c.as_str()) {
            return Err(UpdateError::InvalidInstalledVersion);
        }
        if !semver_parses(l.as_str()) {
            return Err(UpdateError::InvalidReleaseVersion);
        }
        if !semver_pre_empty(l.as_str()) {
            return Err(UpdateError::PrereleaseLatest);
        }
        Ok(semver_greater(l.as_str(), c.as_str()))
    } else {
        Err(UpdateError::IncomparableVersions)
    }
}

/// What checking the latest release against the running build gives.
pub open spec fn availability(release: Release, current: Seq<char>) -> Result<Option<Release>, UpdateError> {
    if release.draft || release.prerelease {
        Err(UpdateError::NotStable)
    } else {
        match newer(current, release.tag_name@) {
            Err(e) => Err(e),
            Ok(true) => Ok(Some(release)),
            Ok(false) => Ok(None),
        }
    }
}

/// The latest release when it is stable and newer than the running build
/// `current`; `None` when it is not newer.
pub fn available(release: Release, current: &str) -> (r: Result<Option<Release>, UpdateError>)
    ensures
        r == availability(release, current@),
{
    if release.draft || release.prerelease {
        return Err(UpdateError::NotStable);
    }
    match is_newer(current, release.tag_name.as_str()) {
        Err(e) => Err(e),
        Ok(true) => Ok(Some(release)),
        Ok(false) => Ok(None),
    }
}

// ---------------------------------------------------------------------------
// Platforms and assets
// ---------------------------------------------------------------------------

/// The release asset and the executable inside it for a build target; only
/// Linux GNU and Windows MSVC on x86-64 have official builds.
pub fn platform(target: &str) -> (r: Result<(&'static str, &'static str), UpdateError>)
    ensures
        target@ == "x86_64-unknown-linux-gnu"@ ==> (r matches Ok((asset, binary)) && asset@
            == "osrs-random-linux.zip"@ && binary@ == "osrs-random"@),
        target@ == "x86_64-pc-windows-msvc"@ ==> (r matches Ok((asset, binary)) && asset@
            == "osrs-random-windows.zip"@ && binary@ == "osrs-random.exe"@),
        target@ != "x86_64-unknown-linux-gnu"@ && target@ != "x86_64-pc-windows-msvc"@ ==> (r
            matches Err(UpdateError::UnsupportedPlatform(t)) && t@ == target@),
{
    proof {
        reveal_strlit("x86_64-unknown-linux-gnu");
        reveal_strlit("x86_64-pc-windows-msvc");
        assert("x86_64-unknown-linux-gnu"@.len() == 24);
        assert("x86_64-pc-windows-msvc"@.len() == 22);
    }
    if same(target, "x86_64-unknown-linux-gnu") {
        Ok(("osrs-random-linux.zip", "osrs-random"))
    } else if same(target, "x86_64-pc-windows-msvc") {
        Ok(("osrs-random-windows.zip", "osrs-random.exe"))
    } else {
        Err(UpdateError::UnsupportedPlatform(target.to_owned()))
    }
}

/// `p` is a prefix of `s`.
pub open spec fn has_prefix(s: Seq<char>, p: Seq<char>) -> bool {
    p.len() <= s.len() && s.take(p.len() as int) == p
}

/// `s` without its prefix `p`, when it has it (`strip_prefix`).
pub fn strip_prefix(s: &str, p: &str) -> (r: Option<String>)
    ensures
        match r {
            Some(rest) => has_prefix(s@, p@) && rest@ == s@.skip(p@.len() as int),
            None => !has_prefix(s@, p@),
        },
{
    let x = chars_of(s);
    let y = chars_of(p);
    if y.len() > x.len() {
        return None;
    }
    let mut i: usize = 0;
    while i < y.len()
        invariant
            i <= y.len() <= x.len(),
            x@ == s@,
            y@ == p@,
            forall|j: int| 0 <= j < i ==> x@[j] == y@[j],
        decreases y.len() - i,
    {
        if x[i] != y[i] {
            assert(s@.take(p@.len() as int)[i as int] != p@[i as int]);
            return None;
        }
        i = i + 1;
    }
    assert(s@.take(p@.len() as int) =~= p@);
    let mut rest: Vec<char> = Vec::new();
    let mut k: usize = y.len();
    while k < x.len()
        invariant
            y.len() <= k <= x.len(),
            x@ == s@,
            y@ == p@,
            rest@ == x@.subrange(y.len() as int, k as int),
        decreases x.len() - k,
    {
        rest.push(x[k]);
        k = k + 1;
        assert(rest@ =~= x@.subrange(y.len() as int, k as int));
    }
    assert(rest@ =~= s@.skip(p@.len() as int));
    Some(string_of(&rest))
}

/// The URL a release asset must be downloaded from.
pub open spec fn expected_url(tag: Seq<char>, name: Seq<char>) -> Seq<char> {
    DOWNLOAD_URL@ + tag + "/"@ + name
}

/// What checking a release asset's metadata gives: a size in range, the
/// expected download URL, and a SHA-256 digest of 64 hexadecimal digits.
pub open spec fn asset_check(asset: Asset, tag: Seq<char>) -> Result<(), UpdateError> {
    if !(asset.size > 0 && asset.size <= MAX_ASSET_SIZE) {
        Err(UpdateError::InvalidAssetSize)
    } else if asset.browser_download_url@ != expected_url(tag, asset.name@) {
        Err(UpdateError::UnexpectedDownloadUrl)
    } else {
        match asset.digest {
            None => Err(UpdateError::MissingDigest),
            Some(d) => if !has_prefix(d@, DIGEST_PREFIX@) {
                Err(UpdateError::MissingDigest)
            } else {
                let hex = d@.skip(DIGEST_PREFIX@.len() as int);
                if hex.len() == 64 && all_hex_digits(hex) {
                    Ok(())
                } else {
                    Err(UpdateError::InvalidDigest)
                }
            },
        }
    }
}

/// Checks a release asset's size, download URL and digest.
pub fn validate_asset(asset: &Asset, tag: &str) -> (r: Result<(), UpdateError>)
    ensures
        r == asset_check(*asset, tag@),
{
    if !(asset.size > 0 && asset.size <= MAX_ASSET_SIZE) {
        return Err(UpdateError::InvalidAssetSize);
    }
    let mut expected = String::from_str(DOWNLOAD_URL);
    expected.append(tag);
    expected.append("/");
    expected.append(asset.name.as_str());
    if !same(asset.browser_download_url.as_str(), expected.as_str()) {
        return Err(UpdateError::UnexpectedDownloadUrl);
    }
    match &asset.digest {
        None => Err(UpdateError::MissingDigest),
        Some(d) => match strip_prefix(d.as_str(), DIGEST_PREFIX) {
            None => Err(UpdateError::MissingDigest),
            Some(hex) => {
                let cs = chars_of(hex.as_str());
                if cs.len() == 64 && only_hex_digits(&cs) {
                    Ok(())
                } else {
                    Err(UpdateError::InvalidDigest)
                }
            },
        },
    }
}

/// The index of the first asset with the given name, when its metadata passes
/// `validate_asset`.
pub fn select_asset(release: &Release, asset_name: &str) -> (r: Result<usize, UpdateError>)
    ensures
        match r {
            Ok(i) => i < release.assets@.len() && release.assets@[i as int].name@ == asset_name@
                && (forall|j: int| 0 <= j < i ==> #[trigger] release.assets@[j].name@ != asset_name@)
                && asset_check(release.assets@[i as int], release.tag_name@) is Ok,
            Err(UpdateError::NoAssetForPlatform) => forall|j: int|
                0 <= j < release.assets@.len() ==> #[trigger] release.assets@[j].name@
                    != asset_name@,
            Err(e) => exists|i: int|
                0 <= i < release.assets@.len() && release.assets@[i].name@ == asset_name@ && (
                forall|j: int| 0 <= j < i ==> #[trigger] release.assets@[j].name@ != asset_name@)
                    && asset_check(release.assets@[i], release.tag_name@) == Err::<(), UpdateError>(
                    e,
                ),
        },
{
    let mut i: usize = 0;
    while i < release.assets.len()
        invariant
            i <= release.assets.len(),
            forall|j: int| 0 <= j < i ==> #[trigger] release.assets@[j].name@ != asset_name@,
        decreases release.assets.len() - i,
    {
        if same(release.assets[i].name.as_str(), asset_name) {
            match validate_asset(&release.assets[i], release.tag_name.as_str()) {
                Ok(()) => return Ok(i),
                Err(e) => {
                    assert(release.assets@[i as int].name@ == asset_name@);
                    return Err(e);
                },
            }
        }
        i = i + 1;
    }
    Err(UpdateError::NoAssetForPlatform)
}

// ---------------------------------------------------------------------------
// Digests
// ---------------------------------------------------------------------------

/// The SHA-256 digest of `data`.
pub uninterp spec fn spec_sha256(data: Seq<u8>) -> Seq<u8>;

/// `Sha256::digest`; a SHA-256 digest is 32 bytes.
#[verifier::external_body]
fn sha256(data: &[u8]) -> (r: Vec<u8>)
    ensures
        r@ == spec_sha256(data@),
        r@.len() == 32,
{
    sha2::Sha256::digest(data).to_vec()
}

/// A lower-case hexadecimal digit.
pub open spec fn hex_char(n: u8) -> char {
    if n < 10 {
        (0x30 + n) as char
    } else {
        (0x57 + n) as char
    }
}

/// Each byte as two lower-case hexadecimal digits (`{:02x}`).
pub open spec fn hex_lower(data: Seq<u8>) -> Seq<char>
    decreases data.len(),
{
    if data.len() == 0 {
        seq![]
    } else {
        hex_lower(data.drop_last()) + seq![
            hex_char(data.last() / 16),
            hex_char(data.last() % 16),
        ]
    }
}

/// The digest text of `data` as the release metadata writes it.
pub open spec fn checksum_text(data: Seq<u8>) -> Seq<char> {
    DIGEST_PREFIX@ + hex_lower(spec_sha256(data))
}

fn hex_digit_char(n: u8) -> (c: char)
    requires
        n < 16,
    ensures
        c == hex_char(n),
{
    if n < 10 {
        (0x30 + n) as char
    } else {
        (0x57 + n) as char
    }
}

/// Each byte gives two hexadecimal digits.
proof fn lemma_hex_lower(data: Seq<u8>)
    ensures
        hex_lower(data).len() == 2 * data.len(),
        all_hex_digits(hex_lower(data)),
    decreases data.len(),
{
    if data.len() > 0 {
        let rest = data.drop_last();
        lemma_hex_lower(rest);
        let h = hex_lower(data);
        let a = data.last() / 16;
        let b = data.last() % 16;
        assert(is_hex_digit(hex_char(a)));
        assert(is_hex_digit(hex_char(b)));
        assert forall|i: int| 0 <= i < h.len() implies #[trigger] is_hex_digit(h[i]) by {
            if i < h.len() - 2 {
                assert(h[i] == hex_lower(rest)[i]);
            } else if i == h.len() - 2 {
                assert(h[i] == hex_char(a));
            } else {
                assert(h[i] == hex_char(b));
            }
        }
    }
}

/// `sha256:` followed by the lower-case hexadecimal SHA-256 digest of `bytes`:
/// 64 hexadecimal digits after the prefix, 71 characters in all.
pub fn checksum(bytes: &[u8]) -> (r: String)
    ensures
        r@ == checksum_text(bytes@),
        r@.len() == 71,
        has_prefix(r@, DIGEST_PREFIX@),
        r@.skip(DIGEST_PREFIX@.len() as int).len() == 64,
        all_hex_digits(r@.skip(DIGEST_PREFIX@.len() as int)),
{
    let digest = sha256(bytes);
    let mut hex: Vec<char> = Vec::new();
    let mut i: usize = 0;
    while i < digest.len()
        invariant
            i <= digest.len(),
            hex@ == hex_lower(digest@.take(i as int)),
        decreases digest.len() - i,
    {
        let b = digest[i];
        proof {
            assert(digest@.take(i + 1).drop_last() =~= digest@.take(i as int));
        }
        hex.push(hex_digit_char(b / 16));
        hex.push(hex_digit_char(b % 16));
        i = i + 1;
        assert(hex@ =~= hex_lower(digest@.take(i as int)));
    }
    assert(digest@.take(i as int) =~= digest@);
    let mut out = String::from_str(DIGEST_PREFIX);
    let text = string_of(&hex);
    out.append(text.as_str());
    proof {
        reveal_strlit("sha256:");
        lemma_hex_lower(digest@);
        assert(DIGEST_PREFIX@.len() == 7);
        assert(out@.take(7) =~= DIGEST_PREFIX@);
        assert(out@.skip(7) =~= hex@);
    }
    out
}

/// What checking a download against its asset's metadata gives: the size
/// recorded, then the digest, compared ignoring ASCII case.
pub open spec fn download_check(asset: Asset, data: Seq<u8>) -> Result<(), UpdateError> {
    if data.len() != asset.size {
        Err(UpdateError::IncompleteDownload)
    } else {
        match asset.digest {
            Some(expected) => if same_ignoring_ascii_case(expected@, checksum_text(data)) {
                Ok(())
            } else {
                Err(UpdateError::DigestMismatch)
            },
            None => Err(UpdateError::DigestMismatch),
        }
    }
}

/// Checks a download's length and SHA-256 digest against its asset.
pub fn verify_download(asset: &Asset, bytes: &[u8]) -> (r: Result<(), UpdateError>)
    ensures
        r == download_check(*asset, bytes@),
{
    if bytes.len() as u64 != asset.size {
        return Err(UpdateError::IncompleteDownload);
    }
    let digest = checksum(bytes);
    match &asset.digest {
        Some(expected) => if eq_ignore_case(expected.as_str(), digest.as_str()) {
            Ok(())
        } else {
            Err(UpdateError::DigestMismatch)
        },
        None => Err(UpdateError::DigestMismatch),
    }
}

// ---------------------------------------------------------------------------
// Archives
// ---------------------------------------------------------------------------

/// Why an entry could not be read from an archive.
#[derive(Debug, PartialEq, Eq)]
pub enum ZipFailure {
    Archive,
    Missing,
}

/// An archive entry: whether it is a regular file, whether it is a symbolic
/// link, its recorded size, and its content (at most a given number of bytes,
/// `None` when reading failed).
pub struct ZipEntry {
    pub is_file: bool,
    pub is_symlink: bool,
    pub size: u64,
    pub content: Option<Vec<u8>>,
}

/// The entry named `name` of the ZIP archive `archive`, its content read up to
/// `limit` bytes.
pub uninterp spec fn spec_zip_entry(archive: Seq<u8>, name: Seq<char>, limit: u64) -> Result<
    (bool, bool, u64, Option<Seq<u8>>),
    ZipFailure,
>;

pub open spec fn entry_view(e: ZipEntry) -> (bool, bool, u64, Option<Seq<u8>>) {
    (
        e.is_file,
        e.is_symlink,
        e.size,
        match e.content {
            Some(d) => Some(d@),
            None => None,
        },
    )
}

/// `ZipArchive::new`, `ZipArchive::by_name`, then at most `limit` bytes of the
/// entry read with `Read::take`.
#[verifier::external_body]
fn read_zip_entry(archive: &[u8], name: &str, limit: u64) -> (r: Result<ZipEntry, ZipFailure>)
    ensures
        match r {
            Ok(e) => spec_zip_entry(archive@, name@, limit) == Ok::<
                (bool, bool, u64, Option<Seq<u8>>),
                ZipFailure,
            >(entry_view(e)),
            Err(f) => spec_zip_entry(archive@, name@, limit) == Err::<
                (bool, bool, u64, Option<Seq<u8>>),
                ZipFailure,
            >(f),
        },
{
    let cursor = std::io::Cursor::new(archive);
    let mut zip = zip::ZipArchive::new(cursor).map_err(|_| ZipFailure::Archive)?;
    let entry = zip.by_name(name).map_err(|_| ZipFailure::Missing)?;
    let (is_file, is_symlink, size) = (entry.is_file(), entry.is_symlink(), entry.size());
    let mut data = Vec::new();
    let read = std::io::Read::read_to_end(&mut std::io::Read::take(entry, limit), &mut data);
    Ok(ZipEntry { is_file, is_symlink, size, content: read.ok().map(|_| data) })
}

/// What extracting the executable `name` from a release archive gives.
pub open spec fn extraction(archive: Seq<u8>, name: Seq<char>) -> Result<Seq<u8>, UpdateError> {
    match spec_zip_entry(archive, name, (MAX_ASSET_SIZE + 1) as u64) {
        Err(ZipFailure::Archive) => Err(UpdateError::InvalidArchive),
        Err(ZipFailure::Missing) => Err(UpdateError::MissingExecutable),
        Ok((is_file, is_symlink, size, content)) => if !(is_file && !is_symlink) {
            Err(UpdateError::InvalidExecutable)
        } else if !(size > 0 && size <= MAX_ASSET_SIZE) {
            Err(UpdateError::InvalidExecutableSize)
        } else {
            match content {
                None => Err(UpdateError::ArchiveReadFailed),
                Some(data) => if data.len() == size {
                    Ok(data)
                } else {
                    Err(UpdateError::IncompleteExecutable)
                },
            }
        },
    }
}

/// The executable `name` from a release archive: a regular file (not a link)
/// of a size in range, read in full.
pub fn extract_binary(bytes: &[u8], name: &str) -> (r: Result<Vec<u8>, UpdateError>)
    ensures
        match r {
            Ok(data) => extraction(bytes@, name@) == Ok::<Seq<u8>, UpdateError>(data@),
            Err(e) => extraction(bytes@, name@) == Err::<Seq<u8>, UpdateError>(e),
        },
{
    let entry = match read_zip_entry(bytes, name, MAX_ASSET_SIZE + 1) {
        Ok(e) => e,
        Err(ZipFailure::Archive) => return Err(UpdateError::InvalidArchive),
        Err(ZipFailure::Missing) => return Err(UpdateError::MissingExecutable),
    };
    if !(entry.is_file && !entry.is_symlink) {
        return Err(UpdateError::InvalidExecutable);
    }
    if !(entry.size > 0 && entry.size <= MAX_ASSET_SIZE) {
        return Err(UpdateError::InvalidExecutableSize);
    }
    match entry.content {
        None => Err(UpdateError::ArchiveReadFailed),
        Some(data) => if data.len() as u64 == entry.size {
            Ok(data)
        } else {
            Err(UpdateError::IncompleteExecutable)
        },
    }
}

/// A download whose asset records its length and its own checksum, in either
/// ASCII case, passes verification.
pub proof fn law_own_checksum_verifies(asset: Asset, data: Seq<u8>, digest: Seq<char>)
    requires
        asset.size == data.len(),
        asset.digest matches Some(d) && d@ == digest,
        same_ignoring_ascii_case(digest, checksum_text(data)),
    ensures
        download_check(asset, data) is Ok,
{
}

/// A download of another length than its asset records never passes.
pub proof fn law_incomplete_download_refused(asset: Asset, data: Seq<u8>)
    requires
        asset.size != data.len(),
    ensures
        download_check(asset, data) == Err::<(), UpdateError>(UpdateError::IncompleteDownload),
{
}

/// Of two timestamp tags (fourteen digits, `YYYYMMDDhhmmss`, with or without
/// a leading `v`), the later one is newer and the earlier one is not: at the
/// first digit where they differ, whichever holds the larger digit is the
/// later release, wherever in the tag that digit stands (the time of day
/// counts as much as the date).
pub proof fn law_later_timestamp_is_newer(current: Seq<char>, latest: Seq<char>, i: int)
    requires
        unprefixed(current).len() == 14,
        unprefixed(latest).len() == 14,
        all_digits(unprefixed(current)),
        all_digits(unprefixed(latest)),
        0 <= i < 14,
        forall|j: int| 0 <= j < i ==> unprefixed(current)[j] == unprefixed(latest)[j],
        (unprefixed(current)[i] as u32) < (unprefixed(latest)[i] as u32),
    ensures
        newer(current, latest) == Ok::<bool, UpdateError>(true),
        newer(latest, current) == Ok::<bool, UpdateError>(false),
{
    let c = unprefixed(current);
    let l = unprefixed(latest);
    lemma_str_less_first_difference(c, l, i);
    lemma_str_less_asymmetric(c, l);
}

/// A release archive's executable is taken whole: an entry that is a regular
/// file (not a link), whose recorded size is between 1 byte and 100 MiB, and
/// whose content, read with a limit one byte above 100 MiB, comes back in
/// full, is extracted as exactly that content.
pub proof fn law_whole_executable_is_extracted(archive: Seq<u8>, name: Seq<char>, size: u64, data: Seq<u8>)
    requires
        spec_zip_entry(archive, name, 104857601) == Ok::<(bool, bool, u64, Option<Seq<u8>>), ZipFailure>(
            (true, false, size, Some(data)),
        ),
        1 <= size <= 104857600,
        data.len() == size,
    ensures
        extraction(archive, name) == Ok::<Seq<u8>, UpdateError>(data),
{
}

/// A release asset must be between 1 byte and 100 MiB, and must be
/// downloaded from this project's release page for its own tag and name.
pub proof fn law_asset_size_and_source(asset: Asset, tag: Seq<char>)
    ensures
        (asset.size == 0 || asset.size > 104857600) ==> asset_check(asset, tag) == Err::<
            (),
            UpdateError,
        >(UpdateError::InvalidAssetSize),
        asset_check(asset, tag) is Ok ==> asset.browser_download_url@
            == "https://github.com/stackrot/osrs-random/releases/download/"@ + tag + "/"@
            + asset.name@,
{
}

} // verus!

//! Self-update decisions: which release to look up, whether the running
//! binary is behind it, what to download and where it unpacks, and whether
//! the downloaded archive matches its published sha256.
//!
//! The network, the disk and the binary swap are driven by the caller; this
//! module decides each step from what the caller hands back.

use vstd::prelude::*;
pub use crate::semver::is_semver_newer;
use crate::semver::{key_newer, version_key};
use crate::text::{chars_of, push_char, push_str, str_eq, string_of_range};

verus! {

/// How a self-update ended.
#[derive(Debug, Clone, Copy, PartialEq, Eq, Structural)]
pub enum Outcome {
    /// The running version is the latest (or newer).
    AlreadyUpToDate,
    /// A newer release exists; only checking was asked for.
    NewerAvailable,
    /// The binary was replaced by the latest release.
    Updated,
}

/// The binary that updates itself and where its releases are published.
pub struct SelfUpdate {
    /// The GitHub repository, as `owner/name`.
    pub repo: &'static str,
    /// The binary's name, which also prefixes its release archives.
    pub bin_name: &'static str,
    /// The version of the running binary.
    pub current_version: &'static str,
}

/// What a self-update found or did.
#[derive(Debug, Clone)]
pub struct UpdateInfo {
    pub current: String,
    pub latest: String,
    pub outcome: Outcome,
    pub binary_path: Option<String>,
}

/// Everything the caller needs to download, check and install a release.
#[derive(Debug, Clone)]
pub struct InstallPlan {
    /// The release tag as published, e.g. `v1.2.3`.
    pub latest_tag: String,
    /// The tag without its leading `v`.
    pub latest: String,
    /// The running version.
    pub current: String,
    /// The release archive for this platform.
    pub archive_name: String,
    /// Where the archive is downloaded from.
    pub archive_url: String,
    /// Where its sha256 checksum is downloaded from.
    pub checksum_url: String,
    /// The prefix of the temporary directory to unpack into.
    pub temp_prefix: String,
    /// The directory inside the archive that holds the binary.
    pub stage_dir: String,
    /// The binary's file name inside that directory.
    pub exe_name: String,
}

/// The next step of a self-update, decided from the latest release tag.
#[derive(Debug, Clone)]
pub enum UpdateStep {
    /// Nothing to install; the update ends with this report.
    Finished(UpdateInfo),
    /// A newer release exists but none is built for this platform.
    UnsupportedPlatform,
    /// Install a newer release as planned.
    Install(InstallPlan),
}

/// The URL of the GitHub API's latest-release document for `repo`.
pub open spec fn release_api_url_of(repo: Seq<char>) -> Seq<char> {
    "https://api.github.com/repos/"@ + repo + "/releases/latest"@
}

/// The User-Agent sent to GitHub: `<bin>/<version>`.
pub open spec fn user_agent_of(bin: Seq<char>, version: Seq<char>) -> Seq<char> {
    bin + seq!['/'] + version
}

/// A tag without its one leading `v`, if it has one.
pub open spec fn strip_v(tag: Seq<char>) -> Seq<char> {
    if tag.len() > 0 && tag[0] == 'v' { tag.drop_first() } else { tag }
}

/// `<bin>-<tag>-<triple>`: the name of a release's top directory.
pub open spec fn stage_dir_of(bin: Seq<char>, tag: Seq<char>, triple: Seq<char>) -> Seq<char> {
    bin + seq!['-'] + tag + seq!['-'] + triple
}

/// The release archive: the stage directory name with `.zip` on Windows and
/// `.tar.gz` elsewhere.
pub open spec fn archive_name_of(bin: Seq<char>, tag: Seq<char>, triple: Seq<char>, windows: bool) -> Seq<char> {
    stage_dir_of(bin, tag, triple) + if windows { ".zip"@ } else { ".tar.gz"@ }
}

/// Where a release asset is downloaded from.
pub open spec fn download_url_of(repo: Seq<char>, tag: Seq<char>, asset: Seq<char>) -> Seq<char> {
    "https://github.com/"@ + repo + "/releases/download/"@ + tag + seq!['/'] + asset
}

/// The binary's file name: with `.exe` on Windows.
pub open spec fn exe_name_of(bin: Seq<char>, windows: bool) -> Seq<char> {
    if windows { bin + ".exe"@ } else { bin }
}

fn concat3(a: &str, b: &str, c: &str) -> (res: String)
    ensures
        res@ == a@ + b@ + c@,
{
    let mut res = String::new();
    push_str(&mut res, a);
    push_str(&mut res, b);
    push_str(&mut res, c);
    assert(res@ =~= a@ + b@ + c@);
    res
}

impl SelfUpdate {
    /// The API URL that names the latest release.
    pub fn release_api_url(&self) -> (res: String)
        ensures
            res@ == release_api_url_of(self.repo@),
    {
        concat3("https://api.github.com/repos/", self.repo, "/releases/latest")
    }

    /// The User-Agent header for requests to GitHub.
    pub fn user_agent(&self) -> (res: String)
        ensures
            res@ == user_agent_of(self.bin_name@, self.current_version@),
    {
        proof {
            reveal_strlit("/");
        }
        concat3(self.bin_name, "/", self.current_version)
    }

    /// Decides what follows once the latest release tag is known: report that
    /// the running version is up to date when the release is not newer;
    /// report that a newer one exists when only checking; refuse when no
    /// release is built for this platform (`triple` is `None`); otherwise plan
    /// the download and install for `triple`, on Windows when `windows`.
    pub fn plan(&self, latest_tag: &str, check_only: bool, triple: Option<&str>, windows: bool) -> (res: UpdateStep)
        ensures
            ({
                let latest = strip_v(latest_tag@);
                let current = self.current_version@;
                let newer = key_newer(version_key(latest), version_key(current));
                &&& !newer ==> (res matches UpdateStep::Finished(info) && info.current@ == current
                    && info.latest@ == latest && info.outcome == Outcome::AlreadyUpToDate
                    && info.binary_path is None)
                &&& newer && check_only ==> (res matches UpdateStep::Finished(info) && info.current@ == current
                    && info.latest@ == latest && info.outcome == Outcome::NewerAvailable
                    && info.binary_path is None)
                &&& newer && !check_only && triple is None ==> res is UnsupportedPlatform
                &&& newer && !check_only && triple is Some ==> (res matches UpdateStep::Install(p)
                    && p.latest_tag@ == latest_tag@ && p.latest@ == latest && p.current@ == current
                    && p.archive_name@ == archive_name_of(self.bin_name@, latest_tag@, triple->0@, windows)
                    && p.archive_url@ == download_url_of(self.repo@, latest_tag@, p.archive_name@)
                    && p.checksum_url@ == p.archive_url@ + ".sha256"@
                    && p.temp_prefix@ == self.bin_name@ + "-self-update-"@
                    && p.stage_dir@ == stage_dir_of(self.bin_name@, latest_tag@, triple->0@)
                    && p.exe_name@ == exe_name_of(self.bin_name@, windows))
            }),
    {
        let tag = chars_of(latest_tag);
        let latest = if tag.len() > 0 && tag[0] == 'v' {
            string_of_range(&tag, 1, tag.len())
        } else {
            string_of_range(&tag, 0, tag.len())
        };
        assert(latest@ =~= strip_v(latest_tag@));
        let current = self.current_version.to_owned();
        proof {
            reveal_strlit("");
        }
        if !is_semver_newer(latest.as_str(), self.current_version) {
            return UpdateStep::Finished(
                UpdateInfo { current, latest, outcome: Outcome::AlreadyUpToDate, binary_path: None },
            );
        }
        if check_only {
            return UpdateStep::Finished(
                UpdateInfo { current, latest, outcome: Outcome::NewerAvailable, binary_path: None },
            );
        }
        let triple = match triple {
            None => {
                return UpdateStep::UnsupportedPlatform;
            },
            Some(t) => t,
        };
        let mut stage_dir = String::new();
        push_str(&mut stage_dir, self.bin_name);
        push_char(&mut stage_dir, '-');
        push_str(&mut stage_dir, latest_tag);
        push_char(&mut stage_dir, '-');
        push_str(&mut stage_dir, triple);
        assert(stage_dir@ =~= stage_dir_of(self.bin_name@, latest_tag@, triple@));
        let archive_name = if windows {
            concat3(stage_dir.as_str(), ".zip", "")
        } else {
            concat3(stage_dir.as_str(), ".tar.gz", "")
        };
        assert(archive_name@ =~= archive_name_of(self.bin_name@, latest_tag@, triple@, windows));
        let mut archive_url = concat3("https://github.com/", self.repo, "/releases/download/");
        push_str(&mut archive_url, latest_tag);
        push_char(&mut archive_url, '/');
        push_str(&mut archive_url, archive_name.as_str());
        assert(archive_url@ =~= download_url_of(self.repo@, latest_tag@, archive_name@));
        let checksum_url = concat3(archive_url.as_str(), ".sha256", "");
        assert(checksum_url@ =~= archive_url@ + ".sha256"@);
        let temp_prefix = concat3(self.bin_name, "-self-update-", "");
        assert(temp_prefix@ =~= self.bin_name@ + "-self-update-"@);
        let exe_name = if windows {
            concat3(self.bin_name, ".exe", "")
        } else {
            self.bin_name.to_owned()
        };
        assert(exe_name@ =~= exe_name_of(self.bin_name@, windows));
        let latest_tag = latest_tag.to_owned();
        UpdateStep::Install(
            InstallPlan {
                latest_tag,
                latest,
                current,
                archive_name,
                archive_url,
                checksum_url,
                temp_prefix,
                stage_dir,
                exe_name,
            },
        )
    }
}

impl InstallPlan {
    /// The report of a finished install whose binary now sits at `binary_path`.
    pub fn into_updated(self, binary_path: String) -> (res: UpdateInfo)
        ensures
            res.current@ == self.current@,
            res.latest@ == self.latest@,
            res.outcome == Outcome::Updated,
            res.binary_path matches Some(p) && p@ == binary_path@,
    {
        UpdateInfo { current: self.current, latest: self.latest, outcome: Outcome::Updated, binary_path: Some(binary_path) }
    }
}

// ─── Checksum verification ──────────────────────────────────────────

/// Whether `c` is white space in Unicode's sense (the `White_Space`
/// property), as `char::is_whitespace` decides it.
pub open spec fn is_white_space(c: char) -> bool {
    ('\u{9}' <= c && c <= '\u{d}') || c == ' ' || c == '\u{85}' || c == '\u{a0}' || c == '\u{1680}'
        || ('\u{2000}' <= c && c <= '\u{200a}') || c == '\u{2028}' || c == '\u{2029}'
        || c == '\u{202f}' || c == '\u{205f}' || c == '\u{3000}'
}

/// Decides `is_white_space`.
pub fn is_white_space_char(c: char) -> (res: bool)
    ensures
        res == is_white_space(c),
{
    ('\u{9}' <= c && c <= '\u{d}') || c == ' ' || c == '\u{85}' || c == '\u{a0}' || c == '\u{1680}'
        || ('\u{2000}' <= c && c <= '\u{200a}') || c == '\u{2028}' || c == '\u{2029}'
        || c == '\u{202f}' || c == '\u{205f}' || c == '\u{3000}'
}

/// The number of white-space characters that `s` starts with.
pub open spec fn leading_space(s: Seq<char>) -> nat
    decreases s.len(),
{
    if s.len() > 0 && is_white_space(s[0]) { 1 + leading_space(s.drop_first()) } else { 0 }
}

/// The number of non-white-space characters that `s` starts with.
pub open spec fn word_len(s: Seq<char>) -> nat
    decreases s.len(),
{
    if s.len() > 0 && !is_white_space(s[0]) { 1 + word_len(s.drop_first()) } else { 0 }
}

/// The first white-space-separated word of `s`, empty when there is none:
/// what `split_whitespace().next().unwrap_or("")` yields.
pub open spec fn first_word(s: Seq<char>) -> Seq<char> {
    let rest = s.skip(leading_space(s) as int);
    rest.take(word_len(rest) as int)
}

/// The first white-space-separated word of `s` (see `first_word`).
pub fn first_word_of(s: &str) -> (res: String)
    ensures
        res@ == first_word(s@),
{
    let v = chars_of(s);
    let mut i: usize = 0;
    assert(v@.skip(0) =~= v@);
    while i < v.len() && is_white_space_char(v[i])
        invariant
            v@ == s@,
            i <= v@.len(),
            leading_space(s@) == i + leading_space(v@.skip(i as int)),
        decreases v@.len() - i,
    {
        assert(v@.skip(i as int).drop_first() =~= v@.skip(i + 1));
        i = i + 1;
    }
    assert(leading_space(v@.skip(i as int)) == 0);
    let ghost rest = v@.skip(i as int);
    let mut j = i;
    while j < v.len() && !is_white_space_char(v[j])
        invariant
            v@ == s@,
            rest == v@.skip(i as int),
            i <= j <= v@.len(),
            word_len(rest) == (j - i) + word_len(v@.skip(j as int)),
        decreases v@.len() - j,
    {
        assert(v@.skip(j as int).drop_first() =~= v@.skip(j + 1));
        j = j + 1;
    }
    assert(word_len(v@.skip(j as int)) == 0);
    assert(rest.take(j - i) =~= v@.subrange(i as int, j as int));
    string_of_range(&v, i, j)
}

/// The SHA-256 digest of `data`.
pub uninterp spec fn sha256_of(data: Seq<u8>) -> Seq<u8>;

/// Trusted: calls `sha2::Sha256::digest`, the one-shot SHA-256 of the
/// `digest` crate's `Digest` trait. Claims that the digest is the same for
/// the same bytes, named `sha256_of`, and that it is 32 bytes long (its
/// output type is a 32-byte array).
#[verifier::external_body]
fn sha256_digest(data: &[u8]) -> (res: Vec<u8>)
    ensures
        res@ == sha256_of(data@),
        res@.len() == 32,
{
    <sha2::Sha256 as sha2::Digest>::digest(data).to_vec()
}

/// The lower-case hexadecimal digit for `n < 16`.
pub open spec fn hex_digit(n: nat) -> char {
    if n < 10 { ((48 + n) as int) as char } else { ((87 + n) as int) as char }
}

/// `data` in lower-case hexadecimal, two digits per byte, high nibble first.
pub open spec fn hex_lower(data: Seq<u8>) -> Seq<char>
    decreases data.len(),
{
    if data.len() == 0 {
        Seq::empty()
    } else {
        hex_lower(data.drop_last()) + seq![hex_digit(data.last() as nat / 16), hex_digit(data.last() as nat % 16)]
    }
}

/// Trusted: calls `hex::encode`, which writes each byte as two lower-case
/// hex digits, high nibble first (table `0123456789abcdef`). Claims exactly
/// that, as `hex_lower`.
#[verifier::external_body]
fn hex_encode(data: &[u8]) -> (res: String)
    ensures
        res@ == hex_lower(data@),
{
    hex::encode(data)
}

/// Whether a downloaded archive passes its published checksum: the checksum
/// file has a first word, and that word is the archive's SHA-256 in
/// lower-case hex. A blank checksum file verifies nothing and is refused.
pub open spec fn checksum_accepts(sha_text: Seq<char>, archive: Seq<u8>) -> bool {
    let expected = first_word(sha_text);
    expected.len() > 0 && expected == hex_lower(sha256_of(archive))
}

/// An archive whose digest differs from the published one (`expected` is
/// empty when the checksum file holds no digest at all).
#[derive(Debug, Clone)]
pub struct ChecksumMismatch {
    pub expected: String,
    pub actual: String,
}

/// Checks a downloaded archive against the text of its `.sha256` file.
pub fn verify_checksum(sha_text: &str, archive: &[u8]) -> (res: Result<(), ChecksumMismatch>)
    ensures
        res is Ok <==> checksum_accepts(sha_text@, archive@),
        res matches Err(e) ==> e.expected@ == first_word(sha_text@)
            && e.actual@ == hex_lower(sha256_of(archive@)),
{
    let expected = first_word_of(sha_text);
    let digest = sha256_digest(archive);
    let actual = hex_encode(digest.as_slice());
    let empty = chars_of(expected.as_str()).len() == 0;
    if empty || !str_eq(expected.as_str(), actual.as_str()) {
        return Err(ChecksumMismatch { expected, actual });
    }
    Ok(())
}

proof fn lemma_hex_lower_len(d: Seq<u8>)
    ensures
        hex_lower(d).len() == 2 * d.len(),
    decreases d.len(),
{
    if d.len() > 0 {
        lemma_hex_lower_len(d.drop_last());
    }
}

proof fn lemma_hex_lower_no_space(d: Seq<u8>)
    ensures
        forall|i: int| 0 <= i < hex_lower(d).len() ==> !is_white_space(#[trigger] hex_lower(d)[i]),
    decreases d.len(),
{
    if d.len() > 0 {
        lemma_hex_lower_no_space(d.drop_last());
        let h = hex_lower(d.drop_last());
        let x = d.last() as nat;
        assert(x / 16 < 16 && x % 16 < 16);
        assert forall|i: int| 0 <= i < hex_lower(d).len() implies !is_white_space(#[trigger] hex_lower(d)[i]) by {
            if i >= h.len() {
                let n = if i == h.len() { x / 16 } else { x % 16 };
                assert(hex_lower(d)[i] == hex_digit(n));
            } else {
                assert(hex_lower(d)[i] == h[i]);
            }
        }
    }
}

proof fn lemma_hex_digit_injective(a: nat, b: nat)
    requires
        a < 16,
        b < 16,
        hex_digit(a) == hex_digit(b),
    ensures
        a == b,
{
}

proof fn lemma_hex_lower_injective(a: Seq<u8>, b: Seq<u8>)
    requires
        hex_lower(a) == hex_lower(b),
    ensures
        a == b,
    decreases a.len(),
{
    lemma_hex_lower_len(a);
    lemma_hex_lower_len(b);
    if a.len() > 0 {
        let ha = hex_lower(a.drop_last());
        let hb = hex_lower(b.drop_last());
        lemma_hex_lower_len(a.drop_last());
        lemma_hex_lower_len(b.drop_last());
        assert(hex_lower(a).take(ha.len() as int) =~= ha);
        assert(hex_lower(b).take(hb.len() as int) =~= hb);
        lemma_hex_lower_injective(a.drop_last(), b.drop_last());
        let x = a.last() as nat;
        let y = b.last() as nat;
        assert(hex_lower(a)[ha.len() as int] == hex_digit(x / 16));
        assert(hex_lower(b)[hb.len() as int] == hex_digit(y / 16));
        assert(hex_lower(a)[ha.len() as int + 1] == hex_digit(x % 16));
        assert(hex_lower(b)[hb.len() as int + 1] == hex_digit(y % 16));
        lemma_hex_digit_injective(x / 16, y / 16);
        lemma_hex_digit_injective(x % 16, y % 16);
        assert(x == y);
        assert(a =~= a.drop_last().push(a.last()));
        assert(b =~= b.drop_last().push(b.last()));
    } else {
        assert(a =~= b);
    }
}

proof fn lemma_first_word_of_word(w: Seq<char>, rest: Seq<char>)
    requires
        forall|i: int| 0 <= i < w.len() ==> !is_white_space(#[trigger] w[i]),
        w.len() > 0,
        rest.len() == 0 || is_white_space(rest[0]),
    ensures
        first_word(w + rest) == w,
{
    let s = w + rest;
    assert(!is_white_space(s[0]));
    assert(leading_space(s) == 0);
    assert(s.skip(0) =~= s);
    lemma_word_len_prefix(w, rest);
    assert(s.take(w.len() as int) =~= w);
}

proof fn lemma_word_len_prefix(w: Seq<char>, rest: Seq<char>)
    requires
        forall|i: int| 0 <= i < w.len() ==> !is_white_space(#[trigger] w[i]),
        rest.len() == 0 || is_white_space(rest[0]),
    ensures
        word_len(w + rest) == w.len(),
    decreases w.len(),
{
    if w.len() == 0 {
        assert(w + rest =~= rest);
    } else {
        assert((w + rest).drop_first() =~= w.drop_first() + rest);
        assert forall|i: int| 0 <= i < w.drop_first().len() implies !is_white_space(#[trigger] w.drop_first()[i]) by {
            assert(w.drop_first()[i] == w[i + 1]);
        }
        lemma_word_len_prefix(w.drop_first(), rest);
        assert((w + rest)[0] == w[0]);
    }
}

/// A checksum file in `sha256sum` form — the hex digest `d` of at least one
/// byte, then nothing or white space and anything — accepts an archive
/// exactly when the archive's SHA-256 is `d`.
pub proof fn lemma_checksum_line_accepts_only_its_digest(d: Seq<u8>, rest: Seq<char>, archive: Seq<u8>)
    requires
        d.len() > 0,
        rest.len() == 0 || is_white_space(rest[0]),
    ensures
        checksum_accepts(hex_lower(d) + rest, archive) <==> d == sha256_of(archive),
{
    lemma_hex_lower_len(d);
    lemma_hex_lower_no_space(d);
    lemma_first_word_of_word(hex_lower(d), rest);
    if hex_lower(d) == hex_lower(sha256_of(archive)) {
        lemma_hex_lower_injective(d, sha256_of(archive));
    }
}

/// Release assets are named with the tag exactly as published, `v` and all:
/// the archive is `<bin>-<tag>-<triple>` — the stage directory — with `.zip`
/// on Windows and `.tar.gz` elsewhere, and it is downloaded from the release
/// of that same tag.
pub proof fn lemma_release_asset_names(repo: Seq<char>, bin: Seq<char>, tag: Seq<char>, triple: Seq<char>, windows: bool)
    ensures
        stage_dir_of(bin, tag, triple) == bin + seq!['-'] + tag + seq!['-'] + triple,
        archive_name_of(bin, tag, triple, windows) == bin + seq!['-'] + tag + seq!['-'] + triple
            + (if windows { seq!['.', 'z', 'i', 'p'] } else { seq!['.', 't', 'a', 'r', '.', 'g', 'z'] }),
        archive_name_of(bin, tag, triple, windows) == stage_dir_of(bin, tag, triple)
            + (if windows { seq!['.', 'z', 'i', 'p'] } else { seq!['.', 't', 'a', 'r', '.', 'g', 'z'] }),
        download_url_of(repo, tag, archive_name_of(bin, tag, triple, windows))
            == "https://github.com/"@ + repo + "/releases/download/"@ + tag + seq!['/']
            + bin + seq!['-'] + tag + seq!['-'] + triple
            + (if windows { seq!['.', 'z', 'i', 'p'] } else { seq!['.', 't', 'a', 'r', '.', 'g', 'z'] }),
{
    reveal_strlit(".zip");
    reveal_strlit(".tar.gz");
    assert(".zip"@ =~= seq!['.', 'z', 'i', 'p']);
    assert(".tar.gz"@ =~= seq!['.', 't', 'a', 'r', '.', 'g', 'z']);
    let ext = if windows { seq!['.', 'z', 'i', 'p'] } else { seq!['.', 't', 'a', 'r', '.', 'g', 'z'] };
    assert(archive_name_of(bin, tag, triple, windows) =~= bin + seq!['-'] + tag + seq!['-'] + triple + ext);
    assert(download_url_of(repo, tag, archive_name_of(bin, tag, triple, windows))
        =~= "https://github.com/"@ + repo + "/releases/download/"@ + tag + seq!['/']
            + bin + seq!['-'] + tag + seq!['-'] + triple + ext);
}

/// The version reported for a tag drops exactly one leading `v`: `v0.4.0`
/// reads `0.4.0`, and a tag without a leading `v` is kept whole.
pub proof fn lemma_strip_one_v(rest: Seq<char>, tag: Seq<char>)
    ensures
        strip_v(seq!['v'] + rest) == rest,
        (tag.len() == 0 || tag[0] != 'v') ==> strip_v(tag) == tag,
{
    assert((seq!['v'] + rest).drop_first() =~= rest);
}

} // verus!

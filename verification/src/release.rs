//! The self-upgrade's plain data and decisions: errors and their messages,
//! how the program was installed, which release asset fits the platform,
//! and reading the answers of the tools it runs.

use vstd::prelude::*;
use vstd::string::StringExecFns;
use crate::text::{chars_of, contains_text, equals_ignoring_ascii_case, ascii_lower, ascii_lowercase, str_contains, str_equals,
    string_of_range, trim, trim_range, is_whitespace, char_is_whitespace};
use crate::upgrade::{parse_tag_name, spec_parse_tag_name};
use crate::detect::texts_of;

verus! {

/// Why an upgrade did not happen.
#[derive(Debug, PartialEq)]
pub enum UpgradeError {
    /// curl (or PowerShell on Windows) was not found on `PATH`.
    CurlNotFound,
    /// A network request failed.
    NetworkError(String),
    /// Writing the binary at this path needs elevated privileges.
    PermissionDenied(String),
    /// No prebuilt binary exists for this OS and architecture.
    UnsupportedPlatform { os: String, arch: String },
    /// The running version is already the latest.
    AlreadyLatest { current: String },
    /// The release description could not be read.
    ParseError(String),
    /// A filesystem error, with its message.
    IoError(String),
    /// Replacing the binary is not supported on Windows.
    WindowsNotSupported,
}

/// The message shown for an upgrade error.
pub open spec fn error_message(e: UpgradeError) -> Seq<char> {
    match e {
        UpgradeError::CurlNotFound => "upgrade requires curl. Install curl or update manually: cargo install codemux --force"@,
        UpgradeError::NetworkError(m) => "could not reach GitHub API: "@ + m@,
        UpgradeError::PermissionDenied(p) => "permission denied writing to "@ + p@ + ". Try: sudo codemux --upgrade"@,
        UpgradeError::UnsupportedPlatform { os, arch } => "no prebuilt binary for "@ + os@ + "/"@ + arch@
            + ". Use: cargo install codemux --force"@,
        UpgradeError::AlreadyLatest { current } => "already up to date (v"@ + current@ + ")"@,
        UpgradeError::ParseError(m) => "failed to parse version: "@ + m@,
        UpgradeError::IoError(m) => m@,
        UpgradeError::WindowsNotSupported => "Windows upgrade is not yet supported. Download the latest release from https://github.com/jellydn/zed-codemux/releases"@,
    }
}

impl UpgradeError {
    /// The message shown for this error.
    pub fn message(&self) -> (r: String)
        ensures
            r@ == error_message(*self),
    {
        match self {
            UpgradeError::CurlNotFound => "upgrade requires curl. Install curl or update manually: cargo install codemux --force".to_owned(),
            UpgradeError::NetworkError(m) => {
                let mut r = "could not reach GitHub API: ".to_owned();
                r.append(m.as_str());
                r
            },
            UpgradeError::PermissionDenied(p) => {
                let mut r = "permission denied writing to ".to_owned();
                r.append(p.as_str());
                r.append(". Try: sudo codemux --upgrade");
                r
            },
            UpgradeError::UnsupportedPlatform { os, arch } => {
                let mut r = "no prebuilt binary for ".to_owned();
                r.append(os.as_str());
                r.append("/");
                r.append(arch.as_str());
                r.append(". Use: cargo install codemux --force");
                r
            },
            UpgradeError::AlreadyLatest { current } => {
                let mut r = "already up to date (v".to_owned();
                r.append(current.as_str());
                r.append(")");
                r
            },
            UpgradeError::ParseError(m) => {
                let mut r = "failed to parse version: ".to_owned();
                r.append(m.as_str());
                r
            },
            UpgradeError::IoError(m) => m.as_str().to_owned(),
            UpgradeError::WindowsNotSupported => "Windows upgrade is not yet supported. Download the latest release from https://github.com/jellydn/zed-codemux/releases".to_owned(),
        }
    }
}

/// The outcome of an upgrade.
#[derive(Debug, PartialEq)]
pub struct UpgradeResult {
    /// The version before the upgrade.
    pub previous: String,
    /// The version after the upgrade.
    pub current: String,
    /// Path of the program's binary.
    pub path: String,
}

/// How the program was installed, which decides how it is upgraded.
#[derive(Debug, Clone, Copy, PartialEq, Eq, Structural)]
pub enum InstallMethod {
    Cargo,
    Homebrew,
    Prebuilt,
}

/// The installation method read from the path of the running binary:
/// cargo when it lies under `.cargo/bin`, Homebrew under a `Cellar` or
/// `homebrew` directory, otherwise (or without a path) a prebuilt binary.
pub open spec fn spec_install_method(exe: Option<Seq<char>>) -> InstallMethod {
    match exe {
        Some(p) => if contains_text(p, ".cargo/bin"@) {
            InstallMethod::Cargo
        } else if contains_text(p, "Cellar"@) || contains_text(p, "homebrew"@) {
            InstallMethod::Homebrew
        } else {
            InstallMethod::Prebuilt
        },
        None => InstallMethod::Prebuilt,
    }
}

/// Detects the installation method from the path of the running binary
/// (`None` when it is unknown or not valid Unicode).
pub fn detect_install_method(exe: Option<&str>) -> (r: InstallMethod)
    ensures
        r == spec_install_method(
            match exe {
                Some(p) => Some(p@),
                None => None,
            },
        ),
{
    match exe {
        Some(p) => {
            if str_contains(p, ".cargo/bin") {
                InstallMethod::Cargo
            } else if str_contains(p, "Cellar") || str_contains(p, "homebrew") {
                InstallMethod::Homebrew
            } else {
                InstallMethod::Prebuilt
            }
        },
        None => InstallMethod::Prebuilt,
    }
}

/// The release asset for an OS and architecture (as `std::env::consts`
/// names them).
pub open spec fn spec_asset_name(os: Seq<char>, arch: Seq<char>) -> Option<Seq<char>> {
    if os == "macos"@ && arch == "aarch64"@ {
        Some("codemux-macos-arm64.tar.gz"@)
    } else if os == "macos"@ && arch == "x86_64"@ {
        Some("codemux-macos-x64.tar.gz"@)
    } else if os == "linux"@ && arch == "aarch64"@ {
        Some("codemux-linux-arm64.tar.gz"@)
    } else if os == "linux"@ && arch == "x86_64"@ {
        Some("codemux-linux-x64.tar.gz"@)
    } else {
        None
    }
}

/// The prebuilt release asset for this platform; Windows is refused, and so
/// is any platform without an asset.
pub fn platform_asset_name(os: &str, arch: &str) -> (r: Result<String, UpgradeError>)
    ensures
        match r {
            Ok(a) => spec_asset_name(os@, arch@) == Some(a@),
            Err(UpgradeError::WindowsNotSupported) => os@ == "windows"@,
            Err(UpgradeError::UnsupportedPlatform { os: o, arch: a }) => os@ != "windows"@
                && spec_asset_name(os@, arch@) is None && o@ == os@ && a@ == arch@,
            Err(_) => false,
        },
{
    let macos = str_equals(os, "macos");
    let linux = str_equals(os, "linux");
    let arm = str_equals(arch, "aarch64");
    let x64 = str_equals(arch, "x86_64");
    if macos && arm {
        Ok("codemux-macos-arm64.tar.gz".to_owned())
    } else if macos && x64 {
        Ok("codemux-macos-x64.tar.gz".to_owned())
    } else if linux && arm {
        Ok("codemux-linux-arm64.tar.gz".to_owned())
    } else if linux && x64 {
        Ok("codemux-linux-x64.tar.gz".to_owned())
    } else if str_equals(os, "windows") {
        Err(UpgradeError::WindowsNotSupported)
    } else {
        proof {
            if os@ == "windows"@ {
                assert(false);
            }
        }
        Err(UpgradeError::UnsupportedPlatform { os: os.to_owned(), arch: arch.to_owned() })
    }
}

/// An answer to a yes/no prompt counts as yes when, trimmed and ignoring
/// case, it is empty, `y` or `yes`.
pub open spec fn spec_is_yes(input: Seq<char>) -> bool {
    let t = ascii_lowercase(trim(input));
    t.len() == 0 || t == "y"@ || t == "yes"@
}

/// Reads an answer to a `[Y/n]` prompt.
pub fn is_yes_answer(input: &str) -> (b: bool)
    ensures
        b == spec_is_yes(input@),
{
    let v = chars_of(input);
    let (a, e) = trim_range(&v, 0, v.len());
    assert(v@.subrange(0, v@.len() as int) == v@);
    let t = string_of_range(&v, a, e);
    let ts = t.as_str();
    let empty = a == e;
    assert(empty == (ascii_lowercase(trim(input@)).len() == 0));
    empty || equals_ignoring_ascii_case(ts, "y") || equals_ignoring_ascii_case(ts, "yes")
}

/// Release assets name their platform. There is one exactly for macOS and
/// Linux on x86_64 and aarch64; it is `codemux-<os>-x64.tar.gz` on x86_64
/// and `codemux-<os>-arm64.tar.gz` on aarch64.
pub proof fn lemma_asset_names_platform(os: Seq<char>, arch: Seq<char>)
    ensures
        spec_asset_name(os, arch) is Some <==> ((os == seq!['m', 'a', 'c', 'o', 's'] || os == seq!['l', 'i', 'n', 'u', 'x'])
            && (arch == seq!['x', '8', '6', '_', '6', '4'] || arch == seq!['a', 'a', 'r', 'c', 'h', '6', '4'])),
        spec_asset_name(os, arch) is Some && arch == seq!['x', '8', '6', '_', '6', '4'] ==> spec_asset_name(os, arch)->0
            == seq!['c', 'o', 'd', 'e', 'm', 'u', 'x', '-'] + os + seq!['-', 'x', '6', '4', '.', 't', 'a', 'r', '.', 'g', 'z'],
        spec_asset_name(os, arch) is Some && arch == seq!['a', 'a', 'r', 'c', 'h', '6', '4'] ==> spec_asset_name(os, arch)->0
            == seq!['c', 'o', 'd', 'e', 'm', 'u', 'x', '-'] + os + seq!['-', 'a', 'r', 'm', '6', '4', '.', 't', 'a', 'r', '.', 'g', 'z'],
{
    reveal_strlit("macos");
    reveal_strlit("linux");
    reveal_strlit("aarch64");
    reveal_strlit("x86_64");
    reveal_strlit("codemux-macos-arm64.tar.gz");
    reveal_strlit("codemux-macos-x64.tar.gz");
    reveal_strlit("codemux-linux-arm64.tar.gz");
    reveal_strlit("codemux-linux-x64.tar.gz");
    let pre = seq!['c', 'o', 'd', 'e', 'm', 'u', 'x', '-'];
    let x64 = seq!['-', 'x', '6', '4', '.', 't', 'a', 'r', '.', 'g', 'z'];
    let arm = seq!['-', 'a', 'r', 'm', '6', '4', '.', 't', 'a', 'r', '.', 'g', 'z'];
    assert("macos"@ =~= seq!['m', 'a', 'c', 'o', 's']);
    assert("linux"@ =~= seq!['l', 'i', 'n', 'u', 'x']);
    assert("x86_64"@ =~= seq!['x', '8', '6', '_', '6', '4']);
    assert("aarch64"@ =~= seq!['a', 'a', 'r', 'c', 'h', '6', '4']);
    assert("codemux-macos-arm64.tar.gz"@ =~= pre + "macos"@ + arm);
    assert("codemux-macos-x64.tar.gz"@ =~= pre + "macos"@ + x64);
    assert("codemux-linux-arm64.tar.gz"@ =~= pre + "linux"@ + arm);
    assert("codemux-linux-x64.tar.gz"@ =~= pre + "linux"@ + x64);
    assert(seq!['x', '8', '6', '_', '6', '4'] != seq!['a', 'a', 'r', 'c', 'h', '6', '4']);
    assert(seq!['m', 'a', 'c', 'o', 's'] != seq!['l', 'i', 'n', 'u', 'x']) by {
        assert(seq!['m', 'a', 'c', 'o', 's'][0] != seq!['l', 'i', 'n', 'u', 'x'][0]);
    }
}

/// No two platforms share a release asset.
pub proof fn lemma_asset_names_distinct(os1: Seq<char>, arch1: Seq<char>, os2: Seq<char>, arch2: Seq<char>)
    requires
        spec_asset_name(os1, arch1) is Some,
        spec_asset_name(os2, arch2) is Some,
        os1 != os2 || arch1 != arch2,
    ensures
        spec_asset_name(os1, arch1) != spec_asset_name(os2, arch2),
{
    lemma_asset_names_platform(os1, arch1);
    lemma_asset_names_platform(os2, arch2);
    let n1 = spec_asset_name(os1, arch1)->0;
    let n2 = spec_asset_name(os2, arch2)->0;
    if os1 != os2 {
        assert(n1[8] != n2[8]);
    } else {
        assert(n1[14] != n2[14]);
    }
}

/// An answer is yes exactly when, without surrounding whitespace and with
/// ASCII letters lowercased, it is empty, `y` or `yes`. So a one-letter
/// answer is yes only for `y` or `Y`, and an answer beginning with `n` or
/// `N` (`n`, `no`, `No`, ...) is never yes.
pub proof fn lemma_yes_answers(input: Seq<char>)
    ensures
        spec_is_yes(input) <==> (ascii_lowercase(trim(input)).len() == 0 || ascii_lowercase(trim(input)) == seq!['y']
            || ascii_lowercase(trim(input)) == seq!['y', 'e', 's']),
        trim(input).len() == 1 ==> (spec_is_yes(input) <==> (trim(input)[0] == 'y' || trim(input)[0] == 'Y')),
        trim(input).len() > 0 && (trim(input)[0] == 'n' || trim(input)[0] == 'N') ==> !spec_is_yes(input),
{
    reveal_strlit("y");
    reveal_strlit("yes");
    assert("y"@ =~= seq!['y']);
    assert("yes"@ =~= seq!['y', 'e', 's']);
    let t = ascii_lowercase(trim(input));
    if trim(input).len() > 0 {
        assert(t[0] == ascii_lower(trim(input)[0]));
    }
    if trim(input).len() == 1 {
        let c = trim(input)[0];
        if c == 'y' || c == 'Y' {
            assert(t =~= seq!['y']);
        }
        if t == seq!['y'] {
            assert(ascii_lower(c) == 'y');
            if 'A' <= c && c <= 'Z' {
                assert((c as int) + 32 == 121);
                assert(c == 'Y');
            }
        }
    }
}

/// The message for a release description without a tag.
pub open spec fn missing_tag_message() -> Seq<char> {
    "could not find tag_name in GitHub API response"@
}

/// The latest release tag from the release query's outcome: a failed query
/// is a network error carrying its error output; otherwise the tag read
/// from the answer, or a parse error when there is none.
pub fn tag_from_response(success: bool, stdout: &str, stderr: &str) -> (r: Result<String, UpgradeError>)
    ensures
        !success ==> (r matches Err(UpgradeError::NetworkError(m)) && m@ == stderr@),
        success ==> match r {
            Ok(t) => spec_parse_tag_name(stdout@) == Some(t@),
            Err(UpgradeError::ParseError(m)) => spec_parse_tag_name(stdout@) is None && m@ == missing_tag_message(),
            Err(_) => false,
        },
{
    if !success {
        return Err(UpgradeError::NetworkError(stderr.to_owned()));
    }
    match parse_tag_name(stdout) {
        Some(t) => Ok(t),
        None => Err(UpgradeError::ParseError("could not find tag_name in GitHub API response".to_owned())),
    }
}

/// A tag without its leading `v`, if it has one.
pub open spec fn without_v(tag: Seq<char>) -> Seq<char> {
    if tag.len() > 0 && tag[0] == 'v' {
        tag.drop_first()
    } else {
        tag
    }
}

/// Removes one leading `v` from a tag.
pub fn strip_v_prefix(tag: &str) -> (r: String)
    ensures
        r@ == without_v(tag@),
{
    let v = chars_of(tag);
    if v.len() > 0 && v[0] == 'v' {
        string_of_range(&v, 1, v.len())
    } else {
        tag.to_owned()
    }
}

/// The latest version without its `v`, from the outcome of the release
/// query; an error passes through unchanged.
pub fn check_version_only(latest: Result<String, UpgradeError>) -> (r: Result<String, UpgradeError>)
    ensures
        match latest {
            Ok(t) => r matches Ok(v) && v@ == without_v(t@),
            Err(e) => r == Err::<String, UpgradeError>(e),
        },
{
    match latest {
        Ok(t) => Ok(strip_v_prefix(t.as_str())),
        Err(e) => Err(e),
    }
}

/// The download address of a release asset.
pub open spec fn spec_download_url(tag: Seq<char>, asset: Seq<char>) -> Seq<char> {
    "https://github.com/jellydn/zed-codemux/releases/download/"@ + tag + "/"@ + asset
}

/// Where the asset of a release is downloaded from.
pub fn release_download_url(tag: &str, asset: &str) -> (r: String)
    ensures
        r@ == spec_download_url(tag@, asset@),
{
    let mut r = "https://github.com/jellydn/zed-codemux/releases/download/".to_owned();
    r.append(tag);
    r.append("/");
    r.append(asset);
    r
}

/// The package-manager command that upgrades an installation, with the name
/// of the manager; a prebuilt binary has none.
pub open spec fn spec_external_upgrade(method: InstallMethod) -> Option<(Seq<char>, Seq<char>)> {
    match method {
        InstallMethod::Cargo => Some(("cargo install codemux --force"@, "cargo"@)),
        InstallMethod::Homebrew => Some(("brew upgrade codemux"@, "Homebrew"@)),
        InstallMethod::Prebuilt => None,
    }
}

/// The recommended upgrade command and the manager's name for an installation.
pub fn external_upgrade_command(method: InstallMethod) -> (r: Option<(String, String)>)
    ensures
        match r {
            Some((c, l)) => spec_external_upgrade(method) == Some((c@, l@)),
            None => spec_external_upgrade(method) is None,
        },
{
    match method {
        InstallMethod::Cargo => Some(("cargo install codemux --force".to_owned(), "cargo".to_owned())),
        InstallMethod::Homebrew => Some(("brew upgrade codemux".to_owned(), "Homebrew".to_owned())),
        InstallMethod::Prebuilt => None,
    }
}

/// The whitespace-separated words of a command line (`str::split_whitespace`).
pub open spec fn words_of(s: Seq<char>) -> Seq<Seq<char>>
    decreases s.len(),
{
    if s.len() == 0 {
        Seq::empty()
    } else if is_whitespace(s.last()) {
        words_of(s.drop_last())
    } else if s.len() >= 2 && !is_whitespace(s[s.len() - 2]) {
        let w = words_of(s.drop_last());
        w.update(w.len() - 1, w.last().push(s.last()))
    } else {
        words_of(s.drop_last()).push(seq![s.last()])
    }
}

/// Splits a command line into its words, to run the first with the others
/// as arguments.
pub fn command_words(cmd: &str) -> (r: Vec<String>)
    ensures
        texts_of(r@) == words_of(cmd@),
{
    let v = chars_of(cmd);
    let n = v.len();
    let mut out: Vec<String> = Vec::new();
    let mut i: usize = 0;
    let mut start: usize = 0;
    let mut in_word = false;
    assert(v@.take(0) == Seq::<char>::empty());
    while i < n
        invariant
            n == v@.len(),
            i <= n,
            start <= i,
            in_word ==> (i > 0 && start < i && !is_whitespace(v@[i - 1])
                && words_of(v@.take(i as int)) == texts_of(out@).push(v@.subrange(start as int, i as int))),
            !in_word ==> ((i == 0 || is_whitespace(v@[i - 1])) && words_of(v@.take(i as int)) == texts_of(out@)),
        decreases n - i,
    {
        let c = v[i];
        let ws = char_is_whitespace(c);
        proof {
            let t = v@.take(i + 1);
            assert(t.drop_last() == v@.take(i as int));
            assert(t.last() == c);
            if i > 0 {
                assert(t[t.len() - 2] == v@[i - 1]);
            }
        }
        if ws {
            if in_word {
                let w = string_of_range(&v, start, i);
                out.push(w);
                proof {
                    assert(texts_of(out@) == texts_of(out@.drop_last()).push(v@.subrange(start as int, i as int)));
                }
            }
            in_word = false;
        } else {
            if !in_word {
                start = i;
                proof {
                    assert(v@.subrange(i as int, i + 1) == seq![c]);
                }
            } else {
                proof {
                    let w = words_of(v@.take(i as int));
                    assert(v@.subrange(start as int, i + 1) == v@.subrange(start as int, i as int).push(c));
                    assert(w.update(w.len() - 1, w.last().push(c)) == texts_of(out@).push(v@.subrange(start as int, i + 1)));
                }
            }
            in_word = true;
        }
        i += 1;
    }
    if in_word {
        let w = string_of_range(&v, start, n);
        out.push(w);
        proof {
            assert(texts_of(out@) == texts_of(out@.drop_last()).push(v@.subrange(start as int, n as int)));
        }
    }
    assert(v@.take(n as int) == v@);
    out
}

/// The message when the upgraded binary reports another version.
pub open spec fn mismatch_message(expected: Seq<char>, output: Seq<char>) -> Seq<char> {
    "version mismatch after upgrade: expected "@ + expected + ", got "@ + trim(output)
}

/// Checks the `--version` output of the new binary: it must mention the
/// expected version.
pub fn verify_version_output(stdout: &str, expected: &str) -> (r: Result<(), UpgradeError>)
    ensures
        contains_text(stdout@, expected@) ==> r is Ok,
        !contains_text(stdout@, expected@) ==> (r matches Err(UpgradeError::NetworkError(m)) && m@
            == mismatch_message(expected@, stdout@)),
{
    if str_contains(stdout, expected) {
        return Ok(());
    }
    let v = chars_of(stdout);
    let (a, e) = trim_range(&v, 0, v.len());
    assert(v@.subrange(0, v@.len() as int) == v@);
    let mut m = "version mismatch after upgrade: expected ".to_owned();
    m.append(expected);
    m.append(", got ");
    let t = string_of_range(&v, a, e);
    m.append(t.as_str());
    Err(UpgradeError::NetworkError(m))
}

} // verus!

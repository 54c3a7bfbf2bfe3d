//! The version of the remote service, and what the service can take.

use crate::error::Error;
use vstd::prelude::*;
use vstd::string::StringExecFns;

verus! {

/// The version of the remote service.
#[derive(Debug, Clone)]
pub struct ServerVersion {
    pub major: u64,
    pub minor: u64,
    pub patch: u64,
    /// The pre-release tag, without its hyphen; empty for a release.
    pub pre: String,
    /// The build tag, without its plus sign; empty where there is none.
    pub build: String,
}

/// A `ServerVersion` as plain values.
pub struct ServerVersionView {
    pub major: u64,
    pub minor: u64,
    pub patch: u64,
    pub pre: Seq<char>,
    pub build: Seq<char>,
}

impl View for ServerVersion {
    type V = ServerVersionView;

    open spec fn view(&self) -> ServerVersionView {
        ServerVersionView {
            major: self.major,
            minor: self.minor,
            patch: self.patch,
            pre: self.pre@,
            build: self.build@,
        }
    }
}

/// The release `major.minor.patch`, without tags.
pub open spec fn release(major: int, minor: int, patch: int) -> ServerVersionView {
    ServerVersionView {
        major: major as u64,
        minor: minor as u64,
        patch: patch as u64,
        pre: Seq::empty(),
        build: Seq::empty(),
    }
}

/// Whether `version` is 7.3.0 or later in the order of semantic versions: the
/// three numbers decide, and where they are 7, 3 and 0 a pre-release comes
/// before the release. The build tag, empty in 7.3.0, never puts a version
/// before it.
pub open spec fn at_least_7_3_0(version: ServerVersionView) -> bool {
    ||| version.major > 7
    ||| version.major == 7 && version.minor > 3
    ||| version.major == 7 && version.minor == 3 && version.patch > 0
    ||| version.major == 7 && version.minor == 3 && version.patch == 0 && version.pre.len() == 0
}

/// The ten digits.
pub open spec fn digits() -> Seq<char> {
    seq!['0', '1', '2', '3', '4', '5', '6', '7', '8', '9']
}

/// `n` in decimal, without leading zeros.
pub open spec fn decimal_digits(n: nat) -> Seq<char>
    decreases n,
{
    if n < 10 {
        seq![digits()[n as int]]
    } else {
        decimal_digits(n / 10).push(digits()[(n % 10) as int])
    }
}

/// `n` in decimal, with a minus sign where it is negative.
pub open spec fn decimal(n: int) -> Seq<char> {
    if n < 0 {
        seq!['-'] + decimal_digits((-n) as nat)
    } else {
        decimal_digits(n as nat)
    }
}

/// The three numbers in decimal, with dots between them.
pub open spec fn version_text(major: int, minor: int, patch: int) -> Seq<char> {
    decimal(major) + seq!['.'] + decimal(minor) + seq!['.'] + decimal(patch)
}

/// `format!` with three integers: each is written in decimal.
#[verifier::external_body]
fn format_version(major: i32, minor: i32, patch: i32) -> (text: String)
    ensures
        text@ == version_text(major as int, minor as int, patch as int),
{
    format!("{}.{}.{}", major, minor, patch)
}

/// What the parser of semantic versions makes of `text`: the version, or the
/// message of its error.
pub uninterp spec fn parsed_version(text: Seq<char>) -> Result<ServerVersionView, Seq<char>>;

/// `semver::Version::parse`. Three numbers in decimal with dots between them
/// are the release of these numbers, as long as none is negative; a minus
/// sign in front of any of them is an error.
#[verifier::external_body]
fn semver_parse(text: &str) -> (parsed: Result<ServerVersion, String>)
    ensures
        match parsed {
            Ok(version) => parsed_version(text@) == Ok::<ServerVersionView, Seq<char>>(version@),
            Err(message) => parsed_version(text@) == Err::<ServerVersionView, Seq<char>>(
                message@,
            ),
        },
        forall|major: int, minor: int, patch: int|
            text@ == #[trigger] version_text(major, minor, patch) ==> if 0 <= major <= u64::MAX
                && 0 <= minor <= u64::MAX && 0 <= patch <= u64::MAX {
                parsed matches Ok(version) && version@ == release(major, minor, patch)
            } else if major < 0 || minor < 0 || patch < 0 {
                parsed is Err
            } else {
                true
            },
{
    match semver::Version::parse(text) {
        Ok(v) => Ok(ServerVersion {
            major: v.major,
            minor: v.minor,
            patch: v.patch,
            pre: v.pre.as_str().to_string(),
            build: v.build.as_str().to_string(),
        }),
        Err(e) => Err(e.to_string()),
    }
}

/// The error of a version that could not be read: `info` describes what the
/// service reported.
pub open spec fn version_error(message: Seq<char>, info: Seq<char>) -> Seq<char> {
    "Failed to parse Confluence Version: "@ + message + " for "@ + info
}

impl ServerVersion {
    /// Reads a semantic version: what the parser makes of the text. Three
    /// numbers in decimal with dots between them are the release of these
    /// numbers, as long as none is negative; with a negative number among
    /// them they are an error.
    pub fn parse(text: &str) -> (parsed: Result<ServerVersion, String>)
        ensures
            match parsed {
                Ok(version) => parsed_version(text@) == Ok::<ServerVersionView, Seq<char>>(
                    version@,
                ),
                Err(message) => parsed_version(text@) == Err::<ServerVersionView, Seq<char>>(
                    message@,
                ),
            },
            forall|major: int, minor: int, patch: int|
                text@ == #[trigger] version_text(major, minor, patch) ==> if 0 <= major
                    <= u64::MAX && 0 <= minor <= u64::MAX && 0 <= patch <= u64::MAX {
                    parsed matches Ok(version) && version@ == release(major, minor, patch)
                } else if major < 0 || minor < 0 || patch < 0 {
                    parsed is Err
                } else {
                    true
                },
    {
        semver_parse(text)
    }

    /// Whether a server of this version stores characters of four bytes:
    /// those from 7.3.0 on do.
    pub fn supports_extended_text(&self) -> (supported: bool)
        ensures
            supported == at_least_7_3_0(self@),
    {
        if self.major != 7 {
            self.major > 7
        } else if self.minor != 3 {
            self.minor > 3
        } else if self.patch != 0 {
            true
        } else {
            self.pre.as_str().is_empty()
        }
    }
}

/// The version of a service that reports the numbers `major`, `minor` and
/// `patch`: what the parser makes of the three numbers with dots between
/// them, and its error where it fails. There is a version exactly where none
/// of the numbers is negative. `info` is the report as a whole, for the error
/// message.
pub fn get_server_version(major: i32, minor: i32, patch: i32, info: &str) -> (version: Result<
    ServerVersion,
    Error,
>)
    ensures
        version is Ok <==> parsed_version(
            version_text(major as int, minor as int, patch as int),
        ) is Ok,
        major >= 0 && minor >= 0 && patch >= 0 <==> version is Ok,
        version matches Ok(v) ==> {
            &&& parsed_version(version_text(major as int, minor as int, patch as int)) == Ok::<
                ServerVersionView,
                Seq<char>,
            >(v@)
            &&& v@ == release(major as int, minor as int, patch as int)
        },
        version matches Err(e) ==> {
            &&& e matches Error::Error(text)
            &&& parsed_version(version_text(major as int, minor as int, patch as int)) matches Err(
                message,
            )
            &&& text@ == version_error(message, info@)
        },
{
    let text = format_version(major, minor, patch);
    assert(text@ == version_text(major as int, minor as int, patch as int));
    match semver_parse(text.as_str()) {
        Ok(version) => Ok(version),
        Err(message) => {
            let mut explained = "Failed to parse Confluence Version: ".to_owned();
            explained.append(message.as_str());
            explained.append(" for ");
            explained.append(info);
            Err(Error::Error(explained))
        },
    }
}

} // verus!

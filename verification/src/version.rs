//! Versions of Python: the version of an installed interpreter, and the
//! version that a user asks for.
use vstd::prelude::*;
use vstd::string::*;

use crate::decimal::{
    component_of, decimal_digits, is_digit, lemma_component_of_decimal_digits,
    lemma_decimal_digits, parse_component, push_decimal,
};
use crate::error::Error;
use crate::path::{FileName, FilePath};
use crate::text::{chars_of, text_of};

verus! {

/// The version of Python that a user asks for.
#[derive(Clone, Copy, Debug, PartialEq, Eq, Structural)]
pub enum RequestedVersion {
    /// Any version will do.
    Any,
    /// Any version with this major number.
    MajorOnly(u16),
    /// The version with this major and this minor number.
    Exact(u16, u16),
}

/// The version of an installed interpreter.
#[derive(Clone, Copy, Debug, PartialEq, Eq, Hash, Ord, Structural)]
pub struct ExactVersion {
    pub major: u16,
    pub minor: u16,
}

impl RequestedVersion {
    /// How the request is shown to a user.
    pub open spec fn text(self) -> Seq<char> {
        match self {
            RequestedVersion::Any => "Python"@,
            RequestedVersion::MajorOnly(major) => "Python "@ + decimal_digits(major as nat),
            RequestedVersion::Exact(major, minor) => "Python "@ + decimal_digits(major as nat)
                + seq!['.'] + decimal_digits(minor as nat),
        }
    }

    /// The name of the environment variable that configures the request, for
    /// the requests that have one.
    pub open spec fn env_var_name(self) -> Option<Seq<char>> {
        match self {
            RequestedVersion::Any => Some("PY_PYTHON"@),
            RequestedVersion::MajorOnly(major) => Some("PY_PYTHON"@ + decimal_digits(major as nat)),
            RequestedVersion::Exact(_, _) => None,
        }
    }

    /// Reads a request: nothing, `<major>` or `<major>.<minor>`.
    pub fn from_str(version_string: &str) -> (parsed: Result<RequestedVersion, Error>)
        ensures
            parsed == request_of_text(version_string@),
    {
        let chars = chars_of(version_string);
        assert(chars@.skip(0) == chars@);
        assert(chars@.subrange(0, chars.len() as int) == chars@);
        if chars.len() == 0 {
            Ok(RequestedVersion::Any)
        } else {
            match find_dot(&chars, 0) {
                Some(dot) => match version_around_dot(&chars, 0, dot) {
                    Ok(version) => Ok(RequestedVersion::Exact(version.major, version.minor)),
                    Err(error) => Err(error),
                },
                None => match parse_component(&chars, 0, chars.len()) {
                    Ok(major) => Ok(RequestedVersion::MajorOnly(major)),
                    Err(cause) => Err(Error::ParseVersionComponentError(cause)),
                },
            }
        }
    }

    /// The name of the environment variable that configures the request, if
    /// the request has one.
    pub fn env_var(self) -> (name: Option<String>)
        ensures
            text_of(name) == self.env_var_name(),
    {
        match self {
            RequestedVersion::Any => Some(String::from_str("PY_PYTHON")),
            RequestedVersion::MajorOnly(major) => {
                let mut text = String::from_str("PY_PYTHON");
                push_decimal(&mut text, major);
                Some(text)
            },
            RequestedVersion::Exact(_, _) => None,
        }
    }

    /// Renders the request for a user.
    pub fn to_string(&self) -> (text: String)
        ensures
            text@ == self.text(),
    {
        match self {
            RequestedVersion::Any => String::from_str("Python"),
            RequestedVersion::MajorOnly(major) => {
                let mut text = String::from_str("Python ");
                push_decimal(&mut text, *major);
                text
            },
            RequestedVersion::Exact(major, minor) => {
                let mut text = String::from_str("Python ");
                push_decimal(&mut text, *major);
                proof {
                    reveal_strlit(".");
                }
                text.append(".");
                push_decimal(&mut text, *minor);
                text
            },
        }
    }
}

impl From<ExactVersion> for RequestedVersion {
    /// The request for exactly `version`.
    fn from(version: ExactVersion) -> (requested: RequestedVersion) {
        RequestedVersion::Exact(version.major, version.minor)
    }
}

impl vstd::std_specs::convert::FromSpecImpl<ExactVersion> for RequestedVersion {
    open spec fn obeys_from_spec() -> bool {
        true
    }

    open spec fn from_spec(version: ExactVersion) -> RequestedVersion {
        RequestedVersion::Exact(version.major, version.minor)
    }
}

/// What `text` denotes as an exact version: the component before the first
/// `.`, then the component after it. The major component is read first, so
/// its failure is the one reported when both fail.
pub open spec fn version_of_text(text: Seq<char>) -> Result<ExactVersion, Error> {
    match text.index_of_first('.') {
        None => Err(Error::DotMissing),
        Some(dot) => match component_of(text.take(dot)) {
            Err(cause) => Err(Error::ParseVersionComponentError(cause)),
            Ok(major) => match component_of(text.skip(dot + 1)) {
                Err(cause) => Err(Error::ParseVersionComponentError(cause)),
                Ok(minor) => Ok(ExactVersion { major, minor }),
            },
        },
    }
}

/// What `text` denotes as a request: nothing stands for any version, a text
/// with a `.` for an exact version, any other text for a major version.
pub open spec fn request_of_text(text: Seq<char>) -> Result<RequestedVersion, Error> {
    if text.len() == 0 {
        Ok(RequestedVersion::Any)
    } else if text.contains('.') {
        match version_of_text(text) {
            Ok(version) => Ok(RequestedVersion::Exact(version.major, version.minor)),
            Err(error) => Err(error),
        }
    } else {
        match component_of(text) {
            Ok(major) => Ok(RequestedVersion::MajorOnly(major)),
            Err(cause) => Err(Error::ParseVersionComponentError(cause)),
        }
    }
}

/// The version that a file name denotes. The name is `python` followed by an
/// exact version, and so at least as long as `python3.0`.
pub open spec fn version_of_file_name(name: Seq<char>) -> Result<ExactVersion, Error> {
    if name.len() >= "python3.0"@.len() && "python"@.is_prefix_of(name) {
        version_of_text(name.skip("python"@.len() as int))
    } else {
        Err(Error::PathFileNameError)
    }
}

/// The version that the file at `path` is named after.
pub open spec fn version_of_path(path: FilePath) -> Result<ExactVersion, Error> {
    match path.file_name {
        FileName::Missing => Err(Error::FileNameMissing),
        FileName::NotText => Err(Error::FileNameToStrError),
        FileName::Text(name) => version_of_file_name(name@),
    }
}

/// `i` is the place of the first `.` in `text`.
proof fn lemma_first_dot(text: Seq<char>, i: int)
    requires
        0 <= i < text.len(),
        text[i] == '.',
        forall|j: int| 0 <= j < i ==> text[j] != '.',
    ensures
        text.index_of_first('.') == Some(i),
{
    text.index_of_first_ensures('.');
}

/// There is no `.` in `text`.
proof fn lemma_no_dot(text: Seq<char>)
    requires
        forall|j: int| 0 <= j < text.len() ==> text[j] != '.',
    ensures
        text.index_of_first('.') is None,
        !text.contains('.'),
{
    text.index_of_first_ensures('.');
}

/// Reading what was written gives the version back: the text
/// `<major>.<minor>` of a version denotes that version.
pub proof fn version_text_round_trip(version: ExactVersion)
    ensures
        version_of_text(version.text()) == Ok::<ExactVersion, Error>(version),
{
    let major = decimal_digits(version.major as nat);
    let minor = decimal_digits(version.minor as nat);
    let text = version.text();
    let dot = major.len() as int;
    lemma_decimal_digits(version.major as nat);
    assert forall|j: int| 0 <= j < dot implies text[j] != '.' by {
        assert(is_digit(major[j]));
    }
    lemma_first_dot(text, dot);
    assert(text.take(dot) == major);
    assert(text.skip(dot + 1) == minor);
    lemma_component_of_decimal_digits(version.major);
    lemma_component_of_decimal_digits(version.minor);
}

/// What the three forms of a request denote: the empty text asks for any
/// version, the numeral of a major number for that major version, and the
/// text `<major>.<minor>` of a version for exactly that version.
pub proof fn request_text_forms(version: ExactVersion)
    ensures
        request_of_text(Seq::empty()) == Ok::<RequestedVersion, Error>(RequestedVersion::Any),
        request_of_text(decimal_digits(version.major as nat)) == Ok::<RequestedVersion, Error>(
            RequestedVersion::MajorOnly(version.major),
        ),
        request_of_text(version.text()) == Ok::<RequestedVersion, Error>(
            RequestedVersion::Exact(version.major, version.minor),
        ),
{
    let major = version.major;
    let numeral = decimal_digits(major as nat);
    lemma_decimal_digits(major as nat);
    assert forall|j: int| 0 <= j < numeral.len() implies numeral[j] != '.' by {
        assert(is_digit(numeral[j]));
    }
    lemma_no_dot(numeral);
    lemma_component_of_decimal_digits(major);

    let text = version.text();
    version_text_round_trip(version);
    assert(text[numeral.len() as int] == '.');
}

/// Finds the first `.` at or after `start`.
fn find_dot(chars: &Vec<char>, start: usize) -> (found: Option<usize>)
    requires
        start <= chars.len(),
    ensures
        found is Some <==> chars@.skip(start as int).contains('.'),
        found matches Some(dot) ==> start <= dot < chars.len() && chars@.skip(
            start as int,
        ).index_of_first('.') == Some(dot - start),
        found is None ==> chars@.skip(start as int).index_of_first('.') is None,
{
    let ghost text = chars@.skip(start as int);
    let mut i: usize = start;
    while i < chars.len()
        invariant
            start <= i <= chars.len(),
            text == chars@.skip(start as int),
            forall|j: int| 0 <= j < i - start ==> text[j] != '.',
        decreases chars.len() - i,
    {
        if chars[i] == '.' {
            proof {
                lemma_first_dot(text, i - start);
                text.index_of_first_ensures('.');
            }
            return Some(i);
        }
        i = i + 1;
    }
    proof {
        lemma_no_dot(text);
    }
    None
}

/// Reads the two components around the first `.`, which stands at `dot`.
fn version_around_dot(chars: &Vec<char>, start: usize, dot: usize) -> (parsed: Result<
    ExactVersion,
    Error,
>)
    requires
        start <= dot < chars.len(),
        chars@.skip(start as int).index_of_first('.') == Some(dot - start),
    ensures
        parsed == version_of_text(chars@.skip(start as int)),
{
    let ghost text = chars@.skip(start as int);
    assert(text.take(dot - start) == chars@.subrange(start as int, dot as int));
    assert(text.skip(dot - start + 1) == chars@.subrange(dot + 1, chars.len() as int));
    let major = match parse_component(chars, start, dot) {
        Ok(number) => number,
        Err(cause) => {
            return Err(Error::ParseVersionComponentError(cause));
        },
    };
    match parse_component(chars, dot + 1, chars.len()) {
        Ok(minor) => Ok(ExactVersion { major, minor }),
        Err(cause) => Err(Error::ParseVersionComponentError(cause)),
    }
}

/// Reads the characters of `chars` from `start` on as an exact version.
fn version_from_chars(chars: &Vec<char>, start: usize) -> (parsed: Result<ExactVersion, Error>)
    requires
        start <= chars.len(),
    ensures
        parsed == version_of_text(chars@.skip(start as int)),
{
    match find_dot(chars, start) {
        Some(dot) => version_around_dot(chars, start, dot),
        None => Err(Error::DotMissing),
    }
}

/// Whether `chars` starts with `prefix`.
fn starts_with(chars: &Vec<char>, prefix: &str) -> (found: bool)
    ensures
        found == prefix@.is_prefix_of(chars@),
{
    let wanted = chars_of(prefix);
    if wanted.len() > chars.len() {
        return false;
    }
    let mut i: usize = 0;
    while i < wanted.len()
        invariant
            i <= wanted@.len() <= chars@.len(),
            wanted@ == prefix@,
            forall|j: int| 0 <= j < i ==> wanted@[j] == chars@[j],
        decreases wanted@.len() - i,
    {
        if wanted[i] != chars[i] {
            assert(chars@.subrange(0, wanted@.len() as int)[i as int] == chars@[i as int]);
            return false;
        }
        i = i + 1;
    }
    assert(wanted@ =~= chars@.subrange(0, wanted@.len() as int));
    true
}

impl ExactVersion {
    /// How the version is written: `<major>.<minor>`.
    pub open spec fn text(self) -> Seq<char> {
        decimal_digits(self.major as nat) + seq!['.'] + decimal_digits(self.minor as nat)
    }

    /// Whether this version is the same as `other` or comes before it: the
    /// major numbers decide, and the minor numbers where those are equal.
    pub open spec fn is_at_most(self, other: ExactVersion) -> bool {
        self.major < other.major || (self.major == other.major && self.minor <= other.minor)
    }

    /// Whether an interpreter of this version satisfies `requested`.
    pub open spec fn spec_supports(&self, requested: RequestedVersion) -> bool {
        match requested {
            RequestedVersion::Any => true,
            RequestedVersion::MajorOnly(major) => self.major == major,
            RequestedVersion::Exact(major, minor) => self.major == major && self.minor == minor,
        }
    }

    /// Writes the version as `<major>.<minor>`.
    pub fn to_string(&self) -> (text: String)
        ensures
            text@ == self.text(),
    {
        let mut text = String::new();
        push_decimal(&mut text, self.major);
        proof {
            reveal_strlit(".");
        }
        text.append(".");
        push_decimal(&mut text, self.minor);
        text
    }

    /// Reads an exact version, `<major>.<minor>`.
    pub fn from_str(version_string: &str) -> (parsed: Result<ExactVersion, Error>)
        ensures
            parsed == version_of_text(version_string@),
    {
        let chars = chars_of(version_string);
        assert(chars@.skip(0) == chars@);
        version_from_chars(&chars, 0)
    }

    /// Reads the version that the file at `path` is named after.
    pub fn from_path(path: &FilePath) -> (parsed: Result<ExactVersion, Error>)
        ensures
            parsed == version_of_path(*path),
    {
        match &path.file_name {
            FileName::Missing => Err(Error::FileNameMissing),
            FileName::NotText => Err(Error::FileNameToStrError),
            FileName::Text(name) => {
                let chars = chars_of(name.as_str());
                if chars.len() >= "python3.0".unicode_len() && starts_with(&chars, "python") {
                    version_from_chars(&chars, "python".unicode_len())
                } else {
                    Err(Error::PathFileNameError)
                }
            },
        }
    }

    /// Whether an interpreter of this version satisfies `requested`.
    #[verifier::when_used_as_spec(spec_supports)]
    pub fn supports(&self, requested: RequestedVersion) -> (supported: bool)
        ensures
            supported == self.spec_supports(requested),
    {
        match requested {
            RequestedVersion::Any => true,
            RequestedVersion::MajorOnly(major) => self.major == major,
            RequestedVersion::Exact(major, minor) => self.major == major && self.minor == minor,
        }
    }
}

} // verus!

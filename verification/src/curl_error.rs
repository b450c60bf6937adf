//! Why a pasted cURL command was refused.
use vstd::prelude::*;
use vstd::string::*;

verus! {

/// Why a command could not become a request.
#[derive(Debug, PartialEq, Eq)]
pub enum CurlError {
    /// The command ends in a backslash that escapes nothing.
    TrailingBackslash,
    OpenSingleQuote,
    OpenDoubleQuote,
    OpenAnsiQuote,
    /// `\x` inside `$'…'` without a hex digit behind it.
    NoHexDigits,
    /// A `$'…'` string whose bytes are not text.
    NotUtf8,
    /// The first word is something other than `curl`.
    NotCurl(String),
    /// There is no word at all.
    NoCommand,
    NoUrl,
    TwoUrls(String, String),
    UnsupportedFlag(String),
    MissingValue(String),
    MalformedHeader(String),
    /// A data flag that names a file.
    FileData(String, String),
    /// `--data-urlencode` that names a file.
    FileUrlencode(String),
    MissingPassword(String),
    CookieFile(String, String),
}

/// The same, over text.
pub enum Fault {
    TrailingBackslash,
    OpenSingleQuote,
    OpenDoubleQuote,
    OpenAnsiQuote,
    NoHexDigits,
    NotUtf8,
    NotCurl(Seq<char>),
    NoCommand,
    NoUrl,
    TwoUrls(Seq<char>, Seq<char>),
    UnsupportedFlag(Seq<char>),
    MissingValue(Seq<char>),
    MalformedHeader(Seq<char>),
    FileData(Seq<char>, Seq<char>),
    FileUrlencode(Seq<char>),
    MissingPassword(Seq<char>),
    CookieFile(Seq<char>, Seq<char>),
}

impl View for CurlError {
    type V = Fault;

    open spec fn view(&self) -> Fault {
        match self {
            CurlError::TrailingBackslash => Fault::TrailingBackslash,
            CurlError::OpenSingleQuote => Fault::OpenSingleQuote,
            CurlError::OpenDoubleQuote => Fault::OpenDoubleQuote,
            CurlError::OpenAnsiQuote => Fault::OpenAnsiQuote,
            CurlError::NoHexDigits => Fault::NoHexDigits,
            CurlError::NotUtf8 => Fault::NotUtf8,
            CurlError::NotCurl(a) => Fault::NotCurl(a@),
            CurlError::NoCommand => Fault::NoCommand,
            CurlError::NoUrl => Fault::NoUrl,
            CurlError::TwoUrls(a, b) => Fault::TwoUrls(a@, b@),
            CurlError::UnsupportedFlag(a) => Fault::UnsupportedFlag(a@),
            CurlError::MissingValue(a) => Fault::MissingValue(a@),
            CurlError::MalformedHeader(a) => Fault::MalformedHeader(a@),
            CurlError::FileData(a, b) => Fault::FileData(a@, b@),
            CurlError::FileUrlencode(a) => Fault::FileUrlencode(a@),
            CurlError::MissingPassword(a) => Fault::MissingPassword(a@),
            CurlError::CookieFile(a, b) => Fault::CookieFile(a@, b@),
        }
    }
}

/// The sentence that reports a fault.
pub open spec fn fault_text(f: Fault) -> Seq<char> {
    match f {
        Fault::TrailingBackslash => "command ends with a trailing backslash"@,
        Fault::OpenSingleQuote => "unterminated single quote"@,
        Fault::OpenDoubleQuote => "unterminated double quote"@,
        Fault::OpenAnsiQuote => "unterminated $'…' string"@,
        Fault::NoHexDigits => "`\\x` with no hex digits in a $'…' string"@,
        Fault::NotUtf8 =>
            "$'…' string is not valid UTF-8 and cannot be stored in a config"@,
        Fault::NotCurl(first) => "not a curl command (starts with `"@ + first + "`)"@,
        Fault::NoCommand => "no command to parse"@,
        Fault::NoUrl => "no URL found in the command"@,
        Fault::TwoUrls(a, b) => "more than one URL in the command (`"@ + a + "` and `"@ + b
            + "`); a config holds one"@,
        Fault::UnsupportedFlag(flag) => "unsupported curl flag: "@ + flag,
        Fault::MissingValue(flag) => "`"@ + flag + "` expects a value"@,
        Fault::MalformedHeader(raw) => "malformed header `"@ + raw
            + "` (expected `Name: value`)"@,
        Fault::FileData(flag, file) => "`"@ + flag + " @"@ + file
            + "` reads a file; inline the data instead"@,
        Fault::FileUrlencode(flag) => "`"@ + flag
            + "` with an `@file` reference is not supported; inline the data instead"@,
        Fault::MissingPassword(flag) => "`"@ + flag
            + "` needs `user:password`; curl prompts for a missing password, which a parser cannot do"@,
        Fault::CookieFile(flag, raw) => "`"@ + flag + " "@ + raw
            + "` reads a cookie file; inline the cookies instead"@,
    }
}

fn framed(before: &str, middle: &str, after: &str) -> (r: String)
    ensures
        r@ == before@ + middle@ + after@,
{
    let mut r = before.to_owned();
    r.append(middle);
    r.append(after);
    r
}

impl CurlError {
    /// The sentence that reports this error.
    pub fn message(&self) -> (r: String)
        ensures
            r@ == fault_text(self@),
    {
        match self {
            CurlError::TrailingBackslash => "command ends with a trailing backslash".to_owned(),
            CurlError::OpenSingleQuote => "unterminated single quote".to_owned(),
            CurlError::OpenDoubleQuote => "unterminated double quote".to_owned(),
            CurlError::OpenAnsiQuote => "unterminated $'…' string".to_owned(),
            CurlError::NoHexDigits => "`\\x` with no hex digits in a $'…' string".to_owned(),
            CurlError::NotUtf8 =>
                "$'…' string is not valid UTF-8 and cannot be stored in a config".to_owned(),
            CurlError::NotCurl(first) => framed(
                "not a curl command (starts with `",
                first.as_str(),
                "`)",
            ),
            CurlError::NoCommand => "no command to parse".to_owned(),
            CurlError::NoUrl => "no URL found in the command".to_owned(),
            CurlError::TwoUrls(a, b) => {
                let mut r = framed("more than one URL in the command (`", a.as_str(), "` and `");
                r.append(b.as_str());
                r.append("`); a config holds one");
                r
            },
            CurlError::UnsupportedFlag(flag) => {
                let mut r = "unsupported curl flag: ".to_owned();
                r.append(flag.as_str());
                r
            },
            CurlError::MissingValue(flag) => framed("`", flag.as_str(), "` expects a value"),
            CurlError::MalformedHeader(raw) => framed(
                "malformed header `",
                raw.as_str(),
                "` (expected `Name: value`)",
            ),
            CurlError::FileData(flag, file) => {
                let mut r = framed("`", flag.as_str(), " @");
                r.append(file.as_str());
                r.append("` reads a file; inline the data instead");
                r
            },
            CurlError::FileUrlencode(flag) => framed(
                "`",
                flag.as_str(),
                "` with an `@file` reference is not supported; inline the data instead",
            ),
            CurlError::MissingPassword(flag) => framed(
                "`",
                flag.as_str(),
                "` needs `user:password`; curl prompts for a missing password, which a parser cannot do",
            ),
            CurlError::CookieFile(flag, raw) => {
                let mut r = framed("`", flag.as_str(), " ");
                r.append(raw.as_str());
                r.append("` reads a cookie file; inline the cookies instead");
                r
            },
        }
    }
}

} // verus!

//! What the fetcher computes around its requests: the addresses it asks,
//! the authorization it sends, and the text of the files it gets.

use crate::text::{append_str, chars_eq, from_chars, to_chars};
use base64::Engine;
use vstd::prelude::*;
use vstd::utf8::{decode_utf8, valid_utf8};

verus! {

/// Why text is no Base64.
#[verifier::external_type_specification]
#[verifier::external_body]
pub struct ExDecodeError(base64::DecodeError);

/// Why bytes are no UTF-8 text.
#[verifier::external_type_specification]
#[verifier::external_body]
pub struct ExFromUtf8Error(std::string::FromUtf8Error);

/// Why the content of a file could not be read, with what the decoder
/// said.
#[derive(Debug, PartialEq, Eq)]
pub enum ContentError {
    /// The content is said to be Base64 and is not.
    NotBase64(base64::DecodeError),
    /// The decoded content is no UTF-8 text.
    NotUtf8(std::string::FromUtf8Error),
}

/// The kind of failure in reading the content of a file.
#[derive(Debug, Clone, Copy, PartialEq, Eq, Structural)]
pub enum ContentFault {
    /// The content is said to be Base64 and is not.
    NotBase64,
    /// The decoded content is no UTF-8 text.
    NotUtf8,
}

impl ContentError {
    /// The kind of the failure.
    pub open spec fn fault(&self) -> ContentFault {
        match self {
            ContentError::NotBase64(_) => ContentFault::NotBase64,
            ContentError::NotUtf8(_) => ContentFault::NotUtf8,
        }
    }
}

/// The address of a file's content in the hosting service's API, on the
/// default branch or on the branch named.
pub open spec fn contents_url(
    org: Seq<char>,
    repo: Seq<char>,
    path: Seq<char>,
    branch: Option<Seq<char>>,
) -> Seq<char> {
    let base = "https://api.github.com/repos/"@ + org + seq!['/'] + repo + "/contents/"@ + path;
    match branch {
        Some(b) => base + "?ref="@ + b,
        None => base,
    }
}

/// View of a text that may be missing.
pub open spec fn branch_view(branch: Option<&str>) -> Option<Seq<char>> {
    match branch {
        Some(b) => Some(b@),
        None => None,
    }
}

/// The address from which the content of a file is fetched.
pub fn build_contents_url(org: &str, repo: &str, path: &str, branch: Option<&str>) -> (r: String)
    ensures
        r@ == contents_url(org@, repo@, path@, branch_view(branch)),
{
    let mut url = to_chars("https://api.github.com/repos/");
    append_str(&mut url, org);
    url.push('/');
    append_str(&mut url, repo);
    append_str(&mut url, "/contents/");
    append_str(&mut url, path);
    match branch {
        Some(b) => {
            append_str(&mut url, "?ref=");
            append_str(&mut url, b);
        },
        None => {},
    }
    from_chars(&url)
}

/// The value of the authorization header for a token.
pub fn bearer(token: &str) -> (r: String)
    ensures
        r@ == "Bearer "@ + token@,
{
    let mut value = to_chars("Bearer ");
    append_str(&mut value, token);
    from_chars(&value)
}

/// The bytes that a Base64 text in the standard alphabet, with padding,
/// stands for; `None` where the text is no such Base64.
pub uninterp spec fn base64_decoded(text: Seq<char>) -> Option<Seq<u8>>;

/// `base64::prelude::BASE64_STANDARD.decode`: the bytes that the text
/// stands for, or the reason why it is no Base64. The text alone decides.
#[verifier::external_body]
fn base64_decode(text: &str) -> (r: Result<Vec<u8>, base64::DecodeError>)
    ensures
        match r {
            Ok(bytes) => base64_decoded(text@) == Some(bytes@),
            Err(_) => base64_decoded(text@) is None,
        },
{
    base64::prelude::BASE64_STANDARD.decode(text)
}

/// `String::from_utf8`: the text that the bytes encode, where they are
/// valid UTF-8, and else the reason why they are not.
#[verifier::external_body]
fn string_from_utf8(bytes: Vec<u8>) -> (r: Result<String, std::string::FromUtf8Error>)
    ensures
        match r {
            Ok(s) => valid_utf8(bytes@) && s@ == decode_utf8(bytes@),
            Err(_) => !valid_utf8(bytes@),
        },
{
    String::from_utf8(bytes)
}

/// The first `n` characters of `s` without the line breaks among them.
pub open spec fn without_newlines(s: Seq<char>, n: int) -> Seq<char>
    decreases n,
{
    if n <= 0 || n > s.len() {
        Seq::empty()
    } else if s[n - 1] == '\n' {
        without_newlines(s, n - 1)
    } else {
        without_newlines(s, n - 1).push(s[n - 1])
    }
}

/// The text of a file from the content and the encoding that the API
/// gives. Content in Base64 is decoded, its line breaks taken out first,
/// and must hold UTF-8 text; content in any other encoding is the text.
pub open spec fn file_text(content: Seq<char>, encoding: Seq<char>) -> Result<
    Seq<char>,
    ContentFault,
> {
    if encoding == "base64"@ {
        match base64_decoded(without_newlines(content, content.len() as int)) {
            Some(bytes) => if valid_utf8(bytes) {
                Ok(decode_utf8(bytes))
            } else {
                Err(ContentFault::NotUtf8)
            },
            None => Err(ContentFault::NotBase64),
        }
    } else {
        Ok(content)
    }
}

/// View of a text or an error: the text, or the kind of the failure.
pub open spec fn text_result_view(r: Result<String, ContentError>) -> Result<
    Seq<char>,
    ContentFault,
> {
    match r {
        Ok(s) => Ok(s@),
        Err(e) => Err(e.fault()),
    }
}

/// Decode the content of a file as the API hands it out.
pub fn decode_content(content: &str, encoding: &str) -> (r: Result<String, ContentError>)
    ensures
        text_result_view(r) == file_text(content@, encoding@),
{
    if !chars_eq(&to_chars(encoding), &to_chars("base64")) {
        return Ok(from_chars(&to_chars(content)));
    }
    let chars = to_chars(content);
    let mut joined: Vec<char> = Vec::new();
    let mut i: usize = 0;
    while i < chars.len()
        invariant
            i <= chars.len(),
            joined@ == without_newlines(chars@, i as int),
        decreases chars.len() - i,
    {
        if chars[i] != '\n' {
            joined.push(chars[i]);
        }
        i += 1;
    }
    match base64_decode(from_chars(&joined).as_str()) {
        Ok(bytes) => match string_from_utf8(bytes) {
            Ok(text) => Ok(text),
            Err(e) => Err(ContentError::NotUtf8(e)),
        },
        Err(e) => Err(ContentError::NotBase64(e)),
    }
}

/// The token that a command printed: its output trimmed, unless that is
/// empty.
pub open spec fn printed_token(output: Seq<char>) -> Option<Seq<char>> {
    if crate::text::trim(output).len() > 0 {
        Some(crate::text::trim(output))
    } else {
        None
    }
}

/// The token in the output of the command that prints it.
pub fn token_from_output(output: &str) -> (r: Option<String>)
    ensures
        crate::models::text_view(r) == printed_token(output@),
{
    let trimmed = crate::text::trim_exec(&to_chars(output));
    if trimmed.len() > 0 {
        Some(from_chars(&trimmed))
    } else {
        None
    }
}

} // verus!

//! The list of sources: a text with one absolute URL on each line.
//!
//! The list is read as a whole or not at all: one line that is no URL, a
//! blank line included, and there is no list.

use vstd::prelude::*;
use crate::lines::{trimmed_lines, trimmed_lines_of};
use crate::model::texts_view;

verus! {

/// Why there is no list of sources.
#[derive(Debug, PartialEq, Eq)]
pub enum ConfigError {
    /// The text of the list could not be had.
    Unreadable,
    /// Line `line` of the list, counted from zero, is no absolute URL;
    /// `text` is that line without the whitespace around it.
    InvalidUrl { line: usize, text: String },
}

/// The error type of the URL parser, `url::ParseError`.
#[verifier::external_type_specification]
#[verifier::external_body]
pub struct ExUrlParseError(url::ParseError);

/// What `Url::parse` makes of a text: the serialisation of the URL that it
/// found, or `None` where it found no absolute URL.
pub uninterp spec fn parsed_url(text: Seq<char>) -> Option<Seq<char>>;

/// Calls `reqwest::Url::parse`, which is `url::Url::parse`, and turns the
/// URL into its serialisation with `String::from`. The result is named by
/// `parsed_url`. One fact is stated of it: the empty text is no URL, since
/// the parser finds no scheme in it and has no base to resolve it against.
#[verifier::external_body]
fn parse_url(text: &str) -> (r: Result<String, url::ParseError>)
    ensures
        match r {
            Ok(url) => parsed_url(text@) == Some(url@),
            Err(_) => parsed_url(text@) is None,
        },
        text@.len() == 0 ==> r is Err,
{
    reqwest::Url::parse(text).map(String::from)
}

/// Line `line` is the first of `lines` that is no URL.
pub open spec fn is_first_invalid(lines: Seq<Seq<char>>, line: int) -> bool {
    &&& 0 <= line < lines.len()
    &&& parsed_url(lines[line]) is None
    &&& forall|k: int| 0 <= k < line ==> parsed_url(#[trigger] lines[k]) is Some
}

/// `urls` holds, line by line, the URL of each of `lines`.
pub open spec fn are_urls_of(urls: Seq<Seq<char>>, lines: Seq<Seq<char>>) -> bool {
    &&& urls.len() == lines.len()
    &&& forall|k: int| 0 <= k < lines.len() ==> parsed_url(#[trigger] lines[k]) == Some(urls[k])
}

/// Takes in what the parser made of one line: its URL goes behind the URLs
/// gathered so far, and a line that is no URL ends the reading with an error
/// that names the line.
pub fn accept_line(urls: Vec<String>, line: usize, text: String, parsed: Option<String>) -> (r:
    Result<Vec<String>, ConfigError>)
    ensures
        match parsed {
            Some(url) => r matches Ok(next) && next@ == urls@.push(url),
            None => r == Err::<Vec<String>, ConfigError>((ConfigError::InvalidUrl { line, text })),
        },
{
    match parsed {
        Some(url) => {
            let mut next = urls;
            next.push(url);
            Ok(next)
        },
        None => Err(ConfigError::InvalidUrl { line, text }),
    }
}

/// Reads a list of sources from its text. Every line, trimmed, must be an
/// absolute URL: then the URLs come back in the order of the lines, repeated
/// ones included. Else the first line that is no URL is the error, and no
/// URL comes back. A blank line is no URL.
pub fn parse_feed_url_list(text: &str) -> (r: Result<Vec<String>, ConfigError>)
    ensures
        match r {
            Ok(urls) => are_urls_of(texts_view(urls@), trimmed_lines_of(text@)),
            Err(error) => error matches ConfigError::InvalidUrl { line, text: found }
                && is_first_invalid(trimmed_lines_of(text@), line as int) && found@
                == trimmed_lines_of(text@)[line as int],
        },
        (exists|k: int|
            0 <= k < trimmed_lines_of(text@).len() && (#[trigger] trimmed_lines_of(text@)[k]).len()
                == 0) ==> r is Err,
{
    let lines = trimmed_lines(text);
    let ghost wanted = trimmed_lines_of(text@);
    let mut urls: Vec<String> = Vec::new();
    let mut i: usize = 0;
    while i < lines.len()
        invariant
            i <= lines.len(),
            wanted == texts_view(lines@),
            wanted == trimmed_lines_of(text@),
            urls@.len() == i,
            forall|k: int| 0 <= k < i ==> parsed_url(#[trigger] wanted[k]) == Some(urls@[k]@),
            forall|k: int| 0 <= k < i ==> (#[trigger] wanted[k]).len() > 0,
        decreases lines.len() - i,
    {
        let line = lines[i].clone();
        assert(line@ == wanted[i as int]);
        let parsed = match parse_url(line.as_str()) {
            Ok(url) => Some(url),
            Err(_) => None,
        };
        match accept_line(urls, i, line, parsed) {
            Ok(next) => {
                urls = next;
            },
            Err(error) => {
                return Err(error);
            },
        }
        i += 1;
    }
    proof {
        assert(texts_view(urls@).len() == wanted.len());
        assert forall|k: int| 0 <= k < wanted.len() implies parsed_url(#[trigger] wanted[k])
            == Some(texts_view(urls@)[k]) by {}
    }
    Ok(urls)
}

/// Reads the list of sources from what the configuration gave: the text of
/// the list, or nothing where the list could not be had. Without a text
/// there is no list; with one, the list is what `parse_feed_url_list` reads,
/// so that a blank line fails it here too.
pub fn read_feed_url_list(content: Option<&str>) -> (r: Result<Vec<String>, ConfigError>)
    ensures
        match content {
            None => r == Err::<Vec<String>, ConfigError>(ConfigError::Unreadable),
            Some(text) => match r {
                Ok(urls) => are_urls_of(texts_view(urls@), trimmed_lines_of(text@)),
                Err(error) => error matches ConfigError::InvalidUrl { line, text: found }
                    && is_first_invalid(trimmed_lines_of(text@), line as int) && found@
                    == trimmed_lines_of(text@)[line as int],
            },
        },
        content matches Some(text) && (exists|k: int|
            0 <= k < trimmed_lines_of(text@).len() && (#[trigger] trimmed_lines_of(text@)[k]).len()
                == 0) ==> r is Err,
{
    match content {
        None => Err(ConfigError::Unreadable),
        Some(text) => parse_feed_url_list(text),
    }
}

} // verus!

//! Turning the answer of the feed parser into a feed.
//!
//! A body is parsed by the `feed_rs` crate, on the caller's side. The
//! document that the parser returns is taken apart here into the plain values
//! that the rest of the crate works on: nothing is dropped and nothing is
//! rewritten on the way.

use vstd::prelude::*;
use feed_rs::model::Feed as Document;
use feed_rs::parser::ParseFeedError;
use crate::model::{entries_view, image_view, text_view, Entry, Feed, FeedView, Image};
use crate::time::Timestamp;

verus! {

/// The document type of `feed_rs`, `feed_rs::model::Feed`: a value that is
/// carried through, and read only by the functions of this file.
#[verifier::external_type_specification]
#[verifier::external_body]
pub struct ExDocument(Document);

/// The error type of the `feed_rs` parser, `feed_rs::parser::ParseFeedError`.
#[verifier::external_type_specification]
#[verifier::external_body]
pub struct ExParseFeedError(ParseFeedError);

/// What a parsed document holds of the things that this crate reads: the
/// identity, the title's text, of icon and logo the address and the address
/// of the link, and of each entry, in the order of the document, the
/// identity, the title's text, the links' addresses, the `updated` instant
/// and the content's body.
pub uninterp spec fn document_contents(document: Document) -> FeedView;

/// Reads the fields `id`, `title`, `icon` and `logo` of a document into a
/// feed without entries; of an image it reads `uri` and the `href` of
/// `link`. The claim: these four are the ones that `document_contents` names.
#[verifier::external_body]
fn document_head(document: &Document) -> (head: Feed)
    ensures
        head.id@ == document_contents(*document).id,
        text_view(head.title) == document_contents(*document).title,
        image_view(head.icon) == document_contents(*document).icon,
        image_view(head.logo) == document_contents(*document).logo,
        head.entries@.len() == 0,
{
    Feed {
        id: document.id.clone(),
        title: document.title.as_ref().map(|t| t.content.clone()),
        icon: document.icon.as_ref().map(|i| Image { uri: i.uri.clone(), link: i.link.as_ref().map(|l| l.href.clone()) }),
        logo: document.logo.as_ref().map(|i| Image { uri: i.uri.clone(), link: i.link.as_ref().map(|l| l.href.clone()) }),
        entries: Vec::new(),
    }
}

/// The length of the field `entries` of a document. The claim: it is the
/// number of entries that `document_contents` names.
#[verifier::external_body]
fn document_entry_count(document: &Document) -> (n: usize)
    ensures
        n == document_contents(*document).entries.len(),
{
    document.entries.len()
}

/// Reads entry `i` of a document: its fields `id`, `title`, `links`,
/// `updated` and `content`, the instant taken apart with chrono's
/// `DateTime::timestamp` and `DateTime::timestamp_subsec_nanos`. The claim:
/// this is entry `i` of what `document_contents` names.
#[verifier::external_body]
fn document_entry(document: &Document, i: usize) -> (entry: Entry)
    requires
        i < document_contents(*document).entries.len(),
    ensures
        entry@ == document_contents(*document).entries[i as int],
{
    let e = &document.entries[i];
    Entry {
        id: e.id.clone(),
        title: e.title.as_ref().map(|t| t.content.clone()),
        links: e.links.iter().map(|l| l.href.clone()).collect(),
        updated: e.updated.map(|u| Timestamp { seconds: u.timestamp(), nanos: u.timestamp_subsec_nanos() }),
        content: e.content.as_ref().and_then(|c| c.body.clone()),
    }
}

/// The feed that a parsed document describes: its identity, title and images
/// as the document gives them, and every entry of the document, in the
/// document's order.
pub fn feed_of_document(document: &Document) -> (feed: Feed)
    ensures
        feed@ == document_contents(*document),
        feed.entries@.len() == document_contents(*document).entries.len(),
{
    let head = document_head(document);
    let count = document_entry_count(document);
    let mut entries: Vec<Entry> = Vec::new();
    let mut i: usize = 0;
    while i < count
        invariant
            i <= count,
            count == document_contents(*document).entries.len(),
            entries@.len() == i,
            forall|k: int| 0 <= k < i ==> entries@[k]@ == document_contents(*document).entries[k],
        decreases count - i,
    {
        entries.push(document_entry(document, i));
        i += 1;
    }
    let feed = Feed { id: head.id, title: head.title, icon: head.icon, logo: head.logo, entries };
    assert(entries_view(feed.entries@) =~= document_contents(*document).entries);
    feed
}

/// What becomes of an answer of the parser: a document becomes its feed,
/// with everything that the document holds, and an error becomes `None`.
pub fn feed_of_parse(outcome: Result<Document, ParseFeedError>) -> (parsed: Option<Feed>)
    ensures
        match outcome {
            Ok(document) => parsed matches Some(feed) && feed@ == document_contents(document),
            Err(_) => parsed is None,
        },
{
    match outcome {
        Ok(document) => Some(feed_of_document(&document)),
        Err(_) => None,
    }
}

} // verus!

//! Feeds and their entries, as plain values.

use vstd::prelude::*;
use crate::time::Timestamp;

verus! {

/// The characters of an optional text.
pub open spec fn text_view(text: Option<String>) -> Option<Seq<char>> {
    match text {
        Some(t) => Some(t@),
        None => None,
    }
}

/// The characters of each text of a list, in order.
pub open spec fn texts_view(texts: Seq<String>) -> Seq<Seq<char>> {
    texts.map_values(|t: String| t@)
}

/// What an entry holds.
pub struct EntryView {
    pub id: Seq<char>,
    pub title: Option<Seq<char>>,
    pub links: Seq<Seq<char>>,
    pub updated: Option<Timestamp>,
    pub content: Option<Seq<char>>,
}

/// One item of a feed. An entry without an `updated` instant is never part
/// of a window query's answer.
#[derive(Debug, PartialEq, Eq)]
pub struct Entry {
    pub id: String,
    pub title: Option<String>,
    pub links: Vec<String>,
    pub updated: Option<Timestamp>,
    pub content: Option<String>,
}

impl View for Entry {
    type V = EntryView;

    open spec fn view(&self) -> EntryView {
        EntryView {
            id: self.id@,
            title: text_view(self.title),
            links: texts_view(self.links@),
            updated: self.updated,
            content: text_view(self.content),
        }
    }
}

/// What each entry of a list holds, in order.
pub open spec fn entries_view(entries: Seq<Entry>) -> Seq<EntryView> {
    entries.map_values(|e: Entry| e@)
}

/// What an image holds.
pub struct ImageView {
    pub uri: Seq<char>,
    pub link: Option<Seq<char>>,
}

/// An image that stands for a feed: the address of the picture, and the
/// address that the picture leads to, if it leads anywhere.
#[derive(Debug, PartialEq, Eq)]
pub struct Image {
    pub uri: String,
    pub link: Option<String>,
}

impl View for Image {
    type V = ImageView;

    open spec fn view(&self) -> ImageView {
        ImageView { uri: self.uri@, link: text_view(self.link) }
    }
}

/// What an optional image holds.
pub open spec fn image_view(image: Option<Image>) -> Option<ImageView> {
    match image {
        Some(i) => Some(i@),
        None => None,
    }
}

/// What a feed holds.
pub struct FeedView {
    pub id: Seq<char>,
    pub title: Option<Seq<char>>,
    pub icon: Option<ImageView>,
    pub logo: Option<ImageView>,
    pub entries: Seq<EntryView>,
}

/// One ingested source: the identity it reports of itself, its title and
/// images, and its entries in the order in which they were delivered.
#[derive(Debug, PartialEq, Eq)]
pub struct Feed {
    pub id: String,
    pub title: Option<String>,
    pub icon: Option<Image>,
    pub logo: Option<Image>,
    pub entries: Vec<Entry>,
}

impl View for Feed {
    type V = FeedView;

    open spec fn view(&self) -> FeedView {
        FeedView {
            id: self.id@,
            title: text_view(self.title),
            icon: image_view(self.icon),
            logo: image_view(self.logo),
            entries: entries_view(self.entries@),
        }
    }
}

/// Copies an optional text.
pub fn copy_text(text: &Option<String>) -> (r: Option<String>)
    ensures
        text_view(r) == text_view(*text),
{
    match text {
        Some(t) => Some(t.clone()),
        None => None,
    }
}

/// Copies a list of texts.
pub fn copy_texts(texts: &Vec<String>) -> (r: Vec<String>)
    ensures
        texts_view(r@) == texts_view(texts@),
{
    let mut r: Vec<String> = Vec::new();
    let mut i: usize = 0;
    while i < texts.len()
        invariant
            i <= texts.len(),
            r.len() == i,
            forall|k: int| 0 <= k < i ==> r[k]@ == texts[k]@,
        decreases texts.len() - i,
    {
        r.push(texts[i].clone());
        i += 1;
    }
    assert(texts_view(r@) =~= texts_view(texts@));
    r
}

impl Clone for Entry {
    fn clone(&self) -> (r: Entry)
        ensures
            r@ == self@,
    {
        Entry {
            id: self.id.clone(),
            title: copy_text(&self.title),
            links: copy_texts(&self.links),
            updated: self.updated,
            content: copy_text(&self.content),
        }
    }
}

/// Copies a list of entries.
pub fn copy_entries(entries: &Vec<Entry>) -> (r: Vec<Entry>)
    ensures
        entries_view(r@) == entries_view(entries@),
{
    let mut r: Vec<Entry> = Vec::new();
    let mut i: usize = 0;
    while i < entries.len()
        invariant
            i <= entries.len(),
            r.len() == i,
            forall|k: int| 0 <= k < i ==> r[k]@ == entries[k]@,
        decreases entries.len() - i,
    {
        r.push(entries[i].clone());
        i += 1;
    }
    assert(entries_view(r@) =~= entries_view(entries@));
    r
}

impl Clone for Image {
    fn clone(&self) -> (r: Image)
        ensures
            r@ == self@,
    {
        Image { uri: self.uri.clone(), link: copy_text(&self.link) }
    }
}

/// Copies an optional image.
pub fn copy_image(image: &Option<Image>) -> (r: Option<Image>)
    ensures
        image_view(r) == image_view(*image),
{
    match image {
        Some(i) => Some(i.clone()),
        None => None,
    }
}

impl Clone for Feed {
    fn clone(&self) -> (r: Feed)
        ensures
            r@ == self@,
    {
        Feed {
            id: self.id.clone(),
            title: copy_text(&self.title),
            icon: copy_image(&self.icon),
            logo: copy_image(&self.logo),
            entries: copy_entries(&self.entries),
        }
    }
}

impl Entry {
    /// The address of the first link of the entry, if it has a link.
    pub fn first_link(&self) -> (r: Option<&String>)
        ensures
            match r {
                Some(link) => self.links@.len() > 0 && *link == self.links@[0],
                None => self.links@.len() == 0,
            },
    {
        if self.links.len() > 0 {
            Some(&self.links[0])
        } else {
            None
        }
    }
}

impl Feed {
    /// The image that stands for the feed: its icon, or its logo where it
    /// has no icon.
    pub fn image(&self) -> (r: Option<&Image>)
        ensures
            match r {
                Some(image) => match self.icon {
                    Some(icon) => *image == icon,
                    None => self.logo == Some(*image),
                },
                None => self.icon is None && self.logo is None,
            },
    {
        match &self.icon {
            Some(icon) => Some(icon),
            None => match &self.logo {
                Some(logo) => Some(logo),
                None => None,
            },
        }
    }
}

} // verus!

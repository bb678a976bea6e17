//! Posts as they come from the store.

use crate::date::Date;
use crate::error::QueryError;
use crate::maybe::Maybe;
use crate::post_cursor::PostCursor;
use vstd::prelude::*;
use vstd::string::StringExecFns;

verus! {

/// One entry of the images that are stored with a post.
#[derive(Clone, Debug, PartialEq, Eq)]
pub enum StoredImage {
    /// The name of an image file.
    Name(String),
    /// Anything that is not text.
    NotText,
}

/// What the images column of a post holds.
#[derive(Clone, Debug, PartialEq, Eq)]
pub enum StoredImages {
    /// A list; its entries in order.
    Array(Vec<StoredImage>),
    /// An object; its values in the order of their keys.
    Object(Vec<StoredImage>),
    /// Neither a list nor an object.
    Other,
}

/// A post, with those of its columns that the query selected.
#[derive(Clone, Debug, PartialEq, Eq)]
pub struct Post {
    pub id: Maybe<u32>,
    pub title: Maybe<String>,
    pub color: Maybe<String>,
    pub description: Maybe<Option<String>>,
    pub content: Maybe<String>,
    pub index_image: Maybe<String>,
    pub author_id: Maybe<u32>,
    pub images: Maybe<StoredImages>,
    pub date: Maybe<Date>,
}

impl Post {
    /// Where the post stands among the posts: its date and id, where the
    /// post has both.
    pub open spec fn position(self) -> Option<PostCursor> {
        match (self.date.option, self.id.option) {
            (Some(date), Some(id)) => Some(PostCursor { date, id }),
            _ => None,
        }
    }

    /// Where the post stands among the posts.
    pub fn cursor(&self) -> (cursor: Option<PostCursor>)
        ensures
            cursor == self.position(),
    {
        match (self.date.option, self.id.option) {
            (Some(date), Some(id)) => Some(PostCursor::new(date, id)),
            _ => None,
        }
    }
}

/// Where the images of posts are served from.
pub const POSTS_IMAGES: &'static str =
    "https://backend.microshift.verseghy-gimnazium.net/storage/posts_images/";

/// The address of the file `name` in `folder`.
pub fn url_in(folder: &str, name: &str) -> (url: String)
    ensures
        url@ == folder@ + name@,
{
    let mut url = String::from_str(folder);
    url.append(name);
    url
}

/// The texts of a sequence of strings.
pub open spec fn texts(strings: Seq<String>) -> Seq<Seq<char>> {
    Seq::new(strings.len(), |i: int| strings[i]@)
}

/// The addresses of the images among `entries`: one for each entry that is
/// a name, in the order of the entries.
pub open spec fn image_urls(entries: Seq<StoredImage>) -> Seq<Seq<char>>
    decreases entries.len(),
{
    if entries.len() == 0 {
        Seq::empty()
    } else {
        let front = image_urls(entries.drop_last());
        match entries.last() {
            StoredImage::Name(name) => front.push(POSTS_IMAGES@ + name@),
            StoredImage::NotText => front,
        }
    }
}

/// The addresses of the images among `entries`.
fn urls_of(entries: &Vec<StoredImage>) -> (urls: Vec<String>)
    ensures
        texts(urls@) == image_urls(entries@),
{
    let mut urls: Vec<String> = Vec::new();
    let mut i: usize = 0;
    assert(texts(urls@) =~= image_urls(entries@.take(0)));
    while i < entries.len()
        invariant
            i <= entries.len(),
            texts(urls@) == image_urls(entries@.take(i as int)),
        decreases entries.len() - i,
    {
        let ghost before = urls@;
        proof {
            assert(entries@.take(i + 1).drop_last() =~= entries@.take(i as int));
        }
        match &entries[i] {
            StoredImage::Name(name) => {
                let url = url_in(POSTS_IMAGES, name.as_str());
                urls.push(url);
                assert(texts(urls@) =~= texts(before).push(POSTS_IMAGES@ + name@));
            },
            StoredImage::NotText => {},
        }
        i = i + 1;
    }
    assert(entries@.take(entries.len() as int) =~= entries@);
    urls
}

impl Post {
    /// The address of the index image of the post.
    ///
    /// `NoIndexImage` where the post has none.
    pub fn index_image(&self) -> (url: Result<String, QueryError>)
        ensures
            self.index_image.option is None ==> url == Err::<String, QueryError>(
                QueryError::NoIndexImage,
            ),
            self.index_image.option matches Some(name) ==> (url matches Ok(url) && url@
                == POSTS_IMAGES@ + name@),
    {
        match &self.index_image.option {
            Some(name) => Ok(url_in(POSTS_IMAGES, name.as_str())),
            None => Err(QueryError::NoIndexImage),
        }
    }

    /// The addresses of the images of the post: one for each name that the
    /// stored list, or the stored object, holds.
    ///
    /// `InvalidData` where what is stored is neither a list nor an object,
    /// or was not selected.
    pub fn images(&self) -> (urls: Result<Vec<String>, QueryError>)
        ensures
            match self.images.option {
                Some(StoredImages::Array(entries)) | Some(StoredImages::Object(entries)) => (urls matches Ok(
                    urls,
                ) && texts(urls@) == image_urls(entries@)),
                _ => urls == Err::<Vec<String>, QueryError>(QueryError::InvalidData),
            },
    {
        match &self.images.option {
            Some(StoredImages::Array(entries)) => Ok(urls_of(entries)),
            Some(StoredImages::Object(entries)) => Ok(urls_of(entries)),
            _ => Err(QueryError::InvalidData),
        }
    }
}

} // verus!

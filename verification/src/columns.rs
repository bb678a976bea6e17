//! Which columns of a post a query has to read.
//!
//! A caller names the fields that it wants of each post.  A field that is
//! a column is read as that column; the author of a post is found by the
//! column of the author's id, and its labels by its own id.  Fields that are
//! nothing of the kind are passed over.

use crate::text::same_text;
use vstd::prelude::*;

verus! {

/// A column of a post.
#[derive(Clone, Copy, Debug, PartialEq, Eq, Structural, Hash)]
pub enum PostColumn {
    Id,
    Title,
    Color,
    Description,
    Content,
    IndexImage,
    AuthorId,
    Images,
    Date,
}

/// The column that goes by the given name.  A column is known by its name
/// in the store, such as `index_image`, and by the same name as a field is
/// written, such as `indexImage`.
pub open spec fn column_named(name: Seq<char>) -> Option<PostColumn> {
    if name == "id"@ {
        Some(PostColumn::Id)
    } else if name == "title"@ {
        Some(PostColumn::Title)
    } else if name == "color"@ {
        Some(PostColumn::Color)
    } else if name == "description"@ {
        Some(PostColumn::Description)
    } else if name == "content"@ {
        Some(PostColumn::Content)
    } else if name == "index_image"@ || name == "indexImage"@ {
        Some(PostColumn::IndexImage)
    } else if name == "author_id"@ || name == "authorId"@ {
        Some(PostColumn::AuthorId)
    } else if name == "images"@ {
        Some(PostColumn::Images)
    } else if name == "date"@ {
        Some(PostColumn::Date)
    } else {
        None
    }
}

/// The columns that the fields name, in the order of the fields.
pub open spec fn named_columns(fields: Seq<String>) -> Seq<PostColumn>
    decreases fields.len(),
{
    if fields.len() == 0 {
        Seq::empty()
    } else {
        let front = named_columns(fields.drop_last());
        match column_named(fields.last()@) {
            Some(column) => front.push(column),
            None => front,
        }
    }
}

/// Whether one of the fields is `name`.
pub open spec fn asks_for(fields: Seq<String>, name: Seq<char>) -> bool {
    exists|i: int| 0 <= i < fields.len() && (#[trigger] fields[i])@ == name
}

/// The columns to read for the given fields: the columns that the fields
/// name, then the author's id where the author is asked for, then the id
/// where the labels are.
pub open spec fn columns_for(fields: Seq<String>) -> Seq<PostColumn> {
    named_columns(fields) + (if asks_for(fields, "author"@) {
        seq![PostColumn::AuthorId]
    } else {
        Seq::empty()
    }) + (if asks_for(fields, "labels"@) {
        seq![PostColumn::Id]
    } else {
        Seq::empty()
    })
}

impl PostColumn {
    /// The column that goes by the given name, if there is one.
    pub fn from_str(name: &str) -> (column: Option<PostColumn>)
        ensures
            column == column_named(name@),
    {
        if same_text(name, "id") {
            Some(PostColumn::Id)
        } else if same_text(name, "title") {
            Some(PostColumn::Title)
        } else if same_text(name, "color") {
            Some(PostColumn::Color)
        } else if same_text(name, "description") {
            Some(PostColumn::Description)
        } else if same_text(name, "content") {
            Some(PostColumn::Content)
        } else if same_text(name, "index_image") || same_text(name, "indexImage") {
            Some(PostColumn::IndexImage)
        } else if same_text(name, "author_id") || same_text(name, "authorId") {
            Some(PostColumn::AuthorId)
        } else if same_text(name, "images") {
            Some(PostColumn::Images)
        } else if same_text(name, "date") {
            Some(PostColumn::Date)
        } else {
            None
        }
    }
}

/// Whether one of the fields is `name`.
fn has_field(fields: &Vec<String>, name: &str) -> (has: bool)
    ensures
        has == asks_for(fields@, name@),
{
    let mut i: usize = 0;
    while i < fields.len()
        invariant
            i <= fields.len(),
            forall|j: int| 0 <= j < i ==> (#[trigger] fields@[j])@ != name@,
        decreases fields.len() - i,
    {
        if same_text(fields[i].as_str(), name) {
            return true;
        }
        i = i + 1;
    }
    false
}

/// The columns to read for the fields that a caller wants of a post.
pub fn select_columns(fields: &Vec<String>) -> (columns: Vec<PostColumn>)
    ensures
        columns@ == columns_for(fields@),
{
    let mut columns: Vec<PostColumn> = Vec::new();
    let mut i: usize = 0;
    assert(columns@ =~= named_columns(fields@.take(0)));
    while i < fields.len()
        invariant
            i <= fields.len(),
            columns@ == named_columns(fields@.take(i as int)),
        decreases fields.len() - i,
    {
        proof {
            assert(fields@.take(i + 1).drop_last() =~= fields@.take(i as int));
        }
        if let Some(column) = PostColumn::from_str(fields[i].as_str()) {
            columns.push(column);
        }
        i = i + 1;
    }
    assert(fields@.take(fields.len() as int) =~= fields@);
    if has_field(fields, "author") {
        columns.push(PostColumn::AuthorId);
    }
    if has_field(fields, "labels") {
        columns.push(PostColumn::Id);
    }
    assert(columns@ =~= columns_for(fields@));
    columns
}

} // verus!

//! Paginated queries for posts, from the caller's arguments to the page.
//!
//! Answering a query takes three steps, with the store in between:
//! [`create_paginated_posts`] turns the arguments into the description of a
//! window; the store runs it, and looks up the oldest and the newest of all
//! eligible posts, which [`get_published_posts_min_max_id`] checks; and
//! [`crate::connection::get_connection`] makes the page.

use crate::columns::{columns_for, select_columns, PostColumn};
use crate::error::QueryError;
use crate::order::Order;
use crate::post_cursor::PostCursor;
use crate::window::{
    build_paginated_posts, window_columns, window_filters, window_limit, window_order, WindowQuery,
};
use vstd::prelude::*;

verus! {

/// What the store is asked for a page.
#[derive(Clone, Debug, PartialEq, Eq)]
pub struct PostsPlan {
    /// The window of the page.  Its columns are the id and the date, which
    /// every page needs, then those for the fields that the caller wants.
    pub window: WindowQuery,
    /// Whether only published posts are eligible.  This is always so.
    pub published_only: bool,
}

/// The text of an optional string.
pub open spec fn text_of(text: Option<String>) -> Option<Seq<char>> {
    match text {
        Some(text) => Some(text@),
        None => None,
    }
}

/// The size that a page argument asks for.
pub open spec fn size_of(size: Option<i32>) -> Option<usize> {
    match size {
        Some(size) => Some(size as usize),
        None => None,
    }
}

/// The cursor that a cursor argument holds; meant for arguments that can be
/// read.
pub open spec fn cursor_of(text: Option<Seq<char>>) -> Option<PostCursor> {
    match text {
        Some(text) => Some(PostCursor::decoded(text)->Ok_0),
        None => None,
    }
}

/// What is wrong with the arguments of a query, if anything is.  A negative
/// `first` is reported before a negative `last`, that before a `before`
/// that cannot be read, and that before such an `after`.
pub open spec fn argument_error(
    after: Option<Seq<char>>,
    before: Option<Seq<char>>,
    first: Option<i32>,
    last: Option<i32>,
) -> Option<QueryError> {
    if first is Some && first->Some_0 < 0 {
        Some(QueryError::NegativeFirst)
    } else if last is Some && last->Some_0 < 0 {
        Some(QueryError::NegativeLast)
    } else if before is Some && PostCursor::decoded(before->Some_0) is Err {
        Some(QueryError::Cursor(PostCursor::decoded(before->Some_0)->Err_0))
    } else if after is Some && PostCursor::decoded(after->Some_0) is Err {
        Some(QueryError::Cursor(PostCursor::decoded(after->Some_0)->Err_0))
    } else {
        None
    }
}

/// Turns the arguments of a query for posts into what the store is asked.
///
/// `after` and `before` are cursors as text, `first` and `last` page sizes,
/// `fields` the fields that the caller wants of each post.  Arguments that
/// cannot be used are reported and nothing is asked of the store.
/// Otherwise the window is the one that [`build_paginated_posts`] describes
/// for the cursors and sizes, over the published posts.
pub fn create_paginated_posts(
    after: Option<String>,
    before: Option<String>,
    first: Option<i32>,
    last: Option<i32>,
    fields: &Vec<String>,
) -> (plan: Result<PostsPlan, QueryError>)
    ensures
        plan is Err <==> argument_error(text_of(after), text_of(before), first, last) is Some,
        plan matches Err(error) ==> argument_error(text_of(after), text_of(before), first, last)
            == Some(error) && error.caused_by_input(),
        plan matches Ok(plan) ==> {
            &&& plan.published_only
            &&& plan.window.columns@ == window_columns() + columns_for(fields@)
            &&& plan.window.filters@ == window_filters(
                cursor_of(text_of(after)),
                cursor_of(text_of(before)),
            )
            &&& plan.window.order == window_order(size_of(first), size_of(last))
            &&& plan.window.limit == window_limit(size_of(first), size_of(last))
        },
{
    let first: Option<usize> = match first {
        Some(first) => {
            if first < 0 {
                return Err(QueryError::NegativeFirst);
            }
            Some(first as usize)
        },
        None => None,
    };
    let last: Option<usize> = match last {
        Some(last) => {
            if last < 0 {
                return Err(QueryError::NegativeLast);
            }
            Some(last as usize)
        },
        None => None,
    };
    let before: Option<PostCursor> = match before {
        Some(before) => match PostCursor::decode_cursor(before.as_str()) {
            Ok(cursor) => Some(cursor),
            Err(error) => {
                return Err(QueryError::Cursor(error));
            },
        },
        None => None,
    };
    let after: Option<PostCursor> = match after {
        Some(after) => match PostCursor::decode_cursor(after.as_str()) {
            Ok(cursor) => Some(cursor),
            Err(error) => {
                return Err(QueryError::Cursor(error));
            },
        },
        None => None,
    };
    let mut window = build_paginated_posts(after, before, first, last);
    let mut wanted = select_columns(fields);
    window.columns.append(&mut wanted);
    Ok(PostsPlan { window, published_only: true })
}

/// What the store is asked for one end of all posts: the date and the id of
/// the first published post in the given order.  Oldest first that is the
/// oldest post, newest first the newest.
pub fn min_max_query(order: Order) -> (plan: PostsPlan)
    ensures
        plan.published_only,
        plan.window.columns@ == seq![PostColumn::Date, PostColumn::Id],
        plan.window.filters@.len() == 0,
        plan.window.order == Some(order),
        plan.window.limit == Some(1u64),
{
    let mut columns: Vec<PostColumn> = Vec::new();
    columns.push(PostColumn::Date);
    columns.push(PostColumn::Id);
    let window = WindowQuery { columns, filters: Vec::new(), order: Some(order), limit: Some(1) };
    PostsPlan { window, published_only: true }
}

/// Checks what the store found as the oldest and the newest of all
/// published posts.  Where there are no such posts there is nothing to
/// find, and the missing end is reported, the oldest first.
pub fn get_published_posts_min_max_id(
    min: Option<PostCursor>,
    max: Option<PostCursor>,
) -> (bounds: Result<(PostCursor, PostCursor), QueryError>)
    ensures
        bounds == (match (min, max) {
            (None, _) => Err(QueryError::NoMin),
            (Some(_), None) => Err(QueryError::NoMax),
            (Some(min), Some(max)) => Ok((min, max)),
        }),
{
    match min {
        None => Err(QueryError::NoMin),
        Some(min) => match max {
            None => Err(QueryError::NoMax),
            Some(max) => Ok((min, max)),
        },
    }
}

} // verus!

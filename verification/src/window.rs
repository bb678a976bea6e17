//! Window queries: which posts a page is cut from, in which order, and how
//! many of them.
//!
//! A [`WindowQuery`] is a description, not a computation: a list of filter
//! clauses that all have to hold, an order, and a limit.  Whoever holds the
//! posts runs it.  What running it means is fixed here, by
//! [`WindowQuery::selected`], and [`WindowQuery::select`] runs it on posts
//! held in memory.

use crate::columns::PostColumn;
use crate::date::Date;
use crate::order::{
    comes_first, in_order, keys, lemma_ordered_contains, lemma_ordered_is_in_order, lemma_ordered_permutes, ordered,
    sort_rows, Order,
};
use crate::post_cursor::PostCursor;
use vstd::prelude::*;

verus! {

/// One clause of a window query.  A post has to meet every clause.
#[derive(Clone, Copy, Debug, PartialEq, Eq, Structural)]
pub enum Filter {
    /// The post's date is the given date or an earlier one.
    DateLte(Date),
    /// The post's id is less than the given id.
    IdLt(u32),
    /// The post's date is the given date or a later one.
    DateGte(Date),
    /// The post's id is greater than the given id.
    IdGt(u32),
}

/// The description of a page's window.
#[derive(Clone, Debug, PartialEq, Eq)]
pub struct WindowQuery {
    /// The columns to read of each post.  The id and the date are always
    /// among them: without them a post could not be put in order, nor be
    /// given a cursor.
    pub columns: Vec<PostColumn>,
    /// The clauses that a post has to meet, all of them.
    pub filters: Vec<Filter>,
    /// The order in which the posts are taken, by date and then id; `None`
    /// leaves the order to the store.
    pub order: Option<Order>,
    /// The number of posts at which the window ends; `None` for no end.
    pub limit: Option<u64>,
}

impl Filter {
    /// Whether a post at `row` meets the clause.
    pub open spec fn admits(self, row: PostCursor) -> bool {
        match self {
            Filter::DateLte(date) => row.date.not_after(date),
            Filter::IdLt(id) => row.id < id,
            Filter::DateGte(date) => date.not_after(row.date),
            Filter::IdGt(id) => row.id > id,
        }
    }

    /// Whether a post at `row` meets the clause.
    pub fn accepts(&self, row: &PostCursor) -> (b: bool)
        ensures
            b == self.admits(*row),
    {
        match self {
            Filter::DateLte(date) => row.date.le(date),
            Filter::IdLt(id) => row.id < *id,
            Filter::DateGte(date) => date.le(&row.date),
            Filter::IdGt(id) => row.id > *id,
        }
    }
}

/// The clauses for a window between two cursors: up to, but not including,
/// the post at `before`, and from, but not including, the post at `after`.
/// The clauses on `before` come first.
pub open spec fn window_filters(after: Option<PostCursor>, before: Option<PostCursor>) -> Seq<Filter> {
    (match before {
        Some(before) => seq![Filter::DateLte(before.date), Filter::IdLt(before.id)],
        None => Seq::empty(),
    }) + (match after {
        Some(after) => seq![Filter::DateGte(after.date), Filter::IdGt(after.id)],
        None => Seq::empty(),
    })
}

/// The order of a window: oldest first where `first` is asked for, newest
/// first where only `last` is, none where neither is.
pub open spec fn window_order(first: Option<usize>, last: Option<usize>) -> Option<Order> {
    if first is Some {
        Some(Order::Asc)
    } else if last is Some {
        Some(Order::Desc)
    } else {
        None
    }
}

/// The limit of a window: `last` where it is given, else `first`.
pub open spec fn window_limit(first: Option<usize>, last: Option<usize>) -> Option<u64> {
    match last {
        Some(last) => Some(last as u64),
        None => match first {
            Some(first) => Some(first as u64),
            None => None,
        },
    }
}

/// The columns that every window reads: the id and the date.
pub open spec fn window_columns() -> Seq<PostColumn> {
    seq![PostColumn::Id, PostColumn::Date]
}

/// Describes the window of a page from its cursors and sizes.
///
/// `first` asks for the oldest posts of the window, `last` for the newest.
/// Where both are given the posts are taken oldest first and `last` sets the
/// limit.  Of each post the id and the date are read.
pub fn build_paginated_posts(
    after: Option<PostCursor>,
    before: Option<PostCursor>,
    first: Option<usize>,
    last: Option<usize>,
) -> (query: WindowQuery)
    ensures
        query.columns@ == window_columns(),
        query.filters@ == window_filters(after, before),
        query.order == window_order(first, last),
        query.limit == window_limit(first, last),
{
    let mut columns: Vec<PostColumn> = Vec::new();
    columns.push(PostColumn::Id);
    columns.push(PostColumn::Date);
    let mut filters: Vec<Filter> = Vec::new();
    if let Some(before) = before {
        filters.push(Filter::DateLte(before.date));
        filters.push(Filter::IdLt(before.id));
    }
    if let Some(after) = after {
        filters.push(Filter::DateGte(after.date));
        filters.push(Filter::IdGt(after.id));
    }
    let mut order: Option<Order> = None;
    let mut limit: Option<u64> = None;
    if let Some(first) = first {
        limit = Some(first as u64);
        order = Some(Order::Asc);
    }
    if let Some(last) = last {
        limit = Some(last as u64);
        if order.is_none() {
            order = Some(Order::Desc);
        }
    }
    assert(filters@ =~= window_filters(after, before));
    WindowQuery { columns, filters, order, limit }
}

/// Whether a post at `row` meets every clause of `filters`.
pub open spec fn meets_all(filters: Seq<Filter>, row: PostCursor) -> bool {
    forall|i: int| 0 <= i < filters.len() ==> (#[trigger] filters[i]).admits(row)
}

/// [`meets_all`] as a predicate on posts.
pub open spec fn meeting_all(filters: Seq<Filter>) -> spec_fn(PostCursor) -> bool {
    |row: PostCursor| meets_all(filters, row)
}

/// What a store answers to a window query over the posts `rows`: the posts
/// that meet every clause, put in the given order (or left as they stand
/// where there is none), up to the limit.
pub open spec fn window_rows(
    filters: Seq<Filter>,
    order: Option<Order>,
    limit: Option<u64>,
    rows: Seq<PostCursor>,
) -> Seq<PostCursor> {
    let kept = rows.filter(meeting_all(filters));
    let sorted = match order {
        Some(order) => ordered(kept, order),
        None => kept,
    };
    match limit {
        Some(limit) => if limit < sorted.len() {
            sorted.take(limit as int)
        } else {
            sorted
        },
        None => sorted,
    }
}

impl WindowQuery {
    /// Whether a post at `row` meets every clause.
    pub open spec fn admits(self, row: PostCursor) -> bool {
        meets_all(self.filters@, row)
    }

    /// The posts of `rows` that the query selects.
    pub open spec fn selected(self, rows: Seq<PostCursor>) -> Seq<PostCursor> {
        window_rows(self.filters@, self.order, self.limit, rows)
    }

    /// Whether a post at `row` meets every clause.
    pub fn accepts(&self, row: &PostCursor) -> (b: bool)
        ensures
            b == self.admits(*row),
    {
        let mut i: usize = 0;
        while i < self.filters.len()
            invariant
                i <= self.filters.len(),
                forall|j: int| 0 <= j < i ==> (#[trigger] self.filters@[j]).admits(*row),
            decreases self.filters.len() - i,
        {
            if !self.filters[i].accepts(row) {
                return false;
            }
            i = i + 1;
        }
        true
    }

    /// Runs the query on posts held in memory.
    pub fn select(&self, rows: &Vec<PostCursor>) -> (window: Vec<PostCursor>)
        ensures
            window@ == self.selected(rows@),
    {
        let mut kept: Vec<PostCursor> = Vec::new();
        let mut i: usize = 0;
        proof {
            reveal(Seq::filter);
            assert(rows@.take(0).filter(meeting_all(self.filters@)) =~= Seq::<PostCursor>::empty());
        }
        while i < rows.len()
            invariant
                i <= rows.len(),
                kept@ == rows@.take(i as int).filter(meeting_all(self.filters@)),
            decreases rows.len() - i,
        {
            let row = rows[i];
            proof {
                assert(rows@.take(i + 1) =~= rows@.take(i as int).push(row));
                rows@.take(i as int).lemma_filter_push(row, meeting_all(self.filters@));
            }
            if self.accepts(&row) {
                kept.push(row);
            }
            i = i + 1;
        }
        proof {
            assert(rows@.take(rows.len() as int) =~= rows@);
        }
        let mut window = match self.order {
            Some(order) => sort_rows(kept, order),
            None => kept,
        };
        if let Some(limit) = self.limit {
            if limit < window.len() as u64 {
                window.truncate(limit as usize);
            }
        }
        window
    }
}

/// What a store answers to a window query lies within the window: every
/// post of the answer is one of the posts asked about and meets every
/// clause; there are no more posts than the limit allows; and the posts
/// stand in the order that was asked for.
pub proof fn lemma_window_rows(
    filters: Seq<Filter>,
    order: Option<Order>,
    limit: Option<u64>,
    rows: Seq<PostCursor>,
)
    ensures
        forall|i: int|
            0 <= i < window_rows(filters, order, limit, rows).len() ==> {
                let row = #[trigger] window_rows(filters, order, limit, rows)[i];
                rows.contains(row) && meets_all(filters, row)
            },
        window_rows(filters, order, limit, rows).len() <= rows.len(),
        limit matches Some(most) ==> window_rows(filters, order, limit, rows).len() <= most,
        order matches Some(asked) ==> in_order(window_rows(filters, order, limit, rows), asked),
{
    let pred = meeting_all(filters);
    let kept = rows.filter(pred);
    let sorted = match order {
        Some(order) => ordered(kept, order),
        None => kept,
    };
    let window = window_rows(filters, order, limit, rows);
    rows.lemma_filter_len(pred);
    if let Some(order) = order {
        lemma_ordered_permutes(kept, order);
        lemma_ordered_contains(kept, order);
        lemma_ordered_is_in_order(kept, order);
        assert(keys(sorted) =~= sorted);
    }
    assert forall|i: int| 0 <= i < window.len() implies {
        let row = #[trigger] window[i];
        rows.contains(row) && meets_all(filters, row)
    } by {
        let row = window[i];
        assert(row == sorted[i]);
        assert(sorted.contains(row));
        assert(kept.contains(row));
        let k = choose|k: int| 0 <= k < kept.len() && kept[k] == row;
        rows.lemma_filter_pred(pred, k);
        rows.lemma_filter_contains_rev(pred, row);
    }
    if let Some(order) = order {
        assert forall|i: int, j: int| 0 <= i < j < window.len() implies !comes_first(
            window[j],
            window[i],
            order,
        ) by {
            assert(window[i] == sorted[i] && window[j] == sorted[j]);
        }
    }
}

} // verus!

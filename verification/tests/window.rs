use school_graphql::columns::PostColumn;
use school_graphql::date::Date;
use school_graphql::order::Order;
use school_graphql::post_cursor::PostCursor;
use school_graphql::window::{build_paginated_posts, Filter, WindowQuery};

fn date(year: i32, month: u32, day: u32) -> Date {
    Date::from_ymd_opt(year, month, day).unwrap()
}

fn key(year: i32, month: u32, day: u32, id: u32) -> PostCursor {
    PostCursor::new(date(year, month, day), id)
}

#[test]
fn first_without_cursors_orders_ascending_and_limits() {
    let query = build_paginated_posts(None, None, Some(10), None);
    assert_eq!(query.filters, vec![]);
    assert_eq!(query.order, Some(Order::Asc));
    assert_eq!(query.limit, Some(10));
}

#[test]
fn every_window_reads_id_and_date() {
    let cursor = Some(key(2024, 1, 1, 69));
    for after in [None, cursor] {
        for before in [None, cursor] {
            for first in [None, Some(0), Some(10)] {
                for last in [None, Some(3)] {
                    let query = build_paginated_posts(after, before, first, last);
                    assert_eq!(query.columns, vec![PostColumn::Id, PostColumn::Date]);
                }
            }
        }
    }
}

#[test]
fn after_with_first_adds_lower_bounds() {
    let query = build_paginated_posts(Some(key(2024, 1, 1, 69)), None, Some(10), None);
    assert_eq!(query.filters, vec![Filter::DateGte(date(2024, 1, 1)), Filter::IdGt(69)]);
    assert_eq!(query.order, Some(Order::Asc));
    assert_eq!(query.limit, Some(10));
}

#[test]
fn before_with_last_adds_upper_bounds() {
    let query = build_paginated_posts(None, Some(key(2024, 1, 1, 69)), None, Some(10));
    assert_eq!(query.filters, vec![Filter::DateLte(date(2024, 1, 1)), Filter::IdLt(69)]);
    assert_eq!(query.order, Some(Order::Desc));
    assert_eq!(query.limit, Some(10));
}

#[test]
fn nothing_given_leaves_query_open() {
    let query = build_paginated_posts(None, None, None, None);
    assert_eq!(
        query,
        WindowQuery {
            columns: vec![PostColumn::Id, PostColumn::Date],
            filters: vec![],
            order: None,
            limit: None,
        }
    );
}

#[test]
fn both_cursors_put_before_clauses_first() {
    let query = build_paginated_posts(Some(key(2024, 1, 1, 3)), Some(key(2024, 2, 1, 9)), None, None);
    assert_eq!(
        query.filters,
        vec![
            Filter::DateLte(date(2024, 2, 1)),
            Filter::IdLt(9),
            Filter::DateGte(date(2024, 1, 1)),
            Filter::IdGt(3),
        ]
    );
    assert_eq!(query.order, None);
    assert_eq!(query.limit, None);
}

#[test]
fn first_and_last_together_order_ascending_with_limit_of_last() {
    let query = build_paginated_posts(None, None, Some(3), Some(7));
    assert_eq!(query.order, Some(Order::Asc));
    assert_eq!(query.limit, Some(7));
}

#[test]
fn filter_accepts_by_its_own_column_only() {
    let row = key(2024, 1, 10, 5);
    assert!(Filter::DateLte(date(2024, 1, 10)).accepts(&row));
    assert!(!Filter::DateLte(date(2024, 1, 9)).accepts(&row));
    assert!(Filter::DateGte(date(2024, 1, 10)).accepts(&row));
    assert!(!Filter::DateGte(date(2024, 1, 11)).accepts(&row));
    assert!(Filter::IdLt(6).accepts(&row));
    assert!(!Filter::IdLt(5).accepts(&row));
    assert!(Filter::IdGt(4).accepts(&row));
    assert!(!Filter::IdGt(5).accepts(&row));
}

fn table() -> Vec<PostCursor> {
    vec![
        key(2024, 1, 3, 4),
        key(2024, 1, 1, 1),
        key(2024, 1, 2, 3),
        key(2024, 1, 5, 6),
        key(2024, 1, 2, 2),
        key(2024, 1, 4, 5),
    ]
}

#[test]
fn select_takes_the_oldest_for_first() {
    let query = build_paginated_posts(None, None, Some(2), None);
    assert_eq!(query.select(&table()), vec![key(2024, 1, 1, 1), key(2024, 1, 2, 2)]);
}

#[test]
fn select_takes_the_newest_for_last() {
    let query = build_paginated_posts(None, None, None, Some(2));
    assert_eq!(query.select(&table()), vec![key(2024, 1, 5, 6), key(2024, 1, 4, 5)]);
}

#[test]
fn select_after_excludes_the_cursor_row() {
    let query = build_paginated_posts(Some(key(2024, 1, 2, 2)), None, Some(10), None);
    assert_eq!(
        query.select(&table()),
        vec![key(2024, 1, 2, 3), key(2024, 1, 3, 4), key(2024, 1, 4, 5), key(2024, 1, 5, 6)]
    );
}

#[test]
fn select_before_excludes_the_cursor_row() {
    let query = build_paginated_posts(None, Some(key(2024, 1, 3, 4)), None, Some(10));
    assert_eq!(
        query.select(&table()),
        vec![key(2024, 1, 2, 3), key(2024, 1, 2, 2), key(2024, 1, 1, 1)]
    );
}

#[test]
fn select_without_order_keeps_the_rows_as_they_stand() {
    let query = build_paginated_posts(None, None, None, None);
    assert_eq!(query.select(&table()), table());
}

#[test]
fn select_with_limit_zero_is_empty() {
    let query = build_paginated_posts(None, None, Some(0), None);
    assert_eq!(query.select(&table()), vec![]);
}

#[test]
fn select_compares_date_and_id_one_by_one() {
    // A later date with a smaller id is left out by `after`: the clauses
    // compare the two columns separately.
    let rows = vec![key(2024, 1, 1, 10), key(2024, 1, 2, 5), key(2024, 1, 3, 11)];
    let query = build_paginated_posts(Some(key(2024, 1, 1, 10)), None, Some(10), None);
    assert_eq!(query.select(&rows), vec![key(2024, 1, 3, 11)]);
}

#[test]
fn ties_on_date_are_broken_by_id_in_both_directions() {
    let rows = vec![key(2024, 1, 1, 7), key(2024, 1, 1, 3), key(2024, 1, 1, 5)];
    let ascending = build_paginated_posts(None, None, Some(10), None).select(&rows);
    assert_eq!(ascending, vec![key(2024, 1, 1, 3), key(2024, 1, 1, 5), key(2024, 1, 1, 7)]);
    let descending = build_paginated_posts(None, None, None, Some(10)).select(&rows);
    assert_eq!(descending, vec![key(2024, 1, 1, 7), key(2024, 1, 1, 5), key(2024, 1, 1, 3)]);
    let mut mirrored = descending.clone();
    mirrored.reverse();
    assert_eq!(ascending, mirrored);
}

use school_graphql::connection::{get_connection, Connection};
use school_graphql::date::Date;
use school_graphql::error::QueryError;
use school_graphql::maybe::Maybe;
use school_graphql::order::{sort_rows, Order};
use school_graphql::paginate::{create_paginated_posts, get_published_posts_min_max_id, min_max_query};
use school_graphql::post::Post;
use school_graphql::post_cursor::{PostCursor, PostCursorError};
use school_graphql::columns::PostColumn;
use school_graphql::window::{Filter, WindowQuery};

fn date(year: i32, month: u32, day: u32) -> Date {
    Date::from_ymd_opt(year, month, day).unwrap()
}

fn key(year: i32, month: u32, day: u32, id: u32) -> PostCursor {
    PostCursor::new(date(year, month, day), id)
}

fn post_of(date: Option<Date>, id: Option<u32>, title: &str) -> Post {
    Post {
        id: Maybe::new(id),
        title: Maybe::new(Some(title.to_string())),
        color: Maybe::new(None),
        description: Maybe::new(None),
        content: Maybe::new(None),
        index_image: Maybe::new(None),
        author_id: Maybe::new(None),
        images: Maybe::new(None),
        date: Maybe::new(date),
    }
}

fn post(key: PostCursor) -> Post {
    post_of(Some(key.date()), Some(key.id()), &format!("post {}", key.id()))
}

fn ids(page: &Connection) -> Vec<u32> {
    page.edges.iter().map(|edge| edge.node.id.option.unwrap()).collect()
}

#[test]
fn empty_window_has_no_neighbours_whatever_the_bounds() {
    let bounds = Ok((key(2020, 1, 1, 1), key(2024, 1, 1, 99)));
    let page = get_connection(vec![], bounds).unwrap();
    assert!(!page.has_previous_page);
    assert!(!page.has_next_page);
    assert!(page.edges.is_empty());
}

#[test]
fn empty_window_without_bounds_is_an_empty_page() {
    let page = get_connection(vec![], Err(QueryError::NoMin)).unwrap();
    assert_eq!(page, Connection { has_previous_page: false, has_next_page: false, edges: vec![] });
    let page = get_connection(vec![], Err(QueryError::Database)).unwrap();
    assert!(page.edges.is_empty());
}

#[test]
fn window_without_bounds_is_an_error() {
    let rows = vec![post(key(2024, 1, 1, 1))];
    assert_eq!(get_connection(rows.clone(), Err(QueryError::NoMin)), Err(QueryError::NoMin));
    assert_eq!(get_connection(rows, Err(QueryError::NoMax)), Err(QueryError::NoMax));
}

#[test]
fn single_page_dataset_has_no_neighbours() {
    let rows = vec![post(key(2024, 1, 1, 1)), post(key(2024, 1, 2, 2)), post(key(2024, 1, 3, 3))];
    let page = get_connection(rows, Ok((key(2024, 1, 1, 1), key(2024, 1, 3, 3)))).unwrap();
    assert!(!page.has_previous_page);
    assert!(!page.has_next_page);
    assert_eq!(ids(&page), vec![3, 2, 1]);
}

#[test]
fn page_in_the_middle_has_both_neighbours() {
    let rows = vec![post(key(2024, 1, 2, 2)), post(key(2024, 1, 3, 3))];
    let page = get_connection(rows, Ok((key(2024, 1, 1, 1), key(2024, 1, 4, 4)))).unwrap();
    assert!(page.has_previous_page);
    assert!(page.has_next_page);
}

#[test]
fn flags_compare_dates_and_ids_of_the_ends() {
    // Oldest shown is younger than the minimum: older posts exist.
    let rows = vec![post(key(2024, 1, 2, 2)), post(key(2024, 1, 3, 3))];
    let page = get_connection(rows.clone(), Ok((key(2024, 1, 1, 1), key(2024, 1, 3, 3)))).unwrap();
    assert!(page.has_previous_page);
    assert!(!page.has_next_page);
    // The minimum is dated after the oldest shown: no older posts.
    let page = get_connection(rows.clone(), Ok((key(2024, 1, 3, 9), key(2024, 1, 3, 3)))).unwrap();
    assert!(!page.has_previous_page);
    // The maximum is dated before the newest shown: no newer posts.
    let page = get_connection(rows, Ok((key(2024, 1, 2, 2), key(2024, 1, 1, 9)))).unwrap();
    assert!(!page.has_next_page);
}

#[test]
fn edges_come_newest_first_with_their_cursors() {
    let rows = vec![
        post(key(2024, 1, 2, 2)),
        post(key(2024, 1, 4, 4)),
        post(key(2024, 1, 1, 1)),
        post(key(2024, 1, 3, 3)),
    ];
    let page = get_connection(rows, Ok((key(2024, 1, 1, 1), key(2024, 1, 4, 4)))).unwrap();
    assert_eq!(ids(&page), vec![4, 3, 2, 1]);
    let cursors: Vec<&str> = page.edges.iter().map(|edge| edge.cursor.as_str()).collect();
    assert_eq!(cursors, vec!["2024-01-04#4", "2024-01-03#3", "2024-01-02#2", "2024-01-01#1"]);
    assert_eq!(page.edges[0].node.title.option, Some("post 4".to_string()));
    for edge in &page.edges {
        let cursor = PostCursor::decode_cursor(&edge.cursor).unwrap();
        assert_eq!(Some(cursor.id()), edge.node.id.option);
        assert_eq!(Some(cursor.date()), edge.node.date.option);
    }
}

#[test]
fn posts_of_one_date_are_shown_by_descending_id() {
    let rows = vec![post(key(2024, 1, 1, 5)), post(key(2024, 1, 1, 9)), post(key(2024, 1, 1, 7))];
    let page = get_connection(rows, Ok((key(2024, 1, 1, 5), key(2024, 1, 1, 9)))).unwrap();
    assert_eq!(ids(&page), vec![9, 7, 5]);
}

#[test]
fn posts_with_the_same_cursor_keep_their_order() {
    let a = post_of(Some(date(2024, 1, 1)), Some(5), "a");
    let b = post_of(Some(date(2024, 1, 1)), Some(5), "b");
    let page = get_connection(vec![a, b], Ok((key(2024, 1, 1, 5), key(2024, 1, 1, 5)))).unwrap();
    let titles: Vec<String> = page.edges.iter().map(|e| e.node.title.option.clone().unwrap()).collect();
    assert_eq!(titles, vec!["a".to_string(), "b".to_string()]);
}

#[test]
fn post_without_date_or_id_is_reported() {
    let bounds = Ok((key(2024, 1, 1, 1), key(2024, 1, 4, 4)));
    let no_date = vec![post(key(2024, 1, 1, 1)), post_of(None, Some(2), "x")];
    assert_eq!(get_connection(no_date, bounds), Err(QueryError::NoDate));
    let no_id = vec![post(key(2024, 1, 1, 1)), post_of(Some(date(2024, 1, 2)), None, "x")];
    assert_eq!(get_connection(no_id, bounds), Err(QueryError::NoId));
    let neither = vec![post_of(None, None, "x")];
    assert_eq!(get_connection(neither, bounds), Err(QueryError::NoDate));
}

#[test]
fn what_the_last_post_lacks_is_reported_first() {
    let bounds = Ok((key(2024, 1, 1, 1), key(2024, 1, 4, 4)));
    let whole = post(key(2024, 1, 3, 3));
    let no_id = post_of(Some(date(2024, 1, 2)), None, "x");
    let no_date = post_of(None, Some(1), "y");
    // The last post counts before the first.
    assert_eq!(get_connection(vec![no_id.clone(), no_date.clone()], bounds), Err(QueryError::NoDate));
    assert_eq!(get_connection(vec![no_date.clone(), no_id.clone()], bounds), Err(QueryError::NoId));
    // The first post counts before those in between.
    assert_eq!(
        get_connection(vec![no_id.clone(), no_date.clone(), whole.clone()], bounds),
        Err(QueryError::NoId)
    );
    assert_eq!(
        get_connection(vec![no_date.clone(), no_id.clone(), whole.clone()], bounds),
        Err(QueryError::NoDate)
    );
    // Of those in between the foremost counts.
    assert_eq!(
        get_connection(vec![whole.clone(), no_id.clone(), no_date.clone(), whole.clone()], bounds),
        Err(QueryError::NoId)
    );
    assert_eq!(
        get_connection(vec![whole.clone(), no_date, no_id, whole], bounds),
        Err(QueryError::NoDate)
    );
}

#[test]
fn bounds_are_compared_by_date_and_then_id() {
    let rows = vec![post(key(2024, 1, 2, 2))];
    // A minimum of the same date and a greater id stands after the post.
    let page = get_connection(rows.clone(), Ok((key(2024, 1, 2, 9), key(2024, 1, 2, 9)))).unwrap();
    assert!(!page.has_previous_page);
    assert!(page.has_next_page);
    // A maximum of the same date and a smaller id stands before the post.
    let page = get_connection(rows.clone(), Ok((key(2024, 1, 2, 1), key(2024, 1, 2, 1)))).unwrap();
    assert!(page.has_previous_page);
    assert!(!page.has_next_page);
    // Bounds at the post itself.
    let page = get_connection(rows, Ok((key(2024, 1, 2, 2), key(2024, 1, 2, 2)))).unwrap();
    assert!(!page.has_previous_page);
    assert!(!page.has_next_page);
}

#[test]
fn sort_rows_orders_in_both_directions() {
    let rows = vec![key(2024, 1, 2, 2), key(2023, 12, 31, 9), key(2024, 1, 2, 1)];
    assert_eq!(
        sort_rows(rows.clone(), Order::Asc),
        vec![key(2023, 12, 31, 9), key(2024, 1, 2, 1), key(2024, 1, 2, 2)]
    );
    assert_eq!(
        sort_rows(rows, Order::Desc),
        vec![key(2024, 1, 2, 2), key(2024, 1, 2, 1), key(2023, 12, 31, 9)]
    );
}

#[test]
fn bounds_need_both_ends() {
    let min = key(2024, 1, 1, 1);
    let max = key(2024, 1, 4, 4);
    assert_eq!(get_published_posts_min_max_id(Some(min), Some(max)), Ok((min, max)));
    assert_eq!(get_published_posts_min_max_id(None, Some(max)), Err(QueryError::NoMin));
    assert_eq!(get_published_posts_min_max_id(Some(min), None), Err(QueryError::NoMax));
    assert_eq!(get_published_posts_min_max_id(None, None), Err(QueryError::NoMin));
}

#[test]
fn min_max_queries_take_one_row_from_either_end() {
    for order in [Order::Asc, Order::Desc] {
        let plan = min_max_query(order);
        assert_eq!(
            plan.window,
            WindowQuery {
                columns: vec![PostColumn::Date, PostColumn::Id],
                filters: vec![],
                order: Some(order),
                limit: Some(1),
            }
        );
        assert!(plan.published_only);
    }
    let rows = vec![key(2024, 1, 2, 2), key(2023, 12, 31, 9), key(2024, 1, 2, 1)];
    assert_eq!(min_max_query(Order::Asc).window.select(&rows), vec![key(2023, 12, 31, 9)]);
    assert_eq!(min_max_query(Order::Desc).window.select(&rows), vec![key(2024, 1, 2, 2)]);
}

#[test]
fn facade_plans_the_window() {
    let fields = vec!["title".to_string(), "author".to_string()];
    let plan = create_paginated_posts(Some("2024-01-01#69".to_string()), None, Some(10), None, &fields).unwrap();
    assert!(plan.published_only);
    assert_eq!(plan.window.filters, vec![Filter::DateGte(date(2024, 1, 1)), Filter::IdGt(69)]);
    assert_eq!(plan.window.order, Some(Order::Asc));
    assert_eq!(plan.window.limit, Some(10));
    assert_eq!(
        plan.window.columns,
        vec![PostColumn::Id, PostColumn::Date, PostColumn::Title, PostColumn::AuthorId]
    );
}

#[test]
fn input_errors_are_told_from_the_others() {
    assert!(QueryError::NegativeFirst.is_input_error());
    assert!(QueryError::NegativeLast.is_input_error());
    assert!(QueryError::Cursor(PostCursorError::WrongFormat).is_input_error());
    for error in [
        QueryError::Database,
        QueryError::NoMin,
        QueryError::NoMax,
        QueryError::NoDate,
        QueryError::NoId,
        QueryError::InvalidDate,
        QueryError::NoIndexImage,
        QueryError::InvalidData,
        QueryError::ImageNotSelected,
    ] {
        assert!(!error.is_input_error());
    }
}

#[test]
fn facade_rejects_bad_arguments_in_order() {
    let fields: Vec<String> = vec![];
    let bad = Some("nope".to_string());
    assert_eq!(
        create_paginated_posts(bad.clone(), bad.clone(), Some(-1), Some(-1), &fields),
        Err(QueryError::NegativeFirst)
    );
    assert_eq!(
        create_paginated_posts(bad.clone(), bad.clone(), Some(1), Some(-1), &fields),
        Err(QueryError::NegativeLast)
    );
    assert_eq!(
        create_paginated_posts(Some("x#1".to_string()), bad.clone(), Some(1), None, &fields),
        Err(QueryError::Cursor(PostCursorError::WrongFormat))
    );
    assert_eq!(
        create_paginated_posts(Some("x#1".to_string()), None, Some(1), None, &fields),
        Err(QueryError::Cursor(PostCursorError::WrongDate))
    );
    assert_eq!(
        create_paginated_posts(None, Some("2024-01-01#x".to_string()), None, Some(1), &fields),
        Err(QueryError::Cursor(PostCursorError::InvalidId))
    );
    assert!(create_paginated_posts(None, None, Some(0), Some(0), &fields).is_ok());
}

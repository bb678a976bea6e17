use school_graphql::connection::{get_connection, Connection};
use school_graphql::date::Date;
use school_graphql::maybe::Maybe;
use school_graphql::order::Order;
use school_graphql::paginate::{create_paginated_posts, get_published_posts_min_max_id, min_max_query};
use school_graphql::post::Post;
use school_graphql::post_cursor::PostCursor;

fn key(year: i32, month: u32, day: u32, id: u32) -> PostCursor {
    PostCursor::new(Date::from_ymd_opt(year, month, day).unwrap(), id)
}

fn post(key: PostCursor) -> Post {
    Post {
        id: Maybe::new(Some(key.id())),
        title: Maybe::new(None),
        color: Maybe::new(None),
        description: Maybe::new(None),
        content: Maybe::new(None),
        index_image: Maybe::new(None),
        author_id: Maybe::new(None),
        images: Maybe::new(None),
        date: Maybe::new(Some(key.date())),
    }
}

/// Answers one request for a page from posts held in memory.
fn page(table: &Vec<PostCursor>, after: Option<String>, first: i32) -> Connection {
    let plan = create_paginated_posts(after, None, Some(first), None, &vec![]).unwrap();
    let rows: Vec<Post> = plan.window.select(table).into_iter().map(post).collect();
    let min = min_max_query(Order::Asc).window.select(table).first().copied();
    let max = min_max_query(Order::Desc).window.select(table).first().copied();
    get_connection(rows, get_published_posts_min_max_id(min, max)).unwrap()
}

/// Walks forward, each time after the newest post of the page before.
fn walk(table: &Vec<PostCursor>, first: i32) -> Vec<Vec<u32>> {
    let mut pages = Vec::new();
    let mut after = None;
    loop {
        let shown = page(table, after, first);
        pages.push(shown.edges.iter().map(|e| e.node.id.option.unwrap()).collect());
        if !shown.has_next_page {
            return pages;
        }
        assert!(pages.len() <= table.len() + 1, "the walk does not end");
        after = Some(shown.edges.first().unwrap().cursor.clone());
    }
}

fn table() -> Vec<PostCursor> {
    vec![
        key(2024, 1, 3, 4),
        key(2024, 1, 1, 1),
        key(2024, 1, 2, 3),
        key(2024, 1, 5, 6),
        key(2024, 1, 2, 2),
        key(2024, 1, 4, 5),
        key(2024, 1, 5, 7),
    ]
}

#[test]
fn forward_walk_shows_every_post_once() {
    assert_eq!(walk(&table(), 3), vec![vec![3, 2, 1], vec![6, 5, 4], vec![7]]);
    assert_eq!(walk(&table(), 2), vec![vec![2, 1], vec![4, 3], vec![6, 5], vec![7]]);
    assert_eq!(walk(&table(), 7), vec![vec![7, 6, 5, 4, 3, 2, 1]]);
    assert_eq!(walk(&table(), 100), vec![vec![7, 6, 5, 4, 3, 2, 1]]);
}

#[test]
fn forward_walk_of_single_posts() {
    let pages = walk(&table(), 1);
    assert_eq!(pages, vec![vec![1], vec![2], vec![3], vec![4], vec![5], vec![6], vec![7]]);
}

#[test]
fn forward_walk_joined_newest_page_first_is_the_table_newest_first() {
    for first in 1..9 {
        let mut pages = walk(&table(), first);
        pages.reverse();
        let joined: Vec<u32> = pages.into_iter().flatten().collect();
        assert_eq!(joined, vec![7, 6, 5, 4, 3, 2, 1], "first = {}", first);
    }
}

#[test]
fn forward_walk_over_nothing_is_one_empty_page() {
    assert_eq!(walk(&vec![], 3), vec![Vec::<u32>::new()]);
}

#[test]
fn forward_walk_by_last_edge_repeats_posts_on_larger_pages() {
    let table = table();
    let first_page = page(&table, None, 3);
    let last_edge = first_page.edges.last().unwrap().cursor.clone();
    let second_page = page(&table, Some(last_edge), 3);
    let ids: Vec<u32> = second_page.edges.iter().map(|e| e.node.id.option.unwrap()).collect();
    assert_eq!(ids, vec![4, 3, 2]);
}

#[test]
fn page_after_the_newest_post_is_empty() {
    let shown = page(&table(), Some("2024-01-05#7".to_string()), 3);
    assert!(shown.edges.is_empty());
    assert!(!shown.has_next_page);
    assert!(!shown.has_previous_page);
}

#[test]
fn forward_walk_takes_as_many_pages_as_the_posts_need() {
    let table = table();
    for first in 1..10usize {
        let pages = walk(&table, first as i32);
        assert_eq!(pages.len(), (table.len() + first - 1) / first, "first = {}", first);
        for (k, page) in pages.iter().enumerate() {
            // Only the last page shows the newest post of all.
            assert_eq!(page.contains(&7), k + 1 == pages.len());
        }
    }
}

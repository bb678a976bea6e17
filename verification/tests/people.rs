use school_graphql::error::QueryError;
use school_graphql::maybe::{ColumnError, Maybe};
use school_graphql::people::{sort_colleagues, Author, Colleague};
use school_graphql::post::{url_in, Post, StoredImage, StoredImages};

fn colleague(id: u32, name: Option<&str>) -> Colleague {
    Colleague {
        id: Maybe::new(Some(id)),
        name: Maybe::new(name.map(|n| n.to_string())),
        jobs: Maybe::new(None),
        subjects: Maybe::new(None),
        roles: Maybe::new(None),
        awards: Maybe::new(None),
        image: Maybe::new(None),
        category: Maybe::new(None),
    }
}

fn ids(rows: &Vec<Colleague>) -> Vec<u32> {
    rows.iter().map(|c| c.id.option.unwrap()).collect()
}

#[test]
fn colleagues_are_sorted_by_name_without_title() {
    let rows = vec![
        colleague(1, Some("Dr. Nagy Anna")),
        colleague(2, Some("Kovács Béla")),
        colleague(3, Some("Dr. Balogh Éva")),
        colleague(4, Some("Szabó Pál")),
        colleague(5, Some("Antal Zita")),
    ];
    assert_eq!(ids(&sort_colleagues(rows)), vec![5, 3, 2, 1, 4]);
}

#[test]
fn colleagues_agree_with_the_order_of_strings() {
    let names = ["b", "Dr. a", "a", "Dr.", "Dr. ", "", "Dr. Dr. x", "Zs", "ab", "aá", "a\u{10000}", "a\u{ffff}"];
    let rows: Vec<Colleague> = names.iter().enumerate().map(|(i, n)| colleague(i as u32, Some(n))).collect();
    let mut expected: Vec<(usize, &str)> = names.iter().copied().enumerate().collect();
    expected.sort_by(|a, b| {
        let a = a.1.strip_prefix("Dr. ").unwrap_or(a.1);
        let b = b.1.strip_prefix("Dr. ").unwrap_or(b.1);
        a.cmp(b)
    });
    let expected: Vec<u32> = expected.into_iter().map(|(i, _)| i as u32).collect();
    assert_eq!(ids(&sort_colleagues(rows)), expected);
}

#[test]
fn colleagues_of_one_name_keep_their_order() {
    let rows = vec![colleague(1, Some("Nagy")), colleague(2, Some("Dr. Nagy")), colleague(3, Some("Nagy"))];
    assert_eq!(ids(&sort_colleagues(rows)), vec![1, 2, 3]);
}

#[test]
fn colleague_without_name_sorts_as_the_empty_name() {
    let rows = vec![colleague(1, Some("a")), colleague(2, None), colleague(3, Some(""))];
    assert_eq!(ids(&sort_colleagues(rows)), vec![2, 3, 1]);
    assert_eq!(colleague(1, Some("Dr. Nagy")).sort_key(), vec!['N', 'a', 'g', 'y']);
    assert_eq!(colleague(1, Some("Dr.Nagy")).sort_key().len(), 7);
}

#[test]
fn colleague_image() {
    let mut c = colleague(1, None);
    assert_eq!(c.image(), None);
    c.image = Maybe::new(Some(None));
    assert_eq!(c.image(), None);
    c.image = Maybe::new(Some(Some("a.png".to_string())));
    assert_eq!(
        c.image(),
        Some("https://backend.verseghy-gimnazium.net/storage/colleagues_images/a.png".to_string())
    );
}

#[test]
fn author_image() {
    let mut author = Author {
        id: Maybe::new(Some(1)),
        name: Maybe::new(None),
        description: Maybe::new(None),
        image: Maybe::new(None),
    };
    assert_eq!(author.image(), Err(QueryError::ImageNotSelected));
    author.image = Maybe::new(Some(None));
    assert_eq!(author.image(), Ok(None));
    author.image = Maybe::new(Some(Some("me.jpg".to_string())));
    assert_eq!(
        author.image(),
        Ok(Some("https://backend.verseghy-gimnazium.net/storage/authors_images/me.jpg".to_string()))
    );
}

fn post() -> Post {
    Post {
        id: Maybe::new(None),
        title: Maybe::new(None),
        color: Maybe::new(None),
        description: Maybe::new(None),
        content: Maybe::new(None),
        index_image: Maybe::new(None),
        author_id: Maybe::new(None),
        images: Maybe::new(None),
        date: Maybe::new(None),
    }
}

#[test]
fn post_index_image() {
    let mut p = post();
    assert_eq!(p.index_image(), Err(QueryError::NoIndexImage));
    p.index_image = Maybe::new(Some("x.png".to_string()));
    assert_eq!(
        p.index_image(),
        Ok("https://backend.microshift.verseghy-gimnazium.net/storage/posts_images/x.png".to_string())
    );
}

#[test]
fn post_images_keep_the_names_only() {
    let entries = vec![
        StoredImage::Name("a.png".to_string()),
        StoredImage::NotText,
        StoredImage::Name("b.png".to_string()),
    ];
    let expected = vec![
        "https://backend.microshift.verseghy-gimnazium.net/storage/posts_images/a.png".to_string(),
        "https://backend.microshift.verseghy-gimnazium.net/storage/posts_images/b.png".to_string(),
    ];
    let mut p = post();
    p.images = Maybe::new(Some(StoredImages::Array(entries.clone())));
    assert_eq!(p.images(), Ok(expected.clone()));
    p.images = Maybe::new(Some(StoredImages::Object(entries)));
    assert_eq!(p.images(), Ok(expected));
    p.images = Maybe::new(Some(StoredImages::Array(vec![])));
    assert_eq!(p.images(), Ok(vec![]));
}

#[test]
fn post_images_of_other_data_are_invalid() {
    let mut p = post();
    assert_eq!(p.images(), Err(QueryError::InvalidData));
    p.images = Maybe::new(Some(StoredImages::Other));
    assert_eq!(p.images(), Err(QueryError::InvalidData));
}

#[test]
fn post_cursor_needs_date_and_id() {
    let mut p = post();
    assert_eq!(p.cursor(), None);
    p.id = Maybe::new(Some(3));
    assert_eq!(p.cursor(), None);
    let d = school_graphql::date::Date::from_ymd_opt(2024, 1, 1).unwrap();
    p.date = Maybe::new(Some(d));
    assert_eq!(p.cursor(), Some(school_graphql::post_cursor::PostCursor::new(d, 3)));
}

#[test]
fn url_in_joins_folder_and_name() {
    assert_eq!(url_in("https://x/", "y.png"), "https://x/y.png");
    assert_eq!(url_in("", ""), "");
}

#[test]
fn maybe_wraps_an_option() {
    assert_eq!(Maybe::new(Some(3)).option, Some(3));
    assert_eq!(Maybe::<u32>::new(None).option, None);
    assert_eq!(*Maybe::new(Some(3)).deref(), Some(3));
}

#[test]
fn maybe_from_columns() {
    assert_eq!(Maybe::try_get(Ok(3)), Maybe::new(Some(3)));
    assert_eq!(Maybe::<u32>::try_get(Err(ColumnError::Null)), Maybe::new(None));
    assert_eq!(Maybe::<u32>::try_get(Err(ColumnError::Missing)), Maybe::new(None));
    assert_eq!(Maybe::try_get_by(Ok(3), 0), Maybe::new(Some(3)));
    assert_eq!(Maybe::try_get_by(Err(ColumnError::Null), 7), Maybe::new(Some(7)));
    assert_eq!(Maybe::try_get_by(Err(ColumnError::Missing), 7), Maybe::new(None));
}

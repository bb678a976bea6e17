//! Pages of posts: the posts of a window, newest first, each with its
//! cursor, and whether more posts lie on either side.

use crate::error::QueryError;
use crate::order::{
    keys, lemma_keys_of_ordered, lemma_ordered_permutes, ordered, sort_rows, Keyed, Order,
};
use crate::post::Post;
use crate::post_cursor::PostCursor;
use vstd::prelude::*;

verus! {

/// A post of a page together with the cursor that points at it.
#[derive(Clone, Debug, PartialEq, Eq)]
pub struct Edge {
    /// The cursor of the post, as text.
    pub cursor: String,
    /// The post.
    pub node: Post,
}

/// A page of posts.
#[derive(Clone, Debug, PartialEq, Eq)]
pub struct Connection {
    /// Whether there are posts older than those of the page.
    pub has_previous_page: bool,
    /// Whether there are posts newer than those of the page.
    pub has_next_page: bool,
    /// The posts of the page, newest first.
    pub edges: Vec<Edge>,
}

/// A post whose position is known.
pub struct PlacedPost {
    pub key: PostCursor,
    pub post: Post,
}

impl Keyed for PlacedPost {
    open spec fn key(&self) -> PostCursor {
        self.key
    }

    fn cursor(&self) -> (cursor: PostCursor) {
        self.key
    }
}

/// The index of the first post that has no position, or the number of posts
/// where all have one.
pub open spec fn first_unplaced(rows: Seq<Post>) -> int
    decreases rows.len(),
{
    if rows.len() == 0 {
        0
    } else if rows[0].position() is None {
        0
    } else {
        1 + first_unplaced(rows.drop_first())
    }
}

/// The posts with their positions; meant for posts that all have one.
pub open spec fn placed(rows: Seq<Post>) -> Seq<PlacedPost> {
    Seq::new(rows.len(), |i: int| PlacedPost { key: rows[i].position()->Some_0, post: rows[i] })
}

/// The posts of a window as a page shows them: newest first.
pub open spec fn presented(rows: Seq<Post>) -> Seq<PlacedPost> {
    ordered(placed(rows), Order::Desc)
}

/// Whether there are older posts than those of a page: the page shows
/// posts, the oldest of all posts stands at or before the page's oldest in
/// the order of posts, and the two differ in their ids.
pub open spec fn older_exist(page: Seq<PostCursor>, min: PostCursor) -> bool {
    page.len() > 0 && !page.last().before(min) && min.id != page.last().id
}

/// Whether there are newer posts than those of a page: the page shows
/// posts, the newest of all posts stands at or after the page's newest in
/// the order of posts, and the two differ in their ids.
pub open spec fn newer_exist(page: Seq<PostCursor>, max: PostCursor) -> bool {
    page.len() > 0 && !max.before(page.first()) && max.id != page.first().id
}

/// What a post lacks of what places it among the posts, if anything: its
/// date, or else its id.
pub open spec fn lacking(post: Post) -> Option<QueryError> {
    if post.date.option is None {
        Some(QueryError::NoDate)
    } else if post.id.option is None {
        Some(QueryError::NoId)
    } else {
        None
    }
}

/// What stops a window from becoming a page, if anything does.  An empty
/// window is always a page.  For any other, the two ends of all posts have
/// to be known, and every post of the window needs a date and an id.  What
/// the last post of the window lacks is reported first, then what the first
/// lacks, then what the foremost of the others lacks; of one post, its date
/// before its id.
pub open spec fn page_error(
    rows: Seq<Post>,
    bounds: Result<(PostCursor, PostCursor), QueryError>,
) -> Option<QueryError> {
    if rows.len() == 0 {
        None
    } else if bounds is Err {
        Some(bounds->Err_0)
    } else if lacking(rows.last()) is Some {
        lacking(rows.last())
    } else if lacking(rows.first()) is Some {
        lacking(rows.first())
    } else if first_unplaced(rows) < rows.len() {
        lacking(rows[first_unplaced(rows)])
    } else {
        None
    }
}

/// Whether `page` is the page of the posts `rows`, given the two ends
/// `(min, max)` of all posts: it shows the posts newest first, each with its
/// cursor as text, and says whether older and newer posts exist.
pub open spec fn is_page_of(page: Connection, rows: Seq<Post>, min: PostCursor, max: PostCursor) -> bool {
    let shown = presented(rows);
    let shown_keys = keys(shown);
    &&& page.has_previous_page == older_exist(shown_keys, min)
    &&& page.has_next_page == newer_exist(shown_keys, max)
    &&& page.edges@.len() == rows.len()
    &&& forall|i: int|
        0 <= i < rows.len() ==> (#[trigger] page.edges@[i]).node == shown[i].post
            && page.edges@[i].cursor@ == shown[i].key.encoded()
}

/// What a post lacks of what places it among the posts, if anything.
fn lacks(post: &Post) -> (error: Option<QueryError>)
    ensures
        error == lacking(*post),
        error is None <==> post.position() is Some,
{
    if post.date.option.is_none() {
        Some(QueryError::NoDate)
    } else if post.id.option.is_none() {
        Some(QueryError::NoId)
    } else {
        None
    }
}

/// The first post without a position is what `first_unplaced` says.
pub proof fn lemma_first_unplaced(rows: Seq<Post>, at: int)
    requires
        0 <= at <= rows.len(),
        forall|j: int| 0 <= j < at ==> (#[trigger] rows[j]).position() is Some,
        at < rows.len() ==> rows[at].position() is None,
    ensures
        first_unplaced(rows) == at,
    decreases rows.len(),
{
    if rows.len() > 0 && at > 0 {
        assert(rows[0].position() is Some);
        let rest = rows.drop_first();
        assert forall|j: int| 0 <= j < at - 1 implies (#[trigger] rest[j]).position() is Some by {
            assert(rest[j] == rows[j + 1]);
        }
        lemma_first_unplaced(rest, at - 1);
    }
}

/// Makes the page of a window.
///
/// `rows` are the posts of the window, in any order.  `bounds` are the
/// oldest and the newest of all eligible posts, or the reason why they are
/// not known.  An empty window gives an empty page whatever `bounds` holds.
#[verifier::loop_isolation(false)]
pub fn get_connection(
    rows: Vec<Post>,
    bounds: Result<(PostCursor, PostCursor), QueryError>,
) -> (page: Result<Connection, QueryError>)
    ensures
        page is Err <==> page_error(rows@, bounds) is Some,
        page is Ok <==> rows@.len() == 0 || (bounds is Ok && forall|i: int|
            0 <= i < rows@.len() ==> (#[trigger] rows@[i]).position() is Some),
        page matches Err(error) ==> page_error(rows@, bounds) == Some(error),
        page matches Ok(c) ==> rows@.len() == 0 ==> !c.has_previous_page && !c.has_next_page
            && c.edges@.len() == 0,
        page matches Ok(c) ==> rows@.len() > 0 ==> is_page_of(c, rows@, bounds->Ok_0.0, bounds->Ok_0.1),
{
    if rows.len() == 0 {
        return Ok(Connection { has_previous_page: false, has_next_page: false, edges: Vec::new() });
    }
    let (min, max) = match bounds {
        Ok(bounds) => bounds,
        Err(error) => {
            return Err(error);
        },
    };
    if let Some(error) = lacks(&rows[rows.len() - 1]) {
        return Err(error);
    }
    if let Some(error) = lacks(&rows[0]) {
        return Err(error);
    }
    let ghost all = rows@;
    let mut keyed: Vec<PlacedPost> = Vec::new();
    for post in it: rows
        invariant
            it.seq() == all,
            keyed@ == placed(all.take(it.index() as int)),
            forall|j: int| 0 <= j < it.index() ==> (#[trigger] all[j]).position() is Some,
    {
        let key = match post.cursor() {
            Some(key) => key,
            None => {
                proof {
                    lemma_first_unplaced(all, it.index() as int);
                }
                if post.date.option.is_none() {
                    return Err(QueryError::NoDate);
                } else {
                    return Err(QueryError::NoId);
                }
            },
        };
        proof {
            let done = all.take(it.index() as int + 1);
            assert(placed(done) =~= placed(all.take(it.index() as int)).push(
                PlacedPost { key, post },
            ));
        }
        keyed.push(PlacedPost { key, post });
    }
    proof {
        assert(all.take(all.len() as int) =~= all);
        lemma_first_unplaced(all, all.len() as int);
        lemma_ordered_permutes(placed(all), Order::Desc);
    }
    let sorted = sort_rows(keyed, Order::Desc);
    let ghost shown = sorted@;
    let newest = sorted[0].key;
    let oldest = sorted[sorted.len() - 1].key;
    let has_previous_page = !oldest.precedes(&min) && min.id != oldest.id;
    let has_next_page = !max.precedes(&newest) && max.id != newest.id;
    let mut edges: Vec<Edge> = Vec::new();
    for row in it: sorted
        invariant
            it.seq() == shown,
            edges@.len() == it.index(),
            forall|i: int|
                0 <= i < it.index() ==> (#[trigger] edges@[i]).node == shown[i].post
                    && edges@[i].cursor@ == shown[i].key.encoded(),
    {
        let cursor = row.key.encode_cursor();
        edges.push(Edge { cursor, node: row.post });
    }
    let page = Connection { has_previous_page, has_next_page, edges };
    proof {
        let shown_keys = keys(shown);
        assert(shown_keys.last() == shown[shown.len() - 1].key);
        assert(shown_keys.first() == shown[0].key);
    }
    Ok(page)
}

/// An empty window has neither older nor newer posts to show, whatever the
/// two ends of all posts are.
pub proof fn lemma_empty_window(min: PostCursor, max: PostCursor)
    ensures
        !older_exist(Seq::empty(), min),
        !newer_exist(Seq::empty(), max),
{
}

/// A page that shows the newest of all posts first and the oldest of all
/// posts last has neither older nor newer posts beside it.
pub proof fn lemma_whole_dataset_page(page: Seq<PostCursor>, min: PostCursor, max: PostCursor)
    requires
        page.first().date@ == max.date@ && page.first().id == max.id,
        page.last().date@ == min.date@ && page.last().id == min.id,
    ensures
        !older_exist(page, min),
        !newer_exist(page, max),
{
}

/// The cursors on a page are those of the window's posts, newest first.
pub proof fn lemma_page_shows_window(rows: Seq<Post>)
    ensures
        keys(presented(rows)) == ordered(keys(placed(rows)), Order::Desc),
        presented(rows).len() == rows.len(),
{
    lemma_keys_of_ordered(placed(rows), Order::Desc);
    lemma_ordered_permutes(placed(rows), Order::Desc);
}

} // verus!

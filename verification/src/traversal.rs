//! Walking through all posts page by page.
//!
//! The store is modelled by what it answers: to a window query over the
//! eligible posts it answers [`window_rows`].  On that footing this module
//! states what a caller gets who asks for the first `first` posts, then for
//! the first `first` posts after the newest one seen, and so on for as long
//! as a page says that newer posts exist.
//!
//! The walk is sound for posts whose ids follow their dates
//! ([`chronological`]): the clauses of a window compare dates and ids one by
//! one, which agrees with the order of posts only where a later post never
//! has a smaller id.

use crate::connection::newer_exist;
use crate::order::{
    comes_first, keys, lemma_cursors_are_totally_ordered, lemma_in_order_without_duplicates,
    lemma_ordered_contains, lemma_ordered_is_in_order, lemma_ordered_permutes,
    lemma_strict_order_is_unique, lemma_strictly_in_order_has_no_duplicates, ordered,
    strictly_in_order, Order,
};
use crate::post_cursor::PostCursor;
use crate::window::{
    lemma_window_rows, meeting_all, meets_all, window_filters, window_limit, window_order,
    window_rows, Filter,
};
use vstd::prelude::*;

verus! {

/// Whether the ids of the posts follow their dates: no two posts share an
/// id, and of two posts the one with the greater id is not the earlier one.
pub open spec fn chronological(rows: Seq<PostCursor>) -> bool {
    forall|i: int, j: int|
        #![trigger rows[i], rows[j]]
        0 <= i < rows.len() && 0 <= j < rows.len() && i != j ==> {
            &&& rows[i].id != rows[j].id
            &&& rows[i].id < rows[j].id ==> rows[i].date.not_after(rows[j].date)
        }
}

/// The oldest of the posts: what the store answers to the query for the
/// first post, oldest first.
pub open spec fn oldest_of(rows: Seq<PostCursor>) -> PostCursor {
    window_rows(Seq::empty(), Some(Order::Asc), Some(1u64), rows).first()
}

/// The newest of the posts: what the store answers to the query for the
/// first post, newest first.
pub open spec fn newest_of(rows: Seq<PostCursor>) -> PostCursor {
    window_rows(Seq::empty(), Some(Order::Desc), Some(1u64), rows).first()
}

/// What the store answers when asked for the first `first` posts after
/// `after`.
pub open spec fn forward_window(rows: Seq<PostCursor>, after: Option<PostCursor>, first: usize) -> Seq<
    PostCursor,
> {
    window_rows(
        window_filters(after, None),
        window_order(Some(first), None),
        window_limit(Some(first), None),
        rows,
    )
}

/// The page that shows the first `first` posts after `after`: the cursors
/// of its edges, newest first.
pub open spec fn forward_page(rows: Seq<PostCursor>, after: Option<PostCursor>, first: usize) -> Seq<
    PostCursor,
> {
    ordered(forward_window(rows, after, first), Order::Desc)
}

/// The pages that a caller sees who starts after `after` and goes on, each
/// time after the newest post of the page before, until a page says that no
/// newer posts exist, or until `fuel` further pages have been seen.
pub open spec fn forward_pages(
    rows: Seq<PostCursor>,
    first: usize,
    after: Option<PostCursor>,
    fuel: nat,
) -> Seq<Seq<PostCursor>>
    decreases fuel,
{
    let page = forward_page(rows, after, first);
    if fuel == 0 || !newer_exist(page, newest_of(rows)) {
        seq![page]
    } else {
        seq![page] + forward_pages(rows, first, Some(page.first()), (fuel - 1) as nat)
    }
}

/// The same walk, but each time after the post of the last edge of the page
/// before, which is its oldest.
pub open spec fn forward_pages_by_last_edge(
    rows: Seq<PostCursor>,
    first: usize,
    after: Option<PostCursor>,
    fuel: nat,
) -> Seq<Seq<PostCursor>>
    decreases fuel,
{
    let page = forward_page(rows, after, first);
    if fuel == 0 || !newer_exist(page, newest_of(rows)) {
        seq![page]
    } else {
        seq![page] + forward_pages_by_last_edge(rows, first, Some(page.last()), (fuel - 1) as nat)
    }
}

/// The posts of pages that were seen oldest page first, put together newest
/// page first.
pub open spec fn joined(pages: Seq<Seq<PostCursor>>) -> Seq<PostCursor>
    decreases pages.len(),
{
    if pages.len() == 0 {
        Seq::empty()
    } else {
        joined(pages.drop_first()) + pages.first()
    }
}

/// The number of pages that it takes to show `posts` posts, `first` to a
/// page: one page for no posts, else as many as hold them all, the last one
/// perhaps not full.
pub open spec fn pages_needed(posts: nat, first: nat) -> nat {
    if posts == 0 {
        1
    } else {
        ((posts + first - 1) / first as int) as nat
    }
}

/// The cursor in front of position `at` of the posts in order: none in
/// front of the first post, else the post before.
pub open spec fn cursor_in_front(sorted: Seq<PostCursor>, at: int) -> Option<PostCursor> {
    if at <= 0 {
        None
    } else {
        Some(sorted[at - 1])
    }
}

/// Filtering keeps a post that meets the predicate as often as it occurs,
/// and drops every other post.
pub proof fn lemma_filter_counts(rows: Seq<PostCursor>, pred: spec_fn(PostCursor) -> bool, row: PostCursor)
    ensures
        rows.filter(pred).to_multiset().count(row) == if pred(row) {
            rows.to_multiset().count(row)
        } else {
            0
        },
    decreases rows.len(),
{
    broadcast use vstd::seq_lib::group_to_multiset_ensures;

    reveal(Seq::filter);
    if rows.len() > 0 {
        let front = rows.drop_last();
        lemma_filter_counts(front, pred, row);
        assert(front.push(rows.last()) =~= rows);
        assert(rows.to_multiset() =~= front.to_multiset().insert(rows.last()));
        if pred(rows.last()) {
            assert(rows.filter(pred) =~= front.filter(pred).push(rows.last()));
            assert(rows.filter(pred).to_multiset() =~= front.filter(pred).to_multiset().insert(
                rows.last(),
            ));
        }
    }
}

/// Among posts whose ids follow their dates, the order of the posts is the
/// order of their ids.
pub proof fn lemma_chronological_order(rows: Seq<PostCursor>, i: int, j: int)
    requires
        chronological(rows),
        0 <= i < rows.len(),
        0 <= j < rows.len(),
    ensures
        rows[i].before(rows[j]) <==> rows[i].id < rows[j].id,
        i != j ==> rows[i] != rows[j],
{
    lemma_cursors_are_totally_ordered(rows[i], rows[j]);
    if i != j {
        let (a, b) = (rows[i], rows[j]);
        let (c, d) = (rows[j], rows[i]);
        assert(a.id != b.id);
        assert(c.id < d.id ==> c.date.not_after(d.date));
    }
}

/// Putting posts in order that are all different gives a sequence that is
/// strictly in order.
pub proof fn lemma_ordered_is_strict(rows: Seq<PostCursor>, order: Order)
    requires
        rows.no_duplicates(),
    ensures
        strictly_in_order(ordered(rows, order), order),
        ordered(rows, order).no_duplicates(),
{
    broadcast use vstd::seq_lib::group_to_multiset_ensures;

    let out = ordered(rows, order);
    lemma_ordered_permutes(rows, order);
    lemma_ordered_is_in_order(rows, order);
    assert(keys(out) =~= out);
    rows.lemma_multiset_has_no_duplicates();
    out.lemma_multiset_has_no_duplicates_conv();
    lemma_in_order_without_duplicates(out, order);
}

/// Posts that are strictly in order oldest first are, read backwards,
/// strictly in order newest first.
pub proof fn lemma_reverse_is_newest_first(sorted: Seq<PostCursor>)
    requires
        strictly_in_order(sorted, Order::Asc),
    ensures
        strictly_in_order(sorted.reverse(), Order::Desc),
        ordered(sorted, Order::Desc) == sorted.reverse(),
{
    broadcast use vstd::seq_lib::group_to_multiset_ensures;

    let back = sorted.reverse();
    assert forall|i: int, j: int| 0 <= i < j < back.len() implies comes_first(
        back[i],
        back[j],
        Order::Desc,
    ) by {
        assert(comes_first(sorted[sorted.len() - 1 - j], sorted[sorted.len() - 1 - i], Order::Asc));
    }
    lemma_strictly_in_order_has_no_duplicates(sorted, Order::Asc);
    lemma_ordered_is_strict(sorted, Order::Desc);
    lemma_ordered_contains(sorted, Order::Desc);
    assert forall|key: PostCursor| ordered(sorted, Order::Desc).contains(key) <==> back.contains(
        key,
    ) by {
        if sorted.contains(key) {
            let i = choose|i: int| 0 <= i < sorted.len() && sorted[i] == key;
            assert(back[sorted.len() - 1 - i] == key);
        }
        if back.contains(key) {
            let i = choose|i: int| 0 <= i < back.len() && back[i] == key;
            assert(sorted[sorted.len() - 1 - i] == key);
        }
    }
    lemma_strict_order_is_unique(ordered(sorted, Order::Desc), back, Order::Desc);
}

/// Posts in order newest first are the posts in order oldest first, read
/// backwards.
pub proof fn lemma_newest_first_is_reverse(rows: Seq<PostCursor>)
    requires
        rows.no_duplicates(),
    ensures
        ordered(rows, Order::Desc) == ordered(rows, Order::Asc).reverse(),
{
    let sorted = ordered(rows, Order::Asc);
    lemma_ordered_is_strict(rows, Order::Asc);
    lemma_ordered_is_strict(rows, Order::Desc);
    lemma_reverse_is_newest_first(sorted);
    lemma_ordered_contains(rows, Order::Asc);
    lemma_ordered_contains(rows, Order::Desc);
    let back = sorted.reverse();
    assert forall|key: PostCursor| ordered(rows, Order::Desc).contains(key) <==> back.contains(
        key,
    ) by {
        if sorted.contains(key) {
            let i = choose|i: int| 0 <= i < sorted.len() && sorted[i] == key;
            assert(back[sorted.len() - 1 - i] == key);
        }
        if back.contains(key) {
            let i = choose|i: int| 0 <= i < back.len() && back[i] == key;
            assert(sorted[sorted.len() - 1 - i] == key);
        }
    }
    lemma_strict_order_is_unique(ordered(rows, Order::Desc), back, Order::Desc);
}

/// Posts whose ids follow their dates are all different, and stay so when
/// put in order.
pub proof fn lemma_chronological_sorted(rows: Seq<PostCursor>)
    requires
        chronological(rows),
    ensures
        rows.no_duplicates(),
        chronological(ordered(rows, Order::Asc)),
        strictly_in_order(ordered(rows, Order::Asc), Order::Asc),
        ordered(rows, Order::Asc).len() == rows.len(),
{
    assert forall|i: int, j: int| 0 <= i < rows.len() && 0 <= j < rows.len() && i != j implies rows[i]
        != rows[j] by {
        lemma_chronological_order(rows, i, j);
    }
    let sorted = ordered(rows, Order::Asc);
    lemma_ordered_is_strict(rows, Order::Asc);
    lemma_ordered_permutes(rows, Order::Asc);
    lemma_ordered_contains(rows, Order::Asc);
    assert forall|i: int, j: int|
        #![trigger sorted[i], sorted[j]]
        0 <= i < sorted.len() && 0 <= j < sorted.len() && i != j implies {
        &&& sorted[i].id != sorted[j].id
        &&& sorted[i].id < sorted[j].id ==> sorted[i].date.not_after(sorted[j].date)
    } by {
        assert(sorted.contains(sorted[i]));
        assert(sorted.contains(sorted[j]));
        assert(rows.contains(sorted[i]));
        assert(rows.contains(sorted[j]));
        let a = choose|a: int| 0 <= a < rows.len() && rows[a] == sorted[i];
        let b = choose|b: int| 0 <= b < rows.len() && rows[b] == sorted[j];
        assert(sorted[i] != sorted[j]);
        assert(a != b);
        let (x, y) = (rows[a], rows[b]);
        assert(x.id != y.id);
    }
}

/// The oldest and the newest of all posts are the two ends of the posts in
/// order.
pub proof fn lemma_ends(rows: Seq<PostCursor>)
    requires
        rows.no_duplicates(),
        rows.len() > 0,
    ensures
        oldest_of(rows) == ordered(rows, Order::Asc).first(),
        newest_of(rows) == ordered(rows, Order::Asc).last(),
{
    lemma_keeps_all(rows);
    lemma_ordered_permutes(rows, Order::Asc);
    lemma_ordered_permutes(rows, Order::Desc);
    lemma_newest_first_is_reverse(rows);
}

/// A query without clauses keeps every post.
pub proof fn lemma_keeps_all(rows: Seq<PostCursor>)
    ensures
        rows.filter(meeting_all(Seq::empty())) == rows,
    decreases rows.len(),
{
    reveal(Seq::filter);
    if rows.len() > 0 {
        lemma_keeps_all(rows.drop_last());
        assert(rows.drop_last().push(rows.last()) =~= rows);
    }
}

/// What the store answers when asked for the first `first` posts after the
/// post in front of position `at`: the posts from `at` on, in order, `first`
/// of them or as many as there are.
pub proof fn lemma_forward_window(rows: Seq<PostCursor>, at: int, first: usize)
    requires
        chronological(rows),
        0 <= at <= rows.len(),
    ensures
        ({
            let sorted = ordered(rows, Order::Asc);
            let end = if at + first < rows.len() {
                at + first
            } else {
                rows.len() as int
            };
            forward_window(rows, cursor_in_front(sorted, at), first) == sorted.subrange(at, end)
        }),
{
    broadcast use vstd::seq_lib::group_to_multiset_ensures;

    let sorted = ordered(rows, Order::Asc);
    let after = cursor_in_front(sorted, at);
    let filters = window_filters(after, None);
    let pred = meeting_all(filters);
    let kept = rows.filter(pred);
    lemma_chronological_sorted(rows);
    lemma_ordered_contains(rows, Order::Asc);
    // The posts that are kept are those from `at` on.
    let rest = sorted.skip(at);
    assert forall|key: PostCursor| rows.contains(key) implies (pred(key) <==> rest.contains(
        key,
    )) by {
        assert(sorted.contains(key));
        let k = choose|k: int| 0 <= k < sorted.len() && sorted[k] == key;
        if at > 0 {
            let c = sorted[at - 1];
            assert(filters =~= seq![Filter::DateGte(c.date), Filter::IdGt(c.id)]);
            assert(filters[0] == Filter::DateGte(c.date));
            assert(filters[1] == Filter::IdGt(c.id));
            lemma_chronological_order(sorted, at - 1, k);
            lemma_chronological_order(sorted, k, at - 1);
            if k >= at {
                assert(comes_first(sorted[at - 1], sorted[k], Order::Asc));
                assert(rest[k - at] == key);
                assert(meets_all(filters, key));
            } else {
                if k < at - 1 {
                    assert(comes_first(sorted[k], sorted[at - 1], Order::Asc));
                }
                assert(!filters[1].admits(key));
                if rest.contains(key) {
                    let l = choose|l: int| 0 <= l < rest.len() && rest[l] == key;
                    assert(sorted[l + at] == key);
                    assert(comes_first(sorted[k], sorted[l + at], Order::Asc));
                }
            }
        } else {
            assert(filters =~= Seq::<Filter>::empty());
            assert(rest =~= sorted);
        }
    }
    // So the kept posts in order are the posts in order from `at` on.
    assert forall|i: int, j: int| 0 <= i < j < rest.len() implies comes_first(
        rest[i],
        rest[j],
        Order::Asc,
    ) by {
        assert(comes_first(sorted[i + at], sorted[j + at], Order::Asc));
    }
    rows.lemma_multiset_has_no_duplicates();
    assert forall|key: PostCursor| kept.to_multiset().contains(key) implies kept.to_multiset().count(
        key,
    ) == 1 by {
        lemma_filter_counts(rows, pred, key);
    }
    kept.lemma_multiset_has_no_duplicates_conv();
    lemma_ordered_is_strict(kept, Order::Asc);
    lemma_ordered_contains(kept, Order::Asc);
    assert forall|key: PostCursor| ordered(kept, Order::Asc).contains(key) <==> rest.contains(
        key,
    ) by {
        lemma_filter_counts(rows, pred, key);
        if rest.contains(key) {
            let l = choose|l: int| 0 <= l < rest.len() && rest[l] == key;
            assert(sorted[l + at] == key);
            assert(sorted.contains(key));
        }
    }
    lemma_strict_order_is_unique(ordered(kept, Order::Asc), rest, Order::Asc);
    let end = if at + first < rows.len() {
        at + first
    } else {
        rows.len() as int
    };
    if first < rest.len() {
        assert(rest.take(first as int) =~= sorted.subrange(at, end));
    } else {
        assert(rest =~= sorted.subrange(at, end));
    }
}

/// One page more holds `first` posts more, and a page holds up to `first`
/// posts.
pub proof fn lemma_pages_needed(posts: nat, first: nat)
    requires
        first >= 1,
    ensures
        0 < posts <= first ==> pages_needed(posts, first) == 1,
        posts > 0 ==> pages_needed(posts + first, first) == pages_needed(posts, first) + 1,
        pages_needed(posts, first) >= 1,
        (pages_needed(posts, first) - 1) * first < posts || posts == 0,
        posts <= pages_needed(posts, first) * first,
{
    let f = first as int;
    let p = posts as int;
    if posts > 0 {
        vstd::arithmetic::div_mod::lemma_fundamental_div_mod(p + f - 1, f);
        vstd::arithmetic::div_mod::lemma_mod_bound(p + f - 1, f);
        let q = (p + f - 1) / f;
        assert(f * q + (p + f - 1) % f == p + f - 1);
        assert(q >= 1) by (nonlinear_arith)
            requires
                f * q + (p + f - 1) % f == p + f - 1,
                0 <= (p + f - 1) % f < f,
                p >= 1,
                f >= 1,
        ;
        assert((q - 1) * f < p && p <= q * f) by (nonlinear_arith)
            requires
                f * q + (p + f - 1) % f == p + f - 1,
                0 <= (p + f - 1) % f < f,
                f >= 1,
        ;
        if posts <= first {
            assert(q == 1) by (nonlinear_arith)
                requires
                    (q - 1) * f < p,
                    p <= f,
                    q >= 1,
                    f >= 1,
            ;
        }
        vstd::arithmetic::div_mod::lemma_div_plus_one(p + f - 1, f);
        assert((p + f) + f - 1 == f + (p + f - 1));
    }
}

/// The walk from position `at` on: it ends by itself, after as many pages
/// as the posts from `at` on need and not before; its last page is the one
/// that holds the newest post; and its pages, put together newest page
/// first, are the posts from `at` on, newest first.
pub proof fn lemma_forward_walk(rows: Seq<PostCursor>, first: usize, at: int, fuel: nat)
    requires
        chronological(rows),
        first >= 1,
        0 <= at <= rows.len(),
        fuel >= rows.len() - at,
    ensures
        ({
            let sorted = ordered(rows, Order::Asc);
            let pages = forward_pages(rows, first, cursor_in_front(sorted, at), fuel);
            &&& pages.len() == pages_needed((rows.len() - at) as nat, first as nat)
            &&& !newer_exist(pages.last(), newest_of(rows))
            &&& forall|k: int| 0 <= k < pages.len() - 1 ==> newer_exist(#[trigger] pages[k], newest_of(rows))
            &&& at < rows.len() ==> pages.last().len() > 0 && pages.last().first() == newest_of(rows)
            &&& joined(pages) == sorted.skip(at).reverse()
            &&& forall|k: int| 0 <= k < pages.len() ==> strictly_in_order(#[trigger] pages[k], Order::Desc)
        }),
    decreases fuel,
{
    let sorted = ordered(rows, Order::Asc);
    let after = cursor_in_front(sorted, at);
    let n = rows.len() as int;
    let end = if at + first < n {
        at + first
    } else {
        n
    };
    lemma_chronological_sorted(rows);
    lemma_forward_window(rows, at, first);
    let window = sorted.subrange(at, end);
    assert forall|i: int, j: int| 0 <= i < j < window.len() implies comes_first(
        window[i],
        window[j],
        Order::Asc,
    ) by {
        assert(comes_first(sorted[i + at], sorted[j + at], Order::Asc));
    }
    lemma_reverse_is_newest_first(window);
    let page = forward_page(rows, after, first);
    assert(page == window.reverse());
    let pages = forward_pages(rows, first, after, fuel);
    if n > 0 {
        lemma_ends(rows);
    }
    lemma_pages_needed((n - at) as nat, first as nat);
    if end == n {
        // The page reaches the newest post, or is empty: the walk ends.
        if page.len() > 0 {
            assert(page.first() == sorted[n - 1]);
        }
        assert(!newer_exist(page, newest_of(rows)));
        assert(pages =~= seq![page]);
        assert(pages.drop_first() =~= Seq::<Seq<PostCursor>>::empty());
        assert(joined(pages.drop_first()) =~= Seq::<PostCursor>::empty());
        assert(joined(pages) =~= page);
        assert(sorted.skip(at) =~= window);
    } else {
        // The page stops short of the newest post: newer posts exist, and
        // the walk goes on after the page's newest post.
        assert(page.first() == sorted[end - 1]);
        lemma_chronological_order(sorted, end - 1, n - 1);
        assert(comes_first(sorted[end - 1], sorted[n - 1], Order::Asc));
        assert(newer_exist(page, newest_of(rows)));
        assert(cursor_in_front(sorted, end) == Some(page.first()));
        lemma_forward_walk(rows, first, end, (fuel - 1) as nat);
        lemma_pages_needed((n - end) as nat, first as nat);
        let rest = forward_pages(rows, first, Some(page.first()), (fuel - 1) as nat);
        assert(pages == seq![page] + rest);
        assert(pages.drop_first() =~= rest);
        assert(pages.last() == rest.last());
        assert(pages.len() == rest.len() + 1);
        assert forall|k: int| 0 <= k < pages.len() - 1 implies newer_exist(
            #[trigger] pages[k],
            newest_of(rows),
        ) by {
            if k > 0 {
                assert(pages[k] == rest[k - 1]);
            }
        }
        assert(joined(pages) == joined(rest) + page);
        assert(sorted.skip(end).reverse() + window.reverse() =~= sorted.skip(at).reverse());
        assert forall|k: int| 0 <= k < pages.len() implies strictly_in_order(
            #[trigger] pages[k],
            Order::Desc,
        ) by {
            if k > 0 {
                assert(pages[k] == rest[k - 1]);
            }
        }
    }
}

/// Walking forward through all posts shows each of them exactly once.
///
/// A caller asks for the first `first` posts, then for the first `first`
/// posts after the newest post of the page before, and goes on for as long
/// as the page says that newer posts exist.  Where the ids of the posts
/// follow their dates and `first` is at least 1, the walk ends by itself
/// after as many pages as the posts need, `first` to a page; no page before
/// the last says that there are no newer posts, and the last page is the
/// one that shows the newest post of all; every page shows its posts newest
/// first; and the pages, put together newest page first, are all the posts,
/// newest first, each once.
pub proof fn lemma_forward_traversal(rows: Seq<PostCursor>, first: usize, fuel: nat)
    requires
        chronological(rows),
        first >= 1,
        fuel >= rows.len(),
    ensures
        ({
            let pages = forward_pages(rows, first, None, fuel);
            &&& pages.len() == pages_needed(rows.len(), first as nat)
            &&& !newer_exist(pages.last(), newest_of(rows))
            &&& forall|k: int| 0 <= k < pages.len() - 1 ==> newer_exist(#[trigger] pages[k], newest_of(rows))
            &&& rows.len() > 0 ==> pages.last().len() > 0 && pages.last().first() == newest_of(rows)
            &&& joined(pages) == ordered(rows, Order::Desc)
            &&& joined(pages).to_multiset() == rows.to_multiset()
            &&& joined(pages).no_duplicates()
            &&& forall|k: int| 0 <= k < pages.len() ==> strictly_in_order(#[trigger] pages[k], Order::Desc)
        }),
{
    let sorted = ordered(rows, Order::Asc);
    lemma_chronological_sorted(rows);
    lemma_forward_walk(rows, first, 0, fuel);
    assert(sorted.skip(0) =~= sorted);
    lemma_newest_first_is_reverse(rows);
    lemma_ordered_permutes(rows, Order::Desc);
    lemma_ordered_is_strict(rows, Order::Desc);
}

/// A page of at most one post has the same post at both ends, so a walk
/// that goes on after the last edge of each page is the walk that goes on
/// after the newest.
pub proof fn lemma_single_post_pages(rows: Seq<PostCursor>, after: Option<PostCursor>, fuel: nat)
    ensures
        forward_pages_by_last_edge(rows, 1, after, fuel) == forward_pages(rows, 1, after, fuel),
    decreases fuel,
{
    let window = forward_window(rows, after, 1);
    let page = forward_page(rows, after, 1);
    lemma_ordered_permutes(window, Order::Desc);
    assert(page.len() <= 1);
    if fuel > 0 && newer_exist(page, newest_of(rows)) {
        assert(page.last() == page.first());
        lemma_single_post_pages(rows, Some(page.first()), (fuel - 1) as nat);
    }
}

/// Walking forward after the last edge of each page.
///
/// A caller who goes on after the post of the last edge of each page, which
/// is the oldest post of the page, sees what the caller of
/// [`lemma_forward_traversal`] sees, and so every post exactly once, where
/// the pages hold one post each or the first page holds all posts.  With
/// larger pages the walk would start again behind the oldest post of each
/// page and show the others twice.
pub proof fn lemma_forward_traversal_by_last_edge(rows: Seq<PostCursor>, first: usize, fuel: nat)
    requires
        chronological(rows),
        first >= 1,
        fuel >= rows.len(),
        first == 1 || rows.len() <= first,
    ensures
        forward_pages_by_last_edge(rows, first, None, fuel) == forward_pages(rows, first, None, fuel),
        forward_pages_by_last_edge(rows, first, None, fuel).len() == pages_needed(
            rows.len(),
            first as nat,
        ),
        joined(forward_pages_by_last_edge(rows, first, None, fuel)) == ordered(rows, Order::Desc),
        !newer_exist(forward_pages_by_last_edge(rows, first, None, fuel).last(), newest_of(rows)),
{
    lemma_forward_traversal(rows, first, fuel);
    if first == 1 {
        lemma_single_post_pages(rows, None, fuel);
    } else {
        let sorted = ordered(rows, Order::Asc);
        lemma_chronological_sorted(rows);
        lemma_forward_window(rows, 0, first);
        assert(sorted.subrange(0, rows.len() as int) =~= sorted);
        lemma_reverse_is_newest_first(sorted);
        let page = forward_page(rows, None, first);
        if rows.len() > 0 {
            lemma_ends(rows);
            assert(page.first() == sorted[rows.len() - 1]);
        }
        assert(!newer_exist(page, newest_of(rows)));
    }
}

/// Among posts of one date the order is that of their ids, and the two
/// directions mirror each other: what comes first oldest first comes last
/// newest first.
pub proof fn lemma_tie_break(a: PostCursor, b: PostCursor)
    requires
        a.date@ == b.date@,
        a.id != b.id,
    ensures
        comes_first(a, b, Order::Asc) <==> a.id < b.id,
        comes_first(a, b, Order::Desc) <==> a.id > b.id,
        comes_first(a, b, Order::Asc) <==> comes_first(b, a, Order::Desc),
        comes_first(a, b, Order::Asc) <==> !comes_first(a, b, Order::Desc),
{
}

/// In what a store answers to a query with an order, posts of one date
/// stand by their ids: ascending where the posts are taken oldest first,
/// descending where they are taken newest first.
pub proof fn lemma_window_breaks_ties_by_id(
    filters: Seq<Filter>,
    order: Order,
    limit: Option<u64>,
    rows: Seq<PostCursor>,
    i: int,
    j: int,
)
    requires
        0 <= i < j < window_rows(filters, Some(order), limit, rows).len(),
        window_rows(filters, Some(order), limit, rows)[i].date@ == window_rows(
            filters,
            Some(order),
            limit,
            rows,
        )[j].date@,
        window_rows(filters, Some(order), limit, rows)[i].id != window_rows(
            filters,
            Some(order),
            limit,
            rows,
        )[j].id,
    ensures
        order == Order::Asc ==> window_rows(filters, Some(order), limit, rows)[i].id < window_rows(
            filters,
            Some(order),
            limit,
            rows,
        )[j].id,
        order == Order::Desc ==> window_rows(filters, Some(order), limit, rows)[i].id > window_rows(
            filters,
            Some(order),
            limit,
            rows,
        )[j].id,
{
    let kept = rows.filter(meeting_all(filters));
    let sorted = ordered(kept, order);
    lemma_ordered_is_in_order(kept, order);
    assert(keys(sorted) =~= sorted);
    let window = window_rows(filters, Some(order), limit, rows);
    assert(window[i] == sorted[i] && window[j] == sorted[j]);
    assert(!comes_first(sorted[j], sorted[i], order));
    lemma_tie_break(sorted[i], sorted[j]);
}

/// On a page, which shows its posts newest first, posts of one date stand
/// by descending id, whatever the order in which the window came.
pub proof fn lemma_page_breaks_ties_by_id(window: Seq<PostCursor>, i: int, j: int)
    requires
        0 <= i < j < window.len(),
        ordered(window, Order::Desc)[i].date@ == ordered(window, Order::Desc)[j].date@,
        ordered(window, Order::Desc)[i].id != ordered(window, Order::Desc)[j].id,
    ensures
        ordered(window, Order::Desc)[i].id > ordered(window, Order::Desc)[j].id,
{
    let page = ordered(window, Order::Desc);
    lemma_ordered_permutes(window, Order::Desc);
    lemma_ordered_is_in_order(window, Order::Desc);
    assert(keys(page) =~= page);
    assert(!comes_first(page[j], page[i], Order::Desc));
    lemma_tie_break(page[i], page[j]);
}

/// A window lies strictly between its cursors: among posts whose ids follow
/// their dates, every post that a store answers comes after the post at
/// `after` and before the post at `before`, in the order of posts.
pub proof fn lemma_window_lies_between(
    rows: Seq<PostCursor>,
    after: Option<PostCursor>,
    before: Option<PostCursor>,
    order: Option<Order>,
    limit: Option<u64>,
    i: int,
)
    requires
        chronological(rows),
        after is Some ==> rows.contains(after->Some_0),
        before is Some ==> rows.contains(before->Some_0),
        0 <= i < window_rows(window_filters(after, before), order, limit, rows).len(),
    ensures
        after is Some ==> after->Some_0.before(
            window_rows(window_filters(after, before), order, limit, rows)[i],
        ),
        before is Some ==> window_rows(window_filters(after, before), order, limit, rows)[i].before(
            before->Some_0,
        ),
{
    let filters = window_filters(after, before);
    let row = window_rows(filters, order, limit, rows)[i];
    lemma_window_rows(filters, order, limit, rows);
    assert(rows.contains(row) && meets_all(filters, row));
    let r = choose|r: int| 0 <= r < rows.len() && rows[r] == row;
    let upper: int = if before is Some {
        2
    } else {
        0
    };
    if before is Some {
        let end = before->Some_0;
        let b = choose|b: int| 0 <= b < rows.len() && rows[b] == end;
        assert(filters[1] == Filter::IdLt(end.id));
        assert(filters[1].admits(row));
        lemma_chronological_order(rows, r, b);
    }
    if after is Some {
        let start = after->Some_0;
        let a = choose|a: int| 0 <= a < rows.len() && rows[a] == start;
        assert(filters[upper + 1] == Filter::IdGt(start.id));
        assert(filters[upper + 1].admits(row));
        lemma_chronological_order(rows, a, r);
    }
}

} // verus!

//! The order of posts, and rows put in that order.
//!
//! Posts are ordered by date and, among posts of one date, by id.  A row is
//! anything that has a cursor ([`Keyed`]); rows are put in order, oldest or
//! newest first, by insertion, so that rows with equal cursors keep the
//! order they came in.

use crate::date::Date;
use crate::post_cursor::PostCursor;
use vstd::prelude::*;

verus! {

/// The direction in which rows are ordered.
#[derive(Clone, Copy, Debug, PartialEq, Eq, Structural)]
pub enum Order {
    /// Oldest first: ascending by date, then id.
    Asc,
    /// Newest first: descending by date, then id.
    Desc,
}

/// Something that stands at a position among the posts.
pub trait Keyed {
    /// The position of the row.
    spec fn key(&self) -> PostCursor;

    /// The position of the row.
    fn cursor(&self) -> (cursor: PostCursor)
        ensures
            cursor == self.key(),
    ;
}

impl Keyed for PostCursor {
    open spec fn key(&self) -> PostCursor {
        *self
    }

    fn cursor(&self) -> (cursor: PostCursor) {
        *self
    }
}

/// Whether a row at `a` has to stand in front of a row at `b` under `order`.
pub open spec fn comes_first(a: PostCursor, b: PostCursor, order: Order) -> bool {
    match order {
        Order::Asc => a.before(b),
        Order::Desc => b.before(a),
    }
}

/// The cursors of a sequence of rows.
pub open spec fn keys<T: Keyed>(rows: Seq<T>) -> Seq<PostCursor> {
    Seq::new(rows.len(), |i: int| rows[i].key())
}

/// Where a row at `key` goes into `sorted`: in front of the first row that
/// it has to stand in front of, behind all others.
pub open spec fn insertion_point<T: Keyed>(sorted: Seq<T>, key: PostCursor, order: Order) -> int
    decreases sorted.len(),
{
    if sorted.len() == 0 {
        0
    } else if comes_first(key, sorted[0].key(), order) {
        0
    } else {
        1 + insertion_point(sorted.drop_first(), key, order)
    }
}

/// The rows in the given order.  Rows with equal cursors stay in the order
/// in which `rows` has them.
pub open spec fn ordered<T: Keyed>(rows: Seq<T>, order: Order) -> Seq<T>
    decreases rows.len(),
{
    if rows.len() == 0 {
        rows
    } else {
        let front = ordered(rows.drop_last(), order);
        front.insert(insertion_point(front, rows.last().key(), order), rows.last())
    }
}

/// Whether no row stands behind one that it has to stand in front of.
pub open spec fn in_order(keys: Seq<PostCursor>, order: Order) -> bool {
    forall|i: int, j: int| 0 <= i < j < keys.len() ==> !comes_first(keys[j], keys[i], order)
}

/// Whether each row has to stand in front of all that follow it: the
/// sequence is in order and no cursor occurs twice.
pub open spec fn strictly_in_order(keys: Seq<PostCursor>, order: Order) -> bool {
    forall|i: int, j: int| 0 <= i < j < keys.len() ==> comes_first(keys[i], keys[j], order)
}

/// Whether `a` comes before `b`.
fn stands_first(a: &PostCursor, b: &PostCursor, order: Order) -> (b_first: bool)
    ensures
        b_first == comes_first(*a, *b, order),
{
    match order {
        Order::Asc => a.precedes(b),
        Order::Desc => b.precedes(a),
    }
}

/// The insertion point is the one position with no row in front of it that
/// the new row has to precede, and with such a row at it, if any.
pub proof fn lemma_insertion_point<T: Keyed>(sorted: Seq<T>, key: PostCursor, order: Order, at: int)
    requires
        0 <= at <= sorted.len(),
        forall|j: int| 0 <= j < at ==> !comes_first(key, #[trigger] sorted[j].key(), order),
        at < sorted.len() ==> comes_first(key, sorted[at].key(), order),
    ensures
        insertion_point(sorted, key, order) == at,
    decreases sorted.len(),
{
    if sorted.len() > 0 && at > 0 {
        assert(!comes_first(key, sorted[0].key(), order));
        let rest = sorted.drop_first();
        assert forall|j: int| 0 <= j < at - 1 implies !comes_first(
            key,
            #[trigger] rest[j].key(),
            order,
        ) by {
            assert(rest[j] == sorted[j + 1]);
        }
        lemma_insertion_point(rest, key, order, at - 1);
    }
}

/// The insertion point lies within the sequence or at its end; no row in
/// front of it has to stand behind the new row, and the row at it has to.
pub proof fn lemma_insertion_point_bounds<T: Keyed>(sorted: Seq<T>, key: PostCursor, order: Order)
    ensures
        0 <= insertion_point(sorted, key, order) <= sorted.len(),
        forall|j: int|
            0 <= j < insertion_point(sorted, key, order) ==> !comes_first(
                key,
                #[trigger] sorted[j].key(),
                order,
            ),
        insertion_point(sorted, key, order) < sorted.len() ==> comes_first(
            key,
            sorted[insertion_point(sorted, key, order)].key(),
            order,
        ),
    decreases sorted.len(),
{
    if sorted.len() > 0 && !comes_first(key, sorted[0].key(), order) {
        let rest = sorted.drop_first();
        lemma_insertion_point_bounds(rest, key, order);
        let at = insertion_point(sorted, key, order);
        assert forall|j: int| 0 <= j < at implies !comes_first(
            key,
            #[trigger] sorted[j].key(),
            order,
        ) by {
            if j > 0 {
                assert(rest[j - 1] == sorted[j]);
            }
        }
        if at < sorted.len() {
            assert(rest[at - 1] == sorted[at]);
        }
    }
}

/// Puts rows in the given order.
pub fn sort_rows<T: Keyed>(rows: Vec<T>, order: Order) -> (sorted: Vec<T>)
    ensures
        sorted@ == ordered(rows@, order),
{
    let ghost all = rows@;
    let mut sorted: Vec<T> = Vec::new();
    for row in it: rows
        invariant
            it.seq() == all,
            sorted@ == ordered(all.take(it.index() as int), order),
    {
        let key = row.cursor();
        let mut at: usize = 0;
        while at < sorted.len() && !stands_first(&key, &sorted[at].cursor(), order)
            invariant
                at <= sorted.len(),
                forall|j: int| 0 <= j < at ==> !comes_first(key, #[trigger] sorted@[j].key(), order),
            decreases sorted.len() - at,
        {
            at = at + 1;
        }
        proof {
            lemma_insertion_point(sorted@, key, order, at as int);
            let done = all.take(it.index() as int + 1);
            assert(done.drop_last() =~= all.take(it.index() as int));
            assert(done.last() == row);
        }
        sorted.insert(at, row);
    }
    proof {
        assert(all.take(all.len() as int) =~= all);
    }
    sorted
}

/// Of two different cursors one comes before the other.
pub proof fn lemma_cursors_are_totally_ordered(a: PostCursor, b: PostCursor)
    ensures
        a == b || a.before(b) || b.before(a),
        !(a.before(b) && b.before(a)),
        !a.before(a),
{
    if a.date@ == b.date@ {
        Date::lemma_view_injective(a.date, b.date);
    }
}

/// Ordering rows keeps every row, as often as it occurred.
pub proof fn lemma_ordered_permutes<T: Keyed>(rows: Seq<T>, order: Order)
    ensures
        ordered(rows, order).to_multiset() == rows.to_multiset(),
        ordered(rows, order).len() == rows.len(),
    decreases rows.len(),
{
    broadcast use vstd::seq_lib::group_to_multiset_ensures;

    if rows.len() > 0 {
        let front = ordered(rows.drop_last(), order);
        lemma_ordered_permutes(rows.drop_last(), order);
        let at = insertion_point(front, rows.last().key(), order);
        lemma_insertion_point_bounds(front, rows.last().key(), order);
        vstd::seq_lib::to_multiset_insert(front, at, rows.last());
        assert(rows.drop_last().push(rows.last()) =~= rows);
        assert(ordered(rows, order).to_multiset() =~= rows.to_multiset());
    } else {
        assert(ordered(rows, order) =~= rows);
    }
}

/// A row is among the ordered rows exactly if it is among the rows.
pub proof fn lemma_ordered_contains<T: Keyed>(rows: Seq<T>, order: Order)
    ensures
        forall|row: T|
            #![trigger ordered(rows, order).contains(row)]
            #![trigger rows.contains(row)]
            ordered(rows, order).contains(row) <==> rows.contains(row),
{
    broadcast use vstd::seq_lib::group_to_multiset_ensures;

    lemma_ordered_permutes(rows, order);
    assert forall|row: T|
        #![trigger ordered(rows, order).contains(row)]
        #![trigger rows.contains(row)]
        ordered(rows, order).contains(row) <==> rows.contains(row) by {
        assert(ordered(rows, order).to_multiset().count(row) == rows.to_multiset().count(row));
    }
}

/// Ordered rows are in order.
pub proof fn lemma_ordered_is_in_order<T: Keyed>(rows: Seq<T>, order: Order)
    ensures
        in_order(keys(ordered(rows, order)), order),
    decreases rows.len(),
{
    if rows.len() > 0 {
        let front = ordered(rows.drop_last(), order);
        let row = rows.last();
        lemma_ordered_is_in_order(rows.drop_last(), order);
        lemma_insertion_point_bounds(front, row.key(), order);
        let at = insertion_point(front, row.key(), order);
        let out = ordered(rows, order);
        assert(out == front.insert(at, row));
        assert forall|i: int, j: int| 0 <= i < j < out.len() implies !comes_first(
            keys(out)[j],
            keys(out)[i],
            order,
        ) by {
            let a = keys(out)[i];
            let b = keys(out)[j];
            if j < at {
                assert(a == keys(front)[i] && b == keys(front)[j]);
            } else if j == at {
                assert(a == front[i].key());
            } else if i < at {
                assert(a == keys(front)[i] && b == keys(front)[j - 1]);
            } else if i == at {
                // The row at `at` in `front` has to follow the new row, and
                // nothing behind it may precede it.
                assert(b == keys(front)[j - 1]);
                let pivot = keys(front)[at];
                assert(comes_first(row.key(), pivot, order));
                if j - 1 > at {
                    assert(!comes_first(b, pivot, order));
                }
                lemma_cursors_are_totally_ordered(a, b);
                lemma_cursors_are_totally_ordered(a, pivot);
                lemma_cursors_are_totally_ordered(b, pivot);
                lemma_before_is_transitive(b, a, pivot);
                lemma_before_is_transitive(pivot, a, b);
            } else {
                assert(a == keys(front)[i - 1] && b == keys(front)[j - 1]);
            }
        }
    }
}

/// The order of cursors is transitive.
pub proof fn lemma_before_is_transitive(a: PostCursor, b: PostCursor, c: PostCursor)
    ensures
        a.before(b) && b.before(c) ==> a.before(c),
{
}

/// The cursors of ordered rows are the ordered cursors of the rows.
pub proof fn lemma_keys_of_ordered<T: Keyed>(rows: Seq<T>, order: Order)
    ensures
        keys(ordered(rows, order)) == ordered(keys(rows), order),
    decreases rows.len(),
{
    if rows.len() > 0 {
        let front = ordered(rows.drop_last(), order);
        let row = rows.last();
        lemma_keys_of_ordered(rows.drop_last(), order);
        assert(keys(rows).drop_last() =~= keys(rows.drop_last()));
        assert(keys(rows).last() == row.key());
        lemma_insertion_point_of_keys(front, row.key(), order);
        lemma_insertion_point_bounds(front, row.key(), order);
        let at = insertion_point(front, row.key(), order);
        assert(keys(front.insert(at, row)) =~= keys(front).insert(at, row.key()));
    } else {
        assert(keys(ordered(rows, order)) =~= ordered(keys(rows), order));
    }
}

/// Where a row goes depends on the cursors alone.
pub proof fn lemma_insertion_point_of_keys<T: Keyed>(sorted: Seq<T>, key: PostCursor, order: Order)
    ensures
        insertion_point(keys(sorted), key, order) == insertion_point(sorted, key, order),
    decreases sorted.len(),
{
    if sorted.len() > 0 {
        assert(keys(sorted)[0] == sorted[0].key());
        assert(keys(sorted).drop_first() =~= keys(sorted.drop_first()));
        lemma_insertion_point_of_keys(sorted.drop_first(), key, order);
    }
}

/// Cursors that are in order and all different are strictly in order.
pub proof fn lemma_in_order_without_duplicates(keys: Seq<PostCursor>, order: Order)
    requires
        in_order(keys, order),
        keys.no_duplicates(),
    ensures
        strictly_in_order(keys, order),
{
    assert forall|i: int, j: int| 0 <= i < j < keys.len() implies comes_first(
        keys[i],
        keys[j],
        order,
    ) by {
        lemma_cursors_are_totally_ordered(keys[i], keys[j]);
        assert(!comes_first(keys[j], keys[i], order));
    }
}

/// Cursors that are strictly in order are all different.
pub proof fn lemma_strictly_in_order_has_no_duplicates(keys: Seq<PostCursor>, order: Order)
    requires
        strictly_in_order(keys, order),
    ensures
        keys.no_duplicates(),
        in_order(keys, order),
{
    assert forall|i: int, j: int| 0 <= i < j < keys.len() implies keys[i] != keys[j] && !comes_first(
        keys[j],
        keys[i],
        order,
    ) by {
        lemma_cursors_are_totally_ordered(keys[i], keys[j]);
        assert(comes_first(keys[i], keys[j], order));
    }
    assert forall|i: int, j: int| 0 <= i < keys.len() && 0 <= j < keys.len() && i != j implies keys[i]
        != keys[j] by {
        lemma_cursors_are_totally_ordered(keys[i], keys[j]);
        if i < j {
            assert(comes_first(keys[i], keys[j], order));
        } else {
            assert(comes_first(keys[j], keys[i], order));
        }
    }
}

/// A set of cursors can be put strictly in order in one way only: two
/// sequences that are strictly in order and hold the same cursors are equal.
pub proof fn lemma_strict_order_is_unique(a: Seq<PostCursor>, b: Seq<PostCursor>, order: Order)
    requires
        strictly_in_order(a, order),
        strictly_in_order(b, order),
        forall|key: PostCursor| a.contains(key) <==> b.contains(key),
    ensures
        a == b,
    decreases a.len(),
{
    if a.len() == 0 {
        if b.len() > 0 {
            assert(b.contains(b[0]));
        }
        assert(a =~= b);
    } else {
        assert(a.contains(a[0]));
        let k = choose|k: int| 0 <= k < b.len() && b[k] == a[0];
        assert(b.contains(b[0]));
        let l = choose|l: int| 0 <= l < a.len() && a[l] == b[0];
        lemma_cursors_are_totally_ordered(a[0], b[0]);
        if k > 0 {
            assert(comes_first(b[0], b[k], order));
        }
        if l > 0 {
            assert(comes_first(a[0], a[l], order));
        }
        assert(a[0] == b[0]);
        let a_rest = a.drop_first();
        let b_rest = b.drop_first();
        assert forall|key: PostCursor| a_rest.contains(key) <==> b_rest.contains(key) by {
            if a_rest.contains(key) {
                let i = choose|i: int| 0 <= i < a_rest.len() && a_rest[i] == key;
                assert(a[i + 1] == key);
                assert(comes_first(a[0], a[i + 1], order));
                lemma_cursors_are_totally_ordered(a[0], key);
                assert(a.contains(key));
                let j = choose|j: int| 0 <= j < b.len() && b[j] == key;
                assert(b_rest[j - 1] == key);
            }
            if b_rest.contains(key) {
                let i = choose|i: int| 0 <= i < b_rest.len() && b_rest[i] == key;
                assert(b[i + 1] == key);
                assert(comes_first(b[0], b[i + 1], order));
                lemma_cursors_are_totally_ordered(b[0], key);
                assert(b.contains(key));
                let j = choose|j: int| 0 <= j < a.len() && a[j] == key;
                assert(a_rest[j - 1] == key);
            }
        }
        assert forall|i: int, j: int| 0 <= i < j < a_rest.len() implies comes_first(
            a_rest[i],
            a_rest[j],
            order,
        ) by {
            assert(comes_first(a[i + 1], a[j + 1], order));
        }
        assert forall|i: int, j: int| 0 <= i < j < b_rest.len() implies comes_first(
            b_rest[i],
            b_rest[j],
            order,
        ) by {
            assert(comes_first(b[i + 1], b[j + 1], order));
        }
        lemma_strict_order_is_unique(a_rest, b_rest, order);
        assert(a =~= seq![a[0]] + a_rest);
        assert(b =~= seq![b[0]] + b_rest);
    }
}

} // verus!

//! Authors and colleagues.

use crate::error::QueryError;
use crate::maybe::Maybe;
use crate::post::url_in;
use crate::text::{
    chars_before, chars_of, lemma_text_before_asymmetric, lemma_text_before_transitive, strip_prefix,
    text_before, without_prefix,
};
use vstd::prelude::*;

verus! {

/// Where the images of authors are served from.
pub const AUTHORS_IMAGES: &'static str =
    "https://backend.verseghy-gimnazium.net/storage/authors_images/";

/// Where the images of colleagues are served from.
pub const COLLEAGUES_IMAGES: &'static str =
    "https://backend.verseghy-gimnazium.net/storage/colleagues_images/";

/// An author of posts, with the columns that the query selected.
#[derive(Clone, Debug, PartialEq, Eq)]
pub struct Author {
    pub id: Maybe<u32>,
    pub name: Maybe<String>,
    pub description: Maybe<Option<String>>,
    pub image: Maybe<Option<String>>,
}

/// A member of the staff, with the columns that the query selected.
#[derive(Clone, Debug, PartialEq, Eq)]
pub struct Colleague {
    pub id: Maybe<u32>,
    pub name: Maybe<String>,
    pub jobs: Maybe<Option<String>>,
    pub subjects: Maybe<Option<String>>,
    pub roles: Maybe<Option<String>>,
    pub awards: Maybe<Option<String>>,
    pub image: Maybe<Option<String>>,
    pub category: Maybe<u16>,
}

/// The title that does not count when colleagues are put in order.
pub open spec fn title() -> Seq<char> {
    seq!['D', 'r', '.', ' ']
}

impl Author {
    /// The address of the author's image, if the author has one.
    ///
    /// `ImageNotSelected` where the image was not among the selected
    /// columns.
    pub fn image(&self) -> (url: Result<Option<String>, QueryError>)
        ensures
            match self.image.option {
                None => url == Err::<Option<String>, QueryError>(QueryError::ImageNotSelected),
                Some(None) => url == Ok::<Option<String>, QueryError>(None),
                Some(Some(name)) => url matches Ok(Some(url)) && url@ == AUTHORS_IMAGES@ + name@,
            },
    {
        match &self.image.option {
            None => Err(QueryError::ImageNotSelected),
            Some(None) => Ok(None),
            Some(Some(name)) => Ok(Some(url_in(AUTHORS_IMAGES, name.as_str()))),
        }
    }
}

impl Colleague {
    /// The address of the colleague's image, if one is known.
    pub fn image(&self) -> (url: Option<String>)
        ensures
            match self.image.option {
                Some(Some(name)) => url matches Some(url) && url@ == COLLEAGUES_IMAGES@ + name@,
                _ => url is None,
            },
    {
        match &self.image.option {
            Some(Some(name)) => Some(url_in(COLLEAGUES_IMAGES, name.as_str())),
            _ => None,
        }
    }

    /// The name by which the colleague is put in order: the name without
    /// the title in front; the empty text for a colleague without a name.
    pub open spec fn sort_name(self) -> Seq<char> {
        match self.name.option {
            Some(name) => without_prefix(name@, title()),
            None => Seq::empty(),
        }
    }

    /// The name by which the colleague is put in order.
    pub fn sort_key(&self) -> (key: Vec<char>)
        ensures
            key@ == self.sort_name(),
    {
        match &self.name.option {
            Some(name) => {
                let mut dr: Vec<char> = Vec::new();
                dr.push('D');
                dr.push('r');
                dr.push('.');
                dr.push(' ');
                assert(dr@ =~= title());
                strip_prefix(&chars_of(name.as_str()), &dr)
            },
            None => Vec::new(),
        }
    }
}

/// Where a colleague called `name` goes into `sorted`: in front of the
/// first whose name comes after `name`.
pub open spec fn name_insertion_point(sorted: Seq<Colleague>, name: Seq<char>) -> int
    decreases sorted.len(),
{
    if sorted.len() == 0 {
        0
    } else if text_before(name, sorted[0].sort_name()) {
        0
    } else {
        1 + name_insertion_point(sorted.drop_first(), name)
    }
}

/// The colleagues in the order of their names, titles set aside.
/// Colleagues of one name stay in the order in which `rows` has them.
pub open spec fn by_name(rows: Seq<Colleague>) -> Seq<Colleague>
    decreases rows.len(),
{
    if rows.len() == 0 {
        rows
    } else {
        let front = by_name(rows.drop_last());
        front.insert(name_insertion_point(front, rows.last().sort_name()), rows.last())
    }
}

/// Whether no colleague stands behind one whose name comes after theirs.
pub open spec fn in_name_order(rows: Seq<Colleague>) -> bool {
    forall|i: int, j: int|
        0 <= i < j < rows.len() ==> !text_before(
            (#[trigger] rows[j]).sort_name(),
            (#[trigger] rows[i]).sort_name(),
        )
}

/// The insertion point is the one position with no later name in front of
/// it and a later name at it, if any.
proof fn lemma_name_insertion_point(sorted: Seq<Colleague>, name: Seq<char>, at: int)
    requires
        0 <= at <= sorted.len(),
        forall|j: int| 0 <= j < at ==> !text_before(name, (#[trigger] sorted[j]).sort_name()),
        at < sorted.len() ==> text_before(name, sorted[at].sort_name()),
    ensures
        name_insertion_point(sorted, name) == at,
    decreases sorted.len(),
{
    if sorted.len() > 0 && at > 0 {
        assert(!text_before(name, sorted[0].sort_name()));
        let rest = sorted.drop_first();
        assert forall|j: int| 0 <= j < at - 1 implies !text_before(
            name,
            (#[trigger] rest[j]).sort_name(),
        ) by {
            assert(rest[j] == sorted[j + 1]);
        }
        lemma_name_insertion_point(rest, name, at - 1);
    }
}

/// The insertion point lies within the sequence or at its end, with no
/// later name in front of it and a later name at it, if any.
proof fn lemma_name_insertion_point_bounds(sorted: Seq<Colleague>, name: Seq<char>)
    ensures
        0 <= name_insertion_point(sorted, name) <= sorted.len(),
        forall|j: int|
            0 <= j < name_insertion_point(sorted, name) ==> !text_before(
                name,
                (#[trigger] sorted[j]).sort_name(),
            ),
        name_insertion_point(sorted, name) < sorted.len() ==> text_before(
            name,
            sorted[name_insertion_point(sorted, name)].sort_name(),
        ),
    decreases sorted.len(),
{
    if sorted.len() > 0 && !text_before(name, sorted[0].sort_name()) {
        let rest = sorted.drop_first();
        lemma_name_insertion_point_bounds(rest, name);
        let at = name_insertion_point(sorted, name);
        assert forall|j: int| 0 <= j < at implies !text_before(
            name,
            (#[trigger] sorted[j]).sort_name(),
        ) by {
            if j > 0 {
                assert(rest[j - 1] == sorted[j]);
            }
        }
        if at < sorted.len() {
            assert(rest[at - 1] == sorted[at]);
        }
    }
}

/// Putting colleagues in order keeps every one of them, as often as they
/// occurred.
pub proof fn lemma_by_name_permutes(rows: Seq<Colleague>)
    ensures
        by_name(rows).to_multiset() == rows.to_multiset(),
        by_name(rows).len() == rows.len(),
    decreases rows.len(),
{
    broadcast use vstd::seq_lib::group_to_multiset_ensures;

    if rows.len() > 0 {
        let front = by_name(rows.drop_last());
        lemma_by_name_permutes(rows.drop_last());
        lemma_name_insertion_point_bounds(front, rows.last().sort_name());
        vstd::seq_lib::to_multiset_insert(
            front,
            name_insertion_point(front, rows.last().sort_name()),
            rows.last(),
        );
        assert(rows.drop_last().push(rows.last()) =~= rows);
        assert(by_name(rows).to_multiset() =~= rows.to_multiset());
    } else {
        assert(by_name(rows) =~= rows);
    }
}

/// Colleagues put in order are in the order of their names.
pub proof fn lemma_by_name_is_in_order(rows: Seq<Colleague>)
    ensures
        in_name_order(by_name(rows)),
    decreases rows.len(),
{
    if rows.len() > 0 {
        let front = by_name(rows.drop_last());
        let row = rows.last();
        let name = row.sort_name();
        lemma_by_name_is_in_order(rows.drop_last());
        lemma_name_insertion_point_bounds(front, name);
        let at = name_insertion_point(front, name);
        let out = by_name(rows);
        assert(out == front.insert(at, row));
        assert forall|i: int, j: int| 0 <= i < j < out.len() implies !text_before(
            (#[trigger] out[j]).sort_name(),
            (#[trigger] out[i]).sort_name(),
        ) by {
            if j < at {
                assert(out[i] == front[i] && out[j] == front[j]);
            } else if j == at {
                assert(out[i] == front[i]);
            } else if i < at {
                assert(out[i] == front[i] && out[j] == front[j - 1]);
            } else if i == at {
                assert(out[j] == front[j - 1]);
                let pivot = front[at].sort_name();
                let later = front[j - 1].sort_name();
                if j - 1 > at {
                    assert(!text_before(later, pivot));
                }
                if text_before(later, name) {
                    lemma_text_before_transitive(later, name, pivot);
                    lemma_text_before_asymmetric(later, pivot);
                }
            } else {
                assert(out[i] == front[i - 1] && out[j] == front[j - 1]);
            }
        }
    }
}

/// Puts colleagues in the order of their names, titles set aside.
pub fn sort_colleagues(rows: Vec<Colleague>) -> (sorted: Vec<Colleague>)
    ensures
        sorted@ == by_name(rows@),
{
    let ghost all = rows@;
    let mut sorted: Vec<Colleague> = Vec::new();
    let mut names: Vec<Vec<char>> = Vec::new();
    for row in it: rows
        invariant
            it.seq() == all,
            sorted@ == by_name(all.take(it.index() as int)),
            names@.len() == sorted@.len(),
            forall|j: int| 0 <= j < sorted@.len() ==> (#[trigger] names@[j])@ == sorted@[j].sort_name(),
    {
        let name = row.sort_key();
        let mut at: usize = 0;
        while at < names.len() && !chars_before(&name, &names[at])
            invariant
                at <= names.len(),
                names@.len() == sorted@.len(),
                forall|j: int|
                    0 <= j < sorted@.len() ==> (#[trigger] names@[j])@ == sorted@[j].sort_name(),
                forall|j: int| 0 <= j < at ==> !text_before(name@, (#[trigger] sorted@[j]).sort_name()),
            decreases names.len() - at,
        {
            assert(names@[at as int]@ == sorted@[at as int].sort_name());
            at = at + 1;
        }
        proof {
            if at < names.len() {
                assert(names@[at as int]@ == sorted@[at as int].sort_name());
            }
            lemma_name_insertion_point(sorted@, name@, at as int);
            let done = all.take(it.index() as int + 1);
            assert(done.drop_last() =~= all.take(it.index() as int));
            assert(done.last() == row);
        }
        let ghost old_names = names@;
        let ghost old_sorted = sorted@;
        sorted.insert(at, row);
        names.insert(at, name);
        proof {
            assert forall|j: int| 0 <= j < sorted@.len() implies (#[trigger] names@[j])@
                == sorted@[j].sort_name() by {
                if j < at {
                    assert(names@[j] == old_names[j] && sorted@[j] == old_sorted[j]);
                } else if j > at {
                    assert(names@[j] == old_names[j - 1] && sorted@[j] == old_sorted[j - 1]);
                }
            }
        }
    }
    proof {
        assert(all.take(all.len() as int) =~= all);
    }
    sorted
}

} // verus!

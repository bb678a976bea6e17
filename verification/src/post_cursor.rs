//! Cursors: the opaque tokens that mark a position between two posts.
//!
//! A cursor stands for the pair of a post's date and id.  As text it is the
//! calendar text of the date, a `#`, and the id in decimal, as in
//! `2024-01-31#69`.

use crate::date::{lemma_iso_text_alphabet, parsed_date, Date};
use crate::text::{
    append_decimal, chars_of, decimal_digits, find_char_from, first_index_of, lemma_first_index_of,
    lemma_first_index_of_unique, lemma_unsigned_round_trip, parse_unsigned, unsigned_from_text,
};
use vstd::prelude::*;
use vstd::string::StrSliceExecFns;
use vstd::string::StringExecFns;

verus! {

/// Why a text is no cursor.
#[derive(Clone, Copy, Debug, PartialEq, Eq, Structural)]
pub enum PostCursorError {
    /// What stands before the `#` cannot be read as a date.
    WrongDate,
    /// The text holds no `#`.
    WrongFormat,
    /// What stands after the `#` is not an id.
    InvalidId,
}

/// A position in the posts: the date and the id of the post it points at.
#[derive(Clone, Copy, Debug, PartialEq, Eq, Structural)]
pub struct PostCursor {
    pub date: Date,
    pub id: u32,
}

impl PostCursorError {
    /// The text shown for the error.
    pub fn message(&self) -> (text: String)
        ensures
            text@ == self.message_text(),
    {
        match self {
            PostCursorError::WrongDate => String::from_str("Wrong date format in cursor"),
            PostCursorError::WrongFormat => String::from_str("Wrong cursor format"),
            PostCursorError::InvalidId => String::from_str("Invalid id in cursor"),
        }
    }

    /// The text shown for the error.
    pub open spec fn message_text(self) -> Seq<char> {
        match self {
            PostCursorError::WrongDate => "Wrong date format in cursor"@,
            PostCursorError::WrongFormat => "Wrong cursor format"@,
            PostCursorError::InvalidId => "Invalid id in cursor"@,
        }
    }
}

impl PostCursor {
    /// The cursor that points at the post of the given date and id.
    pub fn new(date: Date, id: u32) -> (cursor: Self)
        ensures
            cursor.date == date,
            cursor.id == id,
    {
        PostCursor { date, id }
    }

    /// The date of the post pointed at.
    pub fn date(&self) -> (date: Date)
        ensures
            date == self.date,
    {
        self.date
    }

    /// The id of the post pointed at.
    pub fn id(&self) -> (id: u32)
        ensures
            id == self.id,
    {
        self.id
    }

    /// Whether `self` comes before `other` in the order of posts: by date,
    /// and among posts of one date by id.
    pub open spec fn before(self, other: PostCursor) -> bool {
        self.date.before(other.date) || (self.date@ == other.date@ && self.id < other.id)
    }

    /// Whether `self` comes before `other` in the order of posts.
    pub fn precedes(&self, other: &PostCursor) -> (b: bool)
        ensures
            b == self.before(*other),
    {
        if self.date.lt(&other.date) {
            true
        } else if other.date.lt(&self.date) {
            false
        } else {
            self.id < other.id
        }
    }

    /// The cursor as text.
    pub open spec fn encoded(self) -> Seq<char> {
        self.date.text() + seq!['#'] + decimal_digits(self.id as nat)
    }

    /// What a text decodes to.  The text is cut at its first `#`; what stands
    /// before it is read as a date by chrono, what stands after it as an id.
    /// A missing `#` is reported first, then a wrong date, then a wrong id.
    pub open spec fn decoded(text: Seq<char>) -> Result<PostCursor, PostCursorError> {
        let cut = first_index_of(text, '#');
        if cut >= text.len() {
            Err(PostCursorError::WrongFormat)
        } else {
            Self::assembled(
                parsed_date(text.take(cut)),
                unsigned_from_text(text.skip(cut + 1), u32::MAX as nat),
            )
        }
    }

    /// The cursor made of a date and an id that were read, or the error for
    /// the one that was not.
    pub open spec fn assembled(date: Option<Date>, id: Option<nat>) -> Result<
        PostCursor,
        PostCursorError,
    > {
        match (date, id) {
            (None, _) => Err(PostCursorError::WrongDate),
            (Some(_), None) => Err(PostCursorError::InvalidId),
            (Some(date), Some(id)) => Ok(PostCursor { date, id: id as u32 }),
        }
    }

    /// Puts together what was read from the two halves of a cursor text.  A
    /// date that could not be read counts before an id that could not.
    pub fn assemble(date: Option<Date>, id: Option<u32>) -> (cursor: Result<
        PostCursor,
        PostCursorError,
    >)
        ensures
            cursor == Self::assembled(
                date,
                match id {
                    Some(id) => Some(id as nat),
                    None => None,
                },
            ),
    {
        match date {
            None => Err(PostCursorError::WrongDate),
            Some(date) => match id {
                None => Err(PostCursorError::InvalidId),
                Some(id) => Ok(PostCursor { date, id }),
            },
        }
    }

    /// Writes the cursor as text.
    pub fn encode_cursor(&self) -> (text: String)
        ensures
            text@ == self.encoded(),
    {
        let mut text = self.date.to_value();
        proof {
            reveal_strlit("#");
        }
        text.append("#");
        append_decimal(&mut text, self.id as u64);
        assert(text@ =~= self.encoded());
        text
    }

    /// Reads a cursor from text.
    ///
    /// The outcome is [`PostCursor::decoded`] of the text.  In particular the
    /// text that [`PostCursor::encode_cursor`] writes for a cursor is read
    /// back as that cursor.
    pub fn decode_cursor(s: &str) -> (cursor: Result<PostCursor, PostCursorError>)
        ensures
            cursor == Self::decoded(s@),
            forall|c: PostCursor|
                c.date.valid() && s@ == #[trigger] c.encoded() ==> cursor == Ok::<
                    PostCursor,
                    PostCursorError,
                >(c),
    {
        let chars = chars_of(s);
        let cut = find_char_from(&chars, 0, '#');
        assert(chars@.skip(0) =~= s@);
        if cut >= chars.len() {
            proof {
                assert forall|c: PostCursor| s@ == #[trigger] c.encoded() implies false by {
                    lemma_encoded_shape(c);
                }
            }
            return Err(PostCursorError::WrongFormat);
        }
        let date = Date::parse_from_str(s.substring_char(0, cut));
        let id = match parse_unsigned(&chars, cut + 1, chars.len(), u32::MAX as u64) {
            Some(id) => Some(id as u32),
            None => None,
        };
        proof {
            assert(s@.take(cut as int) =~= s@.subrange(0, cut as int));
            assert(s@.skip(cut + 1) =~= chars@.subrange(cut + 1, chars.len() as int));
            assert forall|c: PostCursor| c.date.valid() && s@ == #[trigger] c.encoded() implies date
                == Some(c.date) && id == Some(c.id) by {
                lemma_encoded_shape(c);
                lemma_encoded_halves(c);
            }
        }
        Self::assemble(date, id)
    }
}

/// In the text of a cursor the first `#` stands right behind the date.
pub proof fn lemma_encoded_shape(c: PostCursor)
    ensures
        c.date.valid() ==> first_index_of(c.encoded(), '#') == c.date.text().len(),
        first_index_of(c.encoded(), '#') < c.encoded().len(),
{
    let text = c.encoded();
    let date = c.date.text();
    lemma_first_index_of(text, '#');
    assert(text[date.len() as int] == '#');
    if c.date.valid() {
        Date::lemma_valid_view(c.date);
        lemma_iso_text_alphabet(c.date@);
        assert forall|i: int| 0 <= i < date.len() implies #[trigger] text[i] != '#' by {
            assert(text[i] == date[i]);
        }
        lemma_first_index_of_unique(text, '#', date.len() as int);
    }
}

/// The text of a cursor, cut at its first `#`, falls into the calendar text
/// of its date and the decimal text of its id, and the latter reads as the id.
pub proof fn lemma_encoded_halves(c: PostCursor)
    requires
        c.date.valid(),
    ensures
        ({
            let text = c.encoded();
            let cut = first_index_of(text, '#');
            &&& text.take(cut) == c.date.text()
            &&& text.skip(cut + 1) == decimal_digits(c.id as nat)
            &&& unsigned_from_text(text.skip(cut + 1), u32::MAX as nat) == Some(c.id as nat)
        }),
{
    lemma_encoded_shape(c);
    let text = c.encoded();
    let cut = first_index_of(text, '#');
    assert(text.take(cut) =~= c.date.text());
    assert(text.skip(cut + 1) =~= decimal_digits(c.id as nat));
    lemma_unsigned_round_trip(c.id as nat, u32::MAX as nat);
}

} // verus!

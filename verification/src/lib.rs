//! Keyset pagination for date-ordered posts, with the calendar, cursor and
//! text helpers around it.

pub mod calendar;
pub mod columns;
pub mod connection;
pub mod date;
pub mod error;
pub mod health;
pub mod maybe;
pub mod order;
pub mod paginate;
pub mod people;
pub mod post;
pub mod post_cursor;
pub mod request;
pub mod search;
pub mod text;
pub mod traversal;
pub mod window;

//! Search queries in several scripts.
//!
//! A user who searches for "肖邦", "蕭邦", "xiaobang" or "Chopin" reaches the
//! same composer. A dictionary gives the names that belong together: in
//! English, in simplified and traditional Chinese, and in Pinyin. A query is
//! cut into tokens, and for each script one variant of the query is made in
//! which every known token stands in that script.

pub mod alias;

pub use alias::expand_query;

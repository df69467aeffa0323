//! A library for displaying tabular data in, for instance, a command line app.
//!
//! A [`Colonnade`] holds a number of columns and the width of a viewport. Given
//! rows of text it works out how wide each column may be, and hands back the
//! lines of the table: wrapped, padded and aligned, as plain strings
//! ([`Colonnade::tabulate`]) or in pieces that can be decorated before they are
//! put together ([`Colonnade::macerate`]).
//!
//! If there is not enough space in a column to fit the text, it is wrapped at
//! white space. A word that is too long for its column is split, and the split
//! is marked with a hyphen, unless the column is only one character wide. The
//! layout can be controlled by minimum and maximum column widths and by column
//! priorities: columns of lower priority, which is a higher priority number,
//! give up space first.
//!
//! The width of a column and the columns of a table are fields that can be
//! read and written; what else a column or a table holds is set through their
//! functions. Every function states what it computes over a mathematical
//! model, and the models say of these fields what the fields hold:
//!
//! * [`column`] has the columns and their settings, with [`ColumnModel`];
//! * [`text`] splits text into words and measures it;
//! * [`layout`] says what widths the columns get, and [`resolver`] computes
//!   them;
//! * [`compose`] says what lines a row gives, and [`composer`] builds them;
//! * [`table`] has the [`Colonnade`] itself, with [`ColonnadeModel`];
//! * [`laws`] holds what is proved of all tables: that resolved widths fit the
//!   viewport, that they stay until something changes, and more;
//! * [`bounds`] and [`sums`] hold what the proofs need of sizes and of sums.

pub mod bounds;
pub mod column;
pub mod compose;
pub mod composer;
pub mod error;
pub mod laws;
pub mod layout;
pub mod resolver;
pub mod sums;
pub mod table;
pub mod text;

pub use crate::column::{Alignment, Column, ColumnModel, Configuration, VerticalAlignment};
pub use crate::error::ColonnadeError;
pub use crate::table::{Colonnade, ColonnadeModel, Frame};

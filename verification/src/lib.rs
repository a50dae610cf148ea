//! Annotates stock-simulation reports with the price movement that was
//! actually observed.
//!
//! A report is an HTML document in which each prediction has a header of
//! class `item-header`, whose first text is a ticker symbol, and a `div`
//! whose id is that symbol. A run reads two dates, finds the symbols, gets
//! the quotes of each between the two dates from elsewhere, and writes the
//! percent change after the prediction.
//!
//! The modules follow a run:
//! - [`dates`] reads the two dates and checks the arguments; [`calendar`]
//!   says which days exist, and [`date_text`] that every day is read back
//!   from its usual text.
//! - [`symbols`] finds the symbols of a document.
//! - [`quotes`] reduces the quotes of a symbol to a percent change.
//! - [`annotate`] writes a percent change beside its symbol; [`digits`]
//!   writes the number.
//! - [`render`] turns the document back into text.
//! - [`text`] holds what the others need of character sequences.
//!
//! The document is the node list of `html_editor`; [`markup`] gives it a
//! model, over which all contracts are stated, and [`query`] says what the
//! selector queries find. Reading and writing files, fetching quotes and
//! parsing the document are left to the caller.
//!
//! Proved is everything but what `html_editor` and `time` do: which elements
//! a selector matches, which element a query hands out, what trimming and
//! writing a document give, and which days the calendar has. Each of these
//! is a function or a declaration whose comment begins with the name of what
//! it stands for and says, after the word "Trusted", what is taken from it.

pub mod annotate;
pub mod calendar;
pub mod date_text;
pub mod dates;
pub mod digits;
pub mod markup;
pub mod query;
pub mod quotes;
pub mod render;
pub mod symbols;
pub mod text;

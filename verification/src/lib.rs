//! Tab-completion for a multi-level command-line tool.
//!
//! A static grammar ([`Command`], [`Option_`], [`Positional`]) describes the
//! tool. Given the partially typed command line, the library finds the command
//! whose arguments are being typed and lists the tokens that may come next.

pub mod command;
pub mod completable;
pub mod decode;
pub mod driver;
pub mod laws;
pub mod line;
pub mod model;
pub mod option;
pub mod resolver;
pub mod structures;
pub mod text;

pub use completable::Completable;
pub use driver::{context_end, routine};
pub use structures::{ArgumentCount, Command, ExpectedType, Option_, Positional, Profile};

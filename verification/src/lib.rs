//! Role-tagged signal-processing definitions.
//!
//! A definition is a function whose parameters are tagged as state, input,
//! output or environment. This library checks such a definition, plans the
//! processing unit it describes, and defines how that unit works through a
//! block of samples; it also walks several channels of a block in step, and
//! reads note names.

pub mod block;
pub mod channel;
pub mod decl;
pub mod emit;
pub mod error;
pub mod first;
pub mod iteration;
pub mod note;
pub mod options;
pub mod role;
pub mod run;
pub mod signal;
pub mod syntax;
pub mod text;
pub mod unit;
pub mod wiring;

pub use emit::{processor, processor_attribute};
pub use iteration::iter_proc_io_as;
pub use note::{note, note_array, parse_note};

//! Verified core of a terminal flashcard trainer.
//!
//! Vocabulary terms are organised as levels that hold missions that hold
//! terms. The library provides the store of terms with its well-formedness
//! invariant, the menu navigation stack and option resolver, the practice
//! session state machine, decimal/label text building, the centered
//! screen layout arithmetic, and the emitter of the persisted JSON
//! document. Terminal input/output, the file system, and the external
//! lookup subprocess live outside the library and only feed it plain
//! values.

pub mod codec;
pub mod layout;
pub mod nav;
pub mod session;
pub mod store;
pub mod text;

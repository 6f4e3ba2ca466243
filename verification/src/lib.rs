//! Save-data core of a small calendar-driven collecting game.
//!
//! The library models a fictional calendar with irregular month lengths,
//! a closed taxonomy of collectible items with a round-trippable text
//! encoding, a ledger of item counts, the save aggregate built from both,
//! a single-occupant save slot with scoped access, and the codec that
//! turns a save aggregate into encrypted bytes and back.

pub mod calendar;
pub mod codec;
pub mod crypt;
pub mod item;
pub mod ledger;
pub mod save;
pub mod text;

use vstd::prelude::*;

verus! {

/// Failure of loading or storing a save: the file could not be read or
/// written, the ciphertext did not decrypt, or the decrypted text was not
/// a well-formed save document.
#[derive(Debug, Clone, Copy, PartialEq, Eq, Structural)]
pub enum LoadError {
    FileError,
    DecryptError,
    DeserializeError,
}

} // verus!

//! A case-insensitive path-matching search over tree-shaped, JSON-like data.
//!
//! A [`search::SearchTerm`] holds a validated, ASCII-lowercased query and
//! matches it as a substring against displayed values and object keys.
//! [`search::SearchTerm::find_matching_paths_in`] walks a [`tree::TreeValue`]
//! depth-first and returns the persistent identifiers of every prefix of
//! every matching path — exactly the containers a caller must keep expanded
//! to reveal all matches — while collecting, as a side effect, the identifier
//! of every expandable node it passes, so the caller can reset unrelated
//! expansion state. Identifiers are opaque `u64` tokens produced by a
//! caller-chosen strategy implementing [`ids::PersistentIdMaker`].

pub mod ids;
pub mod search;
pub mod text;
pub mod tree;

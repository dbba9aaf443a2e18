//! The polynomial commitment scheme of Kate, Zaverucha and Goldberg over the
//! pairing-friendly curve BLS12-377.
//!
//! A committer publishes one group element for a polynomial `p`, and later
//! proves to a verifier that a claimed value `v` is the evaluation of `p` at a
//! point `z` of the verifier's choice.

pub mod bounds;
pub mod certificate;
pub mod check;
pub mod commit;
pub mod data_structures;
pub mod encoding;
pub mod error;
pub mod field;
pub mod group;
pub mod kzg10;
pub mod laws;
pub mod modular;
pub mod open;
pub mod pairing;
pub mod polynomial;
pub mod prime;
pub mod results;
pub mod setup;
pub mod tables;

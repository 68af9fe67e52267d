//! Content-derived fingerprints of machine code, portable signature bundles,
//! archive merging and fingerprint-based function matching.
pub mod archive;
pub mod codec;
pub mod constraints;
pub mod fingerprint;
pub mod fingerprint_laws;
pub mod guid;
pub mod index;
pub mod matcher;
pub mod materialize;
pub mod plugin;
pub mod signature;

//! Deterministic archive-and-fingerprint builder.
//!
//! Files are appended to a tar stream in the order they are discovered, while a
//! per-file digest is collected for each of them; the fingerprint is the fold of
//! those digests in sorted order, so it does not depend on traversal order.
pub mod archive;
pub mod fingerprint;
pub mod hash;
pub mod injective;
pub mod invariance;
pub mod order;
pub mod packer;
pub mod paths;

pub use fingerprint::{aggregate, file_digest, fold_in_order};
pub use hash::{extend, hash_bytes, hex_encode};
pub use order::{lex_less_eq, sort_digests};
pub use packer::{is_executable, Packer, TarError, EXECUTABLE_MODE, REGULAR_MODE};
pub use paths::{copy_from, destination_path, relative_path, SEPARATOR};

//! Construction and serialization of Flattened Devicetree (FDT) blobs.
//!
//! A devicetree is built as a tree of named nodes, each carrying named
//! properties with raw byte values.  [`Fdt::finish`] serializes the tree,
//! together with a list of reserved physical memory ranges, into the
//! big-endian binary blob format consumed by boot firmware and kernels.

pub mod error;
pub mod fdt;
pub mod header;
pub mod laws;
pub mod name;
pub mod node;
pub mod order;
pub mod propval;
pub mod reserve;
pub mod strings;
pub mod structure;
pub mod util;

pub use error::Error;
pub use fdt::Fdt;
pub use reserve::FdtReserveEntry;
pub use node::FdtNode;
pub use propval::FdtPropval;
pub use propval::propval_to_bytes;
pub use name::is_valid_node_name;
pub use name::is_valid_prop_name;
pub use util::align_data;
pub use util::align_pad_len;

//! Transformation of WebAssembly debug information into native debug data.
//!
//! The library maps source bytecode offsets to generated machine-code ranges,
//! prunes the debug-info entry graph down to entries still referenced by
//! surviving code, clones the retained entries with rewritten addresses,
//! location expressions and line tables, synthesizes fallback entries for
//! code without a source mapping, and patches an object-file byte buffer
//! into a directly loadable image anchored at a live code address.

pub mod address_transform;
pub mod dwarf;
pub mod emit;
pub mod gc;
pub mod transform;
pub mod image;
pub mod simulate;
pub mod types;

pub use crate::transform::transform_dwarf;
pub use crate::transform::TransformError;
pub use crate::dwarf::DebugInfoData;
pub use crate::emit::{ResolvedSymbol, SymbolResolver};
pub use crate::types::SourceLoc;

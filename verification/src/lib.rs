//! A managed-memory runtime core: a precise, moving, semi-space garbage
//! collector paired with a NaN-boxed tagged-value representation and a
//! handle-based rooting API.
//!
//! The heap owns a bump-allocated [`space::Space`]; host code roots objects
//! through [`heap::HandleScope`] frames and [`heap::GlobalHandle`] slots and
//! causes collection explicitly with [`heap::Heap::collect`]. Survivors are
//! relocated into a fresh space via forwarding pointers; dead objects are
//! finalized after the space swap.
//!
//! Raw addresses are modelled as indices into the current space's object
//! table, and doubles travel as their 64-bit IEEE bit patterns, so every
//! observable rule of the runtime (tag encodings, bump arithmetic, the
//! copying pass) is stated and proved here.

pub mod heap;
pub mod object;
pub mod pointer;
pub mod space;
pub mod types;

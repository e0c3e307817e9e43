//! Safe, verified traversal over a package-metadata cache.
//!
//! The cache hands out *cursors*: stateful, single-direction pointers into a
//! sequence of entries. A freshly opened cursor is already positioned at its
//! first entry; advancing it invalidates whatever was read at the previous
//! position. [`CIterator`] wraps that raw protocol into a lazy, borrow-safe
//! sequence abstraction, and [`Cache`] builds the package / version / origin
//! cursor hierarchy on top of it.

mod citer;
mod raw;
mod sane;
pub mod simple;
pub mod vercmp;

pub use citer::Borrowed;
pub use citer::CFilterMap;
pub use citer::CIterator;
pub use citer::CMap;
pub use citer::RawIterator;
pub use raw::CacheHolder;
pub use raw::PkgData;
pub use raw::PkgFileData;
pub use raw::PkgFileRecord;
pub use raw::PkgRecord;
pub use raw::VerData;
pub use raw::VerFileData;
pub use raw::VerFileRecord;
pub use raw::VerRecord;
pub use sane::Cache;
pub use sane::CacheError;
pub use sane::PkgFileIterator;
pub use sane::PkgFileView;
pub use sane::PkgIterator;
pub use sane::PkgView;
pub use sane::VerFileIterator;
pub use sane::VerFileView;
pub use sane::VerIterator;
pub use sane::VerView;

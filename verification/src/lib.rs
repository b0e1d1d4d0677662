//! A mutable font document (layers, glyphs, contours, points) addressed
//! through indirect, long-lived handles.
//!
//! Every node below the document carries an identity token assigned when the
//! node enters the document. A handle stores its parent handle, a cached
//! position and that token; resolution trusts the cached position only after
//! re-checking the token, and otherwise repairs the position by a linear
//! scan. A handle whose target was removed fails with a typed error instead
//! of silently pointing at the wrong node.

pub mod document;
pub mod error;
pub mod index;
pub mod proxy;
pub mod identifier;
pub mod store;
pub mod token;
pub mod ufo;
pub mod util;

//! A verified slot-extraction pass over a JSX-style markup tree.
//!
//! Markup authors may nest `<slot name="...">...</slot>` elements inside an
//! element's children to fill named properties positionally.  The transform
//! in this crate removes every such slot child and reinjects its content as
//! a named attribute on the enclosing element, resolving nested slots bottom
//! up and reporting malformed slots through an explicit diagnostic list.

pub mod laws;
pub mod slot;
pub mod tree;
pub mod visitor;

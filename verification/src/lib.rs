//! An HTML sanitization library: a policy-driven filter over parsed HTML
//! fragment trees.
//!
//! Untrusted HTML is parsed by an external HTML5 parser into a tree of
//! nodes; the tree walker in this crate keeps, rewrites or drops elements
//! and attributes according to a declarative [`Policy`], and the surviving
//! tree is re-serialized by the external serializer.
//!
//! [`Policy`]: policy::Policy

pub mod classes;
pub mod cleaner;
pub mod css;
pub mod defaults;
pub mod escape;
pub mod ext;
pub mod filter;
pub mod laws;
pub mod node;
pub mod policy;
pub mod strutil;
pub mod walker;

pub use cleaner::clean;
pub use cleaner::Cleaner;
pub use cleaner::PolicyError;
pub use escape::clean_text;
pub use ext::is_html;
pub use filter::AttrFilter;
pub use filter::NoFilter;
pub use filter::TokenFilter;
pub use node::{Attr, Node, SAttr, SNode};
pub use policy::Policy;

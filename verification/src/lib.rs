//! A verified static site generator core: discovering markdown sources,
//! mapping source paths to HTML destination paths, rewriting intra-site
//! links, decorating external links, and wrapping rendered fragments in a
//! fixed page shell.

pub mod discovery;
pub mod events;
pub mod links;
pub mod path;
pub mod pipeline;
pub mod strutil;
pub mod template;
pub mod transform;

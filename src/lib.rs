//! Static website generation for a version-controlled source tree: a commit log,
//! one page per commit, and a browsable mirror of the head tree.

pub mod commit;
pub mod error;
pub mod highlight;
pub mod laws;

pub mod text;
pub mod tree;
pub mod markup;
pub mod repository;
pub mod site;
pub mod url;

pub use error::{InvalidUtf, SiteError};
pub use url::UrlResolver;

//! Static documentation generator core: path filtering, file-tree
//! compilation and rendering, and Markdown-to-MDX rewriting.

pub mod constants;
pub mod fetcher;
pub mod format;
pub mod formatter;
pub mod generator;
pub mod loader;
pub mod models;
pub mod special_categories;
pub mod text;
pub mod tree;


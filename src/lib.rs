//! A static blog generator's core: file-name parsing, frontmatter extraction,
//! post and index page rendering, all verified against their contracts.

pub mod filename;
pub mod frontmatter;
pub mod index;
pub mod pipeline;
pub mod render;
pub mod text;

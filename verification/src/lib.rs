pub mod args;
pub mod error;
pub mod git;
pub mod makepkg;
pub mod rewrite;
pub mod strutil;

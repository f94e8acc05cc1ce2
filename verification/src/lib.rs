use vstd::prelude::*;

pub mod path;
pub mod routing;
pub mod dirty;
pub mod reactive;
pub mod keyed;
pub mod each_mount;
pub mod patch;
pub mod text;
pub mod patch_page;
pub mod split_flags_page;
pub mod dom_page;
pub mod components;

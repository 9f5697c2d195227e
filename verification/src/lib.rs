use vstd::prelude::*;

pub mod bytes;
pub mod codec;
pub mod counter;
pub mod json;
pub mod keys;
pub mod platform;
pub mod png;
pub mod rect;
pub mod renderer;
pub mod rounded;
pub mod safe_mode;
pub mod scheme;
pub mod sidebar_hover;
pub mod suggest;
pub mod tabs;
pub mod task;
pub mod test_hooks;
pub mod text;
pub mod translate;
pub mod unzip;
pub mod update;
pub mod urls;
pub mod window;

verus! {

} // verus!

//! Posting work to the UI thread.
use vstd::prelude::*;

verus! {

/// How a task is posted.
#[derive(Debug, Clone, Copy, PartialEq, Eq, Structural)]
pub enum Post {
    /// As the next task.
    Next,
    /// After this many milliseconds.
    After(i64),
}

/// How a task with a delay is posted: without one (zero or less) it is the next task.
pub fn post_ui_delayed(delay_ms: i64) -> (r: Post)
    ensures
        r == (if delay_ms <= 0 { Post::Next } else { Post::After(delay_ms) }),
{
    if delay_ms <= 0 { Post::Next } else { Post::After(delay_ms) }
}

} // verus!

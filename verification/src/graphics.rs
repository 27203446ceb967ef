use vstd::prelude::*;

verus! {

/// The type key of window components; spawning one is announced with
/// `SystemMessage::WindowCreated`.
pub const WINDOW: u64 = 11;

/// Label of the stage run when a window is redrawn (`RENDER`).
pub struct Render;

/// Marks the window created at start-up.
pub struct PrimaryWindow;

/// Kind of a pointer event: a button went down.
pub struct Down;

/// Kind of a pointer event: a button went up.
pub struct Up;

} // verus!

//! What a scene of the program offers.
use vstd::prelude::*;

verus! {

/// A scene that is set up once, updated and drawn every frame, and cleaned up
/// at the end.
pub trait Scene: Sized {
    fn new(vs_glsl: &str, fs_glsl: &str) -> Self;

    fn init(&mut self);

    fn update(&self);

    fn draw(&self);

    fn cleanup(&self);
}

} // verus!

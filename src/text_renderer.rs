use vstd::prelude::*;

verus! {

/// The pixel size of the area that text is laid out in.
pub struct TextRenderer {
    pub viewport_width: u32,
    pub viewport_height: u32,
}

impl TextRenderer {
    /// A layout area of 800 by 600 pixels.
    pub fn new() -> (r: TextRenderer)
        ensures
            r.viewport_width == 800,
            r.viewport_height == 600,
    {
        TextRenderer { viewport_width: 800, viewport_height: 600 }
    }

    pub fn update_viewport(&mut self, width: u32, height: u32)
        ensures
            final(self).viewport_width == width,
            final(self).viewport_height == height,
    {
        self.viewport_width = width;
        self.viewport_height = height;
    }
}

} // verus!

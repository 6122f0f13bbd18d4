use vstd::prelude::*;

use crate::vec2::Vec2;

verus! {

/// What to ask of a new window; each setting left `None` takes the
/// platform's default.
#[derive(Clone, Debug, Default, PartialEq, Eq)]
pub struct WindowSettings {
    pub title: Option<String>,
    pub size: Option<Vec2<u32>>,
    pub canvas_id: Option<String>,
}

impl WindowSettings {
    /// Settings that leave everything to the platform.
    pub fn new() -> (w: WindowSettings)
        ensures
            w.title is None,
            w.size is None,
            w.canvas_id is None,
    {
        WindowSettings { title: None, size: None, canvas_id: None }
    }

    pub fn title(self, s: String) -> (w: WindowSettings)
        ensures
            w.title == Some(s),
            w.size == self.size,
            w.canvas_id == self.canvas_id,
    {
        WindowSettings { title: Some(s), ..self }
    }

    pub fn size(self, v: Vec2<u32>) -> (w: WindowSettings)
        ensures
            w.title == self.title,
            w.size == Some(v),
            w.canvas_id == self.canvas_id,
    {
        WindowSettings { size: Some(v), ..self }
    }

    /// The id of the HTML canvas to draw into, where the platform has one.
    pub fn canvas_id(self, id: String) -> (w: WindowSettings)
        ensures
            w.title == self.title,
            w.size == self.size,
            w.canvas_id == Some(id),
    {
        WindowSettings { canvas_id: Some(id), ..self }
    }
}

} // verus!

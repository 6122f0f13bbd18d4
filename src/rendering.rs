use vstd::prelude::*;

verus! {

/// How a texture is sampled between texels.
#[derive(Clone, Copy, Debug, PartialEq, Eq, Structural)]
pub enum TextureFiltering {
    Nearest,
    Linear,
}

/// The element type of a vertex attribute.
#[derive(Clone, Copy, Debug, PartialEq, Eq, Structural)]
pub enum VertexAttributeType {
    Float,
    Unsigned,
}

impl VertexAttributeType {
    /// Size in bytes of one element.
    pub fn size(self) -> (n: usize)
        ensures
            n == 4,
    {
        match self {
            VertexAttributeType::Float => 4,
            VertexAttributeType::Unsigned => 4,
        }
    }
}

} // verus!

//! Point vertices: the position and base colour of each splat.

use vstd::prelude::*;
use crate::record::RawSplat;

verus! {

/// A coloured point, as bit patterns of single-precision numbers.
#[derive(Clone, Copy, Debug, PartialEq, Eq)]
pub struct Vertex {
    /// Position (x, y, z).
    pub pos: [u32; 3],
    /// Colour: the zeroth-order colour coefficient of the splat.
    pub color: [u32; 3],
}

/// The vertex of a splat: its position and its zeroth-order colour coefficient.
pub open spec fn vertex_of(s: RawSplat) -> Vertex {
    Vertex { pos: s.pos, color: s.f_dc }
}

/// Makes one vertex per splat, in the same order.
pub fn make_point_vertices(splats: &[RawSplat]) -> (vertices: Vec<Vertex>)
    ensures
        vertices@ == splats@.map_values(|s: RawSplat| vertex_of(s)),
{
    let mut vertices: Vec<Vertex> = Vec::new();
    let mut i: usize = 0;
    while i < splats.len()
        invariant
            i <= splats@.len(),
            vertices@.len() == i,
            forall|j: int| 0 <= j < i ==> vertices@[j] == vertex_of(splats@[j]),
        decreases splats@.len() - i,
    {
        let s = &splats[i];
        vertices.push(Vertex { pos: s.pos, color: s.f_dc });
        i += 1;
    }
    assert(vertices@ =~= splats@.map_values(|s: RawSplat| vertex_of(s)));
    vertices
}

} // verus!

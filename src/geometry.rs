use vstd::prelude::*;

verus! {

/// One vertex of a submodel: position, normal, tangent and texture coordinate.
/// Each float component is held as its IEEE-754 bit pattern, so the library
/// moves vertices around without ever doing float arithmetic on them.
#[derive(Clone, Copy, Debug, PartialEq, Eq)]
pub struct Vertex {
    pub position: [u32; 3],
    pub normal: [u32; 3],
    pub tangent: [u32; 3],
    pub tex_coord: [u32; 2],
}

/// Every index names an existing vertex.
pub open spec fn indices_in_bounds(vertex_count: nat, indices: Seq<u32>) -> bool {
    forall|k: int| 0 <= k < indices.len() ==> (#[trigger] indices[k] as nat) < vertex_count
}

/// The vertex stream obtained by dereferencing each index, in index order.
pub open spec fn expanded(vertices: Seq<Vertex>, indices: Seq<u32>) -> Seq<Vertex> {
    Seq::new(indices.len(), |k: int| vertices[indices[k] as int])
}

/// Turns an indexed vertex list into the flat stream `out[k] = vertices[indices[k]]`.
/// An index past the end of `vertices` is a malformed payload and is ruled out
/// by the precondition.
pub fn expand_indexed(vertices: &Vec<Vertex>, indices: &Vec<u32>) -> (out: Vec<Vertex>)
    requires
        indices_in_bounds(vertices@.len(), indices@),
    ensures
        out@ == expanded(vertices@, indices@),
{
    let mut out: Vec<Vertex> = Vec::with_capacity(indices.len());
    let mut k: usize = 0;
    while k < indices.len()
        invariant
            k <= indices@.len(),
            indices_in_bounds(vertices@.len(), indices@),
            out@.len() == k,
            forall|j: int| 0 <= j < k ==> #[trigger] out@[j] == vertices@[indices@[j] as int],
        decreases indices@.len() - k,
    {
        let i = indices[k] as usize;
        assert((indices@[k as int] as nat) < vertices@.len());
        out.push(vertices[i]);
        k += 1;
    }
    assert(out@ =~= expanded(vertices@, indices@));
    out
}

} // verus!

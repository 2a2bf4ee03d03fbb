//! Assembling triangles from an indexed face: the computed half of mesh
//! loading. A face is a list of 1-based vertex indices; every index past
//! the second closes a triangle against the face's first two corners.
use vstd::prelude::*;

use crate::tree::Triangle;
use crate::vec3::Vec3;

verus! {

/// Every index of the face is 1-based and within the vertex list.
pub open spec fn face_indices_valid(face: Seq<usize>, n_vertexes: nat) -> bool {
    forall|i: int| 0 <= i < face.len() ==> 1 <= #[trigger] face[i] <= n_vertexes
}

/// The `k`-th triangle of the fan over `face`: the face's first two corners
/// and its `k+2`-nd.
pub open spec fn fan_triangle(vertexes: Seq<Vec3>, face: Seq<usize>, k: int) -> Triangle {
    Triangle {
        v0: vertexes[face[0] - 1],
        v1: vertexes[face[1] - 1],
        v2: vertexes[face[k + 2] - 1],
    }
}

/// Turn one face into triangles. Returns `None` exactly when the face has
/// fewer than two corners or some index is out of range; otherwise one
/// triangle per corner past the second.
pub fn fan_triangles(vertexes: &Vec<Vec3>, face: &Vec<usize>) -> (r: Option<Vec<Triangle>>)
    ensures
        match r {
            Option::None => face@.len() < 2 || !face_indices_valid(face@, vertexes@.len()),
            Option::Some(tris) => {
                &&& face@.len() >= 2
                &&& face_indices_valid(face@, vertexes@.len())
                &&& tris@.len() == face@.len() - 2
                &&& forall|k: int|
                    0 <= k < tris@.len() ==> #[trigger] tris@[k] == fan_triangle(
                        vertexes@,
                        face@,
                        k,
                    )
            },
        },
{
    if face.len() < 2 {
        return None;
    }
    let mut i: usize = 0;
    while i < face.len()
        invariant
            0 <= i <= face@.len(),
            forall|j: int| 0 <= j < i ==> 1 <= #[trigger] face@[j] <= vertexes@.len(),
        decreases face@.len() - i,
    {
        let idx = face[i];
        if idx < 1 || idx > vertexes.len() {
            return None;
        }
        i += 1;
    }
    let c1 = vertexes[face[0] - 1];
    let c2 = vertexes[face[1] - 1];
    let mut tris: Vec<Triangle> = Vec::new();
    let mut k: usize = 2;
    while k < face.len()
        invariant
            2 <= k <= face@.len(),
            face@.len() >= 2,
            face_indices_valid(face@, vertexes@.len()),
            c1 == vertexes@[face@[0] - 1],
            c2 == vertexes@[face@[1] - 1],
            tris@.len() == k - 2,
            forall|j: int|
                0 <= j < tris@.len() ==> #[trigger] tris@[j] == fan_triangle(
                    vertexes@,
                    face@,
                    j,
                ),
        decreases face@.len() - k,
    {
        let c3 = vertexes[face[k] - 1];
        tris.push(Triangle { v0: c1, v1: c2, v2: c3 });
        k += 1;
    }
    Some(tris)
}

} // verus!

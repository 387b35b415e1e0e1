//! Navigation meshes: the polygons that a static mesh's index list gives,
//! and the grid areas of navigation meshes and obstacles.

use vstd::prelude::*;

verus! {

/// Why a navigation mesh could not be built.
#[derive(Clone, Copy, PartialEq, Eq, Structural, Debug)]
pub enum NavMeshError {
    HeightmapError,
    RasterizeError,
    PolyMeshError,
}

/// The grid area of a navigation mesh: its corner and its size, in cells.
#[derive(Clone, Copy, Debug)]
pub struct NavMeshDimensions {
    pub position: [i32; 2],
    pub area_size: [i32; 2],
}

/// The grid area of an obstacle: its corner and its size, in cells.
#[derive(Clone, Copy, Debug)]
pub struct NavMeshObstacleTransform {
    pub position_x: i32,
    pub position_z: i32,
    pub area_size: [i32; 2],
}

/// Whether `polygons` and `types` are the triangles of the index list
/// `indices`, three indices each, a last group of fewer than three left
/// out, every triangle of type 0.
pub open spec fn polygons_of(indices: Seq<u32>, polygons: Seq<Vec<usize>>, types: Seq<usize>) -> bool {
    &&& polygons.len() == indices.len() / 3
    &&& types.len() == polygons.len()
    &&& forall|k: int|
        0 <= k < polygons.len() ==> #[trigger] polygons[k]@ == seq![
            indices[3 * k] as usize,
            indices[3 * k + 1] as usize,
            indices[3 * k + 2] as usize,
        ]
    &&& forall|k: int| 0 <= k < types.len() ==> #[trigger] types[k] == 0
}

/// The polygons of a navigation mesh made from a mesh's index list, with
/// the type of each.
pub fn navmesh_polygons(indices: &Vec<u32>) -> (r: (Vec<Vec<usize>>, Vec<usize>))
    ensures
        polygons_of(indices@, r.0@, r.1@),
{
    let mut polygons: Vec<Vec<usize>> = Vec::new();
    let mut types: Vec<usize> = Vec::new();
    let n = indices.len();
    let count = n / 3;
    let mut k: usize = 0;
    while k < count
        invariant
            n == indices@.len(),
            count == indices@.len() / 3,
            k <= count,
            polygons@.len() == k,
            types@.len() == k,
            forall|j: int|
                0 <= j < k ==> #[trigger] polygons@[j]@ == seq![
                    indices@[3 * j] as usize,
                    indices@[3 * j + 1] as usize,
                    indices@[3 * j + 2] as usize,
                ],
            forall|j: int| 0 <= j < k ==> #[trigger] types@[j] == 0,
        decreases count - k,
    {
        assert(3 * k + 2 < indices@.len()) by (nonlinear_arith)
            requires
                k < indices@.len() / 3,
        ;
        let a = indices[3 * k] as usize;
        let b = indices[3 * k + 1] as usize;
        let c = indices[3 * k + 2] as usize;
        let mut polygon: Vec<usize> = Vec::new();
        polygon.push(a);
        polygon.push(b);
        polygon.push(c);
        assert(polygon@ =~= seq![a, b, c]);
        polygons.push(polygon);
        types.push(0);
        k = k + 1;
    }
    (polygons, types)
}

} // verus!

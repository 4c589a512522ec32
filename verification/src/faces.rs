//! Faces that close the cut, as a tessellation of the boundary loops gives
//! them, and their place in the two halves.
use vstd::prelude::*;
use crate::coord::{NEG_ONE, ONE};
use crate::geom::{Triangle3, Vertex3};
use crate::split::SplitModel;

verus! {

/// The direction of rising height.
pub open spec fn up() -> Vertex3 {
    Vertex3 { x: 0, y: 0, z: ONE }
}

/// The direction of falling height.
pub open spec fn down() -> Vertex3 {
    Vertex3 { x: 0, y: 0, z: NEG_ONE }
}

/// The face with the number `t` of a tessellation: its corners are the
/// vertices that the indices `3 t`, `3 t + 1` and `3 t + 2` name, and it
/// faces up.
pub open spec fn face(vertices: Seq<Vertex3>, indices: Seq<u16>, t: int) -> Triangle3 {
    Triangle3::of(
        up(),
        vertices[indices[3 * t] as int],
        vertices[indices[3 * t + 1] as int],
        vertices[indices[3 * t + 2] as int],
    )
}

/// The face turned over: its last two corners exchanged, facing down.
pub open spec fn turned_down(face: Triangle3) -> Triangle3 {
    Triangle3::of(down(), face.vertices[0], face.vertices[2], face.vertices[1])
}

/// The face turned over: its last two corners exchanged, facing up.
pub open spec fn turned_up(face: Triangle3) -> Triangle3 {
    Triangle3::of(up(), face.vertices[0], face.vertices[2], face.vertices[1])
}

/// The faces of a tessellation. `vertices` are its corners and `indices`
/// name the corners of each face, three by three; indices behind the last
/// full three are not read.
pub fn build_faces(vertices: &Vec<Vertex3>, indices: &Vec<u16>) -> (faces: Vec<Triangle3>)
    requires
        forall|i: int| 0 <= i < indices.len() ==> (#[trigger] indices[i]) < vertices.len(),
    ensures
        faces.len() == indices.len() / 3,
        forall|t: int| 0 <= t < faces.len() ==> #[trigger] faces[t] == face(vertices@, indices@, t),
{
    let mut faces: Vec<Triangle3> = Vec::new();
    let count: usize = indices.len() / 3;
    let mut t: usize = 0;
    while t < count
        invariant
            t <= count,
            count == indices.len() / 3,
            faces.len() == t,
            forall|i: int| 0 <= i < indices.len() ==> (#[trigger] indices[i]) < vertices.len(),
            forall|u: int| 0 <= u < t ==> #[trigger] faces[u] == face(vertices@, indices@, u),
        decreases count - t,
    {
        let i: usize = 3 * t;
        let a: Vertex3 = vertices[indices[i] as usize];
        let b: Vertex3 = vertices[indices[i + 1] as usize];
        let c: Vertex3 = vertices[indices[i + 2] as usize];
        faces.push(Triangle3 { normal: Vertex3 { x: 0, y: 0, z: ONE }, vertices: [a, b, c] });
        t = t + 1;
    }
    faces
}

/// Turns faces that face down over, so that they face up.
pub fn face_up(faces: &Vec<Triangle3>) -> (turned: Vec<Triangle3>)
    ensures
        turned@ == faces@.map_values(|f: Triangle3| turned_up(f)),
{
    let mut turned: Vec<Triangle3> = Vec::new();
    let n: usize = faces.len();
    let mut k: usize = 0;
    while k < n
        invariant
            k <= n,
            n == faces.len(),
            turned@ == faces@.take(k as int).map_values(|f: Triangle3| turned_up(f)),
        decreases n - k,
    {
        let f: Triangle3 = faces[k];
        turned.push(
            Triangle3 {
                normal: Vertex3 { x: 0, y: 0, z: ONE },
                vertices: [f.vertices[0], f.vertices[2], f.vertices[1]],
            },
        );
        proof {
            assert(faces@.take(k + 1) =~= faces@.take(k as int).push(f));
            assert(turned@ =~= faces@.take(k + 1).map_values(|f: Triangle3| turned_up(f)));
        }
        k = k + 1;
    }
    proof {
        assert(faces@.take(n as int) =~= faces@);
    }
    turned
}

impl SplitModel {
    /// Closes both halves with the faces of the cut: the upper half gets
    /// them as they are, the lower half gets them turned over.
    pub fn close_with(&mut self, faces: &Vec<Triangle3>)
        ensures
            final(self).edge@ == old(self).edge@,
            final(self).zplus@ == old(self).zplus@ + faces@,
            final(self).zminus@ == old(self).zminus@ + faces@.map_values(
                |f: Triangle3| turned_down(f),
            ),
    {
        let n: usize = faces.len();
        let mut k: usize = 0;
        while k < n
            invariant
                k <= n,
                n == faces.len(),
                self.edge@ == old(self).edge@,
                self.zplus@ == old(self).zplus@ + faces@.take(k as int),
                self.zminus@ == old(self).zminus@ + faces@.take(k as int).map_values(
                    |f: Triangle3| turned_down(f),
                ),
            decreases n - k,
        {
            let f: Triangle3 = faces[k];
            self.zplus.push(f);
            self.zminus.push(
                Triangle3 {
                    normal: Vertex3 { x: 0, y: 0, z: NEG_ONE },
                    vertices: [f.vertices[0], f.vertices[2], f.vertices[1]],
                },
            );
            proof {
                assert(faces@.take(k + 1) =~= faces@.take(k as int).push(f));
                assert(self.zplus@ =~= old(self).zplus@ + faces@.take(k + 1));
                assert(self.zminus@ =~= old(self).zminus@ + faces@.take(k + 1).map_values(
                    |f: Triangle3| turned_down(f),
                ));
            }
            k = k + 1;
        }
        proof {
            assert(faces@.take(n as int) =~= faces@);
        }
    }
}

} // verus!

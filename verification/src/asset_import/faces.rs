//! Faces with any number of corners, cut into triangles.

use vstd::prelude::*;

verus! {

/// Why a mesh has no triangles to give.
#[derive(Debug, Clone, Copy, PartialEq, Eq, Structural)]
pub enum MeshError {
    /// A face asks for more corners than the index list has left.
    InconsistentFaces,
    /// A corner names a vertex that the mesh does not have.
    IndexOutOfRange,
    /// The mesh has no vertex, or no face has three corners.
    NoTriangles,
}

/// `sum`, or the largest length when `sum` is beyond it.
pub open spec fn spec_saturate(sum: int) -> int {
    if sum > usize::MAX {
        usize::MAX as int
    } else {
        sum
    }
}

/// The triangles of the face whose corners start at `cursor`, as far as they use the
/// corners up to number `upto`: the first corner with each two corners that follow
/// one another.
pub open spec fn fan(indices: Seq<usize>, cursor: int, upto: int) -> Seq<u32>
    decreases upto,
{
    if upto <= 1 {
        Seq::empty()
    } else {
        fan(indices, cursor, upto - 1) + seq![
            indices[cursor] as u32,
            indices[cursor + upto - 1] as u32,
            indices[cursor + upto] as u32,
        ]
    }
}

/// Whether the corners that `fan` uses up to number `upto` all name a vertex.
pub open spec fn fan_in_range(indices: Seq<usize>, cursor: int, upto: int, vertices: int) -> bool {
    forall|corner: int| 0 <= corner <= upto ==> #[trigger] indices[cursor + corner] < vertices
}

/// Where the first `faces` faces leave the cursor into the index list, and the
/// triangles they give. A face with fewer than three corners gives none, and its
/// corners are skipped.
pub open spec fn walk(counts: Seq<usize>, indices: Seq<usize>, vertices: int, faces: int) -> Result<
    (int, Seq<u32>),
    MeshError,
>
    decreases faces,
{
    if faces <= 0 {
        Ok((0, Seq::empty()))
    } else {
        match walk(counts, indices, vertices, faces - 1) {
            Err(fault) => Err(fault),
            Ok((cursor, triangles)) => {
                let count = counts[faces - 1] as int;
                if count < 3 {
                    Ok((spec_saturate(cursor + count), triangles))
                } else if cursor + count > indices.len() {
                    Err(MeshError::InconsistentFaces)
                } else if !fan_in_range(indices, cursor, count - 1, vertices) {
                    Err(MeshError::IndexOutOfRange)
                } else {
                    Ok((cursor + count, triangles + fan(indices, cursor, count - 1)))
                }
            },
        }
    }
}

/// The corners of the triangles that the faces give, three for each triangle, or why
/// there are none. Of several faults, that of the first faulty face is reported.
pub open spec fn spec_triangulate(counts: Seq<usize>, indices: Seq<usize>, vertices: int) -> Result<
    Seq<u32>,
    MeshError,
> {
    match walk(counts, indices, vertices, counts.len() as int) {
        Err(fault) => Err(fault),
        Ok((_, triangles)) => if vertices == 0 || triangles.len() == 0 {
            Err(MeshError::NoTriangles)
        } else {
            Ok(triangles)
        },
    }
}

/// A fan has three corners for each triangle, and each names a vertex.
pub proof fn lemma_fan(indices: Seq<usize>, cursor: int, upto: int, vertices: int)
    requires
        fan_in_range(indices, cursor, upto, vertices),
        vertices <= u32::MAX + 1,
    ensures
        fan(indices, cursor, upto).len() == if upto <= 1 {
            0
        } else {
            3 * (upto - 1)
        },
        forall|at: int| 0 <= at < fan(indices, cursor, upto).len() ==> fan(indices, cursor, upto)[at] < vertices,
    decreases upto,
{
    if upto > 1 {
        lemma_fan(indices, cursor, upto - 1, vertices);
        assert(indices[cursor + 0] < vertices);
        assert(indices[cursor + (upto - 1)] < vertices);
        assert(indices[cursor + upto] < vertices);
    }
}

/// The corners that `walk` gives come in threes, and each names a vertex.
pub proof fn lemma_walk(counts: Seq<usize>, indices: Seq<usize>, vertices: int, faces: int)
    requires
        vertices <= u32::MAX + 1,
        walk(counts, indices, vertices, faces) is Ok,
    ensures
        walk(counts, indices, vertices, faces)->Ok_0.0 >= 0,
        walk(counts, indices, vertices, faces)->Ok_0.1.len() % 3 == 0,
        forall|at: int|
            0 <= at < walk(counts, indices, vertices, faces)->Ok_0.1.len() ==> walk(
                counts,
                indices,
                vertices,
                faces,
            )->Ok_0.1[at] < vertices,
    decreases faces,
{
    if faces > 0 {
        lemma_walk(counts, indices, vertices, faces - 1);
        let (cursor, triangles) = walk(counts, indices, vertices, faces - 1)->Ok_0;
        let count = counts[faces - 1] as int;
        if count >= 3 {
            lemma_fan(indices, cursor, count - 1, vertices);
        }
    }
}

/// Every corner of a triangulation names a vertex, and the corners come in threes.
pub proof fn lemma_triangles_name_vertices(counts: Seq<usize>, indices: Seq<usize>, vertices: int)
    requires
        vertices <= u32::MAX + 1,
        spec_triangulate(counts, indices, vertices) is Ok,
    ensures
        spec_triangulate(counts, indices, vertices)->Ok_0.len() % 3 == 0,
        spec_triangulate(counts, indices, vertices)->Ok_0.len() >= 3,
        forall|at: int|
            0 <= at < spec_triangulate(counts, indices, vertices)->Ok_0.len() ==> spec_triangulate(
                counts,
                indices,
                vertices,
            )->Ok_0[at] < vertices,
{
    lemma_walk(counts, indices, vertices, counts.len() as int);
}

/// Cuts each face into a fan of triangles. `face_counts` gives the number of corners
/// of each face, `face_indices` the vertices of the corners, face after face, and
/// `vertex_count` the number of vertices of the mesh.
pub fn triangulate_faces(face_counts: &[usize], face_indices: &[usize], vertex_count: usize) -> (result:
    Result<Vec<u32>, MeshError>)
    ensures
        result is Ok <==> spec_triangulate(face_counts@, face_indices@, vertex_count as int) is Ok,
        result is Ok ==> result->Ok_0@ == spec_triangulate(
            face_counts@,
            face_indices@,
            vertex_count as int,
        )->Ok_0,
        result is Err ==> result->Err_0 == spec_triangulate(
            face_counts@,
            face_indices@,
            vertex_count as int,
        )->Err_0,
{
    let mut triangles: Vec<u32> = Vec::new();
    let mut cursor: usize = 0;
    let mut face: usize = 0;
    let total: usize = face_indices.len();
    while face < face_counts.len()
        invariant
            face <= face_counts@.len(),
            total == face_indices@.len(),
            walk(face_counts@, face_indices@, vertex_count as int, face as int) == Ok::<
                (int, Seq<u32>),
                MeshError,
            >((cursor as int, triangles@)),
        decreases face_counts@.len() - face,
    {
        let count: usize = face_counts[face];
        if count < 3 {
            cursor = if cursor > usize::MAX - count {
                usize::MAX
            } else {
                cursor + count
            };
        } else {
            if cursor > total || count > total - cursor {
                proof {
                    assert(walk(face_counts@, face_indices@, vertex_count as int, face + 1) is Err);
                    lemma_walk_stays_failed(
                        face_counts@,
                        face_indices@,
                        vertex_count as int,
                        face + 1,
                        face_counts@.len() as int,
                    );
                }
                return Err(MeshError::InconsistentFaces);
            }
            let base: usize = face_indices[cursor];
            let ghost before = triangles@;
            let mut corner: usize = 1;
            while corner < count - 1
                invariant
                    3 <= count,
                    cursor + count <= face_indices@.len() == total,
                    1 <= corner <= count - 1,
                    base == face_indices@[cursor as int],
                    corner > 1 ==> fan_in_range(face_indices@, cursor as int, corner as int, vertex_count as int),
                    triangles@ == before + fan(face_indices@, cursor as int, corner as int),
                    face < face_counts@.len(),
                    count == face_counts@[face as int],
                    walk(face_counts@, face_indices@, vertex_count as int, face as int) == Ok::<
                        (int, Seq<u32>),
                        MeshError,
                    >((cursor as int, before)),
                decreases count - corner,
            {
                let second: usize = face_indices[cursor + corner];
                let third: usize = face_indices[cursor + corner + 1];
                if base >= vertex_count || second >= vertex_count || third >= vertex_count {
                    proof {
                        if base >= vertex_count {
                            assert(!(face_indices@[cursor + 0] < vertex_count));
                        } else if second >= vertex_count {
                            assert(!(face_indices@[cursor + corner] < vertex_count));
                        } else {
                            assert(!(face_indices@[cursor + (corner + 1)] < vertex_count));
                        }
                        assert(!fan_in_range(
                            face_indices@,
                            cursor as int,
                            count - 1,
                            vertex_count as int,
                        ));
                        assert(walk(face_counts@, face_indices@, vertex_count as int, face + 1)
                            is Err);
                        lemma_walk_stays_failed(
                            face_counts@,
                            face_indices@,
                            vertex_count as int,
                            face + 1,
                            face_counts@.len() as int,
                        );
                    }
                    return Err(MeshError::IndexOutOfRange);
                }
                triangles.push(#[verifier::truncate] (base as u32));
                triangles.push(#[verifier::truncate] (second as u32));
                triangles.push(#[verifier::truncate] (third as u32));
                proof {
                    assert(triangles@ =~= before + fan(
                        face_indices@,
                        cursor as int,
                        corner as int + 1,
                    ));
                    assert forall|at: int| 0 <= at <= corner + 1 implies #[trigger] face_indices@[cursor
                        + at] < vertex_count by {
                        if at < corner {
                            if corner > 1 {
                                assert(face_indices@[cursor + at] < vertex_count);
                            } else {
                                assert(at == 0);
                            }
                        }
                    }
                }
                corner += 1;
            }
            cursor += count;
        }
        face += 1;
    }
    if vertex_count == 0 || triangles.len() == 0 {
        return Err(MeshError::NoTriangles);
    }
    Ok(triangles)
}

/// Once a face is faulty, the fault stays whatever faces follow.
pub proof fn lemma_walk_stays_failed(
    counts: Seq<usize>,
    indices: Seq<usize>,
    vertices: int,
    failed: int,
    later: int,
)
    requires
        walk(counts, indices, vertices, failed) is Err,
        failed <= later,
    ensures
        walk(counts, indices, vertices, later) == walk(counts, indices, vertices, failed),
    decreases later - failed,
{
    if failed < later {
        lemma_walk_stays_failed(counts, indices, vertices, failed, later - 1);
    }
}

} // verus!

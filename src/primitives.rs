//! Procedural meshes: the cube, the quad and the icosphere, built on `Mesh`.
use vstd::prelude::*;
use crate::layout::{AttribArray, AttribArrayBuilder, AttribType, PushedAttrib, built_from};
use crate::mesh::{
    Face, Mesh, MeshError, MeshView, faces_view, records_view, records_fit, faces_fit, face_fits,
    applied_3, append_record, maps_record,
};

verus! {

/// The attributes that every primitive's records carry, in order.
pub open spec fn standard_attribs() -> Seq<PushedAttrib> {
    seq![
        ("position"@, AttribType::Position, 3nat),
        ("normal"@, AttribType::Normal, 3nat),
        ("color"@, AttribType::ColorRgb, 3nat),
        ("uv"@, AttribType::Uv, 2nat),
    ]
}

/// A layout built from the standard attributes has stride 11, with
/// position, normal, colour and texture coordinates at 0, 3, 6 and 9.
pub proof fn lemma_standard_layout(l: crate::layout::LayoutView)
    requires
        built_from(standard_attribs(), l),
    ensures
        l.stride == 11,
        l.attribs[0].offset == 0,
        l.attribs[1].offset == 3,
        l.attribs[2].offset == 6,
        l.attribs[3].offset == 9,
{
    reveal_with_fuel(crate::layout::seq_sum, 5);
    let lens = crate::layout::pushed_lengths(standard_attribs());
    assert(lens =~= seq![3nat, 3nat, 3nat, 2nat]);
    assert(lens.drop_last() =~= seq![3nat, 3nat, 3nat]);
    assert(lens.drop_last().drop_last() =~= seq![3nat, 3nat]);
    assert(lens.drop_last().drop_last().drop_last() =~= seq![3nat]);
    assert(lens.drop_last().drop_last().drop_last().drop_last() =~= Seq::<nat>::empty());
    assert(lens.take(0) =~= Seq::<nat>::empty());
    assert(lens.take(1) =~= seq![3nat]);
    assert(lens.take(2) =~= seq![3nat, 3nat]);
    assert(lens.take(3) =~= seq![3nat, 3nat, 3nat]);
    assert(seq![3nat, 3nat].drop_last() =~= seq![3nat]);
    assert(seq![3nat, 3nat, 3nat].drop_last() =~= seq![3nat, 3nat]);
    assert(seq![3nat].drop_last() =~= Seq::<nat>::empty());
}

/// Components per record of the primitives' layout.
pub const STANDARD_STRIDE: usize = 11;

/// The primitives' layout: position, normal and colour of three components
/// each, then two texture coordinates.
pub fn standard_layout() -> (r: AttribArray)
    ensures
        built_from(standard_attribs(), r@),
        r@.stride == STANDARD_STRIDE,
        r@.attribs[0].offset == 0,
        r@.attribs[1].offset == 3,
        r@.attribs[2].offset == 6,
        r@.attribs[3].offset == 9,
{
    let b = AttribArrayBuilder::new();
    let b = b.push("position", 3, AttribType::Position);
    let b = b.push("normal", 3, AttribType::Normal);
    let b = b.push("color", 3, AttribType::ColorRgb);
    let b = b.push("uv", 2, AttribType::Uv);
    let ghost pushed = b@;
    let r = b.build();
    proof {
        assert(pushed =~= standard_attribs());
        lemma_standard_layout(r@);
    }
    r
}

/// Two triangles for each of `quads` quadrilaterals of four consecutive
/// vertices `b..b+4`: `(b, b+1, b+2)` and `(b+2, b+3, b)`.
pub open spec fn quad_face_list(quads: nat) -> Seq<(usize, usize, usize)>
    decreases quads,
{
    if quads == 0 {
        Seq::empty()
    } else {
        let b = 4 * (quads - 1);
        quad_face_list((quads - 1) as nat) + seq![
            (b as usize, (b + 1) as usize, (b + 2) as usize),
            ((b + 2) as usize, (b + 3) as usize, b as usize),
        ]
    }
}

/// The faces of `quads` quadrilaterals over consecutive vertices.
pub fn quad_faces(quads: usize) -> (r: Vec<Face>)
    requires
        4 * quads <= usize::MAX,
    ensures
        faces_view(r@) == quad_face_list(quads as nat),
{
    let mut faces: Vec<Face> = Vec::new();
    let mut q: usize = 0;
    while q < quads
        invariant
            q <= quads,
            4 * quads <= usize::MAX,
            faces_view(faces@) == quad_face_list(q as nat),
        decreases quads - q,
    {
        let b = 4 * q;
        let ghost before = faces@;
        faces.push(Face::new(b, b + 1, b + 2));
        faces.push(Face::new(b + 2, b + 3, b));
        assert(faces_view(faces@) =~= faces_view(before) + seq![
            (b, (b + 1) as usize, (b + 2) as usize),
            ((b + 2) as usize, (b + 3) as usize, b),
        ]);
        q += 1;
    }
    faces
}

/// The faces of `quads` quadrilaterals name only vertices below `4 * quads`.
pub proof fn lemma_quad_faces_fit(quads: nat)
    requires
        4 * quads <= usize::MAX,
    ensures
        quad_face_list(quads).len() == 2 * quads,
        faces_fit(quad_face_list(quads), 4 * quads),
    decreases quads,
{
    if quads > 0 {
        let prev = (quads - 1) as nat;
        lemma_quad_faces_fit(prev);
        let fs = quad_face_list(quads);
        assert forall|i: int| 0 <= i < fs.len() implies crate::mesh::face_fits(#[trigger] fs[i], 4 * quads) by {
            if i < quad_face_list(prev).len() {
                assert(fs[i] == quad_face_list(prev)[i]);
                assert(crate::mesh::face_fits(quad_face_list(prev)[i], 4 * prev));
            }
        }
    }
}

/// Corners of the `i`-th face of the icosahedron over its twelve vertices.
pub open spec fn icosahedron_face(i: int) -> (usize, usize, usize) {
    if i == 0 {
        (0, 11, 5)
    } else if i == 1 {
        (0, 5, 1)
    } else if i == 2 {
        (0, 1, 7)
    } else if i == 3 {
        (0, 7, 10)
    } else if i == 4 {
        (0, 10, 11)
    } else if i == 5 {
        (1, 5, 9)
    } else if i == 6 {
        (5, 11, 4)
    } else if i == 7 {
        (11, 10, 2)
    } else if i == 8 {
        (10, 7, 6)
    } else if i == 9 {
        (7, 1, 8)
    } else if i == 10 {
        (3, 9, 4)
    } else if i == 11 {
        (3, 4, 2)
    } else if i == 12 {
        (3, 2, 6)
    } else if i == 13 {
        (3, 6, 8)
    } else if i == 14 {
        (3, 8, 9)
    } else if i == 15 {
        (4, 9, 5)
    } else if i == 16 {
        (2, 4, 11)
    } else if i == 17 {
        (6, 2, 10)
    } else if i == 18 {
        (8, 6, 7)
    } else {
        (9, 8, 1)
    }
}

/// The twenty faces of the icosahedron.
pub open spec fn icosahedron_face_list() -> Seq<(usize, usize, usize)> {
    Seq::new(20, |i: int| icosahedron_face(i))
}

/// Number of vertices of the icosahedron.
pub const ICOSAHEDRON_VERTICES: usize = 12;

/// Number of faces of the icosahedron.
pub const ICOSAHEDRON_FACES: usize = 20;

fn icosahedron_face_at(i: usize) -> (r: Face)
    requires
        i < ICOSAHEDRON_FACES,
    ensures
        r@ == icosahedron_face(i as int),
{
    if i == 0 {
        Face::new(0, 11, 5)
    } else if i == 1 {
        Face::new(0, 5, 1)
    } else if i == 2 {
        Face::new(0, 1, 7)
    } else if i == 3 {
        Face::new(0, 7, 10)
    } else if i == 4 {
        Face::new(0, 10, 11)
    } else if i == 5 {
        Face::new(1, 5, 9)
    } else if i == 6 {
        Face::new(5, 11, 4)
    } else if i == 7 {
        Face::new(11, 10, 2)
    } else if i == 8 {
        Face::new(10, 7, 6)
    } else if i == 9 {
        Face::new(7, 1, 8)
    } else if i == 10 {
        Face::new(3, 9, 4)
    } else if i == 11 {
        Face::new(3, 4, 2)
    } else if i == 12 {
        Face::new(3, 2, 6)
    } else if i == 13 {
        Face::new(3, 6, 8)
    } else if i == 14 {
        Face::new(3, 8, 9)
    } else if i == 15 {
        Face::new(4, 9, 5)
    } else if i == 16 {
        Face::new(2, 4, 11)
    } else if i == 17 {
        Face::new(6, 2, 10)
    } else if i == 18 {
        Face::new(8, 6, 7)
    } else {
        Face::new(9, 8, 1)
    }
}

/// The faces of the icosahedron, over the twelve vertices at
/// `(±1, ±t, 0)`, `(0, ±1, ±t)` and `(±t, 0, ±1)` (t the golden ratio) in the
/// order `(-1, t, 0)`, `(1, t, 0)`, `(-1, -t, 0)`, `(1, -t, 0)`,
/// `(0, -1, t)`, `(0, 1, t)`, `(0, -1, -t)`, `(0, 1, -t)`, `(t, 0, -1)`,
/// `(t, 0, 1)`, `(-t, 0, -1)`, `(-t, 0, 1)`.
pub fn icosahedron_faces() -> (r: Vec<Face>)
    ensures
        faces_view(r@) == icosahedron_face_list(),
        faces_fit(icosahedron_face_list(), ICOSAHEDRON_VERTICES as nat),
{
    let mut faces: Vec<Face> = Vec::new();
    let mut i: usize = 0;
    while i < ICOSAHEDRON_FACES
        invariant
            i <= ICOSAHEDRON_FACES,
            faces_view(faces@) == icosahedron_face_list().take(i as int),
        decreases ICOSAHEDRON_FACES - i,
    {
        let ghost before = faces@;
        let f = icosahedron_face_at(i);
        faces.push(f);
        assert(faces_view(faces@) =~= faces_view(before).push(f@));
        assert(icosahedron_face_list().take(i as int + 1) =~= icosahedron_face_list().take(
            i as int,
        ).push(icosahedron_face(i as int)));
        i += 1;
    }
    assert(icosahedron_face_list().take(20) =~= icosahedron_face_list());
    assert forall|k: int| 0 <= k < 20 implies crate::mesh::face_fits(
        #[trigger] icosahedron_face_list()[k],
        12,
    ) by {
        assert(icosahedron_face_list()[k] == icosahedron_face(k));
    }
    faces
}

/// The unit cube's records: for each of its six sides four records of
/// position, normal, colour and texture coordinates.
pub open spec fn cube_table() -> Seq<Seq<i32>> {
    seq![
        seq![0i32, 0, 0, 0, 0, -1i32, 1, 0, 0, 0, 0],
        seq![0i32, 0, 0, 0, 0, -1i32, 1, 0, 0, 0, 0],
        seq![0i32, 0, 0, 0, 0, -1i32, 1, 0, 0, 0, 0],
        seq![1i32, 0, 0, 0, 0, -1i32, 1, 0, 0, 0, 1],
        seq![0i32, 0, 1, 0, 0, 1, 1, 0, 1, 0, 0],
        seq![1i32, 0, 1, 0, 0, 1, 1, 0, 1, 0, 1],
        seq![1i32, 1, 1, 0, 0, 1, 1, 0, 1, 1, 1],
        seq![0i32, 1, 1, 0, 0, 1, 1, 0, 1, 1, 0],
        seq![0i32, 0, 0, -1i32, 0, 0, 0, 1, 1, 0, 0],
        seq![0i32, 0, 1, -1i32, 0, 0, 0, 1, 1, 1, 0],
        seq![0i32, 1, 1, -1i32, 0, 0, 0, 1, 1, 1, 1],
        seq![0i32, 1, 0, -1i32, 0, 0, 0, 1, 1, 0, 1],
        seq![1i32, 0, 0, 1, 0, 0, 1, 1, 0, 0, 0],
        seq![1i32, 1, 0, 1, 0, 0, 1, 1, 0, 0, 1],
        seq![1i32, 1, 1, 1, 0, 0, 1, 1, 0, 1, 1],
        seq![1i32, 0, 1, 1, 0, 0, 1, 1, 0, 1, 0],
        seq![0i32, 0, 0, 0, -1i32, 0, 0, 0, 1, 0, 0],
        seq![1i32, 0, 0, 0, -1i32, 0, 0, 0, 1, 0, 1],
        seq![1i32, 0, 1, 0, -1i32, 0, 0, 0, 1, 1, 1],
        seq![0i32, 0, 1, 0, -1i32, 0, 0, 0, 1, 1, 0],
        seq![0i32, 1, 1, 0, 1, 0, 0, 1, 0, 1, 0],
        seq![1i32, 1, 1, 0, 1, 0, 0, 1, 0, 1, 1],
        seq![1i32, 1, 0, 0, 1, 0, 0, 1, 0, 0, 1],
        seq![0i32, 1, 0, 0, 1, 0, 0, 1, 0, 0, 0],
    ]
}

fn cube_records() -> (r: Vec<Vec<i32>>)
    ensures
        r@.len() == 24,
        records_view(r@) == cube_table(),
        records_fit(records_view(r@), STANDARD_STRIDE as nat),
{
    let r = vec![
        vec![0, 0, 0, 0, 0, -1, 1, 0, 0, 0, 0],
        vec![0, 0, 0, 0, 0, -1, 1, 0, 0, 0, 0],
        vec![0, 0, 0, 0, 0, -1, 1, 0, 0, 0, 0],
        vec![1, 0, 0, 0, 0, -1, 1, 0, 0, 0, 1],
        vec![0, 0, 1, 0, 0, 1, 1, 0, 1, 0, 0],
        vec![1, 0, 1, 0, 0, 1, 1, 0, 1, 0, 1],
        vec![1, 1, 1, 0, 0, 1, 1, 0, 1, 1, 1],
        vec![0, 1, 1, 0, 0, 1, 1, 0, 1, 1, 0],
        vec![0, 0, 0, -1, 0, 0, 0, 1, 1, 0, 0],
        vec![0, 0, 1, -1, 0, 0, 0, 1, 1, 1, 0],
        vec![0, 1, 1, -1, 0, 0, 0, 1, 1, 1, 1],
        vec![0, 1, 0, -1, 0, 0, 0, 1, 1, 0, 1],
        vec![1, 0, 0, 1, 0, 0, 1, 1, 0, 0, 0],
        vec![1, 1, 0, 1, 0, 0, 1, 1, 0, 0, 1],
        vec![1, 1, 1, 1, 0, 0, 1, 1, 0, 1, 1],
        vec![1, 0, 1, 1, 0, 0, 1, 1, 0, 1, 0],
        vec![0, 0, 0, 0, -1, 0, 0, 0, 1, 0, 0],
        vec![1, 0, 0, 0, -1, 0, 0, 0, 1, 0, 1],
        vec![1, 0, 1, 0, -1, 0, 0, 0, 1, 1, 1],
        vec![0, 0, 1, 0, -1, 0, 0, 0, 1, 1, 0],
        vec![0, 1, 1, 0, 1, 0, 0, 1, 0, 1, 0],
        vec![1, 1, 1, 0, 1, 0, 0, 1, 0, 1, 1],
        vec![1, 1, 0, 0, 1, 0, 0, 1, 0, 0, 1],
        vec![0, 1, 0, 0, 1, 0, 0, 1, 0, 0, 0],
    ];
    assert forall|i: int| 0 <= i < 24 implies (#[trigger] records_view(r@)[i]).len() == 11 by {
        assert(records_view(r@)[i] == r@[i]@);
    }
    assert forall|i: int| 0 <= i < 24 implies #[trigger] records_view(r@)[i] == cube_table()[i] by {
        assert(records_view(r@)[i] == r@[i]@);
        assert(r@[i]@ =~= cube_table()[i]);
    }
    assert(records_view(r@) =~= cube_table());
    r
}

/// The cube with corners at 0 and 1 on each axis, its sides made of four
/// records each (so that each side has its own normal and texture
/// coordinates) and two triangles.
pub fn unit_cube() -> (r: Mesh<i32>)
    ensures
        r.wf(),
        r@.vertices.len() == 24,
        r@.vertices == cube_table(),
        r@.faces == quad_face_list(6),
        built_from(standard_attribs(), r@.layout),
{
    let vertices = cube_records();
    let faces = quad_faces(6);
    let layout = standard_layout();
    proof {
        lemma_quad_faces_fit(6);
    }
    match Mesh::new(vertices, faces, layout) {
        Ok(m) => m,
        Err(_) => {
            proof {
                assert(false);
            }
            Mesh::empty(standard_layout())
        },
    }
}

/// The quad: one side's four records and two triangles.
pub fn unit_quad() -> (r: Mesh<i32>)
    ensures
        r.wf(),
        r@.vertices == cube_table().take(4),
        r@.faces == seq![(0usize, 1usize, 2usize), (0usize, 3usize, 2usize)],
        built_from(standard_attribs(), r@.layout),
{
    let vertices: Vec<Vec<i32>> = vec![
        vec![0, 0, 0, 0, 0, -1, 1, 0, 0, 0, 0],
        vec![0, 0, 0, 0, 0, -1, 1, 0, 0, 0, 0],
        vec![0, 0, 0, 0, 0, -1, 1, 0, 0, 0, 0],
        vec![1, 0, 0, 0, 0, -1, 1, 0, 0, 0, 1],
    ];
    let faces = vec![Face::new(0, 1, 2), Face::new(0, 3, 2)];
    let layout = standard_layout();
    proof {
        assert forall|i: int| 0 <= i < 4 implies (#[trigger] records_view(vertices@)[i]).len() == 11 by {
            assert(records_view(vertices@)[i] == vertices@[i]@);
        }
        assert forall|i: int| 0 <= i < 4 implies #[trigger] records_view(vertices@)[i] == cube_table()[i] by {
            assert(records_view(vertices@)[i] == vertices@[i]@);
            assert(vertices@[i]@ =~= cube_table()[i]);
        }
        assert(records_view(vertices@) =~= cube_table().take(4));
        assert(faces_view(faces@) =~= seq![(0usize, 1usize, 2usize), (0usize, 3usize, 2usize)]);
    }
    match Mesh::new(vertices, faces, layout) {
        Ok(m) => m,
        Err(_) => {
            proof {
                assert(false);
            }
            Mesh::empty(standard_layout())
        },
    }
}

/// `m` holds, component by component, what `mid` returns for `a` and `b`.
pub open spec fn is_midpoints<T, M: Fn(T, T) -> T>(a: Seq<T>, b: Seq<T>, m: Seq<T>, mid: M) -> bool {
    &&& m.len() == a.len()
    &&& forall|c: int| 0 <= c < a.len() ==> mid.ensures((a[c], b[c]), #[trigger] m[c])
}

/// `r` is a record between `a` and `b`: each component what `mid` returns for
/// the corresponding ones, then the first three rescaled by `unit`.
pub open spec fn is_midpoint_record<T, M: Fn(T, T) -> T, N: Fn(T, T, T) -> (T, T, T)>(
    a: Seq<T>,
    b: Seq<T>,
    r: Seq<T>,
    mid: M,
    unit: N,
) -> bool {
    exists|m: Seq<T>| is_midpoints(a, b, m, mid) && #[trigger] applied_3(m, r, 0, unit)
}

/// The faces that replace `fs` when the three edge midpoints of face `i`
/// are the vertices `b`, `b+1`, `b+2` with `b = n + 3i`: for a face
/// `(v0, v1, v2)`, `(v1, b+1, b)`, `(v0, b, b+2)`, `(b+1, v2, b+2)` and
/// `(b, b+1, b+2)`.
pub open spec fn subdivided_faces(fs: Seq<(usize, usize, usize)>, n: nat) -> Seq<(usize, usize, usize)>
    decreases fs.len(),
{
    if fs.len() == 0 {
        Seq::empty()
    } else {
        let f = fs.last();
        let b = n + 3 * (fs.len() - 1);
        subdivided_faces(fs.drop_last(), n) + seq![
            (f.1, (b + 1) as usize, b as usize),
            (f.0, b as usize, (b + 2) as usize),
            ((b + 1) as usize, f.2, (b + 2) as usize),
            (b as usize, (b + 1) as usize, (b + 2) as usize),
        ]
    }
}

/// Subdividing replaces each face by four.
pub proof fn lemma_subdivided_faces_len(fs: Seq<(usize, usize, usize)>, n: nat)
    ensures
        subdivided_faces(fs, n).len() == 4 * fs.len(),
    decreases fs.len(),
{
    if fs.len() > 0 {
        lemma_subdivided_faces_len(fs.drop_last(), n);
    }
}

/// `after` is `before` subdivided: its records are `before`'s followed, for
/// each face in order, by the records between its corners 0 and 1, 1 and 2,
/// 2 and 0; its faces are `subdivided_faces` of `before`'s.
pub open spec fn is_subdivision<T, M: Fn(T, T) -> T, N: Fn(T, T, T) -> (T, T, T)>(
    before: MeshView<T>,
    after: MeshView<T>,
    mid: M,
    unit: N,
) -> bool {
    let n = before.vertices.len();
    let fs = before.faces;
    let vs = before.vertices;
    &&& after.layout == before.layout
    &&& after.vertices.len() == n + 3 * fs.len()
    &&& after.vertices.take(n as int) == vs
    &&& forall|i: int|
        0 <= i < fs.len() ==> {
            let f = #[trigger] fs[i];
            let b = n + 3 * i;
            &&& is_midpoint_record(vs[f.0 as int], vs[f.1 as int], after.vertices[b], mid, unit)
            &&& is_midpoint_record(vs[f.1 as int], vs[f.2 as int], after.vertices[b + 1], mid, unit)
            &&& is_midpoint_record(vs[f.2 as int], vs[f.0 as int], after.vertices[b + 2], mid, unit)
        }
    &&& after.faces == subdivided_faces(fs, n)
}

/// The record between `a` and `b`.
fn midpoint_record<T: Copy, M: Fn(T, T) -> T, N: Fn(T, T, T) -> (T, T, T)>(
    a: &Vec<T>,
    b: &Vec<T>,
    mid: &M,
    unit: &N,
) -> (r: Vec<T>)
    requires
        a@.len() == b@.len(),
        a@.len() >= 3,
        forall|x: T, y: T| mid.requires((x, y)),
        forall|x: T, y: T, z: T| unit.requires((x, y, z)),
    ensures
        r@.len() == a@.len(),
        is_midpoint_record(a@, b@, r@, *mid, *unit),
{
    let mut m: Vec<T> = Vec::with_capacity(a.len());
    let mut c: usize = 0;
    while c < a.len()
        invariant
            c <= a@.len(),
            a@.len() == b@.len(),
            forall|x: T, y: T| mid.requires((x, y)),
            m@.len() == c,
            forall|d: int| 0 <= d < c ==> mid.ensures((a@[d], b@[d]), #[trigger] m@[d]),
        decreases a@.len() - c,
    {
        m.push(mid(a[c], b[c]));
        c += 1;
    }
    let ghost halfway = m@;
    let (x, y, z) = unit(m[0], m[1], m[2]);
    m[0] = x;
    m[1] = y;
    m[2] = z;
    assert(is_midpoints(a@, b@, halfway, *mid));
    assert(applied_3(halfway, m@, 0, *unit));
    m
}

/// Splits every face into four through the midpoints of its edges, each
/// midpoint record computed by `mid` component by component and its first
/// three components then rescaled by `unit` (which, on a sphere centred at
/// the origin, pushes it back onto the sphere).
pub fn subdivide<T: Copy, M: Fn(T, T) -> T, N: Fn(T, T, T) -> (T, T, T)>(
    mesh: &Mesh<T>,
    mid: M,
    unit: N,
) -> (r: Mesh<T>)
    requires
        mesh.wf(),
        mesh@.layout.stride >= 3,
        mesh@.vertices.len() + 3 * mesh@.faces.len() <= usize::MAX,
        forall|x: T, y: T| mid.requires((x, y)),
        forall|x: T, y: T, z: T| unit.requires((x, y, z)),
    ensures
        r.wf(),
        is_subdivision(mesh@, r@, mid, unit),
        r@.faces.len() == 4 * mesh@.faces.len(),
{
    let ghost before = mesh@;
    let ghost vs = mesh@.vertices;
    let ghost fs = mesh@.faces;
    let ghost stride = mesh@.layout.stride;
    let n = mesh.vertex_count();
    let src = mesh.vertices();
    let mut vertices: Vec<Vec<T>> = Vec::new();
    let mut k: usize = 0;
    while k < n
        invariant
            k <= n,
            n == vs.len(),
            records_view(src@) == vs,
            vertices@.len() == k,
            forall|j: int| 0 <= j < k ==> (#[trigger] vertices@[j])@ == vs[j],
        decreases n - k,
    {
        let mut w: Vec<T> = Vec::new();
        append_record(&mut w, &src[k]);
        assert(w@ =~= src@[k as int]@);
        vertices.push(w);
        k += 1;
    }
    let faces_in = mesh.faces();
    let mut faces: Vec<Face> = Vec::new();
    let mut i: usize = 0;
    while i < faces_in.len()
        invariant
            mesh.wf(),
            mesh@ == before,
            vs == before.vertices,
            fs == before.faces,
            stride == before.layout.stride,
            stride >= 3,
            n == vs.len(),
            n + 3 * fs.len() <= usize::MAX,
            faces_view(faces_in@) == fs,
            records_view(src@) == vs,
            forall|x: T, y: T| mid.requires((x, y)),
            forall|x: T, y: T, z: T| unit.requires((x, y, z)),
            i <= fs.len(),
            vertices@.len() == n + 3 * i,
            forall|j: int| 0 <= j < n ==> (#[trigger] vertices@[j])@ == vs[j],
            records_fit(records_view(vertices@), stride),
            forall|j: int|
                0 <= j < i ==> {
                    let f = #[trigger] fs[j];
                    let b = n + 3 * j;
                    &&& is_midpoint_record(vs[f.0 as int], vs[f.1 as int], vertices@[b]@, mid, unit)
                    &&& is_midpoint_record(vs[f.1 as int], vs[f.2 as int], vertices@[b + 1]@, mid, unit)
                    &&& is_midpoint_record(vs[f.2 as int], vs[f.0 as int], vertices@[b + 2]@, mid, unit)
                },
            faces_view(faces@) == subdivided_faces(fs.take(i as int), n as nat),
            faces_fit(faces_view(faces@), (n + 3 * i) as nat),
        decreases fs.len() - i,
    {
        let face = faces_in[i];
        assert(fs[i as int] == face@);
        assert(face_fits(fs[i as int], n as nat));
        let a = &src[face.v1()];
        let b = &src[face.v2()];
        let c = &src[face.v3()];
        assert(a@ == vs[face@.0 as int]);
        assert(b@ == vs[face@.1 as int]);
        assert(c@ == vs[face@.2 as int]);
        let ab = midpoint_record(a, b, &mid, &unit);
        let bc = midpoint_record(b, c, &mid, &unit);
        let ca = midpoint_record(c, a, &mid, &unit);
        let ghost vbefore = vertices@;
        vertices.push(ab);
        vertices.push(bc);
        vertices.push(ca);
        let base = n + 3 * i;
        let ghost fbefore = faces@;
        faces.push(Face::new(face.v2(), base + 1, base));
        faces.push(Face::new(face.v1(), base, base + 2));
        faces.push(Face::new(base + 1, face.v3(), base + 2));
        faces.push(Face::new(base, base + 1, base + 2));
        proof {
            let added = seq![
                (face@.1, (base + 1) as usize, base),
                (face@.0, base, (base + 2) as usize),
                ((base + 1) as usize, face@.2, (base + 2) as usize),
                (base, (base + 1) as usize, (base + 2) as usize),
            ];
            assert(faces_view(faces@) =~= faces_view(fbefore) + added);
            let ft = fs.take(i as int + 1);
            assert(ft.drop_last() =~= fs.take(i as int));
            assert(ft.last() == face@);
            assert(faces_view(faces@) == subdivided_faces(ft, n as nat));
            let nn = (n + 3 * (i + 1)) as nat;
            assert forall|j: int| 0 <= j < faces_view(faces@).len() implies face_fits(
                #[trigger] faces_view(faces@)[j],
                nn,
            ) by {
                if j < fbefore.len() {
                    assert(faces_view(faces@)[j] == faces_view(fbefore)[j]);
                    assert(face_fits(faces_view(fbefore)[j], (n + 3 * i) as nat));
                } else {
                    assert(faces_view(faces@)[j] == added[j - fbefore.len()]);
                }
            }
            assert forall|j: int| 0 <= j < vertices@.len() implies (#[trigger] records_view(
                vertices@,
            )[j]).len() == stride by {
                assert(records_view(vertices@)[j] == vertices@[j]@);
                if j < vbefore.len() {
                    assert(records_view(vbefore)[j] == vbefore[j]@);
                }
            }
            assert forall|j: int| 0 <= j < i + 1 implies {
                let f = #[trigger] fs[j];
                let b = n + 3 * j;
                &&& is_midpoint_record(vs[f.0 as int], vs[f.1 as int], vertices@[b]@, mid, unit)
                &&& is_midpoint_record(vs[f.1 as int], vs[f.2 as int], vertices@[b + 1]@, mid, unit)
                &&& is_midpoint_record(vs[f.2 as int], vs[f.0 as int], vertices@[b + 2]@, mid, unit)
            } by {
                if j < i {
                    assert(vertices@[n + 3 * j] == vbefore[n + 3 * j]);
                    assert(vertices@[n + 3 * j + 1] == vbefore[n + 3 * j + 1]);
                    assert(vertices@[n + 3 * j + 2] == vbefore[n + 3 * j + 2]);
                }
            }
        }
        i += 1;
    }
    proof {
        assert(fs.take(fs.len() as int) =~= fs);
        lemma_subdivided_faces_len(fs, n as nat);
    }
    let layout = mesh.attribs().clone();
    let ghost out_vertices = records_view(vertices@);
    match Mesh::new(vertices, faces, layout) {
        Ok(m) => {
            proof {
                assert(m@.vertices.take(n as int) =~= vs);
                assert forall|j: int|
                    0 <= j < fs.len() implies {
                    let f = #[trigger] fs[j];
                    let b = n + 3 * j;
                    &&& is_midpoint_record(vs[f.0 as int], vs[f.1 as int], m@.vertices[b], mid, unit)
                    &&& is_midpoint_record(vs[f.1 as int], vs[f.2 as int], m@.vertices[b + 1], mid, unit)
                    &&& is_midpoint_record(vs[f.2 as int], vs[f.0 as int], m@.vertices[b + 2], mid, unit)
                } by {
                    assert(m@.vertices[n + 3 * j] == out_vertices[n + 3 * j]);
                }
            }
            m
        },
        Err(_) => {
            proof {
                assert(false);
            }
            Mesh::empty(mesh.attribs().clone())
        },
    }
}

/// Faces of the icosphere after `n` subdivisions.
pub open spec fn icosphere_face_count(n: nat) -> nat
    decreases n,
{
    if n == 0 {
        20
    } else {
        4 * icosphere_face_count((n - 1) as nat)
    }
}

/// Vertices of the icosphere after `n` subdivisions: each subdivision adds
/// three for each face.
pub open spec fn icosphere_vertex_count(n: nat) -> nat
    decreases n,
{
    if n == 0 {
        12
    } else {
        icosphere_vertex_count((n - 1) as nat) + 3 * icosphere_face_count((n - 1) as nat)
    }
}

/// The icosphere always has eight more faces than vertices, and more faces
/// after more subdivisions.
pub proof fn lemma_icosphere_counts(n: nat)
    ensures
        icosphere_vertex_count(n) + 8 == icosphere_face_count(n),
        forall|k: nat| k <= n ==> #[trigger] icosphere_face_count(k) <= icosphere_face_count(n),
    decreases n,
{
    if n > 0 {
        lemma_icosphere_counts((n - 1) as nat);
        assert forall|k: nat| k <= n implies #[trigger] icosphere_face_count(k) <= icosphere_face_count(n) by {
            if k < n {
                assert(icosphere_face_count(k) <= icosphere_face_count((n - 1) as nat));
            }
        }
    }
}

/// The first three components of `v` are a result of `unit`.
pub open spec fn rescaled_position<T, N: Fn(T, T, T) -> (T, T, T)>(v: Seq<T>, unit: N) -> bool {
    exists|a: T, b: T, c: T| #[trigger] unit.ensures((a, b, c), (v[0], v[1], v[2]))
}

/// The normal (components 3 to 5) repeats the position (components 0 to 2).
pub open spec fn normal_is_position<T>(v: Seq<T>) -> bool {
    v[3] == v[0] && v[4] == v[1] && v[5] == v[2]
}

/// The record with its normal replaced by its position.
fn position_as_normal<T: Copy>(v: &Vec<T>) -> (r: Vec<T>)
    requires
        v@.len() == STANDARD_STRIDE,
    ensures
        r@ == v@.update(3, v@[0]).update(4, v@[1]).update(5, v@[2]),
{
    let mut r: Vec<T> = Vec::new();
    append_record(&mut r, v);
    r[3] = v[0];
    r[4] = v[1];
    r[5] = v[2];
    r
}

/// A record between `a` and `b` for `&mid` and `&unit` is one for `mid`
/// and `unit`.
proof fn lemma_midpoint_by_ref<T, M: Fn(T, T) -> T, N: Fn(T, T, T) -> (T, T, T)>(
    a: Seq<T>,
    b: Seq<T>,
    r: Seq<T>,
    mid: M,
    unit: N,
)
    requires
        is_midpoint_record(a, b, r, &mid, &unit),
    ensures
        is_midpoint_record(a, b, r, mid, unit),
{
    let m = choose|m: Seq<T>| is_midpoints(a, b, m, &mid) && #[trigger] applied_3(m, r, 0, &unit);
    assert(is_midpoints(a, b, m, mid));
    assert(applied_3(m, r, 0, unit));
}

/// A subdivision with `&mid` and `&unit` is one with `mid` and `unit`.
proof fn lemma_subdivision_by_ref<T, M: Fn(T, T) -> T, N: Fn(T, T, T) -> (T, T, T)>(
    before: MeshView<T>,
    after: MeshView<T>,
    mid: M,
    unit: N,
)
    requires
        is_subdivision(before, after, &mid, &unit),
    ensures
        is_subdivision(before, after, mid, unit),
{
    let n = before.vertices.len();
    let fs = before.faces;
    let vs = before.vertices;
    assert forall|i: int|
        0 <= i < fs.len() implies {
        let f = #[trigger] fs[i];
        let b = n + 3 * i;
        &&& is_midpoint_record(vs[f.0 as int], vs[f.1 as int], after.vertices[b], mid, unit)
        &&& is_midpoint_record(vs[f.1 as int], vs[f.2 as int], after.vertices[b + 1], mid, unit)
        &&& is_midpoint_record(vs[f.2 as int], vs[f.0 as int], after.vertices[b + 2], mid, unit)
    } by {
        let f = fs[i];
        let b = n + 3 * i;
        lemma_midpoint_by_ref(vs[f.0 as int], vs[f.1 as int], after.vertices[b], mid, unit);
        lemma_midpoint_by_ref(vs[f.1 as int], vs[f.2 as int], after.vertices[b + 1], mid, unit);
        lemma_midpoint_by_ref(vs[f.2 as int], vs[f.0 as int], after.vertices[b + 2], mid, unit);
    }
}

/// Subdividing keeps every position a result of `unit`: old records stay,
/// and each new one was rescaled by `unit`.
pub proof fn lemma_subdivision_rescaled<T, M: Fn(T, T) -> T, N: Fn(T, T, T) -> (T, T, T)>(
    before: MeshView<T>,
    after: MeshView<T>,
    mid: M,
    unit: N,
)
    requires
        is_subdivision(before, after, mid, unit),
        forall|i: int|
            0 <= i < before.vertices.len() ==> rescaled_position(#[trigger] before.vertices[i], unit),
    ensures
        forall|i: int|
            0 <= i < after.vertices.len() ==> rescaled_position(#[trigger] after.vertices[i], unit),
{
    let n = before.vertices.len();
    assert forall|i: int| 0 <= i < after.vertices.len() implies rescaled_position(
        #[trigger] after.vertices[i],
        unit,
    ) by {
        if i < n {
            assert(after.vertices.take(n as int)[i] == after.vertices[i]);
        } else {
            let j = (i - n) / 3;
            let t = (i - n) % 3;
            assert(0 <= j < before.faces.len());
            let f = before.faces[j];
            assert(i == n + 3 * j + t);
            let b = n + 3 * j;
            let vs = before.vertices;
            if t == 0 {
                assert(is_midpoint_record(vs[f.0 as int], vs[f.1 as int], after.vertices[b], mid, unit));
            } else if t == 1 {
                assert(is_midpoint_record(vs[f.1 as int], vs[f.2 as int], after.vertices[b + 1], mid, unit));
            } else {
                assert(is_midpoint_record(vs[f.2 as int], vs[f.0 as int], after.vertices[b + 2], mid, unit));
            }
        }
    }
}

/// A chain of subdivisions grows by one more subdivision of its last mesh.
pub proof fn lemma_chain_push<T, M: Fn(T, T) -> T, N: Fn(T, T, T) -> (T, T, T)>(
    corners: Seq<Seq<T>>,
    chain: Seq<MeshView<T>>,
    next: MeshView<T>,
    mid: M,
    unit: N,
)
    requires
        is_subdivision_chain(corners, chain, mid, unit),
        is_subdivision(chain.last(), next, mid, unit),
    ensures
        is_subdivision_chain(corners, chain.push(next), mid, unit),
{
    reveal(is_subdivision_chain);
    let c2 = chain.push(next);
    assert forall|j: int| 0 <= j < c2.len() - 1 implies is_subdivision(
        #[trigger] c2[j],
        c2[j + 1],
        mid,
        unit,
    ) by {
        if j < chain.len() - 1 {
            assert(c2[j] == chain[j]);
            assert(c2[j + 1] == chain[j + 1]);
        }
    }
    assert(c2[0] == chain[0]);
}

/// `v` is the corner record `c` with its position (components 0 to 2) and
/// its colour (components 6 to 8) each replaced by what `unit` returned for
/// them, and nothing else changed.
pub open spec fn rescaled_corner<T, N: Fn(T, T, T) -> (T, T, T)>(c: Seq<T>, v: Seq<T>, unit: N) -> bool {
    &&& v.len() == c.len()
    &&& forall|k: int|
        0 <= k < c.len() && !(0 <= k < 3) && !(6 <= k < 9) ==> #[trigger] v[k] == c[k]
    &&& unit.ensures((c[0], c[1], c[2]), (v[0], v[1], v[2]))
    &&& unit.ensures((c[6], c[7], c[8]), (v[6], v[7], v[8]))
}

/// `base` is the icosahedron on the records `corners`: the standard layout,
/// the icosahedron's faces, and each corner record with its position and
/// colour rescaled by `unit`.
#[verifier::opaque]
pub open spec fn is_icosahedron_base<T, N: Fn(T, T, T) -> (T, T, T)>(
    corners: Seq<Seq<T>>,
    base: MeshView<T>,
    unit: N,
) -> bool {
    &&& built_from(standard_attribs(), base.layout)
    &&& base.faces == icosahedron_face_list()
    &&& base.vertices.len() == corners.len()
    &&& forall|i: int|
        0 <= i < corners.len() ==> rescaled_corner(corners[i], #[trigger] base.vertices[i], unit)
}

/// `chain` starts at the icosahedron on `corners`, and each of its meshes
/// is the subdivision (see `is_subdivision`) of the one before.
#[verifier::opaque]
pub open spec fn is_subdivision_chain<T, M: Fn(T, T) -> T, N: Fn(T, T, T) -> (T, T, T)>(
    corners: Seq<Seq<T>>,
    chain: Seq<MeshView<T>>,
    mid: M,
    unit: N,
) -> bool {
    &&& chain.len() > 0
    &&& is_icosahedron_base(corners, chain[0], unit)
    &&& forall|k: int| 0 <= k < chain.len() - 1 ==> is_subdivision(#[trigger] chain[k], chain[k + 1], mid, unit)
}

/// `after` is `before` with each normal (components 3 to 5) set to the
/// record's position (components 0 to 2).
pub open spec fn normals_from_positions<T>(before: MeshView<T>, after: MeshView<T>) -> bool {
    &&& after.layout == before.layout
    &&& after.faces == before.faces
    &&& after.vertices.len() == before.vertices.len()
    &&& forall|i: int|
        0 <= i < before.vertices.len() ==> #[trigger] after.vertices[i] == before.vertices[i].update(
            3,
            before.vertices[i][0],
        ).update(4, before.vertices[i][1]).update(5, before.vertices[i][2])
}

/// The sphere of radius one approximated by an icosahedron whose faces are
/// subdivided `subdivides` times. `corners` are the icosahedron's twelve
/// records in the standard layout, in the order `icosahedron_faces` names;
/// their position and colour are first rescaled by `unit`. Each subdivision
/// works as `subdivide` says, with `mid` and `unit`; at the end each normal
/// is set to its position, which on a sphere centred at the origin is the
/// outward normal. Refused unless `corners` are twelve records of the
/// standard stride, and where the face count would not fit in `usize`.
pub fn icosphere<T: Copy, M: Fn(T, T) -> T, N: Fn(T, T, T) -> (T, T, T)>(
    corners: Vec<Vec<T>>,
    subdivides: u8,
    mid: M,
    unit: N,
) -> (r: Result<Mesh<T>, MeshError>)
    requires
        forall|x: T, y: T| mid.requires((x, y)),
        forall|x: T, y: T, z: T| unit.requires((x, y, z)),
    ensures
        !(corners@.len() == ICOSAHEDRON_VERTICES && records_fit(
            records_view(corners@),
            STANDARD_STRIDE as nat,
        )) ==> r == Err::<Mesh<T>, MeshError>(MeshError::VertexLength),
        r is Ok <==> corners@.len() == ICOSAHEDRON_VERTICES && records_fit(
            records_view(corners@),
            STANDARD_STRIDE as nat,
        ) && icosphere_face_count(subdivides as nat) <= usize::MAX,
        r matches Err(e) ==> e == MeshError::VertexLength || e == MeshError::TooManyVertices,
        r matches Ok(m) ==> {
            &&& m.wf()
            &&& built_from(standard_attribs(), m@.layout)
            &&& m@.vertices.len() == icosphere_vertex_count(subdivides as nat)
            &&& m@.faces.len() == icosphere_face_count(subdivides as nat)
            &&& subdivides == 0 ==> m@.faces == icosahedron_face_list()
            &&& forall|i: int|
                0 <= i < m@.vertices.len() ==> rescaled_position(#[trigger] m@.vertices[i], unit)
                    && normal_is_position(m@.vertices[i])
            &&& exists|chain: Seq<MeshView<T>>|
                is_subdivision_chain(records_view(corners@), chain, mid, unit) && chain.len()
                    == subdivides + 1 && #[trigger] normals_from_positions(chain.last(), m@)
        },
{
    if corners.len() != ICOSAHEDRON_VERTICES {
        return Err(MeshError::VertexLength);
    }
    let ghost cs = records_view(corners@);
    let mut mesh = match Mesh::new(corners, icosahedron_faces(), standard_layout()) {
        Ok(m) => m,
        Err(e) => {
            return Err(e);
        },
    };
    let mut f: usize = ICOSAHEDRON_FACES;
    let mut k: u8 = 0;
    while k < subdivides
        invariant
            k <= subdivides,
            records_fit(cs, STANDARD_STRIDE as nat),
            cs == records_view(corners@),
            corners@.len() == ICOSAHEDRON_VERTICES,
            f == icosphere_face_count(k as nat),
        decreases subdivides - k,
    {
        if f > usize::MAX / 4 {
            proof {
                lemma_icosphere_counts(subdivides as nat);
                assert(icosphere_face_count((k + 1) as nat) <= icosphere_face_count(subdivides as nat));
            }
            return Err(MeshError::TooManyVertices);
        }
        f = 4 * f;
        k += 1;
    }
    proof {
        reveal_strlit("position");
        reveal_strlit("normal");
        reveal_strlit("color");
        reveal_strlit("uv");
        let l = mesh@.layout;
        assert(l.attribs[0].name == "position"@);
        assert(l.attribs[1].name == "normal"@);
        assert(l.attribs[2].name == "color"@);
        assert(l.attribs[3].name == "uv"@);
        assert(l.attribs[0].name.len() == 8);
        assert(l.attribs[1].name.len() == 6);
        assert(l.attribs[2].name.len() == 5);
        assert(l.attribs[3].name.len() == 2);
        assert(crate::layout::is_last_named(l, "position"@, 0));
        assert(crate::layout::is_last_named(l, "color"@, 2));
        crate::layout::lemma_last_named(l, "position"@, 0);
        crate::layout::lemma_last_named(l, "color"@, 2);
        lemma_icosphere_counts(subdivides as nat);
    }
    let ghost m0 = mesh@;
    let _ = mesh.normalize("position", &unit);
    let ghost m1 = mesh@;
    let _ = mesh.normalize("color", &unit);
    proof {
        assert forall|i: int| 0 <= i < mesh@.vertices.len() implies rescaled_position(
            #[trigger] mesh@.vertices[i],
            unit,
        ) by {
            assert(applied_3(m0.vertices[i], m1.vertices[i], 0, &unit));
            assert(applied_3(m1.vertices[i], mesh@.vertices[i], 6, &unit));
            assert(mesh@.vertices[i][0] == m1.vertices[i][0]);
            assert(mesh@.vertices[i][1] == m1.vertices[i][1]);
            assert(mesh@.vertices[i][2] == m1.vertices[i][2]);
            let v0 = m0.vertices[i];
            assert(v0.len() == STANDARD_STRIDE);
            assert(unit.ensures(
                (v0[0], v0[1], v0[2]),
                (mesh@.vertices[i][0], mesh@.vertices[i][1], mesh@.vertices[i][2]),
            ));
        }
        assert forall|i: int| 0 <= i < cs.len() implies rescaled_corner(
            cs[i],
            #[trigger] mesh@.vertices[i],
            unit,
        ) by {
            assert(m0.vertices[i] == cs[i]);
            assert(applied_3(m0.vertices[i], m1.vertices[i], 0, &unit));
            assert(applied_3(m1.vertices[i], mesh@.vertices[i], 6, &unit));
            assert(cs[i].len() == STANDARD_STRIDE);
            assert(m1.vertices[i][6] == cs[i][6]);
            assert(m1.vertices[i][7] == cs[i][7]);
            assert(m1.vertices[i][8] == cs[i][8]);
            assert(mesh@.vertices[i][0] == m1.vertices[i][0]);
            assert(mesh@.vertices[i][1] == m1.vertices[i][1]);
            assert(mesh@.vertices[i][2] == m1.vertices[i][2]);
        }
        assert(built_from(standard_attribs(), mesh@.layout));
        assert(mesh@.faces == icosahedron_face_list());
        assert(mesh@.vertices.len() == cs.len());
        reveal(is_icosahedron_base);
        assert(is_icosahedron_base(cs, mesh@, unit));
    }
    let ghost mut chain: Seq<MeshView<T>> = seq![mesh@];
    proof {
        reveal(is_subdivision_chain);
        assert(is_subdivision_chain(cs, chain, mid, unit));
    }
    let mut k: u8 = 0;
    while k < subdivides
        invariant
            k <= subdivides,
            forall|x: T, y: T| mid.requires((x, y)),
            forall|x: T, y: T, z: T| unit.requires((x, y, z)),
            icosphere_face_count(subdivides as nat) <= usize::MAX,
            forall|j: nat| j <= subdivides ==> #[trigger] icosphere_face_count(j)
                <= icosphere_face_count(subdivides as nat),
            mesh.wf(),
            built_from(standard_attribs(), mesh@.layout),
            mesh@.layout.stride == STANDARD_STRIDE,
            mesh@.vertices.len() == icosphere_vertex_count(k as nat),
            mesh@.faces.len() == icosphere_face_count(k as nat),
            k == 0 ==> mesh@.faces == icosahedron_face_list(),
            forall|i: int|
                0 <= i < mesh@.vertices.len() ==> rescaled_position(#[trigger] mesh@.vertices[i], unit),
            cs == records_view(corners@),
            is_subdivision_chain(cs, chain, mid, unit),
            chain.len() == k + 1,
            chain.last() == mesh@,
        decreases subdivides - k,
    {
        proof {
            lemma_icosphere_counts((k + 1) as nat);
            assert(icosphere_face_count((k + 1) as nat) <= icosphere_face_count(subdivides as nat));
        }
        let ghost before = mesh@;
        mesh = subdivide(&mesh, &mid, &unit);
        proof {
            lemma_subdivision_by_ref(before, mesh@, mid, unit);
            lemma_subdivision_rescaled(before, mesh@, mid, unit);
            lemma_chain_push(cs, chain, mesh@, mid, unit);
            chain = chain.push(mesh@);
        }
        k += 1;
    }
    let ghost before = mesh@;
    let res = mesh.apply_on_vertices(position_as_normal);
    proof {
        if res is Err {
            let (i, w) = choose|i: int, w: Seq<T>|
                0 <= i < before.vertices.len() && w.len() != before.layout.stride
                    && #[trigger] maps_record(position_as_normal, before.vertices[i], w);
            assert(before.vertices[i].len() == 11);
        }
        assert forall|i: int| 0 <= i < mesh@.vertices.len() implies rescaled_position(
            #[trigger] mesh@.vertices[i],
            unit,
        ) && normal_is_position(mesh@.vertices[i]) by {
            assert(maps_record(position_as_normal, before.vertices[i], mesh@.vertices[i]));
            assert(before.vertices[i].len() == 11);
            assert(rescaled_position(before.vertices[i], unit));
            assert(mesh@.vertices[i][0] == before.vertices[i][0]);
            assert(mesh@.vertices[i][1] == before.vertices[i][1]);
            assert(mesh@.vertices[i][2] == before.vertices[i][2]);
        }
        assert forall|i: int| 0 <= i < before.vertices.len() implies #[trigger] mesh@.vertices[i]
            == before.vertices[i].update(3, before.vertices[i][0]).update(
            4,
            before.vertices[i][1],
        ).update(5, before.vertices[i][2]) by {
            assert(maps_record(position_as_normal, before.vertices[i], mesh@.vertices[i]));
        }
        assert(normals_from_positions(chain.last(), mesh@));
    }
    Ok(mesh)
}

/// The icosphere starts as the icosahedron's twelve vertices and twenty
/// faces, and each further subdivision multiplies the faces by four.
pub proof fn lemma_icosphere_growth(n: nat)
    ensures
        icosphere_vertex_count(0) == 12,
        icosphere_face_count(0) == 20,
        icosphere_face_count(n + 1) == 4 * icosphere_face_count(n),
{
}

/// The unit cube packs into an indexed buffer of exactly its 24 records
/// and 36 indices, and reading the indices back three at a time gives its
/// twelve faces in order.
pub proof fn lemma_cube_indexed(cube: MeshView<i32>, array: Seq<i32>, elements: Seq<u16>)
    requires
        cube.wf(),
        cube.vertices.len() == 24,
        cube.faces == quad_face_list(6),
        built_from(standard_attribs(), cube.layout),
        array == crate::mesh::flatten(cube.vertices),
        elements == crate::mesh::index_list(cube.faces),
    ensures
        array.len() == 24 * 11,
        elements.len() == 36,
        cube.faces.len() == 12,
        forall|i: int|
            0 <= i < 12 ==> (
            elements[3 * i] as usize,
            elements[3 * i + 1] as usize,
            elements[3 * i + 2] as usize,
            ) == #[trigger] cube.faces[i],
{
    lemma_standard_layout(cube.layout);
    lemma_quad_faces_fit(6);
    crate::mesh::lemma_flatten(cube.vertices, 11);
    crate::mesh::lemma_index_list_faces(cube.faces, 24);
}

} // verus!

use dust::layout::{AttribArrayBuilder, AttribType};
use dust::mesh::{Face, Mesh, MeshError};
use dust::primitives::{
    icosahedron_faces, icosphere, quad_faces, standard_layout, subdivide, unit_cube, unit_quad,
};

fn unit(x: f32, y: f32, z: f32) -> (f32, f32, f32) {
    let d = (x * x + y * y + z * z).sqrt();
    if d == 0.0 {
        (x, y, z)
    } else {
        (x / d, y / d, z / d)
    }
}

fn mid(a: f32, b: f32) -> f32 {
    (a + b) / 2.0
}

fn corners() -> Vec<Vec<f32>> {
    let t = (1.0 + 5.0f32.sqrt()) / 2.0;
    let p = [
        (-1.0, t, 0.0),
        (1.0, t, 0.0),
        (-1.0, -t, 0.0),
        (1.0, -t, 0.0),
        (0.0, -1.0, t),
        (0.0, 1.0, t),
        (0.0, -1.0, -t),
        (0.0, 1.0, -t),
        (t, 0.0, -1.0),
        (t, 0.0, 1.0),
        (-t, 0.0, -1.0),
        (-t, 0.0, 1.0),
    ];
    p.iter()
        .map(|&(x, y, z)| vec![x, y, z, 0.0, 0.0, 0.0, 1.0, 0.0, 0.0, 0.0, 0.0])
        .collect()
}

#[test]
fn standard_layout_has_four_attributes() {
    let l = standard_layout();
    assert_eq!(l.stride(), 11);
    assert_eq!(l.by_type(AttribType::Uv).unwrap().offset(), 9);
    assert_eq!(l.by_name("normal").unwrap().offset(), 3);
}

#[test]
fn quad_faces_pair_up_four_vertices() {
    let f = quad_faces(2);
    let corners: Vec<(usize, usize, usize)> = f.iter().map(|f| (f.v1(), f.v2(), f.v3())).collect();
    assert_eq!(corners, vec![(0, 1, 2), (2, 3, 0), (4, 5, 6), (6, 7, 4)]);
}

#[test]
fn cube_packs_into_24_records_and_36_indices() {
    let cube = unit_cube();
    assert_eq!(cube.vertex_count(), 24);
    assert_eq!(cube.faces().len(), 12);
    let (array, elements) = cube.to_element_array_buffer().unwrap();
    assert_eq!(array.len(), 24 * 11);
    assert_eq!(elements.len(), 36);
    for (i, f) in cube.faces().iter().enumerate() {
        assert_eq!(elements[3 * i] as usize, f.v1());
        assert_eq!(elements[3 * i + 1] as usize, f.v2());
        assert_eq!(elements[3 * i + 2] as usize, f.v3());
    }
    assert_eq!(cube.vertex(6), &vec![1, 1, 1, 0, 0, 1, 1, 0, 1, 1, 1]);
}

#[test]
fn cube_centres_after_conversion() {
    let mut cube = unit_cube().convert(|k: i32| k as f32);
    cube.translate(|x, y, z| (x - 0.5, y - 0.5, z - 0.5)).unwrap();
    assert_eq!(&cube.vertex(6)[0..3], &[0.5f32, 0.5, 0.5]);
    assert_eq!(&cube.vertex(6)[3..6], &[0.0f32, 0.0, 1.0]);
}

#[test]
fn quad_has_two_triangles() {
    let q = unit_quad();
    assert_eq!(q.vertex_count(), 4);
    let f: Vec<(usize, usize, usize)> = q.faces().iter().map(|f| (f.v1(), f.v2(), f.v3())).collect();
    assert_eq!(f, vec![(0, 1, 2), (0, 3, 2)]);
    assert_eq!(q.to_array_buffer().len(), 2 * 3 * 11);
}

#[test]
fn icosahedron_has_twenty_faces() {
    let f = icosahedron_faces();
    assert_eq!(f.len(), 20);
    assert_eq!((f[0].v1(), f[0].v2(), f[0].v3()), (0, 11, 5));
    assert_eq!((f[19].v1(), f[19].v2(), f[19].v3()), (9, 8, 1));
    assert!(f.iter().all(|f| f.v1() < 12 && f.v2() < 12 && f.v3() < 12));
}

#[test]
fn subdivide_splits_one_triangle_into_four() {
    let layout = AttribArrayBuilder::new().push("position", 3, AttribType::Position).build();
    let m = Mesh::new(
        vec![vec![0, 0, 0], vec![4, 0, 0], vec![0, 8, 0]],
        vec![Face::new(0, 1, 2)],
        layout,
    )
    .unwrap();
    let s = subdivide(&m, |a: i32, b: i32| (a + b) / 2, |x, y, z| (x, y, z + 1));
    assert_eq!(s.vertex_count(), 6);
    assert_eq!(s.vertex(3), &vec![2, 0, 1]);
    assert_eq!(s.vertex(4), &vec![2, 4, 1]);
    assert_eq!(s.vertex(5), &vec![0, 4, 1]);
    let f: Vec<(usize, usize, usize)> = s.faces().iter().map(|f| (f.v1(), f.v2(), f.v3())).collect();
    assert_eq!(f, vec![(1, 4, 3), (0, 3, 5), (4, 2, 5), (3, 4, 5)]);
}

#[test]
fn icosphere_zero_is_the_icosahedron_on_the_unit_sphere() {
    let s = icosphere(corners(), 0, mid, unit).unwrap();
    assert_eq!(s.vertex_count(), 12);
    assert_eq!(s.faces().len(), 20);
    for v in s.vertices() {
        let r = (v[0] * v[0] + v[1] * v[1] + v[2] * v[2]).sqrt();
        assert!((r - 1.0).abs() < 1e-5);
        assert_eq!(&v[3..6], &v[0..3]);
    }
}

#[test]
fn icosphere_subdivision_multiplies_faces_by_four() {
    let s1 = icosphere(corners(), 1, mid, unit).unwrap();
    assert_eq!(s1.faces().len(), 80);
    assert_eq!(s1.vertex_count(), 72);
    let s2 = icosphere(corners(), 2, mid, unit).unwrap();
    assert_eq!(s2.faces().len(), 320);
    assert_eq!(s2.vertex_count(), 72 + 3 * 80);
    for v in s2.vertices() {
        let r = (v[0] * v[0] + v[1] * v[1] + v[2] * v[2]).sqrt();
        assert!((r - 1.0).abs() < 1e-5);
    }
}

#[test]
fn icosphere_needs_twelve_corners_of_the_standard_stride() {
    let mut c = corners();
    c.pop();
    assert_eq!(icosphere(c, 0, mid, unit).err(), Some(MeshError::VertexLength));
    let mut c = corners();
    c[3].push(0.0);
    assert_eq!(icosphere(c, 1, mid, unit).err(), Some(MeshError::VertexLength));
}

#[test]
fn icosphere_refuses_a_face_count_past_usize() {
    assert_eq!(icosphere(corners(), 40, mid, unit).err(), Some(MeshError::TooManyVertices));
}

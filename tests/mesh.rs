use dust::layout::{AttribArray, AttribArrayBuilder, AttribType};
use dust::mesh::{Face, Mesh, MeshError};

fn pos_uv() -> AttribArray {
    AttribArrayBuilder::new()
        .push("position", 3, AttribType::Position)
        .push("uv", 2, AttribType::Uv)
        .build()
}

fn triangle() -> Mesh<i32> {
    Mesh::new(
        vec![vec![0, 0, 0, 1, 2], vec![1, 0, 0, 3, 4], vec![0, 1, 0, 5, 6]],
        vec![Face::new(0, 1, 2)],
        pos_uv(),
    )
    .unwrap()
}

#[test]
fn face_keeps_its_corners() {
    let f = Face::new(4, 7, 9);
    assert_eq!((f.v1(), f.v2(), f.v3()), (4, 7, 9));
}

#[test]
fn new_checks_record_lengths_then_faces() {
    let bad_len = Mesh::new(vec![vec![0, 0, 0, 0]], vec![Face::new(5, 5, 5)], pos_uv());
    assert_eq!(bad_len.err(), Some(MeshError::VertexLength));
    let bad_face = Mesh::new(vec![vec![0, 0, 0, 0, 0]], vec![Face::new(0, 0, 1)], pos_uv());
    assert_eq!(bad_face.err(), Some(MeshError::FaceIndex));
    let m = triangle();
    assert_eq!(m.vertex_count(), 3);
    assert_eq!(m.faces().len(), 1);
    assert_eq!(m.vertex(1), &vec![1, 0, 0, 3, 4]);
    assert_eq!(m.attribs().stride(), 5);
}

#[test]
fn pushes_are_checked() {
    let mut m: Mesh<i32> = Mesh::empty(pos_uv());
    assert_eq!(m.push_vertex(vec![1, 2, 3]), Err(MeshError::VertexLength));
    assert_eq!(m.vertex_count(), 0);
    assert_eq!(m.push_face(Face::new(0, 0, 0)), Err(MeshError::FaceIndex));
    assert_eq!(m.push_vertex(vec![1, 2, 3, 4, 5]), Ok(()));
    assert_eq!(m.push_face(Face::new(0, 0, 0)), Ok(()));
    assert_eq!(m.faces().len(), 1);
}

#[test]
fn push_vertices_and_faces_are_all_or_nothing() {
    let mut m = triangle();
    let r = m.push_vertices(vec![vec![1, 1, 1, 1, 1], vec![2, 2]]);
    assert_eq!(r, Err(MeshError::VertexLength));
    assert_eq!(m.vertex_count(), 3);
    assert_eq!(m.push_vertices(vec![vec![1, 1, 1, 1, 1], vec![2, 2, 2, 2, 2]]), Ok(()));
    assert_eq!(m.vertex_count(), 5);
    assert_eq!(m.vertices()[4], vec![2, 2, 2, 2, 2]);
    let r = m.push_faces(vec![Face::new(0, 3, 4), Face::new(0, 1, 5)]);
    assert_eq!(r, Err(MeshError::FaceIndex));
    assert_eq!(m.faces().len(), 1);
    assert_eq!(m.push_faces(vec![Face::new(0, 3, 4), Face::new(1, 2, 3)]), Ok(()));
    assert_eq!(m.faces().len(), 3);
}

#[test]
fn apply_to_3_changes_three_components() {
    let mut m = triangle();
    m.apply_to_3(2, |a, b, c| (a * 10, b * 10, c * 10));
    assert_eq!(m.vertex(1), &vec![1, 0, 0, 30, 40]);
}

#[test]
fn translate_moves_positions() {
    let mut m = triangle();
    assert_eq!(m.translate(|x, y, z| (x + 1, y - 1, z + 5)), Ok(()));
    assert_eq!(m.vertex(0), &vec![1, -1, 5, 1, 2]);
    assert_eq!(m.vertex(2), &vec![1, 0, 5, 5, 6]);
}

#[test]
fn translate_without_position_is_refused() {
    let layout = AttribArrayBuilder::new().push("uv", 3, AttribType::Uv).build();
    let mut m = Mesh::new(vec![vec![1, 2, 3]], vec![], layout).unwrap();
    match m.translate(|x, y, z| (x + 1, y, z)) {
        Err(MeshError::Attrib(msg)) => {
            assert_eq!(msg, "could not find Attrib with type 'Position' in AttribArray")
        }
        other => panic!("unexpected {:?}", other),
    }
    assert_eq!(m.vertex(0), &vec![1, 2, 3]);
}

#[test]
fn normalize_needs_three_components() {
    let mut m = triangle();
    assert_eq!(m.normalize("uv", |a, b, c| (a, b, c)), Err(MeshError::ShortAttrib));
    match m.normalize("normal", |a, b, c| (a, b, c)) {
        Err(MeshError::Attrib(msg)) => {
            assert_eq!(msg, "could not find Attrib with name 'normal' in AttribArray")
        }
        other => panic!("unexpected {:?}", other),
    }
    assert_eq!(m.normalize("position", |a, b, c| (a + b + c, 0, 0)), Ok(()));
    assert_eq!(m.vertex(1), &vec![1, 0, 0, 3, 4]);
    assert_eq!(m.vertex(2), &vec![1, 0, 0, 5, 6]);
}

#[test]
fn apply_on_vertices_replaces_records() {
    let mut m = triangle();
    let r = m.apply_on_vertices(|v: &Vec<i32>| v.iter().map(|x| x + 1).collect());
    assert_eq!(r, Ok(()));
    assert_eq!(m.vertex(0), &vec![1, 1, 1, 2, 3]);
    let r = m.apply_on_vertices(|v: &Vec<i32>| v[..2].to_vec());
    assert_eq!(r, Err(MeshError::VertexLength));
    assert_eq!(m.vertex(0), &vec![1, 1, 1, 2, 3]);
}

#[test]
fn array_buffer_repeats_corners_per_face() {
    let mut m = triangle();
    m.push_face(Face::new(2, 2, 0)).unwrap();
    let buf = m.to_array_buffer();
    assert_eq!(buf.len(), 2 * 3 * 5);
    assert_eq!(&buf[0..5], &[0, 0, 0, 1, 2]);
    assert_eq!(&buf[5..10], &[1, 0, 0, 3, 4]);
    assert_eq!(&buf[15..20], &[0, 1, 0, 5, 6]);
    assert_eq!(&buf[25..30], &[0, 0, 0, 1, 2]);
}

#[test]
fn element_buffer_holds_records_once_and_indices() {
    let mut m = triangle();
    m.push_face(Face::new(2, 1, 0)).unwrap();
    let (array, elements) = m.to_element_array_buffer().unwrap();
    assert_eq!(array, vec![0, 0, 0, 1, 2, 1, 0, 0, 3, 4, 0, 1, 0, 5, 6]);
    assert_eq!(elements, vec![0u16, 1, 2, 2, 1, 0]);
}

#[test]
fn element_buffer_limits_vertex_count() {
    let layout = AttribArrayBuilder::new().push_custom("k", 1).build();
    let mut records: Vec<Vec<u8>> = vec![vec![0]; 65535];
    let m = Mesh::new(records.clone(), vec![Face::new(0, 1, 65534)], layout.clone()).unwrap();
    let (array, elements) = m.to_element_array_buffer().unwrap();
    assert_eq!(array.len(), 65535);
    assert_eq!(elements, vec![0u16, 1, 65534]);
    records.push(vec![1]);
    let m = Mesh::new(records, vec![], layout).unwrap();
    assert_eq!(m.to_element_array_buffer().err(), Some(MeshError::TooManyVertices));
}

#[test]
fn convert_maps_every_component() {
    let m = triangle();
    let f = m.convert(|k: i32| k as f32 * 0.5);
    assert_eq!(f.vertex(2), &vec![0.0f32, 0.5, 0.0, 2.5, 3.0]);
    assert_eq!(f.faces().len(), 1);
    assert_eq!(f.attribs().stride(), 5);
}

#[test]
fn set_vertex_checks_the_length() {
    let mut m = triangle();
    assert_eq!(m.set_vertex(1, vec![9, 9, 9]), Err(MeshError::VertexLength));
    assert_eq!(m.vertex(1), &vec![1, 0, 0, 3, 4]);
    assert_eq!(m.set_vertex(1, vec![9, 8, 7, 6, 5]), Ok(()));
    assert_eq!(m.vertex(1), &vec![9, 8, 7, 6, 5]);
    assert_eq!(m.vertex_count(), 3);
}

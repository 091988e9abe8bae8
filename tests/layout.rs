use dust::layout::{AttribArrayBuilder, AttribType};

fn standard() -> dust::layout::AttribArray {
    AttribArrayBuilder::new()
        .push("position", 3, AttribType::Position)
        .push("normal", 3, AttribType::Normal)
        .push("color", 3, AttribType::ColorRgb)
        .push("uv", 2, AttribType::Uv)
        .build()
}

#[test]
fn build_sums_lengths_into_stride() {
    let a = standard();
    assert_eq!(a.stride(), 11);
    assert_eq!(a.len(), 4);
    let offsets: Vec<usize> = (0..a.len()).map(|i| a.by_index(i).offset()).collect();
    assert_eq!(offsets, vec![0, 3, 6, 9]);
    for i in 0..a.len() {
        assert_eq!(a.by_index(i).stride(), 11);
    }
    for i in 0..a.len() - 1 {
        let cur = a.by_index(i);
        assert_eq!(cur.offset() + cur.length() as usize, a.by_index(i + 1).offset());
    }
}

#[test]
fn empty_builder_gives_empty_layout() {
    let a = AttribArrayBuilder::new().build();
    assert_eq!(a.stride(), 0);
    assert_eq!(a.len(), 0);
}

#[test]
fn zero_length_attrib_shares_its_offset() {
    let a = AttribArrayBuilder::new()
        .push_custom("a", 2)
        .push_custom("empty", 0)
        .push_custom("b", 1)
        .build();
    assert_eq!(a.stride(), 3);
    assert_eq!(a.by_index(1).offset(), 2);
    assert_eq!(a.by_index(2).offset(), 2);
    assert_eq!(a.by_index(1).a_type(), AttribType::Custom);
}

#[test]
fn large_lengths_are_not_truncated() {
    let a = AttribArrayBuilder::new().push_custom("a", 200).push_custom("b", 100).build();
    assert_eq!(a.stride(), 300);
    assert_eq!(a.by_index(1).offset(), 200);
}

#[test]
fn by_name_finds_the_attribute() {
    let a = standard();
    let n = a.by_name("color").unwrap();
    assert_eq!(n.name(), "color");
    assert_eq!(n.offset(), 6);
    assert_eq!(n.length(), 3);
    assert_eq!(n.a_type(), AttribType::ColorRgb);
}

#[test]
fn by_name_takes_the_last_of_equal_names() {
    let a = AttribArrayBuilder::new()
        .push("p", 3, AttribType::Position)
        .push("p", 2, AttribType::Uv)
        .build();
    let n = a.by_name("p").unwrap();
    assert_eq!(n.offset(), 3);
    assert_eq!(n.a_type(), AttribType::Uv);
}

#[test]
fn by_name_reports_a_missing_name() {
    let a = standard();
    let e = a.by_name("tangent").err().unwrap();
    assert_eq!(e, "could not find Attrib with name 'tangent' in AttribArray");
}

#[test]
fn by_type_takes_the_first_of_a_type() {
    let a = AttribArrayBuilder::new()
        .push_custom("c0", 1)
        .push("p", 3, AttribType::Position)
        .push_custom("c1", 4)
        .build();
    let c = a.by_type(AttribType::Custom).unwrap();
    assert_eq!(c.name(), "c0");
    assert_eq!(a.by_type(AttribType::Position).unwrap().offset(), 1);
}

#[test]
fn by_type_reports_a_missing_type() {
    let a = AttribArrayBuilder::new().push("p", 3, AttribType::Position).build();
    let e = a.by_type(AttribType::Normal).err().unwrap();
    assert_eq!(e, "could not find Attrib with type 'Normal' in AttribArray");
    assert_eq!(AttribType::ColorRgba.name(), "ColorRgba");
}

#[test]
fn clone_keeps_the_layout() {
    let a = standard();
    let b = a.clone();
    assert_eq!(b.stride(), 11);
    assert_eq!(b.by_name("uv").unwrap().offset(), 9);
    let attr = a.by_index(0).clone();
    assert_eq!(attr.name(), "position");
}

use obj_parser::number::Number;
use obj_parser::geometry::{
    parse_normal, parse_obj_file, parse_point, parse_texture, parse_vertex, DEFAULT_NAME,
};
use obj_parser::types::{FacePoint, Object, ObjectFault, Vertex, VertexNormal, VertexTexture};

fn letters(s: &str) -> Vec<char> {
    s.chars().collect()
}

fn number(s: &str) -> Number {
    Number::parse(s).unwrap()
}

fn float(n: &Number) -> f32 {
    n.text().parse::<f32>().unwrap()
}

fn vertex(x: &str, y: &str, z: &str, w: Option<&str>) -> Vertex {
    Vertex { x: number(x), y: number(y), z: number(z), w: w.map(number) }
}

fn point(v_id: u32, vt_id: Option<u32>, vn_id: Option<u32>) -> FacePoint {
    FacePoint { v_id, vt_id, vn_id }
}

fn object(text: &str) -> Object {
    parse_obj_file(text).unwrap()
}

#[test]
fn vertex_line_with_three_fields() {
    let v = parse_vertex(&letters("v 1.5 -2 3e2")).unwrap();
    assert_eq!(v, vertex("1.5", "-2", "3e2", None));
    assert_eq!(float(&v.x), 1.5);
    assert_eq!(float(&v.y), -2.0);
    assert_eq!(float(&v.z), 300.0);
    assert!(v.w.is_none());
}

#[test]
fn vertex_line_with_four_fields() {
    let v = parse_vertex(&letters("v 0.1 0.2 0.3 0.4")).unwrap();
    assert_eq!(v, vertex("0.1", "0.2", "0.3", Some("0.4")));
    assert_eq!(float(&v.x), 0.1);
    assert_eq!(float(&v.y), 0.2);
    assert_eq!(float(&v.z), 0.3);
    assert_eq!(float(v.w.as_ref().unwrap()), 0.4);
}

#[test]
fn vertex_fields_survive_formatting() {
    let values: [f32; 7] = [0.0, -0.0, 1.0, -17.25, 3.4028235e38, 1.1754944e-38, 0.1];
    for x in values {
        for w in [None, Some(0.33333334f32)] {
            let line = match w {
                Some(w) => format!("v {} {:?} {:e} {}", x, -x, x, w),
                None => format!("v {} {:?} {:e}", x, -x, x),
            };
            let v = parse_vertex(&letters(&line)).unwrap();
            assert_eq!(float(&v.x).to_bits(), x.to_bits(), "{:?}", line);
            assert_eq!(float(&v.y).to_bits(), (-x).to_bits(), "{:?}", line);
            assert_eq!(float(&v.z).to_bits(), x.to_bits(), "{:?}", line);
            assert_eq!(v.w.as_ref().map(float), w, "{:?}", line);
            assert_eq!(v.x.text(), format!("{}", x));
        }
    }
}

#[test]
fn vertex_line_with_infinity_and_nan() {
    let v = parse_vertex(&letters("v inf -Infinity NaN")).unwrap();
    assert_eq!(v, vertex("inf", "-Infinity", "NaN", None));
    assert_eq!(float(&v.x), f32::INFINITY);
    assert_eq!(float(&v.y), f32::NEG_INFINITY);
    assert!(float(&v.z).is_nan());
}

#[test]
fn vertex_line_takes_any_white_space_between_fields() {
    let v = parse_vertex(&letters("  v\t1   2\u{a0}3 \r")).unwrap();
    assert_eq!(v, vertex("1", "2", "3", None));
}

#[test]
fn malformed_vertex_lines_give_nothing() {
    for line in [
        "", "v", "v 1", "v 1 2", "v 1 2 3 4 5", "v 1 2 x", "v x 2 3", "v 1 2 3 x", "v 1 2 3 na",
        "v 1 2 infinite", "vt 1 2 3", "vn 1 2 3", "w 1 2 3", "V 1 2 3", "v1 2 3", "# v 1 2 3",
        "f 1 2 3", "v 1,0 2 3", "vv 1 2 3", "v 1 2 0x3", "v 1 2 3f",
    ] {
        assert_eq!(parse_vertex(&letters(line)), None, "{:?}", line);
    }
}

#[test]
fn texture_lines() {
    assert_eq!(
        parse_texture(&letters("vt 0.5 1")),
        Some(VertexTexture { u: number("0.5"), v: number("1"), w: None })
    );
    assert_eq!(
        parse_texture(&letters("vt 0.5 1 0")),
        Some(VertexTexture { u: number("0.5"), v: number("1"), w: Some(number("0")) })
    );
    for line in ["vt", "vt 1", "vt 1 2 3 4", "vt a 2", "vt 1 b", "vt 1 2 c", "v 1 2", "vn 1 2 3"] {
        assert_eq!(parse_texture(&letters(line)), None, "{:?}", line);
    }
}

#[test]
fn normal_lines() {
    assert_eq!(
        parse_normal(&letters("vn 0 -1 0.0")),
        Some(VertexNormal { x: number("0"), y: number("-1"), z: number("0.0") })
    );
    for line in ["vn", "vn 1 2", "vn 1 2 3 4", "vn a 2 3", "vn 1 2 c", "v 1 2 3", "vt 1 2 3"] {
        assert_eq!(parse_normal(&letters(line)), None, "{:?}", line);
    }
}

#[test]
fn face_corner_with_a_vertex_only() {
    assert_eq!(parse_point(&letters("7")), Some(point(7, None, None)));
    assert_eq!(parse_point(&letters("+7")), Some(point(7, None, None)));
    assert_eq!(parse_point(&letters("4294967295")), Some(point(u32::MAX, None, None)));
}

#[test]
fn face_corner_without_a_normal() {
    assert_eq!(parse_point(&letters("7/8")), Some(point(7, Some(8), None)));
}

#[test]
fn face_corner_with_all_indices() {
    assert_eq!(parse_point(&letters("7/8/9")), Some(point(7, Some(8), Some(9))));
    assert_eq!(parse_point(&letters("7/8/9/10")), Some(point(7, Some(8), Some(9))));
    assert_eq!(parse_point(&letters("7/8/9/x")), Some(point(7, Some(8), Some(9))));
}

#[test]
fn face_corner_with_a_field_that_is_no_index() {
    for word in [
        "", "a", "1/a/2", "a/1/2", "1/2/a", "1//3", "1/", "1/2/", "/1", "-1", "1.0", "1/-2",
        "4294967296", "1/4294967296", "1/2/4294967296", "1e2",
    ] {
        assert_eq!(parse_point(&letters(word)), None, "{:?}", word);
    }
}

#[test]
fn records_come_in_the_order_of_the_file() {
    let o = object(
        "v 1 0 0\nvt 0 0\nvn 0 0 1\nv 2 0 0\nf 1 2\nvt 1 1\nv 3 0 0\nf 3/2/1 1/1/1 2/2/1\nvn 0 1 0\n",
    );
    assert_eq!(
        o.v,
        vec![vertex("1", "0", "0", None), vertex("2", "0", "0", None), vertex("3", "0", "0", None)]
    );
    assert_eq!(
        o.vt,
        vec![
            VertexTexture { u: number("0"), v: number("0"), w: None },
            VertexTexture { u: number("1"), v: number("1"), w: None },
        ]
    );
    assert_eq!(
        o.vn,
        vec![
            VertexNormal { x: number("0"), y: number("0"), z: number("1") },
            VertexNormal { x: number("0"), y: number("1"), z: number("0") },
        ]
    );
    assert_eq!(o.f.len(), 2);
    assert_eq!(o.f[0].points, vec![point(1, None, None), point(2, None, None)]);
    assert_eq!(
        o.f[1].points,
        vec![point(3, Some(2), Some(1)), point(1, Some(1), Some(1)), point(2, Some(2), Some(1))]
    );
    assert_eq!(o.mtllib, None);
}

#[test]
fn malformed_lines_are_skipped() {
    let o = object("v 1 2 3\nv 1 2\nv a b c\nv 4 5 6 7 8\nvt 1\nvn 1 2 3 4\nv 4 5 6\nusemtl x\n");
    assert_eq!(o.v, vec![vertex("1", "2", "3", None), vertex("4", "5", "6", None)]);
    assert!(o.vt.is_empty());
    assert!(o.vn.is_empty());
    assert!(o.f.is_empty());
}

#[test]
fn geometry_without_a_vertex_is_rejected() {
    for text in [
        "", "\n", "vt 0 0\nvn 0 0 1\n", "o thing\ng group\nf 1 2 3\n", "v 1 2\n", "v a b c\n",
        "# v 1 2 3\n", "mtllib x.mtl\n",
    ] {
        assert_eq!(parse_obj_file(text), Err(ObjectFault::NoVertex), "{:?}", text);
    }
}

#[test]
fn malformed_face_index_is_fatal() {
    for text in [
        "v 0 0 0\nf 1/a/2\n",
        "v 0 0 0\nf 1 2 x\n",
        "v 0 0 0\nf 1//3\n",
        "v 0 0 0\nf 1 2 3\nf 1 -2 3\nf 1 2 3\n",
        "f a\nv 0 0 0\n",
        "f 1.5\n",
    ] {
        assert_eq!(parse_obj_file(text), Err(ObjectFault::FaceIndex), "{:?}", text);
    }
}

#[test]
fn face_lines_begin_with_f_and_a_space() {
    let o = object("v 0 0 0\n f a\n\tf b\nfa 1\nf\t1 x\nf\nf 1 2 3\n");
    assert_eq!(o.f.len(), 1);
    assert_eq!(o.f[0].points, vec![point(1, None, None), point(2, None, None), point(3, None, None)]);
}

#[test]
fn faces_without_corners_are_dropped() {
    let o = object("v 0 0 0\nf \nf    \nf 1\n");
    assert_eq!(o.f.len(), 1);
    assert_eq!(o.f[0].points, vec![point(1, None, None)]);
}

#[test]
fn object_name_joins_words_with_underscores() {
    assert_eq!(object("v 0 0 0\no Cube\n").o, "Cube");
    assert_eq!(object("v 0 0 0\no my little object\n").o, "my_little_object");
    assert_eq!(object("o first\nv 0 0 0\no second\n").o, "first");
    assert_eq!(object("v 0 0 0\no a  b\r\n").o, "a__b");
}

#[test]
fn object_name_defaults() {
    assert_eq!(DEFAULT_NAME, "Defaut_object_name");
    assert_eq!(object("v 0 0 0\n").o, "Defaut_object_name");
    assert_eq!(object("v 0 0 0\no \n").o, "Defaut_object_name");
    assert_eq!(object("v 0 0 0\no\n").o, "Defaut_object_name");
}

#[test]
fn object_name_comes_from_the_first_line_that_holds_o_and_a_space() {
    assert_eq!(object("v 0 0 0\n# two words\no Cube\n").o, "two_words");
    assert_eq!(object("v 0 0 0\nmtllib foo bar\no Cube\n").o, "foo_bar");
}

#[test]
fn group_name() {
    assert_eq!(object("v 0 0 0\ng Group\n").g, Some("Group".to_string()));
    assert_eq!(object("v 0 0 0\ng front left\ng other\n").g, Some("front_left".to_string()));
    assert_eq!(object("v 0 0 0\n").g, None);
    assert_eq!(object("v 0 0 0\ng \n").g, None);
    assert_eq!(object("v 0 0 0\ng\n").g, None);
}

#[test]
fn object_check_wants_a_vertex() {
    let mut o = object("v 0 0 0\n");
    assert_eq!(o.check(), Ok(true));
    o.v.clear();
    assert_eq!(o.check(), Err("no vector on object file".to_string()));
}

#[test]
fn object_fault_messages() {
    assert_eq!(ObjectFault::NoVertex.message(), "no vector on object file");
    assert_eq!(
        ObjectFault::FaceIndex.message(),
        "Error: Invalid input on obj file (wrong f input)"
    );
}

use obj_parser::geometry::parse_obj_file;
use obj_parser::material::parse_mlt_file;
use obj_parser::parse::{get_mtl_path, join, pars_obj, ParseError};
use obj_parser::types::{FacePoint, MaterialFault, ObjectFault};

fn path_for(obj_path: &str, obj_content: &str) -> Option<String> {
    get_mtl_path(&obj_path.to_string(), &obj_content.to_string())
}

const GEOMETRY: &str = "mtllib scene.mtl\no Cube\nv 0 0 0\nv 1 1 1\nvt 0 1\nvn 0 0 1\nf 1/1/1 2/1/1\n";

const MATERIAL: &str = "newmtl X\nNs 50\nNi 0.5\nd 1\nillum 1\nKa 0.1 0.1 0.1\n";

#[test]
fn material_path_stands_beside_the_geometry_file() {
    assert_eq!(
        path_for("a/b/mesh.obj", "mtllib scene.mtl\nv 0 0 0\n"),
        Some("a/b/scene.mtl".to_string())
    );
    assert_eq!(path_for("mesh.obj", "v 0 0 0\nmtllib scene.mtl\n"), Some("scene.mtl".to_string()));
    assert_eq!(path_for("/mesh.obj", "mtllib scene.mtl"), Some("/scene.mtl".to_string()));
    assert_eq!(path_for("./a/", "mtllib scene.mtl"), Some("./a/scene.mtl".to_string()));
    assert_eq!(path_for("", "mtllib scene.mtl"), Some("scene.mtl".to_string()));
    assert_eq!(path_for("a/b/mesh.obj", "mtllib scene.mtl\r\n"), Some("a/b/scene.mtl".to_string()));
}

#[test]
fn material_path_without_a_reference() {
    assert_eq!(path_for("a/b/mesh.obj", "v 0 0 0\nv 1 1 1\nf 1 2\n"), None);
    assert_eq!(path_for("a/b/mesh.obj", ""), None);
    assert_eq!(path_for("a/b/mesh.obj", "mtllib\n"), None);
    assert_eq!(path_for("a/b/mesh.obj", "mtllib\tscene.mtl\n"), None);
}

#[test]
fn material_path_without_a_name() {
    assert_eq!(path_for("a/b/mesh.obj", "mtllib \n"), None);
    assert_eq!(path_for("a/b/mesh.obj", "mtllib   \t \n"), None);
    assert_eq!(path_for("a/b/mesh.obj", "  mtllib \nmtllib scene.mtl\n"), None);
}

#[test]
fn material_name_is_the_last_word_whatever_white_space_surrounds_it() {
    let expected = Some("a/b/scene.mtl".to_string());
    assert_eq!(path_for("a/b/mesh.obj", "mtllib scene.mtl \n"), expected);
    assert_eq!(path_for("a/b/mesh.obj", "mtllib scene.mtl   \n"), expected);
    assert_eq!(path_for("a/b/mesh.obj", "mtllib scene.mtl\t\n"), expected);
    assert_eq!(path_for("a/b/mesh.obj", "mtllib \tscene.mtl\n"), expected);
    assert_eq!(path_for("a/b/mesh.obj", "mtllib   scene.mtl\r\n"), expected);
    assert_eq!(path_for("a/b/mesh.obj", "\tmtllib scene.mtl \u{a0}\n"), expected);
    assert_eq!(path_for("a/b/mesh.obj", "mtllib other.mtl\tscene.mtl \n"), expected);
}

#[test]
fn material_path_takes_the_first_reference_and_its_last_word() {
    assert_eq!(
        path_for("a/mesh.obj", "mtllib one.mtl\nmtllib two.mtl\n"),
        Some("a/one.mtl".to_string())
    );
    assert_eq!(
        path_for("a/mesh.obj", "mtllib one.mtl two.mtl\n"),
        Some("a/two.mtl".to_string())
    );
    assert_eq!(path_for("a/mesh.obj", "# mtllib old.mtl\n"), Some("a/old.mtl".to_string()));
}

#[test]
fn geometry_alone() {
    let text = "v 0 0 0\nv 1 1 1\nf 1 2\n".to_string();
    let (object, material) = pars_obj(&text, None).unwrap();
    assert_eq!(object.v.len(), 2);
    assert_eq!(object.f.len(), 1);
    assert_eq!(
        object.f[0].points,
        vec![
            FacePoint { v_id: 1, vt_id: None, vn_id: None },
            FacePoint { v_id: 2, vt_id: None, vn_id: None },
        ]
    );
    assert!(object.vt.is_empty());
    assert!(object.vn.is_empty());
    assert_eq!(material, None);
    assert_eq!(get_mtl_path(&"mesh.obj".to_string(), &text), None);
}

#[test]
fn geometry_and_material_together_as_alone() {
    let (object, material) = pars_obj(&GEOMETRY.to_string(), Some(&MATERIAL.to_string())).unwrap();
    assert_eq!(object, parse_obj_file(GEOMETRY).unwrap());
    assert_eq!(material, Some(parse_mlt_file(MATERIAL).unwrap()));
    assert_eq!(object.o, "Cube");
    assert_eq!(object.mtllib, None);
    assert_eq!(material.unwrap().newmtl, "X");
}

#[test]
fn empty_material_text_is_no_material() {
    let (object, material) = pars_obj(&GEOMETRY.to_string(), Some(&String::new())).unwrap();
    assert_eq!(object, parse_obj_file(GEOMETRY).unwrap());
    assert_eq!(material, None);
}

#[test]
fn failure_of_either_parse_fails_the_whole() {
    let bad_geometry = "v 0 0 0\nf 1/a/2\n".to_string();
    let no_vertex = "f 1 2 3\n".to_string();
    let bad_material = "newmtl X\nNs 150\n".to_string();
    let material = MATERIAL.to_string();
    let geometry = GEOMETRY.to_string();
    assert_eq!(
        pars_obj(&bad_geometry, Some(&material)),
        Err(ParseError::Geometry(ObjectFault::FaceIndex))
    );
    assert_eq!(pars_obj(&no_vertex, None), Err(ParseError::Geometry(ObjectFault::NoVertex)));
    assert_eq!(
        pars_obj(&geometry, Some(&bad_material)),
        Err(ParseError::Material(MaterialFault::SpecularExponent))
    );
    assert_eq!(
        pars_obj(&bad_geometry, Some(&bad_material)),
        Err(ParseError::Geometry(ObjectFault::FaceIndex))
    );
}

#[test]
fn join_pairs_the_results() {
    let joined = join(parse_obj_file(GEOMETRY), Some(parse_mlt_file(MATERIAL)));
    assert_eq!(joined, pars_obj(&GEOMETRY.to_string(), Some(&MATERIAL.to_string())));
    let (object, material) = joined.unwrap();
    assert_eq!(object, parse_obj_file(GEOMETRY).unwrap());
    assert_eq!(material, Some(parse_mlt_file(MATERIAL).unwrap()));
    let alone = join(parse_obj_file(GEOMETRY), None).unwrap();
    assert_eq!(alone.0, parse_obj_file(GEOMETRY).unwrap());
    assert_eq!(alone.1, None);
    assert_eq!(
        join(Err(ObjectFault::NoVertex), Some(Err(MaterialFault::MissingName))),
        Err(ParseError::Geometry(ObjectFault::NoVertex))
    );
    assert_eq!(
        join(parse_obj_file(GEOMETRY), Some(Err(MaterialFault::MissingName))),
        Err(ParseError::Material(MaterialFault::MissingName))
    );
}

#[test]
fn parse_error_messages() {
    assert_eq!(
        ParseError::Geometry(ObjectFault::NoVertex).message(),
        "no vector on object file"
    );
    assert_eq!(
        ParseError::Geometry(ObjectFault::FaceIndex).message(),
        "Error: Invalid input on obj file (wrong f input)"
    );
    assert_eq!(
        ParseError::Material(MaterialFault::Dissolve).message(),
        "invalid d(transparency) on mtl file "
    );
}

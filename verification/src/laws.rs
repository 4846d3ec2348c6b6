//! What holds of the parsers on every input.

use crate::geometry::{
    faces_of, index_of, is_face_line, lemma_faces_of_prefix, lemma_points_of_prefix, normal_of,
    normals_of, object_of, point_of, texture_of, textures_of, vertex_of, vertices_of,
    DEFAULT_NAME,
};
use crate::material::{checked_material_of, material_of};
use crate::number::{
    all_digits, in_range, is_digit, is_literal_char, is_number, lemma_number_chars,
};
use crate::parse::{joined, mtl_name, mtl_path, parsed};
use crate::text::{
    contains, first_with, is_space, is_token, joined_by, last_index, lemma_fields_of_joined,
    lemma_first_with_none, lemma_last_index, lemma_last_index_bounds, lemma_words_are_tokens,
    lemma_words_of_spaced, lines_of, spaced, words_of,
};
use crate::types::{
    FacePoint, MaterialView, ObjectFault, ObjectView, VertexNormalView, VertexTextureView,
    VertexView,
};
use crate::utils::rgb_in_range;
use vstd::prelude::*;

verus! {

/// A number literal is one word.
pub proof fn lemma_number_is_token(s: Seq<char>)
    requires
        is_number(s),
    ensures
        is_token(s),
{
    lemma_number_chars(s);
    assert forall|k: int| 0 <= k < s.len() implies !is_space(#[trigger] s[k]) by {
        assert(is_literal_char(s[k]));
    }
}

/// A line whose words are `v` and three or four number literals gives the
/// vertex that holds these literals as written, in the order of the line,
/// whatever white space stands between them.
pub proof fn lemma_vertex_keeps_fields(line: Seq<char>)
    requires
        words_of(line).len() == 4 || words_of(line).len() == 5,
        words_of(line)[0] == "v"@,
        forall|k: int| 1 <= k < words_of(line).len() ==> is_number(#[trigger] words_of(line)[k]),
    ensures
        vertex_of(line) == Some(
            VertexView {
                x: words_of(line)[1],
                y: words_of(line)[2],
                z: words_of(line)[3],
                w: if words_of(line).len() == 5 {
                    Some(words_of(line)[4])
                } else {
                    None
                },
            },
        ),
{
    let t = words_of(line);
    assert(is_number(t[1]) && is_number(t[2]) && is_number(t[3]));
    if t.len() == 5 {
        assert(is_number(t[4]));
    }
}

/// The words of the line that spells a vertex.
pub open spec fn vertex_words(v: VertexView) -> Seq<Seq<char>> {
    match v.w {
        Some(w) => seq!["v"@, v.x, v.y, v.z, w],
        None => seq!["v"@, v.x, v.y, v.z],
    }
}

/// The words of the line that spells a texture coordinate.
pub open spec fn texture_words(v: VertexTextureView) -> Seq<Seq<char>> {
    match v.w {
        Some(w) => seq!["vt"@, v.u, v.v, w],
        None => seq!["vt"@, v.u, v.v],
    }
}

/// The words of the line that spells a normal.
pub open spec fn normal_words(v: VertexNormalView) -> Seq<Seq<char>> {
    seq!["vn"@, v.x, v.y, v.z]
}

/// A vertex line with three or four number literals gives the vertex that
/// holds these literals, each as written and in the order of the line: the
/// line that spells a vertex, `v` and its literals with one space between
/// them, is read back as that vertex.
pub proof fn lemma_vertex_round_trip(v: VertexView)
    requires
        is_number(v.x),
        is_number(v.y),
        is_number(v.z),
        v.w matches Some(w) ==> is_number(w),
    ensures
        vertex_of(spaced(vertex_words(v))) == Some(v),
{
    let t = vertex_words(v);
    reveal_strlit("v");
    lemma_number_is_token(v.x);
    lemma_number_is_token(v.y);
    lemma_number_is_token(v.z);
    if v.w is Some {
        lemma_number_is_token(v.w.unwrap());
    }
    assert(is_token(t[0]));
    lemma_words_of_spaced(t);
}

/// The line that spells a texture coordinate is read back as that
/// coordinate.
pub proof fn lemma_texture_round_trip(v: VertexTextureView)
    requires
        is_number(v.u),
        is_number(v.v),
        v.w matches Some(w) ==> is_number(w),
    ensures
        texture_of(spaced(texture_words(v))) == Some(v),
{
    let t = texture_words(v);
    reveal_strlit("vt");
    lemma_number_is_token(v.u);
    lemma_number_is_token(v.v);
    if v.w is Some {
        lemma_number_is_token(v.w.unwrap());
    }
    assert(is_token(t[0]));
    lemma_words_of_spaced(t);
}

/// The line that spells a normal is read back as that normal.
pub proof fn lemma_normal_round_trip(v: VertexNormalView)
    requires
        is_number(v.x),
        is_number(v.y),
        is_number(v.z),
    ensures
        normal_of(spaced(normal_words(v))) == Some(v),
{
    let t = normal_words(v);
    reveal_strlit("vn");
    lemma_number_is_token(v.x);
    lemma_number_is_token(v.y);
    lemma_number_is_token(v.z);
    assert(is_token(t[0]));
    lemma_words_of_spaced(t);
}

/// The vertices of earlier lines stand before those of later lines.
pub proof fn lemma_vertices_in_order(a: Seq<Seq<char>>, b: Seq<Seq<char>>)
    ensures
        vertices_of(a + b) == vertices_of(a) + vertices_of(b),
    decreases b.len(),
{
    if b.len() == 0 {
        assert(a + b == a);
        assert(vertices_of(a) + vertices_of(b) =~= vertices_of(a));
    } else {
        lemma_vertices_in_order(a, b.drop_last());
        assert((a + b).drop_last() == a + b.drop_last());
        assert((a + b).last() == b.last());
        assert(vertices_of(a + b) =~= vertices_of(a) + vertices_of(b));
    }
}

/// The texture coordinates of earlier lines stand before those of later
/// lines.
pub proof fn lemma_textures_in_order(a: Seq<Seq<char>>, b: Seq<Seq<char>>)
    ensures
        textures_of(a + b) == textures_of(a) + textures_of(b),
    decreases b.len(),
{
    if b.len() == 0 {
        assert(a + b == a);
        assert(textures_of(a) + textures_of(b) =~= textures_of(a));
    } else {
        lemma_textures_in_order(a, b.drop_last());
        assert((a + b).drop_last() == a + b.drop_last());
        assert((a + b).last() == b.last());
        assert(textures_of(a + b) =~= textures_of(a) + textures_of(b));
    }
}

/// The normals of earlier lines stand before those of later lines.
pub proof fn lemma_normals_in_order(a: Seq<Seq<char>>, b: Seq<Seq<char>>)
    ensures
        normals_of(a + b) == normals_of(a) + normals_of(b),
    decreases b.len(),
{
    if b.len() == 0 {
        assert(a + b == a);
        assert(normals_of(a) + normals_of(b) =~= normals_of(a));
    } else {
        lemma_normals_in_order(a, b.drop_last());
        assert((a + b).drop_last() == a + b.drop_last());
        assert((a + b).last() == b.last());
        assert(normals_of(a + b) =~= normals_of(a) + normals_of(b));
    }
}

/// The faces of earlier lines stand before those of later lines, and a
/// malformed face among either leaves no faces.
pub proof fn lemma_faces_in_order(a: Seq<Seq<char>>, b: Seq<Seq<char>>)
    ensures
        faces_of(a + b) == match (faces_of(a), faces_of(b)) {
            (Some(x), Some(y)) => Some(x + y),
            _ => None,
        },
    decreases b.len(),
{
    if b.len() == 0 {
        assert(a + b == a);
        if faces_of(a) is Some {
            assert(faces_of(a).unwrap() + faces_of(b).unwrap() =~= faces_of(a).unwrap());
        }
    } else {
        lemma_faces_in_order(a, b.drop_last());
        assert((a + b).drop_last() == a + b.drop_last());
        assert((a + b).last() == b.last());
        match (faces_of(a), faces_of(b.drop_last())) {
            (Some(x), Some(y)) => {
                if faces_of(b) is Some {
                    assert(faces_of(a + b).unwrap() =~= x + faces_of(b).unwrap());
                }
            },
            _ => {},
        }
    }
}

/// Lines of which none gives a vertex give no vertices.
pub proof fn lemma_no_vertices(lines: Seq<Seq<char>>)
    requires
        forall|i: int| 0 <= i < lines.len() ==> vertex_of(#[trigger] lines[i]) is None,
    ensures
        vertices_of(lines).len() == 0,
    decreases lines.len(),
{
    if lines.len() > 0 {
        let head = lines.drop_last();
        assert forall|i: int| 0 <= i < head.len() implies vertex_of(#[trigger] head[i]) is None by {
            assert(head[i] == lines[i]);
        }
        lemma_no_vertices(head);
        assert(vertex_of(lines[lines.len() - 1]) is None);
    }
}

/// Geometry text without a line whose first word is `v` is rejected,
/// whatever else it holds.
pub proof fn lemma_no_vertex_line_is_rejected(text: Seq<char>)
    requires
        forall|i: int|
            0 <= i < lines_of(text).len() ==> !(words_of(#[trigger] lines_of(text)[i]).len() > 0
                && words_of(lines_of(text)[i])[0] == "v"@),
    ensures
        object_of(text) is Err,
{
    lemma_no_vertices(lines_of(text));
}

/// An index holds no `/`.
pub proof fn lemma_index_has_no_slash(field: Seq<char>)
    requires
        index_of(field) is Some,
    ensures
        forall|k: int| 0 <= k < field.len() ==> field[k] != '/',
{
    let d = if field.len() > 0 && field[0] == '+' {
        field.drop_first()
    } else {
        field
    };
    assert(all_digits(d));
    assert forall|k: int| 0 <= k < field.len() implies field[k] != '/' by {
        if field.len() > 0 && field[0] == '+' {
            if k > 0 {
                assert(field[k] == d[k - 1]);
                assert(is_digit(d[k - 1]));
            }
        } else {
            assert(is_digit(d[k]));
        }
    }
}

/// A face corner that names only a vertex has no texture and no normal
/// index, and its vertex index is the one written.
pub proof fn lemma_point_of_vertex(v: Seq<char>)
    requires
        index_of(v) is Some,
    ensures
        point_of(v) == Some(FacePoint { v_id: index_of(v).unwrap(), vt_id: None, vn_id: None }),
{
    lemma_index_has_no_slash(v);
    lemma_fields_of_joined(seq![v], '/');
}

/// A face corner that names a vertex and a texture index has no normal
/// index, and the two indices are those written.
pub proof fn lemma_point_of_vertex_texture(v: Seq<char>, vt: Seq<char>)
    requires
        index_of(v) is Some,
        index_of(vt) is Some,
    ensures
        point_of(v + seq!['/'] + vt) == Some(
            FacePoint { v_id: index_of(v).unwrap(), vt_id: index_of(vt), vn_id: None },
        ),
{
    lemma_index_has_no_slash(v);
    lemma_index_has_no_slash(vt);
    let f = seq![v, vt];
    assert(f.drop_first() == seq![vt]);
    assert(joined_by(f.drop_first(), '/') == vt);
    lemma_fields_of_joined(f, '/');
}

/// A face corner that names all three indices holds the three as written.
pub proof fn lemma_point_of_all(v: Seq<char>, vt: Seq<char>, vn: Seq<char>)
    requires
        index_of(v) is Some,
        index_of(vt) is Some,
        index_of(vn) is Some,
    ensures
        point_of(v + seq!['/'] + vt + seq!['/'] + vn) == Some(
            FacePoint { v_id: index_of(v).unwrap(), vt_id: index_of(vt), vn_id: index_of(vn) },
        ),
{
    lemma_index_has_no_slash(v);
    lemma_index_has_no_slash(vt);
    lemma_index_has_no_slash(vn);
    let f = seq![v, vt, vn];
    let g = f.drop_first();
    assert(g == seq![vt, vn]);
    assert(g.drop_first() == seq![vn]);
    assert(joined_by(g.drop_first(), '/') == vn);
    assert(joined_by(g, '/') == vt + seq!['/'] + vn);
    assert(joined_by(f, '/') =~= v + seq!['/'] + vt + seq!['/'] + vn);
    lemma_fields_of_joined(f, '/');
}

/// A word of a face line that describes no corner makes the whole geometry
/// text fail; the corner is never left out in silence.
pub proof fn lemma_bad_face_index_is_fatal(text: Seq<char>, i: int, j: int)
    requires
        0 <= i < lines_of(text).len(),
        is_face_line(lines_of(text)[i]),
        1 <= j < words_of(lines_of(text)[i]).len(),
        point_of(words_of(lines_of(text)[i])[j]) is None,
    ensures
        object_of(text) == Err::<ObjectView, ObjectFault>(ObjectFault::FaceIndex),
{
    let lines = lines_of(text);
    let corners = words_of(lines[i]).drop_first();
    assert(corners.take(j).last() == words_of(lines[i])[j]);
    lemma_points_of_prefix(corners, j);
    assert(lines.take(i + 1).last() == lines[i]);
    lemma_faces_of_prefix(lines, i + 1);
}

/// The faces that are kept have at least one corner each.
pub proof fn lemma_faces_have_corners(lines: Seq<Seq<char>>)
    ensures
        faces_of(lines) matches Some(f) ==> forall|k: int| 0 <= k < f.len() ==> (#[trigger] f[k]).len() > 0,
    decreases lines.len(),
{
    if lines.len() > 0 {
        lemma_faces_have_corners(lines.drop_last());
    }
}

/// An object that was parsed has a vertex, a name, no empty face, and no
/// material yet.
pub proof fn lemma_object_is_valid(text: Seq<char>)
    ensures
        object_of(text) matches Ok(o) ==> {
            &&& o.v.len() > 0
            &&& o.o.len() > 0
            &&& o.mtllib is None
            &&& forall|k: int| 0 <= k < o.f.len() ==> (#[trigger] o.f[k]).len() > 0
        },
{
    reveal_strlit("Defaut_object_name");
    assert(DEFAULT_NAME@.len() > 0);
    lemma_faces_have_corners(lines_of(text));
}

/// Whether a material keeps every rule: it has a name, its numbers lie in
/// their ranges, and its illumination model is 1 or 2.
pub open spec fn is_valid_material(m: MaterialView) -> bool {
    &&& m.newmtl.len() > 0
    &&& in_range(m.ns, 100)
    &&& in_range(m.ni, 1)
    &&& in_range(m.d, 1)
    &&& (m.illum == 1 || m.illum == 2)
    &&& rgb_in_range(m.ka)
    &&& rgb_in_range(m.kd)
    &&& rgb_in_range(m.ks)
    &&& rgb_in_range(m.ke)
}

/// A material has no fault exactly when it keeps every rule: each rule
/// that is broken, alone or with others, makes the material fail.
pub proof fn lemma_fault_free_is_valid(m: MaterialView)
    ensures
        m.fault() is None <==> is_valid_material(m),
{
}

/// Material text gives a material exactly when the material that it
/// describes keeps every rule, and then it gives that material whole.
pub proof fn lemma_material_is_valid(text: Seq<char>)
    ensures
        checked_material_of(text) is Ok <==> is_valid_material(material_of(text)),
        checked_material_of(text) matches Ok(m) ==> m == material_of(text) && is_valid_material(m),
{
}

/// Geometry text of which no line holds `mtllib` and a space refers to no
/// material file, whatever the path of the geometry file.
pub proof fn lemma_no_reference_no_path(obj_path: Seq<char>, obj_content: Seq<char>)
    requires
        forall|i: int|
            0 <= i < lines_of(obj_content).len() ==> !contains(
                #[trigger] lines_of(obj_content)[i],
                "mtllib "@,
            ),
    ensures
        mtl_path(obj_path, obj_content) is None,
{
    lemma_first_with_none(lines_of(obj_content), "mtllib "@);
}

/// The name of a material file is the last white-space-separated word of
/// the line that refers to it: it is not empty and holds no white space,
/// whatever white space stands around it on the line.
pub proof fn lemma_name_is_last_word(lines: Seq<Seq<char>>)
    ensures
        mtl_name(lines) matches Some(name) ==> {
            &&& first_with(lines, "mtllib "@) matches Some(line) && name == words_of(line).last()
            &&& is_token(name)
        },
{
    if mtl_name(lines) is Some {
        let line = first_with(lines, "mtllib "@).unwrap();
        lemma_words_are_tokens(line);
        assert(is_token(words_of(line)[words_of(line).len() - 1]));
    }
}

/// Geometry text refers to a material file exactly when its first line that
/// holds `mtllib` and a space has a word after its first.
pub proof fn lemma_path_when_named(obj_path: Seq<char>, obj_content: Seq<char>)
    ensures
        mtl_path(obj_path, obj_content) is Some <==> (first_with(
            lines_of(obj_content),
            "mtllib "@,
        ) matches Some(line) && words_of(line).len() >= 2),
{
}

/// The path of a material file is the directory of the geometry file, up to
/// and with its last `/`, and then the name that the geometry text gives.
pub proof fn lemma_path_keeps_directory(obj_path: Seq<char>, obj_content: Seq<char>)
    ensures
        mtl_path(obj_path, obj_content) matches Some(path) ==> {
            let cut = last_index(obj_path, '/') + 1;
            &&& 0 <= cut <= obj_path.len()
            &&& path.len() > cut
            &&& path.take(cut) == obj_path.take(cut)
            &&& Some(path.skip(cut)) == mtl_name(lines_of(obj_content))
            &&& forall|k: int| cut <= k < obj_path.len() ==> obj_path[k] != '/'
        },
{
    lemma_last_index_bounds(obj_path, '/');
    lemma_name_is_last_word(lines_of(obj_content));
    if mtl_path(obj_path, obj_content) is Some {
        let cut = last_index(obj_path, '/') + 1;
        let path = mtl_path(obj_path, obj_content).unwrap();
        let name = mtl_name(lines_of(obj_content)).unwrap();
        assert(path.take(cut) =~= obj_path.take(cut));
        assert(path.skip(cut) =~= name);
    }
}

/// The material file takes the place of the last segment of the geometry
/// file's path: for a geometry file `file` in a directory `dir`, the
/// material file named `name` is `dir/name`, with `dir` kept as it is.
pub proof fn lemma_path_replaces_last_segment(
    dir: Seq<char>,
    file: Seq<char>,
    obj_content: Seq<char>,
)
    requires
        forall|k: int| 0 <= k < file.len() ==> file[k] != '/',
        mtl_name(lines_of(obj_content)) is Some,
    ensures
        mtl_path(dir + seq!['/'] + file, obj_content) == Some(
            dir + seq!['/'] + mtl_name(lines_of(obj_content)).unwrap(),
        ),
{
    let path = dir + seq!['/'] + file;
    assert forall|k: int| dir.len() < k < path.len() implies path[k] != '/' by {
        assert(path[k] == file[k - dir.len() - 1]);
    }
    lemma_last_index(path, '/', dir.len() as int);
    assert(path.take(dir.len() as int + 1) =~= dir + seq!['/']);
}

/// A geometry file whose path holds no `/` has its material file beside
/// it, under the name that the geometry text gives.
pub proof fn lemma_path_without_directory(file: Seq<char>, obj_content: Seq<char>)
    requires
        forall|k: int| 0 <= k < file.len() ==> file[k] != '/',
    ensures
        mtl_path(file, obj_content) == mtl_name(lines_of(obj_content)),
{
    lemma_last_index(file, '/', -1);
    if mtl_name(lines_of(obj_content)) is Some {
        let name = mtl_name(lines_of(obj_content)).unwrap();
        assert(file.take(0) + name =~= name);
    }
}

/// Parsing a geometry text together with a material text gives what the two
/// parsers give each on its own: the pair of their results where both
/// succeed, and no pair where one fails.
pub proof fn lemma_parsed_together_as_alone(obj_content: Seq<char>, mlt_content: Seq<char>)
    requires
        mlt_content.len() > 0,
    ensures
        parsed(obj_content, Some(mlt_content)) == joined(
            object_of(obj_content),
            Some(checked_material_of(mlt_content)),
        ),
        parsed(obj_content, Some(mlt_content)) is Ok <==> object_of(obj_content) is Ok
            && checked_material_of(mlt_content) is Ok,
        parsed(obj_content, Some(mlt_content)) matches Ok(pair) ==> object_of(obj_content) == Ok::<
            ObjectView,
            ObjectFault,
        >(pair.0) && pair.1 == Some(material_of(mlt_content)),
{
}

/// Without material text a parse gives what the geometry parser gives, and
/// no material.
pub proof fn lemma_parsed_without_material(obj_content: Seq<char>)
    ensures
        parsed(obj_content, None) matches Ok(pair) ==> object_of(obj_content) == Ok::<
            ObjectView,
            ObjectFault,
        >(pair.0) && pair.1 is None,
        parsed(obj_content, None) is Ok <==> object_of(obj_content) is Ok,
        parsed(obj_content, Some(Seq::empty())) == parsed(obj_content, None),
{
}

} // verus!

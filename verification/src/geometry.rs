//! The geometry parser: vertices, texture coordinates, normals, faces, and
//! the names of the object and of its group.

use crate::number::{is_number, parse_u32, unsigned_value, Number};
use crate::text::{
    fields, fields_of, find_with, first_index, first_with, has_prefix, is_word,
    lemma_first_index, lines, lines_of, starts_with, to_chars, to_text, words, words_of,
};
use crate::types::{
    Face, FacePoint, Object, ObjectFault, ObjectView, Vertex, VertexNormal, VertexNormalView,
    VertexTexture, VertexTextureView, VertexView,
};
use crate::views::{lemma_view_all_empty, lemma_view_all_push, view_all, view_ok, view_opt};
use vstd::prelude::*;

verus! {

/// The vertex that a line gives: its words are `v` and three or four number
/// literals, nothing else.
pub open spec fn vertex_of(line: Seq<char>) -> Option<VertexView> {
    let t = words_of(line);
    if 4 <= t.len() <= 5 && t[0] == "v"@ && is_number(t[1]) && is_number(t[2]) && is_number(t[3])
        && (t.len() == 5 ==> is_number(t[4])) {
        Some(
            VertexView {
                x: t[1],
                y: t[2],
                z: t[3],
                w: if t.len() == 5 {
                    Some(t[4])
                } else {
                    None
                },
            },
        )
    } else {
        None
    }
}

/// The texture coordinate that a line gives: its words are `vt` and two or
/// three number literals, nothing else.
pub open spec fn texture_of(line: Seq<char>) -> Option<VertexTextureView> {
    let t = words_of(line);
    if 3 <= t.len() <= 4 && t[0] == "vt"@ && is_number(t[1]) && is_number(t[2]) && (t.len() == 4
        ==> is_number(t[3])) {
        Some(
            VertexTextureView {
                u: t[1],
                v: t[2],
                w: if t.len() == 4 {
                    Some(t[3])
                } else {
                    None
                },
            },
        )
    } else {
        None
    }
}

/// The normal that a line gives: its words are `vn` and three number
/// literals, nothing else.
pub open spec fn normal_of(line: Seq<char>) -> Option<VertexNormalView> {
    let t = words_of(line);
    if t.len() == 4 && t[0] == "vn"@ && is_number(t[1]) && is_number(t[2]) && is_number(t[3]) {
        Some(VertexNormalView { x: t[1], y: t[2], z: t[3] })
    } else {
        None
    }
}

/// The vertices of the lines that give one, in the order of the lines.
pub open spec fn vertices_of(lines: Seq<Seq<char>>) -> Seq<VertexView>
    decreases lines.len(),
{
    if lines.len() == 0 {
        Seq::empty()
    } else {
        match vertex_of(lines.last()) {
            Some(v) => vertices_of(lines.drop_last()).push(v),
            None => vertices_of(lines.drop_last()),
        }
    }
}

/// The texture coordinates of the lines that give one, in the order of the
/// lines.
pub open spec fn textures_of(lines: Seq<Seq<char>>) -> Seq<VertexTextureView>
    decreases lines.len(),
{
    if lines.len() == 0 {
        Seq::empty()
    } else {
        match texture_of(lines.last()) {
            Some(v) => textures_of(lines.drop_last()).push(v),
            None => textures_of(lines.drop_last()),
        }
    }
}

/// The normals of the lines that give one, in the order of the lines.
pub open spec fn normals_of(lines: Seq<Seq<char>>) -> Seq<VertexNormalView>
    decreases lines.len(),
{
    if lines.len() == 0 {
        Seq::empty()
    } else {
        match normal_of(lines.last()) {
            Some(v) => normals_of(lines.drop_last()).push(v),
            None => normals_of(lines.drop_last()),
        }
    }
}

/// Reads the number literals `t[1..]`, or nothing if one of them is none.
fn numbers(t: &Vec<Vec<char>>) -> (r: Option<Vec<Number>>)
    requires
        t.len() >= 1,
    ensures
        r is Some <==> forall|k: int| 1 <= k < t.len() ==> is_number(#[trigger] t[k]@),
        r matches Some(v) ==> v.len() == t.len() - 1 && forall|k: int|
            1 <= k < t.len() ==> (#[trigger] v[k - 1])@ == t[k]@,
{
    let mut out: Vec<Number> = Vec::new();
    let mut i: usize = 1;
    while i < t.len()
        invariant
            1 <= i <= t.len(),
            out.len() == i - 1,
            forall|k: int| 1 <= k < i ==> is_number(#[trigger] t[k]@),
            forall|k: int| 1 <= k < i ==> (#[trigger] out[k - 1])@ == t[k]@,
        decreases t.len() - i,
    {
        match Number::from_chars(t[i].as_slice()) {
            Some(n) => {
                out.push(n);
            },
            None => {
                return None;
            },
        }
        i += 1;
    }
    Some(out)
}

/// Reads a vertex from a line, if the line gives one.
pub fn parse_vertex(line: &[char]) -> (r: Option<Vertex>)
    ensures
        view_opt(r) == vertex_of(line@),
{
    let t = words(line);
    assert(view_all(t@).len() == t.len());
    if t.len() < 4 || t.len() > 5 || !is_word(t[0].as_slice(), "v") {
        return None;
    }
    assert forall|k: int| 0 <= k < t.len() implies t[k]@ == #[trigger] words_of(line@)[k] by {
        assert(view_all(t@)[k] == t[k]@);
    }
    match numbers(&t) {
        Some(mut n) => {
            let w = if n.len() == 4 {
                n.pop()
            } else {
                None
            };
            let z = n.pop();
            let y = n.pop();
            let x = n.pop();
            match (x, y, z) {
                (Some(x), Some(y), Some(z)) => Some(Vertex { x, y, z, w }),
                _ => None,
            }
        },
        None => None,
    }
}

/// Reads a texture coordinate from a line, if the line gives one.
pub fn parse_texture(line: &[char]) -> (r: Option<VertexTexture>)
    ensures
        view_opt(r) == texture_of(line@),
{
    let t = words(line);
    assert(view_all(t@).len() == t.len());
    if t.len() < 3 || t.len() > 4 || !is_word(t[0].as_slice(), "vt") {
        return None;
    }
    assert forall|k: int| 0 <= k < t.len() implies t[k]@ == #[trigger] words_of(line@)[k] by {
        assert(view_all(t@)[k] == t[k]@);
    }
    match numbers(&t) {
        Some(mut n) => {
            let w = if n.len() == 3 {
                n.pop()
            } else {
                None
            };
            let v = n.pop();
            let u = n.pop();
            match (u, v) {
                (Some(u), Some(v)) => Some(VertexTexture { u, v, w }),
                _ => None,
            }
        },
        None => None,
    }
}

/// Reads a normal from a line, if the line gives one.
pub fn parse_normal(line: &[char]) -> (r: Option<VertexNormal>)
    ensures
        view_opt(r) == normal_of(line@),
{
    let t = words(line);
    assert(view_all(t@).len() == t.len());
    if t.len() != 4 || !is_word(t[0].as_slice(), "vn") {
        return None;
    }
    assert forall|k: int| 0 <= k < t.len() implies t[k]@ == #[trigger] words_of(line@)[k] by {
        assert(view_all(t@)[k] == t[k]@);
    }
    match numbers(&t) {
        Some(mut n) => {
            let z = n.pop();
            let y = n.pop();
            let x = n.pop();
            match (x, y, z) {
                (Some(x), Some(y), Some(z)) => Some(VertexNormal { x, y, z }),
                _ => None,
            }
        },
        None => None,
    }
}

/// Collects the vertices of the lines.
fn vertices(lines: &Vec<Vec<char>>) -> (out: Vec<Vertex>)
    ensures
        view_all(out@) == vertices_of(view_all(lines@)),
{
    let mut out: Vec<Vertex> = Vec::new();
    let ghost all = view_all(lines@);
    proof {
        lemma_view_all_empty(out@);
    }
    let mut i: usize = 0;
    while i < lines.len()
        invariant
            i <= lines.len(),
            all == view_all(lines@),
            view_all(out@) == vertices_of(all.take(i as int)),
        decreases lines.len() - i,
    {
        proof {
            assert(all.take(i + 1).drop_last() == all.take(i as int));
            assert(all.take(i + 1).last() == lines[i as int]@);
        }
        match parse_vertex(lines[i].as_slice()) {
            Some(v) => {
                proof {
                    lemma_view_all_push(out@, v);
                }
                out.push(v);
            },
            None => {},
        }
        i += 1;
    }
    assert(all.take(i as int) == all);
    out
}

/// Collects the texture coordinates of the lines.
fn textures(lines: &Vec<Vec<char>>) -> (out: Vec<VertexTexture>)
    ensures
        view_all(out@) == textures_of(view_all(lines@)),
{
    let mut out: Vec<VertexTexture> = Vec::new();
    let ghost all = view_all(lines@);
    proof {
        lemma_view_all_empty(out@);
    }
    let mut i: usize = 0;
    while i < lines.len()
        invariant
            i <= lines.len(),
            all == view_all(lines@),
            view_all(out@) == textures_of(all.take(i as int)),
        decreases lines.len() - i,
    {
        proof {
            assert(all.take(i + 1).drop_last() == all.take(i as int));
            assert(all.take(i + 1).last() == lines[i as int]@);
        }
        match parse_texture(lines[i].as_slice()) {
            Some(v) => {
                proof {
                    lemma_view_all_push(out@, v);
                }
                out.push(v);
            },
            None => {},
        }
        i += 1;
    }
    assert(all.take(i as int) == all);
    out
}

/// Collects the normals of the lines.
fn normals(lines: &Vec<Vec<char>>) -> (out: Vec<VertexNormal>)
    ensures
        view_all(out@) == normals_of(view_all(lines@)),
{
    let mut out: Vec<VertexNormal> = Vec::new();
    let ghost all = view_all(lines@);
    proof {
        lemma_view_all_empty(out@);
    }
    let mut i: usize = 0;
    while i < lines.len()
        invariant
            i <= lines.len(),
            all == view_all(lines@),
            view_all(out@) == normals_of(all.take(i as int)),
        decreases lines.len() - i,
    {
        proof {
            assert(all.take(i + 1).drop_last() == all.take(i as int));
            assert(all.take(i + 1).last() == lines[i as int]@);
        }
        match parse_normal(lines[i].as_slice()) {
            Some(v) => {
                proof {
                    lemma_view_all_push(out@, v);
                }
                out.push(v);
            },
            None => {},
        }
        i += 1;
    }
    assert(all.take(i as int) == all);
    out
}

/// The index that a field of a face corner spells: an unsigned decimal
/// integer that fits 32 bits.
pub open spec fn index_of(field: Seq<char>) -> Option<u32> {
    match unsigned_value(field, u32::MAX as nat) {
        Some(v) => Some(v as u32),
        None => None,
    }
}

/// The corner that a word of a face line describes. The word is cut at each
/// `/`; the first three fields are the vertex, texture and normal index. A
/// field that the word does not reach is absent; one that it reaches, empty
/// ones too, must be an index, or the word describes no corner.
pub open spec fn point_of(word: Seq<char>) -> Option<FacePoint> {
    let f = fields_of(word, '/');
    if index_of(f[0]) is None || (f.len() > 1 && index_of(f[1]) is None) || (f.len() > 2
        && index_of(f[2]) is None) {
        None
    } else {
        Some(
            FacePoint {
                v_id: index_of(f[0]).unwrap(),
                vt_id: if f.len() > 1 {
                    index_of(f[1])
                } else {
                    None
                },
                vn_id: if f.len() > 2 {
                    index_of(f[2])
                } else {
                    None
                },
            },
        )
    }
}

/// The corners that the words describe, or nothing if one of the words
/// describes none.
pub open spec fn points_of(words: Seq<Seq<char>>) -> Option<Seq<FacePoint>>
    decreases words.len(),
{
    if words.len() == 0 {
        Some(Seq::empty())
    } else {
        match (points_of(words.drop_last()), point_of(words.last())) {
            (Some(head), Some(p)) => Some(head.push(p)),
            _ => None,
        }
    }
}

/// Whether a line describes a face: it begins with `f` and a space.
pub open spec fn is_face_line(line: Seq<char>) -> bool {
    starts_with(line, "f "@)
}

/// The faces of the face lines, in the order of the lines, those without a
/// corner left out; or nothing if a word of a face line describes no corner.
pub open spec fn faces_of(lines: Seq<Seq<char>>) -> Option<Seq<Seq<FacePoint>>>
    decreases lines.len(),
{
    if lines.len() == 0 {
        Some(Seq::empty())
    } else {
        match faces_of(lines.drop_last()) {
            None => None,
            Some(head) => if !is_face_line(lines.last()) {
                Some(head)
            } else {
                match points_of(words_of(lines.last()).drop_first()) {
                    None => None,
                    Some(points) => if points.len() == 0 {
                        Some(head)
                    } else {
                        Some(head.push(points))
                    },
                }
            },
        }
    }
}

/// A malformed word at any place leaves no corners.
pub proof fn lemma_points_of_prefix(words: Seq<Seq<char>>, n: int)
    requires
        0 <= n <= words.len(),
        points_of(words.take(n)) is None,
    ensures
        points_of(words) is None,
    decreases words.len() - n,
{
    if n < words.len() {
        assert(words.take(n + 1).drop_last() == words.take(n));
        lemma_points_of_prefix(words, n + 1);
    } else {
        assert(words.take(n) == words);
    }
}

/// A malformed face line at any place leaves no faces.
pub proof fn lemma_faces_of_prefix(lines: Seq<Seq<char>>, n: int)
    requires
        0 <= n <= lines.len(),
        faces_of(lines.take(n)) is None,
    ensures
        faces_of(lines) is None,
    decreases lines.len() - n,
{
    if n < lines.len() {
        assert(lines.take(n + 1).drop_last() == lines.take(n));
        lemma_faces_of_prefix(lines, n + 1);
    } else {
        assert(lines.take(n) == lines);
    }
}

/// Reads a corner from a word of a face line.
pub fn parse_point(word: &[char]) -> (r: Option<FacePoint>)
    ensures
        r == point_of(word@),
{
    let f = fields(word, '/');
    assert(view_all(f@).len() == f.len());
    assert forall|k: int| 0 <= k < f.len() implies f[k]@ == #[trigger] fields_of(word@, '/')[k] by {
        assert(view_all(f@)[k] == f[k]@);
    }
    let v_id = match parse_u32(f[0].as_slice()) {
        Some(v) => v,
        None => {
            return None;
        },
    };
    let vt_id = if f.len() > 1 {
        match parse_u32(f[1].as_slice()) {
            Some(v) => Some(v),
            None => {
                return None;
            },
        }
    } else {
        None
    };
    let vn_id = if f.len() > 2 {
        match parse_u32(f[2].as_slice()) {
            Some(v) => Some(v),
            None => {
                return None;
            },
        }
    } else {
        None
    };
    Some(FacePoint { v_id, vt_id, vn_id })
}

/// Reads the corners of a face from the words of its line after the first.
fn parse_points(t: &Vec<Vec<char>>) -> (r: Option<Vec<FacePoint>>)
    requires
        t.len() >= 1,
    ensures
        match points_of(view_all(t@).drop_first()) {
            Some(points) => r matches Some(v) && v@ == points,
            None => r is None,
        },
{
    let mut out: Vec<FacePoint> = Vec::new();
    let ghost rest = view_all(t@).drop_first();
    let mut i: usize = 1;
    while i < t.len()
        invariant
            1 <= i <= t.len(),
            rest == view_all(t@).drop_first(),
            points_of(rest.take(i - 1)) == Some(out@),
        decreases t.len() - i,
    {
        proof {
            assert(rest.take(i as int).drop_last() == rest.take(i - 1));
            assert(rest.take(i as int).last() == t[i as int]@);
        }
        match parse_point(t[i].as_slice()) {
            Some(p) => {
                out.push(p);
            },
            None => {
                proof {
                    lemma_points_of_prefix(rest, i as int);
                }
                return None;
            },
        }
        i += 1;
    }
    assert(rest.take(i - 1) == rest);
    Some(out)
}

/// Collects the faces of the lines.
fn faces(lines: &Vec<Vec<char>>) -> (r: Option<Vec<Face>>)
    ensures
        match faces_of(view_all(lines@)) {
            Some(f) => r matches Some(v) && view_all(v@) == f,
            None => r is None,
        },
{
    let mut out: Vec<Face> = Vec::new();
    let ghost all = view_all(lines@);
    let prefix = to_chars("f ");
    proof {
        lemma_view_all_empty(out@);
    }
    let mut i: usize = 0;
    while i < lines.len()
        invariant
            i <= lines.len(),
            all == view_all(lines@),
            prefix@ == "f "@,
            faces_of(all.take(i as int)) == Some(view_all(out@)),
        decreases lines.len() - i,
    {
        proof {
            assert(all.take(i + 1).drop_last() == all.take(i as int));
            assert(all.take(i + 1).last() == lines[i as int]@);
        }
        if has_prefix(lines[i].as_slice(), prefix.as_slice()) {
            let t = words(lines[i].as_slice());
            proof {
                lemma_face_line_has_word(lines[i as int]@);
                assert(view_all(t@).len() == t.len());
            }
            match parse_points(&t) {
                Some(points) => {
                    if points.len() > 0 {
                        let face = Face { points };
                        proof {
                            lemma_view_all_push(out@, face);
                        }
                        out.push(face);
                    }
                },
                None => {
                    proof {
                        lemma_faces_of_prefix(all, i + 1);
                    }
                    return None;
                },
            }
        }
        i += 1;
    }
    assert(all.take(i as int) == all);
    Some(out)
}

/// A face line has a first word.
pub proof fn lemma_face_line_has_word(line: Seq<char>)
    requires
        is_face_line(line),
    ensures
        words_of(line).len() >= 1,
{
    reveal_strlit("f ");
    assert(line.subrange(0, 2)[0] == 'f');
    assert(line[0] == 'f');
}

/// A space becomes an underscore; any other character stays.
pub open spec fn underscore(c: char) -> char {
    if c == ' ' {
        '_'
    } else {
        c
    }
}

/// The label that a line gives: what follows its first space, with an
/// underscore for each further space, so that the words after the first are
/// joined by underscores.
pub open spec fn label_of(line: Seq<char>) -> Seq<char> {
    let n = first_index(line, ' ') as int;
    if n < line.len() {
        Seq::new((line.len() - n - 1) as nat, |i: int| underscore(line[n + 1 + i]))
    } else {
        Seq::empty()
    }
}

/// Reads the label of a line.
fn label(line: &[char]) -> (out: Vec<char>)
    ensures
        out@ == label_of(line@),
{
    let mut out: Vec<char> = Vec::new();
    let mut n: usize = 0;
    while n < line.len() && line[n] != ' '
        invariant
            n <= line.len(),
            forall|k: int| 0 <= k < n ==> line@[k] != ' ',
        decreases line.len() - n,
    {
        n += 1;
    }
    proof {
        lemma_first_index(line@, ' ', n as int);
    }
    if n == line.len() {
        assert(out@ =~= label_of(line@));
        return out;
    }
    let mut i: usize = n + 1;
    while i < line.len()
        invariant
            n < i <= line.len(),
            out.len() == i - n - 1,
            forall|k: int| 0 <= k < out.len() ==> out[k] == underscore(line@[n + 1 + k]),
        decreases line.len() - i,
    {
        let c = line[i];
        out.push(
            if c == ' ' {
                '_'
            } else {
                c
            },
        );
        i += 1;
    }
    assert(out@ =~= label_of(line@));
    out
}

/// The name of an object that names itself nowhere.
pub const DEFAULT_NAME: &'static str = "Defaut_object_name";

/// The name of the object: the label of the first line that holds `o` and a
/// space, or the default name where there is no such line or its label is
/// empty.
pub open spec fn name_of(lines: Seq<Seq<char>>) -> Seq<char> {
    match first_with(lines, "o "@) {
        Some(line) => if label_of(line).len() == 0 {
            DEFAULT_NAME@
        } else {
            label_of(line)
        },
        None => DEFAULT_NAME@,
    }
}

/// The group of the object: the label of the first line that holds `g` and a
/// space, if there is such a line and its label is not empty.
pub open spec fn group_of(lines: Seq<Seq<char>>) -> Option<Seq<char>> {
    match first_with(lines, "g "@) {
        Some(line) => if label_of(line).len() == 0 {
            None
        } else {
            Some(label_of(line))
        },
        None => None,
    }
}

/// What geometry text describes: the object, or why there is none. A
/// malformed face is reported before a missing vertex.
pub open spec fn object_of(text: Seq<char>) -> Result<ObjectView, ObjectFault> {
    let lines = lines_of(text);
    match faces_of(lines) {
        None => Err(ObjectFault::FaceIndex),
        Some(f) => if vertices_of(lines).len() == 0 {
            Err(ObjectFault::NoVertex)
        } else {
            Ok(
                ObjectView {
                    v: vertices_of(lines),
                    vt: textures_of(lines),
                    vn: normals_of(lines),
                    f,
                    mtllib: None,
                    o: name_of(lines),
                    g: group_of(lines),
                },
            )
        },
    }
}

/// Parses geometry text into an object.
pub fn parse_obj_file(obj_content: &str) -> (r: Result<Object, ObjectFault>)
    ensures
        view_ok(r) == object_of(obj_content@),
{
    let text = to_chars(obj_content);
    let lines = lines(text.as_slice());
    let v = vertices(&lines);
    let vt = textures(&lines);
    let vn = normals(&lines);
    let o = match find_with(&lines, "o ") {
        Some(i) => {
            let name = label(lines[i].as_slice());
            if name.len() == 0 {
                DEFAULT_NAME.to_owned()
            } else {
                to_text(name.as_slice())
            }
        },
        None => DEFAULT_NAME.to_owned(),
    };
    let g = match find_with(&lines, "g ") {
        Some(i) => {
            let name = label(lines[i].as_slice());
            if name.len() == 0 {
                None
            } else {
                Some(to_text(name.as_slice()))
            }
        },
        None => None,
    };
    let f = match faces(&lines) {
        Some(f) => f,
        None => {
            return Err(ObjectFault::FaceIndex);
        },
    };
    if v.len() == 0 {
        return Err(ObjectFault::NoVertex);
    }
    Ok(Object { v, vt, vn, f, mtllib: None, o, g })
}

} // verus!

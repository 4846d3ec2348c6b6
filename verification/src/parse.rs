//! The coordinator: the path of the material file that a geometry file
//! refers to, and the two parses together.

use crate::geometry::{object_of, parse_obj_file};
use crate::material::{checked_material_of, parse_mlt_file};
use crate::text::{
    after_last, copy_range, find_with, first_with, last_index, lines, lines_of, to_chars, to_text,
    words, words_of,
};
use crate::types::{Material, MaterialFault, MaterialView, Object, ObjectFault, ObjectView};
use crate::views::{view_all, view_ok, view_opt};
use vstd::prelude::*;

verus! {

/// The file name that geometry lines give for their material: the last
/// word of the first line that holds `mtllib` and a space, whatever white
/// space stands before or after that word. A line with a single word names
/// no file: nothing follows its keyword, so its name is empty. Without such
/// a line there is no name either.
pub open spec fn mtl_name(lines: Seq<Seq<char>>) -> Option<Seq<char>> {
    match first_with(lines, "mtllib "@) {
        Some(line) => if words_of(line).len() >= 2 {
            Some(words_of(line).last())
        } else {
            None
        },
        None => None,
    }
}

/// The path of the material file of a geometry file: the geometry file's
/// path up to and with its last `/`, then the name that the geometry text
/// gives. No path where the text gives no name.
pub open spec fn mtl_path(obj_path: Seq<char>, obj_content: Seq<char>) -> Option<Seq<char>> {
    match mtl_name(lines_of(obj_content)) {
        Some(name) => Some(obj_path.take(last_index(obj_path, '/') + 1) + name),
        None => None,
    }
}

/// Resolves the path of the material file that geometry text refers to,
/// beside the geometry file itself. Nothing is looked up on disk.
pub fn get_mtl_path(obj_path: &String, obj_content: &String) -> (r: Option<String>)
    ensures
        view_opt(r) == mtl_path(obj_path@, obj_content@),
{
    let text = to_chars(obj_content.as_str());
    let lines = lines(text.as_slice());
    let i = match find_with(&lines, "mtllib ") {
        Some(i) => i,
        None => {
            return None;
        },
    };
    let mut t = words(lines[i].as_slice());
    assert(view_all(t@).len() == t.len());
    if t.len() < 2 {
        return None;
    }
    assert(view_all(t@).last() == t@.last()@);
    let mut name = match t.pop() {
        Some(name) => name,
        None => {
            return None;
        },
    };
    let path = to_chars(obj_path.as_str());
    let cut = after_last(path.as_slice(), '/');
    let mut out = copy_range(path.as_slice(), 0, cut);
    out.append(&mut name);
    Some(to_text(out.as_slice()))
}

/// Why a parse fails.
#[derive(Debug, Clone, Copy, PartialEq, Eq, Structural)]
pub enum ParseError {
    /// The geometry text is rejected.
    Geometry(ObjectFault),
    /// The material text is rejected.
    Material(MaterialFault),
}

impl ParseError {
    /// The one-line description of the failure.
    pub open spec fn reason(self) -> Seq<char> {
        match self {
            ParseError::Geometry(fault) => fault.reason(),
            ParseError::Material(fault) => fault.reason(),
        }
    }

    /// The one-line description of the failure.
    pub fn message(&self) -> (r: String)
        ensures
            r@ == self.reason(),
    {
        match self {
            ParseError::Geometry(fault) => fault.message(),
            ParseError::Material(fault) => fault.message(),
        }
    }
}

/// The view of an object and the material beside it.
pub open spec fn pair_view(pair: (Object, Option<Material>)) -> (ObjectView, Option<MaterialView>) {
    (pair.0@, view_opt(pair.1))
}

/// The view of what a parse returns.
pub open spec fn outcome_view(r: Result<(Object, Option<Material>), ParseError>) -> Result<
    (ObjectView, Option<MaterialView>),
    ParseError,
> {
    match r {
        Ok(pair) => Ok(pair_view(pair)),
        Err(e) => Err(e),
    }
}

/// The result of the two parses together: the object and the material if
/// neither parse failed; else the failure, that of the geometry before that
/// of the material. `None` for the material says that none was parsed.
pub open spec fn joined(
    object: Result<ObjectView, ObjectFault>,
    material: Option<Result<MaterialView, MaterialFault>>,
) -> Result<(ObjectView, Option<MaterialView>), ParseError> {
    match object {
        Err(fault) => Err(ParseError::Geometry(fault)),
        Ok(o) => match material {
            None => Ok((o, None)),
            Some(Err(fault)) => Err(ParseError::Material(fault)),
            Some(Ok(m)) => Ok((o, Some(m))),
        },
    }
}

/// Joins the results of the geometry parse and of the material parse, in
/// whatever order and on whatever thread they were made.
pub fn join(
    object: Result<Object, ObjectFault>,
    material: Option<Result<Material, MaterialFault>>,
) -> (r: Result<(Object, Option<Material>), ParseError>)
    ensures
        outcome_view(r) == joined(
            view_ok(object),
            match material {
                Some(m) => Some(view_ok(m)),
                None => None,
            },
        ),
{
    match object {
        Err(fault) => Err(ParseError::Geometry(fault)),
        Ok(o) => match material {
            None => Ok((o, None)),
            Some(Err(fault)) => Err(ParseError::Material(fault)),
            Some(Ok(m)) => Ok((o, Some(m))),
        },
    }
}

/// The material text that is parsed: the text that was loaded, unless it is
/// empty.
pub open spec fn material_text(mlt_content: Option<Seq<char>>) -> Option<Seq<char>> {
    match mlt_content {
        Some(text) => if text.len() == 0 {
            None
        } else {
            Some(text)
        },
        None => None,
    }
}

/// What a geometry text and the material text loaded for it describe.
pub open spec fn parsed(obj_content: Seq<char>, mlt_content: Option<Seq<char>>) -> Result<
    (ObjectView, Option<MaterialView>),
    ParseError,
> {
    joined(
        object_of(obj_content),
        match material_text(mlt_content) {
            Some(text) => Some(checked_material_of(text)),
            None => None,
        },
    )
}

/// Parses a geometry text and, where one was loaded and is not empty, the
/// material text that it refers to. `mlt_content` is `None` where the
/// geometry text refers to no material or the material file could not be
/// read.
pub fn pars_obj(obj_content: &String, mlt_content: Option<&String>) -> (r: Result<
    (Object, Option<Material>),
    ParseError,
>)
    ensures
        outcome_view(r) == parsed(obj_content@, view_opt(mlt_content)),
{
    let material = match mlt_content {
        Some(text) => if text.as_str().is_empty() {
            None
        } else {
            Some(parse_mlt_file(text.as_str()))
        },
        None => None,
    };
    join(parse_obj_file(obj_content.as_str()), material)
}

} // verus!

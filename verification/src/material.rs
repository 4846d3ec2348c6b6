//! The material parser: scalar fields, colour fields, and the checked
//! material.

use crate::number::{is_number, parse_u8, unsigned_value, zero_literal, Number};
use crate::text::{is_word, lines, lines_of, to_chars, to_text, words, words_of};
use crate::types::{Material, MaterialFault, MaterialView};
use crate::views::{view_all, view_ok, view_opt};
use vstd::prelude::*;

verus! {

/// The value of a scalar field: the second word of the first line that has
/// exactly two words, the first of them `key`.
pub open spec fn single_val(lines: Seq<Seq<char>>, key: Seq<char>) -> Option<Seq<char>>
    decreases lines.len(),
{
    if lines.len() == 0 {
        None
    } else if words_of(lines[0]).len() == 2 && words_of(lines[0])[0] == key {
        Some(words_of(lines[0])[1])
    } else {
        single_val(lines.drop_first(), key)
    }
}

/// Finds the value of a scalar field among the lines.
fn find_single_val(lines: &Vec<Vec<char>>, key: &str) -> (r: Option<Vec<char>>)
    ensures
        view_opt(r) == single_val(view_all(lines@), key@),
{
    let ghost all = view_all(lines@);
    let mut i: usize = 0;
    assert(all.skip(0) == all);
    while i < lines.len()
        invariant
            i <= lines.len(),
            all == view_all(lines@),
            single_val(all, key@) == single_val(all.skip(i as int), key@),
        decreases lines.len() - i,
    {
        assert(all.skip(i as int)[0] == lines[i as int]@);
        let mut t = words(lines[i].as_slice());
        assert(view_all(t@).len() == t.len());
        if t.len() == 2 && is_word(t[0].as_slice(), key) {
            assert(view_all(t@)[0] == t[0]@);
            assert(view_all(t@)[1] == t[1]@);
            return t.pop();
        }
        proof {
            if t.len() == 2 {
                assert(view_all(t@)[0] == t[0]@);
            }
            assert(all.skip(i as int).drop_first() == all.skip(i + 1));
        }
        i += 1;
    }
    None
}

/// Extracts the value of a scalar field from material text, as written.
pub fn get_single_val(mtl_content: &str, key: &str) -> (r: Option<String>)
    ensures
        view_opt(r) == single_val(lines_of(mtl_content@), key@),
{
    let text = to_chars(mtl_content);
    let lines = lines(text.as_slice());
    match find_single_val(&lines, key) {
        Some(t) => Some(to_text(t.as_slice())),
        None => None,
    }
}

/// The value of a colour field: the second to fourth word of the first line
/// that has at least four words, the first of them `key`; nothing where one
/// of the three is no number literal.
pub open spec fn rgb_val(lines: Seq<Seq<char>>, key: Seq<char>) -> Option<
    (Seq<char>, Seq<char>, Seq<char>),
>
    decreases lines.len(),
{
    if lines.len() == 0 {
        None
    } else if words_of(lines[0]).len() >= 4 && words_of(lines[0])[0] == key {
        let t = words_of(lines[0]);
        if is_number(t[1]) && is_number(t[2]) && is_number(t[3]) {
            Some((t[1], t[2], t[3]))
        } else {
            None
        }
    } else {
        rgb_val(lines.drop_first(), key)
    }
}

/// Finds the value of a colour field among the lines.
fn find_rgb(lines: &Vec<Vec<char>>, key: &str) -> (r: Option<(Number, Number, Number)>)
    ensures
        view_opt(r) == rgb_val(view_all(lines@), key@),
{
    let ghost all = view_all(lines@);
    let mut i: usize = 0;
    assert(all.skip(0) == all);
    while i < lines.len()
        invariant
            i <= lines.len(),
            all == view_all(lines@),
            rgb_val(all, key@) == rgb_val(all.skip(i as int), key@),
        decreases lines.len() - i,
    {
        assert(all.skip(i as int)[0] == lines[i as int]@);
        let t = words(lines[i].as_slice());
        assert(view_all(t@).len() == t.len());
        if t.len() >= 4 {
            assert(view_all(t@)[0] == t[0]@);
            assert(view_all(t@)[1] == t[1]@);
            assert(view_all(t@)[2] == t[2]@);
            assert(view_all(t@)[3] == t[3]@);
            if is_word(t[0].as_slice(), key) {
                let r = Number::from_chars(t[1].as_slice());
                let g = Number::from_chars(t[2].as_slice());
                let b = Number::from_chars(t[3].as_slice());
                return match (r, g, b) {
                    (Some(r), Some(g), Some(b)) => Some((r, g, b)),
                    _ => None,
                };
            }
        }
        assert(all.skip(i as int).drop_first() == all.skip(i + 1));
        i += 1;
    }
    None
}

/// Extracts the value of a colour field from material text.
pub fn get_rgb(mtl_content: &str, key: &str) -> (r: Option<(Number, Number, Number)>)
    ensures
        view_opt(r) == rgb_val(lines_of(mtl_content@), key@),
{
    let text = to_chars(mtl_content);
    let lines = lines(text.as_slice());
    find_rgb(&lines, key)
}

/// The number that a scalar field gives: its value where that is a number
/// literal, else zero.
pub open spec fn number_or_zero(value: Option<Seq<char>>) -> Seq<char> {
    match value {
        Some(t) => if is_number(t) {
            t
        } else {
            zero_literal()
        },
        None => zero_literal(),
    }
}

/// The text that a scalar field gives: its value, else nothing.
pub open spec fn text_or_empty(value: Option<Seq<char>>) -> Seq<char> {
    match value {
        Some(t) => t,
        None => Seq::empty(),
    }
}

/// The illumination model that a scalar field gives: its value where that
/// is an unsigned decimal integer that fits 8 bits, else 1.
pub open spec fn illum_or_one(value: Option<Seq<char>>) -> u8 {
    match value {
        Some(t) => match unsigned_value(t, u8::MAX as nat) {
            Some(v) => v as u8,
            None => 1,
        },
        None => 1,
    }
}

/// The colour that a colour field gives: its value, else black.
pub open spec fn rgb_or_black(value: Option<(Seq<char>, Seq<char>, Seq<char>)>) -> (
    Seq<char>,
    Seq<char>,
    Seq<char>,
) {
    match value {
        Some(rgb) => rgb,
        None => (zero_literal(), zero_literal(), zero_literal()),
    }
}

/// The material that material text describes, before it is checked.
pub open spec fn material_of(text: Seq<char>) -> MaterialView {
    let lines = lines_of(text);
    MaterialView {
        newmtl: text_or_empty(single_val(lines, "newmtl"@)),
        mapka: text_or_empty(single_val(lines, "map_Ka"@)),
        ka: rgb_or_black(rgb_val(lines, "Ka"@)),
        kd: rgb_or_black(rgb_val(lines, "Kd"@)),
        ks: rgb_or_black(rgb_val(lines, "Ks"@)),
        ke: rgb_or_black(rgb_val(lines, "Ke"@)),
        ni: number_or_zero(single_val(lines, "Ni"@)),
        illum: illum_or_one(single_val(lines, "illum"@)),
        ns: number_or_zero(single_val(lines, "Ns"@)),
        d: number_or_zero(single_val(lines, "d"@)),
    }
}

/// What material text describes: the material, or the first rule that it
/// breaks.
pub open spec fn checked_material_of(text: Seq<char>) -> Result<MaterialView, MaterialFault> {
    match material_of(text).fault() {
        Some(fault) => Err(fault),
        None => Ok(material_of(text)),
    }
}

/// Reads the text of a scalar field.
fn text_field(lines: &Vec<Vec<char>>, key: &str) -> (r: String)
    ensures
        r@ == text_or_empty(single_val(view_all(lines@), key@)),
{
    match find_single_val(lines, key) {
        Some(t) => to_text(t.as_slice()),
        None => String::new(),
    }
}

/// Reads the number of a scalar field.
fn number_field(lines: &Vec<Vec<char>>, key: &str) -> (r: Number)
    ensures
        r@ == number_or_zero(single_val(view_all(lines@), key@)),
{
    match find_single_val(lines, key) {
        Some(t) => match Number::from_chars(t.as_slice()) {
            Some(n) => n,
            None => Number::zero(),
        },
        None => Number::zero(),
    }
}

/// Reads a colour field.
fn rgb_field(lines: &Vec<Vec<char>>, key: &str) -> (r: (Number, Number, Number))
    ensures
        r@ == rgb_or_black(rgb_val(view_all(lines@), key@)),
{
    match find_rgb(lines, key) {
        Some(rgb) => rgb,
        None => (Number::zero(), Number::zero(), Number::zero()),
    }
}

/// Parses material text into a checked material.
pub fn parse_mlt_file(mlt_content: &str) -> (r: Result<Material, MaterialFault>)
    ensures
        view_ok(r) == checked_material_of(mlt_content@),
{
    let text = to_chars(mlt_content);
    let lines = lines(text.as_slice());
    let illum = match find_single_val(&lines, "illum") {
        Some(t) => match parse_u8(t.as_slice()) {
            Some(v) => v,
            None => 1,
        },
        None => 1,
    };
    let mat = Material {
        newmtl: text_field(&lines, "newmtl"),
        mapka: text_field(&lines, "map_Ka"),
        ka: rgb_field(&lines, "Ka"),
        kd: rgb_field(&lines, "Kd"),
        ks: rgb_field(&lines, "Ks"),
        ke: rgb_field(&lines, "Ke"),
        ni: number_field(&lines, "Ni"),
        illum,
        ns: number_field(&lines, "Ns"),
        d: number_field(&lines, "d"),
    };
    match mat.fault() {
        Some(fault) => Err(fault),
        None => Ok(mat),
    }
}

} // verus!

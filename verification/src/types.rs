//! The records that the parsers build, their views, and their checks.

use crate::number::{in_range, Number};
use crate::utils::{is_rgb, rgb_in_range, rgb_reason};
use crate::views::{view_all, view_opt};
use vstd::prelude::*;

verus! {

/// A vertex position.
#[derive(Debug, PartialEq, Eq)]
pub struct Vertex {
    pub x: Number,
    pub y: Number,
    pub z: Number,
    /// The weight; where absent, a consumer takes 1.0.
    pub w: Option<Number>,
}

/// A vertex position as literals.
pub struct VertexView {
    pub x: Seq<char>,
    pub y: Seq<char>,
    pub z: Seq<char>,
    pub w: Option<Seq<char>>,
}

impl View for Vertex {
    type V = VertexView;

    open spec fn view(&self) -> VertexView {
        VertexView { x: self.x@, y: self.y@, z: self.z@, w: view_opt(self.w) }
    }
}

/// A texture coordinate.
#[derive(Debug, PartialEq, Eq)]
pub struct VertexTexture {
    pub u: Number,
    pub v: Number,
    pub w: Option<Number>,
}

/// A texture coordinate as literals.
pub struct VertexTextureView {
    pub u: Seq<char>,
    pub v: Seq<char>,
    pub w: Option<Seq<char>>,
}

impl View for VertexTexture {
    type V = VertexTextureView;

    open spec fn view(&self) -> VertexTextureView {
        VertexTextureView { u: self.u@, v: self.v@, w: view_opt(self.w) }
    }
}

/// A vertex normal.
#[derive(Debug, PartialEq, Eq)]
pub struct VertexNormal {
    pub x: Number,
    pub y: Number,
    pub z: Number,
}

/// A vertex normal as literals.
pub struct VertexNormalView {
    pub x: Seq<char>,
    pub y: Seq<char>,
    pub z: Seq<char>,
}

impl View for VertexNormal {
    type V = VertexNormalView;

    open spec fn view(&self) -> VertexNormalView {
        VertexNormalView { x: self.x@, y: self.y@, z: self.z@ }
    }
}

/// One corner of a face. The indices count from 1 into the vertex, texture
/// and normal lists of the object; they are not held against the lengths of
/// those lists.
#[derive(Debug, Clone, Copy, PartialEq, Eq, Structural)]
pub struct FacePoint {
    pub v_id: u32,
    pub vt_id: Option<u32>,
    pub vn_id: Option<u32>,
}

/// A face: its corners in order.
#[derive(Debug, PartialEq, Eq)]
pub struct Face {
    pub points: Vec<FacePoint>,
}

impl View for Face {
    type V = Seq<FacePoint>;

    open spec fn view(&self) -> Seq<FacePoint> {
        self.points@
    }
}

/// Why a material is rejected.
#[derive(Debug, Clone, Copy, PartialEq, Eq, Structural)]
pub enum MaterialFault {
    /// The name is empty.
    MissingName,
    /// `Ns` is outside `[0, 100]`.
    SpecularExponent,
    /// `Ni` is outside `[0, 1]`.
    OpticalDensity,
    /// `d` is outside `[0, 1]`.
    Dissolve,
    /// `illum` is neither 1 nor 2.
    IlluminationModel,
    /// A channel of `Ka` is outside `[0, 1]`.
    AmbientColor,
    /// A channel of `Kd` is outside `[0, 1]`.
    DiffuseColor,
    /// A channel of `Ks` is outside `[0, 1]`.
    SpecularColor,
    /// A channel of `Ke` is outside `[0, 1]`.
    EmissiveColor,
}

impl MaterialFault {
    /// The one-line description of the fault.
    pub open spec fn reason(self) -> Seq<char> {
        match self {
            MaterialFault::MissingName => "invalid / missing name on mtl file"@,
            MaterialFault::SpecularExponent => "invalid ns(specular) on mtl file "@,
            MaterialFault::OpticalDensity => "invalid ni(optical density) on mtl file "@,
            MaterialFault::Dissolve => "invalid d(transparency) on mtl file "@,
            MaterialFault::IlluminationModel => "invalid illum(light settings) on mtl file "@,
            MaterialFault::AmbientColor => rgb_reason(),
            MaterialFault::DiffuseColor => rgb_reason(),
            MaterialFault::SpecularColor => rgb_reason(),
            MaterialFault::EmissiveColor => rgb_reason(),
        }
    }

    /// The one-line description of the fault.
    pub fn message(&self) -> (r: String)
        ensures
            r@ == self.reason(),
    {
        match self {
            MaterialFault::MissingName => "invalid / missing name on mtl file".to_owned(),
            MaterialFault::SpecularExponent => "invalid ns(specular) on mtl file ".to_owned(),
            MaterialFault::OpticalDensity => "invalid ni(optical density) on mtl file ".to_owned(),
            MaterialFault::Dissolve => "invalid d(transparency) on mtl file ".to_owned(),
            MaterialFault::IlluminationModel => "invalid illum(light settings) on mtl file ".to_owned(),
            MaterialFault::AmbientColor => "invalid rgb on mtl file".to_owned(),
            MaterialFault::DiffuseColor => "invalid rgb on mtl file".to_owned(),
            MaterialFault::SpecularColor => "invalid rgb on mtl file".to_owned(),
            MaterialFault::EmissiveColor => "invalid rgb on mtl file".to_owned(),
        }
    }
}

/// The surface properties that a material file describes.
#[derive(Debug, PartialEq, Eq)]
pub struct Material {
    /// The name; never empty in a checked material.
    pub newmtl: String,
    /// The file name of the ambient texture map, or empty.
    pub mapka: String,
    /// The ambient colour.
    pub ka: (Number, Number, Number),
    /// The diffuse colour.
    pub kd: (Number, Number, Number),
    /// The specular colour.
    pub ks: (Number, Number, Number),
    /// The emissive colour.
    pub ke: (Number, Number, Number),
    /// The optical density.
    pub ni: Number,
    /// The illumination model.
    pub illum: u8,
    /// The specular exponent.
    pub ns: Number,
    /// The dissolve: 0 is fully transparent, 1 fully opaque.
    pub d: Number,
}

/// A material as literals.
pub struct MaterialView {
    pub newmtl: Seq<char>,
    pub mapka: Seq<char>,
    pub ka: (Seq<char>, Seq<char>, Seq<char>),
    pub kd: (Seq<char>, Seq<char>, Seq<char>),
    pub ks: (Seq<char>, Seq<char>, Seq<char>),
    pub ke: (Seq<char>, Seq<char>, Seq<char>),
    pub ni: Seq<char>,
    pub illum: u8,
    pub ns: Seq<char>,
    pub d: Seq<char>,
}

impl MaterialView {
    /// The first rule that the material breaks, in the order name, `Ns`,
    /// `Ni`, `d`, `illum`, `Ka`, `Kd`, `Ks`, `Ke`; `None` for a valid one.
    /// Each number is held to its range by the value that was written, not
    /// by the nearest 32-bit float: `d 1.00000001` breaks the rule on `d`.
    pub open spec fn fault(self) -> Option<MaterialFault> {
        if self.newmtl.len() == 0 {
            Some(MaterialFault::MissingName)
        } else if !in_range(self.ns, 100) {
            Some(MaterialFault::SpecularExponent)
        } else if !in_range(self.ni, 1) {
            Some(MaterialFault::OpticalDensity)
        } else if !in_range(self.d, 1) {
            Some(MaterialFault::Dissolve)
        } else if self.illum != 1 && self.illum != 2 {
            Some(MaterialFault::IlluminationModel)
        } else if !rgb_in_range(self.ka) {
            Some(MaterialFault::AmbientColor)
        } else if !rgb_in_range(self.kd) {
            Some(MaterialFault::DiffuseColor)
        } else if !rgb_in_range(self.ks) {
            Some(MaterialFault::SpecularColor)
        } else if !rgb_in_range(self.ke) {
            Some(MaterialFault::EmissiveColor)
        } else {
            None
        }
    }
}

impl View for Material {
    type V = MaterialView;

    open spec fn view(&self) -> MaterialView {
        MaterialView {
            newmtl: self.newmtl@,
            mapka: self.mapka@,
            ka: self.ka@,
            kd: self.kd@,
            ks: self.ks@,
            ke: self.ke@,
            ni: self.ni@,
            illum: self.illum,
            ns: self.ns@,
            d: self.d@,
        }
    }
}

impl Material {
    /// Finds the first rule that the material breaks.
    pub fn fault(&self) -> (r: Option<MaterialFault>)
        ensures
            r == self@.fault(),
    {
        if self.newmtl.as_str().is_empty() {
            Some(MaterialFault::MissingName)
        } else if !self.ns.in_range(100) {
            Some(MaterialFault::SpecularExponent)
        } else if !self.ni.in_range(1) {
            Some(MaterialFault::OpticalDensity)
        } else if !self.d.in_range(1) {
            Some(MaterialFault::Dissolve)
        } else if self.illum != 1 && self.illum != 2 {
            Some(MaterialFault::IlluminationModel)
        } else if !is_rgb(&self.ka) {
            Some(MaterialFault::AmbientColor)
        } else if !is_rgb(&self.kd) {
            Some(MaterialFault::DiffuseColor)
        } else if !is_rgb(&self.ks) {
            Some(MaterialFault::SpecularColor)
        } else if !is_rgb(&self.ke) {
            Some(MaterialFault::EmissiveColor)
        } else {
            None
        }
    }

    /// Accepts a valid material, and rejects any other with the description
    /// of the first rule that it breaks.
    pub fn check(&self) -> (r: Result<bool, String>)
        ensures
            match self@.fault() {
                None => r == Ok::<bool, String>(true),
                Some(fault) => r matches Err(e) && e@ == fault.reason(),
            },
    {
        match self.fault() {
            None => Ok(true),
            Some(fault) => Err(fault.message()),
        }
    }
}

/// Why a geometry file is rejected.
#[derive(Debug, Clone, Copy, PartialEq, Eq, Structural)]
pub enum ObjectFault {
    /// A face names an index that is no unsigned integer.
    FaceIndex,
    /// The file holds no vertex.
    NoVertex,
}

impl ObjectFault {
    /// The one-line description of the fault.
    pub open spec fn reason(self) -> Seq<char> {
        match self {
            ObjectFault::FaceIndex => "Error: Invalid input on obj file (wrong f input)"@,
            ObjectFault::NoVertex => "no vector on object file"@,
        }
    }

    /// The one-line description of the fault.
    pub fn message(&self) -> (r: String)
        ensures
            r@ == self.reason(),
    {
        match self {
            ObjectFault::FaceIndex => "Error: Invalid input on obj file (wrong f input)".to_owned(),
            ObjectFault::NoVertex => "no vector on object file".to_owned(),
        }
    }
}

/// What a geometry file describes.
#[derive(Debug, PartialEq, Eq)]
pub struct Object {
    /// The vertex positions, in the order of the file.
    pub v: Vec<Vertex>,
    /// The texture coordinates, in the order of the file.
    pub vt: Vec<VertexTexture>,
    /// The vertex normals, in the order of the file.
    pub vn: Vec<VertexNormal>,
    /// The faces, in the order of the file; none is empty.
    pub f: Vec<Face>,
    /// The material of the object. The geometry parser leaves it empty.
    pub mtllib: Option<Material>,
    /// The name; never empty.
    pub o: String,
    /// The group name, if the file gives one.
    pub g: Option<String>,
}

/// An object as literals.
pub struct ObjectView {
    pub v: Seq<VertexView>,
    pub vt: Seq<VertexTextureView>,
    pub vn: Seq<VertexNormalView>,
    pub f: Seq<Seq<FacePoint>>,
    pub mtllib: Option<MaterialView>,
    pub o: Seq<char>,
    pub g: Option<Seq<char>>,
}

impl View for Object {
    type V = ObjectView;

    open spec fn view(&self) -> ObjectView {
        ObjectView {
            v: view_all(self.v@),
            vt: view_all(self.vt@),
            vn: view_all(self.vn@),
            f: view_all(self.f@),
            mtllib: view_opt(self.mtllib),
            o: self.o@,
            g: view_opt(self.g),
        }
    }
}

impl Object {
    /// Accepts an object that has a vertex, and rejects any other with a
    /// message.
    pub fn check(&self) -> (r: Result<bool, String>)
        ensures
            self.v@.len() >= 1 ==> r == Ok::<bool, String>(true),
            self.v@.len() == 0 ==> (r matches Err(e) && e@ == ObjectFault::NoVertex.reason()),
    {
        if self.v.len() < 1 {
            Err(ObjectFault::NoVertex.message())
        } else {
            Ok(true)
        }
    }
}

} // verus!

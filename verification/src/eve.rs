//! The ship models: which groups of a model file are drawn, and which files
//! make up each hull.

use crate::obj::{borrowed_name_view, ObjGroupFilter};
use crate::text::{ascii, spells};
use vstd::prelude::*;

verus! {

/// Keeps the groups of a ship model that are drawn: hull, glass and exhaust.
pub struct EveFilter;

/// Whether `name` is one of the groups that `EveFilter` keeps.
pub open spec fn is_drawn_group(name: Seq<u8>) -> bool {
    name == ascii("Hull") || name == ascii("hull") || name == ascii("Glass") || name == ascii(
        "glass",
    ) || name == ascii("DarkHull") || name == ascii("exhaust") || name == ascii("Exhaust")
}

impl ObjGroupFilter for EveFilter {
    /// A group is wanted where its name is one of those drawn; faces outside
    /// any group are not.
    fn include_group(&self, group_name: Option<&Vec<u8>>) -> (r: bool)
        ensures
            r == match borrowed_name_view(group_name) {
                Some(name) => is_drawn_group(name),
                None => false,
            },
    {
        proof {
            reveal_strlit("Hull");
            reveal_strlit("hull");
            reveal_strlit("Glass");
            reveal_strlit("glass");
            reveal_strlit("DarkHull");
            reveal_strlit("exhaust");
            reveal_strlit("Exhaust");
        }
        match group_name {
            Some(name) => {
                let name = name.as_slice();
                spells(name, "Hull") || spells(name, "hull") || spells(name, "Glass") || spells(
                    name,
                    "glass",
                ) || spells(name, "DarkHull") || spells(name, "exhaust") || spells(name, "Exhaust")
            },
            None => false,
        }
    }
}

/// The hulls that can be loaded.
#[derive(Debug, Copy, Clone, PartialEq, Eq, Structural)]
pub enum Hull {
    Astero,
    Avatar,
    Buzzard,
    Crow,
    Nestor,
    Orca,
    Raven,
    Rifter,
    Stratios,
    Venture,
}

/// The colour scheme of a hull.
#[derive(Debug, Copy, Clone, PartialEq, Eq, Structural)]
pub enum Livery {
    Caldari,
    Ore,
    Soe,
}

/// The directory of a hull's files, below `models/`.
pub open spec fn directory_of(hull: Hull) -> Seq<char> {
    match hull {
        Hull::Venture => "oref1_t1"@,
        Hull::Raven => "cb1_t1"@,
        Hull::Avatar => "at1_t1"@,
        Hull::Buzzard => "cf3_t2"@,
        Hull::Rifter => "mf4_t1"@,
        Hull::Astero => "soef1_t1"@,
        Hull::Stratios => "soec1_t1"@,
        Hull::Nestor => "soeb1_t1"@,
        Hull::Orca => "orefr1_t1"@,
        Hull::Crow => "cf2_t2a"@,
    }
}

/// The name of a hull's paint map, without its directory.
pub open spec fn paint_map_of(hull: Hull) -> Seq<char> {
    match hull {
        Hull::Venture => "oref1_t1_pmdg.png"@,
        Hull::Raven => "cb1_t1_navy_pmdg.png"@,
        Hull::Avatar => "at1_t1_pmdg.png"@,
        Hull::Buzzard => "cf3_t2_pmdg.png"@,
        Hull::Rifter => "mf4_t1_pmdg.png"@,
        Hull::Astero => "soef1_t1_pmdg.png"@,
        Hull::Stratios => "soec1_t1_pmdg.png"@,
        Hull::Nestor => "soeb1_t1_pmdg.png"@,
        Hull::Orca => "orefr1_t1_pmdg.png"@,
        Hull::Crow => "cf2_t2a_pmdg.png"@,
    }
}

/// The name of a hull's model file, without its directory.
pub open spec fn model_of(hull: Hull) -> Seq<char> {
    match hull {
        Hull::Venture => "OreF1_TShape1.obj"@,
        Hull::Raven => "CB1_TShape1.obj"@,
        Hull::Avatar => "AT1_TShape1.obj"@,
        Hull::Buzzard => "CF3_TShape2.obj"@,
        Hull::Rifter => "MF4_TShape1.obj"@,
        Hull::Astero => "SoEF1_TShape1.obj"@,
        Hull::Stratios => "SoEC1_TShape1.obj"@,
        Hull::Nestor => "SoEB1_TShape2.obj"@,
        Hull::Orca => "OreFr1_TShape1.obj"@,
        Hull::Crow => "CF2_T2aShape.obj"@,
    }
}

/// The colour scheme that a hull is painted in.
pub open spec fn livery_of(hull: Hull) -> Livery {
    match hull {
        Hull::Raven | Hull::Buzzard => Livery::Caldari,
        Hull::Astero | Hull::Stratios | Hull::Nestor => Livery::Soe,
        _ => Livery::Ore,
    }
}

impl Hull {
    /// The directory of the hull's files, below `models/`. Its normal and
    /// albedo maps are named after it, with `_no.png` and `_ar.png`.
    pub fn directory(self) -> (r: &'static str)
        ensures
            r@ == directory_of(self),
    {
        match self {
            Hull::Venture => "oref1_t1",
            Hull::Raven => "cb1_t1",
            Hull::Avatar => "at1_t1",
            Hull::Buzzard => "cf3_t2",
            Hull::Rifter => "mf4_t1",
            Hull::Astero => "soef1_t1",
            Hull::Stratios => "soec1_t1",
            Hull::Nestor => "soeb1_t1",
            Hull::Orca => "orefr1_t1",
            Hull::Crow => "cf2_t2a",
        }
    }

    /// The name of the hull's paint map, without its directory.
    pub fn paint_map(self) -> (r: &'static str)
        ensures
            r@ == paint_map_of(self),
    {
        match self {
            Hull::Venture => "oref1_t1_pmdg.png",
            Hull::Raven => "cb1_t1_navy_pmdg.png",
            Hull::Avatar => "at1_t1_pmdg.png",
            Hull::Buzzard => "cf3_t2_pmdg.png",
            Hull::Rifter => "mf4_t1_pmdg.png",
            Hull::Astero => "soef1_t1_pmdg.png",
            Hull::Stratios => "soec1_t1_pmdg.png",
            Hull::Nestor => "soeb1_t1_pmdg.png",
            Hull::Orca => "orefr1_t1_pmdg.png",
            Hull::Crow => "cf2_t2a_pmdg.png",
        }
    }

    /// The name of the hull's model file, without its directory.
    pub fn model(self) -> (r: &'static str)
        ensures
            r@ == model_of(self),
    {
        match self {
            Hull::Venture => "OreF1_TShape1.obj",
            Hull::Raven => "CB1_TShape1.obj",
            Hull::Avatar => "AT1_TShape1.obj",
            Hull::Buzzard => "CF3_TShape2.obj",
            Hull::Rifter => "MF4_TShape1.obj",
            Hull::Astero => "SoEF1_TShape1.obj",
            Hull::Stratios => "SoEC1_TShape1.obj",
            Hull::Nestor => "SoEB1_TShape2.obj",
            Hull::Orca => "OreFr1_TShape1.obj",
            Hull::Crow => "CF2_T2aShape.obj",
        }
    }

    /// The colour scheme that the hull is painted in.
    pub fn livery(self) -> (r: Livery)
        ensures
            r == livery_of(self),
    {
        match self {
            Hull::Raven | Hull::Buzzard => Livery::Caldari,
            Hull::Astero | Hull::Stratios | Hull::Nestor => Livery::Soe,
            _ => Livery::Ore,
        }
    }
}

} // verus!

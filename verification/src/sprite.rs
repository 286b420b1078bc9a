//! Sprite exports: a sprite directory's ordered palette and animation name
//! lists, read from its sheet sidecar, and its build-time index.

use vstd::prelude::*;
use crate::id::Identifier;
use crate::output::CopyDir;
use crate::strutil::{hex_pad, spec_hex_pad, string_views, suffix_after_last,
    suffix_after_last_spec};
use crate::xml::{find_attr, find_child, XmlElem};

verus! {

#[derive(Debug, Clone, PartialEq, Eq, Hash)]
pub struct SpriteId(pub Identifier);

/// The name a sheet-list child defines for its slot: its `name` attribute,
/// or its index rendered in hexadecimal.
pub open spec fn slot_name(e: XmlElem, idx: int) -> Seq<char> {
    match find_attr(e.attrs@, "name"@, 0) {
        Some(i) => e.attrs@[i].1@,
        None => spec_hex_pad(idx as nat, 1),
    }
}

/// The slot names a sheet list defines, in document order.
pub open spec fn slot_names(children: Seq<XmlElem>) -> Seq<Seq<char>> {
    Seq::new(children.len(), |i: int| slot_name(children[i], i))
}

/// Reads the slot names of a sheet list's children.
fn slot_names_of(children: &Vec<XmlElem>) -> (r: Vec<String>)
    ensures
        string_views(r@) == slot_names(children@),
{
    let n = children.len();
    let mut r: Vec<String> = Vec::new();
    assert(string_views(r@) =~~= slot_names(children@).take(0));
    let mut i: usize = 0;
    while i < n
        invariant
            n == children@.len(),
            i <= n,
            string_views(r@) == slot_names(children@).take(i as int),
        decreases n - i,
    {
        let name = match children[i].attr("name") {
            Some(v) => v.clone(),
            None => hex_pad(i as u64, 1),
        };
        proof {
            assert(name@ == slot_name(children@[i as int], i as int));
        }
        let ghost pre = r@;
        r.push(name);
        i = i + 1;
        proof {
            let k = i as int - 1;
            assert(string_views(r@) =~~= string_views(pre).push(slot_name(children@[k], k)));
            assert(slot_names(children@).take(k + 1) =~~= slot_names(children@).take(k).push(
                slot_name(children@[k], k)));
            assert(string_views(r@) =~~= slot_names(children@).take(k + 1));
        }
    }
    assert(string_views(r@) =~~= slot_names(children@));
    r
}

#[derive(Debug, Clone, PartialEq, Eq)]
pub enum SpriteLoadError {
    /// The sprite directory has no readable sheet sidecar; the payload
    /// describes the underlying failure.
    MissingSpriteSheet(String),
    /// The sheet sidecar is not well-formed XML; the payload describes the
    /// underlying failure.
    MalformedSpriteSheet(String),
    SpriteSheetMissingPaletteList,
    SpriteSheetMissingAnimationList,
}

impl SpriteLoadError {
    pub open spec fn spec_message(&self) -> Seq<char> {
        match self {
            SpriteLoadError::MissingSpriteSheet(_) => "missing SpriteSheet.xml"@,
            SpriteLoadError::MalformedSpriteSheet(_) => "malformed SpriteSheet.xml"@,
            SpriteLoadError::SpriteSheetMissingPaletteList =>
                "SpriteSheet.xml is missing PaletteList"@,
            SpriteLoadError::SpriteSheetMissingAnimationList =>
                "SpriteSheet.xml is missing AnimationList"@,
        }
    }

    pub fn message(&self) -> (r: String)
        ensures
            r@ == self.spec_message(),
    {
        let mut r = String::new();
        match self {
            SpriteLoadError::MissingSpriteSheet(_) => r.push_str("missing SpriteSheet.xml"),
            SpriteLoadError::MalformedSpriteSheet(_) => r.push_str("malformed SpriteSheet.xml"),
            SpriteLoadError::SpriteSheetMissingPaletteList =>
                r.push_str("SpriteSheet.xml is missing PaletteList"),
            SpriteLoadError::SpriteSheetMissingAnimationList =>
                r.push_str("SpriteSheet.xml is missing AnimationList"),
        }
        r
    }
}

/// A sprite export: the directory its files live in, its palette and
/// animation slot names, and, once assembled, its index.
#[derive(Debug, Clone, PartialEq, Eq)]
pub struct Sprite {
    pub dir: String,
    pub palettes: Vec<String>,
    pub animations: Vec<String>,
    pub assembled_index: Option<u8>,
}

impl Sprite {
    /// Reads a sprite from its sheet sidecar: the sheet must hold a
    /// `PaletteList` and an `AnimationList` element, whose children define
    /// the palette and animation slots in document order.
    pub fn load(dir: String, sheet: &XmlElem) -> (r: Result<Sprite, SpriteLoadError>)
        ensures
            r matches Ok(s) ==> find_child(sheet.children@, "PaletteList"@, 0) matches Some(p)
                && find_child(sheet.children@, "AnimationList"@, 0) matches Some(a)
                && s.dir == dir
                && string_views(s.palettes@) == slot_names(sheet.children@[p].children@)
                && string_views(s.animations@) == slot_names(sheet.children@[a].children@)
                && s.assembled_index is None,
            r matches Err(SpriteLoadError::SpriteSheetMissingPaletteList)
                <==> find_child(sheet.children@, "PaletteList"@, 0) is None,
            r matches Err(SpriteLoadError::SpriteSheetMissingAnimationList)
                <==> find_child(sheet.children@, "PaletteList"@, 0) is Some
                    && find_child(sheet.children@, "AnimationList"@, 0) is None,
            r matches Err(e) ==> (e matches SpriteLoadError::SpriteSheetMissingPaletteList
                || e matches SpriteLoadError::SpriteSheetMissingAnimationList),
    {
        let palettes = match sheet.child_named("PaletteList") {
            Some(list) => slot_names_of(&list.children),
            None => {
                return Err(SpriteLoadError::SpriteSheetMissingPaletteList);
            },
        };
        let animations = match sheet.child_named("AnimationList") {
            Some(list) => slot_names_of(&list.children),
            None => {
                return Err(SpriteLoadError::SpriteSheetMissingAnimationList);
            },
        };
        Ok(Sprite { dir, palettes, animations, assembled_index: None })
    }

    /// The sprite's local export name: the terminal component of its
    /// directory.
    pub fn name(&self) -> (r: String)
        ensures
            r@ == suffix_after_last_spec(self.dir@, '/'),
    {
        suffix_after_last(self.dir.as_str(), '/')
    }

    /// The index assigned during assembly, if assembly has happened.
    pub fn assembled_index(&self) -> (r: Option<u8>)
        ensures
            r == self.assembled_index,
    {
        self.assembled_index
    }

    /// Records the sprite's assigned index and yields the copy of its files
    /// into the index-named output directory.
    pub fn assemble(&mut self, out_dir: &str, index: u8) -> (r: CopyDir)
        ensures
            final(self).dir == old(self).dir,
            final(self).palettes == old(self).palettes,
            final(self).animations == old(self).animations,
            final(self).assembled_index == Some(index),
            r.from@ == old(self).dir@,
            r.to@ == out_dir@,
    {
        self.assembled_index = Some(index);
        CopyDir { from: self.dir.clone(), to: out_dir.to_owned() }
    }

    /// The slot index of the palette with the given name, if any.
    pub fn palette_by_name(&self, name: &str) -> (r: Option<usize>)
        ensures
            match r {
                Some(i) => i < self.palettes@.len() && self.palettes@[i as int]@ == name@
                    && forall|j: int| 0 <= j < i ==> (#[trigger] self.palettes@[j])@ != name@,
                None => forall|j: int| 0 <= j < self.palettes@.len()
                    ==> (#[trigger] self.palettes@[j])@ != name@,
            },
    {
        position_of_name(&self.palettes, name)
    }

    /// The slot index of the animation with the given name, if any.
    pub fn animation_by_name(&self, name: &str) -> (r: Option<usize>)
        ensures
            match r {
                Some(i) => i < self.animations@.len() && self.animations@[i as int]@ == name@
                    && forall|j: int| 0 <= j < i ==> (#[trigger] self.animations@[j])@ != name@,
                None => forall|j: int| 0 <= j < self.animations@.len()
                    ==> (#[trigger] self.animations@[j])@ != name@,
            },
    {
        position_of_name(&self.animations, name)
    }
}

/// The position of the first string equal to `name`.
fn position_of_name(list: &Vec<String>, name: &str) -> (r: Option<usize>)
    ensures
        match r {
            Some(i) => i < list@.len() && list@[i as int]@ == name@
                && forall|j: int| 0 <= j < i ==> (#[trigger] list@[j])@ != name@,
            None => forall|j: int| 0 <= j < list@.len() ==> (#[trigger] list@[j])@ != name@,
        },
{
    let n = list.len();
    let mut i: usize = 0;
    while i < n
        invariant
            n == list@.len(),
            i <= n,
            forall|j: int| 0 <= j < i ==> (#[trigger] list@[j])@ != name@,
        decreases n - i,
    {
        if crate::strutil::str_eq(list[i].as_str(), name) {
            return Some(i);
        }
        i = i + 1;
    }
    None
}

} // verus!

//! Packages: a manifest, a flattened dependency list, and the three merged
//! export registries, built from plain in-memory sources and assembled into
//! a plan of build outputs.

use vstd::prelude::*;
use crate::actor::{Actor, ActorLoadError};
use crate::id::Identifier;
use crate::output::{Assembly, OutFile};
use crate::registry::Registry;
use crate::sanitize::{
    self, package_name_fault, package_name_ok, dependency_name_fault, dependency_name_ok,
    DependencyNameError, PackageNameError,
};
use crate::sprite::{Sprite, SpriteLoadError};
use crate::text::{self, Text};
use crate::version::{parse_version, semver_of, Version};
use crate::xml::XmlElem;

verus! {

/// A dependency declaration: its declared name and the path it is loaded
/// from.
#[derive(Debug, Clone, PartialEq, Eq)]
pub struct Dependency {
    pub name: String,
    pub path: String,
}

/// A package manifest: the package's name, its version, and its declared
/// dependencies.
#[derive(Debug, Clone, PartialEq, Eq)]
pub struct Manifest {
    pub name: String,
    pub version: Version,
    pub dependencies: Vec<Dependency>,
}

/// A package: its directory, manifest, flattened dependency list, and the
/// three merged export registries.  The dependency records keep their
/// identity (directory, manifest); their merged registry content lives in
/// the owning package's registries.
#[derive(Debug)]
pub struct Package {
    /// The directory holding this package.
    pub dir: String,
    pub manifest: Manifest,
    /// Flattened, deduplicated dependency list.
    pub dependencies: Vec<Package>,
    pub sprites: Registry<Sprite>,
    pub actors: Registry<Actor>,
    pub texts: Registry<Text>,
}

#[derive(Debug, Clone, PartialEq, Eq)]
pub enum LoadError {
    NotDirectory(String),
    UnfoundManifest(String),
    MalformedManifest(String),
    InvalidPackageName(PackageNameError),
    InvalidDependencyName(DependencyNameError),
    MultiDependencyVersionMismatch,
    Sprite { dir: String, error: SpriteLoadError },
    Actor(ActorLoadError),
    Text(text::LoadError),
}

impl LoadError {
    pub open spec fn spec_message(&self) -> Seq<char> {
        match self {
            LoadError::NotDirectory(p) => "not a directory: "@ + p@,
            LoadError::UnfoundManifest(_) => "missing starpkg.toml - not a package?"@,
            LoadError::MalformedManifest(t) =>
                "malformed starpkg.toml: invalid version '"@ + t@ + "'"@,
            LoadError::InvalidPackageName(e) => e.spec_message(),
            LoadError::InvalidDependencyName(e) => e.spec_message(),
            LoadError::MultiDependencyVersionMismatch =>
                "dependencies with the same name but different versions found"@,
            LoadError::Sprite { dir, error } =>
                "unable to load sprite: "@ + dir@ + ": "@ + error.spec_message(),
            LoadError::Actor(e) => e.spec_message(),
            LoadError::Text(e) => "error parsing strings file: "@ + e.spec_message(),
        }
    }

    pub fn message(&self) -> (r: String)
        ensures
            r@ == self.spec_message(),
    {
        match self {
            LoadError::NotDirectory(p) => {
                let mut r = String::new();
                r.push_str("not a directory: ");
                r.push_str(p.as_str());
                r
            },
            LoadError::UnfoundManifest(_) => {
                let mut r = String::new();
                r.push_str("missing starpkg.toml - not a package?");
                r
            },
            LoadError::MalformedManifest(t) => {
                let mut r = String::new();
                r.push_str("malformed starpkg.toml: invalid version '");
                r.push_str(t.as_str());
                r.push_str("'");
                r
            },
            LoadError::InvalidPackageName(e) => e.message(),
            LoadError::InvalidDependencyName(e) => e.message(),
            LoadError::MultiDependencyVersionMismatch => {
                let mut r = String::new();
                r.push_str("dependencies with the same name but different versions found");
                r
            },
            LoadError::Sprite { dir, error } => {
                let mut r = String::new();
                r.push_str("unable to load sprite: ");
                r.push_str(dir.as_str());
                r.push_str(": ");
                let m = error.message();
                r.push_str(m.as_str());
                r
            },
            LoadError::Actor(e) => e.message(),
            LoadError::Text(e) => {
                let mut r = String::new();
                r.push_str("error parsing strings file: ");
                let m = e.message();
                r.push_str(m.as_str());
                r
            },
        }
    }
}

/// A version as plain spec values: the numeric components and the
/// pre-release and build metadata text.
pub open spec fn vinfo(v: Version) -> (u64, u64, u64, Seq<char>, Seq<char>) {
    (v.major, v.minor, v.patch, v.pre@, v.build@)
}

/// A package's identity: its name and version.
pub open spec fn pkg_info(p: Package) -> (Seq<char>, (u64, u64, u64, Seq<char>, Seq<char>)) {
    (p.manifest.name@, vinfo(p.manifest.version))
}

pub open spec fn infos_of(s: Seq<Package>) -> Seq<(Seq<char>, (u64, u64, u64, Seq<char>, Seq<char>))> {
    s.map_values(|p: Package| pkg_info(p))
}

/// The identities of a dependency list once flattened: each dependency's
/// own (already flattened) dependencies hoisted ahead of it.
pub open spec fn flat_infos(deps: Seq<Package>) -> Seq<(Seq<char>, (u64, u64, u64, Seq<char>, Seq<char>))>
    decreases deps.len(),
{
    if deps.len() == 0 {
        Seq::empty()
    } else {
        flat_infos(deps.drop_last()) + infos_of(deps.last().dependencies@).push(
            pkg_info(deps.last()))
    }
}

/// Two entries of the list share a name but not a version.
pub open spec fn has_conflict(s: Seq<(Seq<char>, (u64, u64, u64, Seq<char>, Seq<char>))>) -> bool {
    exists|i: int, j: int| 0 <= i < s.len() && 0 <= j < s.len()
        && (#[trigger] s[i]).0 == (#[trigger] s[j]).0 && s[i].1 != s[j].1
}

/// The list with every later repeat of an identity removed: an entry stays
/// exactly when no earlier entry has the same name and version.
pub open spec fn dedup_pkgs(s: Seq<Package>, i: int) -> Seq<Package>
    decreases s.len() - i,
{
    if i < 0 || i >= s.len() {
        Seq::empty()
    } else if exists|j: int| 0 <= j < i && pkg_info(s[j]) == pkg_info(s[i]) {
        dedup_pkgs(s, i + 1)
    } else {
        seq![s[i]] + dedup_pkgs(s, i + 1)
    }
}

/// An entry of a flattened list: either a dependency of a dependency,
/// unchanged, or a dependency itself with its (hoisted) dependency list
/// emptied.
pub open spec fn husk_of(h: Package, d: Package) -> bool {
    &&& h.dir == d.dir
    &&& h.manifest == d.manifest
    &&& h.sprites == d.sprites
    &&& h.actors == d.actors
    &&& h.texts == d.texts
    &&& h.dependencies@.len() == 0
}

pub open spec fn from_deps(p: Package, deps: Seq<Package>) -> bool {
    ||| exists|j: int, k: int| 0 <= j < deps.len()
        && 0 <= k < deps[j].dependencies@.len() && p == (#[trigger] deps[j].dependencies@[k])
    ||| exists|j: int| 0 <= j < deps.len() && husk_of(p, #[trigger] deps[j])
}

/// Flattens a dependency list: each dependency's own dependencies are
/// hoisted ahead of it, and its then-empty dependency list stays empty.
pub fn flatten_dependencies(deps: Vec<Package>) -> (flat: Vec<Package>)
    ensures
        infos_of(flat@) == flat_infos(deps@),
        forall|i: int| 0 <= i < flat@.len() ==> from_deps(#[trigger] flat@[i], deps@),
{
    let ghost orig = deps@;
    let mut rest = deps;
    let n0 = rest.len();
    assert(orig.len() == n0);
    let mut flat: Vec<Package> = Vec::new();
    let mut i: usize = 0;
    proof {
        assert(infos_of(flat@) =~= flat_infos(orig.take(0)));
        assert(rest@ =~= orig.skip(0));
    }
    while rest.len() > 0
        invariant
            orig.len() <= usize::MAX,
            i <= orig.len(),
            rest@ == orig.skip(i as int),
            infos_of(flat@) == flat_infos(orig.take(i as int)),
            forall|k: int| 0 <= k < flat@.len() ==> from_deps(#[trigger] flat@[k], orig),
        decreases rest@.len(),
    {
        let mut d = rest.remove(0);
        proof {
            assert(orig.skip(i as int)[0] == orig[i as int]);
            assert(orig.skip(i as int).drop_first() =~= orig.skip(i as int + 1));
        }
        let ghost d0 = d;
        let ghost pre_flat = flat@;
        flat.append(&mut d.dependencies);
        flat.push(d);
        proof {
            let t = orig.take(i as int + 1);
            assert(t.drop_last() =~= orig.take(i as int));
            assert(t.last() == orig[i as int]);
            assert(flat@ =~= pre_flat + d0.dependencies@ + seq![flat@.last()]);
            assert(husk_of(flat@.last(), orig[i as int]));
            assert forall|k: int| 0 <= k < flat@.len() implies from_deps(
                #[trigger] flat@[k], orig) by {
                if k < pre_flat.len() {
                    assert(flat@[k] == pre_flat[k]);
                } else if k < flat@.len() - 1 {
                    assert(flat@[k] == orig[i as int].dependencies@[k - pre_flat.len()]);
                }
            }
            assert(infos_of(flat@) =~= infos_of(pre_flat) + infos_of(d0.dependencies@).push(
                pkg_info(orig[i as int])));
            assert(infos_of(flat@) =~= flat_infos(t));
        }
        i = i + 1;
    }
    proof {
        assert(orig.take(i as int) =~= orig);
    }
    flat
}

/// The position of an entry whose package name matches, if any.
fn position_of_pkg_name(list: &Vec<Package>, name: &str) -> (r: Option<usize>)
    ensures
        match r {
            Some(i) => i < list@.len() && list@[i as int].manifest.name@ == name@,
            None => forall|j: int| 0 <= j < list@.len()
                ==> (#[trigger] list@[j]).manifest.name@ != name@,
        },
{
    let n = list.len();
    let mut i: usize = 0;
    while i < n
        invariant
            n == list@.len(),
            i <= n,
            forall|j: int| 0 <= j < i ==> (#[trigger] list@[j]).manifest.name@ != name@,
        decreases n - i,
    {
        if crate::strutil::str_eq(list[i].manifest.name.as_str(), name) {
            return Some(i);
        }
        i = i + 1;
    }
    None
}

/// Removes every later repeat of an identity (same name, same version) from
/// a flattened dependency list; a name that still occurs with two different
/// versions is a version conflict and fails the load.
/// Whether an earlier entry has the same identity.
pub open spec fn is_repeat(s: Seq<Package>, i: int) -> bool {
    exists|j: int| 0 <= j < i && pkg_info(#[trigger] s[j]) == pkg_info(s[i])
}

/// Marks each entry that repeats an earlier identity, failing on a name
/// that occurs with two different versions.
fn mark_repeats(flat: &Vec<Package>) -> (r: Result<Vec<bool>, LoadError>)
    ensures
        r is Ok <==> !has_conflict(infos_of(flat@)),
        r matches Err(e) ==> e matches LoadError::MultiDependencyVersionMismatch,
        r matches Ok(keep) ==> keep@.len() == flat@.len()
            && forall|x: int| 0 <= x < flat@.len()
                ==> keep@[x] == !is_repeat(flat@, x),
{
    let n = flat.len();
    let mut keep: Vec<bool> = Vec::new();
    let mut i: usize = 0;
    while i < n
        invariant
            n == flat@.len(),
            i <= n,
            keep@.len() == i,
            forall|x: int| 0 <= x < i ==> keep@[x] == !is_repeat(flat@, x),
            forall|a: int, b: int| 0 <= a < i && 0 <= b < i
                && (#[trigger] flat@[a]).manifest.name@ == (#[trigger] flat@[b]).manifest.name@
                ==> pkg_info(flat@[a]) == pkg_info(flat@[b]),
        decreases n - i,
    {
        let mut j: usize = 0;
        let mut dup = false;
        while j < i && !dup
            invariant
                i < n == flat@.len(),
                j <= i,
                dup ==> is_repeat(flat@, i as int),
                !dup ==> forall|x: int| 0 <= x < j
                    ==> (#[trigger] flat@[x]).manifest.name@ != flat@[i as int].manifest.name@,
            decreases i - j, if dup { 0int } else { 1int },
        {
            if crate::strutil::str_eq(
                flat[j].manifest.name.as_str(),
                flat[i].manifest.name.as_str(),
            ) {
                if flat[j].manifest.version.same_as(&flat[i].manifest.version) {
                    assert(pkg_info(flat@[j as int]) == pkg_info(flat@[i as int]));
                    dup = true;
                } else {
                    proof {
                        let fi = infos_of(flat@);
                        assert(fi[j as int].0 == fi[i as int].0);
                        assert(fi[j as int].1 != fi[i as int].1);
                    }
                    return Err(LoadError::MultiDependencyVersionMismatch);
                }
            } else {
                j = j + 1;
            }
        }
        proof {
            if !dup {
                assert forall|x: int| 0 <= x < i implies pkg_info(#[trigger] flat@[x])
                    != pkg_info(flat@[i as int]) by {
                    assert(flat@[x].manifest.name@ != flat@[i as int].manifest.name@);
                }
            }
            assert forall|a: int, b: int| 0 <= a < i + 1 && 0 <= b < i + 1
                && (#[trigger] flat@[a]).manifest.name@ == (#[trigger] flat@[b]).manifest.name@
                implies pkg_info(flat@[a]) == pkg_info(flat@[b]) by {
                if a == i && b == i {
                } else if a == i && b < i {
                    assert(dup);
                    let j0 = choose|j0: int| 0 <= j0 < i
                        && pkg_info(#[trigger] flat@[j0]) == pkg_info(flat@[i as int]);
                    assert(flat@[j0].manifest.name@ == flat@[b].manifest.name@);
                } else if b == i && a < i {
                    assert(dup);
                    let j0 = choose|j0: int| 0 <= j0 < i
                        && pkg_info(#[trigger] flat@[j0]) == pkg_info(flat@[i as int]);
                    assert(flat@[j0].manifest.name@ == flat@[a].manifest.name@);
                }
            }
        }
        keep.push(!dup);
        i = i + 1;
    }
    proof {
        assert forall|a: int, b: int| 0 <= a < n && 0 <= b < n
            && (#[trigger] infos_of(flat@)[a]).0 == (#[trigger] infos_of(flat@)[b]).0
            implies infos_of(flat@)[a].1 == infos_of(flat@)[b].1 by {
            assert(flat@[a].manifest.name@ == flat@[b].manifest.name@);
        }
    }
    Ok(keep)
}

/// Removes every later repeat of an identity (same name, same version) from
/// a flattened dependency list; a name that still occurs with two different
/// versions is a version conflict and fails the load.
pub fn dedup_dependencies(flat: Vec<Package>) -> (r: Result<Vec<Package>, LoadError>)
    ensures
        r is Ok <==> !has_conflict(infos_of(flat@)),
        r matches Err(e) ==> e matches LoadError::MultiDependencyVersionMismatch,
        r matches Ok(d) ==> d@ == dedup_pkgs(flat@, 0),
{
    let keep = match mark_repeats(&flat) {
        Ok(keep) => keep,
        Err(e) => {
            return Err(e);
        },
    };
    let ghost orig = flat@;
    let mut rest = flat;
    let n0 = rest.len();
    assert(orig.len() == n0);
    let mut out: Vec<Package> = Vec::new();
    let mut i: usize = 0;
    proof {
        assert(rest@ =~= orig.skip(0));
        assert(dedup_pkgs(orig, 0) =~= out@ + dedup_pkgs(orig, 0));
    }
    while rest.len() > 0
        invariant
            orig.len() == n0,
            i <= orig.len(),
            rest@ == orig.skip(i as int),
            keep@.len() == orig.len(),
            forall|x: int| 0 <= x < orig.len() ==> keep@[x] == !is_repeat(orig, x),
            dedup_pkgs(orig, 0) == out@ + dedup_pkgs(orig, i as int),
        decreases rest@.len(),
    {
        let p = rest.remove(0);
        proof {
            assert(orig.skip(i as int)[0] == orig[i as int]);
            assert(orig.skip(i as int).drop_first() =~= orig.skip(i as int + 1));
            assert(p == orig[i as int]);
        }
        if keep[i] {
            out.push(p);
            proof {
                assert(!is_repeat(orig, i as int));
                assert(dedup_pkgs(orig, i as int) == seq![orig[i as int]] + dedup_pkgs(
                    orig, i as int + 1));
                assert(dedup_pkgs(orig, 0) =~= out@ + dedup_pkgs(orig, i as int + 1));
            }
        } else {
            proof {
                assert(is_repeat(orig, i as int));
                assert(dedup_pkgs(orig, i as int) == dedup_pkgs(orig, i as int + 1));
            }
        }
        i = i + 1;
    }
    proof {
        assert(dedup_pkgs(orig, i as int) =~= Seq::<Package>::empty());
        assert(out@ =~= dedup_pkgs(orig, 0));
    }
    Ok(out)
}

/// The first declared dependency whose name violates the dependency-name
/// rule, if any.
pub open spec fn first_dep_fault(deps: Seq<(String, String)>, current: Seq<char>, i: int) -> Option<int>
    decreases deps.len() - i,
{
    if i < 0 || i >= deps.len() {
        None
    } else if dependency_name_fault(deps[i].0@, current) is Some {
        Some(i)
    } else {
        first_dep_fault(deps, current, i + 1)
    }
}

/// One sprite directory of the package's own sources: the directory and
/// its parsed sheet sidecar.
#[derive(Debug)]
pub struct SpriteSource {
    pub dir: String,
    pub sheet: XmlElem,
}

/// One actor directory of the package's own sources: the directory, its
/// sidecar's `name` and `tattle` references, and its script source.
#[derive(Debug, Clone, PartialEq, Eq)]
pub struct ActorSource {
    pub dir: String,
    pub name: String,
    pub tattle: String,
    pub script_source: String,
}

/// One string file of the package's own sources.
#[derive(Debug, Clone, PartialEq, Eq)]
pub struct TextSource {
    pub path: String,
    pub source: String,
}

/// The local export name a sprite or actor directory defines.
pub open spec fn dir_export_name(dir: Seq<char>) -> Seq<char> {
    crate::strutil::suffix_after_last_spec(dir, '/')
}

/// What a sprite loaded from a source holds.
pub open spec fn sprite_of_source(v: Sprite, s: SpriteSource) -> bool {
    &&& v.dir == s.dir
    &&& (crate::xml::find_child(s.sheet.children@, "PaletteList"@, 0) matches Some(p)
        && crate::strutil::string_views(v.palettes@)
            == crate::sprite::slot_names(s.sheet.children@[p].children@))
    &&& (crate::xml::find_child(s.sheet.children@, "AnimationList"@, 0) matches Some(a)
        && crate::strutil::string_views(v.animations@)
            == crate::sprite::slot_names(s.sheet.children@[a].children@))
    &&& v.assembled_index is None
}

/// The first sprite source whose sheet lacks a required list, if any.
pub open spec fn first_sprite_fault(ss: Seq<SpriteSource>, i: int) -> Option<int>
    decreases ss.len() - i,
{
    if i < 0 || i >= ss.len() {
        None
    } else if crate::xml::find_child(ss[i].sheet.children@, "PaletteList"@, 0) is None
        || crate::xml::find_child(ss[i].sheet.children@, "AnimationList"@, 0) is None {
        Some(i)
    } else {
        first_sprite_fault(ss, i + 1)
    }
}

/// Whether an actor source is acceptable: both sidecar references parse and
/// the directory name is a valid export name.
pub open spec fn actor_source_ok(s: ActorSource, src: Seq<char>) -> bool {
    &&& crate::id::parse_ok(s.name@, src)
    &&& crate::id::parse_ok(s.tattle@, src)
    &&& crate::sanitize::generic_name_ok(dir_export_name(s.dir@))
}

/// What an actor loaded from a source holds.
pub open spec fn actor_of_source(a: Actor, s: ActorSource, src: Seq<char>) -> bool {
    &&& a.dir == s.dir
    &&& a.src_pkg_name@ == src
    &&& a.script_source == s.script_source
    &&& a.assembled_index is None
    &&& a.name.0.package@ == crate::id::parse_package(s.name@, src)
    &&& a.name.0.name@ == crate::id::parse_name(s.name@, src)
    &&& a.tattle.0.package@ == crate::id::parse_package(s.tattle@, src)
    &&& a.tattle.0.name@ == crate::id::parse_name(s.tattle@, src)
}

pub open spec fn first_actor_fault(ss: Seq<ActorSource>, src: Seq<char>, i: int) -> Option<int>
    decreases ss.len() - i,
{
    if i < 0 || i >= ss.len() {
        None
    } else if !actor_source_ok(ss[i], src) {
        Some(i)
    } else {
        first_actor_fault(ss, src, i + 1)
    }
}

/// The first string file with an unacceptable block, if any.
pub open spec fn first_text_file_fault(ts: Seq<TextSource>, i: int) -> Option<int>
    decreases ts.len() - i,
{
    if i < 0 || i >= ts.len() {
        None
    } else if crate::text::first_text_fault(
        crate::script::script_blocks_spec(ts[i].source@), 0) is Some {
        Some(i)
    } else {
        first_text_file_fault(ts, i + 1)
    }
}

impl Manifest {
    /// Builds and validates a manifest from its raw file values: the
    /// version text must be a valid semantic version, the package name must
    /// pass the package-name rule, and every declared dependency name must
    /// pass the dependency-name rule.
    pub fn new(name: String, version_text: &str, deps: Vec<(String, String)>) -> (r: Result<
        Manifest,
        LoadError,
    >)
        ensures
            r is Ok <==> semver_of(version_text@) is Some && package_name_ok(name@)
                && first_dep_fault(deps@, name@, 0) is None,
            r matches Ok(m) ==> m.name == name && Some(vinfo(m.version)) == semver_of(
                version_text@) && m.dependencies@.len() == deps@.len()
                && forall|i: int| 0 <= i < deps@.len()
                    ==> (#[trigger] m.dependencies@[i]).name == deps@[i].0
                        && m.dependencies@[i].path == deps@[i].1,
            r matches Err(LoadError::MalformedManifest(t)) ==> semver_of(version_text@) is None
                && t@ == version_text@,
            r matches Err(LoadError::InvalidPackageName(e)) ==> semver_of(version_text@) is Some
                && Some(e.fault()) == package_name_fault(name@) && e.arg() == name@,
            r matches Err(LoadError::InvalidDependencyName(e)) ==> semver_of(
                version_text@) is Some && package_name_ok(name@)
                && (first_dep_fault(deps@, name@, 0) matches Some(i)
                    && Some(e.fault()) == dependency_name_fault(deps@[i].0@, name@)
                    && e.arg() == deps@[i].0@),
            r matches Err(e) ==> (e matches LoadError::MalformedManifest(_)
                || e matches LoadError::InvalidPackageName(_)
                || e matches LoadError::InvalidDependencyName(_)),
    {
        let version = match parse_version(version_text) {
            Some(v) => v,
            None => {
                return Err(LoadError::MalformedManifest(version_text.to_owned()));
            },
        };
        match sanitize::package_name(name.as_str()) {
            Ok(()) => {},
            Err(e) => {
                return Err(LoadError::InvalidPackageName(e));
            },
        }
        let ghost dv = deps@;
        let mut rest = deps;
        let n0 = rest.len();
        assert(dv.len() == n0);
        let mut dependencies: Vec<Dependency> = Vec::new();
        let mut i: usize = 0;
        assert(rest@ =~= dv.skip(0));
        while rest.len() > 0
            invariant
                dv == deps@,
                dv.len() <= usize::MAX,
                i <= dv.len(),
                rest@ == dv.skip(i as int),
                Some(vinfo(version)) == semver_of(version_text@),
                package_name_ok(name@),
                first_dep_fault(dv, name@, 0) == first_dep_fault(dv, name@, i as int),
                dependencies@.len() == i,
                forall|k: int| 0 <= k < i ==> (#[trigger] dependencies@[k]).name == dv[k].0
                    && dependencies@[k].path == dv[k].1,
            decreases rest@.len(),
        {
            let (dep_name, dep_path) = rest.remove(0);
            proof {
                assert(dv.skip(i as int)[0] == dv[i as int]);
                assert(dv.skip(i as int).drop_first() =~= dv.skip(i as int + 1));
            }
            match sanitize::dependency_name(dep_name.as_str(), name.as_str()) {
                Ok(()) => {},
                Err(e) => {
                    assert(first_dep_fault(dv, name@, i as int) == Some(i as int));
                    return Err(LoadError::InvalidDependencyName(e));
                },
            }
            dependencies.push(Dependency { name: dep_name, path: dep_path });
            i = i + 1;
        }
        Ok(Manifest { name, version, dependencies })
    }
}

/// The identities kept after removing later repeats.
pub open spec fn dedup_infos(
    s: Seq<(Seq<char>, (u64, u64, u64, Seq<char>, Seq<char>))>,
    i: int,
) -> Seq<(Seq<char>, (u64, u64, u64, Seq<char>, Seq<char>))>
    decreases s.len() - i,
{
    if i < 0 || i >= s.len() {
        Seq::empty()
    } else if exists|j: int| 0 <= j < i && s[j] == s[i] {
        dedup_infos(s, i + 1)
    } else {
        seq![s[i]] + dedup_infos(s, i + 1)
    }
}

proof fn lemma_dedup_infos_commute(s: Seq<Package>, i: int)
    requires
        0 <= i,
    ensures
        infos_of(dedup_pkgs(s, i)) == dedup_infos(infos_of(s), i),
    decreases s.len() - i,
{
    if i < s.len() {
        lemma_dedup_infos_commute(s, i + 1);
        assert forall|j: int| 0 <= j < i implies (pkg_info(s[j]) == pkg_info(s[i])
            <==> infos_of(s)[j] == infos_of(s)[i]) by {}
        if exists|j: int| 0 <= j < i && pkg_info(#[trigger] s[j]) == pkg_info(s[i]) {
            let j = choose|j: int| 0 <= j < i && pkg_info(#[trigger] s[j]) == pkg_info(s[i]);
            assert(infos_of(s)[j] == infos_of(s)[i]);
        } else {
            if exists|j: int| 0 <= j < i && infos_of(s)[j] == infos_of(s)[i] {
                let j = choose|j: int| 0 <= j < i && infos_of(s)[j] == infos_of(s)[i];
                assert(pkg_info(s[j]) == pkg_info(s[i]));
            }
            assert(infos_of(dedup_pkgs(s, i)) =~= dedup_infos(infos_of(s), i));
        }
    } else {
        assert(infos_of(dedup_pkgs(s, i)) =~= dedup_infos(infos_of(s), i));
    }
}

/// Every kept entry is an entry of the input list.
proof fn lemma_dedup_pkgs_subset(s: Seq<Package>, i: int, x: int)
    requires
        0 <= i,
        0 <= x < dedup_pkgs(s, i).len(),
    ensures
        exists|j: int| i <= j < s.len() && dedup_pkgs(s, i)[x] == s[j],
    decreases s.len() - i,
{
    if i < s.len() {
        if exists|j: int| 0 <= j < i && pkg_info(#[trigger] s[j]) == pkg_info(s[i]) {
            lemma_dedup_pkgs_subset(s, i + 1, x);
            let j = choose|j: int| i + 1 <= j < s.len() && dedup_pkgs(s, i + 1)[x] == s[j];
            assert(dedup_pkgs(s, i)[x] == s[j]);
        } else {
            if x == 0 {
                assert(dedup_pkgs(s, i)[0] == s[i]);
            } else {
                lemma_dedup_pkgs_subset(s, i + 1, x - 1);
                let j = choose|j: int| i + 1 <= j < s.len()
                    && dedup_pkgs(s, i + 1)[x - 1] == s[j];
                assert(dedup_pkgs(s, i)[x] == s[j]);
            }
        }
    }
}

/// The mapping a sequence of packages' sprite registries fold to, a later
/// package winning ties.
pub open spec fn fold_sprite_maps(s: Seq<Package>) -> Map<(Seq<char>, Seq<char>), Sprite>
    decreases s.len(),
{
    if s.len() == 0 {
        Map::empty()
    } else {
        fold_sprite_maps(s.drop_last()).union_prefer_right(s.last().sprites.as_map())
    }
}

pub open spec fn fold_actor_maps(s: Seq<Package>) -> Map<(Seq<char>, Seq<char>), Actor>
    decreases s.len(),
{
    if s.len() == 0 {
        Map::empty()
    } else {
        fold_actor_maps(s.drop_last()).union_prefer_right(s.last().actors.as_map())
    }
}

pub open spec fn fold_text_maps(s: Seq<Package>) -> Map<(Seq<char>, Seq<char>), Text>
    decreases s.len(),
{
    if s.len() == 0 {
        Map::empty()
    } else {
        fold_text_maps(s.drop_last()).union_prefer_right(s.last().texts.as_map())
    }
}

proof fn lemma_fold_sprite_source(s: Seq<Package>, k: (Seq<char>, Seq<char>))
    requires
        fold_sprite_maps(s).contains_key(k),
    ensures
        exists|x: int| 0 <= x < s.len() && (#[trigger] s[x]).sprites.as_map().contains_key(k)
            && fold_sprite_maps(s)[k] == s[x].sprites.as_map()[k],
    decreases s.len(),
{
    if s.len() > 0 {
        if s.last().sprites.as_map().contains_key(k) {
            assert(s[s.len() - 1].sprites.as_map().contains_key(k));
        } else {
            lemma_fold_sprite_source(s.drop_last(), k);
            let x = choose|x: int| 0 <= x < s.drop_last().len()
                && (#[trigger] s.drop_last()[x]).sprites.as_map().contains_key(k)
                && fold_sprite_maps(s.drop_last())[k] == s.drop_last()[x].sprites.as_map()[k];
            assert(s[x].sprites.as_map().contains_key(k));
        }
    }
}

proof fn lemma_fold_actor_source(s: Seq<Package>, k: (Seq<char>, Seq<char>))
    requires
        fold_actor_maps(s).contains_key(k),
    ensures
        exists|x: int| 0 <= x < s.len() && (#[trigger] s[x]).actors.as_map().contains_key(k)
            && fold_actor_maps(s)[k] == s[x].actors.as_map()[k],
    decreases s.len(),
{
    if s.len() > 0 {
        if s.last().actors.as_map().contains_key(k) {
            assert(s[s.len() - 1].actors.as_map().contains_key(k));
        } else {
            lemma_fold_actor_source(s.drop_last(), k);
            let x = choose|x: int| 0 <= x < s.drop_last().len()
                && (#[trigger] s.drop_last()[x]).actors.as_map().contains_key(k)
                && fold_actor_maps(s.drop_last())[k] == s.drop_last()[x].actors.as_map()[k];
            assert(s[x].actors.as_map().contains_key(k));
        }
    }
}

proof fn lemma_fold_text_source(s: Seq<Package>, k: (Seq<char>, Seq<char>))
    requires
        fold_text_maps(s).contains_key(k),
    ensures
        exists|x: int| 0 <= x < s.len() && (#[trigger] s[x]).texts.as_map().contains_key(k)
            && fold_text_maps(s)[k] == s[x].texts.as_map()[k],
    decreases s.len(),
{
    if s.len() > 0 {
        if s.last().texts.as_map().contains_key(k) {
            assert(s[s.len() - 1].texts.as_map().contains_key(k));
        } else {
            lemma_fold_text_source(s.drop_last(), k);
            let x = choose|x: int| 0 <= x < s.drop_last().len()
                && (#[trigger] s.drop_last()[x]).texts.as_map().contains_key(k)
                && fold_text_maps(s.drop_last())[k] == s.drop_last()[x].texts.as_map()[k];
            assert(s[x].texts.as_map().contains_key(k));
        }
    }
}

/// The record some dependency (or dependency of a dependency) holds for a
/// key.
pub open spec fn pop_sprite(deps: Seq<Package>, k: (Seq<char>, Seq<char>), v: Sprite) -> bool {
    ||| exists|j: int| 0 <= j < deps.len()
        && (#[trigger] deps[j]).sprites.as_map().contains_key(k)
        && deps[j].sprites.as_map()[k] == v
    ||| exists|j: int, l: int| 0 <= j < deps.len() && 0 <= l < deps[j].dependencies@.len()
        && (#[trigger] deps[j].dependencies@[l]).sprites.as_map().contains_key(k)
        && deps[j].dependencies@[l].sprites.as_map()[k] == v
}

pub open spec fn pop_actor(deps: Seq<Package>, k: (Seq<char>, Seq<char>), v: Actor) -> bool {
    ||| exists|j: int| 0 <= j < deps.len()
        && (#[trigger] deps[j]).actors.as_map().contains_key(k)
        && deps[j].actors.as_map()[k] == v
    ||| exists|j: int, l: int| 0 <= j < deps.len() && 0 <= l < deps[j].dependencies@.len()
        && (#[trigger] deps[j].dependencies@[l]).actors.as_map().contains_key(k)
        && deps[j].dependencies@[l].actors.as_map()[k] == v
}

pub open spec fn pop_text(deps: Seq<Package>, k: (Seq<char>, Seq<char>), v: Text) -> bool {
    ||| exists|j: int| 0 <= j < deps.len()
        && (#[trigger] deps[j]).texts.as_map().contains_key(k)
        && deps[j].texts.as_map()[k] == v
    ||| exists|j: int, l: int| 0 <= j < deps.len() && 0 <= l < deps[j].dependencies@.len()
        && (#[trigger] deps[j].dependencies@[l]).texts.as_map().contains_key(k)
        && deps[j].dependencies@[l].texts.as_map()[k] == v
}

/// Whether `k` is the key of one of the package's own sprite directories.
pub open spec fn is_own_sprite_key(
    pkg: Seq<char>,
    ss: Seq<SpriteSource>,
    k: (Seq<char>, Seq<char>),
) -> bool {
    exists|i: int| 0 <= i < ss.len() && k == (pkg, dir_export_name((#[trigger] ss[i]).dir@))
}

pub open spec fn is_own_actor_key(
    pkg: Seq<char>,
    ss: Seq<ActorSource>,
    k: (Seq<char>, Seq<char>),
) -> bool {
    exists|i: int| 0 <= i < ss.len() && k == (pkg, dir_export_name((#[trigger] ss[i]).dir@))
}

pub open spec fn is_own_text_key(
    pkg: Seq<char>,
    ts: Seq<TextSource>,
    k: (Seq<char>, Seq<char>),
) -> bool {
    exists|i: int, b: int| 0 <= i < ts.len()
        && 0 <= b < crate::script::script_blocks_spec(ts[i].source@).len()
        && k == (pkg, crate::script::named_name(
            #[trigger] crate::script::script_blocks_spec(ts[i].source@)[b][0].1))
}

/// A stored dependency record: the package with its registries drained into
/// the owner's.
pub open spec fn dep_husk_of(h: Package, d: Package) -> bool {
    &&& h.dir == d.dir
    &&& h.manifest == d.manifest
    &&& h.dependencies == d.dependencies
    &&& h.sprites.entries@.len() == 0
    &&& h.actors.entries@.len() == 0
    &&& h.texts.entries@.len() == 0
}

impl Package {
    pub open spec fn wf(&self) -> bool {
        &&& self.sprites.wf()
        &&& self.actors.wf()
        &&& self.texts.wf()
    }

    /// Creates a fresh package value with the given name: version 0.1.0, no
    /// dependencies, empty registries.  The name must pass the package-name
    /// rule.
    pub fn new(dir: String, name: String) -> (r: Result<Package, PackageNameError>)
        ensures
            r is Ok <==> crate::sanitize::package_name_ok(name@),
            r matches Ok(p) ==> p.dir == dir && p.manifest.name == name
                && p.manifest.version.major == 0 && p.manifest.version.minor == 1
                && p.manifest.version.patch == 0 && p.manifest.version.pre@.len() == 0
                && p.manifest.version.build@.len() == 0
                && p.manifest.dependencies@.len() == 0 && p.dependencies@.len() == 0
                && p.sprites.entries@.len() == 0 && p.actors.entries@.len() == 0
                && p.texts.entries@.len() == 0,
            r matches Err(e) ==> Some(e.fault()) == package_name_fault(name@)
                && e.arg() == name@,
    {
        match sanitize::package_name(name.as_str()) {
            Ok(()) => {},
            Err(e) => {
                return Err(e);
            },
        }
        Ok(Package {
            dir,
            manifest: Manifest {
                name,
                version: Version::initial(),
                dependencies: Vec::new(),
            },
            dependencies: Vec::new(),
            sprites: Registry::new(),
            actors: Registry::new(),
            texts: Registry::new(),
        })
    }

    pub fn name(&self) -> (r: &str)
        ensures
            r@ == self.manifest.name@,
    {
        self.manifest.name.as_str()
    }
}

/// What an actor-load error says of its source.
pub open spec fn actor_fault_matches(e: ActorLoadError, s: ActorSource, src: Seq<char>) -> bool {
    match e {
        ActorLoadError::Id(pe) => {
            ||| !crate::id::parse_ok(s.name@, src) && crate::id::parse_fault(s.name@, src, pe)
            ||| crate::id::parse_ok(s.name@, src) && !crate::id::parse_ok(s.tattle@, src)
                && crate::id::parse_fault(s.tattle@, src, pe)
        },
        ActorLoadError::Name(ne) => crate::id::parse_ok(s.name@, src)
            && crate::id::parse_ok(s.tattle@, src)
            && Some(ne.fault()) == crate::sanitize::generic_name_fault(dir_export_name(s.dir@))
            && ne.arg() == dir_export_name(s.dir@),
    }
}

/// What a text-load error says of its source file.
pub open spec fn text_fault_matches(e: text::LoadError, s: TextSource) -> bool {
    crate::text::first_text_fault(crate::script::script_blocks_spec(s.source@), 0)
        matches Some(b) && {
        let blk = crate::script::script_blocks_spec(s.source@)[b];
        match e {
            text::LoadError::DisallowedBlockKind { file, line } =>
                !crate::script::is_string_named(blk[0].1) && file@ == s.path@
                    && line == blk[0].0,
            text::LoadError::BadName { file, line, error } =>
                crate::script::is_string_named(blk[0].1)
                    && Some(error.fault()) == crate::sanitize::generic_name_fault(
                        crate::script::named_name(blk[0].1))
                    && error.arg() == crate::script::named_name(blk[0].1) && file@ == s.path@
                    && line == blk[0].0,
        }
    }
}

/// A sprite-source name that no other source uses.
pub open spec fn unique_sprite_name(ss: Seq<SpriteSource>, i: int) -> bool {
    forall|j: int| 0 <= j < ss.len() && j != i
        ==> dir_export_name((#[trigger] ss[j]).dir@) != dir_export_name(ss[i].dir@)
}

pub open spec fn unique_actor_name(ss: Seq<ActorSource>, i: int) -> bool {
    forall|j: int| 0 <= j < ss.len() && j != i
        ==> dir_export_name((#[trigger] ss[j]).dir@) != dir_export_name(ss[i].dir@)
}

/// Loads the package's own sprites and inserts each under its identifier,
/// overwriting any inherited entry.
#[verifier::rlimit(30)]
fn insert_own_sprites(reg: &mut Registry<Sprite>, pkg: &str, sources: Vec<SpriteSource>) -> (r:
    Result<(), LoadError>)
    requires
        old(reg).wf(),
    ensures
        final(reg).wf(),
        r is Ok <==> first_sprite_fault(sources@, 0) is None,
        r matches Err(e) ==> e matches LoadError::Sprite { dir, error }
            && (first_sprite_fault(sources@, 0) matches Some(i) && dir == sources@[i].dir
                && (error matches SpriteLoadError::SpriteSheetMissingPaletteList
                    <==> crate::xml::find_child(sources@[i].sheet.children@, "PaletteList"@,
                        0) is None)
                && (error matches SpriteLoadError::SpriteSheetMissingPaletteList
                    || error matches SpriteLoadError::SpriteSheetMissingAnimationList)),
        r is Ok ==> forall|i: int| 0 <= i < sources@.len() ==> final(reg).as_map()
            .contains_key((pkg@, dir_export_name((#[trigger] sources@[i]).dir@))),
        r is Ok ==> forall|i: int| 0 <= i < sources@.len() && unique_sprite_name(sources@, i)
            ==> sprite_of_source(final(reg).as_map()[
                (pkg@, dir_export_name((#[trigger] sources@[i]).dir@))], sources@[i]),
        r is Ok ==> forall|k: (Seq<char>, Seq<char>)|
            #[trigger] final(reg).as_map().contains_key(k)
            ==> is_own_sprite_key(pkg@, sources@, k)
                || (old(reg).as_map().contains_key(k) && final(reg).as_map()[k]
                    == old(reg).as_map()[k]),
        r is Ok ==> forall|k: (Seq<char>, Seq<char>)|
            #[trigger] old(reg).as_map().contains_key(k)
            ==> final(reg).as_map().contains_key(k),
{
    let ghost sv = sources@;
    let mut rest = sources;
    let n0 = rest.len();
    assert(sv.len() == n0);
    let mut i: usize = 0;
    let ghost mut own_g: Seq<(Identifier, Sprite)> = Seq::empty();
    proof {
        assert(rest@ =~= sv.skip(0));
        assert(crate::registry::map_of(own_g) =~= Map::<(Seq<char>, Seq<char>),
            Sprite>::empty());
        assert(reg.as_map() =~= old(reg).as_map().union_prefer_right(
            crate::registry::map_of(own_g)));
    }
    while rest.len() > 0
        invariant
            sv == sources@,
            sv.len() == n0,
            i <= sv.len(),
            rest@ == sv.skip(i as int),
            reg.wf(),
            first_sprite_fault(sv, 0) == first_sprite_fault(sv, i as int),
            own_g.len() == i,
            forall|x: int| 0 <= x < i ==> (#[trigger] own_g[x]).0.key()
                == (pkg@, dir_export_name(sv[x].dir@))
                && sprite_of_source(own_g[x].1, sv[x]),
            reg.as_map() == old(reg).as_map().union_prefer_right(
                crate::registry::map_of(own_g)),
        decreases rest@.len(),
    {
        let s = rest.remove(0);
        proof {
            assert(sv.skip(i as int)[0] == sv[i as int]);
            assert(sv.skip(i as int).drop_first() =~= sv.skip(i as int + 1));
        }
        let local = crate::strutil::suffix_after_last(s.dir.as_str(), '/');
        let err_dir = s.dir.clone();
        let SpriteSource { dir: sdir, sheet } = s;
        let sprite = match Sprite::load(sdir, &sheet) {
            Ok(sp) => sp,
            Err(error) => {
                assert(first_sprite_fault(sv, i as int) == Some(i as int));
                return Err(LoadError::Sprite { dir: err_dir, error });
            },
        };
        let id = Identifier::new(pkg, local.as_str());
        assert(id.key() == (pkg@, dir_export_name(sv[i as int].dir@)));
        assert(sprite_of_source(sprite, sv[i as int]));
        let ghost id_g = id;
        let ghost v_g = sprite;
        let ghost pre_map = reg.as_map();
        let ghost pre_g = own_g;
        reg.insert(id, sprite);
        proof {
            own_g = pre_g.push((id_g, v_g));
            assert(crate::registry::map_of(own_g) =~= crate::registry::map_of(pre_g).insert(
                id_g.key(), v_g)) by {
                assert(own_g.drop_last() =~= pre_g);
            }
            assert(reg.as_map() =~= old(reg).as_map().union_prefer_right(
                crate::registry::map_of(own_g)));
        }
        i = i + 1;
    }
    proof {
        assert forall|x: int| 0 <= x < sv.len() implies reg.as_map().contains_key(
            (pkg@, dir_export_name((#[trigger] sv[x]).dir@))) by {
            crate::registry::lemma_map_of_contains(own_g, (pkg@, dir_export_name(sv[x].dir@)));
            assert(own_g[x].0.key() == (pkg@, dir_export_name(sv[x].dir@)));
        }
        assert forall|x: int| 0 <= x < sv.len() && unique_sprite_name(sv, x) implies
            sprite_of_source(reg.as_map()[(pkg@, dir_export_name((#[trigger] sv[x]).dir@))],
                sv[x]) by {
            assert forall|j: int| 0 <= j < own_g.len() && j != x implies
                (#[trigger] own_g[j]).0.key() != own_g[x].0.key() by {
                assert(dir_export_name(sv[j].dir@) != dir_export_name(sv[x].dir@));
            }
            crate::registry::lemma_map_of_sole(own_g, x);
        }
        assert forall|k: (Seq<char>, Seq<char>)| #[trigger] reg.as_map().contains_key(k)
            implies is_own_sprite_key(pkg@, sv, k) || (old(reg).as_map().contains_key(k)
                && reg.as_map()[k] == old(reg).as_map()[k]) by {
            crate::registry::lemma_map_of_contains(own_g, k);
            if crate::registry::map_of(own_g).contains_key(k) {
                let x = choose|x: int| 0 <= x < own_g.len()
                    && (#[trigger] own_g[x]).0.key() == k;
                assert(is_own_sprite_key(pkg@, sv, k));
            }
        }
        assert forall|k: (Seq<char>, Seq<char>)| #[trigger] old(reg).as_map().contains_key(k)
            implies reg.as_map().contains_key(k) by {}
    }
    Ok(())
}

#[verifier::rlimit(30)]
fn insert_own_actors(reg: &mut Registry<Actor>, pkg: &str, sources: Vec<ActorSource>) -> (r:
    Result<(), LoadError>)
    requires
        old(reg).wf(),
    ensures
        final(reg).wf(),
        r is Ok <==> first_actor_fault(sources@, pkg@, 0) is None,
        r matches Err(e) ==> e matches LoadError::Actor(ae)
            && (first_actor_fault(sources@, pkg@, 0) matches Some(i)
                && actor_fault_matches(ae, sources@[i], pkg@)),
        r is Ok ==> forall|i: int| 0 <= i < sources@.len() ==> final(reg).as_map()
            .contains_key((pkg@, dir_export_name((#[trigger] sources@[i]).dir@))),
        r is Ok ==> forall|i: int| 0 <= i < sources@.len() && unique_actor_name(sources@, i)
            ==> actor_of_source(final(reg).as_map()[
                (pkg@, dir_export_name((#[trigger] sources@[i]).dir@))], sources@[i], pkg@),
        r is Ok ==> forall|k: (Seq<char>, Seq<char>)|
            #[trigger] final(reg).as_map().contains_key(k)
            ==> is_own_actor_key(pkg@, sources@, k)
                || (old(reg).as_map().contains_key(k) && final(reg).as_map()[k]
                    == old(reg).as_map()[k]),
        r is Ok ==> forall|k: (Seq<char>, Seq<char>)|
            #[trigger] old(reg).as_map().contains_key(k)
            ==> final(reg).as_map().contains_key(k),
{
    let ghost sv = sources@;
    let mut rest = sources;
    let n0 = rest.len();
    assert(sv.len() == n0);
    let mut i: usize = 0;
    let ghost mut own_g: Seq<(Identifier, Actor)> = Seq::empty();
    proof {
        assert(rest@ =~= sv.skip(0));
        assert(crate::registry::map_of(own_g) =~= Map::<(Seq<char>, Seq<char>),
            Actor>::empty());
        assert(reg.as_map() =~= old(reg).as_map().union_prefer_right(
            crate::registry::map_of(own_g)));
    }
    while rest.len() > 0
        invariant
            sv == sources@,
            sv.len() == n0,
            i <= sv.len(),
            rest@ == sv.skip(i as int),
            reg.wf(),
            first_actor_fault(sv, pkg@, 0) == first_actor_fault(sv, pkg@, i as int),
            own_g.len() == i,
            forall|x: int| 0 <= x < i ==> (#[trigger] own_g[x]).0.key()
                == (pkg@, dir_export_name(sv[x].dir@))
                && actor_of_source(own_g[x].1, sv[x], pkg@),
            reg.as_map() == old(reg).as_map().union_prefer_right(
                crate::registry::map_of(own_g)),
        decreases rest@.len(),
    {
        let s = rest.remove(0);
        proof {
            assert(sv.skip(i as int)[0] == sv[i as int]);
            assert(sv.skip(i as int).drop_first() =~= sv.skip(i as int + 1));
        }
        let local = crate::strutil::suffix_after_last(s.dir.as_str(), '/');
        let ActorSource { dir: adir, name, tattle, script_source } = s;
        let actor = match Actor::load(pkg, adir, name.as_str(), tattle.as_str(),
            script_source) {
            Ok(a) => a,
            Err(ae) => {
                assert(first_actor_fault(sv, pkg@, i as int) == Some(i as int));
                return Err(LoadError::Actor(ae));
            },
        };
        let id = Identifier::new(pkg, local.as_str());
        assert(id.key() == (pkg@, dir_export_name(sv[i as int].dir@)));
        assert(actor_of_source(actor, sv[i as int], pkg@));
        let ghost id_g = id;
        let ghost v_g = actor;
        let ghost pre_map = reg.as_map();
        let ghost pre_g = own_g;
        reg.insert(id, actor);
        proof {
            own_g = pre_g.push((id_g, v_g));
            assert(crate::registry::map_of(own_g) =~= crate::registry::map_of(pre_g).insert(
                id_g.key(), v_g)) by {
                assert(own_g.drop_last() =~= pre_g);
            }
            assert(reg.as_map() =~= old(reg).as_map().union_prefer_right(
                crate::registry::map_of(own_g)));
        }
        i = i + 1;
    }
    proof {
        assert forall|x: int| 0 <= x < sv.len() implies reg.as_map().contains_key(
            (pkg@, dir_export_name((#[trigger] sv[x]).dir@))) by {
            crate::registry::lemma_map_of_contains(own_g, (pkg@, dir_export_name(sv[x].dir@)));
            assert(own_g[x].0.key() == (pkg@, dir_export_name(sv[x].dir@)));
        }
        assert forall|x: int| 0 <= x < sv.len() && unique_actor_name(sv, x) implies
            actor_of_source(reg.as_map()[(pkg@, dir_export_name((#[trigger] sv[x]).dir@))],
                sv[x], pkg@) by {
            assert forall|j: int| 0 <= j < own_g.len() && j != x implies
                (#[trigger] own_g[j]).0.key() != own_g[x].0.key() by {
                assert(dir_export_name(sv[j].dir@) != dir_export_name(sv[x].dir@));
            }
            crate::registry::lemma_map_of_sole(own_g, x);
        }
        assert forall|k: (Seq<char>, Seq<char>)| #[trigger] reg.as_map().contains_key(k)
            implies is_own_actor_key(pkg@, sv, k) || (old(reg).as_map().contains_key(k)
                && reg.as_map()[k] == old(reg).as_map()[k]) by {
            crate::registry::lemma_map_of_contains(own_g, k);
            if crate::registry::map_of(own_g).contains_key(k) {
                let x = choose|x: int| 0 <= x < own_g.len()
                    && (#[trigger] own_g[x]).0.key() == k;
                assert(is_own_actor_key(pkg@, sv, k));
            }
        }
        assert forall|k: (Seq<char>, Seq<char>)| #[trigger] old(reg).as_map().contains_key(k)
            implies reg.as_map().contains_key(k) by {}
    }
    Ok(())
}



/// The export name the `b`-th block of the `i`-th string file declares.
pub open spec fn own_text_name(ts: Seq<TextSource>, i: int, b: int) -> Seq<char> {
    crate::script::named_name(crate::script::script_blocks_spec(ts[i].source@)[b][0].1)
}

/// A text name that no other block of any of the package's string files
/// declares.
pub open spec fn unique_text_name(ts: Seq<TextSource>, i: int, b: int) -> bool {
    forall|i2: int, b2: int| 0 <= i2 < ts.len()
        && 0 <= b2 < crate::script::script_blocks_spec(ts[i2].source@).len()
        && !(i2 == i && b2 == b)
        ==> #[trigger] own_text_name(ts, i2, b2) != own_text_name(ts, i, b)
}

/// An own-registry text entry that block `(i2, b2)` of the string files
/// produced.
pub open spec fn text_entry_of(
    e: (Identifier, Text),
    pkg: Seq<char>,
    ts: Seq<TextSource>,
    i2: int,
    b2: int,
) -> bool {
    &&& 0 <= i2 < ts.len()
    &&& 0 <= b2 < crate::script::script_blocks_spec(ts[i2].source@).len()
    &&& e.0.key() == (pkg, own_text_name(ts, i2, b2))
    &&& crate::text::text_of_block(e.1, crate::script::script_blocks_spec(ts[i2].source@)[b2])
}

/// Reads the package's own string files and inserts every text under its
/// identifier, overwriting any inherited entry.
#[verifier::rlimit(50)]
fn insert_own_texts(reg: &mut Registry<Text>, pkg: &str, sources: Vec<TextSource>) -> (r:
    Result<(), LoadError>)
    requires
        old(reg).wf(),
    ensures
        final(reg).wf(),
        r is Ok <==> first_text_file_fault(sources@, 0) is None,
        r matches Err(e) ==> e matches LoadError::Text(te)
            && (first_text_file_fault(sources@, 0) matches Some(i)
                && text_fault_matches(te, sources@[i])),
        r is Ok ==> forall|i: int, b: int| 0 <= i < sources@.len()
            && 0 <= b < crate::script::script_blocks_spec(sources@[i].source@).len()
            ==> final(reg).as_map().contains_key(
                (pkg@, #[trigger] own_text_name(sources@, i, b))),
        r is Ok ==> forall|k: (Seq<char>, Seq<char>)|
            #[trigger] final(reg).as_map().contains_key(k)
            ==> is_own_text_key(pkg@, sources@, k)
                || (old(reg).as_map().contains_key(k) && final(reg).as_map()[k]
                    == old(reg).as_map()[k]),
        r is Ok ==> forall|k: (Seq<char>, Seq<char>)|
            #[trigger] old(reg).as_map().contains_key(k)
            ==> final(reg).as_map().contains_key(k),
{
    let ghost sv = sources@;
    let mut rest = sources;
    let n0 = rest.len();
    assert(sv.len() == n0);
    let mut i: usize = 0;
    let ghost mut own_g: Seq<(Identifier, Text)> = Seq::empty();
    proof {
        assert(rest@ =~= sv.skip(0));
        assert(crate::registry::map_of(own_g) =~= Map::<(Seq<char>, Seq<char>),
            Text>::empty());
        assert(reg.as_map() =~= old(reg).as_map().union_prefer_right(
            crate::registry::map_of(own_g)));
    }
    while rest.len() > 0
        invariant
            sv == sources@,
            sv.len() == n0,
            i <= sv.len(),
            rest@ == sv.skip(i as int),
            reg.wf(),
            first_text_file_fault(sv, 0) == first_text_file_fault(sv, i as int),
            forall|x: int| 0 <= x < own_g.len()
                ==> is_own_text_key(pkg@, sv, (#[trigger] own_g[x]).0.key()),
            forall|i2: int, b2: int| 0 <= i2 < i
                && 0 <= b2 < crate::script::script_blocks_spec(sv[i2].source@).len()
                ==> reg.as_map().contains_key((pkg@, #[trigger] own_text_name(sv, i2, b2))),
            reg.as_map() == old(reg).as_map().union_prefer_right(
                crate::registry::map_of(own_g)),
        decreases rest@.len(),
    {
        let s = rest.remove(0);
        proof {
            assert(sv.skip(i as int)[0] == sv[i as int]);
            assert(sv.skip(i as int).drop_first() =~= sv.skip(i as int + 1));
        }
        let TextSource { path, source } = s;
        let ghost blocks_i = crate::script::script_blocks_spec(source@);
        let ts = match Text::load_many(pkg, path, source.as_str()) {
            Ok(ts) => ts,
            Err(te) => {
                assert(first_text_file_fault(sv, i as int) == Some(i as int));
                return Err(LoadError::Text(te));
            },
        };
        let m = ts.len();
        assert(blocks_i.len() == m);
        let ghost tv = ts@;
        let mut trest = ts;
        let mut b: usize = 0;
        assert(trest@ =~= tv.skip(0));
        while trest.len() > 0
            invariant
                sv == sources@,
                sv.len() == n0,
                i < sv.len(),
                blocks_i == crate::script::script_blocks_spec(sv[i as int].source@),
                tv.len() == m,
                m == blocks_i.len(),
                m <= usize::MAX,
                forall|b2: int| 0 <= b2 < m ==> crate::text::text_of_block(
                    #[trigger] tv[b2], blocks_i[b2]),
                b <= m,
                trest@ == tv.skip(b as int),
                reg.wf(),
                forall|x: int| 0 <= x < own_g.len()
                    ==> is_own_text_key(pkg@, sv, (#[trigger] own_g[x]).0.key()),
                forall|i2: int, b2: int| 0 <= i2 < i
                    && 0 <= b2 < crate::script::script_blocks_spec(sv[i2].source@).len()
                    ==> reg.as_map().contains_key(
                        (pkg@, #[trigger] own_text_name(sv, i2, b2))),
                forall|b2: int| 0 <= b2 < b ==> reg.as_map().contains_key(
                    (pkg@, #[trigger] own_text_name(sv, i as int, b2))),
                reg.as_map() == old(reg).as_map().union_prefer_right(
                    crate::registry::map_of(own_g)),
            decreases trest@.len(),
        {
            let t = trest.remove(0);
            proof {
                assert(tv.skip(b as int)[0] == tv[b as int]);
                assert(tv.skip(b as int).drop_first() =~= tv.skip(b as int + 1));
            }
            let id = Identifier::new(pkg, t.name.as_str());
            assert(id.key() == (pkg@, own_text_name(sv, i as int, b as int)));
            let ghost id_g = id;
            let ghost v_g = t;
            let ghost pre_g = own_g;
            reg.insert(id, t);
            proof {
                own_g = pre_g.push((id_g, v_g));
                assert(is_own_text_key(pkg@, sv, id_g.key()));
                assert forall|x: int| 0 <= x < own_g.len() implies is_own_text_key(
                    pkg@, sv, (#[trigger] own_g[x]).0.key()) by {
                    if x < own_g.len() - 1 {
                        assert(own_g[x] == pre_g[x]);
                    }
                }
                assert(crate::registry::map_of(own_g) =~= crate::registry::map_of(
                    pre_g).insert(id_g.key(), v_g)) by {
                    assert(own_g.drop_last() =~= pre_g);
                }
                assert(reg.as_map() =~= old(reg).as_map().union_prefer_right(
                    crate::registry::map_of(own_g)));
            }
            b = b + 1;
        }
        i = i + 1;
    }
    proof {
        assert forall|k: (Seq<char>, Seq<char>)| #[trigger] reg.as_map().contains_key(k)
            implies is_own_text_key(pkg@, sv, k) || (old(reg).as_map().contains_key(k)
                && reg.as_map()[k] == old(reg).as_map()[k]) by {
            crate::registry::lemma_map_of_contains(own_g, k);
            if crate::registry::map_of(own_g).contains_key(k) {
                let x = choose|x: int| 0 <= x < own_g.len()
                    && (#[trigger] own_g[x]).0.key() == k;
            }
        }
        assert forall|k: (Seq<char>, Seq<char>)| #[trigger] old(reg).as_map().contains_key(k)
            implies reg.as_map().contains_key(k) by {}
    }
    Ok(())
}


impl Package {
    /// Loads a package from its in-memory parts: an already validated
    /// manifest, its declared dependencies already loaded in declaration
    /// order, and its own sprite, actor and string sources.  Dependencies
    /// are flattened and deduplicated (a name occurring with two different
    /// versions fails the load), their registries are folded together with
    /// a later dependency winning ties, and the package's own exports are
    /// inserted last, overriding inherited entries with the same key.
    #[verifier::rlimit(50)]
    pub fn load(
        dir: String,
        manifest: Manifest,
        deps: Vec<Package>,
        sprites: Vec<SpriteSource>,
        actors: Vec<ActorSource>,
        texts: Vec<TextSource>,
    ) -> (r: Result<Package, LoadError>)
        ensures
            r matches Err(LoadError::MultiDependencyVersionMismatch)
                <==> has_conflict(flat_infos(deps@)),
            r matches Err(LoadError::Sprite { dir: d, error }) ==> !has_conflict(flat_infos(
                deps@)) && (first_sprite_fault(sprites@, 0) matches Some(i)
                && d == sprites@[i].dir
                && (error matches SpriteLoadError::SpriteSheetMissingPaletteList
                    <==> crate::xml::find_child(sprites@[i].sheet.children@, "PaletteList"@,
                        0) is None)),
            r matches Err(LoadError::Actor(ae)) ==> !has_conflict(flat_infos(deps@))
                && first_sprite_fault(sprites@, 0) is None
                && (first_actor_fault(actors@, manifest.name@, 0) matches Some(i)
                    && actor_fault_matches(ae, actors@[i], manifest.name@)),
            r matches Err(LoadError::Text(te)) ==> !has_conflict(flat_infos(deps@))
                && first_sprite_fault(sprites@, 0) is None
                && first_actor_fault(actors@, manifest.name@, 0) is None
                && (first_text_file_fault(texts@, 0) matches Some(i)
                    && text_fault_matches(te, texts@[i])),
            r matches Err(e) ==> (e matches LoadError::MultiDependencyVersionMismatch
                || e matches LoadError::Sprite { dir, error }
                || e matches LoadError::Actor(_) || e matches LoadError::Text(_)),
            r is Ok <==> !has_conflict(flat_infos(deps@))
                && first_sprite_fault(sprites@, 0) is None
                && first_actor_fault(actors@, manifest.name@, 0) is None
                && first_text_file_fault(texts@, 0) is None,
            r matches Ok(p) ==> {
                let pkg = manifest.name@;
                &&& p.dir == dir
                &&& p.manifest == manifest
                &&& p.wf()
                &&& infos_of(p.dependencies@) == dedup_infos(flat_infos(deps@), 0)
                &&& forall|i: int| 0 <= i < sprites@.len() ==> p.sprites.as_map()
                    .contains_key((pkg, dir_export_name((#[trigger] sprites@[i]).dir@)))
                &&& forall|i: int| 0 <= i < sprites@.len() && unique_sprite_name(sprites@, i)
                    ==> sprite_of_source(p.sprites.as_map()[
                        (pkg, dir_export_name((#[trigger] sprites@[i]).dir@))], sprites@[i])
                &&& forall|i: int| 0 <= i < actors@.len() ==> p.actors.as_map()
                    .contains_key((pkg, dir_export_name((#[trigger] actors@[i]).dir@)))
                &&& forall|i: int| 0 <= i < actors@.len() && unique_actor_name(actors@, i)
                    ==> actor_of_source(p.actors.as_map()[
                        (pkg, dir_export_name((#[trigger] actors@[i]).dir@))], actors@[i],
                        pkg)
                &&& forall|i: int, b: int| 0 <= i < texts@.len()
                    && 0 <= b < crate::script::script_blocks_spec(texts@[i].source@).len()
                    ==> p.texts.as_map().contains_key(
                        (pkg, #[trigger] own_text_name(texts@, i, b)))
                &&& forall|k: (Seq<char>, Seq<char>)|
                    p.sprites.as_map().contains_key(k) && !is_own_sprite_key(pkg, sprites@, k)
                        ==> pop_sprite(deps@, k, #[trigger] p.sprites.as_map()[k])
                &&& forall|k: (Seq<char>, Seq<char>)|
                    p.actors.as_map().contains_key(k) && !is_own_actor_key(pkg, actors@, k)
                        ==> pop_actor(deps@, k, #[trigger] p.actors.as_map()[k])
                &&& forall|k: (Seq<char>, Seq<char>)|
                    p.texts.as_map().contains_key(k) && !is_own_text_key(pkg, texts@, k)
                        ==> pop_text(deps@, k, #[trigger] p.texts.as_map()[k])
            },
    {
        let ghost deps_v = deps@;
        let flat = flatten_dependencies(deps);
        let ghost flat_v = flat@;
        let kept = match dedup_dependencies(flat) {
            Ok(k) => k,
            Err(e) => {
                assert(e matches LoadError::MultiDependencyVersionMismatch);
                assert(infos_of(flat_v) == flat_infos(deps_v));
                return Err(e);
            },
        };
        assert(!has_conflict(flat_infos(deps_v)));
        let ghost kept_v = kept@;
        let mut sum_sprites: Registry<Sprite> = Registry::new();
        let mut sum_actors: Registry<Actor> = Registry::new();
        let mut sum_texts: Registry<Text> = Registry::new();
        let mut husks: Vec<Package> = Vec::new();
        let mut rest = kept;
        let n0 = rest.len();
        assert(kept_v.len() == n0);
        let mut j: usize = 0;
        proof {
            assert(rest@ =~= kept_v.skip(0));
            assert(sum_sprites.as_map() =~= fold_sprite_maps(kept_v.take(0)));
            assert(sum_actors.as_map() =~= fold_actor_maps(kept_v.take(0)));
            assert(sum_texts.as_map() =~= fold_text_maps(kept_v.take(0)));
        }
        while rest.len() > 0
            invariant
                kept_v.len() == n0,
                j <= kept_v.len(),
                rest@ == kept_v.skip(j as int),
                sum_sprites.wf(),
                sum_actors.wf(),
                sum_texts.wf(),
                sum_sprites.as_map() == fold_sprite_maps(kept_v.take(j as int)),
                sum_actors.as_map() == fold_actor_maps(kept_v.take(j as int)),
                sum_texts.as_map() == fold_text_maps(kept_v.take(j as int)),
                husks@.len() == j,
                forall|x: int| 0 <= x < j
                    ==> dep_husk_of(#[trigger] husks@[x], kept_v[x]),
            decreases rest@.len(),
        {
            let d = rest.remove(0);
            proof {
                assert(kept_v.skip(j as int)[0] == kept_v[j as int]);
                assert(kept_v.skip(j as int).drop_first() =~= kept_v.skip(j as int + 1));
                assert(d == kept_v[j as int]);
            }
            let Package {
                dir: ddir,
                manifest: dman,
                dependencies: ddeps,
                sprites: dsp,
                actors: dac,
                texts: dtx,
            } = d;
            sum_sprites.merge_from(dsp);
            sum_actors.merge_from(dac);
            sum_texts.merge_from(dtx);
            proof {
                assert(kept_v.take(j as int + 1).drop_last() =~= kept_v.take(j as int));
                assert(kept_v.take(j as int + 1).last() == kept_v[j as int]);
            }
            husks.push(Package {
                dir: ddir,
                manifest: dman,
                dependencies: ddeps,
                sprites: Registry::new(),
                actors: Registry::new(),
                texts: Registry::new(),
            });
            j = j + 1;
        }
        proof {
            assert(kept_v.take(j as int) =~= kept_v);
        }
        let ghost base_sprites = sum_sprites.as_map();
        let ghost base_actors = sum_actors.as_map();
        let ghost base_texts = sum_texts.as_map();
        let ghost sprites_v = sprites@;
        let ghost actors_v = actors@;
        let ghost texts_v = texts@;
        match insert_own_sprites(&mut sum_sprites, manifest.name.as_str(), sprites) {
            Ok(()) => {},
            Err(e) => {
                return Err(e);
            },
        }
        match insert_own_actors(&mut sum_actors, manifest.name.as_str(), actors) {
            Ok(()) => {},
            Err(e) => {
                return Err(e);
            },
        }
        match insert_own_texts(&mut sum_texts, manifest.name.as_str(), texts) {
            Ok(()) => {},
            Err(e) => {
                return Err(e);
            },
        }
        proof {
            let pkg = manifest.name@;
            assert(first_sprite_fault(sprites_v, 0) is None);
            assert(first_actor_fault(actors_v, pkg, 0) is None);
            // Inherited entries trace back to the dependency population.
            assert forall|k: (Seq<char>, Seq<char>)|
                sum_sprites.as_map().contains_key(k) && !is_own_sprite_key(pkg, sprites_v, k)
                implies pop_sprite(deps_v, k, #[trigger] sum_sprites.as_map()[k]) by {
                assert(base_sprites.contains_key(k) && sum_sprites.as_map()[k]
                    == base_sprites[k]);
                lemma_fold_sprite_source(kept_v, k);
                let x = choose|x: int| 0 <= x < kept_v.len()
                    && (#[trigger] kept_v[x]).sprites.as_map().contains_key(k)
                    && fold_sprite_maps(kept_v)[k] == kept_v[x].sprites.as_map()[k];
                lemma_dedup_pkgs_subset(flat_v, 0, x);
                let y = choose|y: int| 0 <= y < flat_v.len() && dedup_pkgs(flat_v, 0)[x]
                    == flat_v[y];
                assert(from_deps(flat_v[y], deps_v));
            }
            assert forall|k: (Seq<char>, Seq<char>)|
                sum_actors.as_map().contains_key(k) && !is_own_actor_key(pkg, actors_v, k)
                implies pop_actor(deps_v, k, #[trigger] sum_actors.as_map()[k]) by {
                assert(base_actors.contains_key(k) && sum_actors.as_map()[k]
                    == base_actors[k]);
                lemma_fold_actor_source(kept_v, k);
                let x = choose|x: int| 0 <= x < kept_v.len()
                    && (#[trigger] kept_v[x]).actors.as_map().contains_key(k)
                    && fold_actor_maps(kept_v)[k] == kept_v[x].actors.as_map()[k];
                lemma_dedup_pkgs_subset(flat_v, 0, x);
                let y = choose|y: int| 0 <= y < flat_v.len() && dedup_pkgs(flat_v, 0)[x]
                    == flat_v[y];
                assert(from_deps(flat_v[y], deps_v));
            }
            assert forall|k: (Seq<char>, Seq<char>)|
                sum_texts.as_map().contains_key(k) && !is_own_text_key(pkg, texts_v, k)
                implies pop_text(deps_v, k, #[trigger] sum_texts.as_map()[k]) by {
                assert(base_texts.contains_key(k) && sum_texts.as_map()[k]
                    == base_texts[k]);
                lemma_fold_text_source(kept_v, k);
                let x = choose|x: int| 0 <= x < kept_v.len()
                    && (#[trigger] kept_v[x]).texts.as_map().contains_key(k)
                    && fold_text_maps(kept_v)[k] == kept_v[x].texts.as_map()[k];
                lemma_dedup_pkgs_subset(flat_v, 0, x);
                let y = choose|y: int| 0 <= y < flat_v.len() && dedup_pkgs(flat_v, 0)[x]
                    == flat_v[y];
                assert(from_deps(flat_v[y], deps_v));
            }
            assert(sprites_v == sprites@ && actors_v == actors@ && texts_v == texts@);
            // The stored dependency records keep the deduplicated identities.
            lemma_dedup_infos_commute(flat_v, 0);
            assert(infos_of(husks@) =~= dedup_infos(flat_infos(deps_v), 0)) by {
                assert(infos_of(husks@).len() == infos_of(kept_v).len());
                assert forall|x: int| 0 <= x < husks@.len() implies infos_of(husks@)[x]
                    == infos_of(kept_v)[x] by {
                    assert(dep_husk_of(husks@[x], kept_v[x]));
                }
            }
        }
        Ok(Package {
            dir,
            manifest,
            dependencies: husks,
            sprites: sum_sprites,
            actors: sum_actors,
            texts: sum_texts,
        })
    }
}


#[derive(Debug, Clone, PartialEq, Eq)]
pub enum AssembleError {
    /// An actor's display-name reference resolves to no text export.
    ActorNameNotFound(crate::text::TextId),
    /// An actor's tattle reference resolves to no text export.
    ActorTattleNotFound(crate::text::TextId),
    /// A script expression failed to resolve.
    Resolve(crate::resolve::ResolveError),
}

impl AssembleError {
    pub open spec fn spec_message(&self) -> Seq<char> {
        match self {
            AssembleError::ActorNameNotFound(id) => "actor name not found: {String:"@
                + id.0.package@ + "/"@ + id.0.name@ + "}"@,
            AssembleError::ActorTattleNotFound(id) => "actor tattle not found: {String:"@
                + id.0.package@ + "/"@ + id.0.name@ + "}"@,
            AssembleError::Resolve(e) => e.spec_message(),
        }
    }

    pub fn message(&self) -> (r: String)
        ensures
            r@ == self.spec_message(),
    {
        match self {
            AssembleError::ActorNameNotFound(id) => {
                let mut r = String::new();
                r.push_str("actor name not found: {String:");
                r.push_str(id.0.package.as_str());
                r.push_str("/");
                r.push_str(id.0.name.as_str());
                r.push_str("}");
                r
            },
            AssembleError::ActorTattleNotFound(id) => {
                let mut r = String::new();
                r.push_str("actor tattle not found: {String:");
                r.push_str(id.0.package.as_str());
                r.push_str("/");
                r.push_str(id.0.name.as_str());
                r.push_str("}");
                r
            },
            AssembleError::Resolve(e) => e.message(),
        }
    }
}

/// The fixed player-sprite block of every sprite table.
pub open spec fn spec_player_block() -> Seq<char> {
    "<PlayerSprites>\n    <Sprite id=\"1\" src=\"01\" name=\"Mario 1\"/>\n    <Sprite id=\"2\" src=\"02\" name=\"Mario 2\"/>\n    <Sprite id=\"3\" src=\"03\" name=\"Mario 3\"/>\n    <Sprite id=\"4\" src=\"04\" name=\"Mario 4\"/>\n    <Sprite id=\"5\" src=\"05\" name=\"Mario 5\"/>\n    <Sprite id=\"6\" src=\"06\" name=\"Mario 6\"/>\n    <Sprite id=\"7\" src=\"07\" name=\"Mario 7\"/>\n    <Sprite id=\"8\" src=\"08\" name=\"Mario 8\"/>\n    <Sprite id=\"9\" src=\"09\" name=\"Mario 9\"/>\n    <Sprite id=\"A\" src=\"0A\" name=\"Peach 1\"/>\n    <Sprite id=\"B\" src=\"0B\" name=\"Peach 2\"/>\n    <Sprite id=\"C\" src=\"0C\" name=\"Peach 3\"/>\n    <Sprite id=\"D\" src=\"0D\" name=\"Peach 4\"/>\n</PlayerSprites>"@
}

/// One NPC row of the sprite table.
pub open spec fn sprite_row(id: Identifier, idx: int) -> Seq<char> {
    "        <Sprite id=\""@ + crate::strutil::spec_hex_pad(idx as nat, 1) + "\" src=\""@
        + crate::strutil::spec_hex_pad(idx as nat, 2) + "\" name=\""@ + id.package@ + "_"@
        + id.name@ + "\"/>"@ + "\n"@
}

pub open spec fn sprite_rows(entries: Seq<(Identifier, Sprite)>, i: int) -> Seq<char>
    decreases entries.len() - i,
{
    if i < 0 || i >= entries.len() {
        Seq::empty()
    } else {
        sprite_row(entries[i].0, i + 1) + sprite_rows(entries, i + 1)
    }
}

/// The whole sprite table: NPC rows in registry order, indices starting at
/// 1, then the fixed player-sprite block.
pub open spec fn sprite_table_spec(entries: Seq<(Identifier, Sprite)>) -> Seq<char> {
    "<?xml version=\"1.0\" encoding=\"UTF-8\" standalone=\"no\"?>"@ + "\n"@
        + "<SpriteTable>"@ + "\n"@ + "    <NpcSprites>"@ + "\n"@ + sprite_rows(entries, 0)
        + "    </NpcSprites>"@ + "\n"@ + spec_player_block() + "\n"@ + "</SpriteTable>"@
}

/// The sprite registry with index `i + 1` assigned to the `i`-th entry.
pub open spec fn assembled_sprites(entries: Seq<(Identifier, Sprite)>) -> Seq<(Identifier, Sprite)> {
    Seq::new(entries.len(), |i: int| (entries[i].0, Sprite {
        assembled_index: Some((i + 1) as u8),
        ..entries[i].1
    }))
}

/// Assigns sprite indices, emits the sprite table, and plans the copy of
/// each sprite's files into its index-named directory.
#[verifier::rlimit(50)]
fn assemble_sprites(reg: &mut Registry<Sprite>, sprites_dir: &str) -> (r: (OutFile, Vec<crate::output::CopyDir>))
    requires
        old(reg).wf(),
        old(reg).entries@.len() <= 255,
    ensures
        final(reg).wf(),
        final(reg).entries@ == assembled_sprites(old(reg).entries@),
        crate::resolve::all_sprites_assembled(*final(reg)),
        r.0.path@ == sprites_dir@ + "/SpriteTable.xml"@,
        r.0.content@ == sprite_table_spec(old(reg).entries@),
        r.1@.len() == old(reg).entries@.len(),
        forall|i: int| 0 <= i < r.1@.len() ==> (#[trigger] r.1@[i]).from@
            == old(reg).entries@[i].1.dir@ && r.1@[i].to@ == sprites_dir@ + "/npc/src/"@
            + crate::strutil::spec_hex_pad((i + 1) as nat, 2),
{
    let ghost orig = old(reg).entries@;
    let mut entries: Vec<(Identifier, Sprite)> = Vec::new();
    core::mem::swap(&mut entries, &mut reg.entries);
    assert(entries@ == orig);
    let n = entries.len();
    let mut xml = String::new();
    xml.push_str("<?xml version=\"1.0\" encoding=\"UTF-8\" standalone=\"no\"?>");
    xml.push_str("\n");
    xml.push_str("<SpriteTable>");
    xml.push_str("\n");
    xml.push_str("    <NpcSprites>");
    xml.push_str("\n");
    let ghost head = xml@;
    let mut copies: Vec<crate::output::CopyDir> = Vec::new();
    let mut done: Vec<(Identifier, Sprite)> = Vec::new();
    let mut rest = entries;
    let mut i: usize = 0;
    proof {
        assert(rest@ =~= orig.skip(0));
        assert(done@ =~= assembled_sprites(orig).take(0));
    }
    while rest.len() > 0
        invariant
            orig.len() == n <= 255,
            i <= n,
            rest@ == orig.skip(i as int),
            done@ == assembled_sprites(orig).take(i as int),
            copies@.len() == i,
            forall|x: int| 0 <= x < i ==> (#[trigger] copies@[x]).from@ == orig[x].1.dir@
                && copies@[x].to@ == sprites_dir@ + "/npc/src/"@
                    + crate::strutil::spec_hex_pad((x + 1) as nat, 2),
            xml@ + sprite_rows(orig, i as int) == head + sprite_rows(orig, 0),
        decreases rest@.len(),
    {
        let (id, mut sp) = rest.remove(0);
        proof {
            assert(orig.skip(i as int)[0] == orig[i as int]);
            assert(orig.skip(i as int).drop_first() =~= orig.skip(i as int + 1));
        }
        let idx = (i + 1) as u8;
        let ghost pre_xml = xml@;
        xml.push_str("        <Sprite id=\"");
        let h1 = crate::strutil::hex_pad(idx as u64, 1);
        xml.push_str(h1.as_str());
        xml.push_str("\" src=\"");
        let h2 = crate::strutil::hex_pad(idx as u64, 2);
        xml.push_str(h2.as_str());
        xml.push_str("\" name=\"");
        xml.push_str(id.package.as_str());
        xml.push_str("_");
        xml.push_str(id.name.as_str());
        xml.push_str("\"/>");
        xml.push_str("\n");
        proof {
            assert(xml@ =~= pre_xml + sprite_row(orig[i as int].0, i as int + 1));
            assert(xml@ + sprite_rows(orig, i as int + 1) =~= head + sprite_rows(orig, 0));
        }
        let mut to_dir = sprites_dir.to_owned();
        to_dir.push_str("/npc/src/");
        let h3 = crate::strutil::hex_pad(idx as u64, 2);
        to_dir.push_str(h3.as_str());
        let copy = sp.assemble(to_dir.as_str(), idx);
        copies.push(copy);
        done.push((id, sp));
        proof {
            assert(done@ =~= assembled_sprites(orig).take(i as int + 1));
        }
        i = i + 1;
    }
    xml.push_str("    </NpcSprites>");
    xml.push_str("\n");
    xml.push_str("<PlayerSprites>\n    <Sprite id=\"1\" src=\"01\" name=\"Mario 1\"/>\n    <Sprite id=\"2\" src=\"02\" name=\"Mario 2\"/>\n    <Sprite id=\"3\" src=\"03\" name=\"Mario 3\"/>\n    <Sprite id=\"4\" src=\"04\" name=\"Mario 4\"/>\n    <Sprite id=\"5\" src=\"05\" name=\"Mario 5\"/>\n    <Sprite id=\"6\" src=\"06\" name=\"Mario 6\"/>\n    <Sprite id=\"7\" src=\"07\" name=\"Mario 7\"/>\n    <Sprite id=\"8\" src=\"08\" name=\"Mario 8\"/>\n    <Sprite id=\"9\" src=\"09\" name=\"Mario 9\"/>\n    <Sprite id=\"A\" src=\"0A\" name=\"Peach 1\"/>\n    <Sprite id=\"B\" src=\"0B\" name=\"Peach 2\"/>\n    <Sprite id=\"C\" src=\"0C\" name=\"Peach 3\"/>\n    <Sprite id=\"D\" src=\"0D\" name=\"Peach 4\"/>\n</PlayerSprites>");
    xml.push_str("\n");
    xml.push_str("</SpriteTable>");
    reg.entries = done;
    proof {
        assert(sprite_rows(orig, i as int) =~= Seq::<char>::empty());
        assert(xml@ =~= sprite_table_spec(orig));
        assert(final(reg).entries@ =~= assembled_sprites(orig));
        let es = reg.entries@;
        assert forall|a: int, b: int| 0 <= a < b < es.len() implies
            (#[trigger] es[a]).0.key() != (#[trigger] es[b]).0.key() by {
            assert(es[a].0 == orig[a].0 && es[b].0 == orig[b].0);
        }
    }
    let mut path = sprites_dir.to_owned();
    path.push_str("/SpriteTable.xml");
    (OutFile { path, content: xml }, copies)
}

/// How many of the first `i` texts share the section `sec`.
pub open spec fn sec_count(entries: Seq<(Identifier, Text)>, sec: int, i: int) -> int
    decreases i,
{
    if i <= 0 {
        0
    } else {
        sec_count(entries, sec, i - 1) + if entries[i - 1].1.section == sec { 1int } else { 0int }
    }
}

/// The text registry with each text's in-section index assigned.
pub open spec fn assembled_texts(entries: Seq<(Identifier, Text)>) -> Seq<(Identifier, Text)> {
    Seq::new(entries.len(), |i: int| (entries[i].0, Text {
        assembled_index: Some(sec_count(entries, entries[i].1.section as int, i) as u16),
        ..entries[i].1
    }))
}

/// The output file of the `i`-th text.
pub open spec fn text_file_spec(
    entries: Seq<(Identifier, Text)>,
    strings_dir: Seq<char>,
    i: int,
) -> (Seq<char>, Seq<char>) {
    let t = entries[i].1;
    let idx = sec_count(entries, t.section as int, i);
    (strings_dir + "/"@ + crate::strutil::spec_hex_pad(t.section as nat, 4)
        + crate::strutil::spec_hex_pad(idx as nat, 4) + ".str"@,
    "#string:"@ + crate::strutil::spec_hex_pad(t.section as nat, 2) + ":"@
        + crate::strutil::spec_hex_pad(idx as nat, 3) + "\n"@ + t.string@)
}

/// Assigns each text the next free index in its section and emits one
/// output file per text.
#[verifier::rlimit(50)]
fn assemble_strings(reg: &mut Registry<Text>, strings_dir: &str) -> (r: Vec<OutFile>)
    requires
        old(reg).wf(),
        old(reg).entries@.len() < 0xffff,
        forall|i: int| 0 <= i < old(reg).entries@.len()
            ==> (#[trigger] old(reg).entries@[i]).1.section < 255,
    ensures
        final(reg).wf(),
        final(reg).entries@ == assembled_texts(old(reg).entries@),
        crate::resolve::all_texts_assembled(*final(reg)),
        r@.len() == old(reg).entries@.len(),
        forall|i: int| 0 <= i < r@.len() ==> ((#[trigger] r@[i]).path@, r@[i].content@)
            == text_file_spec(old(reg).entries@, strings_dir@, i),
{
    let ghost orig = old(reg).entries@;
    let mut entries: Vec<(Identifier, Text)> = Vec::new();
    core::mem::swap(&mut entries, &mut reg.entries);
    assert(entries@ == orig);
    let n = entries.len();
    let mut counters: Vec<u16> = vec![0u16; 255];
    let mut files: Vec<OutFile> = Vec::new();
    let mut done: Vec<(Identifier, Text)> = Vec::new();
    let mut rest = entries;
    let mut i: usize = 0;
    proof {
        assert(rest@ =~= orig.skip(0));
        assert(done@ =~= assembled_texts(orig).take(0));
        assert forall|sec: int| 0 <= sec < 255 implies counters@[sec]
            == sec_count(orig, sec, 0) by {}
    }
    while rest.len() > 0
        invariant
            orig.len() == n < 0xffff,
            forall|x: int| 0 <= x < n ==> (#[trigger] orig[x]).1.section < 255,
            i <= n,
            rest@ == orig.skip(i as int),
            counters@.len() == 255,
            forall|sec: int| 0 <= sec < 255 ==> (#[trigger] counters@[sec])
                == sec_count(orig, sec, i as int),
            done@ == assembled_texts(orig).take(i as int),
            files@.len() == i,
            forall|x: int| 0 <= x < i ==> (((#[trigger] files@[x]).path@, files@[x].content@)
                == text_file_spec(orig, strings_dir@, x)),
        decreases rest@.len(),
    {
        let (id, mut t) = rest.remove(0);
        proof {
            assert(orig.skip(i as int)[0] == orig[i as int]);
            assert(orig.skip(i as int).drop_first() =~= orig.skip(i as int + 1));
        }
        let sec = t.section as usize;
        let idx = counters[sec];
        proof {
            lemma_sec_count_bound(orig, sec as int, i as int);
        }
        let file = t.assemble(strings_dir, idx);
        files.push(file);
        counters[sec] = idx + 1;
        done.push((id, t));
        proof {
            assert forall|s2: int| 0 <= s2 < 255 implies (#[trigger] counters@[s2])
                == sec_count(orig, s2, i as int + 1) by {}
            assert(done@ =~= assembled_texts(orig).take(i as int + 1));
        }
        i = i + 1;
    }
    reg.entries = done;
    proof {
        assert(final(reg).entries@ =~= assembled_texts(orig));
        let es = reg.entries@;
        assert forall|a: int, b: int| 0 <= a < b < es.len() implies
            (#[trigger] es[a]).0.key() != (#[trigger] es[b]).0.key() by {
            assert(es[a].0 == orig[a].0 && es[b].0 == orig[b].0);
        }
    }
    files
}

/// A section's running counter never exceeds the number of texts seen.
proof fn lemma_sec_count_bound(entries: Seq<(Identifier, Text)>, sec: int, i: int)
    requires
        0 <= i <= entries.len(),
    ensures
        0 <= sec_count(entries, sec, i) <= i,
    decreases i,
{
    if i > 0 {
        lemma_sec_count_bound(entries, sec, i - 1);
    }
}


/// The combined section and index code of an assembled text.
pub open spec fn text_code(t: Text) -> Seq<char> {
    crate::strutil::spec_hex_pad(t.section as nat, 4) + crate::strutil::spec_hex_pad(
        t.assembled_index->Some_0 as nat, 4)
}

/// One row of the actor table: the actor's index and the codes of its
/// display-name and tattle texts.
pub open spec fn actor_row(
    a: Actor,
    idx: int,
    tmap: Map<(Seq<char>, Seq<char>), Text>,
) -> Seq<char> {
    "   <Actor id=\""@ + crate::strutil::spec_hex_pad(idx as nat, 2) + "\" name=\""@
        + text_code(tmap[a.name.0.key()]) + "\" tattle=\""@ + text_code(tmap[a.tattle.0.key()])
        + "\"/>"@ + "\n"@
}

pub open spec fn actor_rows(
    entries: Seq<(Identifier, Actor)>,
    i: int,
    tmap: Map<(Seq<char>, Seq<char>), Text>,
) -> Seq<char>
    decreases entries.len() - i,
{
    if i < 0 || i >= entries.len() {
        Seq::empty()
    } else {
        actor_row(entries[i].1, i, tmap) + actor_rows(entries, i + 1, tmap)
    }
}

pub open spec fn actor_table_spec(
    entries: Seq<(Identifier, Actor)>,
    tmap: Map<(Seq<char>, Seq<char>), Text>,
) -> Seq<char> {
    "<?xml version=\"1.0\" encoding=\"UTF-8\" standalone=\"no\"?>"@ + "\n"@
        + "<ActorTypes>"@ + "\n"@ + actor_rows(entries, 0, tmap) + "</ActorTypes>"@
}

/// The actor registry with index `i` assigned to the `i`-th entry.
pub open spec fn assembled_actors(entries: Seq<(Identifier, Actor)>) -> Seq<(Identifier, Actor)> {
    Seq::new(entries.len(), |i: int| (entries[i].0, Actor {
        assembled_index: Some(i as u8),
        ..entries[i].1
    }))
}

/// The first actor whose display-name or tattle reference resolves to no
/// text, if any; `true` marks a missing display name.
pub open spec fn first_unresolved_actor(
    entries: Seq<(Identifier, Actor)>,
    tmap: Map<(Seq<char>, Seq<char>), Text>,
    i: int,
) -> Option<(int, bool)>
    decreases entries.len() - i,
{
    if i < 0 || i >= entries.len() {
        None
    } else if !tmap.contains_key(entries[i].1.name.0.key()) {
        Some((i, true))
    } else if !tmap.contains_key(entries[i].1.tattle.0.key()) {
        Some((i, false))
    } else {
        first_unresolved_actor(entries, tmap, i + 1)
    }
}

/// The build path of the `i`-th actor's script.
pub open spec fn actor_script_path(a: Actor, idx: int, battle_dir: Seq<char>) -> Seq<char> {
    battle_dir + "/formation/import/actor"@ + "/"@ + crate::strutil::spec_hex_pad(idx as nat,
        2) + "_"@ + dir_export_name(a.dir@) + ".bpat"@
}

/// Assigns actor indices, resolves each actor's display-name and tattle
/// against the assembled texts, emits the actor table, and queues each
/// actor's script retargeted at its build path.
#[verifier::rlimit(60)]
fn assemble_actors(
    reg: &mut Registry<Actor>,
    texts: &Registry<Text>,
    battle_dir: &str,
) -> (r: Result<(OutFile, Vec<crate::script::Script>), AssembleError>)
    requires
        old(reg).wf(),
        texts.wf(),
        crate::resolve::all_texts_assembled(*texts),
        old(reg).entries@.len() <= 255,
    ensures
        final(reg).wf(),
        r is Ok <==> first_unresolved_actor(old(reg).entries@, texts.as_map(), 0) is None,
        r matches Err(e) ==> *final(reg) == *old(reg) && match e {
            AssembleError::ActorNameNotFound(id) => first_unresolved_actor(old(reg).entries@,
                texts.as_map(), 0) matches Some(p) && p.1
                && id.0.key() == old(reg).entries@[p.0].1.name.0.key(),
            AssembleError::ActorTattleNotFound(id) => first_unresolved_actor(
                old(reg).entries@, texts.as_map(), 0) matches Some(p) && !p.1
                && id.0.key() == old(reg).entries@[p.0].1.tattle.0.key(),
            AssembleError::Resolve(_) => false,
        },
        r matches Ok(out) ==> {
            &&& final(reg).entries@ == assembled_actors(old(reg).entries@)
            &&& crate::resolve::all_actors_assembled(*final(reg))
            &&& out.0.path@ == battle_dir@ + "/ActorTypes.xml"@
            &&& out.0.content@ == actor_table_spec(old(reg).entries@, texts.as_map())
            &&& out.1@.len() == old(reg).entries@.len()
            &&& forall|i: int| 0 <= i < out.1@.len() ==> {
                let a = (#[trigger] old(reg).entries@[i]).1;
                let sc = out.1@[i];
                &&& sc.path@ == actor_script_path(a, i, battle_dir@)
                &&& sc.src_pkg_name@ == a.src_pkg_name@
                &&& sc.wf()
                &&& crate::script::blocks_views(sc.blocks@)
                    == crate::script::script_blocks_spec(a.script_source@)
            }
        },
{
    let ghost orig = old(reg).entries@;
    let ghost tmap = texts.as_map();
    // Check every reference before mutating anything.
    let n = reg.entries.len();
    let mut ci: usize = 0;
    while ci < n
        invariant
            *reg == *old(reg),
            reg.wf(),
            tmap == texts.as_map(),
            texts.wf(),
            orig == reg.entries@,
            n == orig.len(),
            ci <= n,
            first_unresolved_actor(orig, tmap, 0) == first_unresolved_actor(orig, tmap,
                ci as int),
        decreases n - ci,
    {
        let a = &reg.entries[ci].1;
        match texts.get(&a.name.0) {
            Some(_) => {},
            None => {
                assert(first_unresolved_actor(orig, tmap, ci as int)
                    == Some((ci as int, true)));
                let id = Identifier::new(a.name.0.package.as_str(), a.name.0.name.as_str());
                assert(id.key() == orig[ci as int].1.name.0.key());
                return Err(AssembleError::ActorNameNotFound(crate::text::TextId(id)));
            },
        }
        match texts.get(&a.tattle.0) {
            Some(_) => {},
            None => {
                assert(first_unresolved_actor(orig, tmap, ci as int)
                    == Some((ci as int, false)));
                let id = Identifier::new(a.tattle.0.package.as_str(),
                    a.tattle.0.name.as_str());
                assert(id.key() == orig[ci as int].1.tattle.0.key());
                return Err(AssembleError::ActorTattleNotFound(crate::text::TextId(id)));
            },
        }
        ci = ci + 1;
    }
    let mut entries: Vec<(Identifier, Actor)> = Vec::new();
    core::mem::swap(&mut entries, &mut reg.entries);
    assert(entries@ == orig);
    let mut xml = String::new();
    xml.push_str("<?xml version=\"1.0\" encoding=\"UTF-8\" standalone=\"no\"?>");
    xml.push_str("\n");
    xml.push_str("<ActorTypes>");
    xml.push_str("\n");
    let ghost head = xml@;
    let mut scripts: Vec<crate::script::Script> = Vec::new();
    let mut done: Vec<(Identifier, Actor)> = Vec::new();
    let mut actors_dir = battle_dir.to_owned();
    actors_dir.push_str("/formation/import/actor");
    let mut rest = entries;
    let mut i: usize = 0;
    proof {
        assert(rest@ =~= orig.skip(0));
        assert(done@ =~= assembled_actors(orig).take(0));
    }
    while rest.len() > 0
        invariant
            orig.len() == n <= 255,
            tmap == texts.as_map(),
            texts.wf(),
            crate::resolve::all_texts_assembled(*texts),
            first_unresolved_actor(orig, tmap, 0) is None,
            actors_dir@ == battle_dir@ + "/formation/import/actor"@,
            i <= n,
            rest@ == orig.skip(i as int),
            done@ == assembled_actors(orig).take(i as int),
            scripts@.len() == i,
            forall|x: int| 0 <= x < i ==> {
                let a = (#[trigger] orig[x]).1;
                let sc = scripts@[x];
                &&& sc.path@ == actor_script_path(a, x, battle_dir@)
                &&& sc.src_pkg_name@ == a.src_pkg_name@
                &&& sc.wf()
                &&& crate::script::blocks_views(sc.blocks@)
                    == crate::script::script_blocks_spec(a.script_source@)
            },
            xml@ + actor_rows(orig, i as int, tmap) == head + actor_rows(orig, 0, tmap),
        decreases rest@.len(),
    {
        let (id, mut a) = rest.remove(0);
        proof {
            assert(orig.skip(i as int)[0] == orig[i as int]);
            assert(orig.skip(i as int).drop_first() =~= orig.skip(i as int + 1));
            lemma_first_unresolved_all(orig, tmap, 0, i as int);
        }
        let idx = i as u8;
        let name_code = match texts.get(&a.name.0) {
            Some(t) => {
                proof {
                    crate::resolve::lemma_map_value_assembled_text(*texts, a.name.0.key());
                }
                match t.assembled_hex_id() {
                    Some(h) => h,
                    None => {
                        proof {
                            assert(false);
                        }
                        String::new()
                    },
                }
            },
            None => {
                proof {
                    assert(false);
                }
                String::new()
            },
        };
        let tattle_code = match texts.get(&a.tattle.0) {
            Some(t) => {
                proof {
                    crate::resolve::lemma_map_value_assembled_text(*texts, a.tattle.0.key());
                }
                match t.assembled_hex_id() {
                    Some(h) => h,
                    None => {
                        proof {
                            assert(false);
                        }
                        String::new()
                    },
                }
            },
            None => {
                proof {
                    assert(false);
                }
                String::new()
            },
        };
        let ghost pre_xml = xml@;
        xml.push_str("   <Actor id=\"");
        let h1 = crate::strutil::hex_pad(idx as u64, 2);
        xml.push_str(h1.as_str());
        xml.push_str("\" name=\"");
        xml.push_str(name_code.as_str());
        xml.push_str("\" tattle=\"");
        xml.push_str(tattle_code.as_str());
        xml.push_str("\"/>");
        xml.push_str("\n");
        proof {
            assert(xml@ =~= pre_xml + actor_row(orig[i as int].1, i as int, tmap));
            assert(xml@ + actor_rows(orig, i as int + 1, tmap) =~= head + actor_rows(orig, 0,
                tmap));
        }
        let script = a.assemble(actors_dir.as_str(), idx);
        scripts.push(script);
        done.push((id, a));
        proof {
            assert(done@ =~= assembled_actors(orig).take(i as int + 1));
        }
        i = i + 1;
    }
    xml.push_str("</ActorTypes>");
    reg.entries = done;
    proof {
        assert(actor_rows(orig, i as int, tmap) =~= Seq::<char>::empty());
        assert(xml@ =~= actor_table_spec(orig, tmap));
        assert(final(reg).entries@ =~= assembled_actors(orig));
        let es = reg.entries@;
        assert forall|a2: int, b2: int| 0 <= a2 < b2 < es.len() implies
            (#[trigger] es[a2]).0.key() != (#[trigger] es[b2]).0.key() by {
            assert(es[a2].0 == orig[a2].0 && es[b2].0 == orig[b2].0);
        }
    }
    let mut path = battle_dir.to_owned();
    path.push_str("/ActorTypes.xml");
    Ok((OutFile { path, content: xml }, scripts))
}

/// When no actor is unresolved, every actor's references are contained.
proof fn lemma_first_unresolved_all(
    entries: Seq<(Identifier, Actor)>,
    tmap: Map<(Seq<char>, Seq<char>), Text>,
    i: int,
    x: int,
)
    requires
        0 <= i <= x < entries.len(),
        first_unresolved_actor(entries, tmap, i) is None,
    ensures
        tmap.contains_key(entries[x].1.name.0.key()),
        tmap.contains_key(entries[x].1.tattle.0.key()),
    decreases x - i,
{
    if i < x {
        lemma_first_unresolved_all(entries, tmap, i + 1, x);
    }
}


/// A script's blocks with every line rewritten by expression resolution.
pub open spec fn resolved_blocks(
    bs: Seq<Seq<(int, Seq<char>)>>,
    src: Seq<char>,
    sp: Registry<Sprite>,
    tx: Registry<Text>,
    ac: Registry<Actor>,
) -> Seq<Seq<(int, Seq<char>)>> {
    Seq::new(bs.len(), |k: int| Seq::new(bs[k].len(), |l: int| (bs[k][l].0,
        crate::resolve::scan(bs[k][l].1, 0, src, sp, tx, ac).1)))
}

/// The first queued script with a failing expression, if any.
pub open spec fn first_failing_script(
    entries: Seq<(Identifier, Actor)>,
    sp: Registry<Sprite>,
    tx: Registry<Text>,
    ac: Registry<Actor>,
    i: int,
) -> Option<int>
    decreases entries.len() - i,
{
    if i < 0 || i >= entries.len() {
        None
    } else if crate::resolve::first_bad(crate::script::script_blocks_spec(
        entries[i].1.script_source@), 0, entries[i].1.src_pkg_name@, sp, tx, ac) is Some {
        Some(i)
    } else {
        first_failing_script(entries, sp, tx, ac, i + 1)
    }
}

impl Package {
    /// Assembles the package into a plan of build outputs: sprites get
    /// indices from 1 and a sprite table, texts get per-section indices and
    /// one file each, actors get indices from 0, an actor table, and their
    /// scripts; the scripts' expressions are then resolved against the
    /// fully assembled registries and the resolved scripts appended to the
    /// plan.
    #[verifier::rlimit(80)]
    pub fn assemble(&mut self, build_dir: &str) -> (r: Result<Assembly, AssembleError>)
        requires
            old(self).wf(),
            old(self).sprites.entries@.len() <= 255,
            old(self).actors.entries@.len() <= 255,
            old(self).texts.entries@.len() < 0xffff,
            forall|i: int| 0 <= i < old(self).texts.entries@.len()
                ==> (#[trigger] old(self).texts.entries@[i]).1.section < 255,
        ensures
            final(self).dir == old(self).dir,
            final(self).manifest == old(self).manifest,
            final(self).dependencies == old(self).dependencies,
            final(self).wf(),
            final(self).sprites.entries@ == assembled_sprites(old(self).sprites.entries@),
            final(self).texts.entries@ == assembled_texts(old(self).texts.entries@),
            r matches Ok(plan) ==> {
                let nt = old(self).texts.entries@.len() as int;
                let na = old(self).actors.entries@.len() as int;
                &&& final(self).actors.entries@ == assembled_actors(old(self).actors.entries@)
                &&& plan.dir_copies@.len() == old(self).sprites.entries@.len()
                &&& forall|i: int| 0 <= i < plan.dir_copies@.len()
                    ==> (#[trigger] plan.dir_copies@[i]).from@
                        == old(self).sprites.entries@[i].1.dir@
                        && plan.dir_copies@[i].to@ == build_dir@ + "/sprite"@ + "/npc/src/"@
                            + crate::strutil::spec_hex_pad((i + 1) as nat, 2)
                &&& plan.files@.len() == 2 + nt + na
                &&& plan.files@[0].path@ == build_dir@ + "/sprite"@ + "/SpriteTable.xml"@
                &&& plan.files@[0].content@ == sprite_table_spec(old(self).sprites.entries@)
                &&& forall|i: int| 0 <= i < nt ==> (((#[trigger] plan.files@[1 + i]).path@,
                    plan.files@[1 + i].content@) == text_file_spec(old(self).texts.entries@,
                    build_dir@ + "/strings"@, i))
                &&& plan.files@[1 + nt].path@ == build_dir@ + "/battle"@ + "/ActorTypes.xml"@
                &&& plan.files@[1 + nt].content@ == actor_table_spec(
                    old(self).actors.entries@, final(self).texts.as_map())
                &&& forall|i: int| 0 <= i < na ==> {
                    let a = (#[trigger] old(self).actors.entries@[i]).1;
                    &&& plan.files@[2 + nt + i].path@ == actor_script_path(a, i,
                        build_dir@ + "/battle"@)
                    &&& plan.files@[2 + nt + i].content@ == crate::script::save_spec(
                        resolved_blocks(crate::script::script_blocks_spec(a.script_source@),
                            a.src_pkg_name@, final(self).sprites, final(self).texts,
                            final(self).actors))
                }
            },
            r matches Err(AssembleError::ActorNameNotFound(id)) ==> first_unresolved_actor(
                old(self).actors.entries@, final(self).texts.as_map(), 0) matches Some(p)
                && p.1 && id.0.key() == old(self).actors.entries@[p.0].1.name.0.key(),
            r matches Err(AssembleError::ActorTattleNotFound(id)) ==> first_unresolved_actor(
                old(self).actors.entries@, final(self).texts.as_map(), 0) matches Some(p)
                && !p.1 && id.0.key() == old(self).actors.entries@[p.0].1.tattle.0.key(),
            r matches Err(AssembleError::Resolve(e)) ==> first_failing_script(
                old(self).actors.entries@, final(self).sprites, final(self).texts,
                final(self).actors, 0) is Some,
    {
        let mut sprites_dir = build_dir.to_owned();
        sprites_dir.push_str("/sprite");
        let mut strings_dir = build_dir.to_owned();
        strings_dir.push_str("/strings");
        let mut battle_dir = build_dir.to_owned();
        battle_dir.push_str("/battle");

        let mut spr: Registry<Sprite> = Registry::new();
        core::mem::swap(&mut spr, &mut self.sprites);
        let (sprite_table, copies) = assemble_sprites(&mut spr, sprites_dir.as_str());
        self.sprites = spr;

        let mut txt: Registry<Text> = Registry::new();
        core::mem::swap(&mut txt, &mut self.texts);
        let string_files = assemble_strings(&mut txt, strings_dir.as_str());
        self.texts = txt;

        let mut act: Registry<Actor> = Registry::new();
        core::mem::swap(&mut act, &mut self.actors);
        let actor_out = assemble_actors(&mut act, &self.texts, battle_dir.as_str());
        self.actors = act;
        let (actor_table, scripts) = match actor_out {
            Ok(out) => out,
            Err(e) => {
                return Err(e);
            },
        };

        let ghost old_actors = old(self).actors.entries@;
        let mut files: Vec<OutFile> = Vec::new();
        files.push(sprite_table);
        let ghost nt = old(self).texts.entries@.len() as int;
        let mut sf = string_files;
        let ghost sf_v = sf@;
        files.append(&mut sf);
        files.push(actor_table);
        let ghost base_len = files@.len();
        let ghost base_files = files@;
        proof {
            assert(base_len == 2 + nt);
            assert forall|x: int| 0 <= x < nt implies #[trigger] base_files[1 + x]
                == sf_v[x] by {}
        }

        let mut rest = scripts;
        let ghost scripts_v = rest@;
        let mut i: usize = 0;
        let n = rest.len();
        assert(scripts_v.len() == n);
        while rest.len() > 0
            invariant
                old_actors == old(self).actors.entries@,
                self.dir == old(self).dir,
                self.manifest == old(self).manifest,
                self.dependencies == old(self).dependencies,
                self.sprites.entries@ == assembled_sprites(old(self).sprites.entries@),
                self.texts.entries@ == assembled_texts(old(self).texts.entries@),
                self.actors.entries@ == assembled_actors(old(self).actors.entries@),
                self.wf(),
                crate::resolve::all_sprites_assembled(self.sprites),
                crate::resolve::all_texts_assembled(self.texts),
                crate::resolve::all_actors_assembled(self.actors),
                scripts_v.len() == n,
                n == old_actors.len(),
                i <= n,
                rest@ == scripts_v.skip(i as int),
                forall|x: int| 0 <= x < n ==> {
                    let a = (#[trigger] old_actors[x]).1;
                    let sc = scripts_v[x];
                    &&& sc.path@ == actor_script_path(a, x, build_dir@ + "/battle"@)
                    &&& sc.src_pkg_name@ == a.src_pkg_name@
                    &&& sc.wf()
                    &&& crate::script::blocks_views(sc.blocks@)
                        == crate::script::script_blocks_spec(a.script_source@)
                },
                first_failing_script(old_actors, self.sprites, self.texts, self.actors, 0)
                    == first_failing_script(old_actors, self.sprites, self.texts,
                        self.actors, i as int),
                files@.len() == base_len + i,
                forall|x: int| 0 <= x < i ==> {
                    let a = (#[trigger] old_actors[x]).1;
                    &&& files@[base_len + x].path@ == actor_script_path(a, x,
                        build_dir@ + "/battle"@)
                    &&& files@[base_len + x].content@ == crate::script::save_spec(
                        resolved_blocks(crate::script::script_blocks_spec(a.script_source@),
                            a.src_pkg_name@, self.sprites, self.texts, self.actors))
                },
                files@.take(base_len as int) == base_files,
            decreases rest@.len(),
        {
            let mut script = rest.remove(0);
            proof {
                assert(scripts_v.skip(i as int)[0] == scripts_v[i as int]);
                assert(scripts_v.skip(i as int).drop_first() =~= scripts_v.skip(i as int + 1));
            }
            match script.resolve_expressions(&self.sprites, &self.texts, &self.actors) {
                Ok(()) => {},
                Err(e) => {
                    proof {
                        assert(first_failing_script(old_actors, self.sprites, self.texts,
                            self.actors, i as int) == Some(i as int));
                    }
                    return Err(AssembleError::Resolve(e));
                },
            }
            let content = script.save();
            proof {
                let a = old_actors[i as int].1;
                let bs = crate::script::script_blocks_spec(a.script_source@);
                assert(crate::script::blocks_views(script.blocks@) =~~= resolved_blocks(bs,
                    a.src_pkg_name@, self.sprites, self.texts, self.actors));
            }
            files.push(OutFile { path: script.path, content });
            i = i + 1;
        }
        proof {
            assert(files@[0] == base_files[0]);
            assert forall|x: int| 0 <= x < nt implies #[trigger] files@[1 + x]
                == base_files[1 + x] by {
                assert(files@.take(base_len as int)[1 + x] == files@[1 + x]);
            }
            assert(files@[1 + nt] == base_files[1 + nt]) by {
                assert(files@.take(base_len as int)[1 + nt] == files@[1 + nt]);
            }
            assert(files@[0] == base_files[0]) by {
                assert(files@.take(base_len as int)[0] == files@[0]);
            }
        }
        Ok(Assembly { files, dir_copies: copies })
    }
}


/// Every declared dependency's identity occurs in the flattened list.
proof fn lemma_flat_infos_has(deps: Seq<Package>, x: int)
    requires
        0 <= x < deps.len(),
    ensures
        exists|idx: int| 0 <= idx < flat_infos(deps).len()
            && #[trigger] flat_infos(deps)[idx] == pkg_info(deps[x]),
    decreases deps.len(),
{
    if x == deps.len() - 1 {
        let fi = flat_infos(deps);
        assert(fi[fi.len() - 1] == pkg_info(deps[x]));
    } else {
        lemma_flat_infos_has(deps.drop_last(), x);
        let idx = choose|idx: int| 0 <= idx < flat_infos(deps.drop_last()).len()
            && #[trigger] flat_infos(deps.drop_last())[idx] == pkg_info(deps.drop_last()[x]);
        assert(deps.drop_last()[x] == deps[x]);
        assert(flat_infos(deps)[idx] == pkg_info(deps[x]));
    }
}

/// Two dependencies declaring the same name with different versions always
/// make the flattened list conflicting — whatever their declaration order —
/// so loading fails with a version mismatch.
pub proof fn lemma_version_mismatch(deps: Seq<Package>, a: int, b: int)
    requires
        0 <= a < deps.len(),
        0 <= b < deps.len(),
        deps[a].manifest.name@ == deps[b].manifest.name@,
        vinfo(deps[a].manifest.version) != vinfo(deps[b].manifest.version),
    ensures
        has_conflict(flat_infos(deps)),
{
    lemma_flat_infos_has(deps, a);
    lemma_flat_infos_has(deps, b);
    let fi = flat_infos(deps);
    let ia = choose|idx: int| 0 <= idx < fi.len() && #[trigger] fi[idx] == pkg_info(deps[a]);
    let ib = choose|idx: int| 0 <= idx < fi.len() && #[trigger] fi[idx] == pkg_info(deps[b]);
    assert(fi[ia].0 == fi[ib].0 && fi[ia].1 != fi[ib].1);
}


impl Identifier {
    /// The identifier of one of `pkg`'s own exports.
    pub fn from_package(pkg: &Package, name: &str) -> (r: Identifier)
        ensures
            r.package@ == pkg.manifest.name@,
            r.name@ == name@,
    {
        Identifier::new(pkg.manifest.name.as_str(), name)
    }
}

} // verus!

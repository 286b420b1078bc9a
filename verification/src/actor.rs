//! Actor exports: a display-name and a tattle reference into the text
//! registry, a battle script, and a build-time index.

use vstd::prelude::*;
use crate::id::{
    parse_fault, parse_identifier, parse_name, parse_ok, parse_package, Identifier, ParseError,
};
use crate::sanitize::{self, generic_name_fault, generic_name_ok, ExportNameError};
use crate::script::{blocks_views, script_blocks_spec, Script};
use crate::strutil::{hex_pad, spec_hex_pad, suffix_after_last, suffix_after_last_spec};
use crate::text::TextId;

verus! {

#[derive(Debug, Clone, PartialEq, Eq, Hash)]
pub struct ActorId(pub Identifier);

/// An actor export: its source directory, the text identifiers its sidecar
/// names, its battle script source, and, once assembled, its index.
#[derive(Debug, Clone, PartialEq, Eq)]
pub struct Actor {
    pub dir: String,
    pub src_pkg_name: String,
    pub name: TextId,
    pub tattle: TextId,
    pub script_source: String,
    pub assembled_index: Option<u8>,
}

#[derive(Debug, Clone, PartialEq, Eq)]
pub enum ActorLoadError {
    /// A sidecar reference failed to parse as a text identifier.
    Id(ParseError),
    /// The actor's own directory name is not a valid export name.
    Name(ExportNameError),
}

impl ActorLoadError {
    pub open spec fn spec_message(&self) -> Seq<char> {
        match self {
            ActorLoadError::Id(e) => e.spec_message(),
            ActorLoadError::Name(e) => e.spec_message(),
        }
    }

    pub fn message(&self) -> (r: String)
        ensures
            r@ == self.spec_message(),
    {
        match self {
            ActorLoadError::Id(e) => e.message(),
            ActorLoadError::Name(e) => e.message(),
        }
    }
}

impl Actor {
    /// Builds an actor from its sidecar values: the `name` and `tattle`
    /// references are parsed against the source package, and the actor's
    /// own directory name must be a valid export name.
    pub fn load(
        src_pkg_name: &str,
        dir: String,
        manifest_name: &str,
        manifest_tattle: &str,
        script_source: String,
    ) -> (r: Result<Actor, ActorLoadError>)
        ensures
            r is Ok <==> parse_ok(manifest_name@, src_pkg_name@)
                && parse_ok(manifest_tattle@, src_pkg_name@)
                && generic_name_ok(suffix_after_last_spec(dir@, '/')),
            r matches Ok(a) ==> a.dir == dir && a.src_pkg_name@ == src_pkg_name@
                && a.script_source == script_source && a.assembled_index is None
                && a.name.0.package@ == parse_package(manifest_name@, src_pkg_name@)
                && a.name.0.name@ == parse_name(manifest_name@, src_pkg_name@)
                && a.tattle.0.package@ == parse_package(manifest_tattle@, src_pkg_name@)
                && a.tattle.0.name@ == parse_name(manifest_tattle@, src_pkg_name@),
            r matches Err(ActorLoadError::Id(e)) ==> {
                ||| !parse_ok(manifest_name@, src_pkg_name@)
                    && parse_fault(manifest_name@, src_pkg_name@, e)
                ||| parse_ok(manifest_name@, src_pkg_name@)
                    && !parse_ok(manifest_tattle@, src_pkg_name@)
                    && parse_fault(manifest_tattle@, src_pkg_name@, e)
            },
            r matches Err(ActorLoadError::Name(e)) ==> parse_ok(manifest_name@, src_pkg_name@)
                && parse_ok(manifest_tattle@, src_pkg_name@)
                && Some(e.fault()) == generic_name_fault(suffix_after_last_spec(dir@, '/'))
                && e.arg() == suffix_after_last_spec(dir@, '/'),
    {
        let name = match parse_identifier(manifest_name, src_pkg_name) {
            Ok(id) => TextId(id),
            Err(e) => {
                return Err(ActorLoadError::Id(e));
            },
        };
        let tattle = match parse_identifier(manifest_tattle, src_pkg_name) {
            Ok(id) => TextId(id),
            Err(e) => {
                return Err(ActorLoadError::Id(e));
            },
        };
        let local = suffix_after_last(dir.as_str(), '/');
        match sanitize::export_name(local.as_str()) {
            Ok(()) => {},
            Err(e) => {
                return Err(ActorLoadError::Name(e));
            },
        }
        Ok(Actor {
            dir,
            src_pkg_name: src_pkg_name.to_owned(),
            name,
            tattle,
            script_source,
            assembled_index: None,
        })
    }

    /// The actor's local export name: the terminal component of its
    /// directory.
    pub fn name(&self) -> (r: String)
        ensures
            r@ == suffix_after_last_spec(self.dir@, '/'),
    {
        suffix_after_last(self.dir.as_str(), '/')
    }

    /// The index assigned during assembly, if assembly has happened.
    pub fn assembled_index(&self) -> (r: Option<u8>)
        ensures
            r == self.assembled_index,
    {
        self.assembled_index
    }

    /// The actor's battle script, parsed from its source.
    pub fn script(&self) -> (r: Script)
        ensures
            r.src_pkg_name@ == self.src_pkg_name@,
            r.path@ == self.dir@ + "/"@ + suffix_after_last_spec(self.dir@, '/') + ".bscr"@,
            r.wf(),
            blocks_views(r.blocks@) == script_blocks_spec(self.script_source@),
    {
        let mut path = self.dir.clone();
        path.push_str("/");
        let local = self.name();
        path.push_str(local.as_str());
        path.push_str(".bscr");
        Script::load(self.src_pkg_name.as_str(), path, self.script_source.as_str())
    }

    /// Records the actor's assigned index and yields its script, retargeted
    /// at its build output path.
    pub fn assemble(&mut self, actors_dir: &str, index: u8) -> (r: Script)
        ensures
            final(self).dir == old(self).dir,
            final(self).src_pkg_name == old(self).src_pkg_name,
            final(self).name == old(self).name,
            final(self).tattle == old(self).tattle,
            final(self).script_source == old(self).script_source,
            final(self).assembled_index == Some(index),
            r.src_pkg_name@ == old(self).src_pkg_name@,
            r.path@ == actors_dir@ + "/"@ + spec_hex_pad(index as nat, 2) + "_"@
                + suffix_after_last_spec(old(self).dir@, '/') + ".bpat"@,
            r.wf(),
            blocks_views(r.blocks@) == script_blocks_spec(old(self).script_source@),
    {
        let mut script = self.script();
        let mut path = actors_dir.to_owned();
        path.push_str("/");
        let h = hex_pad(index as u64, 2);
        path.push_str(h.as_str());
        path.push_str("_");
        let local = self.name();
        path.push_str(local.as_str());
        path.push_str(".bpat");
        script.path = path;
        self.assembled_index = Some(index);
        script
    }
}

} // verus!

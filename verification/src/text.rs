//! Text (string) exports: named `#string` blocks read from script-dialect
//! source files, each with a section number, a body, and a build-time index
//! within its section.

use vstd::prelude::*;
use crate::id::Identifier;
use crate::output::OutFile;
use crate::sanitize::{self, generic_name_fault, ExportNameError};
use crate::script::{
    is_string_named, lines_view_of, named_name, named_section, script_blocks_spec, BlockKind,
    Script,
};
use crate::strutil::{dec_of, hex_pad, spec_dec, spec_hex_pad};

verus! {

#[derive(Debug, Clone, PartialEq, Eq, Hash)]
pub struct TextId(pub Identifier);

/// A text export: its section, name, body, and, once assembled, its index
/// within the section.
#[derive(Debug, Clone, PartialEq, Eq)]
pub struct Text {
    pub section: u8,
    pub name: String,
    pub string: String,
    pub assembled_index: Option<u16>,
}

/// The body of a string block: its lines after the header, joined with
/// newlines.
pub open spec fn join_lines(lines: Seq<(int, Seq<char>)>) -> Seq<char>
    decreases lines.len(),
{
    if lines.len() == 0 {
        Seq::empty()
    } else if lines.len() == 1 {
        lines[0].1
    } else {
        lines[0].1 + "\n"@ + join_lines(lines.drop_first())
    }
}

/// Joins the line texts from position `li` on with newlines.
fn join_from(lines: &Vec<(usize, String)>, li: usize) -> (r: String)
    requires
        li <= lines@.len(),
    ensures
        r@ == join_lines(lines_view_of(lines@).skip(li as int)),
    decreases lines@.len() - li,
{
    let ghost lv = lines_view_of(lines@);
    let n = lines.len();
    if li == n {
        let r = String::new();
        assert(lv.skip(li as int) =~= Seq::<(int, Seq<char>)>::empty());
        r
    } else if li == n - 1 {
        let r = lines[li].1.clone();
        assert(lv.skip(li as int) =~= seq![lv[li as int]]);
        r
    } else {
        let mut r = lines[li].1.clone();
        r.push_str("\n");
        let rest = join_from(lines, li + 1);
        r.push_str(rest.as_str());
        proof {
            assert(lv.skip(li as int)[0] == lv[li as int]);
            assert(lv.skip(li as int).drop_first() =~= lv.skip(li as int + 1));
            assert(lv.skip(li as int).len() > 1);
        }
        r
    }
}

/// Whether a block is acceptable in a string file: it must be a named
/// string block whose export name is of valid shape.
pub open spec fn text_block_ok(b: Seq<(int, Seq<char>)>) -> bool {
    is_string_named(b[0].1) && generic_name_fault(named_name(b[0].1)) is None
}

/// The first unacceptable block, if any.
pub open spec fn first_text_fault(bs: Seq<Seq<(int, Seq<char>)>>, i: int) -> Option<int>
    decreases bs.len() - i,
{
    if i < 0 || i >= bs.len() {
        None
    } else if !text_block_ok(bs[i]) {
        Some(i)
    } else {
        first_text_fault(bs, i + 1)
    }
}

/// What a text built from an acceptable block holds.
pub open spec fn text_of_block(t: Text, b: Seq<(int, Seq<char>)>) -> bool {
    &&& t.section == named_section(b[0].1)
    &&& t.name@ == named_name(b[0].1)
    &&& t.string@ == join_lines(b.drop_first())
    &&& t.assembled_index is None
}

#[derive(Debug, Clone, PartialEq, Eq)]
pub enum LoadError {
    /// A block of the file is not a named string block.
    DisallowedBlockKind { file: String, line: usize },
    /// A named string block declares an export name of invalid shape.
    BadName { file: String, line: usize, error: ExportNameError },
}

impl LoadError {
    pub open spec fn spec_message(&self) -> Seq<char> {
        match self {
            LoadError::DisallowedBlockKind { file, line } => file@ + ":"@ + spec_dec(
                *line as nat)
                + ": only `#string XX:(export_name)` blocks allowed in string files"@,
            LoadError::BadName { file, line, error } => file@ + ":"@ + spec_dec(*line as nat)
                + ": "@ + error.spec_message(),
        }
    }

    pub fn message(&self) -> (r: String)
        ensures
            r@ == self.spec_message(),
    {
        match self {
            LoadError::DisallowedBlockKind { file, line } => {
                let mut r = file.clone();
                r.push_str(":");
                let d = dec_of(*line as u64);
                r.push_str(d.as_str());
                r.push_str(": only `#string XX:(export_name)` blocks allowed in string files");
                r
            },
            LoadError::BadName { file, line, error } => {
                let mut r = file.clone();
                r.push_str(":");
                let d = dec_of(*line as u64);
                r.push_str(d.as_str());
                r.push_str(": ");
                let m = error.message();
                r.push_str(m.as_str());
                r
            },
        }
    }
}

impl Text {
    /// Reads every text a string file defines.  Each block must be a named
    /// string block (`#string:XX:(name)`) with an export name of valid
    /// shape; the block's remaining lines are its body.
    pub fn load_many(src_pkg_name: &str, path: String, source: &str) -> (r: Result<
        Vec<Text>,
        LoadError,
    >)
        ensures
            r is Ok <==> first_text_fault(script_blocks_spec(source@), 0) is None,
            r matches Ok(ts) ==> ts@.len() == script_blocks_spec(source@).len()
                && forall|k: int| 0 <= k < ts@.len()
                    ==> text_of_block(#[trigger] ts@[k], script_blocks_spec(source@)[k]),
            r matches Err(e) ==> first_text_fault(script_blocks_spec(source@), 0) matches Some(i)
                && {
                let b = script_blocks_spec(source@)[i];
                match e {
                    LoadError::DisallowedBlockKind { file, line } => !is_string_named(b[0].1)
                        && file@ == path@ && line == b[0].0,
                    LoadError::BadName { file, line, error } => is_string_named(b[0].1)
                        && Some(error.fault()) == generic_name_fault(named_name(b[0].1))
                        && error.arg() == named_name(b[0].1) && file@ == path@
                        && line == b[0].0,
                }
            },
    {
        let ghost bs = script_blocks_spec(source@);
        let script = Script::load(src_pkg_name, path.clone(), source);
        let n = script.blocks.len();
        assert(bs.len() == n);
        let mut ts: Vec<Text> = Vec::new();
        let mut i: usize = 0;
        while i < n
            invariant
                bs == script_blocks_spec(source@),
                n == script.blocks@.len(),
                n == bs.len(),
                crate::script::blocks_views(script.blocks@) == bs,
                script.wf(),
                path@ == script.path@,
                i <= n,
                first_text_fault(bs, 0) == first_text_fault(bs, i as int),
                ts@.len() == i,
                forall|k: int| 0 <= k < i ==> text_of_block(#[trigger] ts@[k], bs[k]),
            decreases n - i,
        {
            let block = &script.blocks[i];
            proof {
                assert(block.lines_view() == bs[i as int]);
                assert(block.lines_view()[0] == (block.lines@[0].0 as int, block.lines@[0].1@));
            }
            match &block.kind {
                BlockKind::StringNamed { section, name } => {
                    match sanitize::export_name(name.as_str()) {
                        Ok(()) => {
                            let body = join_from(&block.lines, 1);
                            proof {
                                assert(lines_view_of(block.lines@).skip(1)
                                    =~= bs[i as int].drop_first());
                            }
                            let t = Text {
                                section: *section,
                                name: name.clone(),
                                string: body,
                                assembled_index: None,
                            };
                            ts.push(t);
                            assert(text_block_ok(bs[i as int]));
                        },
                        Err(error) => {
                            assert(!text_block_ok(bs[i as int]));
                            assert(first_text_fault(bs, i as int) == Some(i as int));
                            return Err(LoadError::BadName {
                                file: path,
                                line: block.start_line(),
                                error,
                            });
                        },
                    }
                },
                BlockKind::Other => {
                    assert(!text_block_ok(bs[i as int]));
                    assert(first_text_fault(bs, i as int) == Some(i as int));
                    return Err(LoadError::DisallowedBlockKind {
                        file: path,
                        line: block.start_line(),
                    });
                },
            }
            i = i + 1;
        }
        Ok(ts)
    }

    pub fn name(&self) -> (r: &str)
        ensures
            r@ == self.name@,
    {
        self.name.as_str()
    }

    pub fn string_section(&self) -> (r: u8)
        ensures
            r == self.section,
    {
        self.section
    }

    /// The combined section and index code of an assembled text, eight
    /// hexadecimal digits.
    pub fn assembled_hex_id(&self) -> (r: Option<String>)
        ensures
            match r {
                Some(h) => self.assembled_index matches Some(idx) && h@ == spec_hex_pad(
                    self.section as nat, 4) + spec_hex_pad(idx as nat, 4),
                None => self.assembled_index is None,
            },
    {
        match self.assembled_index {
            Some(idx) => {
                let mut h = hex_pad(self.section as u64, 4);
                let lo = hex_pad(idx as u64, 4);
                h.push_str(lo.as_str());
                Some(h)
            },
            None => None,
        }
    }

    /// Records the text's assigned index within its section and yields its
    /// output file: `<section><index>.str` under the strings directory,
    /// holding a `#string` header and the body.
    pub fn assemble(&mut self, out_dir: &str, index: u16) -> (r: OutFile)
        ensures
            final(self).section == old(self).section,
            final(self).name == old(self).name,
            final(self).string == old(self).string,
            final(self).assembled_index == Some(index),
            r.path@ == out_dir@ + "/"@ + spec_hex_pad(old(self).section as nat, 4)
                + spec_hex_pad(index as nat, 4) + ".str"@,
            r.content@ == "#string:"@ + spec_hex_pad(old(self).section as nat, 2) + ":"@
                + spec_hex_pad(index as nat, 3) + "\n"@ + old(self).string@,
    {
        let mut path = out_dir.to_owned();
        path.push_str("/");
        let hi = hex_pad(self.section as u64, 4);
        path.push_str(hi.as_str());
        let lo = hex_pad(index as u64, 4);
        path.push_str(lo.as_str());
        path.push_str(".str");
        let mut content = String::new();
        content.push_str("#string:");
        let s2 = hex_pad(self.section as u64, 2);
        content.push_str(s2.as_str());
        content.push_str(":");
        let i3 = hex_pad(index as u64, 3);
        content.push_str(i3.as_str());
        content.push_str("\n");
        content.push_str(self.string.as_str());
        self.assembled_index = Some(index);
        OutFile { path, content }
    }
}

} // verus!

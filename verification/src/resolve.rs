//! Resolution of symbolic `{Kind:...}` expressions in script lines to the
//! indices assembly assigned.  One parser scans each line left to right,
//! non-overlapping, and dispatches on the kind and argument count:
//! `{Sprite:id}`, `{Sprite:id:anim}`, `{Sprite:id:anim:palette}`,
//! `{String:id}` and `{Actor:id}`; bracketed text of any other shape is
//! left untouched.

use vstd::prelude::*;
use crate::actor::{Actor, ActorId};
use crate::id::{
    parse_fault, parse_identifier, parse_name, parse_ok, parse_package, ParseError,
};
use crate::registry::Registry;
use crate::script::{blocks_views, Block, Script};
use crate::sprite::{Sprite, SpriteId};
use crate::strutil::{dec_of, hex_pad, spec_dec, spec_hex_pad, string_of, string_views};
use crate::text::{Text, TextId};

verus! {

#[derive(Debug, Clone, PartialEq, Eq)]
pub enum ResolveError {
    IdParseError { path: String, line_no: usize, id_string: String, parse_error: ParseError },
    UnknownSprite { path: String, line_no: usize, id: SpriteId },
    SpriteLacksAnimation { path: String, line_no: usize, id: SpriteId, animation: String },
    SpriteLacksPalette { path: String, line_no: usize, id: SpriteId, palette: String },
    UnknownText { path: String, line_no: usize, id: TextId },
    UnknownActor { path: String, line_no: usize, id: ActorId },
}

impl ResolveError {
    pub open spec fn spec_message(&self) -> Seq<char> {
        match self {
            ResolveError::IdParseError { path, line_no, id_string, parse_error } => path@
                + ":"@ + spec_dec(*line_no as nat) + ": failed to parse id '"@ + id_string@
                + "': "@ + parse_error.spec_message(),
            ResolveError::UnknownSprite { path, line_no, id } => path@ + ":"@ + spec_dec(
                *line_no as nat) + ": unknown sprite: {Sprite:"@ + id.0.package@ + "/"@
                + id.0.name@ + "}"@,
            ResolveError::SpriteLacksAnimation { path, line_no, id, animation } => path@ + ":"@
                + spec_dec(*line_no as nat) + ": sprite {Sprite:"@ + id.0.package@ + "/"@
                + id.0.name@ + "} has no animation '"@ + animation@ + "'"@,
            ResolveError::SpriteLacksPalette { path, line_no, id, palette } => path@ + ":"@
                + spec_dec(*line_no as nat) + ": sprite {Sprite:"@ + id.0.package@ + "/"@
                + id.0.name@ + "} has no palette '"@ + palette@ + "'"@,
            ResolveError::UnknownText { path, line_no, id } => path@ + ":"@ + spec_dec(
                *line_no as nat) + ": unknown string: {String:"@ + id.0.package@ + "/"@
                + id.0.name@ + "}"@,
            ResolveError::UnknownActor { path, line_no, id } => path@ + ":"@ + spec_dec(
                *line_no as nat) + ": unknown actor: {Actor:"@ + id.0.package@ + "/"@
                + id.0.name@ + "}"@,
        }
    }

    pub fn message(&self) -> (r: String)
        ensures
            r@ == self.spec_message(),
    {
        let mut r = String::new();
        match self {
            ResolveError::IdParseError { path, line_no, id_string, parse_error } => {
                r.push_str(path.as_str());
                r.push_str(":");
                let d = dec_of(*line_no as u64);
                r.push_str(d.as_str());
                r.push_str(": failed to parse id '");
                r.push_str(id_string.as_str());
                r.push_str("': ");
                let m = parse_error.message();
                r.push_str(m.as_str());
            },
            ResolveError::UnknownSprite { path, line_no, id } => {
                r.push_str(path.as_str());
                r.push_str(":");
                let d = dec_of(*line_no as u64);
                r.push_str(d.as_str());
                r.push_str(": unknown sprite: {Sprite:");
                r.push_str(id.0.package.as_str());
                r.push_str("/");
                r.push_str(id.0.name.as_str());
                r.push_str("}");
            },
            ResolveError::SpriteLacksAnimation { path, line_no, id, animation } => {
                r.push_str(path.as_str());
                r.push_str(":");
                let d = dec_of(*line_no as u64);
                r.push_str(d.as_str());
                r.push_str(": sprite {Sprite:");
                r.push_str(id.0.package.as_str());
                r.push_str("/");
                r.push_str(id.0.name.as_str());
                r.push_str("} has no animation '");
                r.push_str(animation.as_str());
                r.push_str("'");
            },
            ResolveError::SpriteLacksPalette { path, line_no, id, palette } => {
                r.push_str(path.as_str());
                r.push_str(":");
                let d = dec_of(*line_no as u64);
                r.push_str(d.as_str());
                r.push_str(": sprite {Sprite:");
                r.push_str(id.0.package.as_str());
                r.push_str("/");
                r.push_str(id.0.name.as_str());
                r.push_str("} has no palette '");
                r.push_str(palette.as_str());
                r.push_str("'");
            },
            ResolveError::UnknownText { path, line_no, id } => {
                r.push_str(path.as_str());
                r.push_str(":");
                let d = dec_of(*line_no as u64);
                r.push_str(d.as_str());
                r.push_str(": unknown string: {String:");
                r.push_str(id.0.package.as_str());
                r.push_str("/");
                r.push_str(id.0.name.as_str());
                r.push_str("}");
            },
            ResolveError::UnknownActor { path, line_no, id } => {
                r.push_str(path.as_str());
                r.push_str(":");
                let d = dec_of(*line_no as u64);
                r.push_str(d.as_str());
                r.push_str(": unknown actor: {Actor:");
                r.push_str(id.0.package.as_str());
                r.push_str("/");
                r.push_str(id.0.name.as_str());
                r.push_str("}");
            },
        }
        r
    }
}

/// Every record of the registry carries an assembled index.
pub open spec fn all_sprites_assembled(r: Registry<Sprite>) -> bool {
    forall|i: int| 0 <= i < r.entries@.len()
        ==> (#[trigger] r.entries@[i]).1.assembled_index is Some
}

pub open spec fn all_texts_assembled(r: Registry<Text>) -> bool {
    forall|i: int| 0 <= i < r.entries@.len()
        ==> (#[trigger] r.entries@[i]).1.assembled_index is Some
}

pub open spec fn all_actors_assembled(r: Registry<Actor>) -> bool {
    forall|i: int| 0 <= i < r.entries@.len()
        ==> (#[trigger] r.entries@[i]).1.assembled_index is Some
}

/// The first `}` or `{` at or after `i`.
pub open spec fn find_delim(s: Seq<char>, i: int) -> Option<int>
    decreases s.len() - i,
{
    if i < 0 || i >= s.len() {
        None
    } else if s[i] == '}' || s[i] == '{' {
        Some(i)
    } else {
        find_delim(s, i + 1)
    }
}

proof fn lemma_find_delim_some(s: Seq<char>, i: int, k: int)
    requires
        find_delim(s, i) == Some(k),
        0 <= i,
    ensures
        i <= k < s.len(),
        s[k] == '}' || s[k] == '{',
        forall|j: int| i <= j < k ==> s[j] != '}' && s[j] != '{',
    decreases s.len() - i,
{
    if i < s.len() && s[i] != '}' && s[i] != '{' {
        lemma_find_delim_some(s, i + 1, k);
    }
}

/// Finds the first `}` or `{` at or after `from`.
fn find_delim_exec(cs: &Vec<char>, from: usize) -> (r: Option<usize>)
    ensures
        match r {
            Some(k) => find_delim(cs@, from as int) == Some(k as int),
            None => find_delim(cs@, from as int) is None,
        },
{
    let n = cs.len();
    let mut i: usize = from;
    if from > n {
        return None;
    }
    while i < n
        invariant
            from <= i <= n,
            n == cs@.len(),
            find_delim(cs@, from as int) == find_delim(cs@, i as int),
        decreases n - i,
    {
        let c = cs[i];
        if c == '}' || c == '{' {
            return Some(i);
        }
        i = i + 1;
    }
    None
}

/// The segments of `s` split on `:` (a split always yields at least one
/// segment).
pub open spec fn split_colon_acc(s: Seq<char>, i: int, cur: Seq<char>) -> Seq<Seq<char>>
    decreases s.len() - i,
{
    if i < 0 || i >= s.len() {
        seq![cur]
    } else if s[i] == ':' {
        seq![cur] + split_colon_acc(s, i + 1, Seq::empty())
    } else {
        split_colon_acc(s, i + 1, cur.push(s[i]))
    }
}

pub open spec fn split_colon(s: Seq<char>) -> Seq<Seq<char>> {
    split_colon_acc(s, 0, Seq::empty())
}

/// Splits `cs` on colons into segment strings.
fn split_colon_exec(cs: &Vec<char>) -> (r: Vec<String>)
    ensures
        string_views(r@) == split_colon(cs@),
{
    let n = cs.len();
    let mut out: Vec<String> = Vec::new();
    let mut cur: Vec<char> = Vec::new();
    let mut i: usize = 0;
    while i < n
        invariant
            n == cs@.len(),
            i <= n,
            split_colon(cs@) == string_views(out@) + split_colon_acc(cs@, i as int, cur@),
        decreases n - i,
    {
        let c = cs[i];
        if c == ':' {
            let ghost pre = out@;
            let seg = string_of(cur.as_slice());
            out.push(seg);
            cur = Vec::new();
            proof {
                assert(string_views(out@) =~= string_views(pre).push(out@.last()@));
                assert(split_colon(cs@) =~= string_views(out@) + split_colon_acc(cs@,
                    i as int + 1, cur@));
            }
        } else {
            cur.push(c);
        }
        i = i + 1;
    }
    let ghost pre = out@;
    let seg = string_of(cur.as_slice());
    out.push(seg);
    proof {
        assert(string_views(out@) =~= string_views(pre).push(out@.last()@));
        assert(string_views(out@) =~= split_colon(cs@));
    }
    out
}

/// The first slot whose name matches.
pub open spec fn first_slot(list: Seq<String>, name: Seq<char>, i: int) -> Option<int>
    decreases list.len() - i,
{
    if i < 0 || i >= list.len() {
        None
    } else if list[i]@ == name {
        Some(i)
    } else {
        first_slot(list, name, i + 1)
    }
}

proof fn lemma_first_slot_from(list: Seq<String>, name: Seq<char>, i: int)
    requires
        0 <= i,
        forall|j: int| 0 <= j < i ==> (#[trigger] list[j])@ != name,
    ensures
        first_slot(list, name, 0) == first_slot(list, name, i),
    decreases i,
{
    if i > 0 {
        lemma_first_slot_from(list, name, i - 1);
    }
}

/// Whether the bracketed segments form one of the five expression shapes.
pub open spec fn is_form(segs: Seq<Seq<char>>) -> bool {
    ||| (segs[0] == "Sprite"@ && (segs.len() == 2 || segs.len() == 3 || segs.len() == 4))
    ||| (segs[0] == "String"@ && segs.len() == 2)
    ||| (segs[0] == "Actor"@ && segs.len() == 2)
}

/// The registry key an expression argument resolves to, against the
/// script's source package.
pub open spec fn arg_key(arg: Seq<char>, src: Seq<char>) -> (Seq<char>, Seq<char>) {
    (parse_package(arg, src), parse_name(arg, src))
}

/// Whether an expression of a valid shape resolves.
pub open spec fn expr_ok(
    segs: Seq<Seq<char>>,
    src: Seq<char>,
    sprites: Registry<Sprite>,
    texts: Registry<Text>,
    actors: Registry<Actor>,
) -> bool {
    &&& parse_ok(segs[1], src)
    &&& if segs[0] == "Sprite"@ {
        &&& sprites.as_map().contains_key(arg_key(segs[1], src))
        &&& (segs.len() >= 3 ==> first_slot(
            sprites.as_map()[arg_key(segs[1], src)].animations@, segs[2], 0) is Some)
        &&& (segs.len() == 4 ==> first_slot(
            sprites.as_map()[arg_key(segs[1], src)].palettes@, segs[3], 0) is Some)
    } else if segs[0] == "String"@ {
        texts.as_map().contains_key(arg_key(segs[1], src))
    } else {
        actors.as_map().contains_key(arg_key(segs[1], src))
    }
}

/// The replacement text of a resolving expression.
pub open spec fn expr_out(
    segs: Seq<Seq<char>>,
    src: Seq<char>,
    sprites: Registry<Sprite>,
    texts: Registry<Text>,
    actors: Registry<Actor>,
) -> Seq<char> {
    let k = arg_key(segs[1], src);
    if segs[0] == "Sprite"@ {
        let sp = sprites.as_map()[k];
        let idx = sp.assembled_index->Some_0;
        if segs.len() == 2 {
            spec_hex_pad(idx as nat, 2)
        } else if segs.len() == 3 {
            let ai = first_slot(sp.animations@, segs[2], 0)->Some_0;
            "00"@ + spec_hex_pad(idx as nat, 2) + "00"@ + spec_hex_pad(ai as nat, 2)
        } else {
            let ai = first_slot(sp.animations@, segs[2], 0)->Some_0;
            let pi = first_slot(sp.palettes@, segs[3], 0)->Some_0;
            "00"@ + spec_hex_pad(idx as nat, 2) + spec_hex_pad(pi as nat, 2)
                + spec_hex_pad(ai as nat, 2)
        }
    } else if segs[0] == "String"@ {
        let t = texts.as_map()[k];
        spec_hex_pad(t.section as nat, 4) + spec_hex_pad(t.assembled_index->Some_0 as nat, 4)
    } else {
        spec_hex_pad(actors.as_map()[k].assembled_index->Some_0 as nat, 2)
    }
}

/// Whether `e` is the error a failing expression reports.
pub open spec fn expr_fault(
    segs: Seq<Seq<char>>,
    src: Seq<char>,
    sprites: Registry<Sprite>,
    texts: Registry<Text>,
    actors: Registry<Actor>,
    e: ResolveError,
    path: Seq<char>,
    ln: int,
) -> bool {
    let k = arg_key(segs[1], src);
    if !parse_ok(segs[1], src) {
        e matches ResolveError::IdParseError { path: p, line_no, id_string, parse_error }
            && p@ == path && line_no == ln && id_string@ == segs[1]
            && parse_fault(segs[1], src, parse_error)
    } else if segs[0] == "Sprite"@ {
        if !sprites.as_map().contains_key(k) {
            e matches ResolveError::UnknownSprite { path: p, line_no, id } && p@ == path
                && line_no == ln && id.0.key() == k
        } else if segs.len() >= 3 && first_slot(
            sprites.as_map()[k].animations@, segs[2], 0) is None {
            e matches ResolveError::SpriteLacksAnimation { path: p, line_no, id, animation }
                && p@ == path && line_no == ln && id.0.key() == k && animation@ == segs[2]
        } else {
            segs.len() == 4 && first_slot(sprites.as_map()[k].palettes@, segs[3], 0) is None
                && (e matches ResolveError::SpriteLacksPalette { path: p, line_no, id, palette }
                    && p@ == path && line_no == ln && id.0.key() == k && palette@ == segs[3])
        }
    } else if segs[0] == "String"@ {
        !texts.as_map().contains_key(k)
            && (e matches ResolveError::UnknownText { path: p, line_no, id } && p@ == path
                && line_no == ln && id.0.key() == k)
    } else {
        !actors.as_map().contains_key(k)
            && (e matches ResolveError::UnknownActor { path: p, line_no, id } && p@ == path
                && line_no == ln && id.0.key() == k)
    }
}

/// Scans a line from position `i`: whether every expression from there on
/// resolves, and the rewritten text if so.
pub open spec fn scan(
    s: Seq<char>,
    i: int,
    src: Seq<char>,
    sprites: Registry<Sprite>,
    texts: Registry<Text>,
    actors: Registry<Actor>,
) -> (bool, Seq<char>)
    decreases s.len() - i,
{
    if i < 0 || i >= s.len() {
        (true, Seq::empty())
    } else if s[i] != '{' {
        let r = scan(s, i + 1, src, sprites, texts, actors);
        (r.0, seq![s[i]] + r.1)
    } else {
        let lit = scan(s, i + 1, src, sprites, texts, actors);
        match find_delim(s, i + 1) {
            Some(j) => if i + 1 <= j < s.len() && s[j] == '}' {
                let segs = split_colon(s.subrange(i + 1, j));
                if is_form(segs) {
                    if expr_ok(segs, src, sprites, texts, actors) {
                        let r = scan(s, j + 1, src, sprites, texts, actors);
                        (r.0, expr_out(segs, src, sprites, texts, actors) + r.1)
                    } else {
                        (false, Seq::empty())
                    }
                } else {
                    (lit.0, seq!['{'] + lit.1)
                }
            } else {
                (lit.0, seq!['{'] + lit.1)
            },
            None => (lit.0, seq!['{'] + lit.1),
        }
    }
}

proof fn lemma_first_slot_none(list: Seq<String>, name: Seq<char>, i: int)
    requires
        0 <= i,
        forall|j: int| i <= j < list.len() ==> (#[trigger] list[j])@ != name,
    ensures
        first_slot(list, name, i) is None,
    decreases list.len() - i,
{
    if i < list.len() {
        lemma_first_slot_none(list, name, i + 1);
    }
}

proof fn lemma_split_colon_nonempty(s: Seq<char>, i: int, cur: Seq<char>)
    ensures
        split_colon_acc(s, i, cur).len() >= 1,
    decreases s.len() - i,
{
    if 0 <= i < s.len() {
        if s[i] == ':' {
            lemma_split_colon_nonempty(s, i + 1, Seq::empty());
        } else {
            lemma_split_colon_nonempty(s, i + 1, cur.push(s[i]));
        }
    }
}

/// In a well-formed registry the record a contained key maps to is some
/// entry's record.
pub proof fn lemma_map_value_assembled_sprite(r: Registry<Sprite>, k: (Seq<char>, Seq<char>))
    requires
        r.wf(),
        all_sprites_assembled(r),
        r.as_map().contains_key(k),
    ensures
        r.as_map()[k].assembled_index is Some,
{
    crate::registry::lemma_map_of_contains(r.entries@, k);
    let i = choose|i: int| 0 <= i < r.entries@.len() && (#[trigger] r.entries@[i]).0.key() == k;
    crate::registry::lemma_map_of_unique_at(r.entries@, i);
}

pub proof fn lemma_map_value_assembled_text(r: Registry<Text>, k: (Seq<char>, Seq<char>))
    requires
        r.wf(),
        all_texts_assembled(r),
        r.as_map().contains_key(k),
    ensures
        r.as_map()[k].assembled_index is Some,
{
    crate::registry::lemma_map_of_contains(r.entries@, k);
    let i = choose|i: int| 0 <= i < r.entries@.len() && (#[trigger] r.entries@[i]).0.key() == k;
    crate::registry::lemma_map_of_unique_at(r.entries@, i);
}

pub proof fn lemma_map_value_assembled_actor(r: Registry<Actor>, k: (Seq<char>, Seq<char>))
    requires
        r.wf(),
        all_actors_assembled(r),
        r.as_map().contains_key(k),
    ensures
        r.as_map()[k].assembled_index is Some,
{
    crate::registry::lemma_map_of_contains(r.entries@, k);
    let i = choose|i: int| 0 <= i < r.entries@.len() && (#[trigger] r.entries@[i]).0.key() == k;
    crate::registry::lemma_map_of_unique_at(r.entries@, i);
}

/// Resolves one well-shaped expression against the registries.
fn eval_expr(
    segs: &Vec<String>,
    src: &str,
    sprites: &Registry<Sprite>,
    texts: &Registry<Text>,
    actors: &Registry<Actor>,
    path: &str,
    line_no: usize,
) -> (r: Result<String, ResolveError>)
    requires
        is_form(string_views(segs@)),
        segs@.len() >= 2,
        sprites.wf(),
        texts.wf(),
        actors.wf(),
        all_sprites_assembled(*sprites),
        all_texts_assembled(*texts),
        all_actors_assembled(*actors),
    ensures
        r matches Ok(t) ==> expr_ok(string_views(segs@), src@, *sprites, *texts, *actors)
            && t@ == expr_out(string_views(segs@), src@, *sprites, *texts, *actors),
        r matches Err(e) ==> !expr_ok(string_views(segs@), src@, *sprites, *texts, *actors)
            && expr_fault(string_views(segs@), src@, *sprites, *texts, *actors, e, path@,
                line_no as int),
{
    let ghost sv = string_views(segs@);
    let id = match parse_identifier(segs[1].as_str(), src) {
        Ok(id) => id,
        Err(pe) => {
            return Err(ResolveError::IdParseError {
                path: path.to_owned(),
                line_no,
                id_string: segs[1].clone(),
                parse_error: pe,
            });
        },
    };
    assert(id.key() == arg_key(sv[1], src@));
    if crate::strutil::str_eq(segs[0].as_str(), "Sprite") {
        let sp = match sprites.get(&id) {
            Some(sp) => sp,
            None => {
                return Err(ResolveError::UnknownSprite {
                    path: path.to_owned(),
                    line_no,
                    id: SpriteId(id),
                });
            },
        };
        proof {
            lemma_map_value_assembled_sprite(*sprites, id.key());
        }
        let idx = sp.assembled_index.unwrap();
        if segs.len() == 2 {
            Ok(hex_pad(idx as u64, 2))
        } else {
            let ai = match sp.animation_by_name(segs[2].as_str()) {
                Some(ai) => {
                    proof {
                        lemma_first_slot_from(sp.animations@, sv[2], ai as int);
                    }
                    ai
                },
                None => {
                    proof {
                        lemma_first_slot_none(sp.animations@, sv[2], 0);
                    }
                    return Err(ResolveError::SpriteLacksAnimation {
                        path: path.to_owned(),
                        line_no,
                        id: SpriteId(id),
                        animation: segs[2].clone(),
                    });
                },
            };
            if segs.len() == 3 {
                let mut out = String::new();
                out.push_str("00");
                let h = hex_pad(idx as u64, 2);
                out.push_str(h.as_str());
                out.push_str("00");
                let a = hex_pad(ai as u64, 2);
                out.push_str(a.as_str());
                Ok(out)
            } else {
                let pi = match sp.palette_by_name(segs[3].as_str()) {
                    Some(pi) => {
                        proof {
                            lemma_first_slot_from(sp.palettes@, sv[3], pi as int);
                        }
                        pi
                    },
                    None => {
                        proof {
                            lemma_first_slot_none(sp.palettes@, sv[3], 0);
                        }
                        return Err(ResolveError::SpriteLacksPalette {
                            path: path.to_owned(),
                            line_no,
                            id: SpriteId(id),
                            palette: segs[3].clone(),
                        });
                    },
                };
                let mut out = String::new();
                out.push_str("00");
                let h = hex_pad(idx as u64, 2);
                out.push_str(h.as_str());
                let p2 = hex_pad(pi as u64, 2);
                out.push_str(p2.as_str());
                let a = hex_pad(ai as u64, 2);
                out.push_str(a.as_str());
                Ok(out)
            }
        }
    } else if crate::strutil::str_eq(segs[0].as_str(), "String") {
        let t = match texts.get(&id) {
            Some(t) => t,
            None => {
                return Err(ResolveError::UnknownText {
                    path: path.to_owned(),
                    line_no,
                    id: TextId(id),
                });
            },
        };
        proof {
            lemma_map_value_assembled_text(*texts, id.key());
        }
        let tidx = t.assembled_index.unwrap();
        let mut out = hex_pad(t.section as u64, 4);
        let lo = hex_pad(tidx as u64, 4);
        out.push_str(lo.as_str());
        Ok(out)
    } else {
        assert(sv[0] == "Actor"@);
        let a = match actors.get(&id) {
            Some(a) => a,
            None => {
                return Err(ResolveError::UnknownActor {
                    path: path.to_owned(),
                    line_no,
                    id: ActorId(id),
                });
            },
        };
        proof {
            lemma_map_value_assembled_actor(*actors, id.key());
        }
        let aidx = a.assembled_index.unwrap();
        Ok(hex_pad(aidx as u64, 2))
    }
}

/// Rewrites a line from position `i` on, resolving every expression.
fn resolve_from(
    cs: &Vec<char>,
    i: usize,
    src: &str,
    sprites: &Registry<Sprite>,
    texts: &Registry<Text>,
    actors: &Registry<Actor>,
    path: &str,
    line_no: usize,
) -> (r: Result<String, ResolveError>)
    requires
        i <= cs@.len(),
        sprites.wf(),
        texts.wf(),
        actors.wf(),
        all_sprites_assembled(*sprites),
        all_texts_assembled(*texts),
        all_actors_assembled(*actors),
    ensures
        r matches Ok(t) ==> scan(cs@, i as int, src@, *sprites, *texts, *actors).0
            && t@ == scan(cs@, i as int, src@, *sprites, *texts, *actors).1,
        r matches Err(e) ==> !scan(cs@, i as int, src@, *sprites, *texts, *actors).0
            && scan_fault(cs@, i as int, src@, *sprites, *texts, *actors, e, path@,
                line_no as int),
    decreases cs@.len() - i,
{
    if i == cs.len() {
        return Ok(String::new());
    }
    let c = cs[i];
    if c != '{' {
        match resolve_from(cs, i + 1, src, sprites, texts, actors, path, line_no) {
            Ok(rest) => {
                let mut out = String::new();
                out.push(c);
                out.push_str(rest.as_str());
                assert(out@ =~= scan(cs@, i as int, src@, *sprites, *texts, *actors).1);
                Ok(out)
            },
            Err(e) => Err(e),
        }
    } else {
        let dl = find_delim_exec(cs, i + 1);
        let mut close: Option<usize> = None;
        match dl {
            Some(j) => {
                proof {
                    lemma_find_delim_some(cs@, i as int + 1, j as int);
                }
                if cs[j] == '}' {
                    close = Some(j);
                }
            },
            None => {},
        }
        match close {
            Some(j) => {
                let mut content: Vec<char> = Vec::new();
                let mut k: usize = i + 1;
                while k < j
                    invariant
                        i + 1 <= k <= j <= cs@.len(),
                        content@ == cs@.subrange(i as int + 1, k as int),
                    decreases j - k,
                {
                    content.push(cs[k]);
                    k = k + 1;
                    assert(content@ =~= cs@.subrange(i as int + 1, k as int));
                }
                let segs = split_colon_exec(&content);
                proof {
                    lemma_split_colon_nonempty(content@, 0, Seq::empty());
                }
                let ghost sv = string_views(segs@);
                let nsegs = segs.len();
                let form = if crate::strutil::str_eq(segs[0].as_str(), "Sprite") {
                    nsegs == 2 || nsegs == 3 || nsegs == 4
                } else if crate::strutil::str_eq(segs[0].as_str(), "String") {
                    nsegs == 2
                } else if crate::strutil::str_eq(segs[0].as_str(), "Actor") {
                    nsegs == 2
                } else {
                    false
                };
                assert(form == is_form(sv));
                if form {
                    match eval_expr(&segs, src, sprites, texts, actors, path, line_no) {
                        Ok(rep) => {
                            match resolve_from(cs, j + 1, src, sprites, texts, actors, path,
                                line_no) {
                                Ok(rest) => {
                                    let mut out = rep;
                                    out.push_str(rest.as_str());
                                    assert(out@ =~= scan(cs@, i as int, src@, *sprites,
                                        *texts, *actors).1);
                                    Ok(out)
                                },
                                Err(e) => Err(e),
                            }
                        },
                        Err(e) => Err(e),
                    }
                } else {
                    match resolve_from(cs, i + 1, src, sprites, texts, actors, path, line_no) {
                        Ok(rest) => {
                            let mut out = String::new();
                            out.push('{');
                            out.push_str(rest.as_str());
                            assert(out@ =~= scan(cs@, i as int, src@, *sprites, *texts,
                                *actors).1);
                            Ok(out)
                        },
                        Err(e) => Err(e),
                    }
                }
            },
            None => {
                match resolve_from(cs, i + 1, src, sprites, texts, actors, path, line_no) {
                    Ok(rest) => {
                        let mut out = String::new();
                        out.push('{');
                        out.push_str(rest.as_str());
                        assert(out@ =~= scan(cs@, i as int, src@, *sprites, *texts,
                            *actors).1);
                        Ok(out)
                    },
                    Err(e) => Err(e),
                }
            },
        }
    }
}

/// Whether `e` is the error the first failing expression at or after `i`
/// reports.
pub open spec fn scan_fault(
    s: Seq<char>,
    i: int,
    src: Seq<char>,
    sprites: Registry<Sprite>,
    texts: Registry<Text>,
    actors: Registry<Actor>,
    e: ResolveError,
    path: Seq<char>,
    ln: int,
) -> bool
    decreases s.len() - i,
{
    if i < 0 || i >= s.len() {
        false
    } else if s[i] != '{' {
        scan_fault(s, i + 1, src, sprites, texts, actors, e, path, ln)
    } else {
        match find_delim(s, i + 1) {
            Some(j) => if i + 1 <= j < s.len() && s[j] == '}' {
                let segs = split_colon(s.subrange(i + 1, j));
                if is_form(segs) {
                    if expr_ok(segs, src, sprites, texts, actors) {
                        scan_fault(s, j + 1, src, sprites, texts, actors, e, path, ln)
                    } else {
                        expr_fault(segs, src, sprites, texts, actors, e, path, ln)
                    }
                } else {
                    scan_fault(s, i + 1, src, sprites, texts, actors, e, path, ln)
                }
            } else {
                scan_fault(s, i + 1, src, sprites, texts, actors, e, path, ln)
            },
            None => scan_fault(s, i + 1, src, sprites, texts, actors, e, path, ln),
        }
    }
}

/// The first line of the block, at or after `l`, with a failing expression.
pub open spec fn first_bad_line(
    b: Seq<(int, Seq<char>)>,
    l: int,
    src: Seq<char>,
    sprites: Registry<Sprite>,
    texts: Registry<Text>,
    actors: Registry<Actor>,
) -> Option<int>
    decreases b.len() - l,
{
    if l < 0 || l >= b.len() {
        None
    } else if !scan(b[l].1, 0, src, sprites, texts, actors).0 {
        Some(l)
    } else {
        first_bad_line(b, l + 1, src, sprites, texts, actors)
    }
}

/// The first (block, line) position, at or after block `k`, with a failing
/// expression.
pub open spec fn first_bad(
    bs: Seq<Seq<(int, Seq<char>)>>,
    k: int,
    src: Seq<char>,
    sprites: Registry<Sprite>,
    texts: Registry<Text>,
    actors: Registry<Actor>,
) -> Option<(int, int)>
    decreases bs.len() - k,
{
    if k < 0 || k >= bs.len() {
        None
    } else {
        match first_bad_line(bs[k], 0, src, sprites, texts, actors) {
            Some(l) => Some((k, l)),
            None => first_bad(bs, k + 1, src, sprites, texts, actors),
        }
    }
}

impl Script {
    /// Resolves every `{Kind:...}` expression of every line against the
    /// assembled registries.  On failure the script is left unchanged and
    /// the error describes the first failing expression.
    pub fn resolve_expressions(
        &mut self,
        sprites: &Registry<Sprite>,
        texts: &Registry<Text>,
        actors: &Registry<Actor>,
    ) -> (r: Result<(), ResolveError>)
        requires
            sprites.wf(),
            texts.wf(),
            actors.wf(),
            all_sprites_assembled(*sprites),
            all_texts_assembled(*texts),
            all_actors_assembled(*actors),
        ensures
            r is Ok <==> first_bad(blocks_views(old(self).blocks@), 0,
                old(self).src_pkg_name@, *sprites, *texts, *actors) is None,
            r matches Err(e) ==> *final(self) == *old(self)
                && (first_bad(blocks_views(old(self).blocks@), 0, old(self).src_pkg_name@,
                    *sprites, *texts, *actors) matches Some(p)
                    && scan_fault(blocks_views(old(self).blocks@)[p.0][p.1].1, 0,
                        old(self).src_pkg_name@, *sprites, *texts, *actors, e,
                        old(self).path@, blocks_views(old(self).blocks@)[p.0][p.1].0)),
            r matches Ok(()) ==> {
                &&& final(self).path == old(self).path
                &&& final(self).src_pkg_name == old(self).src_pkg_name
                &&& final(self).blocks@.len() == old(self).blocks@.len()
                &&& forall|k: int| 0 <= k < old(self).blocks@.len() ==> {
                    let ob = #[trigger] old(self).blocks@[k];
                    let nb = final(self).blocks@[k];
                    &&& nb.kind == ob.kind
                    &&& nb.lines@.len() == ob.lines@.len()
                    &&& forall|l: int| 0 <= l < ob.lines@.len() ==> {
                        let ol = #[trigger] ob.lines@[l];
                        let nl = nb.lines@[l];
                        &&& nl.0 == ol.0
                        &&& nl.1@ == scan(ol.1@, 0, old(self).src_pkg_name@, *sprites,
                            *texts, *actors).1
                    }
                }
            },
    {
        let ghost bs = blocks_views(self.blocks@);
        let ghost src_v = self.src_pkg_name@;
        let nb = self.blocks.len();
        assert(bs.len() == nb);
        let mut new_lines: Vec<Vec<(usize, String)>> = Vec::new();
        let mut bi: usize = 0;
        while bi < nb
            invariant
                bs == blocks_views(self.blocks@),
                src_v == self.src_pkg_name@,
                nb == self.blocks@.len(),
                nb == bs.len(),
                sprites.wf(),
                texts.wf(),
                actors.wf(),
                all_sprites_assembled(*sprites),
                all_texts_assembled(*texts),
                all_actors_assembled(*actors),
                *self == *old(self),
                bi <= nb,
                first_bad(bs, 0, src_v, *sprites, *texts, *actors) == first_bad(bs, bi as int,
                    src_v, *sprites, *texts, *actors),
                new_lines@.len() == bi,
                forall|k: int| 0 <= k < bi ==> {
                    let ob = #[trigger] self.blocks@[k];
                    let nl = new_lines@[k];
                    &&& nl@.len() == ob.lines@.len()
                    &&& forall|l: int| 0 <= l < ob.lines@.len() ==> {
                        let olv = #[trigger] ob.lines@[l];
                        &&& nl@[l].0 == olv.0
                        &&& nl@[l].1@ == scan(olv.1@, 0, src_v, *sprites, *texts, *actors).1
                    }
                },
            decreases nb - bi,
        {
            let block = &self.blocks[bi];
            let nl = block.lines.len();
            proof {
                assert(block.lines_view() == bs[bi as int]);
            }
            let mut lines: Vec<(usize, String)> = Vec::new();
            let mut li: usize = 0;
            while li < nl
                invariant
                    bs == blocks_views(self.blocks@),
                    src_v == self.src_pkg_name@,
                    nb == self.blocks@.len(),
                    nb == bs.len(),
                    bi < nb,
                    block == self.blocks@[bi as int],
                    nl == block.lines@.len(),
                    sprites.wf(),
                    texts.wf(),
                    actors.wf(),
                    all_sprites_assembled(*sprites),
                    all_texts_assembled(*texts),
                    all_actors_assembled(*actors),
                    *self == *old(self),
                    li <= nl,
                    first_bad(bs, 0, src_v, *sprites, *texts, *actors) == first_bad(bs,
                        bi as int, src_v, *sprites, *texts, *actors),
                    first_bad_line(bs[bi as int], 0, src_v, *sprites, *texts, *actors)
                        == first_bad_line(bs[bi as int], li as int, src_v, *sprites, *texts,
                            *actors),
                    lines@.len() == li,
                    forall|l: int| 0 <= l < li ==> {
                        let olv = (#[trigger] block.lines@[l].0 as int, block.lines@[l].1@);
                        &&& lines@[l].0 == block.lines@[l].0
                        &&& lines@[l].1@ == scan(block.lines@[l].1@, 0, src_v, *sprites,
                            *texts, *actors).1
                    },
                decreases nl - li,
            {
                proof {
                    assert(bs[bi as int][li as int] == (block.lines@[li as int].0 as int,
                        block.lines@[li as int].1@));
                }
                let line_no = block.lines[li].0;
                let cs = crate::strutil::chars_of(block.lines[li].1.as_str());
                match resolve_from(&cs, 0, self.src_pkg_name.as_str(), sprites, texts, actors,
                    self.path.as_str(), line_no) {
                    Ok(t) => {
                        lines.push((line_no, t));
                    },
                    Err(e) => {
                        proof {
                            assert(!scan(bs[bi as int][li as int].1, 0, src_v, *sprites,
                                *texts, *actors).0);
                            assert(first_bad_line(bs[bi as int], li as int, src_v, *sprites,
                                *texts, *actors) == Some(li as int));
                            assert(first_bad(bs, bi as int, src_v, *sprites, *texts, *actors)
                                == Some((bi as int, li as int)));
                        }
                        return Err(e);
                    },
                }
                li = li + 1;
            }
            new_lines.push(lines);
            bi = bi + 1;
        }
        // Every line resolved: write the new lines back, block by block.
        let mut old_blocks: Vec<Block> = Vec::new();
        core::mem::swap(&mut old_blocks, &mut self.blocks);
        let ghost ob = old_blocks@;
        let mut rebuilt: Vec<Block> = Vec::new();
        let mut rest_lines = new_lines;
        let mut k: usize = 0;
        while k < nb
            invariant
                nb == ob.len(),
                k <= nb,
                old_blocks@ == ob.skip(k as int),
                rest_lines@.len() == nb - k,
                rebuilt@.len() == k,
                forall|x: int| 0 <= x < nb - k ==> {
                    let b0 = #[trigger] ob[k + x];
                    let nl = rest_lines@[x];
                    &&& nl@.len() == b0.lines@.len()
                    &&& forall|l: int| 0 <= l < b0.lines@.len() ==> {
                        let olv = #[trigger] b0.lines@[l];
                        &&& nl@[l].0 == olv.0
                        &&& nl@[l].1@ == scan(olv.1@, 0, src_v, *sprites, *texts, *actors).1
                    }
                },
                forall|x: int| 0 <= x < k ==> {
                    let b0 = #[trigger] ob[x];
                    let b1 = rebuilt@[x];
                    &&& b1.kind == b0.kind
                    &&& b1.lines@.len() == b0.lines@.len()
                    &&& forall|l: int| 0 <= l < b0.lines@.len() ==> {
                        let olv = #[trigger] b0.lines@[l];
                        &&& b1.lines@[l].0 == olv.0
                        &&& b1.lines@[l].1@ == scan(olv.1@, 0, src_v, *sprites, *texts,
                            *actors).1
                    }
                },
            decreases nb - k,
        {
            let ghost pre_rest = rest_lines@;
            let ghost pre_rebuilt = rebuilt@;
            let b0 = old_blocks.remove(0);
            let nl = rest_lines.remove(0);
            proof {
                assert(ob.skip(k as int)[0] == ob[k as int]);
                assert(ob.skip(k as int).drop_first() =~= ob.skip(k as int + 1));
                assert(b0 == ob[k as int]);
                assert(nl == pre_rest[0]);
            }
            rebuilt.push(Block { kind: b0.kind, lines: nl });
            proof {
                assert forall|x: int| 0 <= x < nb - (k + 1) implies {
                    let c0 = #[trigger] ob[k + 1 + x];
                    let cl = rest_lines@[x];
                    &&& cl@.len() == c0.lines@.len()
                    &&& forall|l: int| 0 <= l < c0.lines@.len() ==> {
                        let olv = #[trigger] c0.lines@[l];
                        &&& cl@[l].0 == olv.0
                        &&& cl@[l].1@ == scan(olv.1@, 0, src_v, *sprites, *texts, *actors).1
                    }
                } by {
                    assert(rest_lines@[x] == pre_rest[x + 1]);
                    assert(ob[k + 1 + x] == ob[k as int + (x + 1)]);
                }
                assert forall|x: int| 0 <= x < k + 1 implies {
                    let c0 = #[trigger] ob[x];
                    let c1 = rebuilt@[x];
                    &&& c1.kind == c0.kind
                    &&& c1.lines@.len() == c0.lines@.len()
                    &&& forall|l: int| 0 <= l < c0.lines@.len() ==> {
                        let olv = #[trigger] c0.lines@[l];
                        &&& c1.lines@[l].0 == olv.0
                        &&& c1.lines@[l].1@ == scan(olv.1@, 0, src_v, *sprites, *texts,
                            *actors).1
                    }
                } by {
                    if x < k {
                        assert(rebuilt@[x] == pre_rebuilt[x]);
                    } else {
                        assert(ob[k as int + 0] == ob[x]);
                        assert(rebuilt@[x].kind == b0.kind && rebuilt@[x].lines == nl);
                        assert(nl == pre_rest[0]);
                    }
                }
            }
            k = k + 1;
        }
        self.blocks = rebuilt;
        Ok(())
    }
}

} // verus!

//! The line-oriented mod-script dialect: comment stripping, blank-line
//! block splitting, block classification, and serialization back to text.
//!
//! A script is parsed in three steps.  Comments are removed first: `%`
//! starts a line comment running to the end of the line, `/%` starts a block
//! comment ended by the next `%/` (a bare `%` inside one has no effect), and
//! carriage returns are dropped; a trailing newline is synthesized so the
//! final block always closes.  The text is then split into trimmed lines,
//! and runs of non-blank lines between blank lines become blocks.  Each
//! block is classified once by its first line: one matching
//! `#string:<2-hex>:(<name>)` is a named string block, anything else is
//! plain.

use vstd::prelude::*;
use crate::strutil::{chars_of, string_of};

verus! {

/// Comment-stripping state: inside a block comment, inside a line comment,
/// the previous character, and the output so far.
pub open spec fn strip_step(
    st: (bool, bool, char, Seq<char>),
    ch: char,
) -> (bool, bool, char, Seq<char>) {
    let (in_block, in_line, prev, out) = st;
    if in_block {
        if ch == '/' && prev == '%' {
            (false, in_line, ch, out)
        } else {
            (true, in_line, ch, out)
        }
    } else if in_line {
        if ch == '\n' {
            (in_block, false, ch, out)
        } else {
            (in_block, true, ch, out)
        }
    } else if ch == '\r' {
        (in_block, in_line, ch, out)
    } else if ch == '%' {
        if prev == '/' {
            (true, in_line, ch, if out.len() > 0 { out.drop_last() } else { out })
        } else {
            (in_block, true, ch, if prev != '\n' { out.push('\n') } else { out })
        }
    } else {
        (in_block, in_line, ch, out.push(ch))
    }
}

/// The stripping state after the first `i` characters of `s`.
pub open spec fn strip_acc(s: Seq<char>, i: int) -> (bool, bool, char, Seq<char>)
    decreases i,
{
    if i <= 0 {
        (false, false, '_', Seq::empty())
    } else {
        strip_step(strip_acc(s, i - 1), s[i - 1])
    }
}

/// `s` with comments removed and a trailing newline synthesized.
pub open spec fn strip_comments_spec(s: Seq<char>) -> Seq<char> {
    strip_acc(s, s.len() as int).3.push('\n')
}

/// Strips comments from script source.
pub fn strip_comments(source: &str) -> (r: Vec<char>)
    ensures
        r@ == strip_comments_spec(source@),
{
    let cs = chars_of(source);
    let n = cs.len();
    let mut out: Vec<char> = Vec::new();
    let mut in_block = false;
    let mut in_line = false;
    let mut prev = '_';
    let mut i: usize = 0;
    while i < n
        invariant
            n == source@.len(),
            cs@ == source@,
            i <= n,
            (in_block, in_line, prev, out@) == strip_acc(source@, i as int),
        decreases n - i,
    {
        let ch = cs[i];
        if in_block {
            if ch == '/' && prev == '%' {
                in_block = false;
            }
        } else if in_line {
            if ch == '\n' {
                in_line = false;
            }
        } else if ch == '\r' {
        } else if ch == '%' {
            if prev == '/' {
                if out.len() > 0 {
                    let _ = out.pop();
                }
                in_block = true;
            } else {
                in_line = true;
                if prev != '\n' {
                    out.push('\n');
                }
            }
        } else {
            out.push(ch);
        }
        prev = ch;
        i = i + 1;
    }
    out.push('\n');
    out
}

/// The lines of `s`, split on newlines, processed from position `i` with the
/// current unfinished line `cur`.
pub open spec fn split_lines_acc(s: Seq<char>, i: int, cur: Seq<char>) -> Seq<Seq<char>>
    decreases s.len() - i,
{
    if i < 0 || i >= s.len() {
        if cur.len() > 0 {
            seq![cur]
        } else {
            Seq::empty()
        }
    } else if s[i] == '\n' {
        seq![cur] + split_lines_acc(s, i + 1, Seq::empty())
    } else {
        split_lines_acc(s, i + 1, cur.push(s[i]))
    }
}

pub open spec fn split_lines(s: Seq<char>) -> Seq<Seq<char>> {
    split_lines_acc(s, 0, Seq::empty())
}

/// Whitespace trimmed from line ends.
pub open spec fn is_space(c: char) -> bool {
    c == ' ' || c == '\t' || c == '\r' || c == '\n' || c == '\u{b}' || c == '\u{c}'
}

pub open spec fn trim_start_idx(s: Seq<char>, i: int) -> int
    decreases s.len() - i,
{
    if i < 0 || i >= s.len() || !is_space(s[i]) {
        i
    } else {
        trim_start_idx(s, i + 1)
    }
}

pub open spec fn trim_end_idx(s: Seq<char>, j: int) -> int
    decreases j,
{
    if j <= 0 || j > s.len() || !is_space(s[j - 1]) {
        j
    } else {
        trim_end_idx(s, j - 1)
    }
}

/// `s` with leading and trailing whitespace removed.
pub open spec fn trim_spec(s: Seq<char>) -> Seq<char> {
    let a = trim_start_idx(s, 0);
    let b = trim_end_idx(s, s.len() as int);
    if a < b {
        s.subrange(a, b)
    } else {
        Seq::empty()
    }
}

proof fn lemma_trim_start_bounds(s: Seq<char>, i: int)
    requires
        0 <= i <= s.len(),
    ensures
        i <= trim_start_idx(s, i) <= s.len(),
        forall|j: int| i <= j < trim_start_idx(s, i) ==> is_space(s[j]),
        trim_start_idx(s, i) < s.len() ==> !is_space(s[trim_start_idx(s, i)]),
    decreases s.len() - i,
{
    if i < s.len() && is_space(s[i]) {
        lemma_trim_start_bounds(s, i + 1);
    }
}

proof fn lemma_trim_end_bounds(s: Seq<char>, j: int)
    requires
        0 <= j <= s.len(),
    ensures
        0 <= trim_end_idx(s, j) <= j,
        forall|k: int| trim_end_idx(s, j) <= k < j ==> is_space(s[k]),
        trim_end_idx(s, j) > 0 ==> !is_space(s[trim_end_idx(s, j) - 1]),
    decreases j,
{
    if j > 0 && j <= s.len() && is_space(s[j - 1]) {
        lemma_trim_end_bounds(s, j - 1);
    }
}

/// Trims whitespace from both ends of a line.
pub fn trim_chars(s: &Vec<char>) -> (r: Vec<char>)
    ensures
        r@ == trim_spec(s@),
{
    let n = s.len();
    let mut a: usize = 0;
    while a < n
        invariant_except_break
            n == s@.len(),
            a <= n,
            trim_start_idx(s@, 0) == trim_start_idx(s@, a as int),
        ensures
            n == s@.len(),
            a as int == trim_start_idx(s@, 0),
        decreases n - a,
    {
        let c = s[a];
        if !(c == ' ' || c == '\t' || c == '\r' || c == '\n' || c == '\u{b}' || c == '\u{c}') {
            assert(trim_start_idx(s@, a as int) == a as int);
            break;
        }
        a = a + 1;
    }
    let mut b: usize = n;
    while b > 0
        invariant_except_break
            n == s@.len(),
            b <= n,
            trim_end_idx(s@, n as int) == trim_end_idx(s@, b as int),
        ensures
            n == s@.len(),
            b <= n,
            b as int == trim_end_idx(s@, n as int),
        decreases b,
    {
        let c = s[b - 1];
        if !(c == ' ' || c == '\t' || c == '\r' || c == '\n' || c == '\u{b}' || c == '\u{c}') {
            assert(trim_end_idx(s@, b as int) == b as int);
            break;
        }
        b = b - 1;
    }
    assert(a as int == trim_start_idx(s@, 0));
    assert(b as int == trim_end_idx(s@, n as int));
    proof {
        lemma_trim_start_bounds(s@, 0);
        lemma_trim_end_bounds(s@, n as int);
    }
    let mut r: Vec<char> = Vec::new();
    if a < b {
        let mut i: usize = a;
        while i < b
            invariant
                a <= i <= b <= n,
                n == s@.len(),
                r@ == s@.subrange(a as int, i as int),
            decreases b - i,
        {
            r.push(s[i]);
            i = i + 1;
            assert(r@ =~= s@.subrange(a as int, i as int));
        }
    }
    assert(r@ =~= trim_spec(s@));
    r
}

/// The views of a vector of character vectors.
pub open spec fn char_views(vs: Seq<Vec<char>>) -> Seq<Seq<char>> {
    vs.map_values(|v: Vec<char>| v@)
}

/// Splits `cs` into its lines.
pub fn split_into_lines(cs: &Vec<char>) -> (r: Vec<Vec<char>>)
    ensures
        char_views(r@) == split_lines(cs@),
{
    let n = cs.len();
    let mut out: Vec<Vec<char>> = Vec::new();
    let mut cur: Vec<char> = Vec::new();
    let mut i: usize = 0;
    while i < n
        invariant
            n == cs@.len(),
            i <= n,
            split_lines(cs@) == char_views(out@) + split_lines_acc(cs@, i as int, cur@),
        decreases n - i,
    {
        let c = cs[i];
        if c == '\n' {
            out.push(cur);
            cur = Vec::new();
            proof {
                assert(char_views(out@) =~= char_views(out@.drop_last()).push(
                    out@.last()@));
                assert(split_lines(cs@) =~= char_views(out@) + split_lines_acc(
                    cs@, (i + 1) as int, cur@));
            }
        } else {
            cur.push(c);
        }
        i = i + 1;
    }
    if cur.len() > 0 {
        out.push(cur);
        proof {
            assert(char_views(out@) =~= char_views(out@.drop_last()).push(out@.last()@));
        }
    }
    assert(char_views(out@) =~= split_lines(cs@));
    out
}

/// Groups trimmed lines into blank-line-delimited blocks: `buf` holds the
/// numbered lines of the block currently being collected.
pub open spec fn group_blocks(
    lines: Seq<Seq<char>>,
    i: int,
    buf: Seq<(int, Seq<char>)>,
) -> Seq<Seq<(int, Seq<char>)>>
    decreases lines.len() - i,
{
    if i < 0 || i >= lines.len() {
        if buf.len() > 0 {
            seq![buf]
        } else {
            Seq::empty()
        }
    } else {
        let t = trim_spec(lines[i]);
        if t.len() == 0 {
            if buf.len() > 0 {
                seq![buf] + group_blocks(lines, i + 1, Seq::empty())
            } else {
                group_blocks(lines, i + 1, buf)
            }
        } else {
            group_blocks(lines, i + 1, buf.push((i + 1, t)))
        }
    }
}

/// The numbered, trimmed block contents of a script source: comments are
/// stripped, the text is split into lines, and runs of non-blank trimmed
/// lines between blank lines become blocks, each line paired with its
/// 1-based line number.
pub open spec fn script_blocks_spec(source: Seq<char>) -> Seq<Seq<(int, Seq<char>)>> {
    group_blocks(split_lines(strip_comments_spec(source)), 0, Seq::empty())
}

pub open spec fn is_hex_up(c: char) -> bool {
    ('0' <= c && c <= '9') || ('A' <= c && c <= 'F')
}

pub open spec fn hex_char_val(c: char) -> int {
    if '0' <= c && c <= '9' {
        c as int - '0' as int
    } else {
        c as int - 'A' as int + 10
    }
}

/// The value of an uppercase hexadecimal digit character.
pub fn hex_val(c: char) -> (r: u8)
    requires
        is_hex_up(c),
    ensures
        r == hex_char_val(c),
        r < 16,
{
    if '0' <= c && c <= '9' {
        ((c as u32) - ('0' as u32)) as u8
    } else {
        ((c as u32) - ('A' as u32) + 10) as u8
    }
}

/// The position of the last `)` in `s`.
pub open spec fn last_close(s: Seq<char>) -> Option<int>
    decreases s.len(),
{
    if s.len() == 0 {
        None
    } else if s[s.len() - 1] == ')' {
        Some(s.len() - 1)
    } else {
        last_close(s.drop_last())
    }
}

proof fn lemma_last_close_at(s: Seq<char>, j: int)
    requires
        0 <= j < s.len(),
        s[j] == ')',
        forall|k: int| j < k < s.len() ==> s[k] != ')',
    ensures
        last_close(s) == Some(j),
    decreases s.len(),
{
    if j < s.len() - 1 {
        assert forall|k: int| j < k < s.drop_last().len() implies s.drop_last()[k] != ')' by {
            assert(s.drop_last()[k] == s[k]);
        }
        lemma_last_close_at(s.drop_last(), j);
    }
}

proof fn lemma_last_close_none(s: Seq<char>)
    requires
        forall|k: int| 0 <= k < s.len() ==> s[k] != ')',
    ensures
        last_close(s) is None,
    decreases s.len(),
{
    if s.len() > 0 {
        assert forall|k: int| 0 <= k < s.drop_last().len() implies s.drop_last()[k] != ')' by {
            assert(s.drop_last()[k] == s[k]);
        }
        lemma_last_close_none(s.drop_last());
    }
}

/// Whether the text `#string:HH:(` starts at position `i` of `s`, with two
/// uppercase hexadecimal digits.
pub open spec fn header_shape_at(s: Seq<char>, i: int) -> bool {
    &&& 0 <= i
    &&& i + 12 <= s.len()
    &&& s[i] == '#' && s[i + 1] == 's' && s[i + 2] == 't' && s[i + 3] == 'r'
    &&& s[i + 4] == 'i' && s[i + 5] == 'n' && s[i + 6] == 'g' && s[i + 7] == ':'
    &&& is_hex_up(s[i + 8]) && is_hex_up(s[i + 9])
    &&& s[i + 10] == ':' && s[i + 11] == '('
}

/// Whether a named-string header matches at position `i`: the header shape,
/// and a closing `)` somewhere after the opening parenthesis.  The name runs
/// to the last `)` of the line.
pub open spec fn header_at(s: Seq<char>, i: int) -> bool {
    header_shape_at(s, i) && (last_close(s) matches Some(j) && j >= i + 12)
}

/// The first position at which a named-string header matches.
pub open spec fn first_header(s: Seq<char>, i: int) -> Option<int>
    decreases s.len() - i,
{
    if i < 0 || i + 12 > s.len() {
        None
    } else if header_at(s, i) {
        Some(i)
    } else {
        first_header(s, i + 1)
    }
}

/// Whether a block's first line classifies it as a named string block.
pub open spec fn is_string_named(s: Seq<char>) -> bool {
    first_header(s, 0) is Some
}

/// The section number a named string block declares.
pub open spec fn named_section(s: Seq<char>) -> int {
    let i = first_header(s, 0)->Some_0;
    hex_char_val(s[i + 8]) * 16 + hex_char_val(s[i + 9])
}

/// The export name a named string block declares.
pub open spec fn named_name(s: Seq<char>) -> Seq<char> {
    let i = first_header(s, 0)->Some_0;
    s.subrange(i + 12, last_close(s)->Some_0)
}

proof fn lemma_first_header_from(s: Seq<char>, i: int)
    requires
        0 <= i,
        forall|k: int| 0 <= k < i ==> !header_at(s, k),
    ensures
        first_header(s, 0) == first_header(s, i),
    decreases i,
{
    if i > 0 {
        lemma_first_header_from(s, i - 1);
        assert(first_header(s, i - 1) == first_header(s, i));
    }
}

#[derive(Debug, Clone, PartialEq, Eq)]
pub enum BlockKind {
    /// `#string:XX:(Name)`
    StringNamed { section: u8, name: String },
    Other,
}

/// A run of non-blank script lines, each paired with its source line number.
#[derive(Debug, Clone, PartialEq, Eq)]
pub struct Block {
    /// The type of block this is.
    pub kind: BlockKind,
    /// (source line number, line text)
    pub lines: Vec<(usize, String)>,
}

impl Block {
    /// The block's lines, as numbered character sequences.
    pub open spec fn lines_view(&self) -> Seq<(int, Seq<char>)> {
        self.lines@.map_values(|p: (usize, String)| (p.0 as int, p.1@))
    }

    /// A block holds at least one line, and its kind is what its first line
    /// classifies to.
    pub open spec fn wf(&self) -> bool {
        &&& self.lines@.len() > 0
        &&& match self.kind {
            BlockKind::StringNamed { section, name } => is_string_named(self.lines@[0].1@)
                && section == named_section(self.lines@[0].1@)
                && name@ == named_name(self.lines@[0].1@),
            BlockKind::Other => !is_string_named(self.lines@[0].1@),
        }
    }

    /// The source line number the block starts at.
    pub fn start_line(&self) -> (r: usize)
        requires
            self.lines@.len() > 0,
        ensures
            r == self.lines@[0].0,
    {
        self.lines[0].0
    }

    /// Classifies the given lines as a block.
    pub fn new(lines: Vec<(usize, String)>) -> (r: Block)
        requires
            lines@.len() > 0,
        ensures
            r.lines == lines,
            r.wf(),
    {
        let first: &String = &lines[0].1;
        let cs = chars_of(first.as_str());
        let n = cs.len();

        // The last `)` of the line, which a name capture runs to.
        let mut jc: Option<usize> = None;
        let mut j: usize = n;
        while j > 0
            invariant_except_break
                n == cs@.len(),
                j <= n,
                jc is None,
                forall|k: int| j <= k < n ==> cs@[k] != ')',
            ensures
                match jc {
                    Some(p) => p < n && cs@[p as int] == ')'
                        && forall|k: int| p < k < n ==> cs@[k] != ')',
                    None => forall|k: int| 0 <= k < n ==> cs@[k] != ')',
                },
            decreases j,
        {
            if cs[j - 1] == ')' {
                jc = Some(j - 1);
                break;
            }
            j = j - 1;
        }
        proof {
            match jc {
                Some(p) => lemma_last_close_at(cs@, p as int),
                None => lemma_last_close_none(cs@),
            }
        }

        let mut found: Option<usize> = None;
        if n >= 12 {
            let mut i: usize = 0;
            while i <= n - 12
                invariant_except_break
                    n == cs@.len(),
                    cs@ == first@,
                    n >= 12,
                    i <= n,
                    found is None,
                    forall|k: int| 0 <= k < i ==> !header_at(cs@, k),
                    jc matches Some(p) ==> last_close(cs@) == Some(p as int),
                    jc is None ==> last_close(cs@) is None,
                ensures
                    match found {
                        Some(h) => header_at(cs@, h as int)
                            && (forall|k: int| 0 <= k < h ==> !header_at(cs@, k)),
                        None => forall|k: int| 0 <= k < n ==> !header_at(cs@, k),
                    },
                decreases n - i,
            {
                let shape = cs[i] == '#' && cs[i + 1] == 's' && cs[i + 2] == 't'
                    && cs[i + 3] == 'r' && cs[i + 4] == 'i' && cs[i + 5] == 'n'
                    && cs[i + 6] == 'g' && cs[i + 7] == ':'
                    && hex_up(cs[i + 8]) && hex_up(cs[i + 9])
                    && cs[i + 10] == ':' && cs[i + 11] == '(';
                let close_ok = match jc {
                    Some(p) => p >= i + 12,
                    None => false,
                };
                if shape && close_ok {
                    assert(header_shape_at(cs@, i as int));
                    assert(header_at(cs@, i as int));
                    found = Some(i);
                    break;
                }
                assert(!header_at(cs@, i as int));
                i = i + 1;
            }
        } else {
            assert(forall|k: int| 0 <= k < n ==> !header_at(cs@, k));
        }

        let kind = match found {
            Some(h) => {
                proof {
                    lemma_first_header_from(cs@, h as int);
                }
                let jcv = match jc {
                    Some(p) => p,
                    None => 0,
                };
                assert(jcv >= h + 12);
                let section = hex_val(cs[h + 8]) * 16 + hex_val(cs[h + 9]);
                let mut name_chars: Vec<char> = Vec::new();
                let mut k: usize = h + 12;
                while k < jcv
                    invariant
                        h + 12 <= k <= jcv <= n,
                        n == cs@.len(),
                        name_chars@ == cs@.subrange(h + 12, k as int),
                    decreases jcv - k,
                {
                    name_chars.push(cs[k]);
                    k = k + 1;
                    assert(name_chars@ =~= cs@.subrange(h + 12, k as int));
                }
                let name = string_of(name_chars.as_slice());
                assert(name@ == named_name(first@));
                BlockKind::StringNamed { section, name }
            },
            None => {
                proof {
                    lemma_first_header_none(cs@, 0);
                }
                BlockKind::Other
            },
        };
        Block { kind, lines }
    }
}

/// Whether `c` is an uppercase hexadecimal digit.
pub fn hex_up(c: char) -> (r: bool)
    ensures
        r == is_hex_up(c),
{
    ('0' <= c && c <= '9') || ('A' <= c && c <= 'F')
}

/// The numbered-line views of raw block lines.
pub open spec fn lines_view_of(s: Seq<(usize, String)>) -> Seq<(int, Seq<char>)> {
    s.map_values(|p: (usize, String)| (p.0 as int, p.1@))
}

/// The line views of a sequence of blocks.
pub open spec fn blocks_views(bs: Seq<Block>) -> Seq<Seq<(int, Seq<char>)>> {
    bs.map_values(|b: Block| b.lines_view())
}

/// A script patch file: its target path and its blocks, remembered together
/// with the name of the package its source belongs to.
#[derive(Debug, Clone, PartialEq, Eq)]
pub struct Script {
    /// The path this script is to be saved to.  Defaults to the path the
    /// script was loaded from.
    pub path: String,
    /// The blank-line-delimited blocks that make up this script.
    pub blocks: Vec<Block>,
    pub src_pkg_name: String,
}

impl Script {
    pub open spec fn wf(&self) -> bool {
        forall|k: int| 0 <= k < self.blocks@.len() ==> (#[trigger] self.blocks@[k]).wf()
    }

    /// Parses script source: comments are stripped, lines are trimmed, and
    /// runs of non-blank lines become classified blocks.
    pub fn load(src_pkg_name: &str, path: String, source: &str) -> (r: Script)
        ensures
            r.path == path,
            r.src_pkg_name@ == src_pkg_name@,
            r.wf(),
            blocks_views(r.blocks@) == script_blocks_spec(source@),
    {
        let stripped = strip_comments(source);
        let lines = split_into_lines(&stripped);
        let n = lines.len();
        let mut blocks: Vec<Block> = Vec::new();
        let mut line_buf: Vec<(usize, String)> = Vec::new();
        proof {
            assert(lines_view_of(line_buf@) =~= Seq::<(int, Seq<char>)>::empty());
            assert(blocks_views(blocks@) =~= Seq::<Seq<(int, Seq<char>)>>::empty());
            assert(script_blocks_spec(source@) =~~= blocks_views(blocks@) + group_blocks(
                char_views(lines@), 0, lines_view_of(line_buf@)));
        }
        let mut i: usize = 0;
        while i < n
            invariant
                n == lines@.len(),
                char_views(lines@) == split_lines(strip_comments_spec(source@)),
                i <= n,
                script_blocks_spec(source@) == blocks_views(blocks@) + group_blocks(
                    char_views(lines@), i as int, lines_view_of(line_buf@)),
                forall|k: int| 0 <= k < blocks@.len() ==> (#[trigger] blocks@[k]).wf(),
            decreases n - i,
        {
            let ghost pre_buf = lines_view_of(line_buf@);
            let ghost pre_blocks = blocks_views(blocks@);
            proof {
                assert(char_views(lines@)[i as int] == lines@[i as int]@);
            }
            let t = trim_chars(&lines[i]);
            if t.len() == 0 {
                if line_buf.len() > 0 {
                    let b = Block::new(line_buf);
                    line_buf = Vec::new();
                    blocks.push(b);
                    proof {
                        assert(b.lines_view() == pre_buf);
                        assert(pre_buf.len() > 0);
                        assert(blocks_views(blocks@) =~~= pre_blocks.push(pre_buf));
                        assert(lines_view_of(line_buf@) =~= Seq::<(int, Seq<char>)>::empty());
                        assert(script_blocks_spec(source@) =~~= blocks_views(blocks@)
                            + group_blocks(char_views(lines@), i as int + 1,
                                lines_view_of(line_buf@)));
                    }
                } else {
                    assert(pre_buf.len() == 0);
                }
            } else {
                let text = string_of(t.as_slice());
                line_buf.push((i + 1, text));
                proof {
                    assert(lines_view_of(line_buf@) =~~= pre_buf.push(
                        ((i + 1) as int, trim_spec(char_views(lines@)[i as int]))));
                }
            }
            i = i + 1;
        }
        if line_buf.len() > 0 {
            let ghost pre_buf = lines_view_of(line_buf@);
            let ghost pre_blocks = blocks_views(blocks@);
            let b = Block::new(line_buf);
            blocks.push(b);
            proof {
                assert(b.lines_view() == pre_buf);
                assert(pre_buf.len() > 0);
                assert(blocks_views(blocks@) =~~= pre_blocks.push(pre_buf));
            }
        }
        assert(blocks_views(blocks@) =~~= script_blocks_spec(source@));
        Script { path, blocks, src_pkg_name: src_pkg_name.to_owned() }
    }

    /// Serializes the script: each block's lines in order, one blank line
    /// after every block.
    pub fn save(&self) -> (r: String)
        ensures
            r@ == save_spec(blocks_views(self.blocks@)),
    {
        let r = save_blocks_from(&self.blocks, 0);
        assert(blocks_views(self.blocks@).skip(0) =~= blocks_views(self.blocks@));
        r
    }
}

/// Serializes one block's lines from position `li` on, each line
/// newline-terminated.
fn block_text_from(lines: &Vec<(usize, String)>, li: usize) -> (r: String)
    requires
        li <= lines@.len(),
    ensures
        r@ == block_text(lines_view_of(lines@).skip(li as int)),
    decreases lines@.len() - li,
{
    let ghost lv = lines_view_of(lines@);
    if li == lines.len() {
        let r = String::new();
        assert(lv.skip(li as int) =~= Seq::<(int, Seq<char>)>::empty());
        r
    } else {
        let mut r = String::new();
        r.push_str(lines[li].1.as_str());
        r.push_str("\n");
        let rest = block_text_from(lines, li + 1);
        r.push_str(rest.as_str());
        proof {
            assert(lv.skip(li as int)[0] == lv[li as int]);
            assert(lv.skip(li as int).drop_first() =~= lv.skip(li as int + 1));
            assert(r@ =~= block_text(lv.skip(li as int)));
        }
        r
    }
}

/// Serializes the blocks from position `bi` on.
fn save_blocks_from(blocks: &Vec<Block>, bi: usize) -> (r: String)
    requires
        bi <= blocks@.len(),
    ensures
        r@ == save_spec(blocks_views(blocks@).skip(bi as int)),
    decreases blocks@.len() - bi,
{
    let ghost bs = blocks_views(blocks@);
    if bi == blocks.len() {
        let r = String::new();
        assert(bs.skip(bi as int) =~= Seq::<Seq<(int, Seq<char>)>>::empty());
        r
    } else {
        let mut r = block_text_from(&blocks[bi].lines, 0);
        r.push_str("\n");
        let rest = save_blocks_from(blocks, bi + 1);
        r.push_str(rest.as_str());
        proof {
            assert(lines_view_of(blocks@[bi as int].lines@).skip(0)
                =~= blocks@[bi as int].lines_view());
            assert(bs.skip(bi as int)[0] == bs[bi as int]);
            assert(bs.skip(bi as int).drop_first() =~= bs.skip(bi as int + 1));
            assert(r@ =~= save_spec(bs.skip(bi as int)));
        }
        r
    }
}

/// The serialized text of one block: its lines, each newline-terminated.
pub open spec fn block_text(lines: Seq<(int, Seq<char>)>) -> Seq<char>
    decreases lines.len(),
{
    if lines.len() == 0 {
        Seq::empty()
    } else {
        lines[0].1 + "\n"@ + block_text(lines.drop_first())
    }
}

/// The serialized text of a script: each block followed by one blank line.
pub open spec fn save_spec(bs: Seq<Seq<(int, Seq<char>)>>) -> Seq<char>
    decreases bs.len(),
{
    if bs.len() == 0 {
        Seq::empty()
    } else {
        block_text(bs[0]) + "\n"@ + save_spec(bs.drop_first())
    }
}

proof fn lemma_first_header_none(s: Seq<char>, i: int)
    requires
        0 <= i,
        forall|k: int| 0 <= k < s.len() ==> !header_at(s, k),
    ensures
        first_header(s, i) is None,
    decreases s.len() - i,
{
    if i + 12 <= s.len() {
        lemma_first_header_none(s, i + 1);
    }
}

} // verus!

//! Fully-qualified identifiers: an owning package plus a local export name,
//! with the parser for user-written `name` / `package/name` references.

use vstd::prelude::*;
use crate::sanitize::{
    self, generic_name_fault, generic_name_ok, DependencyNameError, DependencyNameFault,
    ExportNameError, NameFault,
};
use crate::strutil::chars_of;

verus! {

/// A fully-qualified identifier.
#[derive(Debug, Clone, PartialEq, Eq, Hash)]
pub struct Identifier {
    pub package: String,
    pub name: String,
}

impl Identifier {
    /// The identifier as a pair of character sequences, the form the
    /// registry mappings are keyed by.
    pub open spec fn key(&self) -> (Seq<char>, Seq<char>) {
        (self.package@, self.name@)
    }

    pub fn new(pkg_name: &str, name: &str) -> (r: Identifier)
        ensures
            r.package@ == pkg_name@,
            r.name@ == name@,
    {
        Identifier { package: pkg_name.to_owned(), name: name.to_owned() }
    }

    /// The canonical display form, `package_name`.
    pub fn display_text(&self) -> (r: String)
        ensures
            r@ == self.package@ + "_"@ + self.name@,
    {
        let mut r = String::new();
        r.push_str(self.package.as_str());
        r.push_str("_");
        r.push_str(self.name.as_str());
        r
    }

    /// The qualified reference form, `package/name`.
    pub fn qualified_text(&self) -> (r: String)
        ensures
            r@ == self.package@ + "/"@ + self.name@,
    {
        let mut r = String::new();
        r.push_str(self.package.as_str());
        r.push_str("/");
        r.push_str(self.name.as_str());
        r
    }

    /// Whether two identifiers refer to the same export.
    pub fn same_as(&self, other: &Identifier) -> (r: bool)
        ensures
            r == (self.package@ == other.package@ && self.name@ == other.name@),
    {
        crate::strutil::str_eq(self.package.as_str(), other.package.as_str())
            && crate::strutil::str_eq(self.name.as_str(), other.name.as_str())
    }
}

#[derive(Debug, Clone, PartialEq, Eq)]
pub enum ParseError {
    Empty,
    NameRequired(String),
    Private(String),
    PackageNameUnneeded(String),
    DependencyNameError(DependencyNameError),
    ExportNameError(ExportNameError),
}

impl ParseError {
    pub open spec fn spec_message(&self) -> Seq<char> {
        match self {
            ParseError::Empty => "identifier cannot be empty"@,
            ParseError::NameRequired(t) =>
                "identifier '"@ + t@ + "' requires an export name after the slash"@,
            ParseError::Private(t) =>
                "identifier '"@ + t@ + "' references a private export"@,
            ParseError::PackageNameUnneeded(t) =>
                "identifier '"@ + t@ + "' needlessly references the current package explicitly"@,
            ParseError::DependencyNameError(e) => e.spec_message(),
            ParseError::ExportNameError(e) => e.spec_message(),
        }
    }

    pub fn message(&self) -> (r: String)
        ensures
            r@ == self.spec_message(),
    {
        match self {
            ParseError::Empty => {
                let mut r = String::new();
                r.push_str("identifier cannot be empty");
                assert(r@ =~= self.spec_message());
                r
            },
            ParseError::NameRequired(t) => {
                let mut r = String::new();
                r.push_str("identifier '");
                r.push_str(t.as_str());
                r.push_str("' requires an export name after the slash");
                r
            },
            ParseError::Private(t) => {
                let mut r = String::new();
                r.push_str("identifier '");
                r.push_str(t.as_str());
                r.push_str("' references a private export");
                r
            },
            ParseError::PackageNameUnneeded(t) => {
                let mut r = String::new();
                r.push_str("identifier '");
                r.push_str(t.as_str());
                r.push_str("' needlessly references the current package explicitly");
                r
            },
            ParseError::DependencyNameError(e) => e.message(),
            ParseError::ExportNameError(e) => e.message(),
        }
    }
}

/// The position of the first occurrence of `c` in `s` at or after `i`.
pub open spec fn find_char(s: Seq<char>, c: char, i: int) -> Option<int>
    decreases s.len() - i,
{
    if i < 0 || i >= s.len() {
        None
    } else if s[i] == c {
        Some(i)
    } else {
        find_char(s, c, i + 1)
    }
}

/// A found position is in bounds, holds `c`, and nothing before it does.
pub proof fn lemma_find_char_some(s: Seq<char>, c: char, i: int, k: int)
    requires
        find_char(s, c, i) == Some(k),
    ensures
        i <= k < s.len(),
        s[k] == c,
        forall|j: int| i <= j < k ==> s[j] != c,
    decreases s.len() - i,
{
    if 0 <= i < s.len() && s[i] != c {
        lemma_find_char_some(s, c, i + 1, k);
    }
}

/// Finds the first occurrence of `c` in `s`.
pub fn find_first_char(s: &Vec<char>, c: char) -> (r: Option<usize>)
    ensures
        match r {
            Some(k) => find_char(s@, c, 0) == Some(k as int),
            None => find_char(s@, c, 0) is None,
        },
{
    let n = s.len();
    let mut i: usize = 0;
    while i < n
        invariant
            n == s@.len(),
            i <= n,
            find_char(s@, c, 0) == find_char(s@, c, i as int),
        decreases n - i,
    {
        if s[i] == c {
            return Some(i);
        }
        i = i + 1;
    }
    None
}

/// Whether a reference string is written with an explicit package qualifier.
pub open spec fn is_qualified(v: Seq<char>) -> bool {
    find_char(v, '/', 0) is Some
}

/// The package part of a qualified reference.
pub open spec fn qualifier_of(v: Seq<char>) -> Seq<char>
    recommends
        is_qualified(v),
{
    v.subrange(0, find_char(v, '/', 0)->Some_0)
}

/// The export-name part of a qualified reference.
pub open spec fn local_of(v: Seq<char>) -> Seq<char>
    recommends
        is_qualified(v),
{
    v.subrange(find_char(v, '/', 0)->Some_0 + 1, v.len() as int)
}

/// Whether parsing the reference `v` from source package `sv` succeeds.
pub open spec fn parse_ok(v: Seq<char>, sv: Seq<char>) -> bool {
    if v.len() == 0 {
        false
    } else if is_qualified(v) {
        &&& qualifier_of(v) != sv
        &&& generic_name_ok(qualifier_of(v))
        &&& generic_name_ok(local_of(v))
        &&& local_of(v)[0] != '_'
    } else {
        generic_name_ok(v)
    }
}

/// The package a successful parse resolves to.
pub open spec fn parse_package(v: Seq<char>, sv: Seq<char>) -> Seq<char> {
    if is_qualified(v) {
        qualifier_of(v)
    } else {
        sv
    }
}

/// The export name a successful parse resolves to.
pub open spec fn parse_name(v: Seq<char>, sv: Seq<char>) -> Seq<char> {
    if is_qualified(v) {
        local_of(v)
    } else {
        v
    }
}

/// Whether `e` is the error that parsing the reference `v` from source
/// package `sv` reports.  The checks run in a fixed order: emptiness; for a
/// qualified reference the dependency-name rule on the qualifier (an explicit
/// qualifier equal to the source package is reported as needless), then the
/// export-name rule on the local part, then privacy; for an unqualified
/// reference just the export-name rule.
pub open spec fn parse_fault(v: Seq<char>, sv: Seq<char>, e: ParseError) -> bool {
    if v.len() == 0 {
        e matches ParseError::Empty
    } else if is_qualified(v) {
        let l = qualifier_of(v);
        let rt = local_of(v);
        if l == sv {
            e matches ParseError::PackageNameUnneeded(t) && t@ == v
        } else {
            match generic_name_fault(l) {
                Some(f) => e matches ParseError::DependencyNameError(de)
                    && de.fault() == DependencyNameFault::Generic(f) && de.arg() == l,
                None => match generic_name_fault(rt) {
                    Some(f) => e matches ParseError::ExportNameError(ee) && ee.fault() == f
                        && ee.arg() == rt,
                    None => rt[0] == '_' && (e matches ParseError::Private(t) && t@ == rt),
                },
            }
        }
    } else {
        match generic_name_fault(v) {
            Some(f) => e matches ParseError::ExportNameError(ee) && ee.fault() == f
                && ee.arg() == v,
            None => false,
        }
    }
}

/// In a string of name characters there is no slash.
pub proof fn lemma_name_chars_no_slash(s: Seq<char>, i: int)
    requires
        sanitize::all_name_chars(s),
        i >= 0,
    ensures
        find_char(s, '/', i) is None,
    decreases s.len() - i,
{
    if i < s.len() {
        assert(sanitize::is_name_char(s[i]));
        lemma_name_chars_no_slash(s, i + 1);
    }
}

/// A position holding `c`, with no earlier occurrence, is what `find_char`
/// finds.
pub proof fn lemma_find_char_at(s: Seq<char>, c: char, k: int)
    requires
        0 <= k < s.len(),
        s[k] == c,
        forall|j: int| 0 <= j < k ==> s[j] != c,
    ensures
        find_char(s, c, 0) == Some(k),
{
    assert forall|i: int| 0 <= i <= k implies find_char(s, c, i) == Some(k) by {
        lemma_find_char_from(s, c, k, i);
    }
}

proof fn lemma_find_char_from(s: Seq<char>, c: char, k: int, i: int)
    requires
        0 <= i <= k < s.len(),
        s[k] == c,
        forall|j: int| i <= j < k ==> s[j] != c,
    ensures
        find_char(s, c, i) == Some(k),
    decreases k - i,
{
    if i < k {
        lemma_find_char_from(s, c, k, i + 1);
    }
}

/// Round trip for an unqualified reference: any name of valid shape, written
/// bare, parses from any source package back to that package and name.  This
/// also covers private names (a leading underscore), which resolve
/// unqualified from within their own package.
pub proof fn lemma_parse_unqualified_round_trip(package: Seq<char>, name: Seq<char>)
    requires
        generic_name_ok(name),
    ensures
        parse_ok(name, package),
        parse_package(name, package) == package,
        parse_name(name, package) == name,
{
    lemma_name_chars_no_slash(name, 0);
}

/// The concatenation `package + "/" + name` has its first slash exactly
/// between the two parts, when `package` is of valid name shape.
proof fn lemma_qualified_split(package: Seq<char>, name: Seq<char>)
    requires
        sanitize::all_name_chars(package),
    ensures
        is_qualified(package + "/"@ + name),
        qualifier_of(package + "/"@ + name) == package,
        local_of(package + "/"@ + name) == name,
{
    let v = package + "/"@ + name;
    reveal_strlit("/");
    assert(v[package.len() as int] == '/');
    assert forall|j: int| 0 <= j < package.len() implies v[j] != '/' by {
        assert(v[j] == package[j]);
        assert(sanitize::is_name_char(package[j]));
    }
    lemma_find_char_at(v, '/', package.len() as int);
    assert(qualifier_of(v) =~= package);
    assert(local_of(v) =~= name);
}

/// Round trip for a qualified reference: a valid package and name, written
/// `package/name`, parse from any other source package back to that package
/// and name, provided the name is not private.
pub proof fn lemma_parse_qualified_round_trip(
    package: Seq<char>,
    name: Seq<char>,
    source: Seq<char>,
)
    requires
        generic_name_ok(package),
        generic_name_ok(name),
        package != source,
        name[0] != '_',
    ensures
        parse_ok(package + "/"@ + name, source),
        parse_package(package + "/"@ + name, source) == package,
        parse_name(package + "/"@ + name, source) == name,
{
    lemma_qualified_split(package, name);
    assert((package + "/"@ + name).len() > 0);
}

/// A reference qualified with the source package itself never parses, and
/// the only error it can report is that the qualifier is needless.
pub proof fn lemma_parse_needless_qualifier(package: Seq<char>, name: Seq<char>)
    requires
        sanitize::all_name_chars(package),
    ensures
        !parse_ok(package + "/"@ + name, package),
        forall|e: ParseError| parse_fault(package + "/"@ + name, package, e)
            ==> (e matches ParseError::PackageNameUnneeded(t) && t@ == package + "/"@ + name),
{
    lemma_qualified_split(package, name);
    assert((package + "/"@ + name).len() > 0);
}

/// A private export referenced with an explicit package qualifier from a
/// different package never parses, and the only error it can report is
/// `Private`.
pub proof fn lemma_parse_private_qualified(
    package: Seq<char>,
    name: Seq<char>,
    source: Seq<char>,
)
    requires
        generic_name_ok(package),
        generic_name_ok(name),
        package != source,
        name[0] == '_',
    ensures
        !parse_ok(package + "/"@ + name, source),
        forall|e: ParseError| parse_fault(package + "/"@ + name, source, e)
            ==> (e matches ParseError::Private(t) && t@ == name),
{
    lemma_qualified_split(package, name);
    assert((package + "/"@ + name).len() > 0);
}

/// Parses a reference written as `name` or `package/name`.  If the package
/// part is missing, it is taken to be the source package.
pub fn parse_identifier(string: &str, source_pkg_name: &str) -> (r: Result<Identifier, ParseError>)
    ensures
        r matches Ok(id) ==> parse_ok(string@, source_pkg_name@)
            && id.package@ == parse_package(string@, source_pkg_name@)
            && id.name@ == parse_name(string@, source_pkg_name@),
        r matches Err(e) ==> !parse_ok(string@, source_pkg_name@)
            && parse_fault(string@, source_pkg_name@, e),
{
    let cs = chars_of(string);
    let n = cs.len();
    if n == 0 {
        return Err(ParseError::Empty);
    }
    match find_first_char(&cs, '/') {
        None => {
            match sanitize::export_name(string) {
                Err(e) => Err(ParseError::ExportNameError(e)),
                Ok(()) => Ok(Identifier::new(source_pkg_name, string)),
            }
        },
        Some(k) => {
            proof {
                lemma_find_char_some(string@, '/', 0, k as int);
            }
            let left = string.substring_char(0, k);
            let right = string.substring_char(k + 1, n);
            assert(left@ == qualifier_of(string@));
            assert(right@ == local_of(string@));
            match sanitize::dependency_name(left, source_pkg_name) {
                Err(DependencyNameError::SameAsCurrentPackage(_)) => {
                    Err(ParseError::PackageNameUnneeded(string.to_owned()))
                },
                Err(e) => Err(ParseError::DependencyNameError(e)),
                Ok(()) => {
                    match sanitize::export_name(right) {
                        Err(e) => Err(ParseError::ExportNameError(e)),
                        Ok(()) => {
                            if right.get_char(0) == '_' {
                                Err(ParseError::Private(right.to_owned()))
                            } else {
                                Ok(Identifier::new(left, right))
                            }
                        },
                    }
                },
            }
        },
    }
}

} // verus!

//! Validation predicates for names: the generic shape rule shared by every
//! name kind, plus the extra rules for package, export and dependency names.
//!
//! The generic rule reports the first violated check in a fixed order:
//! length, emptiness, character set, leading digit, all-underscore, trailing
//! underscore.

use vstd::prelude::*;
use crate::strutil::chars_of;

verus! {

/// A character allowed inside a name.
pub open spec fn is_name_char(c: char) -> bool {
    ('a' <= c && c <= 'z') || ('A' <= c && c <= 'Z') || ('0' <= c && c <= '9') || c == '_'
}

/// A letter or digit (what keeps a name from being just underscores).
pub open spec fn is_alnum_char(c: char) -> bool {
    ('a' <= c && c <= 'z') || ('A' <= c && c <= 'Z') || ('0' <= c && c <= '9')
}

pub open spec fn is_digit_char(c: char) -> bool {
    '0' <= c && c <= '9'
}

pub open spec fn all_name_chars(s: Seq<char>) -> bool {
    forall|i: int| 0 <= i < s.len() ==> is_name_char(#[trigger] s[i])
}

pub open spec fn has_alnum_char(s: Seq<char>) -> bool {
    exists|i: int| 0 <= i < s.len() && is_alnum_char(#[trigger] s[i])
}

/// A name of acceptable shape: 1 to 40 name characters, not beginning with a
/// digit, not just underscores, not ending in an underscore.
pub open spec fn generic_name_ok(s: Seq<char>) -> bool {
    &&& 1 <= s.len() <= 40
    &&& all_name_chars(s)
    &&& !is_digit_char(s[0])
    &&& has_alnum_char(s)
    &&& s[s.len() - 1] != '_'
}

/// The checks of the generic shape rule, in the order they are reported.
#[derive(Debug, Clone, Copy, PartialEq, Eq)]
pub enum NameFault {
    TooLong,
    TooShort,
    BadInternalChars,
    BeginNumber,
    JustUnderscores,
    EndUnderscore,
}

/// The first check of the generic shape rule that `s` violates, in the fixed
/// order: length, emptiness, character set, leading digit, all-underscore,
/// trailing underscore.
pub open spec fn generic_name_fault(s: Seq<char>) -> Option<NameFault> {
    if s.len() > 40 {
        Some(NameFault::TooLong)
    } else if s.len() == 0 {
        Some(NameFault::TooShort)
    } else if !all_name_chars(s) {
        Some(NameFault::BadInternalChars)
    } else if is_digit_char(s[0]) {
        Some(NameFault::BeginNumber)
    } else if !has_alnum_char(s) {
        Some(NameFault::JustUnderscores)
    } else if s[s.len() - 1] == '_' {
        Some(NameFault::EndUnderscore)
    } else {
        None
    }
}

#[derive(Debug, Clone, PartialEq, Eq)]
pub enum GenericNameError {
    TooLong(String),
    TooShort(String),
    BadInternalChars(String),
    JustUnderscores(String),
    BeginNumber(String),
    EndUnderscore(String),
}

impl GenericNameError {
    /// The name the error is about.
    pub open spec fn arg(&self) -> Seq<char> {
        match self {
            GenericNameError::TooLong(t) => t@,
            GenericNameError::TooShort(t) => t@,
            GenericNameError::BadInternalChars(t) => t@,
            GenericNameError::JustUnderscores(t) => t@,
            GenericNameError::BeginNumber(t) => t@,
            GenericNameError::EndUnderscore(t) => t@,
        }
    }

    /// Which check this error reports.
    pub open spec fn fault(&self) -> NameFault {
        match self {
            GenericNameError::TooLong(_) => NameFault::TooLong,
            GenericNameError::TooShort(_) => NameFault::TooShort,
            GenericNameError::BadInternalChars(_) => NameFault::BadInternalChars,
            GenericNameError::JustUnderscores(_) => NameFault::JustUnderscores,
            GenericNameError::BeginNumber(_) => NameFault::BeginNumber,
            GenericNameError::EndUnderscore(_) => NameFault::EndUnderscore,
        }
    }

    pub open spec fn spec_message(&self) -> Seq<char> {
        match self {
            GenericNameError::TooLong(t) => "'"@ + t@ + "' is too long (max 40 chars)"@,
            GenericNameError::TooShort(t) => "'"@ + t@ + "' is too short (min 1 char)"@,
            GenericNameError::BadInternalChars(t) =>
                "'"@ + t@ + "' has non-alphanumeric/underscore chars"@,
            GenericNameError::JustUnderscores(t) => "'"@ + t@ + "' is just underscores"@,
            GenericNameError::BeginNumber(t) => "'"@ + t@ + "' begins with a number"@,
            GenericNameError::EndUnderscore(t) => "'"@ + t@ + "' ends in an underscore"@,
        }
    }

    /// The error rendered for display.
    pub fn message(&self) -> (r: String)
        ensures
            r@ == self.spec_message(),
    {
        let mut r = String::new();
        r.push_str("'");
        match self {
            GenericNameError::TooLong(t) => {
                r.push_str(t.as_str());
                r.push_str("' is too long (max 40 chars)");
            },
            GenericNameError::TooShort(t) => {
                r.push_str(t.as_str());
                r.push_str("' is too short (min 1 char)");
            },
            GenericNameError::BadInternalChars(t) => {
                r.push_str(t.as_str());
                r.push_str("' has non-alphanumeric/underscore chars");
            },
            GenericNameError::JustUnderscores(t) => {
                r.push_str(t.as_str());
                r.push_str("' is just underscores");
            },
            GenericNameError::BeginNumber(t) => {
                r.push_str(t.as_str());
                r.push_str("' begins with a number");
            },
            GenericNameError::EndUnderscore(t) => {
                r.push_str(t.as_str());
                r.push_str("' ends in an underscore");
            },
        }
        r
    }
}

/// Checks `s` against the generic name shape rule, reporting the first
/// violated check.
pub fn generic_name(s: &str) -> (r: Result<(), GenericNameError>)
    ensures
        r matches Ok(()) <==> generic_name_ok(s@),
        r matches Ok(()) <==> generic_name_fault(s@) is None,
        r matches Err(e) ==> Some(e.fault()) == generic_name_fault(s@) && e.arg() == s@,
{
    let cs = chars_of(s);
    let n = cs.len();
    if n > 40 {
        return Err(GenericNameError::TooLong(s.to_owned()));
    }
    if n == 0 {
        return Err(GenericNameError::TooShort(s.to_owned()));
    }
    let mut i: usize = 0;
    while i < n
        invariant
            n == cs@.len(),
            cs@ == s@,
            1 <= n <= 40,
            i <= n,
            forall|j: int| 0 <= j < i ==> is_name_char(#[trigger] s@[j]),
        decreases n - i,
    {
        let c = cs[i];
        if !(('a' <= c && c <= 'z') || ('A' <= c && c <= 'Z') || ('0' <= c && c <= '9')
            || c == '_') {
            assert(!is_name_char(s@[i as int]));
            return Err(GenericNameError::BadInternalChars(s.to_owned()));
        }
        i = i + 1;
    }
    let first = cs[0];
    if '0' <= first && first <= '9' {
        return Err(GenericNameError::BeginNumber(s.to_owned()));
    }
    let mut i: usize = 0;
    let mut seen_alnum = false;
    while i < n
        invariant
            n == cs@.len(),
            cs@ == s@,
            i <= n,
            seen_alnum <==> exists|j: int| 0 <= j < i && is_alnum_char(#[trigger] s@[j]),
        decreases n - i,
    {
        let c = cs[i];
        if ('a' <= c && c <= 'z') || ('A' <= c && c <= 'Z') || ('0' <= c && c <= '9') {
            seen_alnum = true;
        }
        i = i + 1;
    }
    if !seen_alnum {
        return Err(GenericNameError::JustUnderscores(s.to_owned()));
    }
    if cs[n - 1] == '_' {
        return Err(GenericNameError::EndUnderscore(s.to_owned()));
    }
    Ok(())
}

/// The faults a package name can have, in the order they are reported.
#[derive(Debug, Clone, Copy, PartialEq, Eq)]
pub enum PackageNameFault {
    BeginsUnderscore,
    Reserved,
    Generic(NameFault),
}

#[derive(Debug, Clone, PartialEq, Eq)]
pub enum PackageNameError {
    Reserved(String),
    BeginsUnderscore(String),
    Generic(GenericNameError),
}

/// The single reserved package name.
pub open spec fn is_reserved_package_name(s: Seq<char>) -> bool {
    s == "pm64"@
}

/// The fault a package name has, if any: a leading underscore, then the
/// reserved-name list, then the generic shape rule.
pub open spec fn package_name_fault(s: Seq<char>) -> Option<PackageNameFault> {
    if s.len() > 0 && s[0] == '_' {
        Some(PackageNameFault::BeginsUnderscore)
    } else if is_reserved_package_name(s) {
        Some(PackageNameFault::Reserved)
    } else {
        match generic_name_fault(s) {
            Some(f) => Some(PackageNameFault::Generic(f)),
            None => None,
        }
    }
}

pub open spec fn package_name_ok(s: Seq<char>) -> bool {
    package_name_fault(s) is None
}

impl PackageNameError {
    pub open spec fn fault(&self) -> PackageNameFault {
        match self {
            PackageNameError::BeginsUnderscore(_) => PackageNameFault::BeginsUnderscore,
            PackageNameError::Reserved(_) => PackageNameFault::Reserved,
            PackageNameError::Generic(e) => PackageNameFault::Generic(e.fault()),
        }
    }

    pub open spec fn arg(&self) -> Seq<char> {
        match self {
            PackageNameError::BeginsUnderscore(t) => t@,
            PackageNameError::Reserved(t) => t@,
            PackageNameError::Generic(e) => e.arg(),
        }
    }

    pub open spec fn spec_message(&self) -> Seq<char> {
        match self {
            PackageNameError::Reserved(t) =>
                "invalid package name: "@ + "'"@ + t@ + "' is reserved"@,
            PackageNameError::BeginsUnderscore(t) =>
                "invalid package name: "@ + "'"@ + t@ + "' begins with an underscore"@,
            PackageNameError::Generic(e) => "invalid package name: "@ + e.spec_message(),
        }
    }

    pub fn message(&self) -> (r: String)
        ensures
            r@ == self.spec_message(),
    {
        let mut r = String::new();
        r.push_str("invalid package name: ");
        match self {
            PackageNameError::Reserved(t) => {
                r.push_str("'");
                r.push_str(t.as_str());
                r.push_str("' is reserved");
            },
            PackageNameError::BeginsUnderscore(t) => {
                r.push_str("'");
                r.push_str(t.as_str());
                r.push_str("' begins with an underscore");
            },
            PackageNameError::Generic(e) => {
                let m = e.message();
                r.push_str(m.as_str());
            },
        }
        r
    }
}

/// Checks `s` as a package name: no leading underscore, not reserved, and of
/// generic name shape.
pub fn package_name(s: &str) -> (r: Result<(), PackageNameError>)
    ensures
        r matches Ok(()) <==> package_name_ok(s@),
        r matches Err(e) ==> Some(e.fault()) == package_name_fault(s@) && e.arg() == s@,
{
    let cs = chars_of(s);
    if cs.len() > 0 && cs[0] == '_' {
        return Err(PackageNameError::BeginsUnderscore(s.to_owned()));
    }
    if crate::strutil::str_eq(s, "pm64") {
        return Err(PackageNameError::Reserved(s.to_owned()));
    }
    match generic_name(s) {
        Ok(()) => Ok(()),
        Err(e) => Err(PackageNameError::Generic(e)),
    }
}

#[derive(Debug, Clone, PartialEq, Eq)]
pub enum ExportNameError {
    Generic(GenericNameError),
}

impl ExportNameError {
    pub open spec fn fault(&self) -> NameFault {
        match self {
            ExportNameError::Generic(e) => e.fault(),
        }
    }

    pub open spec fn arg(&self) -> Seq<char> {
        match self {
            ExportNameError::Generic(e) => e.arg(),
        }
    }

    pub open spec fn spec_message(&self) -> Seq<char> {
        match self {
            ExportNameError::Generic(e) => "invalid export name: "@ + e.spec_message(),
        }
    }

    pub fn message(&self) -> (r: String)
        ensures
            r@ == self.spec_message(),
    {
        let mut r = String::new();
        r.push_str("invalid export name: ");
        match self {
            ExportNameError::Generic(e) => {
                let m = e.message();
                r.push_str(m.as_str());
            },
        }
        r
    }
}

/// Checks `s` as an export name.  (A leading uppercase letter is tolerated.)
pub fn export_name(s: &str) -> (r: Result<(), ExportNameError>)
    ensures
        r matches Ok(()) <==> generic_name_ok(s@),
        r matches Err(e) ==> Some(e.fault()) == generic_name_fault(s@) && e.arg() == s@,
{
    match generic_name(s) {
        Ok(()) => Ok(()),
        Err(e) => Err(ExportNameError::Generic(e)),
    }
}

/// The faults a dependency name can have, in the order they are reported.
#[derive(Debug, Clone, Copy, PartialEq, Eq)]
pub enum DependencyNameFault {
    SameAsCurrentPackage,
    Generic(NameFault),
}

#[derive(Debug, Clone, PartialEq, Eq)]
pub enum DependencyNameError {
    SameAsCurrentPackage(String),
    Generic(GenericNameError),
}

/// The fault a dependency name has, if any: equality with the current
/// package's name, then the generic shape rule.
pub open spec fn dependency_name_fault(
    s: Seq<char>,
    current: Seq<char>,
) -> Option<DependencyNameFault> {
    if s == current {
        Some(DependencyNameFault::SameAsCurrentPackage)
    } else {
        match generic_name_fault(s) {
            Some(f) => Some(DependencyNameFault::Generic(f)),
            None => None,
        }
    }
}

pub open spec fn dependency_name_ok(s: Seq<char>, current: Seq<char>) -> bool {
    generic_name_ok(s) && s != current
}

impl DependencyNameError {
    pub open spec fn fault(&self) -> DependencyNameFault {
        match self {
            DependencyNameError::SameAsCurrentPackage(_) =>
                DependencyNameFault::SameAsCurrentPackage,
            DependencyNameError::Generic(e) => DependencyNameFault::Generic(e.fault()),
        }
    }

    pub open spec fn arg(&self) -> Seq<char> {
        match self {
            DependencyNameError::SameAsCurrentPackage(t) => t@,
            DependencyNameError::Generic(e) => e.arg(),
        }
    }

    pub open spec fn spec_message(&self) -> Seq<char> {
        match self {
            DependencyNameError::SameAsCurrentPackage(t) =>
                "invalid dependency name: "@ + "'"@ + t@
                    + "' is the same as the current package name"@,
            DependencyNameError::Generic(e) => "invalid dependency name: "@ + e.spec_message(),
        }
    }

    pub fn message(&self) -> (r: String)
        ensures
            r@ == self.spec_message(),
    {
        let mut r = String::new();
        r.push_str("invalid dependency name: ");
        match self {
            DependencyNameError::SameAsCurrentPackage(t) => {
                r.push_str("'");
                r.push_str(t.as_str());
                r.push_str("' is the same as the current package name");
            },
            DependencyNameError::Generic(e) => {
                let m = e.message();
                r.push_str(m.as_str());
            },
        }
        r
    }
}

/// Checks `s` as the name of a dependency declared by the package named
/// `current_pkg_name`.
pub fn dependency_name(s: &str, current_pkg_name: &str) -> (r: Result<(), DependencyNameError>)
    ensures
        r matches Ok(()) <==> dependency_name_ok(s@, current_pkg_name@),
        r matches Err(e) ==> Some(e.fault()) == dependency_name_fault(s@, current_pkg_name@)
            && e.arg() == s@,
{
    if crate::strutil::str_eq(s, current_pkg_name) {
        return Err(DependencyNameError::SameAsCurrentPackage(s.to_owned()));
    }
    match generic_name(s) {
        Ok(()) => Ok(()),
        Err(e) => Err(DependencyNameError::Generic(e)),
    }
}

} // verus!

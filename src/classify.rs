//! The provenance classifier: which bucket a library path belongs to, and
//! which package owns it.

use vstd::prelude::*;
use vstd::utf8::{decode_utf8, valid_utf8};
use crate::model::{Bucket, Library, opt_view};
use crate::text::{find, find_from, has_prefix, lemma_find_bounds, starts_with, str_eq};

verus! {

/// Which of the ordered prefix rules a literal path meets first.
#[derive(PartialEq, Eq, Structural, Clone, Copy, Debug)]
pub enum Rule {
    /// Under the Homebrew prefix of ARM Macs.
    HomebrewPrefix,
    /// Under a system library directory.
    SystemPrefix,
    /// Under a system or user Frameworks directory.
    FrameworkPrefix,
    /// Under `/usr/local`: decided by where the path really leads.
    UsrLocal,
    /// None of the above.
    Unmatched,
}

pub open spec fn rule_of(p: Seq<char>) -> Rule {
    if has_prefix(p, "/opt/homebrew"@) {
        Rule::HomebrewPrefix
    } else if has_prefix(p, "/usr/lib"@) || has_prefix(p, "/lib"@) {
        Rule::SystemPrefix
    } else if has_prefix(p, "/System/Library/Frameworks"@) || has_prefix(p, "/Library/Frameworks"@) {
        Rule::FrameworkPrefix
    } else if has_prefix(p, "/usr/local"@) {
        Rule::UsrLocal
    } else {
        Rule::Unmatched
    }
}

/// A canonical path lies in the Homebrew cellar of Intel Macs (compared by
/// whole path components).
pub open spec fn in_cellar(c: Seq<char>) -> bool {
    c == "/usr/local/Cellar"@ || has_prefix(c, "/usr/local/Cellar/"@)
}

/// The bucket of literal path `p` whose canonical form is `c`.
pub open spec fn bucket_of(p: Seq<char>, c: Seq<char>) -> Bucket {
    match rule_of(p) {
        Rule::HomebrewPrefix => Bucket::Homebrew,
        Rule::SystemPrefix => Bucket::System,
        Rule::FrameworkPrefix => Bucket::Frameworks,
        Rule::UsrLocal => if in_cellar(c) {
            Bucket::Homebrew
        } else {
            Bucket::PublicUnmanaged
        },
        Rule::Unmatched => Bucket::Other,
    }
}

/// The first rule that the literal path meets.
pub fn rule_for(path: &str) -> (r: Rule)
    ensures
        r == rule_of(path@),
{
    if starts_with(path, "/opt/homebrew") {
        Rule::HomebrewPrefix
    } else if starts_with(path, "/usr/lib") || starts_with(path, "/lib") {
        Rule::SystemPrefix
    } else if starts_with(path, "/System/Library/Frameworks") || starts_with(path, "/Library/Frameworks") {
        Rule::FrameworkPrefix
    } else if starts_with(path, "/usr/local") {
        Rule::UsrLocal
    } else {
        Rule::Unmatched
    }
}

/// Whether the bucket of `path` depends on its canonical form.
pub fn needs_canonical(path: &str) -> (r: bool)
    ensures
        r == (rule_of(path@) == Rule::UsrLocal),
{
    rule_for(path) == Rule::UsrLocal
}

/// The bucket of `path`, whose canonical form is `canonical`.
pub fn classify(path: &str, canonical: &str) -> (r: Bucket)
    ensures
        r == bucket_of(path@, canonical@),
{
    match rule_for(path) {
        Rule::HomebrewPrefix => Bucket::Homebrew,
        Rule::SystemPrefix => Bucket::System,
        Rule::FrameworkPrefix => Bucket::Frameworks,
        Rule::UsrLocal => if str_eq(canonical, "/usr/local/Cellar") || starts_with(canonical, "/usr/local/Cellar/") {
            Bucket::Homebrew
        } else {
            Bucket::PublicUnmanaged
        },
        Rule::Unmatched => Bucket::Other,
    }
}

/// `s` up to the first occurrence of `sep`.
pub open spec fn first_field(s: Seq<char>, sep: Seq<char>) -> Seq<char> {
    match find_from(s, sep, 0) {
        Some(k) => s.subrange(0, k),
        None => s,
    }
}

fn first_field_of(s: &str, sep: &str) -> (r: String)
    ensures
        r@ == first_field(s@, sep@),
{
    proof {
        lemma_find_bounds(s@, sep@, 0);
    }
    match find(s, sep, 0) {
        Some(k) => String::from_str(s.substring_char(0, k)),
        None => String::from_str(s),
    }
}

/// The formula directory prefix that a path lies under, if any.
pub open spec fn brew_prefix_of(p: Seq<char>) -> Option<Seq<char>> {
    if has_prefix(p, "/opt/homebrew/opt/"@) {
        Some("/opt/homebrew/opt/"@)
    } else if has_prefix(p, "/usr/local/opt/"@) {
        Some("/usr/local/opt/"@)
    } else {
        None
    }
}

/// The formula that owns `p`: the first path segment after the prefix.
pub open spec fn formula_of(p: Seq<char>) -> Option<Seq<char>> {
    match brew_prefix_of(p) {
        Some(pre) => Some(first_field(p.subrange(pre.len() as int, p.len() as int), "/"@)),
        None => None,
    }
}

/// Where a formula is installed: the prefix, and the formula's name.
#[derive(Debug, Clone)]
pub struct HomebrewFormula {
    /// The directory that holds the formulae, ending in `/`.
    pub prefix: String,
    /// The formula's name.
    pub package: String,
}

/// The formula directory that `path` lies in, if it lies in one.
pub fn homebrew_formula(path: &str) -> (r: Option<HomebrewFormula>)
    ensures
        match r {
            Some(f) => brew_prefix_of(path@) == Some(f.prefix@) && formula_of(path@) == Some(f.package@),
            None => brew_prefix_of(path@) is None,
        },
{
    let prefix: &str = if starts_with(path, "/opt/homebrew/opt/") {
        "/opt/homebrew/opt/"
    } else if starts_with(path, "/usr/local/opt/") {
        "/usr/local/opt/"
    } else {
        return None;
    };
    let rest = path.substring_char(prefix.unicode_len(), path.unicode_len());
    let package = first_field_of(rest, "/");
    Some(HomebrewFormula { prefix: String::from_str(prefix), package })
}

/// The package name qualified by its tap, unless the tap is the default one.
pub open spec fn tap_package_of(package: Seq<char>, tap: Option<Seq<char>>) -> Seq<char> {
    match tap {
        Some(t) => if t != "homebrew/core"@ {
            t + "/"@ + package
        } else {
            package
        },
        None => package,
    }
}

/// `package`, prefixed by `tap/` where a tap other than the default one is given.
pub fn tap_package(package: &str, tap: Option<&str>) -> (r: String)
    ensures
        r@ == tap_package_of(package@, match tap {
            Some(t) => Some(t@),
            None => None,
        }),
{
    match tap {
        Some(t) => if !str_eq(t, "homebrew/core") {
            let mut s = String::from_str(t);
            s.append("/");
            s.append(package);
            s
        } else {
            String::from_str(package)
        },
        None => String::from_str(package),
    }
}

/// What a JSON document holds as a string at `doc[outer][inner]`, if it
/// parses and holds one there.
pub uninterp spec fn json_string_at(doc: Seq<char>, outer: Seq<char>, inner: Seq<char>) -> Option<Seq<char>>;

/// Relies on serde_json::from_str and Value::get / Value::as_str: the string
/// found under two keys of a parsed document, if any.
#[verifier::external_body]
fn json_lookup(doc: &str, outer: &str, inner: &str) -> (r: Option<String>)
    ensures
        opt_view(r) == json_string_at(doc@, outer@, inner@),
{
    let v: serde_json::Value = serde_json::from_str(doc).ok()?;
    v.get(outer)?.get(inner)?.as_str().map(|s| s.to_string())
}

/// A text without its leading byte-order mark, if it has one.
pub open spec fn without_bom(t: Seq<char>) -> Seq<char> {
    if t.len() > 0 && t[0] == '\u{FEFF}' {
        t.drop_first()
    } else {
        t
    }
}

fn strip_bom(t: &str) -> (r: &str)
    ensures
        r@ == without_bom(t@),
{
    let n = t.unicode_len();
    if n > 0 && t.get_char(0) == '\u{FEFF}' {
        t.substring_char(1, n)
    } else {
        t
    }
}

/// The tap recorded in an install receipt, read after any byte-order mark.
pub open spec fn receipt_tap(receipt: Option<Seq<char>>) -> Option<Seq<char>> {
    match receipt {
        Some(t) => json_string_at(without_bom(t), "source"@, "tap"@),
        None => None,
    }
}

/// The owner of a library in a Homebrew location, given the text of its
/// formula's install receipt where one could be read.
pub open spec fn homebrew_source(path: Seq<char>, receipt: Option<Seq<char>>) -> Option<Seq<char>> {
    match formula_of(path) {
        Some(pkg) => Some(tap_package_of(pkg, receipt_tap(receipt))),
        None => None,
    }
}

/// A library in a Homebrew location, owned by its formula where the path
/// names one; `receipt` is the text of that formula's install receipt.
pub fn library_from_homebrew(library: String, receipt: Option<&str>) -> (r: Library)
    ensures
        r@ == (library@, homebrew_source(library@, match receipt {
            Some(t) => Some(t@),
            None => None,
        })),
{
    match homebrew_formula(library.as_str()) {
        Some(f) => {
            let tap = match receipt {
                Some(t) => json_lookup(strip_bom(t), "source", "tap"),
                None => None,
            };
            let package = match &tap {
                Some(t) => tap_package(f.package.as_str(), Some(t.as_str())),
                None => tap_package(f.package.as_str(), None),
            };
            Library { path: library, source: Some(package) }
        },
        None => Library { path: library, source: None },
    }
}

/// Relies on String::from_utf8: the text that valid UTF-8 bytes encode.
#[verifier::external_body]
fn utf8_text(bytes: &[u8]) -> (r: Option<String>)
    ensures
        r is Some <==> valid_utf8(bytes@),
        r matches Some(s) ==> s@ == decode_utf8(bytes@),
{
    String::from_utf8(bytes.to_vec()).ok()
}

/// The package named by the package database's answer: its first
/// colon-separated field, unless that is empty.
pub open spec fn dpkg_package_of(out: Seq<char>) -> Option<Seq<char>> {
    let f = first_field(out, ":"@);
    if f.len() == 0 {
        None
    } else {
        Some(f)
    }
}

/// The package named by a `dpkg --search` answer.
pub fn package_from_dpkg_output(out: &str) -> (r: Option<String>)
    ensures
        opt_view(r) == dpkg_package_of(out@),
{
    let f = first_field_of(out, ":");
    if f.as_str().unicode_len() == 0 {
        None
    } else {
        Some(f)
    }
}

/// Whether the package database can be asked on this host.
pub open spec fn lookup_available(host_os: Seq<char>) -> bool {
    host_os == "linux"@
}

/// Whether the package database can be asked on a host running `host_os`.
pub fn package_lookup_available(host_os: &str) -> (r: bool)
    ensures
        r == lookup_available(host_os@),
{
    str_eq(host_os, "linux")
}

/// The owner given to a library by the package database: none on a host
/// without one, and none where there is no answer or it is not UTF-8.
pub open spec fn apt_source(host_os: Seq<char>, answer: Option<Seq<u8>>) -> Option<Seq<char>> {
    if !lookup_available(host_os) {
        None
    } else {
        match answer {
            Some(b) => if valid_utf8(b) {
                dpkg_package_of(decode_utf8(b))
            } else {
                None
            },
            None => None,
        }
    }
}

/// A library owned by an operating-system package where one is known.
/// `dpkg_stdout` is what a successful `dpkg --search` printed for the path,
/// or `None` where it failed or was not run; on a host other than Linux it
/// is not consulted. The lookup is advisory: it never fails.
pub fn library_from_apt(library: String, host_os: &str, dpkg_stdout: Option<&[u8]>) -> (r: Library)
    ensures
        r@ == (library@, apt_source(host_os@, match dpkg_stdout {
            Some(b) => Some(b@),
            None => None,
        })),
{
    if !package_lookup_available(host_os) {
        return Library { path: library, source: None };
    }
    match dpkg_stdout {
        None => Library { path: library, source: None },
        Some(bytes) => match utf8_text(bytes) {
            Some(text) => {
                let source = package_from_dpkg_output(text.as_str());
                Library { path: library, source }
            },
            None => Library { path: library, source: None },
        },
    }
}

} // verus!

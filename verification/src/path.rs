//! Paths as strings.
//!
//! A path is kept as its text, with `/` between components and a leading `/`
//! on an absolute path.

use vstd::prelude::*;
use crate::text::{chars_of, text_of};

verus! {

/// Whether `path` lies under `base`, counting whole components only.
///
/// Names the result of `std::path::Path::starts_with`.
pub uninterp spec fn path_has_prefix(path: Seq<char>, base: Seq<char>) -> bool;

/// The path without its last component, where it has one.
///
/// Names the result of `std::path::Path::parent`.
pub uninterp spec fn parent_of(path: Seq<char>) -> Option<Seq<char>>;

/// The extension of the path's file name, where it has one.
///
/// Names the result of `std::path::Path::extension`.
pub uninterp spec fn extension_of(path: Seq<char>) -> Option<Seq<char>>;

/// Calls `std::path::Path::extension`; the contract names its result.
#[verifier::external_body]
pub(crate) fn path_extension(path: &str) -> (r: Option<String>)
    ensures
        match r {
            Some(e) => extension_of(path@) == Some(e@),
            None => extension_of(path@) is None,
        },
{
    std::path::Path::new(path).extension().map(|e| e.to_string_lossy().into_owned())
}

/// An absolute path starts at the root.
pub open spec fn absolute(path: Seq<char>) -> bool {
    path.len() > 0 && path[0] == '/'
}

/// `child` placed under `parent`: an absolute child replaces the parent, any
/// other child follows it, after a `/` where the parent does not end in one.
pub open spec fn joined(parent: Seq<char>, child: Seq<char>) -> Seq<char> {
    if absolute(child) {
        child
    } else if parent.len() > 0 && parent.last() != '/' {
        parent.push('/') + child
    } else {
        parent + child
    }
}

/// The path a node ends up with: the parent's where it names none, its own
/// placed under the parent's where it is relative, and its own otherwise.
pub open spec fn inherited_path(parent: Seq<char>, child: Seq<char>) -> Seq<char> {
    if child.len() == 0 {
        parent
    } else {
        joined(parent, child)
    }
}

/// Calls `std::path::Path::starts_with`; the contract names its result.
#[verifier::external_body]
pub(crate) fn path_starts_with(path: &str, base: &str) -> (r: bool)
    ensures
        r == path_has_prefix(path@, base@),
{
    std::path::Path::new(path).starts_with(std::path::Path::new(base))
}

/// Calls `std::path::Path::parent`; the contract names its result. What comes
/// back is a strict prefix of `path`, so it is shorter.
#[verifier::external_body]
pub(crate) fn path_parent(path: &str) -> (r: Option<String>)
    ensures
        match r {
            Some(p) => parent_of(path@) == Some(p@) && p@.len() < path@.len(),
            None => parent_of(path@) is None,
        },
{
    std::path::Path::new(path).parent().map(|p| p.to_string_lossy().into_owned())
}

/// Whether `path` starts at the root.
pub fn is_absolute(path: &str) -> (r: bool)
    ensures
        r == absolute(path@),
{
    let chars = chars_of(path);
    chars.len() > 0 && chars[0] == '/'
}

/// Places `child` under `parent`.
pub fn join(parent: &str, child: &str) -> (r: String)
    ensures
        r@ == joined(parent@, child@),
{
    let mut c = chars_of(child);
    if c.len() > 0 && c[0] == '/' {
        return text_of(&c);
    }
    let mut out = chars_of(parent);
    if out.len() > 0 && out[out.len() - 1] != '/' {
        out.push('/');
    }
    out.append(&mut c);
    text_of(&out)
}

/// Resolves a node's path against its parent's.
pub fn inherit_path(parent: &str, child: String) -> (r: String)
    ensures
        r@ == inherited_path(parent@, child@),
{
    if child.as_str().is_empty() {
        String::from_str(parent)
    } else if !is_absolute(child.as_str()) {
        join(parent, child.as_str())
    } else {
        child
    }
}

} // verus!

//! Folder names a listing skips: build output, version control and caches.

use vstd::prelude::*;

use crate::text::{eq_ignore_ascii_case, eq_ignore_case, trim, trim_str};

verus! {

pub open spec fn default_ignores() -> Seq<&'static str> {
    seq![
        "node_modules", ".git", ".svn", ".hg", "target", "dist", "build", "__pycache__", ".Trash",
        "Pods", "DerivedData", ".next", ".cache", "vendor",
    ]
}

/// The names skipped when nothing else is configured.
pub fn default_ignore_list() -> (r: Vec<String>)
    ensures
        r@.len() == default_ignores().len(),
        forall|i: int| 0 <= i < r@.len() ==> #[trigger] r@[i]@ == default_ignores()[i]@,
{
    let names = vec![
        "node_modules", ".git", ".svn", ".hg", "target", "dist", "build", "__pycache__", ".Trash",
        "Pods", "DerivedData", ".next", ".cache", "vendor",
    ];
    assert(names@ =~= default_ignores());
    let mut out: Vec<String> = Vec::new();
    let mut i: usize = 0;
    while i < names.len()
        invariant
            names@ == default_ignores(),
            i <= names.len(),
            out@.len() == i,
            forall|k: int| 0 <= k < i ==> #[trigger] out@[k]@ == names@[k]@,
        decreases names.len() - i,
    {
        out.push(String::from_str(names[i]));
        i = i + 1;
    }
    out
}

/// `name`, trimmed, is not empty and equals one of the non-empty trimmed
/// `names`, ignoring ASCII case.
pub open spec fn ignored(name: Seq<char>, names: Seq<String>) -> bool {
    let t = trim(name);
    &&& t.len() > 0
    &&& exists|i: int|
        0 <= i < names.len() && trim(#[trigger] names[i]@).len() > 0 && eq_ignore_case(
            t,
            trim(names[i]@),
        )
}

pub fn is_ignored(name: &str, names: &[String]) -> (r: bool)
    ensures
        r == ignored(name@, names@),
{
    let t = trim_str(name);
    if t.as_str().unicode_len() == 0 {
        return false;
    }
    let mut i: usize = 0;
    while i < names.len()
        invariant
            t@ == trim(name@),
            i <= names@.len(),
            forall|k: int|
                0 <= k < i ==> !(trim(#[trigger] names@[k]@).len() > 0 && eq_ignore_case(
                    t@,
                    trim(names@[k]@),
                )),
        decreases names@.len() - i,
    {
        let d = trim_str(names[i].as_str());
        if eq_ignore_ascii_case(t.as_str(), d.as_str()) && d.as_str().unicode_len() > 0 {
            return true;
        }
        i = i + 1;
    }
    false
}

} // verus!

//! The read-only limb: two tools over one directory. Nothing here can
//! write, so siblings sharing a filesystem cannot race. A failure is told
//! to the agent in-band, as the tool's text.
use vstd::prelude::*;
use crate::order::{sort_strings, sorted_texts};
use crate::text::{cat, cat3, joined, owned, views};

verus! {

/// The directory the tools work in, canonical.
pub struct Limb {
    pub root: String,
}

/// The kinds of filesystem failure the limb names itself.
pub enum IoKind {
    NotFound,
    PermissionDenied,
    /// Any other failure, told by its own description.
    Other,
}

/// Why a filesystem call failed, in words for the model.
pub fn io_reason(kind: IoKind, description: &str) -> (r: String)
    ensures
        r@ == match kind {
            IoKind::NotFound => "no such file or directory"@,
            IoKind::PermissionDenied => "permission denied"@,
            IoKind::Other => description@,
        },
{
    match kind {
        IoKind::NotFound => owned("no such file or directory"),
        IoKind::PermissionDenied => owned("permission denied"),
        IoKind::Other => owned(description),
    }
}

/// Whether `path` lies at or under `root`, component by component.
pub open spec fn within(root: Seq<char>, path: Seq<char>) -> bool {
    path == root || (root.len() > 0 && root.last() == '/' && root.len() <= path.len()
        && path.subrange(0, root.len() as int) == root) || (root.len() < path.len()
        && path.subrange(0, root.len() as int) == root && path[root.len() as int] == '/')
}

/// A directory listing: sorted entries one per line, or a note that the
/// directory is empty.
pub open spec fn listing_text(path: Seq<char>, names: Seq<Seq<char>>) -> Seq<char> {
    if names.len() == 0 {
        path + " is empty"@
    } else {
        joined(sorted_texts(names), "\n"@)
    }
}

impl Limb {
    /// The limb over `dir`, given what canonicalizing `dir` gave and
    /// whether that is a directory.
    pub fn new(dir: &str, canonical: Result<String, String>, is_dir: bool) -> (r: Result<Limb, String>)
        ensures
            match canonical {
                Err(e) => r matches Err(m) && m@ == "--dir "@ + dir@ + ": "@ + e@,
                Ok(root) => if is_dir {
                    r matches Ok(l) && l.root == root
                } else {
                    r matches Err(m) && m@ == "--dir "@ + root@ + " is not a directory"@
                },
            },
    {
        match canonical {
            Err(e) => {
                let mut m = cat3("--dir ", dir, ": ");
                m.append(e.as_str());
                Err(m)
            },
            Ok(root) => if is_dir {
                Ok(Limb { root })
            } else {
                Err(cat3("--dir ", root.as_str(), " is not a directory"))
            },
        }
    }

    /// The first check of a path an agent gave: it must be relative.
    pub fn check_relative(&self, path: &str) -> (r: Result<(), String>)
        ensures
            match r {
                Ok(()) => !(path@.len() > 0 && path@[0] == '/'),
                Err(e) => path@.len() > 0 && path@[0] == '/'
                    && e@ == "path must be relative to the run directory; got "@ + path@,
            },
    {
        let v = crate::text::chars_of(path);
        if v.len() > 0 && v[0] == '/' {
            Err(cat("path must be relative to the run directory; got ", path))
        } else {
            Ok(())
        }
    }

    /// The path an agent gave, once the filesystem canonicalized it under
    /// the root: it must still lie under the root.
    pub fn resolve(&self, path: &str, canonical: Result<String, String>) -> (r: Result<String, String>)
        ensures
            match canonical {
                Err(reason) => r matches Err(e) && e@ == path@ + ": "@ + reason@,
                Ok(resolved) => if within(self.root@, resolved@) {
                    r matches Ok(x) && x@ == resolved@
                } else {
                    r matches Err(e) && e@ == path@ + " is outside the run directory"@
                },
            },
    {
        match canonical {
            Err(reason) => Err(cat3(path, ": ", reason.as_str())),
            Ok(resolved) => if is_within(self.root.as_str(), resolved.as_str()) {
                Ok(resolved)
            } else {
                Err(cat(path, " is outside the run directory"))
            },
        }
    }

    /// What the model reads of a directory: its entries (directories with
    /// a `/` after the name), sorted, or why there are none.
    pub fn list_text(&self, path: &str, names: Vec<String>) -> (r: String)
        ensures
            r@ == listing_text(path@, views(names@)),
    {
        if names.len() == 0 {
            cat(path, " is empty")
        } else {
            let sorted = sort_strings(names);
            crate::text::join(&sorted, "\n")
        }
    }

    /// What the model reads when a tool failed.
    pub fn error_text(&self, error: &str) -> (r: String)
        ensures
            r@ == "Error: "@ + error@,
    {
        cat("Error: ", error)
    }
}

/// Whether `path` lies at or under `root`.
pub fn is_within(root: &str, path: &str) -> (r: bool)
    ensures
        r == within(root@, path@),
{
    let rv = crate::text::chars_of(root);
    let pv = crate::text::chars_of(path);
    let n = rv.len();
    if crate::text::same(root, path) {
        return true;
    }
    if n > pv.len() {
        return false;
    }
    let mut i: usize = 0;
    while i < n
        invariant
            i <= n,
            n == rv@.len(),
            n <= pv@.len(),
            rv@ == root@,
            pv@ == path@,
            forall|k: int| 0 <= k < i ==> rv@[k] == pv@[k],
        decreases n - i,
    {
        if rv[i] != pv[i] {
            assert(pv@.subrange(0, n as int)[i as int] != rv@[i as int]);
            return false;
        }
        i = i + 1;
    }
    assert(pv@.subrange(0, n as int) =~= rv@);
    if n > 0 && rv[n - 1] == '/' {
        return true;
    }
    n < pv.len() && pv[n] == '/'
}

} // verus!

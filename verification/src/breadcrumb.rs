//! Breadcrumb trails: the ordered chain of ancestors of a resolved path,
//! root first, the path itself excluded.  The sandbox root has no segment
//! name of its own, so its crumb carries the sentinel title `ROOT` and the
//! empty relative path.

use vstd::prelude::*;
use crate::path_resolve::{ResolvedPath, join_rel};

verus! {

/// One ancestor link: `title` is the ancestor's own last segment (the
/// sentinel `ROOT` for the sandbox root) and `path` its root-relative path.
#[derive(Debug)]
pub struct Breadcrumb {
    pub title: String,
    pub path: String,
}

impl PartialEq for Breadcrumb {
    fn eq(&self, other: &Breadcrumb) -> (r: bool) {
        self.title == other.title && self.path == other.path
    }
}

impl vstd::std_specs::cmp::PartialEqSpecImpl for Breadcrumb {
    open spec fn obeys_eq_spec() -> bool {
        true
    }

    open spec fn eq_spec(&self, other: &Breadcrumb) -> bool {
        self.title@ == other.title@ && self.path@ == other.path@
    }
}

/// The title and path of the `i`-th crumb of the path `segs`: the root
/// sentinel at position zero, then one ancestor per following position.
pub open spec fn crumb_at(segs: Seq<Seq<char>>, i: int) -> (Seq<char>, Seq<char>) {
    (
        if i == 0 {
            "ROOT"@
        } else {
            segs[i - 1]
        },
        join_rel(segs.take(i)),
    )
}

/// Walks the ancestors of `resolved` from the root down to its immediate
/// parent: the root path itself yields no crumbs at all.
pub fn build_breadcrumbs(resolved: &ResolvedPath) -> (r: Vec<Breadcrumb>)
    ensures
        r@.len() == resolved@.len(),
        forall|i: int| 0 <= i < r@.len() ==> (r@[i].title@, r@[i].path@) == crumb_at(resolved@, i),
{
    let segs = resolved.segments();
    let mut out: Vec<Breadcrumb> = Vec::new();
    let mut acc = String::new();
    let mut i: usize = 0;
    while i < segs.len()
        invariant
            i <= segs.len(),
            segs.deep_view() == resolved@,
            out@.len() == i,
            acc@ == join_rel(resolved@.take(i as int)),
            forall|k: int| 0 <= k < i ==> (out@[k].title@, out@[k].path@) == crumb_at(
                resolved@,
                k,
            ),
        decreases segs.len() - i,
    {
        let title: String = if i == 0 {
            "ROOT".to_owned()
        } else {
            segs[i - 1].clone()
        };
        proof {
            assert(resolved@[i as int] == segs@[i as int]@);
            if i > 0 {
                assert(resolved@[i - 1] == segs@[i - 1]@);
            }
        }
        out.push(Breadcrumb { title, path: acc.clone() });
        proof {
            reveal_strlit("/");
            assert(resolved@.take(i + 1).drop_last() =~= resolved@.take(i as int));
        }
        if i > 0 {
            acc.append("/");
        }
        acc.append(segs[i].as_str());
        proof {
            if i == 0 {
                assert(acc@ =~= join_rel(resolved@.take(1)));
            }
        }
        i = i + 1;
    }
    out
}

} // verus!

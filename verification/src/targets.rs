//! Recently watched projects of the presentation view: an entry is the
//! (server, path) pair, most recent first, each at most once, capped.

use vstd::prelude::*;

use crate::recents::{moved_to_front, MAX_RECENT};
use crate::text::{chars_eq, chars_of};

verus! {

/// A project being watched: which server, and the project's path there.
#[derive(Debug, PartialEq)]
pub struct Target {
    pub server: String,
    pub path: String,
}

impl View for Target {
    type V = (Seq<char>, Seq<char>);

    open spec fn view(&self) -> (Seq<char>, Seq<char>) {
        (self.server@, self.path@)
    }
}

impl Clone for Target {
    fn clone(&self) -> (res: Self)
        ensures
            res == *self,
    {
        Target { server: self.server.clone(), path: self.path.clone() }
    }
}

pub open spec fn targets_view(v: Seq<Target>) -> Seq<(Seq<char>, Seq<char>)> {
    v.map_values(|t: Target| t@)
}

fn target_eq(a: &Target, b: &Target) -> (res: bool)
    ensures
        res == (a@ == b@),
{
    let a1 = chars_of(a.server.as_str());
    let b1 = chars_of(b.server.as_str());
    let a2 = chars_of(a.path.as_str());
    let b2 = chars_of(b.path.as_str());
    chars_eq(a1.as_slice(), b1.as_slice()) && chars_eq(a2.as_slice(), b2.as_slice())
}

/// `target` moved (or added) to the front of `recent`, capped; the same
/// path on another server is another entry.
pub fn with_recent(recent: &[Target], target: &Target) -> (res: Vec<Target>)
    ensures
        targets_view(res@) == moved_to_front(targets_view(recent@), target@),
{
    let ghost items = targets_view(recent@);
    let ghost pred = |x: (Seq<char>, Seq<char>)| x != target@;
    let mut out: Vec<Target> = Vec::new();
    out.push(target.clone());
    let mut i: usize = 0;
    while i < recent.len()
        invariant
            i <= recent@.len(),
            items == targets_view(recent@),
            pred == (|x: (Seq<char>, Seq<char>)| x != target@),
            targets_view(out@) == seq![target@] + items.take(i as int).filter(pred),
        decreases recent@.len() - i,
    {
        let ghost prev = targets_view(out@);
        proof {
            assert(items.take(i + 1) =~= items.take(i as int).push(items[i as int]));
            items.take(i as int).lemma_filter_push(items[i as int], pred);
        }
        if !target_eq(&recent[i], target) {
            out.push(recent[i].clone());
            proof {
                assert(targets_view(out@) =~= prev.push(items[i as int]));
            }
        }
        i = i + 1;
    }
    proof {
        assert(items.take(recent@.len() as int) =~= items);
    }
    let ghost all = targets_view(out@);
    out.truncate(MAX_RECENT);
    proof {
        if all.len() <= MAX_RECENT {
            assert(targets_view(out@) =~= all);
        } else {
            assert(targets_view(out@) =~= all.take(MAX_RECENT as int));
        }
    }
    out
}

/// The project a presentation page's URL asks to watch: both its
/// `server` and `path` query values, neither empty.
pub fn target_from_params(server: Option<String>, path: Option<String>) -> (res: Option<Target>)
    ensures
        match (server, path) {
            (Some(s), Some(p)) => if s@.len() > 0 && p@.len() > 0 {
                res == Some(Target { server: s, path: p })
            } else {
                res is None
            },
            _ => res is None,
        },
{
    match (server, path) {
        (Some(s), Some(p)) => if !s.as_str().is_empty() && !p.as_str().is_empty() {
            Some(Target { server: s, path: p })
        } else {
            None
        },
        _ => None,
    }
}

} // verus!

//! Recently opened projects: most recent first, each at most once,
//! capped. The editor keys them by path; the presentation view by the
//! (server, path) pair it watches.

use vstd::prelude::*;

use crate::project::strings_view;
use crate::text::{chars_eq, chars_of};

verus! {

/// How many recent entries are kept.
pub const MAX_RECENT: usize = 8;

/// `items` with `first` moved (or added) to the front, then capped.
pub open spec fn moved_to_front<T>(items: Seq<T>, first: T) -> Seq<T> {
    let all = seq![first] + items.filter(|x: T| x != first);
    if all.len() <= MAX_RECENT {
        all
    } else {
        all.take(MAX_RECENT as int)
    }
}

/// `path` moved (or added) to the front of `recent`, capped.
pub fn with_recent(recent: &[String], path: &str) -> (res: Vec<String>)
    ensures
        strings_view(res@) == moved_to_front(strings_view(recent@), path@),
{
    let ghost items = strings_view(recent@);
    let ghost pred = |x: Seq<char>| x != path@;
    let target = chars_of(path);
    let mut out: Vec<String> = Vec::new();
    out.push(path.to_owned());
    let mut i: usize = 0;
    while i < recent.len()
        invariant
            i <= recent@.len(),
            items == strings_view(recent@),
            target@ == path@,
            pred == (|x: Seq<char>| x != path@),
            strings_view(out@) == seq![path@] + items.take(i as int).filter(pred),
        decreases recent@.len() - i,
    {
        let ghost prev = strings_view(out@);
        proof {
            assert(items.take(i + 1) =~= items.take(i as int).push(items[i as int]));
            items.take(i as int).lemma_filter_push(items[i as int], pred);
        }
        let here = chars_of(recent[i].as_str());
        if !chars_eq(here.as_slice(), target.as_slice()) {
            out.push(recent[i].clone());
            proof {
                assert(strings_view(out@) =~= prev.push(items[i as int]));
            }
        }
        i = i + 1;
    }
    proof {
        assert(items.take(recent@.len() as int) =~= items);
    }
    let ghost all = strings_view(out@);
    out.truncate(MAX_RECENT);
    proof {
        if all.len() <= MAX_RECENT {
            assert(strings_view(out@) =~= all);
        } else {
            assert(strings_view(out@) =~= all.take(MAX_RECENT as int));
        }
    }
    out
}

} // verus!

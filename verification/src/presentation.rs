//! The presentation view's decisions: which pins players see, where
//! following one leads, and when the F key toggles full screen.

use vstd::prelude::*;

use crate::mutations::{find_link_index, first_index_of, link_ids};
use crate::project::{HexenProject, Link, Location, ProjectView};
use crate::text::{chars_eq, chars_of};

verus! {

/// A pin players may see: one not marked hidden.
pub open spec fn is_shown(l: Link) -> bool {
    l.hidden != Some(true)
}

/// The pins of a map that players see, in order.
pub fn visible_links(links: &Vec<Link>) -> (res: Vec<Link>)
    ensures
        res@ == links@.filter(|l: Link| is_shown(l)),
{
    let ghost pred = |l: Link| is_shown(l);
    let mut out: Vec<Link> = Vec::new();
    let mut i: usize = 0;
    while i < links.len()
        invariant
            i <= links@.len(),
            pred == (|l: Link| is_shown(l)),
            out@ == links@.take(i as int).filter(pred),
        decreases links@.len() - i,
    {
        proof {
            assert(links@.take(i + 1) =~= links@.take(i as int).push(links@[i as int]));
            links@.take(i as int).lemma_filter_push(links@[i as int], pred);
        }
        if links[i].hidden != Some(true) {
            out.push(links[i].clone());
        }
        i = i + 1;
    }
    proof {
        assert(links@.take(links@.len() as int) =~= links@);
    }
    out
}

/// Some Location with id `id` has an image.
pub open spec fn has_map(p: ProjectView, id: Seq<char>) -> bool {
    exists|i: int| 0 <= i < p.locations.len() && p.locations[i].id == id && (
    #[trigger] p.locations[i]).image is Some
}

/// Where following pin `link_id` of `links` leads: its target, when that
/// is a map; nowhere otherwise.
pub open spec fn destination(p: ProjectView, links: Seq<Link>, link_id: Seq<char>) -> Option<Seq<char>> {
    match first_index_of(link_ids(links), link_id) {
        Some(k) => if has_map(p, links[k].target@) {
            Some(links[k].target@)
        } else {
            None
        },
        None => None,
    }
}

fn is_map(project: &HexenProject, id: &str) -> (res: bool)
    ensures
        res == has_map(project@, id@),
{
    let key = chars_of(id);
    let mut i: usize = 0;
    while i < project.locations.len()
        invariant
            i <= project.locations@.len(),
            key@ == id@,
            forall|k: int|
                0 <= k < i ==> !(project@.locations[k].id == id@ && (
                #[trigger] project@.locations[k]).image is Some),
        decreases project.locations@.len() - i,
    {
        let l = &project.locations[i];
        if l.image.is_some() && chars_eq(chars_of(l.id.as_str()).as_slice(), key.as_slice()) {
            proof {
                assert(project@.locations[i as int] == l@);
            }
            return true;
        }
        proof {
            assert(project@.locations[i as int] == l@);
        }
        i = i + 1;
    }
    false
}

/// Where following pin `link_id` on the map `links` leads.
pub fn link_destination(project: &HexenProject, links: &Vec<Link>, link_id: &str) -> (res: Option<
    String,
>)
    ensures
        match destination(project@, links@, link_id@) {
            Some(t) => res matches Some(r) && r@ == t,
            None => res is None,
        },
{
    match find_link_index(links, link_id) {
        Some(k) => {
            proof {
                crate::mutations::lemma_first_index(link_ids(links@), link_id@);
            }
            let target = links[k].target.clone();
            if is_map(project, target.as_str()) {
                Some(target)
            } else {
                None
            }
        },
        None => None,
    }
}

/// What the F key does to full screen.
#[derive(Debug, PartialEq, Eq, Clone, Copy, Structural)]
pub enum FullscreenChange {
    Enter,
    Exit,
}

/// A bare F press (either case, not held down, without Cmd, Ctrl or Alt)
/// leaves full screen when in it and enters it otherwise; any other key
/// does nothing.
pub fn fullscreen_key(key: &str, repeat: bool, meta: bool, ctrl: bool, alt: bool, is_fullscreen: bool) -> (res:
    Option<FullscreenChange>)
    ensures
        res == if (key@ == seq!['f'] || key@ == seq!['F']) && !repeat && !meta && !ctrl && !alt {
            Some(
                if is_fullscreen {
                    FullscreenChange::Exit
                } else {
                    FullscreenChange::Enter
                },
            )
        } else {
            None
        },
{
    let k = chars_of(key);
    let is_f = k.len() == 1 && (k[0] == 'f' || k[0] == 'F');
    proof {
        if k@.len() == 1 {
            assert(k@ =~= seq![k@[0]]);
        }
    }
    if !is_f || repeat || meta || ctrl || alt {
        return None;
    }
    if is_fullscreen {
        Some(FullscreenChange::Exit)
    } else {
        Some(FullscreenChange::Enter)
    }
}

} // verus!

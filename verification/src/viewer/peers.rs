//! The other panes of the sidebar's tab.

use vstd::prelude::*;

use crate::scan::{decimal, parse_u64};
use crate::text::{chars_of, eq_text, opt_text};

verus! {

/// What the host says of one pane.
pub struct PeerPane {
    pub pane_id: Option<String>,
    pub tab_id: Option<String>,
    pub focused: bool,
    pub label: Option<String>,
    /// When the pane last said that it is a viewer, in seconds; nothing inside
    /// where what it said is no text.
    pub viewer_stamp: Option<Option<String>>,
}

#[verifier::ext_equal]
pub struct PeerView {
    pub pane_id: Option<Seq<char>>,
    pub tab_id: Option<Seq<char>>,
    pub focused: bool,
    pub label: Option<Seq<char>>,
    pub viewer_stamp: Option<Option<Seq<char>>>,
}

impl View for PeerPane {
    type V = PeerView;

    open spec fn view(&self) -> PeerView {
        PeerView {
            pane_id: opt_text(self.pane_id),
            tab_id: opt_text(self.tab_id),
            focused: self.focused,
            label: opt_text(self.label),
            viewer_stamp: match self.viewer_stamp {
                Some(s) => Some(opt_text(s)),
                None => None,
            },
        }
    }
}

pub open spec fn peers_view(v: Seq<PeerPane>) -> Seq<PeerView> {
    v.map_values(|p: PeerPane| p@)
}

/// The first pane at or after `i` with this id, or the number of panes.
pub open spec fn own_pane(panes: Seq<PeerView>, id: Seq<char>, i: int) -> int
    decreases panes.len() - i,
{
    if i >= panes.len() {
        panes.len() as int
    } else if panes[i].pane_id == Some(id) {
        i
    } else {
        own_pane(panes, id, i + 1)
    }
}

/// The tab of the pane with this id.
pub open spec fn tab_of(panes: Seq<PeerView>, id: Seq<char>) -> Option<Seq<char>> {
    let i = own_pane(panes, id, 0);
    if i < panes.len() {
        panes[i].tab_id
    } else {
        None
    }
}

/// The first pane at or after `i` of this tab, other than the owner's, that has
/// the focus, or the number of panes.
pub open spec fn peer_at(panes: Seq<PeerView>, owner: Seq<char>, tab: Seq<char>, i: int) -> int
    decreases panes.len() - i,
{
    if i >= panes.len() {
        panes.len() as int
    } else if panes[i].focused && panes[i].pane_id != Some(owner) && panes[i].tab_id == Some(tab) {
        i
    } else {
        peer_at(panes, owner, tab, i + 1)
    }
}

/// The pane of the owner's tab, other than the owner's, that has the focus.
pub open spec fn peer_of(panes: Seq<PeerView>, owner: Seq<char>) -> Option<Seq<char>> {
    match tab_of(panes, owner) {
        None => None,
        Some(tab) => {
            let i = peer_at(panes, owner, tab, 0);
            if i < panes.len() {
                panes[i].pane_id
            } else {
                None
            }
        },
    }
}

/// The first pane at or after `i` of this tab that is a viewer, by its word or
/// by its label, or the number of panes.
pub open spec fn viewer_at(panes: Seq<PeerView>, tab: Seq<char>, i: int) -> int
    decreases panes.len() - i,
{
    if i >= panes.len() {
        panes.len() as int
    } else if panes[i].tab_id == Some(tab) && (panes[i].viewer_stamp is Some || panes[i].label
        == Some("Preview"@)) {
        i
    } else {
        viewer_at(panes, tab, i + 1)
    }
}

/// Whether a viewer is gone: it has not said for more than `stale` seconds, or
/// never, that it is there.
pub open spec fn is_stale(pane: PeerView, now: u64, stale: u64) -> bool {
    match pane.viewer_stamp {
        Some(Some(text)) => match decimal(text, u64::MAX as nat) {
            Some(stamp) => now > stamp && now - stamp > stale,
            None => true,
        },
        _ => true,
    }
}

/// The viewer in the owner's tab, and whether it is gone.
pub open spec fn viewer_of(panes: Seq<PeerView>, owner: Seq<char>, now: u64, stale: u64) -> Option<
    (Seq<char>, bool),
> {
    match tab_of(panes, owner) {
        None => None,
        Some(tab) => {
            let i = viewer_at(panes, tab, 0);
            if i < panes.len() && panes[i].pane_id is Some {
                Some((panes[i].pane_id->0, is_stale(panes[i], now, stale)))
            } else {
                None
            }
        },
    }
}

fn is_text(v: &Option<String>, want: &str) -> (r: bool)
    ensures
        r == (opt_text(*v) == Some(want@)),
{
    match v {
        Some(s) => eq_text(s.as_str(), want),
        None => false,
    }
}

fn find_own(panes: &Vec<PeerPane>, id: &str) -> (r: usize)
    ensures
        r == own_pane(peers_view(panes@), id@, 0),
        r <= panes@.len(),
{
    let ghost all = peers_view(panes@);
    let mut i: usize = 0;
    while i < panes.len()
        invariant
            i <= panes@.len(),
            all == peers_view(panes@),
            own_pane(all, id@, 0) == own_pane(all, id@, i as int),
        decreases panes@.len() - i,
    {
        assert(all[i as int] == panes@[i as int]@);
        if is_text(&panes[i].pane_id, id) {
            return i;
        }
        i += 1;
    }
    i
}

fn find_tab<'a>(panes: &'a Vec<PeerPane>, id: &str) -> (r: Option<&'a str>)
    ensures
        (match r {
            Some(s) => Some(s@),
            None => None,
        }) == tab_of(peers_view(panes@), id@),
{
    let i = find_own(panes, id);
    if i < panes.len() {
        assert(peers_view(panes@)[i as int] == panes@[i as int]@);
        match &panes[i].tab_id {
            Some(s) => Some(s.as_str()),
            None => None,
        }
    } else {
        None
    }
}

/// The pane of the owner's tab, other than the owner's, that has the focus.
pub fn focused_peer_in_tab(panes: &Vec<PeerPane>, owner: &str) -> (r: Option<String>)
    ensures
        opt_text(r) == peer_of(peers_view(panes@), owner@),
{
    let tab = match find_tab(panes, owner) {
        Some(tab) => tab,
        None => {
            return None;
        },
    };
    let ghost all = peers_view(panes@);
    let mut i: usize = 0;
    while i < panes.len()
        invariant
            i <= panes@.len(),
            all == peers_view(panes@),
            tab_of(all, owner@) == Some(tab@),
            peer_at(all, owner@, tab@, 0) == peer_at(all, owner@, tab@, i as int),
        decreases panes@.len() - i,
    {
        let p = &panes[i];
        assert(all[i as int] == p@);
        if p.focused && !is_text(&p.pane_id, owner) && is_text(&p.tab_id, tab) {
            return match &p.pane_id {
                Some(s) => Some(s.clone()),
                None => None,
            };
        }
        i += 1;
    }
    None
}

fn stale_now(p: &PeerPane, now: u64, stale: u64) -> (r: bool)
    ensures
        r == is_stale(p@, now, stale),
{
    match &p.viewer_stamp {
        Some(Some(text)) => {
            let v = chars_of(text.as_str());
            match parse_u64(&v) {
                Some(stamp) => now > stamp && now - stamp > stale,
                None => true,
            }
        },
        _ => true,
    }
}

/// The viewer in the owner's tab, and whether it is gone. `stale` is how many
/// seconds its word that it is there holds.
pub fn viewer_pane_in_tab(panes: &Vec<PeerPane>, my_pane_id: &str, now: u64, stale: u64) -> (r:
    Option<(String, bool)>)
    ensures
        (match r {
            Some((id, gone)) => Some((id@, gone)),
            None => None,
        }) == viewer_of(peers_view(panes@), my_pane_id@, now, stale),
{
    let tab = match find_tab(panes, my_pane_id) {
        Some(tab) => tab,
        None => {
            return None;
        },
    };
    let ghost all = peers_view(panes@);
    let mut i: usize = 0;
    while i < panes.len()
        invariant
            i <= panes@.len(),
            all == peers_view(panes@),
            tab_of(all, my_pane_id@) == Some(tab@),
            viewer_at(all, tab@, 0) == viewer_at(all, tab@, i as int),
        decreases panes@.len() - i,
    {
        let p = &panes[i];
        assert(all[i as int] == p@);
        if is_text(&p.tab_id, tab) && (p.viewer_stamp.is_some() || is_text(&p.label, "Preview")) {
            return match &p.pane_id {
                Some(s) => Some((s.clone(), stale_now(p, now, stale))),
                None => None,
            };
        }
        i += 1;
    }
    None
}

} // verus!

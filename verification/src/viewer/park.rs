//! The split tree of panes that were moved away, recovered from where they
//! were.

use vstd::prelude::*;

verus! {

/// A pane and the rectangle it had.
pub struct ParkedPane {
    pub id: String,
    pub x: i64,
    pub y: i64,
    pub width: i64,
    pub height: i64,
}

#[verifier::ext_equal]
pub struct ParkedView {
    pub id: Seq<char>,
    pub x: int,
    pub y: int,
    pub width: int,
    pub height: int,
}

impl View for ParkedPane {
    type V = ParkedView;

    open spec fn view(&self) -> ParkedView {
        ParkedView {
            id: self.id@,
            x: self.x as int,
            y: self.y as int,
            width: self.width as int,
            height: self.height as int,
        }
    }
}

impl Clone for ParkedPane {
    fn clone(&self) -> (r: ParkedPane)
        ensures
            r@ == self@,
    {
        ParkedPane {
            id: self.id.clone(),
            x: self.x,
            y: self.y,
            width: self.width,
            height: self.height,
        }
    }
}

pub open spec fn parked_view(v: Seq<ParkedPane>) -> Seq<ParkedView> {
    v.map_values(|p: ParkedPane| p@)
}

/// A split tree. A split gives its first part `part` of every `whole` cells.
pub enum Node {
    Leaf(String),
    Split { right: bool, part: i64, whole: i64, first: Box<Node>, second: Box<Node> },
}

pub enum NodeView {
    Leaf(Seq<char>),
    Split { right: bool, part: int, whole: int, first: Box<NodeView>, second: Box<NodeView> },
}

impl Node {
    pub open spec fn seen(self) -> NodeView
        decreases self,
    {
        match self {
            Node::Leaf(id) => NodeView::Leaf(id@),
            Node::Split { right, part, whole, first, second } => NodeView::Split {
                right,
                part: part as int,
                whole: whole as int,
                first: Box::new(first.seen()),
                second: Box::new(second.seen()),
            },
        }
    }
}

/// Where a pane begins along an axis.
pub open spec fn low(p: ParkedView, right: bool) -> int {
    if right {
        p.x
    } else {
        p.y
    }
}

/// Where a pane ends along an axis.
pub open spec fn high(p: ParkedView, right: bool) -> int {
    if right {
        p.x + p.width
    } else {
        p.y + p.height
    }
}

/// Where the first of the panes begins.
pub open spec fn lowest(v: Seq<ParkedView>, right: bool) -> int
    decreases v.len(),
{
    if v.len() == 0 {
        0
    } else if v.len() == 1 || low(v.last(), right) < lowest(v.drop_last(), right) {
        low(v.last(), right)
    } else {
        lowest(v.drop_last(), right)
    }
}

/// Where the last of the panes ends.
pub open spec fn highest(v: Seq<ParkedView>, right: bool) -> int
    decreases v.len(),
{
    if v.len() == 0 {
        0
    } else if v.len() == 1 || high(v.last(), right) > highest(v.drop_last(), right) {
        high(v.last(), right)
    } else {
        highest(v.drop_last(), right)
    }
}

/// The panes that end before a cut.
pub open spec fn before_cut(v: Seq<ParkedView>, right: bool, cut: int) -> Seq<ParkedView>
    decreases v.len(),
{
    if v.len() == 0 {
        Seq::empty()
    } else if high(v.last(), right) <= cut {
        before_cut(v.drop_last(), right, cut).push(v.last())
    } else {
        before_cut(v.drop_last(), right, cut)
    }
}

/// The panes that do not end before a cut.
pub open spec fn after_cut(v: Seq<ParkedView>, right: bool, cut: int) -> Seq<ParkedView>
    decreases v.len(),
{
    if v.len() == 0 {
        Seq::empty()
    } else if high(v.last(), right) <= cut {
        after_cut(v.drop_last(), right, cut)
    } else {
        after_cut(v.drop_last(), right, cut).push(v.last())
    }
}

/// Whether every pane lies on one side of a cut inside the panes' extent, and
/// some on each.
pub open spec fn clean_cut(v: Seq<ParkedView>, right: bool, cut: int) -> bool {
    &&& lowest(v, right) < cut < highest(v, right)
    &&& forall|k: int|
        0 <= k < v.len() ==> high(#[trigger] v[k], right) <= cut || low(v[k], right) >= cut
    &&& before_cut(v, right, cut).len() > 0
    &&& after_cut(v, right, cut).len() > 0
}

/// The first pane at or after `i` whose beginning is a clean cut, or the number
/// of panes.
pub open spec fn cut_at(v: Seq<ParkedView>, right: bool, i: int) -> int
    decreases v.len() - i,
{
    if i >= v.len() {
        v.len() as int
    } else if clean_cut(v, right, low(v[i], right)) {
        i
    } else {
        cut_at(v, right, i + 1)
    }
}

/// Each pane is on one side of a cut.
pub proof fn law_cuts_part_the_panes(v: Seq<ParkedView>, right: bool, cut: int)
    ensures
        before_cut(v, right, cut).len() + after_cut(v, right, cut).len() == v.len(),
    decreases v.len(),
{
    if v.len() > 0 {
        law_cuts_part_the_panes(v.drop_last(), right, cut);
    }
}

/// How wide the panes are together, one cell at least.
pub open spec fn extent(v: Seq<ParkedView>, right: bool) -> int {
    let n = highest(v, right) - lowest(v, right);
    if n > 1 {
        n
    } else {
        1
    }
}

proof fn lemma_cut_at(v: Seq<ParkedView>, right: bool, i: int)
    requires
        0 <= i <= v.len(),
    ensures
        i <= cut_at(v, right, i) <= v.len(),
        cut_at(v, right, i) < v.len() ==> clean_cut(v, right, low(v[cut_at(v, right, i)], right)),
    decreases v.len() - i,
{
    if i < v.len() && !clean_cut(v, right, low(v[i], right)) {
        lemma_cut_at(v, right, i + 1);
    }
}

/// Where the panes are cut, and along which axis: upright lines first.
pub open spec fn best_cut(v: Seq<ParkedView>) -> Option<(bool, int)> {
    let i = cut_at(v, true, 0);
    let j = cut_at(v, false, 0);
    if i < v.len() {
        Some((true, low(v[i], true)))
    } else if j < v.len() {
        Some((false, low(v[j], false)))
    } else {
        None
    }
}

/// The split tree of panes: cut where a line runs between all of them; stacked
/// to the right where there is no such line.
pub open spec fn tree_of(v: Seq<ParkedView>) -> NodeView
    decreases v.len(),
    via tree_of_ends
{
    if v.len() == 0 {
        NodeView::Leaf(Seq::empty())
    } else if v.len() == 1 {
        NodeView::Leaf(v[0].id)
    } else {
        match best_cut(v) {
            Some((right, cut)) => NodeView::Split {
                right,
                part: cut - lowest(v, right),
                whole: extent(v, right),
                first: Box::new(tree_of(before_cut(v, right, cut))),
                second: Box::new(tree_of(after_cut(v, right, cut))),
            },
            None => NodeView::Split {
                right: true,
                part: 1,
                whole: 2,
                first: Box::new(NodeView::Leaf(v[0].id)),
                second: Box::new(tree_of(v.skip(1))),
            },
        }
    }
}

#[via_fn]
proof fn tree_of_ends(v: Seq<ParkedView>) {
    lemma_cut_at(v, true, 0);
    lemma_cut_at(v, false, 0);
    if let Some((right, cut)) = best_cut(v) {
        law_cuts_part_the_panes(v, right, cut);
    }
}

/// Panes whose edges are numbers that a machine holds.
pub open spec fn measurable(v: Seq<ParkedView>) -> bool {
    forall|k: int|
        0 <= k < v.len() ==> fits((#[trigger] v[k]).x + v[k].width) && fits(v[k].y + v[k].height)
            && fits(v[k].x) && fits(v[k].y)
}

/// Within a quarter of what an `i64` holds, so that differences fit too.
pub open spec fn fits(n: int) -> bool {
    -0x2000_0000_0000_0000 <= n <= 0x2000_0000_0000_0000
}

fn low_of(p: &ParkedPane, right: bool) -> (r: i64)
    ensures
        r == low(p@, right),
{
    if right {
        p.x
    } else {
        p.y
    }
}

fn high_of(p: &ParkedPane, right: bool) -> (r: i64)
    requires
        fits(p@.x + p@.width),
        fits(p@.y + p@.height),
    ensures
        r == high(p@, right),
{
    if right {
        p.x + p.width
    } else {
        p.y + p.height
    }
}

fn ends_of(v: &Vec<ParkedPane>, right: bool) -> (r: (i64, i64))
    requires
        measurable(parked_view(v@)),
        v@.len() > 0,
    ensures
        r.0 == lowest(parked_view(v@), right),
        r.1 == highest(parked_view(v@), right),
        fits(r.0 as int) && fits(r.1 as int),
{
    let ghost all = parked_view(v@);
    assert(all[0] == v@[0]@);
    let mut a = low_of(&v[0], right);
    let mut b = high_of(&v[0], right);
    let mut i: usize = 1;
    assert(all.take(1).last() == all[0]);
    while i < v.len()
        invariant
            1 <= i <= v@.len(),
            all == parked_view(v@),
            measurable(all),
            a == lowest(all.take(i as int), right),
            b == highest(all.take(i as int), right),
            fits(a as int) && fits(b as int),
        decreases v@.len() - i,
    {
        assert(all[i as int] == v@[i as int]@);
        assert(all.take(i + 1).drop_last() =~= all.take(i as int));
        assert(all.take(i + 1).last() == all[i as int]);
        let x = low_of(&v[i], right);
        let y = high_of(&v[i], right);
        if x < a {
            a = x;
        }
        if y > b {
            b = y;
        }
        i += 1;
    }
    assert(all.take(i as int) =~= all);
    (a, b)
}

fn part(v: &Vec<ParkedPane>, right: bool, cut: i64) -> (r: (Vec<ParkedPane>, Vec<ParkedPane>))
    requires
        measurable(parked_view(v@)),
    ensures
        parked_view(r.0@) == before_cut(parked_view(v@), right, cut as int),
        parked_view(r.1@) == after_cut(parked_view(v@), right, cut as int),
        measurable(parked_view(r.0@)),
        measurable(parked_view(r.1@)),
{
    let ghost all = parked_view(v@);
    let mut a: Vec<ParkedPane> = Vec::new();
    let mut b: Vec<ParkedPane> = Vec::new();
    let mut i: usize = 0;
    assert(all.take(0) =~= Seq::empty());
    assert(parked_view(a@) =~= Seq::empty());
    assert(parked_view(b@) =~= Seq::empty());
    while i < v.len()
        invariant
            i <= v@.len(),
            all == parked_view(v@),
            measurable(all),
            parked_view(a@) == before_cut(all.take(i as int), right, cut as int),
            parked_view(b@) == after_cut(all.take(i as int), right, cut as int),
            measurable(parked_view(a@)),
            measurable(parked_view(b@)),
        decreases v@.len() - i,
    {
        assert(all[i as int] == v@[i as int]@);
        assert(all.take(i + 1).drop_last() =~= all.take(i as int));
        assert(all.take(i + 1).last() == all[i as int]);
        let p = v[i].clone();
        if high_of(&p, right) <= cut {
            let ghost before = parked_view(a@);
            a.push(p);
            assert(parked_view(a@) =~= before.push(p@));
        } else {
            let ghost before = parked_view(b@);
            b.push(p);
            assert(parked_view(b@) =~= before.push(p@));
        }
        i += 1;
    }
    assert(all.take(i as int) =~= all);
    (a, b)
}

fn apart(v: &Vec<ParkedPane>, right: bool, cut: i64) -> (r: bool)
    requires
        measurable(parked_view(v@)),
    ensures
        r == forall|k: int|
            0 <= k < parked_view(v@).len() ==> high(#[trigger] parked_view(v@)[k], right) <= cut
                || low(parked_view(v@)[k], right) >= cut,
{
    let ghost all = parked_view(v@);
    let mut i: usize = 0;
    while i < v.len()
        invariant
            i <= v@.len(),
            all == parked_view(v@),
            measurable(all),
            forall|k: int|
                0 <= k < i ==> high(#[trigger] all[k], right) <= cut || low(all[k], right) >= cut,
        decreases v@.len() - i,
    {
        assert(all[i as int] == v@[i as int]@);
        if !(high_of(&v[i], right) <= cut || low_of(&v[i], right) >= cut) {
            return false;
        }
        i += 1;
    }
    true
}

fn find_cut(v: &Vec<ParkedPane>, right: bool) -> (r: Option<i64>)
    requires
        measurable(parked_view(v@)),
        v@.len() > 0,
    ensures
        ({
            let all = parked_view(v@);
            let i = cut_at(all, right, 0);
            match r {
                Some(cut) => i < all.len() && cut == low(all[i], right),
                None => i >= all.len(),
            }
        }),
{
    let ghost all = parked_view(v@);
    let (a, b) = ends_of(v, right);
    let mut i: usize = 0;
    while i < v.len()
        invariant
            i <= v@.len(),
            all == parked_view(v@),
            measurable(all),
            a == lowest(all, right),
            b == highest(all, right),
            cut_at(all, right, 0) == cut_at(all, right, i as int),
        decreases v@.len() - i,
    {
        assert(all[i as int] == v@[i as int]@);
        let cut = low_of(&v[i], right);
        if a < cut && cut < b && apart(v, right, cut) {
            let (x, y) = part(v, right, cut);
            assert(x@.len() == parked_view(x@).len());
            assert(y@.len() == parked_view(y@).len());
            if x.len() > 0 && y.len() > 0 {
                return Some(cut);
            }
        }
        i += 1;
    }
    None
}

fn tail(v: &Vec<ParkedPane>) -> (r: Vec<ParkedPane>)
    requires
        v@.len() > 0,
    ensures
        parked_view(r@) == parked_view(v@).skip(1),
{
    let ghost want = parked_view(v@).skip(1);
    let mut out: Vec<ParkedPane> = Vec::new();
    let mut i: usize = 1;
    while i < v.len()
        invariant
            1 <= i <= v@.len(),
            want == parked_view(v@).skip(1),
            parked_view(out@) =~= want.take(i - 1),
        decreases v@.len() - i,
    {
        let ghost before = parked_view(out@);
        let p = v[i].clone();
        out.push(p);
        assert(parked_view(out@) =~= before.push(p@));
        assert(parked_view(v@)[i as int] == v@[i as int]@);
        i += 1;
    }
    assert(want.take(i - 1) =~= want);
    out
}

/// The split tree of panes.
pub fn build_tree(panes: &Vec<ParkedPane>) -> (r: Node)
    requires
        panes@.len() > 0,
        measurable(parked_view(panes@)),
    ensures
        r.seen() == tree_of(parked_view(panes@)),
    decreases panes@.len(),
{
    let ghost all = parked_view(panes@);
    assert(all.len() == panes@.len());
    assert(all[0] == panes@[0]@);
    if panes.len() == 1 {
        return Node::Leaf(panes[0].id.clone());
    }
    let found = match find_cut(panes, true) {
        Some(cut) => Some((true, cut)),
        None => match find_cut(panes, false) {
            Some(cut) => Some((false, cut)),
            None => None,
        },
    };
    match found {
        Some((right, cut)) => {
            let (a, b) = ends_of(panes, right);
            let (x, y) = part(panes, right, cut);
            proof {
                lemma_cut_at(all, true, 0);
                lemma_cut_at(all, false, 0);
                law_cuts_part_the_panes(all, right, cut as int);
                assert(x@.len() == parked_view(x@).len());
                assert(y@.len() == parked_view(y@).len());
            }
            let whole = if b - a > 1 {
                b - a
            } else {
                1
            };
            assert(best_cut(all) == Some((right, cut as int)));
            let first = build_tree(&x);
            let second = build_tree(&y);
            let node = Node::Split {
                right,
                part: cut - a,
                whole,
                first: Box::new(first),
                second: Box::new(second),
            };
            assert(node.seen() == tree_of(all));
            node
        },
        None => {
            let rest = tail(panes);
            assert(rest@.len() == parked_view(rest@).len());
            assert forall|k: int| 0 <= k < parked_view(rest@).len() implies fits(
                (#[trigger] parked_view(rest@)[k]).x + parked_view(rest@)[k].width,
            ) && fits(parked_view(rest@)[k].y + parked_view(rest@)[k].height) && fits(
                parked_view(rest@)[k].x,
            ) && fits(parked_view(rest@)[k].y) by {
                assert(parked_view(rest@)[k] == all[k + 1]);
            }
            let second = build_tree(&rest);
            let first = Node::Leaf(panes[0].id.clone());
            assert(first.seen() == NodeView::Leaf(all[0].id));
            let node = Node::Split {
                right: true,
                part: 1,
                whole: 2,
                first: Box::new(first),
                second: Box::new(second),
            };
            assert(node.seen() == tree_of(all));
            node
        },
    }
}

/// The pane that stands for a tree: the first in it.
pub open spec fn leader(n: NodeView) -> Seq<char>
    decreases n,
{
    match n {
        NodeView::Leaf(id) => id,
        NodeView::Split { first, .. } => leader(*first),
    }
}

/// The pane that stands for a tree.
pub fn rep(node: &Node) -> (r: &str)
    ensures
        r@ == leader(node.seen()),
    decreases node,
{
    match node {
        Node::Leaf(id) => id.as_str(),
        Node::Split { first, .. } => rep(first),
    }
}

/// One pane moved beside another, which keeps `part` of every `whole` cells.
pub struct Move {
    pub pane: String,
    pub target: String,
    pub right: bool,
    pub part: i64,
    pub whole: i64,
}

#[verifier::ext_equal]
pub struct MoveView {
    pub pane: Seq<char>,
    pub target: Seq<char>,
    pub right: bool,
    pub part: int,
    pub whole: int,
}

impl View for Move {
    type V = MoveView;

    open spec fn view(&self) -> MoveView {
        MoveView {
            pane: self.pane@,
            target: self.target@,
            right: self.right,
            part: self.part as int,
            whole: self.whole as int,
        }
    }
}

pub open spec fn moves_view(v: Seq<Move>) -> Seq<MoveView> {
    v.map_values(|m: Move| m@)
}

/// The moves that rebuild a tree whose first pane is in place: each split is
/// made before those inside it.
pub open spec fn moves_of(n: NodeView) -> Seq<MoveView>
    decreases n,
{
    match n {
        NodeView::Leaf(_) => Seq::empty(),
        NodeView::Split { right, part, whole, first, second } => seq![
            MoveView { pane: leader(*second), target: leader(*first), right, part, whole },
        ] + moves_of(*first) + moves_of(*second),
    }
}

fn push_moves(out: &mut Vec<Move>, node: &Node)
    ensures
        moves_view(final(out)@) == moves_view(old(out)@) + moves_of(node.seen()),
    decreases node,
{
    let ghost before = moves_view(out@);
    match node {
        Node::Leaf(_) => {
            assert(moves_view(out@) =~= before + moves_of(node.seen()));
        },
        Node::Split { right, part, whole, first, second } => {
            let m = Move {
                pane: rep(second).to_string(),
                target: rep(first).to_string(),
                right: *right,
                part: *part,
                whole: *whole,
            };
            out.push(m);
            assert(moves_view(out@) =~= before.push(m@));
            push_moves(out, first);
            push_moves(out, second);
            assert(moves_view(out@) =~= before + moves_of(node.seen()));
        },
    }
}

/// The moves that rebuild a tree whose first pane is in place.
pub fn replay(node: &Node) -> (r: Vec<Move>)
    ensures
        moves_view(r@) == moves_of(node.seen()),
{
    let mut out: Vec<Move> = Vec::new();
    assert(moves_view(out@) =~= Seq::empty());
    push_moves(&mut out, node);
    assert(moves_view(out@) =~= moves_of(node.seen()));
    out
}

// ---- What comes back ----

/// The panes of a tree, from its first part to its second.
pub open spec fn leaves(n: NodeView) -> Seq<Seq<char>>
    decreases n,
{
    match n {
        NodeView::Leaf(id) => seq![id],
        NodeView::Split { first, second, .. } => leaves(*first) + leaves(*second),
    }
}

/// The ids of panes.
pub open spec fn ids(v: Seq<ParkedView>) -> Seq<Seq<char>> {
    v.map_values(|p: ParkedView| p.id)
}

/// The panes that are moved.
pub open spec fn moved(v: Seq<MoveView>) -> Seq<Seq<char>> {
    v.map_values(|m: MoveView| m.pane)
}

proof fn lemma_cut_ids(v: Seq<ParkedView>, right: bool, cut: int)
    ensures
        ids(before_cut(v, right, cut)).to_multiset().add(
            ids(after_cut(v, right, cut)).to_multiset(),
        ) == ids(v).to_multiset(),
    decreases v.len(),
{
    broadcast use vstd::seq_lib::group_to_multiset_ensures;

    if v.len() == 0 {
        assert(ids(before_cut(v, right, cut)) =~= Seq::empty());
        assert(ids(after_cut(v, right, cut)) =~= Seq::empty());
        assert(ids(v) =~= Seq::empty());
        assert(ids(before_cut(v, right, cut)).to_multiset().add(
            ids(after_cut(v, right, cut)).to_multiset(),
        ) =~= ids(v).to_multiset());
    } else {
        let w = v.drop_last();
        lemma_cut_ids(w, right, cut);
        let a = before_cut(w, right, cut);
        let b = after_cut(w, right, cut);
        assert(ids(v) =~= ids(w).push(v.last().id));
        assert(ids(a.push(v.last())) =~= ids(a).push(v.last().id));
        assert(ids(b.push(v.last())) =~= ids(b).push(v.last().id));
        assert(ids(before_cut(v, right, cut)).to_multiset().add(
            ids(after_cut(v, right, cut)).to_multiset(),
        ) =~= ids(v).to_multiset());
    }
}

proof fn lemma_tree_leaves(v: Seq<ParkedView>)
    requires
        v.len() > 0,
    ensures
        leaves(tree_of(v)).to_multiset() == ids(v).to_multiset(),
    decreases v.len(),
{
    if v.len() == 1 {
        assert(leaves(tree_of(v)) =~= ids(v));
    } else {
        lemma_cut_at(v, true, 0);
        lemma_cut_at(v, false, 0);
        match best_cut(v) {
            Some((right, cut)) => {
                let a = before_cut(v, right, cut);
                let b = after_cut(v, right, cut);
                law_cuts_part_the_panes(v, right, cut);
                assert(a.len() > 0 && b.len() > 0);
                lemma_tree_leaves(a);
                lemma_tree_leaves(b);
                lemma_cut_ids(v, right, cut);
                vstd::seq_lib::lemma_multiset_commutative(leaves(tree_of(a)), leaves(tree_of(b)));
                assert(leaves(tree_of(v)) =~= leaves(tree_of(a)) + leaves(tree_of(b)));
            },
            None => {
                lemma_tree_leaves(v.skip(1));
                vstd::seq_lib::lemma_multiset_commutative(
                    seq![v[0].id],
                    leaves(tree_of(v.skip(1))),
                );
                assert(leaves(NodeView::Leaf(v[0].id)) =~= seq![v[0].id]);
                assert(leaves(tree_of(v)) =~= seq![v[0].id] + leaves(tree_of(v.skip(1))));
                assert(ids(v) =~= seq![v[0].id] + ids(v.skip(1)));
                vstd::seq_lib::lemma_multiset_commutative(seq![v[0].id], ids(v.skip(1)));
            },
        }
    }
}

proof fn lemma_moves_leaves(n: NodeView)
    ensures
        (seq![leader(n)] + moved(moves_of(n))).to_multiset() == leaves(n).to_multiset(),
    decreases n,
{
    match n {
        NodeView::Leaf(id) => {
            assert(seq![leader(n)] + moved(moves_of(n)) =~= leaves(n));
        },
        NodeView::Split { first, second, .. } => {
            lemma_moves_leaves(*first);
            lemma_moves_leaves(*second);
            let a = seq![leader(*first)];
            let b = seq![leader(*second)];
            let p = moved(moves_of(*first));
            let q = moved(moves_of(*second));
            assert(seq![leader(n)] + moved(moves_of(n)) =~= (a + b) + (p + q));
            vstd::seq_lib::lemma_multiset_commutative(a + b, p + q);
            vstd::seq_lib::lemma_multiset_commutative(a, b);
            vstd::seq_lib::lemma_multiset_commutative(p, q);
            vstd::seq_lib::lemma_multiset_commutative(a, p);
            vstd::seq_lib::lemma_multiset_commutative(b, q);
            vstd::seq_lib::lemma_multiset_commutative(leaves(*first), leaves(*second));
            assert(((a + b) + (p + q)).to_multiset() =~= leaves(n).to_multiset());
        },
    }
}

/// Every parked pane comes back, and none twice: the first and those moved after
/// it are the panes that were parked.
pub proof fn law_every_pane_comes_back_once(v: Seq<ParkedView>)
    requires
        v.len() > 0,
    ensures
        (seq![leader(tree_of(v))] + moved(moves_of(tree_of(v)))).to_multiset() == ids(
            v,
        ).to_multiset(),
{
    lemma_tree_leaves(v);
    lemma_moves_leaves(tree_of(v));
}

/// Whether the pane `id` is back before the move at `i`.
pub open spec fn back_before(n: NodeView, id: Seq<char>, i: int) -> bool {
    id == leader(n) || exists|j: int| 0 <= j < i && (#[trigger] moves_of(n)[j]).pane == id
}

/// Panes are moved beside panes that are already back.
pub proof fn law_targets_are_back(n: NodeView)
    ensures
        forall|i: int|
            0 <= i < moves_of(n).len() ==> back_before(n, (#[trigger] moves_of(n)[i]).target, i),
    decreases n,
{
    if let NodeView::Split { first, second, .. } = n {
        law_targets_are_back(*first);
        law_targets_are_back(*second);
        let all = moves_of(n);
        let a = moves_of(*first);
        let b = moves_of(*second);
        assert forall|i: int| 0 <= i < all.len() implies back_before(
            n,
            (#[trigger] all[i]).target,
            i,
        ) by {
            let id = all[i].target;
            if 0 < i <= a.len() {
                assert(all[i] == a[i - 1]);
                if id != leader(*first) {
                    let j = choose|j: int| 0 <= j < i - 1 && (#[trigger] a[j]).pane == id;
                    assert(all[j + 1] == a[j]);
                }
            } else if i > a.len() {
                let k = i - 1 - a.len();
                assert(all[i] == b[k]);
                if id == leader(*second) {
                    assert(all[0].pane == id);
                } else {
                    let j = choose|j: int| 0 <= j < k && (#[trigger] b[j]).pane == id;
                    assert(all[j + 1 + a.len()] == b[j]);
                }
            }
        }
    }
}

/// How parked panes come back: the first beside the viewer, or beside the sidebar
/// where there is none, and then the others.
pub struct Restore {
    pub first: String,
    pub anchor: String,
    pub moves: Vec<Move>,
}

fn counts(n: i128) -> (r: bool)
    ensures
        r == fits(n as int),
{
    -0x2000_0000_0000_0000 <= n && n <= 0x2000_0000_0000_0000
}

/// Whether panes can be put back: there are some, and their edges can be counted.
pub fn can_restore(panes: &Vec<ParkedPane>) -> (r: bool)
    ensures
        r == (panes@.len() > 0 && measurable(parked_view(panes@))),
{
    let ghost all = parked_view(panes@);
    if panes.len() == 0 {
        return false;
    }
    let mut i: usize = 0;
    while i < panes.len()
        invariant
            i <= panes@.len(),
            all == parked_view(panes@),
            forall|k: int|
                0 <= k < i ==> fits((#[trigger] all[k]).x + all[k].width) && fits(
                    all[k].y + all[k].height,
                ) && fits(all[k].x) && fits(all[k].y),
        decreases panes@.len() - i,
    {
        assert(all[i as int] == panes@[i as int]@);
        let p = &panes[i];
        let right = p.x as i128 + p.width as i128;
        let bottom = p.y as i128 + p.height as i128;
        if !(counts(right) && counts(bottom) && counts(p.x as i128) && counts(p.y as i128)) {
            return false;
        }
        i += 1;
    }
    true
}

/// How parked panes come back.
pub fn restore_parked(owner: &str, viewer: Option<&str>, panes: &Vec<ParkedPane>) -> (r: Restore)
    requires
        panes@.len() > 0,
        measurable(parked_view(panes@)),
    ensures
        ({
            let tree = tree_of(parked_view(panes@));
            &&& r.first@ == leader(tree)
            &&& r.anchor@ == (match viewer {
                Some(v) => v@,
                None => owner@,
            })
            &&& moves_view(r.moves@) == moves_of(tree)
        }),
{
    let tree = build_tree(panes);
    let anchor = match viewer {
        Some(v) => v.to_string(),
        None => owner.to_string(),
    };
    Restore { first: rep(&tree).to_string(), anchor, moves: replay(&tree) }
}

} // verus!

//! Positions for a node-and-edge diagram of one snapshot.
//!
//! The nodes reachable from the root through links to non-special addresses
//! form a tree, laid out depth first: each node is placed on its first visit,
//! one row below its parent, and each sibling starts to the right of the
//! space its elder siblings' subtrees took. Special nodes are never placed in
//! the tree; they stand in a column of their own to the left, one per row, in
//! snapshot order.
use vstd::prelude::*;

use crate::data::{Globals, Sexp, Sexprec, Update};

verus! {

/// Left edge of the root's box.
pub const BOX_INIT_X: i64 = 500;

/// Top edge of the root's box.
pub const BOX_INIT_Y: i64 = 50;

/// Width of every box.
pub const BOX_WIDTH: i64 = 950;

/// Height of every box.
pub const BOX_HEIGHT: i64 = 290;

/// Space kept free between boxes.
pub const BOX_GAP: i64 = 100;

/// Left edge of the side column of special nodes.
pub const SIDE_X: i64 = BOX_INIT_X - BOX_WIDTH - 2 * BOX_GAP;

/// Most nodes a snapshot may have for its coordinates to fit in `i64`.
pub const MAX_LAYOUT_NODES: usize = 1_000_000_000;

/// A point of the drawing plane.
#[derive(Debug, Clone, Copy, PartialEq, Eq, Structural)]
pub struct Position {
    pub x: i64,
    pub y: i64,
}

/// Which field of the source node a link leaves from.
#[derive(Debug, Clone, Copy, PartialEq, Eq, Structural)]
pub enum LinkType {
    Attrib,
    Payload(usize),
}

/// One outgoing link of a node.
#[derive(Debug, Clone, Copy, PartialEq, Eq, Structural)]
pub struct Link {
    pub link_type: LinkType,
    pub dest: Sexp,
    /// The destination is a special address; the link is not followed and
    /// need not be drawn.
    pub dest_global: bool,
}

/// One node of the diagram: where it is drawn, if anywhere, and its links.
#[derive(Debug, Clone)]
pub struct Node {
    pub pos: Option<Position>,
    pub links: Vec<Link>,
}

impl Node {
    /// A node without position or links.
    pub fn new() -> (r: Node)
        ensures
            r.pos is None,
            r.links@.len() == 0,
    {
        Node { pos: None, links: Vec::new() }
    }
}

/// A point as a pair of integers.
pub type Point = (int, int);

/// The integer pair of a position.
pub open spec fn point(p: Position) -> Point {
    (p.x as int, p.y as int)
}

/// The integer pairs of optional positions.
pub open spec fn points(s: Seq<Option<Position>>) -> Seq<Option<Point>> {
    Seq::new(
        s.len(),
        |i: int|
            match s[i] {
                Some(p) => Some(point(p)),
                None => None,
            },
    )
}

/// The larger of two integers.
pub open spec fn max(a: int, b: int) -> int {
    if a >= b {
        a
    } else {
        b
    }
}

/// The link of a given role to `dest`.
pub open spec fn link_to(g: Globals, link_type: LinkType, dest: Sexp) -> Link {
    Link { link_type, dest, dest_global: g.is_special(dest) }
}

/// The outgoing links of a node: its attributes, then each payload link.
pub open spec fn links_of(g: Globals, r: Sexprec) -> Seq<Link> {
    seq![link_to(g, LinkType::Attrib, r.attrib)] + Seq::new(
        r.payload.links().len(),
        |i: int| link_to(g, LinkType::Payload(i as usize), r.payload.links()[i]),
    )
}

/// `i` is the first index of a node with address `a`.
pub open spec fn is_first_index(recs: Seq<Sexprec>, a: Sexp, i: int) -> bool {
    &&& 0 <= i < recs.len()
    &&& recs[i].address == a
    &&& forall|j: int| 0 <= j < i ==> recs[j].address != a
}

/// The index of the first node with address `a`, if any.
pub open spec fn index_of(recs: Seq<Sexprec>, a: Sexp) -> Option<int> {
    if exists|i: int| is_first_index(recs, a, i) {
        Some(choose|i: int| is_first_index(recs, a, i))
    } else {
        None
    }
}

/// The margin of a walk that places nothing.
pub open spec fn no_margin() -> Point {
    (0, 0)
}

/// Depth-first placement from `cur` at `pos`, given the positions `st` placed
/// so far: the new positions and the bottom-right corner of the space the
/// subtree takes, gap included. A node already placed, a special node or an
/// address of no node places nothing. `fuel` bounds the depth; the layout
/// gives one more than the number of nodes, which is never exhausted.
pub open spec fn walk_node(
    recs: Seq<Sexprec>,
    g: Globals,
    fuel: nat,
    st: Seq<Option<Point>>,
    cur: Sexp,
    pos: Point,
) -> (Seq<Option<Point>>, Point)
    decreases fuel, 0nat, 0nat,
{
    if fuel == 0 {
        (st, no_margin())
    } else {
        match index_of(recs, cur) {
            None => (st, no_margin()),
            Some(i) => if st[i] is Some || g.is_special(cur) {
                (st, no_margin())
            } else {
                walk_links(
                    recs,
                    g,
                    (fuel - 1) as nat,
                    st.update(i, Some(pos)),
                    links_of(g, recs[i]),
                    0,
                    (pos.0, pos.1 + BOX_HEIGHT + BOX_GAP),
                    (pos.0 + BOX_WIDTH + BOX_GAP, pos.1 + BOX_HEIGHT + BOX_GAP),
                )
            },
        }
    }
}

/// Places the subtrees of `links[k..]` one after another, starting at
/// `child_pos`, and widens `margin` to cover them.
pub open spec fn walk_links(
    recs: Seq<Sexprec>,
    g: Globals,
    fuel: nat,
    st: Seq<Option<Point>>,
    links: Seq<Link>,
    k: nat,
    child_pos: Point,
    margin: Point,
) -> (Seq<Option<Point>>, Point)
    decreases fuel, 1nat, links.len() - k,
{
    if k >= links.len() {
        (st, margin)
    } else {
        let (st2, cm) = walk_node(recs, g, fuel, st, links[k as int].dest, child_pos);
        walk_links(
            recs,
            g,
            fuel,
            st2,
            links,
            k + 1,
            (max(child_pos.0, cm.0), child_pos.1),
            (max(margin.0, cm.0), max(margin.1, cm.1)),
        )
    }
}

/// The positions the depth-first pass gives, by node index.
pub open spec fn tree_points(g: Globals, recs: Seq<Sexprec>) -> Seq<Option<Point>> {
    let none = Seq::new(recs.len(), |i: int| None::<Point>);
    if recs.len() == 0 {
        none
    } else {
        walk_node(
            recs,
            g,
            recs.len() + 1,
            none,
            recs[0].address,
            (BOX_INIT_X as int, BOX_INIT_Y as int),
        ).0
    }
}

/// How many of the first `n` nodes are special.
pub open spec fn specials_before(g: Globals, recs: Seq<Sexprec>, n: int) -> nat
    decreases n,
{
    if n <= 0 {
        0
    } else {
        specials_before(g, recs, n - 1) + if g.is_special(recs[n - 1].address) {
            1nat
        } else {
            0nat
        }
    }
}

/// The position of the special node in row `row` of the side column.
pub open spec fn side_point(row: nat) -> Point {
    (SIDE_X as int, BOX_INIT_Y + (BOX_HEIGHT + BOX_GAP) * (row + 1))
}

/// The position of every node: special nodes in the side column, the others
/// where the depth-first pass put them, if it reached them.
pub open spec fn layout_points(g: Globals, recs: Seq<Sexprec>) -> Seq<Option<Point>> {
    Seq::new(
        recs.len(),
        |i: int|
            if g.is_special(recs[i].address) {
                Some(side_point(specials_before(g, recs, i)))
            } else {
                tree_points(g, recs)[i]
            },
    )
}

/// How many positions are set.
pub open spec fn placed(st: Seq<Option<Point>>) -> nat
    decreases st.len(),
{
    if st.len() == 0 {
        0
    } else {
        placed(st.drop_last()) + if st.last() is Some {
            1nat
        } else {
            0nat
        }
    }
}

proof fn lemma_placed_bound(st: Seq<Option<Point>>)
    ensures
        placed(st) <= st.len(),
    decreases st.len(),
{
    if st.len() > 0 {
        lemma_placed_bound(st.drop_last());
    }
}

proof fn lemma_placed_update(st: Seq<Option<Point>>, i: int, p: Point)
    requires
        0 <= i < st.len(),
        st[i] is None,
    ensures
        placed(st.update(i, Some(p))) == placed(st) + 1,
    decreases st.len(),
{
    let u = st.update(i, Some(p));
    if i == st.len() - 1 {
        assert(u.drop_last() =~= st.drop_last());
    } else {
        assert(u.drop_last() =~= st.drop_last().update(i, Some(p)));
        lemma_placed_update(st.drop_last(), i, p);
    }
}

proof fn lemma_none_placed(st: Seq<Option<Point>>)
    requires
        forall|i: int| 0 <= i < st.len() ==> st[i] is None,
    ensures
        placed(st) == 0,
    decreases st.len(),
{
    if st.len() > 0 {
        lemma_none_placed(st.drop_last());
    }
}

/// Finds the first node with address `a`.
fn find_index(recs: &Vec<Sexprec>, a: Sexp) -> (r: Option<usize>)
    ensures
        match r {
            Some(i) => index_of(recs@, a) == Some(i as int),
            None => index_of(recs@, a) is None,
        },
{
    let mut i: usize = 0;
    while i < recs.len()
        invariant
            i <= recs@.len(),
            forall|j: int| 0 <= j < i ==> recs@[j].address != a,
        decreases recs@.len() - i,
    {
        if recs[i].address == a {
            proof {
                assert(is_first_index(recs@, a, i as int));
                let c = choose|c: int| is_first_index(recs@, a, c);
                assert(c == i) by {
                    if c < i {
                        assert(recs@[c].address != a);
                    } else if c > i {
                        assert(recs@[i as int].address != a);
                    }
                }
            }
            return Some(i);
        }
        i = i + 1;
    }
    None
}

/// The outgoing links of one node.
fn node_links(g: &Globals, r: &Sexprec) -> (links: Vec<Link>)
    ensures
        links@ == links_of(*g, *r),
{
    let mut links: Vec<Link> = Vec::new();
    links.push(Link { link_type: LinkType::Attrib, dest: r.attrib, dest_global: g.is_global(r.attrib) });
    let ptrs = r.payload.pointers();
    let mut i: usize = 0;
    while i < ptrs.len()
        invariant
            i <= ptrs@.len(),
            ptrs@.len() == r.payload.links().len(),
            forall|j: int| 0 <= j < ptrs@.len() ==> ptrs@[j].1 == r.payload.links()[j],
            links@ == seq![link_to(*g, LinkType::Attrib, r.attrib)] + Seq::new(
                i as nat,
                |j: int| link_to(*g, LinkType::Payload(j as usize), r.payload.links()[j]),
            ),
        decreases ptrs@.len() - i,
    {
        let dest = ptrs[i].1;
        links.push(Link { link_type: LinkType::Payload(i), dest, dest_global: g.is_global(dest) });
        assert(links@ =~= seq![link_to(*g, LinkType::Attrib, r.attrib)] + Seq::new(
            (i + 1) as nat,
            |j: int| link_to(*g, LinkType::Payload(j as usize), r.payload.links()[j]),
        ));
        i = i + 1;
    }
    links
}

fn max_i64(a: i64, b: i64) -> (r: i64)
    ensures
        r == max(a as int, b as int),
{
    if a >= b {
        a
    } else {
        b
    }
}

/// Bound on horizontal coordinates reached once `n` nodes are placed.
pub open spec fn x_bound(n: nat) -> int {
    BOX_INIT_X + n * (BOX_WIDTH + BOX_GAP)
}

/// Bound on vertical coordinates reached once `n` nodes are placed.
pub open spec fn y_bound(n: nat) -> int {
    BOX_INIT_Y + n * (BOX_HEIGHT + BOX_GAP)
}

/// The depth-first pass from `cur` at `pos`.
fn walk(
    recs: &Vec<Sexprec>,
    g: &Globals,
    links: &Vec<Vec<Link>>,
    st: &mut Vec<Option<Position>>,
    cur: Sexp,
    pos: Position,
    Ghost(fuel): Ghost<nat>,
) -> (m: Position)
    requires
        recs@.len() <= MAX_LAYOUT_NODES,
        old(st)@.len() == recs@.len(),
        links@.len() == recs@.len(),
        forall|i: int| 0 <= i < recs@.len() ==> links@[i]@ == links_of(*g, recs@[i]),
        fuel > recs@.len() - placed(points(old(st)@)),
        0 <= pos.x <= x_bound(placed(points(old(st)@))),
        0 <= pos.y <= y_bound(placed(points(old(st)@))),
    ensures
        final(st)@.len() == old(st)@.len(),
        placed(points(old(st)@)) <= placed(points(final(st)@)),
        (points(final(st)@), point(m)) == walk_node(
            recs@,
            *g,
            fuel,
            points(old(st)@),
            cur,
            point(pos),
        ),
        0 <= m.x <= x_bound(placed(points(final(st)@))),
        0 <= m.y <= y_bound(placed(points(final(st)@))),
        g.is_special(cur) ==> m == (Position { x: 0, y: 0 }) && final(st)@ == old(st)@,
    decreases fuel,
{
    let zero = Position { x: 0, y: 0 };
    proof {
        lemma_placed_bound(points(st@));
    }
    let found = find_index(recs, cur);
    let i = match found {
        None => {
            return zero;
        },
        Some(i) => i,
    };
    if st[i].is_some() || g.is_global(cur) {
        proof {
            if st@[i as int] is Some {
                assert(points(st@)[i as int] is Some);
            }
        }
        return zero;
    }
    let ghost st0 = points(st@);
    st.set(i, Some(pos));
    proof {
        assert(points(st@) =~= st0.update(i as int, Some(point(pos))));
        lemma_placed_update(st0, i as int, point(pos));
    }
    let mut child_pos = Position { x: pos.x, y: pos.y + BOX_HEIGHT + BOX_GAP };
    let mut margin = Position { x: pos.x + BOX_WIDTH + BOX_GAP, y: pos.y + BOX_HEIGHT + BOX_GAP };
    let node_links = &links[i];
    let ghost start = (points(st@), child_pos, margin);
    let mut k: usize = 0;
    while k < node_links.len()
        invariant
            recs@.len() <= MAX_LAYOUT_NODES,
            st@.len() == recs@.len(),
            links@.len() == recs@.len(),
            forall|j: int| 0 <= j < recs@.len() ==> links@[j]@ == links_of(*g, recs@[j]),
            i < recs@.len(),
            node_links@ == links_of(*g, recs@[i as int]),
            k <= node_links@.len(),
            fuel >= 1,
            fuel - 1 > recs@.len() - placed(points(st@)),
            placed(st0) < placed(points(st@)),
            0 <= child_pos.x <= x_bound(placed(points(st@))),
            0 <= child_pos.y <= y_bound(placed(points(st@))),
            0 <= margin.x <= x_bound(placed(points(st@))),
            0 <= margin.y <= y_bound(placed(points(st@))),
            walk_links(
                recs@,
                *g,
                (fuel - 1) as nat,
                start.0,
                node_links@,
                0,
                point(start.1),
                point(start.2),
            ) == walk_links(
                recs@,
                *g,
                (fuel - 1) as nat,
                points(st@),
                node_links@,
                k as nat,
                point(child_pos),
                point(margin),
            ),
        decreases node_links@.len() - k,
    {
        let cm = walk(recs, g, links, st, node_links[k].dest, child_pos, Ghost((fuel - 1) as nat));
        child_pos = Position { x: max_i64(child_pos.x, cm.x), y: child_pos.y };
        margin = Position { x: max_i64(margin.x, cm.x), y: max_i64(margin.y, cm.y) };
        k = k + 1;
    }
    margin
}

/// The positions of a list of nodes, as integer pairs.
pub open spec fn node_points(nodes: Seq<Node>) -> Seq<Option<Point>> {
    points(Seq::new(nodes.len(), |i: int| nodes[i].pos))
}

/// Lays out a snapshot: one node per record, in the same order, with its
/// links and its position.
pub fn layout(update: &Update) -> (r: Vec<Node>)
    requires
        update.sexprecs@.len() <= MAX_LAYOUT_NODES,
    ensures
        r@.len() == update.sexprecs@.len(),
        forall|i: int|
            0 <= i < r@.len() ==> r@[i].links@ == links_of(update.globals, update.sexprecs@[i]),
        node_points(r@) == layout_points(update.globals, update.sexprecs@),
{
    let recs = &update.sexprecs;
    let g = &update.globals;
    let n = recs.len();
    let mut links: Vec<Vec<Link>> = Vec::new();
    let mut st: Vec<Option<Position>> = Vec::new();
    let mut i: usize = 0;
    while i < n
        invariant
            n == recs@.len(),
            i <= n,
            links@.len() == i,
            st@.len() == i,
            forall|j: int| 0 <= j < i ==> links@[j]@ == links_of(*g, recs@[j]),
            forall|j: int| 0 <= j < i ==> st@[j] is None,
        decreases n - i,
    {
        links.push(node_links(g, &recs[i]));
        st.push(None);
        i = i + 1;
    }
    let ghost none = Seq::new(recs@.len(), |j: int| None::<Point>);
    assert(points(st@) =~= none);
    if n > 0 {
        proof {
            lemma_none_placed(none);
        }
        walk(
            recs,
            g,
            &links,
            &mut st,
            recs[0].address,
            Position { x: BOX_INIT_X, y: BOX_INIT_Y },
            Ghost((n + 1) as nat),
        );
    }
    let ghost tree = points(st@);
    assert(tree == tree_points(*g, recs@));
    let mut side = Position { x: SIDE_X, y: BOX_INIT_Y + BOX_HEIGHT + BOX_GAP };
    let mut i: usize = 0;
    while i < n
        invariant
            n == recs@.len(),
            n <= MAX_LAYOUT_NODES,
            i <= n,
            st@.len() == n,
            tree == tree_points(*g, recs@),
            tree.len() == n,
            point(side) == side_point(specials_before(*g, recs@, i as int)),
            specials_before(*g, recs@, i as int) <= i,
            forall|j: int| 0 <= j < i ==> points(st@)[j] == layout_points(*g, recs@)[j],
            forall|j: int| i <= j < n ==> points(st@)[j] == tree[j],
        decreases n - i,
    {
        let ghost before = points(st@);
        if g.is_global(recs[i].address) {
            st.set(i, Some(side));
            side = Position { x: side.x, y: side.y + BOX_HEIGHT + BOX_GAP };
            assert(points(st@) =~= before.update(i as int, Some(side_point(specials_before(*g, recs@, i as int)))));
        } else {
            assert(points(st@) == before);
        }
        assert(points(st@)[i as int] == layout_points(*g, recs@)[i as int]);
        i = i + 1;
    }
    let mut nodes: Vec<Node> = Vec::new();
    let mut i: usize = 0;
    while i < n
        invariant
            n == recs@.len(),
            i <= n,
            st@.len() == n,
            nodes@.len() == i,
            forall|j: int| 0 <= j < i ==> nodes@[j].links@ == links_of(*g, recs@[j]),
            forall|j: int| 0 <= j < i ==> nodes@[j].pos == st@[j],
        decreases n - i,
    {
        nodes.push(Node { pos: st[i], links: node_links(g, &recs[i]) });
        i = i + 1;
    }
    assert(node_points(nodes@) =~= points(st@));
    assert(points(st@) =~= layout_points(*g, recs@));
    nodes
}

/// Height of the attribute link's anchor below the top of its box.
pub const ATTRIB_ANCHOR_Y: i64 = 200;

/// Distance of the first payload link's anchor from the left of its box.
pub const SLOT_ANCHOR_X: i64 = 10;

/// Distance between the anchors of successive payload links.
pub const SLOT_SPACING: i64 = 300;

/// Most links a payload has.
pub const MAX_PAYLOAD_LINKS: usize = 3;

/// A line to draw: from the anchor of a link on box `from` to the top-left
/// corner of box `to`, both given as node indices.
#[derive(Debug, Clone, Copy, PartialEq, Eq, Structural)]
pub struct Edge {
    pub from: usize,
    pub link_type: LinkType,
    pub to: usize,
}

/// Where a link leaves its box, relative to the box's top-left corner.
pub open spec fn anchor_of(t: LinkType) -> Point {
    match t {
        LinkType::Attrib => (0, ATTRIB_ANCHOR_Y as int),
        LinkType::Payload(i) => (SLOT_ANCHOR_X + SLOT_SPACING * i, BOX_HEIGHT as int),
    }
}

/// The offset from a box's top-left corner to the anchor of a link.
pub fn anchor_offset(t: LinkType) -> (r: Position)
    requires
        t matches LinkType::Payload(i) ==> i < MAX_PAYLOAD_LINKS,
    ensures
        point(r) == anchor_of(t),
{
    match t {
        LinkType::Attrib => Position { x: 0, y: ATTRIB_ANCHOR_Y },
        LinkType::Payload(i) => Position { x: SLOT_ANCHOR_X + SLOT_SPACING * (i as i64), y: BOX_HEIGHT },
    }
}

/// Payload links of a node are numbered below [`MAX_PAYLOAD_LINKS`].
pub proof fn lemma_payload_slots_bounded(g: Globals, r: Sexprec, k: int)
    requires
        0 <= k < links_of(g, r).len(),
    ensures
        links_of(g, r)[k].link_type matches LinkType::Payload(i) ==> i < MAX_PAYLOAD_LINKS,
{
}

/// The line for link `l` of node `i`, if it is drawn: the link must not lead
/// to a special address, and both ends must have a position.
pub open spec fn edge_of(recs: Seq<Sexprec>, pts: Seq<Option<Point>>, i: int, l: Link) -> Option<Edge> {
    if l.dest_global || pts[i] is None {
        None
    } else {
        match index_of(recs, l.dest) {
            Some(j) => if pts[j] is Some {
                Some(Edge { from: i as usize, link_type: l.link_type, to: j as usize })
            } else {
                None
            },
            None => None,
        }
    }
}

/// The edge, if any, as a sequence of zero or one edges.
pub open spec fn opt_seq(e: Option<Edge>) -> Seq<Edge> {
    match e {
        Some(e) => seq![e],
        None => Seq::empty(),
    }
}

/// The lines drawn for `links` of node `i`, in link order.
pub open spec fn node_edges(recs: Seq<Sexprec>, pts: Seq<Option<Point>>, i: int, links: Seq<Link>) -> Seq<
    Edge,
>
    decreases links.len(),
{
    if links.len() == 0 {
        Seq::empty()
    } else {
        node_edges(recs, pts, i, links.drop_last()) + opt_seq(edge_of(recs, pts, i, links.last()))
    }
}

/// The lines drawn for the first `n` nodes, node by node.
pub open spec fn edges_upto(recs: Seq<Sexprec>, nodes: Seq<Node>, n: int) -> Seq<Edge>
    decreases n,
{
    if n <= 0 {
        Seq::empty()
    } else {
        edges_upto(recs, nodes, n - 1) + node_edges(
            recs,
            node_points(nodes),
            n - 1,
            nodes[n - 1].links@,
        )
    }
}

/// The lines of a laid-out snapshot, node by node and link by link.
pub fn edges(update: &Update, nodes: &Vec<Node>) -> (r: Vec<Edge>)
    requires
        nodes@.len() == update.sexprecs@.len(),
    ensures
        r@ == edges_upto(update.sexprecs@, nodes@, nodes@.len() as int),
{
    let recs = &update.sexprecs;
    let ghost pts = node_points(nodes@);
    let mut out: Vec<Edge> = Vec::new();
    let mut i: usize = 0;
    while i < nodes.len()
        invariant
            nodes@.len() == recs@.len(),
            pts == node_points(nodes@),
            i <= nodes@.len(),
            out@ == edges_upto(recs@, nodes@, i as int),
        decreases nodes@.len() - i,
    {
        let links = &nodes[i].links;
        let ghost before = out@;
        let mut k: usize = 0;
        while k < links.len()
            invariant
                nodes@.len() == recs@.len(),
                pts == node_points(nodes@),
                i < nodes@.len(),
                links@ == nodes@[i as int].links@,
                k <= links@.len(),
                out@ == before + node_edges(recs@, pts, i as int, links@.subrange(0, k as int)),
            decreases links@.len() - k,
        {
            let l = links[k];
            let ghost prefix = links@.subrange(0, k + 1);
            assert(prefix.drop_last() =~= links@.subrange(0, k as int));
            if !l.dest_global && nodes[i].pos.is_some() {
                match find_index(recs, l.dest) {
                    Some(j) => {
                        if nodes[j].pos.is_some() {
                            out.push(Edge { from: i, link_type: l.link_type, to: j });
                        }
                    },
                    None => {},
                }
            }
            assert(out@ =~= before + node_edges(recs@, pts, i as int, prefix));
            k = k + 1;
        }
        assert(links@.subrange(0, links@.len() as int) =~= links@);
        i = i + 1;
    }
    out
}

/// No special node has a position in `st`.
pub open spec fn specials_unplaced(g: Globals, recs: Seq<Sexprec>, st: Seq<Option<Point>>) -> bool {
    forall|i: int| 0 <= i < st.len() && g.is_special(recs[i].address) ==> st[i] is None
}

proof fn lemma_index_of(recs: Seq<Sexprec>, a: Sexp)
    ensures
        index_of(recs, a) matches Some(i) ==> 0 <= i < recs.len() && recs[i].address == a,
{
    if exists|i: int| is_first_index(recs, a, i) {
        let i = choose|i: int| is_first_index(recs, a, i);
        assert(is_first_index(recs, a, i));
    }
}

proof fn lemma_walk_node_specials(
    recs: Seq<Sexprec>,
    g: Globals,
    fuel: nat,
    st: Seq<Option<Point>>,
    cur: Sexp,
    pos: Point,
)
    requires
        st.len() == recs.len(),
        specials_unplaced(g, recs, st),
    ensures
        walk_node(recs, g, fuel, st, cur, pos).0.len() == st.len(),
        specials_unplaced(g, recs, walk_node(recs, g, fuel, st, cur, pos).0),
    decreases fuel, 0nat, 0nat,
{
    lemma_index_of(recs, cur);
    if fuel > 0 {
        if let Some(i) = index_of(recs, cur) {
            if !(st[i] is Some || g.is_special(cur)) {
                let st1 = st.update(i, Some(pos));
                lemma_walk_links_specials(
                    recs,
                    g,
                    (fuel - 1) as nat,
                    st1,
                    links_of(g, recs[i]),
                    0,
                    (pos.0, pos.1 + BOX_HEIGHT + BOX_GAP),
                    (pos.0 + BOX_WIDTH + BOX_GAP, pos.1 + BOX_HEIGHT + BOX_GAP),
                );
            }
        }
    }
}

proof fn lemma_walk_links_specials(
    recs: Seq<Sexprec>,
    g: Globals,
    fuel: nat,
    st: Seq<Option<Point>>,
    links: Seq<Link>,
    k: nat,
    child_pos: Point,
    margin: Point,
)
    requires
        st.len() == recs.len(),
        specials_unplaced(g, recs, st),
    ensures
        walk_links(recs, g, fuel, st, links, k, child_pos, margin).0.len() == st.len(),
        specials_unplaced(g, recs, walk_links(recs, g, fuel, st, links, k, child_pos, margin).0),
    decreases fuel, 1nat, links.len() - k,
{
    if k < links.len() {
        let (st2, cm) = walk_node(recs, g, fuel, st, links[k as int].dest, child_pos);
        lemma_walk_node_specials(recs, g, fuel, st, links[k as int].dest, child_pos);
        lemma_walk_links_specials(
            recs,
            g,
            fuel,
            st2,
            links,
            k + 1,
            (max(child_pos.0, cm.0), child_pos.1),
            (max(margin.0, cm.0), max(margin.1, cm.1)),
        );
    }
}

/// A special node never gets a position from the depth-first pass; it stands
/// in the side column, in the row given by how many special nodes precede it.
pub proof fn lemma_special_in_side_column(g: Globals, recs: Seq<Sexprec>, i: int)
    requires
        0 <= i < recs.len(),
        g.is_special(recs[i].address),
    ensures
        tree_points(g, recs)[i] is None,
        layout_points(g, recs)[i] == Some(side_point(specials_before(g, recs, i))),
{
    let none = Seq::new(recs.len(), |j: int| None::<Point>);
    if recs.len() > 0 {
        lemma_walk_node_specials(
            recs,
            g,
            recs.len() + 1,
            none,
            recs[0].address,
            (BOX_INIT_X as int, BOX_INIT_Y as int),
        );
    }
}

/// Boxes at `p` and `q` share no point.
pub open spec fn boxes_apart(p: Point, q: Point) -> bool {
    ||| p.0 + BOX_WIDTH <= q.0
    ||| q.0 + BOX_WIDTH <= p.0
    ||| p.1 + BOX_HEIGHT <= q.1
    ||| q.1 + BOX_HEIGHT <= p.1
}

/// No two positioned boxes of `st` overlap.
pub open spec fn all_apart(st: Seq<Option<Point>>) -> bool {
    forall|i: int, j: int|
        0 <= i < st.len() && 0 <= j < st.len() && i != j && st[i] is Some && st[j] is Some
            ==> boxes_apart(st[i]->0, st[j]->0)
}

/// Every box of `st`, with its gap, lies left of `pos` or above it.
pub open spec fn clear_of(st: Seq<Option<Point>>, pos: Point) -> bool {
    forall|i: int|
        0 <= i < st.len() && st[i] is Some ==> st[i].unwrap().0 + BOX_WIDTH + BOX_GAP <= pos.0 || st[i].unwrap().1
            + BOX_HEIGHT + BOX_GAP <= pos.1
}

/// `st2` keeps every position of `st`, and each position it adds lies at or
/// beyond `lo` and, with its gap, within `margin`.
pub open spec fn grows_within(
    st: Seq<Option<Point>>,
    st2: Seq<Option<Point>>,
    lo: Point,
    margin: Point,
) -> bool {
    &&& st2.len() == st.len()
    &&& forall|i: int| 0 <= i < st.len() && st[i] is Some ==> st2[i] == st[i]
    &&& forall|i: int|
        0 <= i < st.len() && st[i] is None && st2[i] is Some ==> {
            let p = st2[i]->0;
            &&& lo.0 <= p.0
            &&& lo.1 <= p.1
            &&& p.0 + BOX_WIDTH + BOX_GAP <= margin.0
            &&& p.1 + BOX_HEIGHT + BOX_GAP <= margin.1
        }
}

proof fn lemma_walk_node_apart(
    recs: Seq<Sexprec>,
    g: Globals,
    fuel: nat,
    st: Seq<Option<Point>>,
    cur: Sexp,
    pos: Point,
)
    requires
        st.len() == recs.len(),
        all_apart(st),
        clear_of(st, pos),
    ensures
        ({
            let (st2, m) = walk_node(recs, g, fuel, st, cur, pos);
            all_apart(st2) && grows_within(st, st2, pos, m)
        }),
    decreases fuel, 0nat, 0nat,
{
    lemma_index_of(recs, cur);
    if fuel > 0 {
        if let Some(i) = index_of(recs, cur) {
            if !(st[i] is Some || g.is_special(cur)) {
                let st1 = st.update(i, Some(pos));
                let cp = (pos.0, pos.1 + BOX_HEIGHT + BOX_GAP);
                let m = (pos.0 + BOX_WIDTH + BOX_GAP, pos.1 + BOX_HEIGHT + BOX_GAP);
                assert(all_apart(st1));
                assert(clear_of(st1, cp));
                lemma_walk_links_apart(recs, g, (fuel - 1) as nat, st1, links_of(g, recs[i]), 0, cp, m);
            }
        }
    }
}

proof fn lemma_walk_links_apart(
    recs: Seq<Sexprec>,
    g: Globals,
    fuel: nat,
    st: Seq<Option<Point>>,
    links: Seq<Link>,
    k: nat,
    child_pos: Point,
    margin: Point,
)
    requires
        st.len() == recs.len(),
        all_apart(st),
        clear_of(st, child_pos),
    ensures
        ({
            let (st2, m) = walk_links(recs, g, fuel, st, links, k, child_pos, margin);
            &&& all_apart(st2)
            &&& grows_within(st, st2, child_pos, m)
            &&& margin.0 <= m.0
            &&& margin.1 <= m.1
        }),
    decreases fuel, 1nat, links.len() - k,
{
    if k < links.len() {
        let (st2, cm) = walk_node(recs, g, fuel, st, links[k as int].dest, child_pos);
        lemma_walk_node_apart(recs, g, fuel, st, links[k as int].dest, child_pos);
        let cp2 = (max(child_pos.0, cm.0), child_pos.1);
        let m2 = (max(margin.0, cm.0), max(margin.1, cm.1));
        assert(clear_of(st2, cp2));
        lemma_walk_links_apart(recs, g, fuel, st2, links, k + 1, cp2, m2);
    }
}

proof fn lemma_specials_before_grows(g: Globals, recs: Seq<Sexprec>, i: int, j: int)
    requires
        0 <= i < j,
        i < recs.len(),
        g.is_special(recs[i].address),
    ensures
        specials_before(g, recs, i) < specials_before(g, recs, j),
    decreases j,
{
    if j > i + 1 {
        lemma_specials_before_grows(g, recs, i, j - 1);
    }
}

/// The depth-first pass places boxes that pairwise do not overlap, each at or
/// right of and below the root's position.
pub proof fn lemma_tree_apart(g: Globals, recs: Seq<Sexprec>)
    ensures
        tree_points(g, recs).len() == recs.len(),
        all_apart(tree_points(g, recs)),
        forall|i: int|
            0 <= i < recs.len() && tree_points(g, recs)[i] is Some ==> BOX_INIT_X <= tree_points(
                g,
                recs,
            )[i].unwrap().0 && BOX_INIT_Y <= tree_points(g, recs)[i].unwrap().1,
{
    let none = Seq::new(recs.len(), |j: int| None::<Point>);
    if recs.len() > 0 {
        lemma_walk_node_apart(
            recs,
            g,
            recs.len() + 1,
            none,
            recs[0].address,
            (BOX_INIT_X as int, BOX_INIT_Y as int),
        );
    }
}

/// No two boxes of a layout overlap: not two in the tree, not one in the tree
/// and one in the side column, not two in the side column.
pub proof fn lemma_layout_apart(g: Globals, recs: Seq<Sexprec>)
    ensures
        all_apart(layout_points(g, recs)),
{
    let tree = tree_points(g, recs);
    let lp = layout_points(g, recs);
    lemma_tree_apart(g, recs);
    assert forall|i: int, j: int|
        0 <= i < lp.len() && 0 <= j < lp.len() && i != j && lp[i] is Some && lp[j] is Some implies boxes_apart(
        lp[i]->0,
        lp[j]->0,
    ) by {
        let si = g.is_special(recs[i].address);
        let sj = g.is_special(recs[j].address);
        if si && sj {
            if i < j {
                lemma_specials_before_grows(g, recs, i, j);
            } else {
                lemma_specials_before_grows(g, recs, j, i);
            }
        } else if si {
            assert(lp[j] == tree[j]);
            assert(BOX_INIT_X <= tree[j].unwrap().0);
        } else if sj {
            assert(lp[i] == tree[i]);
            assert(BOX_INIT_X <= tree[i].unwrap().0);
        } else {
            assert(lp[i] == tree[i]);
            assert(lp[j] == tree[j]);
        }
    }
}

/// The first node, unless special, is placed at the root's position.
pub proof fn lemma_root_placed_first(g: Globals, recs: Seq<Sexprec>)
    requires
        recs.len() > 0,
        !g.is_special(recs[0].address),
    ensures
        tree_points(g, recs)[0] == Some((BOX_INIT_X as int, BOX_INIT_Y as int)),
        layout_points(g, recs)[0] == Some((BOX_INIT_X as int, BOX_INIT_Y as int)),
{
    let a = recs[0].address;
    assert(is_first_index(recs, a, 0));
    let c = choose|c: int| is_first_index(recs, a, c);
    assert(c == 0) by {
        if c > 0 {
            assert(recs[0].address != a);
        }
    }
    assert(index_of(recs, a) == Some(0int));
    let none = Seq::new(recs.len(), |j: int| None::<Point>);
    let pos = (BOX_INIT_X as int, BOX_INIT_Y as int);
    let st1 = none.update(0, Some(pos));
    let cp = (pos.0, pos.1 + BOX_HEIGHT + BOX_GAP);
    let m = (pos.0 + BOX_WIDTH + BOX_GAP, pos.1 + BOX_HEIGHT + BOX_GAP);
    assert(all_apart(st1));
    assert(clear_of(st1, cp));
    lemma_walk_links_apart(recs, g, recs.len(), st1, links_of(g, recs[0]), 0, cp, m);
}

/// Laying out the same snapshot twice gives the same positions.
pub proof fn lemma_layout_deterministic(g: Globals, a: Seq<Sexprec>, b: Seq<Sexprec>)
    requires
        a == b,
    ensures
        layout_points(g, a) == layout_points(g, b),
{
}

} // verus!

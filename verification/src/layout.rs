//! Box layout of a widget tree: which rectangle of the window falls to each
//! widget, and which widget a point hits.

use crate::entity::Entity;
use vstd::prelude::*;

verus! {

/// A direction in which a box lays out its children.
#[derive(Clone, Copy, Debug, PartialEq, Eq, Structural)]
pub enum Direction {
    Up,
    Down,
    Left,
    Right,
    Start,
    End,
}

/// The widths of the margin around the children of a widget, in pixels.
#[derive(Clone, Copy, Debug, PartialEq, Eq, Structural)]
pub struct MarginComponent {
    pub left: u32,
    pub right: u32,
    pub top: u32,
    pub bottom: u32,
}

impl MarginComponent {
    /// The same margin on every side.
    pub fn all(size: u32) -> (m: Self)
        ensures
            m == (MarginComponent { left: size, right: size, top: size, bottom: size }),
    {
        MarginComponent { left: size, right: size, top: size, bottom: size }
    }

    /// A margin above and below only.
    pub fn vertical(size: u32) -> (m: Self)
        ensures
            m == (MarginComponent { left: 0, right: 0, top: size, bottom: size }),
    {
        MarginComponent { left: 0, right: 0, top: size, bottom: size }
    }

    /// A margin left and right only.
    pub fn horizontal(size: u32) -> (m: Self)
        ensures
            m == (MarginComponent { left: size, right: size, top: 0, bottom: 0 }),
    {
        MarginComponent { left: size, right: size, top: 0, bottom: 0 }
    }
}

/// A rectangle: the corner `(x, y)`, the width and the height.
pub type Area = (u32, u32, u32, u32);

/// One widget of the tree with what the layout reads of it: whether it is a
/// placeholder that is drawn and can be hit, its margin, the direction in
/// which it lays out its children if it is a box, and its children.
pub struct Node {
    pub entity: Entity,
    pub placeholder: bool,
    pub margin: Option<MarginComponent>,
    pub split: Option<Direction>,
    pub children: Vec<Node>,
}

/// `a + b`, but at most the largest number.
pub open spec fn capped_sum(a: u32, b: u32) -> u32 {
    if a + b > u32::MAX {
        u32::MAX
    } else {
        (a + b) as u32
    }
}

/// `a - b`, but at least zero.
pub open spec fn floored_difference(a: u32, b: u32) -> u32 {
    if a < b {
        0
    } else {
        (a - b) as u32
    }
}

/// The area that is left for the children of a widget with the area `area`
/// and the margin `margin`.
pub open spec fn inner(area: Area, margin: Option<MarginComponent>) -> Area {
    match margin {
        Some(m) => (
            capped_sum(area.0, m.left),
            capped_sum(area.1, m.top),
            floored_difference(area.2, capped_sum(m.left, m.right)),
            floored_difference(area.3, capped_sum(m.top, m.bottom)),
        ),
        None => area,
    }
}

/// Whether a box with this direction visits its children last to first.
pub open spec fn reversed(split: Option<Direction>) -> bool {
    split == Some(Direction::Left) || split == Some(Direction::End) || split == Some(Direction::Up)
}

/// Whether a box with this direction puts its children side by side, rather
/// than one above the other.
pub open spec fn sideways(split: Direction) -> bool {
    split == Direction::Left || split == Direction::End || split == Direction::Right || split
        == Direction::Start
}

/// The area of the child that is visited at position `k` among `n`: without
/// a box the whole area; in a box an equal share, the shares side by side or
/// one above the other, in the order of the visit.
pub open spec fn share(area: Area, split: Option<Direction>, n: int, k: int) -> Area {
    match split {
        None => area,
        Some(d) => if sideways(d) {
            let cw = area.2 as int / n;
            ((area.0 + k * cw) as u32, area.1, cw as u32, area.3)
        } else {
            let ch = area.3 as int / n;
            (area.0, (area.1 + k * ch) as u32, area.2, ch as u32)
        },
    }
}

/// The child that is visited at position `k` among `n`.
pub open spec fn visited(split: Option<Direction>, n: int, k: int) -> int {
    if reversed(split) {
        n - 1 - k
    } else {
        k
    }
}

/// The placeholders of the tree below `node`, each with its area, in the
/// order of the walk: the node itself first if it is a placeholder, then its
/// children in the order of the visit, each with everything below it.
pub open spec fn hits(node: Node, area: Area) -> Seq<(Entity, Area)>
    decreases node, 1nat, 0nat,
{
    let own = if node.placeholder {
        seq![(node.entity, area)]
    } else {
        Seq::empty()
    };
    own + hits_from(node, inner(area, node.margin), 0)
}

/// The placeholders below the children of `node` from position `k` of the
/// visit on, where `area` is the area left for the children.
pub open spec fn hits_from(node: Node, area: Area, k: nat) -> Seq<(Entity, Area)>
    decreases node, 0nat, node.children@.len() - k,
{
    let n = node.children@.len();
    if k >= n {
        Seq::empty()
    } else {
        let child = node.children@[visited(node.split, n as int, k as int)];
        hits(child, share(area, node.split, n as int, k as int)) + hits_from(node, area, k + 1)
    }
}

/// Whether no widget of the tree has more children than a 32-bit number can
/// count.
pub open spec fn countable(node: Node) -> bool
    decreases node,
{
    &&& node.children@.len() <= u32::MAX
    &&& forall|i: int| 0 <= i < node.children@.len() ==> countable(#[trigger] node.children@[i])
}

/// Whether no widget of the tree below `node` has more children than a
/// 32-bit number can count.
pub fn is_countable(node: &Node) -> (r: bool)
    ensures
        r == countable(*node),
    decreases node,
{
    if node.children.len() > 0xffff_ffff {
        return false;
    }
    let mut i: usize = 0;
    while i < node.children.len()
        invariant
            i <= node.children@.len(),
            node.children@.len() <= u32::MAX,
            forall|k: int| 0 <= k < i ==> countable(#[trigger] node.children@[k]),
        decreases node.children@.len() - i,
    {
        if !is_countable(&node.children[i]) {
            return false;
        }
        i += 1;
    }
    true
}

/// The area that is left for the children of a widget with the area
/// `(x, y, w, h)` and the margin `margin`.
pub fn inner_area(x: u32, y: u32, w: u32, h: u32, margin: &Option<MarginComponent>) -> (r: Area)
    requires
        x + w <= u32::MAX,
        y + h <= u32::MAX,
    ensures
        r == inner((x, y, w, h), *margin),
        r.0 + r.2 <= u32::MAX,
        r.1 + r.3 <= u32::MAX,
{
    match margin {
        Some(m) => {
            let nx = x.saturating_add(m.left);
            let ny = y.saturating_add(m.top);
            let nw = w.saturating_sub(m.left.saturating_add(m.right));
            let nh = h.saturating_sub(m.top.saturating_add(m.bottom));
            (nx, ny, nw, nh)
        },
        None => (x, y, w, h),
    }
}

/// Appends to `out` the placeholders of the tree below `node`, each with its
/// area, where `(x, y, w, h)` is the area of `node`.
pub fn walk(node: &Node, x: u32, y: u32, w: u32, h: u32, out: &mut Vec<(Entity, Area)>)
    requires
        countable(*node),
        x + w <= u32::MAX,
        y + h <= u32::MAX,
    ensures
        final(out)@ == old(out)@ + hits(*node, (x, y, w, h)),
    decreases node,
{
    if node.placeholder {
        out.push((node.entity, (x, y, w, h)));
    }
    let count = node.children.len();
    let area = inner_area(x, y, w, h, &node.margin);
    if count == 0 {
        return ;
    }
    let n = count as u32;
    let turned = match node.split {
        Some(Direction::Left) | Some(Direction::End) | Some(Direction::Up) => true,
        _ => false,
    };
    let (step_x, step_y, cw, ch) = match node.split {
        Some(Direction::Left) | Some(Direction::End) | Some(Direction::Right) | Some(
            Direction::Start,
        ) => (area.2 / n, 0, area.2 / n, area.3),
        Some(Direction::Up) | Some(Direction::Down) => (0, area.3 / n, area.2, area.3 / n),
        None => (0, 0, area.2, area.3),
    };
    let mut cx = area.0;
    let mut cy = area.1;
    let mut k: usize = 0;
    proof {
        assert(step_x * n <= area.2) by (nonlinear_arith)
            requires
                n > 0,
                step_x == 0 || step_x == area.2 / n,
        ;
        assert(step_y * n <= area.3) by (nonlinear_arith)
            requires
                n > 0,
                step_y == 0 || step_y == area.3 / n,
        ;
    }
    while k < count
        invariant
            k <= count,
            count == node.children@.len(),
            count == n,
            n > 0,
            countable(*node),
            turned == reversed(node.split),
            step_x * n <= area.2,
            step_y * n <= area.3,
            area.0 + area.2 <= u32::MAX,
            area.1 + area.3 <= u32::MAX,
            cx == area.0 + k * step_x,
            cy == area.1 + k * step_y,
            cw <= area.2,
            ch <= area.3,
            step_x > 0 ==> cw == step_x,
            step_y > 0 ==> ch == step_y,
            forall|j: int|
                0 <= j < n ==> share(area, node.split, n as int, j) == ((area.0 + j * step_x) as u32, (
                    area.1 + j * step_y) as u32, cw, ch),
            out@ + hits_from(*node, area, k as nat) == old(out)@ + hits(*node, (x, y, w, h)),
        decreases count - k,
    {
        let index = if turned {
            count - 1 - k
        } else {
            k
        };
        proof {
            assert((k + 1) * step_x == k * step_x + step_x) by (nonlinear_arith);
            assert((k + 1) * step_y == k * step_y + step_y) by (nonlinear_arith);
            assert((k + 1) * step_x <= area.2) by (nonlinear_arith)
                requires
                    k < n,
                    step_x * n <= area.2,
                    0 <= step_x,
            ;
            assert((k + 1) * step_y <= area.3) by (nonlinear_arith)
                requires
                    k < n,
                    step_y * n <= area.3,
                    0 <= step_y,
            ;
        }
        walk(&node.children[index], cx, cy, cw, ch, out);
        cx = cx + step_x;
        cy = cy + step_y;
        k += 1;
    }
}

/// The placeholders of the tree below `root`, each with its area in a window
/// of `ww` by `wh` pixels, in the order of the walk. A widget that stands
/// later in the list lies deeper in the tree or further along it.
pub fn collect_hits_app(root: &Node, ww: u32, wh: u32) -> (found: Vec<(Entity, Area)>)
    requires
        countable(*root),
    ensures
        found@ == hits(*root, (0, 0, ww, wh)),
{
    let mut found: Vec<(Entity, Area)> = Vec::new();
    walk(root, 0, 0, ww, wh, &mut found);
    assert(Seq::<(Entity, Area)>::empty() + hits(*root, (0, 0, ww, wh)) =~= hits(
        *root,
        (0, 0, ww, wh),
    ));
    found
}

/// Whether the point `(x, y)` lies in `area`.
pub open spec fn contains_point(area: Area, x: u32, y: u32) -> bool {
    x >= area.0 && y >= area.1 && x < capped_sum(area.0, area.2) && y < capped_sum(area.1, area.3)
}

/// The widget that a click at `(x, y)` goes to: the last one in `found`
/// whose area contains the point.
pub fn pick_hit(found: &Vec<(Entity, Area)>, x: u32, y: u32) -> (target: Option<Entity>)
    ensures
        match target {
            Some(e) => exists|i: int|
                0 <= i < found@.len() && (#[trigger] found@[i]).0 == e && contains_point(
                    found@[i].1,
                    x,
                    y,
                ) && forall|j: int|
                    i < j < found@.len() ==> !contains_point((#[trigger] found@[j]).1, x, y),
            None => forall|j: int|
                0 <= j < found@.len() ==> !contains_point((#[trigger] found@[j]).1, x, y),
        },
{
    let mut target: Option<Entity> = None;
    let ghost mut at: int = -1;
    let mut i: usize = 0;
    while i < found.len()
        invariant
            i <= found@.len(),
            -1 <= at < i,
            at == -1 <==> target is None,
            at >= 0 ==> target == Some(found@[at].0) && contains_point(found@[at].1, x, y),
            forall|j: int| at < j < i ==> !contains_point((#[trigger] found@[j]).1, x, y),
        decreases found@.len() - i,
    {
        let (e, (rx, ry, rw, rh)) = found[i];
        if x >= rx && y >= ry && x < rx.saturating_add(rw) && y < ry.saturating_add(rh) {
            target = Some(e);
            proof {
                at = i as int;
            }
        }
        i += 1;
    }
    target
}

} // verus!

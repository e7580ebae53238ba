//! The vault maze: a 4 by 4 grid of numbers and operators that an orb is
//! carried across, from the pedestal in one corner to the vault door in the
//! opposite one. Each number stepped on changes the weight of the orb by the
//! operator stepped on before it, and the door opens for a weight of 30. The
//! way is found by a breadth-first search.

use vstd::prelude::*;
use std::collections::VecDeque;

verus! {

/// A step on the grid.
#[derive(Clone, Copy, Debug, PartialEq, Eq, Structural)]
pub enum Direction {
    East,
    West,
    North,
    South,
}

/// An operator tile.
#[derive(Clone, Copy, Debug, PartialEq, Eq, Structural)]
pub enum Operator {
    Plus,
    Minus,
    Times,
}

/// What a room of the grid holds.
#[derive(Clone, Copy, Debug, PartialEq, Eq, Structural)]
pub enum Tile {
    /// The pedestal from which the orb is taken.
    Pedestal,
    /// An operator, applied at the next number.
    Sign(Operator),
    /// A number.
    Weight(i64),
}

/// The weight of the orb on its pedestal.
pub const INITIAL: i64 = 22;

/// The weight for which the vault door opens.
pub const TARGET: i64 = 30;

/// The grid, by column `x` from the west and row `y` from the north.
pub open spec fn tile(x: int, y: int) -> Tile {
    if y == 0 {
        if x == 0 {
            Tile::Sign(Operator::Times)
        } else if x == 1 {
            Tile::Weight(8)
        } else if x == 2 {
            Tile::Sign(Operator::Minus)
        } else {
            Tile::Weight(1)
        }
    } else if y == 1 {
        if x == 0 {
            Tile::Weight(4)
        } else if x == 1 {
            Tile::Sign(Operator::Times)
        } else if x == 2 {
            Tile::Weight(11)
        } else {
            Tile::Sign(Operator::Times)
        }
    } else if y == 2 {
        if x == 0 {
            Tile::Sign(Operator::Plus)
        } else if x == 1 {
            Tile::Weight(4)
        } else if x == 2 {
            Tile::Sign(Operator::Minus)
        } else {
            Tile::Weight(18)
        }
    } else {
        if x == 0 {
            Tile::Pedestal
        } else if x == 1 {
            Tile::Sign(Operator::Minus)
        } else if x == 2 {
            Tile::Weight(9)
        } else {
            Tile::Sign(Operator::Times)
        }
    }
}

/// The room of the pedestal, where every walk starts.
pub open spec fn start() -> (int, int) {
    (0, 3)
}

/// The room of the vault door, where every walk ends.
pub open spec fn door() -> (int, int) {
    (3, 0)
}

/// Whether a position lies on the grid.
pub open spec fn inside(at: (int, int)) -> bool {
    0 <= at.0 < 4 && 0 <= at.1 < 4
}

/// The position one step from `at`.
pub open spec fn moved(at: (int, int), step: Direction) -> (int, int) {
    match step {
        Direction::East => (at.0 + 1, at.1),
        Direction::West => (at.0 - 1, at.1),
        Direction::North => (at.0, at.1 - 1),
        Direction::South => (at.0, at.1 + 1),
    }
}

/// Where a walk from the pedestal ends.
pub open spec fn position(path: Seq<Direction>) -> (int, int)
    decreases path.len(),
{
    if path.len() == 0 {
        start()
    } else {
        moved(position(path.drop_last()), path.last())
    }
}

/// Whether a walk can be taken: it stays on the grid, never comes back to
/// the pedestal, and goes no further once it has reached the door.
pub open spec fn walkable(path: Seq<Direction>) -> bool
    decreases path.len(),
{
    if path.len() == 0 {
        true
    } else {
        &&& walkable(path.drop_last())
        &&& position(path.drop_last()) != door()
        &&& inside(position(path))
        &&& position(path) != start()
    }
}

/// The orb as it is carried: its weight and the operator stepped on last,
/// if no number has followed it yet.
pub struct Orb {
    pub weight: int,
    pub pending: Option<Operator>,
}

/// The result of an operator on a weight and a number.
pub open spec fn combined(op: Operator, weight: int, n: int) -> int {
    match op {
        Operator::Plus => weight + n,
        Operator::Minus => weight - n,
        Operator::Times => weight * n,
    }
}

/// The orb after it has entered a room.
pub open spec fn entered(orb: Orb, room: Tile) -> Orb {
    match room {
        Tile::Pedestal => orb,
        Tile::Sign(op) => Orb { weight: orb.weight, pending: Some(op) },
        Tile::Weight(n) => match orb.pending {
            Some(op) => Orb { weight: combined(op, orb.weight, n as int), pending: None },
            None => orb,
        },
    }
}

/// The orb at the end of a walk.
pub open spec fn carried(path: Seq<Direction>) -> Orb
    decreases path.len(),
{
    if path.len() == 0 {
        Orb { weight: 22, pending: None }
    } else {
        entered(carried(path.drop_last()), tile(position(path).0, position(path).1))
    }
}

/// Whether a walk opens the vault: it ends at the door with an orb of the
/// right weight.
pub open spec fn wins(path: Seq<Direction>) -> bool {
    position(path) == door() && carried(path).weight == 30
}

/// The walk `path` followed by `step`, if that step can be taken.
pub open spec fn child(path: Seq<Direction>, step: Direction) -> Seq<Seq<Direction>> {
    if inside(moved(position(path), step)) && moved(position(path), step) != start() {
        seq![path.push(step)]
    } else {
        Seq::empty()
    }
}

/// The walks that are one step longer than `path`: none from the door,
/// else one for each step that can be taken, east before west before north
/// before south.
pub open spec fn children(path: Seq<Direction>) -> Seq<Seq<Direction>> {
    if position(path) == door() {
        Seq::empty()
    } else {
        child(path, Direction::East) + child(path, Direction::West) + child(
            path,
            Direction::North,
        ) + child(path, Direction::South)
    }
}

/// The children of the first `k` walks of `level`, in order.
pub open spec fn expanded(level: Seq<Seq<Direction>>, k: int) -> Seq<Seq<Direction>>
    decreases k,
{
    if k <= 0 {
        Seq::empty()
    } else {
        expanded(level, k - 1) + children(level[k - 1])
    }
}

/// The walks of `d` steps in the order in which a breadth-first search
/// comes to them.
pub open spec fn frontier(d: nat) -> Seq<Seq<Direction>>
    decreases d,
{
    if d == 0 {
        seq![Seq::empty()]
    } else {
        expanded(frontier((d - 1) as nat), frontier((d - 1) as nat).len() as int)
    }
}

/// Whether `path` is the walk that a breadth-first search finds: the first
/// winning walk of its length, with no winning walk that is shorter.
pub open spec fn found_first(path: Seq<Direction>) -> bool {
    exists|i: int|
        {
            &&& 0 <= i < frontier(path.len()).len()
            &&& #[trigger] frontier(path.len())[i] == path
            &&& wins(path)
            &&& forall|j: int| 0 <= j < i ==> !wins(#[trigger] frontier(path.len())[j])
            &&& forall|e: nat, j: int|
                e < path.len() && 0 <= j < frontier(e).len() ==> !wins(#[trigger] frontier(e)[j])
        }
}

/// The largest weight, in absolute value, that an orb can have after a walk
/// of `n` steps.
pub open spec fn bound(n: nat) -> int
    decreases n,
{
    if n == 0 {
        22
    } else {
        18 * bound((n - 1) as nat)
    }
}

/// Every child of a walk that can be taken is that walk and one step more,
/// and can be taken.
pub proof fn lemma_children_sound(path: Seq<Direction>)
    requires
        walkable(path),
    ensures
        forall|k: int|
            0 <= k < children(path).len() ==> {
                &&& (#[trigger] children(path)[k]).len() == path.len() + 1
                &&& children(path)[k].drop_last() == path
                &&& walkable(children(path)[k])
            },
{
    if position(path) != door() {
        assert forall|step: Direction, k: int| 0 <= k < child(path, step).len() implies {
            &&& (#[trigger] child(path, step)[k]).len() == path.len() + 1
            &&& child(path, step)[k].drop_last() == path
            &&& walkable(child(path, step)[k])
        } by {
            let c = path.push(step);
            assert(child(path, step)[k] == c);
            assert(c.drop_last() =~= path);
            assert(c.last() == step);
        }
    }
    if position(path) != door() {
        let e = child(path, Direction::East);
        let w = child(path, Direction::West);
        let n = child(path, Direction::North);
        let so = child(path, Direction::South);
        assert forall|k: int| 0 <= k < children(path).len() implies {
            &&& (#[trigger] children(path)[k]).len() == path.len() + 1
            &&& children(path)[k].drop_last() == path
            &&& walkable(children(path)[k])
        } by {
            let c = children(path)[k];
            if k < e.len() {
                assert(c == e[k]);
            } else if k < e.len() + w.len() {
                assert(c == w[k - e.len()]);
            } else if k < e.len() + w.len() + n.len() {
                assert(c == n[k - e.len() - w.len()]);
            } else {
                assert(c == so[k - e.len() - w.len() - n.len()]);
            }
        }
    }
}

/// The children of walks of `d` steps that can be taken are walks of
/// `d + 1` steps that can be taken.
pub proof fn lemma_expanded_sound(level: Seq<Seq<Direction>>, k: int, d: nat)
    requires
        0 <= k <= level.len(),
        forall|i: int| 0 <= i < level.len() ==> (#[trigger] level[i]).len() == d && walkable(level[i]),
    ensures
        forall|i: int|
            0 <= i < expanded(level, k).len() ==> (#[trigger] expanded(level, k)[i]).len() == d + 1
                && walkable(expanded(level, k)[i]),
    decreases k,
{
    if k > 0 {
        lemma_expanded_sound(level, k - 1, d);
        lemma_children_sound(level[k - 1]);
        let before = expanded(level, k - 1);
        assert forall|i: int| 0 <= i < expanded(level, k).len() implies (#[trigger] expanded(
            level,
            k,
        )[i]).len() == d + 1 && walkable(expanded(level, k)[i]) by {
            if i < before.len() {
                assert(expanded(level, k)[i] == before[i]);
            } else {
                assert(expanded(level, k)[i] == children(level[k - 1])[i - before.len()]);
            }
        }
    }
}

/// The walks that the search comes to at depth `d` have `d` steps and can
/// be taken.
pub proof fn lemma_frontier_sound(d: nat)
    ensures
        forall|i: int|
            0 <= i < frontier(d).len() ==> (#[trigger] frontier(d)[i]).len() == d && walkable(
                frontier(d)[i],
            ),
    decreases d,
{
    if d > 0 {
        let level = frontier((d - 1) as nat);
        lemma_frontier_sound((d - 1) as nat);
        lemma_expanded_sound(level, level.len() as int, (d - 1) as nat);
    }
}

/// The children of each of the first `k` walks of a level are among the
/// children of the first `k` walks.
pub proof fn lemma_expanded_holds_children(level: Seq<Seq<Direction>>, k: int, j: int, c: int)
    requires
        0 <= j < k <= level.len(),
        0 <= c < children(level[j]).len(),
    ensures
        expanded(level, k).contains(children(level[j])[c]),
    decreases k,
{
    let before = expanded(level, k - 1);
    if j == k - 1 {
        assert(expanded(level, k)[before.len() + c] == children(level[j])[c]);
    } else {
        lemma_expanded_holds_children(level, k - 1, j, c);
        let at = choose|at: int| 0 <= at < before.len() && before[at] == children(level[j])[c];
        assert(expanded(level, k)[at] == before[at]);
    }
}

/// A walk that can be taken is a child of the walk without its last step.
pub proof fn lemma_child_of_parent(path: Seq<Direction>)
    requires
        walkable(path),
        path.len() > 0,
    ensures
        children(path.drop_last()).contains(path),
{
    let parent = path.drop_last();
    assert(parent.push(path.last()) =~= path);
    let e = child(parent, Direction::East);
    let w = child(parent, Direction::West);
    let n = child(parent, Direction::North);
    let so = child(parent, Direction::South);
    match path.last() {
        Direction::East => {
            assert(e[0] == path);
            assert(children(parent)[0] == path);
        },
        Direction::West => {
            assert(w[0] == path);
            assert(children(parent)[e.len() as int] == path);
        },
        Direction::North => {
            assert(n[0] == path);
            assert(children(parent)[(e.len() + w.len()) as int] == path);
        },
        Direction::South => {
            assert(so[0] == path);
            assert(children(parent)[(e.len() + w.len() + n.len()) as int] == path);
        },
    }
}

/// The search comes to every walk that can be taken, at the depth that is
/// the number of its steps.
pub proof fn lemma_frontier_complete(path: Seq<Direction>)
    requires
        walkable(path),
    ensures
        frontier(path.len()).contains(path),
    decreases path.len(),
{
    if path.len() == 0 {
        assert(path =~= Seq::<Direction>::empty());
        assert(frontier(0)[0] == path);
    } else {
        let parent = path.drop_last();
        lemma_frontier_complete(parent);
        let level = frontier(parent.len());
        let j = choose|j: int| 0 <= j < level.len() && level[j] == parent;
        lemma_child_of_parent(path);
        let c = choose|c: int| 0 <= c < children(parent).len() && children(parent)[c] == path;
        lemma_expanded_holds_children(level, level.len() as int, j, c);
    }
}

/// Rooms alternate between numbers and operators, so an operator is
/// pending exactly in the rooms that hold one; and a walk of `n` steps
/// leaves the orb with a weight of at most `bound(n)` either way.
pub proof fn lemma_carried(path: Seq<Direction>)
    requires
        walkable(path),
    ensures
        inside(position(path)),
        (position(path).0 + position(path).1 + path.len()) % 2 == 1,
        carried(path).pending.is_some() <==> (position(path).0 + position(path).1) % 2 == 0,
        -bound(path.len()) <= carried(path).weight <= bound(path.len()),
        bound(path.len()) >= 22,
    decreases path.len(),
{
    if path.len() > 0 {
        let parent = path.drop_last();
        lemma_carried(parent);
        let before = carried(parent);
        let b = bound(parent.len());
        match tile(position(path).0, position(path).1) {
            Tile::Weight(n) => {
                assert(1 <= n <= 18);
                let op = before.pending->Some_0;
                let w = before.weight;
                assert(-18 * b <= w * n <= 18 * b) by (nonlinear_arith)
                    requires
                        -b <= w <= b,
                        1 <= n <= 18,
                ;
            },
            _ => {},
        }
    }
}

/// A walk of twelve steps that opens the vault.
pub open spec fn known_way() -> Seq<Direction> {
    seq![
        Direction::North,
        Direction::East,
        Direction::East,
        Direction::North,
        Direction::West,
        Direction::South,
        Direction::East,
        Direction::East,
        Direction::West,
        Direction::North,
        Direction::North,
        Direction::East,
    ]
}

/// One more step on a walk: where it leads and what it does to the orb.
proof fn lemma_step(path: Seq<Direction>, step: Direction)
    requires
        walkable(path),
        position(path) != door(),
        inside(moved(position(path), step)),
        moved(position(path), step) != start(),
    ensures
        walkable(path.push(step)),
        path.push(step).len() == path.len() + 1,
        position(path.push(step)) == moved(position(path), step),
        carried(path.push(step)) == entered(
            carried(path),
            tile(moved(position(path), step).0, moved(position(path), step).1),
        ),
{
    assert(path.push(step).drop_last() =~= path);
}

/// The known way can be taken and opens the vault.
pub proof fn lemma_known_way()
    ensures
        known_way().len() == 12,
        walkable(known_way()),
        wins(known_way()),
{
    let p0 = Seq::<Direction>::empty();
    let p1 = p0.push(Direction::North);
    let p2 = p1.push(Direction::East);
    let p3 = p2.push(Direction::East);
    let p4 = p3.push(Direction::North);
    let p5 = p4.push(Direction::West);
    let p6 = p5.push(Direction::South);
    let p7 = p6.push(Direction::East);
    let p8 = p7.push(Direction::East);
    let p9 = p8.push(Direction::West);
    let p10 = p9.push(Direction::North);
    let p11 = p10.push(Direction::North);
    let p12 = p11.push(Direction::East);
    lemma_step(p0, Direction::North);
    assert(position(p1) == (0int, 2int) && carried(p1).weight == 22);
    lemma_step(p1, Direction::East);
    assert(position(p2) == (1int, 2int) && carried(p2).weight == 26);
    lemma_step(p2, Direction::East);
    assert(position(p3) == (2int, 2int) && carried(p3).weight == 26);
    lemma_step(p3, Direction::North);
    assert(position(p4) == (2int, 1int) && carried(p4).weight == 15);
    lemma_step(p4, Direction::West);
    assert(position(p5) == (1int, 1int) && carried(p5).weight == 15);
    lemma_step(p5, Direction::South);
    assert(position(p6) == (1int, 2int) && carried(p6).weight == 60);
    lemma_step(p6, Direction::East);
    assert(position(p7) == (2int, 2int) && carried(p7).weight == 60);
    lemma_step(p7, Direction::East);
    assert(position(p8) == (3int, 2int) && carried(p8).weight == 42);
    lemma_step(p8, Direction::West);
    assert(position(p9) == (2int, 2int) && carried(p9).weight == 42);
    lemma_step(p9, Direction::North);
    assert(position(p10) == (2int, 1int) && carried(p10).weight == 31);
    lemma_step(p10, Direction::North);
    assert(position(p11) == (2int, 0int) && carried(p11).weight == 31);
    lemma_step(p11, Direction::East);
    assert(position(p12) == (3int, 0int) && carried(p12).weight == 30);
    assert(p12 =~= known_way());
}

/// The walk that a breadth-first search finds is a shortest walk that
/// opens the vault.
pub proof fn law_found_is_shortest(path: Seq<Direction>, other: Seq<Direction>)
    requires
        found_first(path),
        walkable(other),
        wins(other),
    ensures
        path.len() <= other.len(),
{
    lemma_frontier_complete(other);
    let j = choose|j: int| 0 <= j < frontier(other.len()).len() && frontier(other.len())[j] == other;
    assert(wins(frontier(other.len())[j]));
}

/// The place of a direction in the order in which the search tries them.
pub open spec fn rank(step: Direction) -> int {
    match step {
        Direction::East => 0,
        Direction::West => 1,
        Direction::North => 2,
        Direction::South => 3,
    }
}

/// Whether `p` comes before `q` among walks of the same length: at the
/// first step in which they differ, `p` takes the direction that is tried
/// first.
pub open spec fn before(p: Seq<Direction>, q: Seq<Direction>) -> bool
    recommends
        p.len() == q.len(),
    decreases p.len(),
{
    if p.len() == 0 || q.len() == 0 {
        false
    } else {
        before(p.drop_last(), q.drop_last()) || (p.drop_last() == q.drop_last() && rank(p.last())
            < rank(q.last()))
    }
}

/// No walk comes before itself.
pub proof fn lemma_before_irreflexive(p: Seq<Direction>)
    ensures
        !before(p, p),
    decreases p.len(),
{
    if p.len() > 0 {
        lemma_before_irreflexive(p.drop_last());
    }
}

/// Of two walks at most one comes before the other.
pub proof fn lemma_before_asymmetric(p: Seq<Direction>, q: Seq<Direction>)
    requires
        p.len() == q.len(),
        before(p, q),
    ensures
        !before(q, p),
    decreases p.len(),
{
    if p.len() > 0 {
        lemma_before_irreflexive(p.drop_last());
        if before(p.drop_last(), q.drop_last()) {
            lemma_before_asymmetric(p.drop_last(), q.drop_last());
        }
    }
}

/// The children of a walk are in the order of their last steps.
proof fn lemma_children_sorted(path: Seq<Direction>)
    requires
        walkable(path),
    ensures
        forall|a: int, b: int|
            0 <= a < b < children(path).len() ==> rank((#[trigger] children(path)[a]).last())
                < rank((#[trigger] children(path)[b]).last()),
{
    if position(path) != door() {
        let e = child(path, Direction::East);
        let w = child(path, Direction::West);
        let n = child(path, Direction::North);
        let so = child(path, Direction::South);
        assert forall|k: int| 0 <= k < children(path).len() implies {
            let r = rank((#[trigger] children(path)[k]).last());
            &&& k < e.len() ==> r == 0
            &&& e.len() <= k < e.len() + w.len() ==> r == 1
            &&& e.len() + w.len() <= k < e.len() + w.len() + n.len() ==> r == 2
            &&& e.len() + w.len() + n.len() <= k ==> r == 3
        } by {
            let c = children(path)[k];
            if k < e.len() {
                assert(c == e[k]);
            } else if k < e.len() + w.len() {
                assert(c == w[k - e.len()]);
            } else if k < e.len() + w.len() + n.len() {
                assert(c == n[k - e.len() - w.len()]);
            } else {
                assert(c == so[k - e.len() - w.len() - n.len()]);
            }
        }
    }
}

/// Whether a level of the search is in order: every walk comes before
/// those behind it.
pub open spec fn in_order(level: Seq<Seq<Direction>>) -> bool {
    forall|a: int, b: int| 0 <= a < b < level.len() ==> before(#[trigger] level[a], #[trigger] level[b])
}

/// The children of the walks of a level that is in order are in order,
/// and each is the child of one of those walks.
proof fn lemma_expanded_in_order(level: Seq<Seq<Direction>>, k: int, d: nat)
    requires
        0 <= k <= level.len(),
        forall|i: int| 0 <= i < level.len() ==> (#[trigger] level[i]).len() == d && walkable(level[i]),
        in_order(level),
    ensures
        in_order(expanded(level, k)),
        forall|a: int|
            0 <= a < expanded(level, k).len() ==> exists|i: int|
                0 <= i < k && #[trigger] level[i] == (#[trigger] expanded(level, k)[a]).drop_last(),
    decreases k,
{
    if k > 0 {
        lemma_expanded_in_order(level, k - 1, d);
        lemma_expanded_sound(level, k - 1, d);
        lemma_children_sound(level[k - 1]);
        lemma_children_sorted(level[k - 1]);
        let earlier = expanded(level, k - 1);
        let last = children(level[k - 1]);
        let all = expanded(level, k);
        assert forall|a: int| 0 <= a < all.len() implies exists|i: int|
            0 <= i < k && #[trigger] level[i] == (#[trigger] all[a]).drop_last() by {
            if a < earlier.len() {
                assert(all[a] == earlier[a]);
                let i = choose|i: int| 0 <= i < k - 1 && #[trigger] level[i] == earlier[a].drop_last();
                assert(level[i] == all[a].drop_last());
            } else {
                assert(all[a] == last[a - earlier.len()]);
                assert(level[k - 1] == all[a].drop_last());
            }
        }
        assert forall|a: int, b: int| 0 <= a < b < all.len() implies before(
            #[trigger] all[a],
            #[trigger] all[b],
        ) by {
            if b < earlier.len() {
                assert(all[a] == earlier[a] && all[b] == earlier[b]);
            } else if a < earlier.len() {
                assert(all[a] == earlier[a]);
                assert(all[b] == last[b - earlier.len()]);
                let i = choose|i: int| 0 <= i < k - 1 && #[trigger] level[i] == earlier[a].drop_last();
                assert(before(level[i], level[k - 1]));
            } else {
                assert(all[a] == last[a - earlier.len()]);
                assert(all[b] == last[b - earlier.len()]);
            }
        }
    }
}

/// Every level of the search is in order.
pub proof fn lemma_frontier_in_order(d: nat)
    ensures
        in_order(frontier(d)),
    decreases d,
{
    if d > 0 {
        let level = frontier((d - 1) as nat);
        lemma_frontier_in_order((d - 1) as nat);
        lemma_frontier_sound((d - 1) as nat);
        lemma_expanded_in_order(level, level.len() as int, (d - 1) as nat);
    }
}

/// Whether `path` is the least of all walks that open the vault: it can
/// be taken and opens the vault, no such walk is shorter, and among those of
/// its length it comes first.
pub open spec fn least_way(path: Seq<Direction>) -> bool {
    &&& walkable(path)
    &&& wins(path)
    &&& forall|other: Seq<Direction>|
        walkable(other) && #[trigger] wins(other) ==> {
            ||| path.len() < other.len()
            ||| path.len() == other.len() && (other == path || before(path, other))
        }
}

/// The walk that a breadth-first search finds is the least of all walks
/// that open the vault.
pub proof fn law_found_is_least(path: Seq<Direction>)
    requires
        found_first(path),
    ensures
        least_way(path),
{
    lemma_frontier_sound(path.len());
    assert forall|other: Seq<Direction>| walkable(other) && #[trigger] wins(other) implies {
        ||| path.len() < other.len()
        ||| path.len() == other.len() && (other == path || before(path, other))
    } by {
        lemma_found_before(path, other);
    }
}

/// The walk that a breadth-first search finds is no longer than any other
/// walk that opens the vault, and comes before those of its length.
proof fn lemma_found_before(path: Seq<Direction>, other: Seq<Direction>)
    requires
        found_first(path),
        walkable(other),
        wins(other),
    ensures
        path.len() <= other.len(),
        path.len() == other.len() ==> other == path || before(path, other),
{
    law_found_is_shortest(path, other);
    if path.len() == other.len() && other != path {
        let d = path.len();
        lemma_frontier_complete(other);
        lemma_frontier_in_order(d);
        let i = choose|i: int|
            {
                &&& 0 <= i < frontier(d).len()
                &&& #[trigger] frontier(d)[i] == path
                &&& forall|j: int| 0 <= j < i ==> !wins(#[trigger] frontier(d)[j])
            };
        let j = choose|j: int| 0 <= j < frontier(d).len() && frontier(d)[j] == other;
        assert(wins(frontier(d)[j]));
        assert(i < j);
    }
}

/// The walks that wait in the queue of the search when it has come to the
/// first `i` walks of depth `d`: the rest of that depth, then the children
/// of those `i`.
pub open spec fn waiting(d: nat, i: int) -> Seq<Seq<Direction>> {
    frontier(d).subrange(i, frontier(d).len() as int) + expanded(frontier(d), i)
}

/// When a depth is done, the queue holds the next depth.
proof fn lemma_level_done(d: nat)
    ensures
        waiting(d, frontier(d).len() as int) == waiting(d + 1, 0),
        waiting(d + 1, 0) == frontier(d + 1),
{
    assert(waiting(d, frontier(d).len() as int) =~= frontier(d + 1));
    assert(waiting(d + 1, 0) =~= frontier(d + 1));
}

/// Coming to one more walk takes it from the front of the queue and puts
/// its children at the back.
proof fn lemma_next(d: nat, i: int)
    requires
        0 <= i < frontier(d).len(),
    ensures
        waiting(d, i + 1) == waiting(d, i).drop_first() + children(frontier(d)[i]),
{
    assert(waiting(d, i + 1) =~= waiting(d, i).drop_first() + children(frontier(d)[i]));
}

/// Behind a depth without walks there are no walks.
proof fn lemma_dies_out(e: nat, f: nat)
    requires
        frontier(e).len() == 0,
        e <= f,
    ensures
        frontier(f).len() == 0,
    decreases f - e,
{
    if e < f {
        assert(expanded(frontier(e), 0).len() == 0);
        assert(frontier(e + 1).len() == 0);
        lemma_dies_out(e + 1, f);
    }
}

/// Up to twelve steps the weight of the orb fits in 64 bits.
proof fn lemma_bound_fits(n: nat)
    requires
        n <= 12,
    ensures
        22 <= bound(n) <= 25450290391375872,
    decreases 12 - n,
{
    reveal_with_fuel(bound, 13);
    assert(bound(12) == 25450290391375872);
    if n < 12 {
        lemma_bound_fits(n + 1);
    }
}

/// The room at column `x` and row `y`.
pub fn tile_at(x: usize, y: usize) -> (room: Tile)
    requires
        x < 4,
        y < 4,
    ensures
        room == tile(x as int, y as int),
{
    if y == 0 {
        if x == 0 {
            Tile::Sign(Operator::Times)
        } else if x == 1 {
            Tile::Weight(8)
        } else if x == 2 {
            Tile::Sign(Operator::Minus)
        } else {
            Tile::Weight(1)
        }
    } else if y == 1 {
        if x == 0 {
            Tile::Weight(4)
        } else if x == 1 {
            Tile::Sign(Operator::Times)
        } else if x == 2 {
            Tile::Weight(11)
        } else {
            Tile::Sign(Operator::Times)
        }
    } else if y == 2 {
        if x == 0 {
            Tile::Sign(Operator::Plus)
        } else if x == 1 {
            Tile::Weight(4)
        } else if x == 2 {
            Tile::Sign(Operator::Minus)
        } else {
            Tile::Weight(18)
        }
    } else {
        if x == 0 {
            Tile::Pedestal
        } else if x == 1 {
            Tile::Sign(Operator::Minus)
        } else if x == 2 {
            Tile::Weight(9)
        } else {
            Tile::Sign(Operator::Times)
        }
    }
}

/// A walk in the queue of the search: where it has led, the orb as it was
/// before the last room, and the steps taken.
struct Node {
    x: usize,
    y: usize,
    orb: i64,
    op: Option<Operator>,
    moves: Vec<Direction>,
}

impl Node {
    /// Whether this node is the walk `path`.
    spec fn stands_for(&self, path: Seq<Direction>) -> bool {
        &&& self.moves@ == path
        &&& walkable(path)
        &&& path.len() <= 13
        &&& (self.x as int, self.y as int) == position(path)
        &&& path.len() == 0 ==> self.orb == 22 && self.op.is_none()
        &&& path.len() > 0 ==> self.orb == carried(path.drop_last()).weight && self.op == carried(
            path.drop_last(),
        ).pending
    }
}

/// Whether the queue holds exactly the given walks, in order.
spec fn holds(queue: Seq<Node>, paths: Seq<Seq<Direction>>) -> bool {
    &&& queue.len() == paths.len()
    &&& forall|k: int| 0 <= k < queue.len() ==> (#[trigger] queue[k]).stands_for(paths[k])
}

/// The orb after the walk of a node has entered its last room.
fn arrive(node: &Node) -> (orb: (i64, Option<Operator>))
    requires
        node.stands_for(node.moves@),
        node.moves@.len() <= 12,
    ensures
        orb.0 == carried(node.moves@).weight,
        orb.1 == carried(node.moves@).pending,
{
    let ghost path = node.moves@;
    let mut orb = node.orb;
    let mut op = node.op;
    proof {
        lemma_carried(path);
        lemma_bound_fits(path.len());
        if path.len() > 0 {
            lemma_carried(path.drop_last());
            lemma_bound_fits(path.drop_last().len());
        }
    }
    if !(node.x == 0 && node.y == 3) {
        match tile_at(node.x, node.y) {
            Tile::Sign(sign) => {
                assert(op.is_none());
                op = Some(sign);
            },
            Tile::Weight(n) => {
                match op {
                    Some(Operator::Plus) => {
                        orb = orb + n;
                    },
                    Some(Operator::Times) => {
                        orb = orb * n;
                    },
                    Some(Operator::Minus) => {
                        orb = orb - n;
                    },
                    None => {
                        assert(false);
                    },
                }
                op = None;
            },
            Tile::Pedestal => {
                assert(false);
            },
        }
    }
    (orb, op)
}

/// Puts the walk of `parent` continued by `step` to `(x, y)` at the back of
/// the queue.
fn push_child(
    queue: &mut VecDeque<Node>,
    parent: &Vec<Direction>,
    step: Direction,
    x: usize,
    y: usize,
    orb: i64,
    op: Option<Operator>,
    Ghost(paths): Ghost<Seq<Seq<Direction>>>,
)
    requires
        holds(old(queue)@, paths),
        walkable(parent@),
        parent@.len() <= 12,
        position(parent@) != door(),
        (x as int, y as int) == moved(position(parent@), step),
        inside((x as int, y as int)),
        (x as int, y as int) != start(),
        orb == carried(parent@).weight,
        op == carried(parent@).pending,
    ensures
        holds(final(queue)@, paths + child(parent@, step)),
{
    let mut moves = parent.clone();
    assert(moves@ =~= parent@);
    moves.push(step);
    proof {
        lemma_step(parent@, step);
        assert(parent@.push(step).drop_last() =~= parent@);
    }
    queue.push_back(Node { x, y, orb, op, moves });
    proof {
        let after = paths + child(parent@, step);
        assert forall|k: int| 0 <= k < queue@.len() implies (#[trigger] queue@[k]).stands_for(
            after[k],
        ) by {
            if k < old(queue)@.len() {
                assert(queue@[k] == old(queue)@[k]);
            }
        }
    }
}

/// Puts the children of the walk of `node` at the back of the queue.
fn spread(
    queue: &mut VecDeque<Node>,
    node: &Node,
    orb: i64,
    op: Option<Operator>,
    Ghost(paths): Ghost<Seq<Seq<Direction>>>,
)
    requires
        holds(old(queue)@, paths),
        node.stands_for(node.moves@),
        node.moves@.len() <= 12,
        position(node.moves@) != door(),
        orb == carried(node.moves@).weight,
        op == carried(node.moves@).pending,
    ensures
        holds(final(queue)@, paths + children(node.moves@)),
{
    let ghost path = node.moves@;
    let x = node.x;
    let y = node.y;
    let ghost mut all = paths;
    // try to move in all 4 directions
    if x + 1 < 4 {
        push_child(queue, &node.moves, Direction::East, x + 1, y, orb, op, Ghost(all));
    }
    proof {
        all = all + child(path, Direction::East);
    }
    if x >= 1 && !(x - 1 == 0 && y == 3) {
        push_child(queue, &node.moves, Direction::West, x - 1, y, orb, op, Ghost(all));
    }
    proof {
        all = all + child(path, Direction::West);
    }
    if y >= 1 {
        push_child(queue, &node.moves, Direction::North, x, y - 1, orb, op, Ghost(all));
    }
    proof {
        all = all + child(path, Direction::North);
    }
    if y + 1 < 4 && !(x == 0 && y + 1 == 3) {
        push_child(queue, &node.moves, Direction::South, x, y + 1, orb, op, Ghost(all));
    }
    proof {
        all = all + child(path, Direction::South);
        assert(all =~= paths + children(path));
    }
}

/// Finds the way through the maze by breadth-first search: the first
/// winning walk in the order of the search, which tries shorter walks
/// before longer ones and, from each room, east before west before north
/// before south.
pub fn bfs() -> (moves: Vec<Direction>)
    ensures
        found_first(moves@),
        least_way(moves@),
        moves@.len() <= 12,
{
    let mut queue: VecDeque<Node> = VecDeque::new();
    queue.push_back(Node { x: 0, y: 3, orb: INITIAL, op: None, moves: Vec::new() });
    let ghost mut d: nat = 0;
    let ghost mut i: int = 0;
    let ghost ahead: int;
    proof {
        assert(waiting(0, 0) =~= frontier(0));
        assert(queue@[0].moves@ =~= Seq::<Direction>::empty());
        assert(frontier(0)[0] =~= Seq::<Direction>::empty());
        // a winning walk of twelve steps lies ahead
        lemma_known_way();
        lemma_frontier_complete(known_way());
        ahead = choose|at: int| 0 <= at < frontier(12).len() && frontier(12)[at] == known_way();
    }
    loop
        invariant
            d <= 12,
            0 <= i <= frontier(d).len(),
            holds(queue@, waiting(d, i)),
            0 <= ahead < frontier(12).len(),
            wins(frontier(12)[ahead]),
            forall|j: int| 0 <= j < i ==> !wins(#[trigger] frontier(d)[j]),
            forall|e: nat, j: int|
                e < d && 0 <= j < frontier(e).len() ==> !wins(#[trigger] frontier(e)[j]),
        decreases 12 - d, frontier(d).len() - i,
    {
        proof {
            if i == frontier(d).len() {
                assert(d < 12);
                lemma_level_done(d);
                if frontier(d + 1).len() == 0 {
                    lemma_dies_out(d + 1, 12);
                }
                d = d + 1;
                i = 0;
            }
            lemma_frontier_sound(d);
            lemma_next(d, i);
        }
        let ghost path = frontier(d)[i];
        let ghost rest = waiting(d, i).drop_first();
        assert(waiting(d, i)[0] == path);
        let node = match queue.pop_front() {
            Some(node) => node,
            None => {
                // the queue does not run dry: a winning walk lies ahead
                assert(false);
                return Vec::new();
            },
        };
        assert(node.stands_for(path));
        assert(holds(queue@, rest)) by {
            assert forall|k: int| 0 <= k < queue@.len() implies (#[trigger] queue@[k]).stands_for(
                rest[k],
            ) by {
                assert(rest[k] == waiting(d, i)[k + 1]);
            }
        }
        let (orb, op) = arrive(&node);

        if node.x == 3 && node.y == 0 {
            if orb == TARGET {
                proof {
                    law_found_is_least(path);
                }
                return node.moves;
            } else {
                proof {
                    assert(children(path) =~= Seq::<Seq<Direction>>::empty());
                    assert(waiting(d, i + 1) =~= rest);
                    i = i + 1;
                }
                continue ;
            }
        }
        spread(&mut queue, &node, orb, op, Ghost(rest));
        proof {
            i = i + 1;
        }
    }
}

} // verus!

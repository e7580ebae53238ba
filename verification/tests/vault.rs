use std::collections::VecDeque;
use synacor::vault::{bfs, tile_at, Direction, Operator, Tile};

const ROWS: [[&str; 4]; 4] = [
    ["*", "8", "-", "1"],
    ["4", "*", "11", "*"],
    ["+", "4", "-", "18"],
    [".", "-", "9", "*"],
];

/// Walks a path from the pedestal and gives the room reached and the
/// weight of the orb there; `None` for a walk that leaves the grid, comes
/// back to the pedestal or goes on from the door.
fn walk(path: &[Direction]) -> Option<((usize, usize), i64)> {
    let (mut x, mut y) = (0usize, 3usize);
    let mut orb = 22i64;
    let mut op = "";
    for step in path {
        if (x, y) == (3, 0) {
            return None;
        }
        match step {
            Direction::East => x += 1,
            Direction::West => x = x.checked_sub(1)?,
            Direction::North => y = y.checked_sub(1)?,
            Direction::South => y += 1,
        }
        if x > 3 || y > 3 || (x, y) == (0, 3) {
            return None;
        }
        match ROWS[y][x] {
            "+" | "-" | "*" => op = ROWS[y][x],
            n => {
                let n: i64 = n.parse().unwrap();
                match op {
                    "+" => orb += n,
                    "-" => orb -= n,
                    "*" => orb *= n,
                    _ => panic!("a number without an operator"),
                }
            }
        }
    }
    Some(((x, y), orb))
}

#[test]
fn grid_is_the_maze() {
    for y in 0..4 {
        for x in 0..4 {
            let expected = match ROWS[y][x] {
                "." => Tile::Pedestal,
                "+" => Tile::Sign(Operator::Plus),
                "-" => Tile::Sign(Operator::Minus),
                "*" => Tile::Sign(Operator::Times),
                n => Tile::Weight(n.parse().unwrap()),
            };
            assert_eq!(tile_at(x, y), expected);
        }
    }
}

#[test]
fn found_way_opens_the_vault() {
    let moves = bfs();
    assert_eq!(walk(&moves), Some(((3, 0), 30)));
    assert_eq!(moves.len(), 12);
    let (n, e, s, w) = (Direction::North, Direction::East, Direction::South, Direction::West);
    assert_eq!(moves, vec![n, e, e, n, w, s, e, e, w, n, n, e]);
}

#[test]
fn found_way_is_the_first_in_search_order() {
    // the same search, written plainly
    let mut queue: VecDeque<Vec<Direction>> = VecDeque::new();
    queue.push_back(vec![]);
    let mut first = None;
    while let Some(path) = queue.pop_front() {
        let (at, orb) = walk(&path).expect("only walks that can be taken are queued");
        if at == (3, 0) {
            if orb == 30 {
                first = Some(path);
                break;
            }
            continue;
        }
        for step in [Direction::East, Direction::West, Direction::North, Direction::South] {
            let mut longer = path.clone();
            longer.push(step);
            if walk(&longer).is_some() {
                queue.push_back(longer);
            }
        }
    }
    assert_eq!(Some(bfs()), first);
}

#[test]
fn known_way_wins() {
    let (n, e, s, w) = (Direction::North, Direction::East, Direction::South, Direction::West);
    let way = [n, e, e, n, w, s, e, e, w, n, n, e];
    assert_eq!(walk(&way), Some(((3, 0), 30)));
}

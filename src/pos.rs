use vstd::prelude::*;

verus! {

/// A cell of the level grid.
#[derive(Clone, Copy, Debug, PartialEq, Eq, Structural)]
pub struct TilePos {
    pub x: i32,
    pub y: i32,
}

impl TilePos {
    pub fn new(x: i32, y: i32) -> (r: TilePos)
        ensures
            r.x == x,
            r.y == y,
    {
        TilePos { x, y }
    }

    /// The position one step further in `dir`, as mathematical integers.
    pub open spec fn spec_step(self, dir: Dir) -> (int, int) {
        (self.x + dir.dx(), self.y + dir.dy())
    }

    /// Whether one step in `dir` stays within the range of `i32`.
    pub open spec fn can_step(self, dir: Dir) -> bool {
        &&& i32::MIN <= self.x + dir.dx() <= i32::MAX
        &&& i32::MIN <= self.y + dir.dy() <= i32::MAX
    }

    pub open spec fn stepped(self, dir: Dir) -> TilePos
        recommends
            self.can_step(dir),
    {
        TilePos { x: (self.x + dir.dx()) as i32, y: (self.y + dir.dy()) as i32 }
    }

    /// The neighbouring position in `dir`.
    pub fn neighbor(&self, dir: Dir) -> (r: TilePos)
        requires
            self.can_step(dir),
        ensures
            r == self.stepped(dir),
            r.x == self.x + dir.dx(),
            r.y == self.y + dir.dy(),
    {
        match dir {
            Dir::Up => TilePos { x: self.x, y: self.y + 1 },
            Dir::Right => TilePos { x: self.x + 1, y: self.y },
            Dir::Down => TilePos { x: self.x, y: self.y - 1 },
            Dir::Left => TilePos { x: self.x - 1, y: self.y },
        }
    }

    /// The neighbouring position in `dir`, when it is within the range of `i32`.
    pub fn checked_neighbor(&self, dir: Dir) -> (r: Option<TilePos>)
        ensures
            r == if self.can_step(dir) {
                Some(self.stepped(dir))
            } else {
                None
            },
    {
        let fits = match dir {
            Dir::Up => self.y < i32::MAX,
            Dir::Right => self.x < i32::MAX,
            Dir::Down => self.y > i32::MIN,
            Dir::Left => self.x > i32::MIN,
        };
        if fits {
            Some(self.neighbor(dir))
        } else {
            None
        }
    }

    /// Moves the position one step in `dir`.
    pub fn add_dir(&mut self, dir: Dir)
        requires
            old(self).can_step(dir),
        ensures
            *final(self) == old(self).stepped(dir),
    {
        *self = self.neighbor(dir);
    }
}

/// One of the four directions a move can take.
#[derive(Clone, Copy, Debug, PartialEq, Eq, Structural)]
pub enum Dir {
    Up,
    Right,
    Down,
    Left,
}

impl Dir {
    /// Horizontal step of the direction.
    pub open spec fn dx(self) -> int {
        match self {
            Dir::Right => 1,
            Dir::Left => -1,
            _ => 0,
        }
    }

    /// Vertical step of the direction (up is towards larger `y`).
    pub open spec fn dy(self) -> int {
        match self {
            Dir::Up => 1,
            Dir::Down => -1,
            _ => 0,
        }
    }

    pub open spec fn spec_opposite(self) -> Dir {
        match self {
            Dir::Up => Dir::Down,
            Dir::Down => Dir::Up,
            Dir::Left => Dir::Right,
            Dir::Right => Dir::Left,
        }
    }

    /// The place of the direction in the order up, right, down, left.
    pub open spec fn index(self) -> int {
        match self {
            Dir::Up => 0,
            Dir::Right => 1,
            Dir::Down => 2,
            Dir::Left => 3,
        }
    }

    /// The `i`-th direction in the order up, right, down, left.
    pub fn cardinal(i: usize) -> (d: Dir)
        requires
            i < 4,
        ensures
            d.index() == i,
    {
        if i == 0 {
            Dir::Up
        } else if i == 1 {
            Dir::Right
        } else if i == 2 {
            Dir::Down
        } else {
            Dir::Left
        }
    }

    /// The direction pointing the other way.
    pub fn opposite(&self) -> (r: Dir)
        ensures
            r == self.spec_opposite(),
            r.dx() == -self.dx(),
            r.dy() == -self.dy(),
    {
        match self {
            Dir::Up => Dir::Down,
            Dir::Down => Dir::Up,
            Dir::Left => Dir::Right,
            Dir::Right => Dir::Left,
        }
    }
}

} // verus!

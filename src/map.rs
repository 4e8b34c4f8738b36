//! The tile grid: storage, point and rectangle queries, and walls.
use vstd::prelude::*;
use crate::dimensions::{point, WorldCoord, WorldPoint, WorldRect};

verus! {

/// Edge length of a tile, in world units.
pub const TILE_WIDTH: u32 = 64;

/// Edge length of a tile, in raw fixed-point steps.
pub const TILE_SIZE: i64 = 65536;

#[derive(Clone, Copy, Debug, PartialEq, Eq, Structural)]
pub enum GridTile {
    Empty,
    Obstacle,
}

/// The column and row of a cell of the grid.
#[derive(Clone, Copy, Debug, PartialEq, Eq, Hash, Structural)]
pub struct TilePoint {
    pub x: u32,
    pub y: u32,
}

/// A grid of `width` by `height` tiles, stored row after row.
pub struct TileMap {
    pub width: u32,
    pub height: u32,
    pub grid_tiles: Vec<GridTile>,
}

impl TileMap {
    pub open spec fn wf(&self) -> bool {
        self.grid_tiles@.len() == self.width * self.height
    }

    pub open spec fn in_bounds(&self, x: int, y: int) -> bool {
        0 <= x < self.width && 0 <= y < self.height
    }

    /// The tile at column `x`, row `y`.
    pub open spec fn tile(&self, x: int, y: int) -> GridTile {
        self.grid_tiles@[x + y * self.width]
    }

    /// Whether the area of cell `(x, y)`, the half-open square
    /// `[x * TILE_SIZE, (x + 1) * TILE_SIZE)` on each axis, meets the closed area of `rect`.
    pub open spec fn cell_meets(&self, rect: WorldRect, x: int, y: int) -> bool {
        &&& self.in_bounds(x, y)
        &&& x * TILE_SIZE <= rect.right()
        &&& rect.left() < (x + 1) * TILE_SIZE
        &&& y * TILE_SIZE <= rect.bottom()
        &&& rect.top() < (y + 1) * TILE_SIZE
    }

    pub open spec fn hits_wall(&self, rect: WorldRect) -> bool {
        exists|x: int, y: int| #[trigger]
            self.cell_meets(rect, x, y) && self.tile(x, y) == GridTile::Obstacle
    }

    pub fn get_tile(&self, p: TilePoint) -> (r: Option<GridTile>)
        ensures
            r == if self.in_bounds(p.x as int, p.y as int) && p.x + p.y * self.width
                < self.grid_tiles@.len() {
                Some(self.tile(p.x as int, p.y as int))
            } else {
                None
            },
    {
        let TilePoint { x, y } = p;
        if self.width <= x || self.height <= y {
            return None;
        }
        proof {
            lemma_index_in_grid(x as int, y as int, self.width as int, self.height as int);
        }
        let index = x as u64 + y as u64 * self.width as u64;
        if self.grid_tiles.len() as u64 <= index {
            return None;
        }
        Some(self.grid_tiles[index as usize])
    }

    fn get_tile_unchecked(&self, x: u32, y: u32) -> (r: GridTile)
        requires
            self.wf(),
            self.in_bounds(x as int, y as int),
        ensures
            r == self.tile(x as int, y as int),
    {
        proof {
            lemma_index_in_grid(x as int, y as int, self.width as int, self.height as int);
        }
        let len = self.grid_tiles.len();
        assert(y * self.width <= x + y * self.width < len) by (nonlinear_arith)
            requires
                x + y * self.width < len,
                x >= 0,
        ;
        let index: usize = x as usize + y as usize * self.width as usize;
        self.grid_tiles[index]
    }

    /// All tiles of the map, row after row.
    pub fn tiles<'a>(&'a self) -> (r: MapTileIterator<'a>)
        requires
            self.wf(),
        ensures
            r.wf(),
            r.x == 0,
            r.y == 0,
            r.map == self,
    {
        MapTileIterator { x: 0, y: 0, map: self }
    }

    /// Every cell whose area meets `rect`, row after row: the rectangle is clamped to
    /// the map, and its clamped corners give the first and last column and row.
    pub fn tiles_overlapping_rect<'a>(&'a self, rect: WorldRect) -> (r: MapTileRectIterator<'a>)
        requires
            self.wf(),
            rect.wf(),
        ensures
            r.wf(),
            r.map() == self,
            r.at_start(),
            forall|x: int, y: int| r.covers(x, y) <==> #[trigger] self.cell_meets(rect, x, y),
    {
        let bounds = self.bounds();
        let right = rect.top_left.x.0 + rect.width.0;
        let bottom = rect.top_left.y.0 + rect.height.0;
        if self.width == 0 || self.height == 0 || right < 0 || bottom < 0 || rect.top_left.x.0 >= bounds.width.0 || rect.top_left.y.0
            >= bounds.height.0 {
            let r = MapTileRectIterator::empty(self);
            assert forall|x: int, y: int| !#[trigger] self.cell_meets(rect, x, y) by {
                if self.cell_meets(rect, x, y) {
                    assert(x * TILE_SIZE >= 0) by (nonlinear_arith)
                        requires
                            x >= 0,
                    ;
                    assert(y * TILE_SIZE >= 0) by (nonlinear_arith)
                        requires
                            y >= 0,
                    ;
                    assert((x + 1) * TILE_SIZE <= self.width * TILE_SIZE) by (nonlinear_arith)
                        requires
                            x < self.width,
                    ;
                    assert((y + 1) * TILE_SIZE <= self.height * TILE_SIZE) by (nonlinear_arith)
                        requires
                            y < self.height,
                    ;
                }
            }
            return r;
        }
        let top_left = rect.top_left.clamp(&bounds);
        let bot_right = WorldPoint { x: WorldCoord(right), y: WorldCoord(bottom) };
        let (top_left_x, top_left_y) = tile_coords_in(top_left);
        let last = WorldPoint {
            x: WorldCoord(if right < bounds.width.0 { right } else { bounds.width.0 - 1 }),
            y: WorldCoord(if bottom < bounds.height.0 { bottom } else { bounds.height.0 - 1 }),
        };
        assert(self.width * TILE_SIZE <= 0xffff_ffff * TILE_SIZE) by (nonlinear_arith)
            requires
                self.width <= 0xffff_ffff,
        ;
        assert(self.height * TILE_SIZE <= 0xffff_ffff * TILE_SIZE) by (nonlinear_arith)
            requires
                self.height <= 0xffff_ffff,
        ;
        let (bot_right_x, bot_right_y) = tile_coords_in(last);
        proof {
            lemma_cell_range(top_left.x.0 as int, last.x.0 as int, rect.left(), rect.right(), self.width as int);
            lemma_cell_range(top_left.y.0 as int, last.y.0 as int, rect.top(), rect.bottom(), self.height as int);
        }
        let width = bot_right_x - top_left_x + 1;
        let height = bot_right_y - top_left_y + 1;
        let r = MapTileRectIterator {
            next_x: top_left_x,
            next_y: top_left_y,
            top_left_x,
            top_left_y,
            width,
            height,
            map: self,
        };
        assert forall|x: int, y: int| r.covers(x, y) <==> #[trigger] self.cell_meets(rect, x, y) by {
            lemma_cell_axis(x, top_left.x.0 as int, last.x.0 as int, rect.left(), rect.right(), self.width as int);
            lemma_cell_axis(y, top_left.y.0 as int, last.y.0 as int, rect.top(), rect.bottom(), self.height as int);
        }
        r
    }

    /// Whether `rect` meets the area of any cell of the map.
    pub fn rect_meets_map(&self, rect: WorldRect) -> (r: bool)
        requires
            self.wf(),
            rect.wf(),
        ensures
            r == exists|x: int, y: int| #[trigger] self.cell_meets(rect, x, y),
    {
        let it = self.tiles_overlapping_rect(rect);
        let r = !it.is_done();
        if r {
            assert(self.cell_meets(rect, it.first_x(), it.first_y()));
        } else {
            assert forall|x: int, y: int| !#[trigger] self.cell_meets(rect, x, y) by {
                if self.cell_meets(rect, x, y) {
                    assert(it.covers(x, y));
                }
            }
        }
        r
    }

    /// Whether any cell that meets `rect` holds an obstacle.
    pub fn rect_intersects_wall(&self, rect: WorldRect) -> (r: bool)
        requires
            self.wf(),
            rect.wf(),
        ensures
            r == self.hits_wall(rect),
    {
        let mut it = self.tiles_overlapping_rect(rect);
        loop
            invariant
                it.wf(),
                it.map() == self,
                forall|x: int, y: int| it.covers(x, y) <==> #[trigger] self.cell_meets(rect, x, y),
                forall|x: int, y: int|
                    #[trigger] it.covers(x, y) && it.passed(x, y) ==> self.tile(x, y)
                        != GridTile::Obstacle,
            decreases it.top_left_y + it.height - it.next_y, it.top_left_x + it.width - it.next_x,
        {
            let ghost prev = it;
            match it.next() {
                None => {
                    assert forall|x: int, y: int| #[trigger]
                        self.cell_meets(rect, x, y) implies self.tile(x, y) != GridTile::Obstacle by {
                        assert(prev.covers(x, y));
                    }
                    return false;
                },
                Some(item) => {
                    if item.tile == GridTile::Obstacle {
                        assert(self.cell_meets(rect, item.pos.x as int, item.pos.y as int));
                        return true;
                    }
                    assert forall|x: int, y: int| #[trigger]
                        it.covers(x, y) && it.passed(x, y) implies self.tile(x, y)
                        != GridTile::Obstacle by {
                        assert(prev.covers(x, y));
                        if !prev.passed(x, y) {
                            assert(x == prev.cursor_x() && y == prev.cursor_y());
                        }
                    }
                },
            }
        }
    }

    /// The area of the whole map.
    fn bounds(&self) -> (r: WorldRect)
        ensures
            r == (WorldRect {
                top_left: point(0, 0),
                width: WorldCoord((self.width * TILE_SIZE) as i64),
                height: WorldCoord((self.height * TILE_SIZE) as i64),
            }),
            r.wf(),
    {
        WorldRect {
            top_left: WorldPoint { x: WorldCoord(0), y: WorldCoord(0) },
            width: WorldCoord(self.width as i64 * TILE_SIZE),
            height: WorldCoord(self.height as i64 * TILE_SIZE),
        }
    }
}

proof fn lemma_index_in_grid(x: int, y: int, w: int, h: int)
    requires
        0 <= x < w,
        0 <= y < h,
    ensures
        0 <= x + y * w < w * h,
        w * h <= 0xffff_ffff * 0xffff_ffff || w > 0xffff_ffff || h > 0xffff_ffff,
{
    assert(x + y * w < w * h) by (nonlinear_arith)
        requires
            0 <= x < w,
            0 <= y < h,
    ;
    assert(0 <= y * w) by (nonlinear_arith)
        requires
            0 <= x < w,
            0 <= y,
    ;
    assert(w * h <= 0xffff_ffff * 0xffff_ffff || w > 0xffff_ffff || h > 0xffff_ffff) by (nonlinear_arith)
        requires
            0 <= w,
            0 <= h,
    ;
}

/// Column and row of a point with non-negative coordinates.
pub open spec fn tile_of(v: int) -> int {
    v / (TILE_SIZE as int)
}

fn tile_coords_in(p: WorldPoint) -> (r: (u32, u32))
    requires
        0 <= p.x.0 < 0xffff_ffff * TILE_SIZE,
        0 <= p.y.0 < 0xffff_ffff * TILE_SIZE,
    ensures
        r.0 == tile_of(p.x.0 as int),
        r.1 == tile_of(p.y.0 as int),
{
    ((p.x.0 / TILE_SIZE) as u32, (p.y.0 / TILE_SIZE) as u32)
}

proof fn lemma_div_bounds(a: int, x: int)
    requires
        a >= 0,
    ensures
        tile_of(a) <= x <==> a < (x + 1) * TILE_SIZE,
        x <= tile_of(a) <==> x * TILE_SIZE <= a,
{
    let q = a / (TILE_SIZE as int);
    let m = a % (TILE_SIZE as int);
    assert(a == q * TILE_SIZE + m && 0 <= m < TILE_SIZE);
    assert(q <= x <==> a < (x + 1) * TILE_SIZE) by (nonlinear_arith)
        requires
            a == q * TILE_SIZE + m,
            0 <= m < TILE_SIZE,
    ;
    assert(x <= q <==> x * TILE_SIZE <= a) by (nonlinear_arith)
        requires
            a == q * TILE_SIZE + m,
            0 <= m < TILE_SIZE,
    ;
}

/// Along one axis: the cells from `tile_of(lo)` to `tile_of(hi)` are those that lie in
/// the map and meet the closed span `[left, right]`.
proof fn lemma_cell_axis(x: int, lo: int, hi: int, left: int, right: int, n: int)
    requires
        n > 0,
        lo == clamp0(left, n * TILE_SIZE),
        hi == if right < n * TILE_SIZE { right } else { n * TILE_SIZE - 1 },
        0 <= right,
        left < n * TILE_SIZE,
    ensures
        (tile_of(lo) <= x <= tile_of(hi)) <==> (0 <= x < n && x * TILE_SIZE <= right && left < (x
            + 1) * TILE_SIZE),
{
    lemma_div_bounds(lo, x);
    lemma_div_bounds(hi, x);
    assert(x < n ==> (x + 1) * TILE_SIZE <= n * TILE_SIZE) by (nonlinear_arith);
    assert(x >= n ==> x * TILE_SIZE >= n * TILE_SIZE) by (nonlinear_arith);
    assert(x < 0 ==> (x + 1) * TILE_SIZE <= 0) by (nonlinear_arith);
}

proof fn lemma_cell_range(lo: int, hi: int, left: int, right: int, n: int)
    requires
        n > 0,
        left <= right,
        n <= 0xffff_ffff,
        lo == clamp0(left, n * TILE_SIZE),
        hi == if right < n * TILE_SIZE { right } else { n * TILE_SIZE - 1 },
        0 <= right,
        left < n * TILE_SIZE,
    ensures
        0 <= tile_of(lo) <= tile_of(hi) < n,
{
    lemma_div_bounds(lo, tile_of(lo));
    lemma_div_bounds(hi, tile_of(lo));
    lemma_div_bounds(hi, n);
    lemma_div_bounds(lo, 0);
}

pub open spec fn clamp0(v: int, hi: int) -> int {
    if v < 0 {
        0
    } else if v > hi {
        hi
    } else {
        v
    }
}

pub open spec fn saturate_u32(v: int) -> u32 {
    if v > u32::MAX {
        u32::MAX
    } else {
        v as u32
    }
}

/// The cell under a world point: `None` where a coordinate is negative. No upper
/// bound is checked here; a column beyond the `u32` range saturates.
pub open spec fn world_to_tile(p: WorldPoint) -> Option<TilePoint> {
    if p.x.0 < 0 || p.y.0 < 0 {
        None
    } else {
        Some(
            TilePoint {
                x: saturate_u32(tile_of(p.x.0 as int)),
                y: saturate_u32(tile_of(p.y.0 as int)),
            },
        )
    }
}

fn tile_index_saturating(v: i64) -> (r: u32)
    requires
        v >= 0,
    ensures
        r == saturate_u32(tile_of(v as int)),
{
    let t = v / TILE_SIZE;
    if t > u32::MAX as i64 {
        u32::MAX
    } else {
        t as u32
    }
}

impl TileMap {
    /// Column and row of the cell under `point`; `None` where a coordinate is negative.
    pub fn tile_coords_at(&self, point: WorldPoint) -> (r: Option<(u32, u32)>)
        ensures
            r == match world_to_tile(point) {
                Some(t) => Some((t.x, t.y)),
                None => None::<(u32, u32)>,
            },
    {
        if point.x.0 < 0 || point.y.0 < 0 {
            return None;
        }
        Some((tile_index_saturating(point.x.0), tile_index_saturating(point.y.0)))
    }

    /// The tile under a world point, if the point lies on the map.
    pub fn get_tile_at(&self, point: WorldPoint) -> (r: Option<GridTile>)
        requires
            self.wf(),
        ensures
            r == match world_to_tile(point) {
                Some(t) => if self.in_bounds(t.x as int, t.y as int) {
                    Some(self.tile(t.x as int, t.y as int))
                } else {
                    None
                },
                None => None,
            },
    {
        match self.tile_coords_at(point) {
            Some((x, y)) => {
                proof {
                    if self.in_bounds(x as int, y as int) {
                        lemma_index_in_grid(x as int, y as int, self.width as int, self.height as int);
                    }
                }
                self.get_tile(TilePoint { x, y })
            },
            None => None,
        }
    }
}

impl TilePoint {
    /// The top-left corner of the cell in world space.
    pub open spec fn world_corner(self) -> WorldPoint {
        point(self.x * TILE_SIZE, self.y * TILE_SIZE)
    }

    pub open spec fn world_center(self) -> WorldPoint {
        point(self.x * TILE_SIZE + TILE_SIZE / 2, self.y * TILE_SIZE + TILE_SIZE / 2)
    }

    pub fn new(x: u32, y: u32) -> (r: TilePoint)
        ensures
            r.x == x,
            r.y == y,
    {
        TilePoint { x, y }
    }

    /// The cells left, above, right and below, in that order, that lie on the map.
    pub fn neighbors4(&self, map: &TileMap) -> (r: Vec<TilePoint>)
        ensures
            r@ == neighbors_spec(*self, map.width as int, map.height as int),
    {
        let (x, y) = (self.x, self.y);
        let mut out: Vec<TilePoint> = Vec::new();
        if x > 0 {
            out.push(TilePoint { x: x - 1, y });
        }
        if y > 0 {
            out.push(TilePoint { x, y: y - 1 });
        }
        if (x as u64) + 1 < map.width as u64 {
            out.push(TilePoint { x: x + 1, y });
        }
        if (y as u64) + 1 < map.height as u64 {
            out.push(TilePoint { x, y: y + 1 });
        }
        out
    }

    pub fn tile_center(self) -> (r: WorldPoint)
        ensures
            r == self.world_center(),
    {
        self.center_to_world_point()
    }

    /// Converts tile coordinates to the world coordinates of the cell's top-left corner.
    pub fn to_world_point(self) -> (r: WorldPoint)
        ensures
            r == self.world_corner(),
    {
        WorldPoint {
            x: WorldCoord(self.x as i64 * TILE_SIZE),
            y: WorldCoord(self.y as i64 * TILE_SIZE),
        }
    }

    pub fn center_to_world_point(self) -> (r: WorldPoint)
        ensures
            r == self.world_center(),
    {
        WorldPoint {
            x: WorldCoord(self.x as i64 * TILE_SIZE + TILE_SIZE / 2),
            y: WorldCoord(self.y as i64 * TILE_SIZE + TILE_SIZE / 2),
        }
    }
}

pub open spec fn neighbors_spec(p: TilePoint, w: int, h: int) -> Seq<TilePoint> {
    let s0 = Seq::<TilePoint>::empty();
    let s1 = if p.x > 0 { s0.push(TilePoint { x: (p.x - 1) as u32, y: p.y }) } else { s0 };
    let s2 = if p.y > 0 { s1.push(TilePoint { x: p.x, y: (p.y - 1) as u32 }) } else { s1 };
    let s3 = if p.x + 1 < w { s2.push(TilePoint { x: (p.x + 1) as u32, y: p.y }) } else { s2 };
    if p.y + 1 < h { s3.push(TilePoint { x: p.x, y: (p.y + 1) as u32 }) } else { s3 }
}

/// Conversion of a world point to the cell under it.
pub trait ToTilePoint {
    spec fn tile_point_spec(self) -> TilePoint;

    fn to_tile_point(self) -> (r: TilePoint)
        ensures
            r == self.tile_point_spec(),
    ;
}

impl ToTilePoint for WorldPoint {
    /// Negative coordinates count as 0.
    open spec fn tile_point_spec(self) -> TilePoint {
        TilePoint {
            x: saturate_u32(tile_of(if self.x.0 < 0 { 0 } else { self.x.0 as int })),
            y: saturate_u32(tile_of(if self.y.0 < 0 { 0 } else { self.y.0 as int })),
        }
    }

    fn to_tile_point(self) -> (r: TilePoint) {
        TilePoint {
            x: tile_index_saturating(if self.x.0 < 0 { 0 } else { self.x.0 }),
            y: tile_index_saturating(if self.y.0 < 0 { 0 } else { self.y.0 }),
        }
    }
}

/// Every point of a cell's area maps back to that cell; in particular its top-left
/// corner and its center do.
pub proof fn lemma_tile_round_trip(t: TilePoint, p: WorldPoint)
    requires
        t.world_corner().x.0 <= p.x.0 < t.world_corner().x.0 + TILE_SIZE,
        t.world_corner().y.0 <= p.y.0 < t.world_corner().y.0 + TILE_SIZE,
    ensures
        world_to_tile(p) == Some(t),
        world_to_tile(t.world_corner()) == Some(t),
        world_to_tile(t.world_center()) == Some(t),
{
    assert(t.x * TILE_SIZE <= u32::MAX * TILE_SIZE) by (nonlinear_arith)
        requires
            t.x <= u32::MAX,
    ;
    assert(t.y * TILE_SIZE <= u32::MAX * TILE_SIZE) by (nonlinear_arith)
        requires
            t.y <= u32::MAX,
    ;
    assert(t.x * TILE_SIZE >= 0 && t.y * TILE_SIZE >= 0) by (nonlinear_arith);
    lemma_div_bounds(p.x.0 as int, t.x as int);
    lemma_div_bounds(p.y.0 as int, t.y as int);
    lemma_div_bounds(t.x * TILE_SIZE, t.x as int);
    lemma_div_bounds(t.y * TILE_SIZE, t.y as int);
    lemma_div_bounds(t.x * TILE_SIZE + TILE_SIZE / 2, t.x as int);
    lemma_div_bounds(t.y * TILE_SIZE + TILE_SIZE / 2, t.y as int);
    assert((t.x + 1) * TILE_SIZE == t.x * TILE_SIZE + TILE_SIZE) by (nonlinear_arith);
    assert((t.y + 1) * TILE_SIZE == t.y * TILE_SIZE + TILE_SIZE) by (nonlinear_arith);
}

/// A rectangle that lies wholly off the map meets no cell.
pub proof fn lemma_outside_meets_nothing(map: TileMap, rect: WorldRect)
    requires
        rect.wf(),
        rect.right() < 0 || rect.bottom() < 0 || rect.left() >= map.width * TILE_SIZE
            || rect.top() >= map.height * TILE_SIZE,
    ensures
        forall|x: int, y: int| !#[trigger] map.cell_meets(rect, x, y),
{
    assert forall|x: int, y: int| !#[trigger] map.cell_meets(rect, x, y) by {
        if map.cell_meets(rect, x, y) {
            assert(x * TILE_SIZE >= 0 && y * TILE_SIZE >= 0) by (nonlinear_arith)
                requires
                    x >= 0,
                    y >= 0,
            ;
            assert((x + 1) * TILE_SIZE <= map.width * TILE_SIZE) by (nonlinear_arith)
                requires
                    x < map.width,
            ;
            assert((y + 1) * TILE_SIZE <= map.height * TILE_SIZE) by (nonlinear_arith)
                requires
                    y < map.height,
            ;
        }
    }
}

/// A rectangle that covers exactly the area of one cell of the map (its far edges one
/// raw step short of the next cells) meets that cell and no other.
pub proof fn lemma_one_cell_meets_one(map: TileMap, t: TilePoint, rect: WorldRect)
    requires
        map.in_bounds(t.x as int, t.y as int),
        rect.top_left == t.world_corner(),
        rect.width.0 == TILE_SIZE - 1,
        rect.height.0 == TILE_SIZE - 1,
    ensures
        forall|x: int, y: int|
            #[trigger] map.cell_meets(rect, x, y) <==> (x == t.x && y == t.y),
{
    assert forall|x: int, y: int|
        #[trigger] map.cell_meets(rect, x, y) <==> (x == t.x && y == t.y) by {
        assert(x * TILE_SIZE <= t.x * TILE_SIZE + TILE_SIZE - 1 <==> x <= t.x) by (nonlinear_arith);
        assert(t.x * TILE_SIZE < (x + 1) * TILE_SIZE <==> t.x <= x) by (nonlinear_arith);
        assert(y * TILE_SIZE <= t.y * TILE_SIZE + TILE_SIZE - 1 <==> y <= t.y) by (nonlinear_arith);
        assert(t.y * TILE_SIZE < (y + 1) * TILE_SIZE <==> t.y <= y) by (nonlinear_arith);
    }
}

/// A tile of the map and where it stands.
#[derive(Clone, Copy, Debug, PartialEq, Eq, Structural)]
pub struct MapTileIteratorItem {
    pub pos: TilePoint,
    pub tile: GridTile,
}

/// Walks the whole map row after row.
pub struct MapTileIterator<'a> {
    pub x: u32,
    pub y: u32,
    pub map: &'a TileMap,
}

impl<'a> MapTileIterator<'a> {
    pub open spec fn wf(&self) -> bool {
        self.map.wf() && (self.y < self.map.height && self.map.width > 0 ==> self.x < self.map.width)
    }

    pub open spec fn done(&self) -> bool {
        self.y >= self.map.height || self.map.width == 0
    }

    /// Hands out the tile under the cursor and moves the cursor to the next one.
    pub fn next(&mut self) -> (r: Option<MapTileIteratorItem>)
        requires
            old(self).wf(),
        ensures
            final(self).wf(),
            final(self).map == old(self).map,
            old(self).done() ==> r is None && *final(self) == *old(self),
            !old(self).done() ==> {
                &&& r == Some(
                    MapTileIteratorItem {
                        pos: TilePoint { x: old(self).x, y: old(self).y },
                        tile: old(self).map.tile(old(self).x as int, old(self).y as int),
                    },
                )
                &&& if old(self).x + 1 < old(self).map.width {
                    final(self).x == old(self).x + 1 && final(self).y == old(self).y
                } else {
                    final(self).x == 0 && final(self).y == old(self).y + 1
                }
            },
    {
        if self.y >= self.map.height || self.map.width == 0 {
            return None;
        }
        let out = MapTileIteratorItem {
            pos: TilePoint { x: self.x, y: self.y },
            tile: self.map.get_tile_unchecked(self.x, self.y),
        };
        if self.x >= self.map.width - 1 {
            self.x = 0;
            self.y = self.y + 1;
        } else {
            self.x = self.x + 1;
        }
        Some(out)
    }
}

/// Walks, row after row, the cells of a rectangle of the grid.
pub struct MapTileRectIterator<'a> {
    next_x: u32,
    next_y: u32,
    top_left_x: u32,
    top_left_y: u32,
    width: u32,
    height: u32,
    map: &'a TileMap,
}

impl<'a> MapTileRectIterator<'a> {
    pub closed spec fn map(&self) -> &'a TileMap {
        self.map
    }

    pub open spec fn wf(&self) -> bool {
        &&& self.map().wf()
        &&& 0 <= self.first_x()
        &&& 0 <= self.first_y()
        &&& self.first_x() + self.span_x() <= self.map().width
        &&& self.first_y() + self.span_y() <= self.map().height
        &&& if self.span_x() > 0 && self.span_y() > 0 {
            &&& self.first_x() <= self.cursor_x() < self.first_x() + self.span_x()
            &&& self.first_y() <= self.cursor_y() <= self.first_y() + self.span_y()
            &&& self.cursor_y() == self.first_y() + self.span_y() ==> self.cursor_x()
                == self.first_x()
        } else {
            self.done()
        }
    }

    pub closed spec fn first_x(&self) -> int {
        self.top_left_x as int
    }

    pub closed spec fn first_y(&self) -> int {
        self.top_left_y as int
    }

    pub closed spec fn span_x(&self) -> int {
        self.width as int
    }

    pub closed spec fn span_y(&self) -> int {
        self.height as int
    }

    pub closed spec fn cursor_x(&self) -> int {
        self.next_x as int
    }

    pub closed spec fn cursor_y(&self) -> int {
        self.next_y as int
    }

    pub open spec fn done(&self) -> bool {
        self.cursor_y() >= self.first_y() + self.span_y()
    }

    /// Whether cell `(x, y)` is one of the cells this walk visits.
    pub open spec fn covers(&self, x: int, y: int) -> bool {
        self.first_x() <= x < self.first_x() + self.span_x() && self.first_y() <= y
            < self.first_y() + self.span_y()
    }

    /// Whether cell `(x, y)` comes before the cursor in row-major order.
    pub open spec fn passed(&self, x: int, y: int) -> bool {
        y < self.cursor_y() || (y == self.cursor_y() && x < self.cursor_x())
    }

    pub open spec fn at_start(&self) -> bool {
        forall|x: int, y: int| #[trigger] self.covers(x, y) ==> !self.passed(x, y)
    }

    pub fn is_done(&self) -> (r: bool)
        requires
            self.wf(),
        ensures
            r == self.done(),
    {
        self.next_y >= self.top_left_y + self.height
    }

    /// A walk that visits no cell.
    pub fn empty(map: &'a TileMap) -> (r: MapTileRectIterator<'a>)
        requires
            map.wf(),
        ensures
            r.wf(),
            r.map() == map,
            r.done(),
            forall|x: int, y: int| !#[trigger] r.covers(x, y),
    {
        MapTileRectIterator {
            top_left_x: 0,
            top_left_y: 0,
            width: 0,
            height: 0,
            next_x: 10,
            next_y: 10,
            map,
        }
    }

    /// Hands out the cell under the cursor and moves the cursor to the next one.
    pub fn next(&mut self) -> (r: Option<MapTileIteratorItem>)
        requires
            old(self).wf(),
        ensures
            final(self).wf(),
            final(self).map() == old(self).map(),
            final(self).first_x() == old(self).first_x(),
            final(self).first_y() == old(self).first_y(),
            final(self).span_x() == old(self).span_x(),
            final(self).span_y() == old(self).span_y(),
            old(self).done() ==> r is None && final(self).cursor_x() == old(self).cursor_x()
                && final(self).cursor_y() == old(self).cursor_y(),
            !old(self).done() ==> {
                &&& r == Some(
                    MapTileIteratorItem {
                        pos: TilePoint { x: old(self).cursor_x() as u32, y: old(self).cursor_y() as u32 },
                        tile: old(self).map().tile(old(self).cursor_x(), old(self).cursor_y()),
                    },
                )
                &&& if old(self).cursor_x() + 1 < old(self).first_x() + old(self).span_x() {
                    final(self).cursor_x() == old(self).cursor_x() + 1 && final(self).cursor_y()
                        == old(self).cursor_y()
                } else {
                    final(self).cursor_x() == old(self).first_x() && final(self).cursor_y()
                        == old(self).cursor_y() + 1
                }
            },
    {
        if self.next_y >= self.top_left_y + self.height {
            return None;
        }
        let tile = MapTileIteratorItem {
            pos: TilePoint { x: self.next_x, y: self.next_y },
            tile: self.map.get_tile_unchecked(self.next_x, self.next_y),
        };
        self.next_x = self.next_x + 1;
        if self.next_x >= self.top_left_x + self.width {
            self.next_x = self.top_left_x;
            self.next_y = self.next_y + 1;
        }
        Some(tile)
    }
}

} // verus!

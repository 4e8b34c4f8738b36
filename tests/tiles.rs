use rts::dimensions::{WorldCoord, WorldPoint, WorldRect};
use rts::map::{GridTile, MapTileRectIterator, TilePoint, TileMap, ToTilePoint, TILE_SIZE};
use rts::map_text::MapLoadError;
use GridTile::{Empty as E, Obstacle as X};

fn pt(x: i64, y: i64) -> WorldPoint {
    WorldPoint::new(WorldCoord(x), WorldCoord(y))
}

fn rect(x: i64, y: i64, w: i64, h: i64) -> WorldRect {
    WorldRect { top_left: pt(x, y), width: WorldCoord(w), height: WorldCoord(h) }
}

fn load(text: &str) -> Result<TileMap, MapLoadError> {
    TileMap::from_text(text.as_bytes())
}

fn collect(mut it: MapTileRectIterator) -> Vec<(u32, u32)> {
    let mut out = vec![];
    while let Some(item) = it.next() {
        out.push((item.pos.x, item.pos.y));
    }
    out
}

#[test]
fn loads_a_map() {
    let m = load("3\n2\nOXO\nXOO\n").unwrap();
    assert_eq!((m.width, m.height), (3, 2));
    assert_eq!(m.grid_tiles, vec![E, X, E, X, E, E]);
    let m = load("+2\r\n1\r\nXO").unwrap();
    assert_eq!((m.width, m.height), (2, 1));
    assert_eq!(m.grid_tiles, vec![X, E]);
}

#[test]
fn load_errors() {
    assert_eq!(load("").err(), Some(MapLoadError::MissingWidth));
    assert_eq!(load("x\n2\n").err(), Some(MapLoadError::BadWidth));
    assert_eq!(load("99999999999\n2\n").err(), Some(MapLoadError::BadWidth));
    assert_eq!(load("2\n").err(), Some(MapLoadError::MissingHeight));
    assert_eq!(load("2").err(), Some(MapLoadError::MissingHeight));
    assert_eq!(load("2\n-1\n").err(), Some(MapLoadError::BadHeight));
    assert_eq!(load("2\n2\nOO\n").err(), Some(MapLoadError::MissingRow { row: 1 }));
    assert_eq!(
        load("2\n2\nOO\nOOO\n").err(),
        Some(MapLoadError::RowLength { row: 1, len: 3, expected: 2 })
    );
}

#[test]
fn load_refuses_unknown_cells() {
    // A row of the right length with a character other than X and O is refused.
    assert_eq!(load("2\n1\nOZ\n").err(), Some(MapLoadError::BadTile { row: 0 }));
}

#[test]
fn get_tile_bounds() {
    let m = load("2\n2\nOX\nOO\n").unwrap();
    assert_eq!(m.get_tile(TilePoint::new(1, 0)), Some(GridTile::Obstacle));
    assert_eq!(m.get_tile(TilePoint::new(0, 1)), Some(GridTile::Empty));
    assert_eq!(m.get_tile(TilePoint::new(2, 0)), None);
    assert_eq!(m.get_tile(TilePoint::new(0, 2)), None);
}

#[test]
fn world_to_tile_round_trip() {
    let m = load("3\n3\nOOO\nOXO\nOOO\n").unwrap();
    for x in 0..3u32 {
        for y in 0..3u32 {
            let t = TilePoint::new(x, y);
            let corner = t.to_world_point();
            assert_eq!(corner, pt(x as i64 * TILE_SIZE, y as i64 * TILE_SIZE));
            let far = pt(corner.x.0 + TILE_SIZE - 1, corner.y.0 + TILE_SIZE - 1);
            for p in [corner, t.tile_center(), t.center_to_world_point(), far] {
                assert_eq!(p.to_tile_point(), t);
                assert_eq!(m.tile_coords_at(p), Some((x, y)));
                assert_eq!(m.get_tile_at(p), m.get_tile(t));
            }
        }
    }
    assert_eq!(m.get_tile_at(pt(-1, 0)), None);
    assert_eq!(m.tile_coords_at(pt(0, -1)), None);
    assert_eq!(m.get_tile_at(pt(3 * TILE_SIZE, 0)), None);
    assert_eq!(m.get_tile_at(pt(TILE_SIZE, TILE_SIZE)), Some(GridTile::Obstacle));
    assert_eq!(TilePoint::new(1, 2).tile_center(), pt(TILE_SIZE + TILE_SIZE / 2, 2 * TILE_SIZE + TILE_SIZE / 2));
}

#[test]
fn overlapping_outside_is_empty() {
    let m = load("3\n3\nOOO\nOXO\nOOO\n").unwrap();
    assert!(collect(m.tiles_overlapping_rect(rect(-100, -100, 50, 50))).is_empty());
    assert!(collect(m.tiles_overlapping_rect(rect(3 * TILE_SIZE, 0, 50, 50))).is_empty());
    assert!(collect(m.tiles_overlapping_rect(rect(0, 3 * TILE_SIZE + 1, 50, 50))).is_empty());
    assert!(collect(MapTileRectIterator::empty(&m)).is_empty());
}

#[test]
fn overlapping_one_tile() {
    let m = load("3\n3\nOOO\nOXO\nOOO\n").unwrap();
    let exact = rect(TILE_SIZE, 2 * TILE_SIZE, TILE_SIZE - 1, TILE_SIZE - 1);
    assert_eq!(collect(m.tiles_overlapping_rect(exact)), vec![(1, 2)]);
    // The far edges are closed: a full tile width reaches into the next cells.
    let wide = rect(0, 0, TILE_SIZE, TILE_SIZE);
    assert_eq!(collect(m.tiles_overlapping_rect(wide)), vec![(0, 0), (1, 0), (0, 1), (1, 1)]);
}

#[test]
fn overlapping_is_clamped_to_the_map() {
    let m = load("3\n3\nOOO\nOXO\nOOO\n").unwrap();
    let big = rect(-1000, 2 * TILE_SIZE + 5, 10 * TILE_SIZE, 10 * TILE_SIZE);
    assert_eq!(collect(m.tiles_overlapping_rect(big)), vec![(0, 2), (1, 2), (2, 2)]);
    // Restartable: asking again gives the same cells.
    assert_eq!(collect(m.tiles_overlapping_rect(big)), vec![(0, 2), (1, 2), (2, 2)]);
    let across = rect(-5, TILE_SIZE + 10, 4 * TILE_SIZE, 2);
    assert_eq!(collect(m.tiles_overlapping_rect(across)), vec![(0, 1), (1, 1), (2, 1)]);
    assert!(m.rect_intersects_wall(across));
}

#[test]
fn wall_intersection() {
    let m = load("3\n3\nOOO\nOXO\nOOO\n").unwrap();
    assert!(m.rect_intersects_wall(rect(TILE_SIZE, TILE_SIZE, 1, 1)));
    assert!(m.rect_intersects_wall(rect(0, 0, TILE_SIZE, TILE_SIZE)));
    assert!(!m.rect_intersects_wall(rect(0, 0, TILE_SIZE - 1, 3 * TILE_SIZE)));
    assert!(!m.rect_intersects_wall(rect(-5000, -5000, 100, 100)));
    assert!(!m.rect_intersects_wall(rect(2 * TILE_SIZE, 0, 5 * TILE_SIZE, 5 * TILE_SIZE)));
}

#[test]
fn full_grid_iteration() {
    let m = load("2\n2\nOX\nXO\n").unwrap();
    let mut it = m.tiles();
    let mut seen = vec![];
    while let Some(item) = it.next() {
        seen.push((item.pos.x, item.pos.y, item.tile));
    }
    assert_eq!(seen, vec![(0, 0, E), (1, 0, X), (0, 1, X), (1, 1, E)]);
}

#[test]
fn neighbors_in_bounds_only() {
    let m = load("3\n2\nOOO\nOOO\n").unwrap();
    assert_eq!(TilePoint::new(0, 0).neighbors4(&m), vec![TilePoint::new(1, 0), TilePoint::new(0, 1)]);
    assert_eq!(
        TilePoint::new(1, 1).neighbors4(&m),
        vec![TilePoint::new(0, 1), TilePoint::new(1, 0), TilePoint::new(2, 1)]
    );
    assert_eq!(TilePoint::new(2, 0).neighbors4(&m), vec![TilePoint::new(1, 0), TilePoint::new(2, 1)]);
}

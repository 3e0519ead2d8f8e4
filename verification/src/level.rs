//! Level data and the waypoint path built from it.
//!
//! A level is a structured document: an ordered list of grid
//! coordinates describing the path from the spawn portal to the goal
//! portal, optional decorative placements (some of which block
//! placement), and a camera-centering hint.  At load time the grid
//! coordinates are turned into world positions (the centers of the
//! named cells) and validated; a malformed level is rejected before the
//! simulation starts.

use vstd::prelude::*;

use crate::geom::Vec2I;

verus! {

/// Largest magnitude a path waypoint coordinate may take, in world
/// units.  The margin below `COORD_LIMIT` leaves room for adversaries
/// to overshoot a waypoint and for split children to scatter without
/// leaving the world.
pub const PATH_LIMIT: i64 = 0x7F0_0000;

/// Largest magnitude a level grid coordinate may take.
pub const GRID_LIMIT: i64 = 1024;

/// One decorative placement from the level data: an asset identifier,
/// a grid position, and whether the decoration blocks placement.
pub struct Decor {
    pub asset: String,
    pub pos: Vec2I,
    pub blocks: bool,
}

/// A level as loaded from the level document: the path through the
/// grid, decorative placements, and a camera-centering hint, all in
/// grid coordinates.
pub struct Level {
    pub path: Vec<Vec2I>,
    pub decor: Vec<Decor>,
    pub center_pos: Vec2I,
}

/// Why a level was rejected at load time.
#[derive(Clone, Copy, Debug, PartialEq, Eq, Structural)]
pub enum LevelError {
    /// The path has fewer than two waypoints.
    TooFewWaypoints,
    /// A path grid coordinate lies outside the supported grid.
    WaypointOutOfRange,
}

/// One waypoint of the path.
#[derive(Clone, Copy, Debug)]
pub struct PathNode {
    pub position: Vec2I,
}

impl PathNode {
    /// Wrap a world position as a path waypoint.
    pub fn new(position: Vec2I) -> (n: PathNode)
        ensures
            n.position == position,
    {
        PathNode { position }
    }
}

/// The fixed path adversaries traverse: an ordered sequence of world
/// positions whose first element is the spawn portal and whose last is
/// the goal portal, with the two endpoints cached.
pub struct Path {
    pub start_position: Vec2I,
    pub end_position: Vec2I,
    pub positions: Vec<PathNode>,
}

/// The world position of the center of the grid cell `g` for the given
/// tile size.
pub open spec fn cell_center_spec(g: int, tile: int) -> int {
    g * tile + tile / 2
}

/// The grid coordinate lies within the supported grid.
pub open spec fn grid_coord_ok(g: int) -> bool {
    -GRID_LIMIT <= g <= GRID_LIMIT
}

/// Every waypoint of the level's path lies within the supported grid.
pub open spec fn level_path_in_range(path: Seq<Vec2I>) -> bool {
    forall|i: int|
        0 <= i < path.len() ==> {
            let g = #[trigger] path[i];
            grid_coord_ok(g.x as int) && grid_coord_ok(g.y as int)
        }
}

impl Path {
    /// The path is usable by the simulation: at least two waypoints,
    /// every waypoint within the world, and the cached endpoints equal
    /// to the first and last waypoints.
    pub open spec fn wf(self) -> bool {
        &&& self.positions@.len() >= 2
        &&& forall|i: int|
            0 <= i < self.positions@.len() ==> {
                let p = (#[trigger] self.positions@[i]).position;
                -PATH_LIMIT <= p.x <= PATH_LIMIT && -PATH_LIMIT <= p.y <= PATH_LIMIT
            }
        &&& self.start_position == self.positions@[0].position
        &&& self.end_position == self.positions@[self.positions@.len() - 1].position
    }

    /// The world position of waypoint `i`.
    pub open spec fn waypoint(self, i: int) -> Vec2I {
        self.positions@[i].position
    }

    /// How many waypoints the path has.
    pub fn len(&self) -> (n: usize)
        ensures
            n == self.positions@.len(),
    {
        self.positions.len()
    }

    /// Build the world-space path from level data: each grid coordinate
    /// becomes the center of its cell.  Rejected when the path has
    /// fewer than two waypoints or a coordinate leaves the supported
    /// grid; the simulation must not start from such a level.
    pub fn from_level(level: &Level, tile: i64) -> (r: Result<Path, LevelError>)
        requires
            crate::cursor::tile_ok(tile as int),
        ensures
            r is Ok <==> level.path@.len() >= 2 && level_path_in_range(level.path@),
            r is Err ==> (r->Err_0 == LevelError::TooFewWaypoints <==> level.path@.len() < 2),
            r is Ok ==> {
                let p = r->Ok_0;
                &&& p.wf()
                &&& p.positions@.len() == level.path@.len()
                &&& forall|i: int|
                    0 <= i < level.path@.len() ==> {
                        let w = #[trigger] p.positions@[i].position;
                        &&& w.x == cell_center_spec(level.path@[i].x as int, tile as int)
                        &&& w.y == cell_center_spec(level.path@[i].y as int, tile as int)
                    }
            },
    {
        if level.path.len() < 2 {
            return Err(LevelError::TooFewWaypoints);
        }
        let mut positions: Vec<PathNode> = Vec::new();
        let mut i: usize = 0;
        while i < level.path.len()
            invariant
                0 <= i <= level.path@.len(),
                level.path@.len() >= 2,
                crate::cursor::tile_ok(tile as int),
                positions@.len() == i,
                forall|j: int|
                    0 <= j < i ==> {
                        let g = #[trigger] level.path@[j];
                        grid_coord_ok(g.x as int) && grid_coord_ok(g.y as int)
                    },
                forall|j: int|
                    0 <= j < i ==> {
                        let w = (#[trigger] positions@[j]).position;
                        &&& w.x == cell_center_spec(level.path@[j].x as int, tile as int)
                        &&& w.y == cell_center_spec(level.path@[j].y as int, tile as int)
                        &&& -PATH_LIMIT <= w.x <= PATH_LIMIT
                        &&& -PATH_LIMIT <= w.y <= PATH_LIMIT
                    },
            decreases level.path@.len() - i,
        {
            let g = level.path[i];
            if g.x < -GRID_LIMIT || g.x > GRID_LIMIT || g.y < -GRID_LIMIT || g.y > GRID_LIMIT {
                return Err(LevelError::WaypointOutOfRange);
            }
            proof {
                assert(-0x400_0000 <= g.x * tile <= 0x400_0000 && -0x400_0000 <= g.y * tile
                    <= 0x400_0000) by (nonlinear_arith)
                    requires
                        -GRID_LIMIT <= g.x <= GRID_LIMIT,
                        -GRID_LIMIT <= g.y <= GRID_LIMIT,
                        2 <= tile <= 0x1_0000,
                ;
            }
            let w = Vec2I { x: g.x * tile + tile / 2, y: g.y * tile + tile / 2 };
            positions.push(PathNode { position: w });
            i = i + 1;
        }
        let start = positions[0].position;
        let end = positions[positions.len() - 1].position;
        Ok(Path { start_position: start, end_position: end, positions })
    }
}

/// The world positions of the level's blocking decorations, in order:
/// the placement-validity pass treats each as an obstacle one tile
/// large.  A decoration outside the supported grid is dropped rather
/// than rejected: a stray decoration must not keep a level from
/// loading.
pub open spec fn blocking_decor_spec(decor: Seq<Decor>, tile: int) -> Seq<Vec2I>
    decreases decor.len(),
{
    if decor.len() == 0 {
        Seq::empty()
    } else {
        let rest = blocking_decor_spec(decor.drop_last(), tile);
        let d = decor.last();
        if d.blocks && grid_coord_ok(d.pos.x as int) && grid_coord_ok(d.pos.y as int) {
            rest.push(
                Vec2I {
                    x: cell_center_spec(d.pos.x as int, tile) as i64,
                    y: cell_center_spec(d.pos.y as int, tile) as i64,
                },
            )
        } else {
            rest
        }
    }
}

/// Collect the world positions of the blocking decorations of a level.
pub fn blocking_decor(level: &Level, tile: i64) -> (r: Vec<Vec2I>)
    requires
        crate::cursor::tile_ok(tile as int),
    ensures
        r@ == blocking_decor_spec(level.decor@, tile as int),
        r@.len() <= level.decor@.len(),
        forall|i: int|
            0 <= i < r@.len() ==> -PATH_LIMIT <= (#[trigger] r@[i]).x <= PATH_LIMIT && -PATH_LIMIT
                <= r@[i].y <= PATH_LIMIT,
{
    let mut out: Vec<Vec2I> = Vec::new();
    let mut i: usize = 0;
    while i < level.decor.len()
        invariant
            0 <= i <= level.decor@.len(),
            crate::cursor::tile_ok(tile as int),
            out@ == blocking_decor_spec(level.decor@.take(i as int), tile as int),
            out@.len() <= i,
            forall|j: int|
                0 <= j < out@.len() ==> -PATH_LIMIT <= (#[trigger] out@[j]).x <= PATH_LIMIT
                    && -PATH_LIMIT <= out@[j].y <= PATH_LIMIT,
        decreases level.decor@.len() - i,
    {
        let d = &level.decor[i];
        if d.blocks && -GRID_LIMIT <= d.pos.x && d.pos.x <= GRID_LIMIT && -GRID_LIMIT <= d.pos.y
            && d.pos.y <= GRID_LIMIT {
            proof {
                assert(-0x400_0000 <= d.pos.x * tile <= 0x400_0000 && -0x400_0000 <= d.pos.y * tile
                    <= 0x400_0000) by (nonlinear_arith)
                    requires
                        -GRID_LIMIT <= d.pos.x <= GRID_LIMIT,
                        -GRID_LIMIT <= d.pos.y <= GRID_LIMIT,
                        2 <= tile <= 0x1_0000,
                ;
            }
            out.push(Vec2I { x: d.pos.x * tile + tile / 2, y: d.pos.y * tile + tile / 2 });
        }
        proof {
            assert(level.decor@.take(i as int + 1).drop_last() =~= level.decor@.take(i as int));
            assert(level.decor@.take(i as int + 1).last() == level.decor@[i as int]);
        }
        i = i + 1;
    }
    proof {
        assert(level.decor@.take(level.decor@.len() as int) =~= level.decor@);
    }
    out
}

} // verus!

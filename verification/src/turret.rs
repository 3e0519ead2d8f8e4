//! Placed structures and their weapons, and the shop selection.
//!
//! A structure's kind fixes its footprint (one or two grid cells per
//! side) and which weapon it carries.  A weapon's kind fixes its firing
//! range and its firing rate; the rate is kept as the number of ticks
//! that must pass between shots.

use vstd::prelude::*;

use crate::cursor::tile_ok;
use crate::geom::{in_world, Vec2I};
use crate::projectile::ProjectileType;
use crate::tps_ok;

verus! {

/// The kinds of placeable structure.
#[derive(Clone, Copy, Debug, PartialEq, Eq, Structural)]
pub enum Turret {
    Turret1x1,
    Turret2x2,
}

impl Turret {
    /// The structure's footprint, in grid cells per side.
    pub open spec fn footprint_cells_spec(self) -> int {
        match self {
            Turret::Turret1x1 => 1,
            Turret::Turret2x2 => 2,
        }
    }

    /// The structure's footprint, in grid cells per side.
    pub fn footprint_cells(&self) -> (c: i64)
        ensures
            c == self.footprint_cells_spec(),
    {
        match self {
            Turret::Turret1x1 => 1,
            Turret::Turret2x2 => 2,
        }
    }

    /// The weapon a structure of this kind carries.
    pub open spec fn gun_spec(self) -> Gun {
        match self {
            Turret::Turret1x1 => Gun::Gun1,
            Turret::Turret2x2 => Gun::Gun2,
        }
    }

    /// The weapon a structure of this kind carries.
    pub fn gun(&self) -> (g: Gun)
        ensures
            g == self.gun_spec(),
    {
        match self {
            Turret::Turret1x1 => Gun::Gun1,
            Turret::Turret2x2 => Gun::Gun2,
        }
    }
}

/// The kinds of weapon.
#[derive(Clone, Copy, Debug, PartialEq, Eq, Structural)]
pub enum Gun {
    Gun1,
    Gun2,
}

impl Gun {
    /// The weapon's firing range, in tiles.
    pub open spec fn range_tiles_spec(self) -> int {
        match self {
            Gun::Gun1 => 5,
            Gun::Gun2 => 8,
        }
    }

    /// The weapon's firing range, in world units.
    pub open spec fn range_spec(self, tile: int) -> int {
        tile * self.range_tiles_spec()
    }

    /// The weapon's firing range, in world units.
    pub fn range(&self, tile: i64) -> (r: i64)
        requires
            tile_ok(tile as int),
        ensures
            r == self.range_spec(tile as int),
            0 < r <= 0x8_0000,
    {
        match self {
            Gun::Gun1 => tile * 5,
            Gun::Gun2 => tile * 8,
        }
    }

    /// How many ticks must pass after a shot before the weapon may fire
    /// again: the tick rate divided by the weapon's shots-per-second
    /// rate (nine fifths for the first kind, five halves for the
    /// second).
    pub open spec fn cooldown_spec(self, tps: int) -> int {
        match self {
            Gun::Gun1 => tps * 5 / 9,
            Gun::Gun2 => tps * 2 / 5,
        }
    }

    /// How many ticks must pass after a shot before the weapon may fire again.
    pub fn cooldown_ticks(&self, tps: i64) -> (c: i64)
        requires
            tps_ok(tps as int),
        ensures
            c == self.cooldown_spec(tps as int),
            0 <= c <= 0x8_0000,
    {
        let scaled: i64 = match self {
            Gun::Gun1 => tps * 5,
            Gun::Gun2 => tps * 2,
        };
        let den: i64 = match self {
            Gun::Gun1 => 9,
            Gun::Gun2 => 5,
        };
        proof {
            vstd::arithmetic::div_mod::lemma_div_pos_is_pos(scaled as int, den as int);
            vstd::arithmetic::div_mod::lemma_div_nonincreasing(scaled as int, den as int);
        }
        scaled / den
    }

    /// The kind of projectile this weapon fires.
    pub open spec fn projectile_spec(self) -> ProjectileType {
        match self {
            Gun::Gun1 => ProjectileType::ChefsKnife,
            Gun::Gun2 => ProjectileType::ChefsKnife,
        }
    }

    /// The kind of projectile this weapon fires.
    pub fn projectile(&self) -> (p: ProjectileType)
        ensures
            p == self.projectile_spec(),
    {
        ProjectileType::ChefsKnife
    }
}

/// A weapon's mutable firing state: the tick of its last shot.
#[derive(Clone, Copy, Debug, PartialEq, Eq, Structural)]
pub struct GunState {
    pub last_shot: u64,
}

impl GunState {
    /// A weapon that has never fired.
    pub fn new() -> (s: GunState)
        ensures
            s.last_shot == 0,
    {
        GunState { last_shot: 0 }
    }
}

/// The items the shop offers.
#[derive(Clone, Copy, Debug, PartialEq, Eq, Structural)]
pub enum MenuItem {
    Turret1x1,
    Turret2x2,
}

impl MenuItem {
    /// Every item the shop offers, in hotkey order.
    pub fn all() -> (r: [MenuItem; 2])
        ensures
            r@ == seq![MenuItem::Turret1x1, MenuItem::Turret2x2],
    {
        let r = [MenuItem::Turret1x1, MenuItem::Turret2x2];
        proof {
            assert(r@ =~= seq![MenuItem::Turret1x1, MenuItem::Turret2x2]);
        }
        r
    }

    /// The structure kind this item places.
    pub open spec fn turret_spec(self) -> Turret {
        match self {
            MenuItem::Turret1x1 => Turret::Turret1x1,
            MenuItem::Turret2x2 => Turret::Turret2x2,
        }
    }

    /// The structure kind this item places.
    pub fn turret(&self) -> (t: Turret)
        ensures
            t == self.turret_spec(),
    {
        match self {
            MenuItem::Turret1x1 => Turret::Turret1x1,
            MenuItem::Turret2x2 => Turret::Turret2x2,
        }
    }
}

/// The shop: which placeable item is currently selected.
pub struct Menu {
    pub current_item: MenuItem,
}

/// A placed structure with its co-located weapon: the structure's kind
/// and position are immutable once placed; the weapon's firing state
/// and the direction it faces change as it engages targets.  Keeping
/// the weapon inside the structure record means selling the structure
/// can never leave a stray weapon behind.
#[derive(Clone, Copy, Debug)]
pub struct Structure {
    pub kind: Turret,
    pub pos: Vec2I,
    pub gun: Gun,
    pub gun_state: GunState,
    pub facing: Vec2I,
}

impl Structure {
    /// The structure sits in the world and carries the weapon its kind
    /// prescribes, with a firing timestamp that is a plausible tick.
    pub open spec fn wf(self) -> bool {
        &&& in_world(self.pos)
        &&& self.gun == self.kind.gun_spec()
        &&& self.gun_state.last_shot <= 0x1000_0000_0000
    }

    /// The structure's collision footprint, in world units per side.
    pub open spec fn size_spec(self, tile: int) -> int {
        tile * self.kind.footprint_cells_spec()
    }

    /// The structure's collision footprint, in world units per side.
    pub fn size(&self, tile: i64) -> (s: i64)
        requires
            tile_ok(tile as int),
        ensures
            s == self.size_spec(tile as int),
            0 < s <= 0x2_0000,
    {
        tile * self.kind.footprint_cells()
    }

    /// A structure of the given kind placed at `pos`, with its weapon
    /// fresh and facing nowhere in particular.
    pub fn new(kind: Turret, pos: Vec2I) -> (st: Structure)
        requires
            in_world(pos),
        ensures
            st.wf(),
            st.kind == kind,
            st.pos == pos,
            st.gun == kind.gun_spec(),
            st.gun_state.last_shot == 0,
            st.facing == (Vec2I { x: 0, y: 0 }),
    {
        Structure {
            kind,
            pos,
            gun: kind.gun(),
            gun_state: GunState::new(),
            facing: Vec2I { x: 0, y: 0 },
        }
    }
}

} // verus!

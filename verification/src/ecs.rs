//! Entity-component store: parallel arrays indexed by entity, with
//! free-index recycling, and the systems that walk them in lockstep.

use vstd::prelude::*;
use vstd::arithmetic::div_mod::lemma_multiply_divide_lt;
use vstd::arithmetic::mul::lemma_mul_inequality;
use crate::game::Camera;
use crate::inputs::Input;
use crate::game::Player;
use crate::game::PlayerModel;
use crate::game::RCError;
use crate::game::TileDimensions;
use crate::game::MOVEMENT_WINDOW;
use crate::rhythm::beat_length_spec;
use crate::rhythm::Rhythm;
use crate::rhythm::RhythmModel;
use crate::rhythm::MINUTE_US;
use crate::tiles::transparent;
use crate::tiles::Color;
use crate::tiles::Tile;
use crate::tiles::TileMap;
use crate::tiles::TileMapModel;
use crate::tiles::TileModel;

verus! {

/// A pixel-space position.
#[derive(Clone, Copy, PartialEq, Eq, Debug)]
pub struct Position(pub i64, pub i64);

/// An axis-aligned pixel rectangle.
#[derive(Clone, Copy, PartialEq, Eq, Debug)]
pub struct Rect {
    /// Left edge.
    pub x: i64,
    /// Top edge.
    pub y: i64,
    /// Width in pixels.
    pub width: i64,
    /// Height in pixels.
    pub height: i64,
}

/// An opaque handle: the index of one entity's row across all component
/// arrays.  Handles held across a `clear_entity` of the same index go
/// stale and silently address whatever occupies the slot next; callers
/// must not retain them.
#[derive(Clone, Copy, PartialEq, Eq, Debug)]
pub struct Entity(pub usize);

/// Mathematical state of the component store: one entry per entity in
/// each parallel array, plus the recyclable indices.
#[verifier::ext_equal]
pub struct ComponentsModel {
    /// Pixel position of every entity.
    pub positions: Seq<Position>,
    /// Rhythm of every entity, if it has one.
    pub rhythms: Seq<Option<RhythmModel>>,
    /// Player data of every entity, if it is the player.
    pub players: Seq<Option<PlayerModel>>,
    /// Tile data of every entity, if it is a tile.
    pub tiles: Seq<Option<TileModel>>,
    /// Bounding area of every entity, if it has one.
    pub areas: Seq<Option<Rect>>,
    /// Indices available for reuse.
    pub free: Seq<usize>,
}

impl ComponentsModel {
    /// Number of slots; every array has this length.
    pub open spec fn len(self) -> nat {
        self.positions.len()
    }

    /// All arrays share one length, the free indices point at slots that
    /// hold only defaults, no free index repeats, and every stored
    /// rhythm, player and tile is well formed.
    pub open spec fn wf(self) -> bool {
        &&& self.rhythms.len() == self.len()
        &&& self.players.len() == self.len()
        &&& self.tiles.len() == self.len()
        &&& self.areas.len() == self.len()
        &&& forall|i: int|
            0 <= i < self.free.len() ==> (#[trigger] self.free[i]) < self.len()
                && self.slot_cleared(self.free[i] as int)
        &&& forall|i: int, j: int| 0 <= i < j < self.free.len() ==> self.free[i] != self.free[j]
        &&& forall|i: int|
            0 <= i < self.len() ==> ((#[trigger] self.rhythms[i]) matches Some(r) ==> r.wf())
        &&& forall|i: int|
            0 <= i < self.len() ==> ((#[trigger] self.players[i]) matches Some(p) ==> p.wf())
        &&& forall|i: int|
            0 <= i < self.len() ==> ((#[trigger] self.tiles[i]) matches Some(t) ==> t.wf())
    }

    /// Slot `e` holds only defaults.
    pub open spec fn slot_cleared(self, e: int) -> bool {
        &&& self.positions[e] == Position(0, 0)
        &&& self.rhythms[e] is None
        &&& self.players[e] is None
        &&& self.tiles[e] is None
        &&& self.areas[e] is None
    }
}

/// The store and chosen index after one allocation: the most recently
/// freed index is reused if one exists, else every array grows by one
/// default slot.
pub open spec fn alloc_result(c: ComponentsModel) -> (ComponentsModel, int) {
    if c.free.len() > 0 {
        (ComponentsModel { free: c.free.drop_last(), ..c }, c.free.last() as int)
    } else {
        (
            ComponentsModel {
                positions: c.positions.push(Position(0, 0)),
                rhythms: c.rhythms.push(None),
                players: c.players.push(None),
                tiles: c.tiles.push(None),
                areas: c.areas.push(None),
                free: c.free,
            },
            c.len() as int,
        )
    }
}

/// The store after slot `e` is cleared and marked reusable; clearing an
/// already-free slot changes nothing twice.
pub open spec fn cleared(c: ComponentsModel, e: usize) -> ComponentsModel {
    ComponentsModel {
        positions: c.positions.update(e as int, Position(0, 0)),
        rhythms: c.rhythms.update(e as int, None),
        players: c.players.update(e as int, None),
        tiles: c.tiles.update(e as int, None),
        areas: c.areas.update(e as int, None),
        free: if c.free.contains(e) {
            c.free
        } else {
            c.free.push(e)
        },
    }
}

/// Clearing a slot twice leaves exactly the store that clearing it once
/// leaves: the slot is already default and its index already free.
pub proof fn lemma_clear_idempotent(c: ComponentsModel, e: usize)
    requires
        c.wf(),
        e < c.len(),
    ensures
        cleared(cleared(c, e), e) == cleared(c, e),
{
    if !c.free.contains(e) {
        assert(c.free.push(e)[c.free.len() as int] == e);
        assert(cleared(c, e).free.contains(e));
    }
    let once = cleared(c, e);
    let twice = cleared(once, e);
    assert(twice.positions =~= once.positions);
    assert(twice.rhythms =~= once.rhythms);
    assert(twice.players =~= once.players);
    assert(twice.tiles =~= once.tiles);
    assert(twice.areas =~= once.areas);
    assert(twice.free == once.free);
    assert(twice =~= once);
}

/// The store after `m` allocations in a row.
pub open spec fn allocated(c: ComponentsModel, m: nat) -> ComponentsModel
    decreases m,
{
    if m == 0 {
        c
    } else {
        alloc_result(allocated(c, (m - 1) as nat)).0
    }
}

/// Growth bound for repeated allocation: every recyclable index is used
/// up before any array grows, so `m` allocations leave exactly
/// `max(len, len - free + m)` slots.  In particular, allocating, freeing
/// part of the slots, and allocating again never holds more slots than
/// the larger of the two demands.
pub proof fn lemma_allocation_bound(c: ComponentsModel, m: nat)
    ensures
        allocated(c, m).len() == if m <= c.free.len() {
            c.len() as int
        } else {
            c.len() + m - c.free.len()
        },
        allocated(c, m).free.len() == if m <= c.free.len() {
            c.free.len() - m
        } else {
            0int
        },
    decreases m,
{
    if m > 0 {
        lemma_allocation_bound(c, (m - 1) as nat);
    }
}

/// Whether `v` holds `x`.
fn vec_contains(v: &Vec<usize>, x: usize) -> (r: bool)
    ensures
        r == v@.contains(x),
{
    let n = v.len();
    let mut i: usize = 0;
    while i < n
        invariant
            n == v@.len(),
            i <= n,
            forall|j: int| 0 <= j < i ==> v@[j] != x,
        decreases n - i,
    {
        if v[i] == x {
            proof {
                assert(v@[i as int] == x);
            }
            return true;
        }
        i = i + 1;
    }
    false
}

/// The component store: parallel arrays, one slot per live-or-recycled
/// entity index.
pub struct Components {
    /// Pixel position of every entity.
    pub positions: Vec<Position>,
    /// Rhythm of every entity, if it has one.
    pub rhythms: Vec<Option<Rhythm>>,
    /// Player data of every entity, if it is the player.
    pub players: Vec<Option<Player>>,
    /// Tile data of every entity, if it is a tile.
    pub tiles: Vec<Option<Tile>>,
    /// Bounding area of every entity, if it has one.
    pub areas: Vec<Option<Rect>>,
    free_entities: Vec<usize>,
}

impl View for Components {
    type V = ComponentsModel;

    closed spec fn view(&self) -> ComponentsModel {
        ComponentsModel {
            positions: self.positions@,
            rhythms: self.rhythms@.map_values(
                |r: Option<Rhythm>|
                    match r {
                        Some(x) => Some(x@),
                        None => None,
                    },
            ),
            players: self.players@.map_values(
                |p: Option<Player>|
                    match p {
                        Some(x) => Some(x@),
                        None => None,
                    },
            ),
            tiles: self.tiles@.map_values(
                |t: Option<Tile>|
                    match t {
                        Some(x) => Some(x@),
                        None => None,
                    },
            ),
            areas: self.areas@,
            free: self.free_entities@,
        }
    }
}

impl Default for Components {
    /// An empty store.
    fn default() -> (r: Components)
        ensures
            r@.len() == 0,
            r@.free.len() == 0,
            r@.wf(),
    {
        Components {
            positions: Vec::new(),
            rhythms: Vec::new(),
            players: Vec::new(),
            tiles: Vec::new(),
            areas: Vec::new(),
            free_entities: Vec::new(),
        }
    }
}

impl Components {
    /// Allocate an entity: reuse the most recently freed index if one
    /// exists, else grow every array by one default slot.  Either way the
    /// slot handed out holds only defaults.  Amortized constant time; it
    /// cannot fail.
    pub fn new_entity(&mut self) -> (e: Entity)
        requires
            old(self)@.wf(),
        ensures
            final(self)@ == alloc_result(old(self)@).0,
            e.0 == alloc_result(old(self)@).1,
            e.0 < final(self)@.len(),
            final(self)@.slot_cleared(e.0 as int),
            final(self)@.wf(),
    {
        match self.free_entities.pop() {
            Some(idx) => {
                proof {
                    assert(old(self)@.free[old(self)@.free.len() - 1] < old(self)@.len());
                    assert(self@ =~= alloc_result(old(self)@).0);
                }
                Entity(idx)
            },
            None => {
                let idx = self.positions.len();
                self.positions.push(Position(0, 0));
                self.rhythms.push(None);
                self.players.push(None);
                self.tiles.push(None);
                self.areas.push(None);
                proof {
                    assert(self@.rhythms =~= old(self)@.rhythms.push(None::<RhythmModel>));
                    assert(self@.players =~= old(self)@.players.push(None::<PlayerModel>));
                    assert(self@.tiles =~= old(self)@.tiles.push(None::<TileModel>));
                    assert(self@ =~= alloc_result(old(self)@).0);
                }
                Entity(idx)
            },
        }
    }

    /// Reset every slot of `entity` to its default and mark the index
    /// reusable.  Clearing the same entity twice is idempotent.
    pub fn clear_entity(&mut self, entity: Entity)
        requires
            old(self)@.wf(),
            entity.0 < old(self)@.len(),
        ensures
            final(self)@ == cleared(old(self)@, entity.0),
            final(self)@.len() == old(self)@.len(),
            final(self)@.slot_cleared(entity.0 as int),
            final(self)@.wf(),
    {
        self.positions.set(entity.0, Position(0, 0));
        self.rhythms.set(entity.0, None);
        self.players.set(entity.0, None);
        self.tiles.set(entity.0, None);
        self.areas.set(entity.0, None);
        if !vec_contains(&self.free_entities, entity.0) {
            self.free_entities.push(entity.0);
        }
        proof {
            assert(self@.rhythms =~= old(self)@.rhythms.update(entity.0 as int, None::<RhythmModel>));
            assert(self@.players =~= old(self)@.players.update(entity.0 as int, None::<PlayerModel>));
            assert(self@.tiles =~= old(self)@.tiles.update(entity.0 as int, None::<TileModel>));
            assert(self@ =~= cleared(old(self)@, entity.0));
        }
    }

    /// The components of entity `i`, read in lockstep across all arrays.
    /// A fresh walk over `0..len` re-reads the store from the start and
    /// leaves the free indices untouched.
    pub fn tie(&self, i: usize) -> (r: (
        &Position,
        &Option<Rhythm>,
        &Option<Player>,
        &Option<Tile>,
        &Option<Rect>,
    ))
        requires
            self@.wf(),
            i < self@.len(),
        ensures
            *r.0 == self@.positions[i as int],
            (*r.1 matches Some(x) ==> self@.rhythms[i as int] == Some(x@)) && (*r.1 is None
                ==> self@.rhythms[i as int] is None),
            (*r.2 matches Some(x) ==> self@.players[i as int] == Some(x@)) && (*r.2 is None
                ==> self@.players[i as int] is None),
            (*r.3 matches Some(x) ==> self@.tiles[i as int] == Some(x@)) && (*r.3 is None
                ==> self@.tiles[i as int] is None),
            *r.4 == self@.areas[i as int],
    {
        (&self.positions[i], &self.rhythms[i], &self.players[i], &self.tiles[i], &self.areas[i])
    }

    /// Number of slots in the store.
    pub fn len(&self) -> (n: usize)
        requires
            self@.wf(),
        ensures
            n == self@.len(),
    {
        self.positions.len()
    }
}

/// The store after the player at `e` issues one movement command: the
/// position moves by `direction` exactly when the entity's rhythm is
/// within the movement window, or unconditionally when it has no rhythm.
/// This pixel-space path gates on the rhythm window alone.
pub open spec fn player_moved(c: ComponentsModel, e: int, d: Position) -> ComponentsModel {
    let gate = match c.rhythms[e] {
        Some(r) => r.in_window(MOVEMENT_WINDOW as int),
        None => true,
    };
    if gate {
        ComponentsModel {
            positions: c.positions.update(
                e,
                Position(
                    (c.positions[e].0 + d.0) as i64,
                    (c.positions[e].1 + d.1) as i64,
                ),
            ),
            ..c
        }
    } else {
        c
    }
}

/// Move the player entity by `direction`, gated by its rhythm alone: a
/// command is accepted whenever the entity's rhythm is within the
/// movement window, or always when it has no rhythm.  This pixel-space
/// path carries no once-per-beat debounce and no map clamping; the full
/// movement gating of the grid game stands in `Player::move_`, which the
/// orchestrator drives.
pub fn move_player(components: &mut Components, player_entity: Entity, direction: Position)
    requires
        old(components)@.wf(),
        player_entity.0 < old(components)@.len(),
        old(components)@.players[player_entity.0 as int] is Some,
        i64::MIN <= old(components)@.positions[player_entity.0 as int].0 + direction.0 <= i64::MAX,
        i64::MIN <= old(components)@.positions[player_entity.0 as int].1 + direction.1 <= i64::MAX,
    ensures
        final(components)@ == player_moved(old(components)@, player_entity.0 as int, direction),
        final(components)@.wf(),
{
    let e = player_entity.0;
    let gate = match &components.rhythms[e] {
        Some(rhythm) => {
            proof {
                assert(components@.rhythms[e as int] matches Some(rm) && rm == rhythm@
                    && rm.wf());
            }
            rhythm.in_window(MOVEMENT_WINDOW)
        },
        None => true,
    };
    if gate {
        let p = components.positions[e];
        components.positions.set(e, Position(p.0 + direction.0, p.1 + direction.1));
    }
    proof {
        assert(components@ =~= player_moved(old(components)@, player_entity.0 as int, direction));
    }
}

/// The pixel position and effective color of every tile entity among the
/// first `n` slots, in index order: the tile's base color, fully
/// transparent while the entity's rhythm is off its beat.
pub open spec fn tile_draw_list(c: ComponentsModel, n: int) -> Seq<(Position, Color)>
    decreases n,
{
    if n <= 0 {
        Seq::empty()
    } else {
        let rest = tile_draw_list(c, n - 1);
        match c.tiles[n - 1] {
            Some(t) => rest.push((c.positions[n - 1], entity_color(c, n - 1))),
            None => rest,
        }
    }
}

/// The color entity `i` shows: the tile's base color while the entity's
/// rhythm is on its beat or absent, fully transparent otherwise.  The
/// entity-level rhythm is the tile's clock in this world — bound to the
/// tempo at load time and advanced every frame — so it, and not the copy
/// embedded in the stored tile, decides visibility.
pub open spec fn entity_color(c: ComponentsModel, i: int) -> Color {
    let base = match c.tiles[i] {
        Some(t) => t.color,
        None => transparent(),
    };
    match c.rhythms[i] {
        Some(r) => if r.is_on() {
            base
        } else {
            transparent()
        },
        None => base,
    }
}

/// The pixel position and effective color of every tile entity, in index
/// order, ready for the host to render.
pub fn draw_tiles(components: &Components) -> (out: Vec<(Position, Color)>)
    requires
        components@.wf(),
    ensures
        out@ == tile_draw_list(components@, components@.len() as int),
{
    let n = components.tiles.len();
    let mut out: Vec<(Position, Color)> = Vec::new();
    let mut i: usize = 0;
    while i < n
        invariant
            components@.wf(),
            n == components@.len(),
            i <= n,
            out@ == tile_draw_list(components@, i as int),
        decreases n - i,
    {
        match &components.tiles[i] {
            Some(t) => {
                let color = match &components.rhythms[i] {
                    Some(r) => {
                        proof {
                            assert(components@.rhythms[i as int] matches Some(rm) && rm.wf());
                        }
                        if r.on() {
                            t.color
                        } else {
                            Color { r: 0, g: 0, b: 0, a: 0 }
                        }
                    },
                    None => t.color,
                };
                out.push((components.positions[i], color));
            },
            None => {},
        }
        i = i + 1;
    }
    out
}

/// The pixel position of every player entity among the first `n` slots.
pub open spec fn player_draw_list(c: ComponentsModel, n: int) -> Seq<Position>
    decreases n,
{
    if n <= 0 {
        Seq::empty()
    } else {
        let rest = player_draw_list(c, n - 1);
        match c.players[n - 1] {
            Some(p) => rest.push(c.positions[n - 1]),
            None => rest,
        }
    }
}

/// The pixel position of every player entity, in index order, ready for
/// the host to render a pulsing circle at.
pub fn draw_player(components: &Components) -> (out: Vec<Position>)
    requires
        components@.wf(),
    ensures
        out@ == player_draw_list(components@, components@.len() as int),
{
    let n = components.players.len();
    let mut out: Vec<Position> = Vec::new();
    let mut i: usize = 0;
    while i < n
        invariant
            components@.wf(),
            n == components@.len(),
            i <= n,
            out@ == player_draw_list(components@, i as int),
        decreases n - i,
    {
        match &components.players[i] {
            Some(_) => {
                out.push(components.positions[i]);
            },
            None => {},
        }
        i = i + 1;
    }
    out
}

/// The store with every rhythm advanced by `dt` microseconds.
pub open spec fn rhythms_advanced(c: ComponentsModel, dt: int) -> ComponentsModel {
    ComponentsModel {
        rhythms: c.rhythms.map_values(
            |r: Option<RhythmModel>|
                match r {
                    Some(x) => Some(x.advanced(dt)),
                    None => None,
                },
        ),
        ..c
    }
}

/// Advance every rhythm in the store by `delta_t` microseconds.
pub fn update_rhythms(components: &mut Components, delta_t: i64)
    requires
        old(components)@.wf(),
    ensures
        final(components)@ == rhythms_advanced(old(components)@, delta_t as int),
        final(components)@.wf(),
{
    let n = components.rhythms.len();
    let mut i: usize = 0;
    while i < n
        invariant
            n == old(components)@.len(),
            i <= n,
            components@.positions == old(components)@.positions,
            components@.players == old(components)@.players,
            components@.tiles == old(components)@.tiles,
            components@.areas == old(components)@.areas,
            components@.free == old(components)@.free,
            components@.rhythms.len() == n,
            old(components)@.wf(),
            forall|j: int|
                0 <= j < i ==> (#[trigger] components@.rhythms[j]) == (match old(
                    components,
                )@.rhythms[j] {
                    Some(x) => Some(x.advanced(delta_t as int)),
                    None => None::<RhythmModel>,
                }),
            forall|j: int|
                i <= j < n ==> (#[trigger] components@.rhythms[j]) == old(components)@.rhythms[j],
        decreases n - i,
    {
        let ghost pre = components@;
        match &components.rhythms[i] {
            Some(r) => {
                proof {
                    assert(components@.rhythms[i as int] == old(components)@.rhythms[i as int]);
                    assert(old(components)@.rhythms[i as int] matches Some(rm) && rm == r@
                        && rm.wf());
                }
                let mut r2 = r.clone();
                r2.update(delta_t);
                components.rhythms.set(i, Some(r2));
                proof {
                    assert(components@.rhythms =~= pre.rhythms.update(i as int, Some(r2@)));
                }
            },
            None => {},
        }
        i = i + 1;
    }
    proof {
        assert(components@.rhythms =~= rhythms_advanced(old(components)@, delta_t as int).rhythms);
        assert(components@ =~= rhythms_advanced(old(components)@, delta_t as int));
    }
}

/// The layout can place a `rows x cols` grid, and the sums it computes,
/// without leaving 32-bit pixel coordinates.
pub open spec fn dims_fit(d: TileDimensions, rows: int, cols: int) -> bool {
    &&& d.sane()
    &&& d.tile_width + d.row_gap <= i32::MAX
    &&& d.tile_height + d.column_gap <= i32::MAX
    &&& rows * (d.tile_width + d.row_gap) <= i32::MAX
    &&& cols * (d.tile_height + d.column_gap) <= i32::MAX
}

/// Whether the layout can place a `rows x cols` grid in 32-bit pixels.
fn check_dims_fit(d: &TileDimensions, rows: u128, cols: u128) -> (r: bool)
    ensures
        r == dims_fit(*d, rows as int, cols as int),
{
    if d.tile_width < 1 || d.tile_height < 1 {
        return false;
    }
    if d.row_gap < 0 || d.row_gap > d.tile_width {
        return false;
    }
    if d.column_gap < 0 || d.column_gap > d.tile_height {
        return false;
    }
    let w: i64 = d.tile_width as i64 + d.row_gap as i64;
    let h: i64 = d.tile_height as i64 + d.column_gap as i64;
    if w > i32::MAX as i64 || h > i32::MAX as i64 {
        return false;
    }
    if rows > i32::MAX as u128 || cols > i32::MAX as u128 {
        proof {
            assert(rows as int * ((d.tile_width + d.row_gap) as int) > i32::MAX
                || cols as int * ((d.tile_height + d.column_gap) as int) > i32::MAX)
                by (nonlinear_arith)
                requires
                    1 <= d.tile_width + d.row_gap,
                    1 <= d.tile_height + d.column_gap,
                    rows > i32::MAX || cols > i32::MAX,
                    0 <= rows,
                    0 <= cols,
            {
            }
        }
        return false;
    }
    proof {
        assert(rows as int * (w as int) < 0x8000_0000_0000_0000 && cols as int * (h as int)
            < 0x8000_0000_0000_0000) by (nonlinear_arith)
            requires
                0 <= rows <= i32::MAX,
                0 <= cols <= i32::MAX,
                0 <= w <= i32::MAX,
                0 <= h <= i32::MAX,
        {
        }
    }
    if rows * (w as u128) > i32::MAX as u128 {
        return false;
    }
    if cols * (h as u128) > i32::MAX as u128 {
        return false;
    }
    true
}

/// The store after one map cell is loaded: an entity is allocated and its
/// position, tile and tempo-bound rhythm are filled in.
pub open spec fn cell_loaded(c: ComponentsModel, pos: Position, t: TileModel, d: int) -> ComponentsModel {
    let a = alloc_result(c);
    ComponentsModel {
        positions: a.0.positions.update(a.1, pos),
        tiles: a.0.tiles.update(a.1, Some(t)),
        rhythms: a.0.rhythms.update(
            a.1,
            match t.rhythm {
                Some(r) => Some(r.with_duration(d)),
                None => None,
            },
        ),
        ..a.0
    }
}

/// The store after the first `k` cells of the map, taken in column-major
/// order, are loaded as tile entities at their pixel positions.
pub open spec fn cells_loaded(
    c: ComponentsModel,
    t: TileMapModel,
    dims: TileDimensions,
    d: int,
    k: nat,
) -> ComponentsModel
    decreases k,
{
    if k == 0 {
        c
    } else {
        let prev = cells_loaded(c, t, dims, d, (k - 1) as nat);
        let r = (k - 1) % t.rows;
        let cc = (k - 1) / t.rows;
        let tl = dims.top_left_spec(r, cc);
        cell_loaded(prev, Position(tl.0 as i64, tl.1 as i64), t.tile_at(r, cc), d)
    }
}

/// The store after every tile-bearing slot among the first `k` is cleared
/// and freed.
pub open spec fn map_cleared(c: ComponentsModel, k: nat) -> ComponentsModel
    decreases k,
{
    if k == 0 {
        c
    } else {
        let prev = map_cleared(c, (k - 1) as nat);
        if c.tiles[k - 1] is Some {
            cleared(prev, (k - 1) as usize)
        } else {
            prev
        }
    }
}

/// The store after a player entity is added: an entity is allocated and
/// its player data, pixel position and one-beat pulse are filled in.
pub open spec fn player_added(c: ComponentsModel, pos: Position, p: PlayerModel, tempo: int) -> ComponentsModel {
    let a = alloc_result(c);
    ComponentsModel {
        positions: a.0.positions.update(a.1, pos),
        players: a.0.players.update(a.1, Some(p)),
        rhythms: a.0.rhythms.update(
            a.1,
            Some(
                RhythmModel {
                    length: 1,
                    duration: beat_length_spec(tempo),
                    time: 0,
                    beats: seq![0int],
                },
            ),
        ),
        ..a.0
    }
}

/// Mathematical state of the arena-style game wrapper.
#[verifier::ext_equal]
pub struct WorldModel {
    /// The component store.
    pub components: ComponentsModel,
    /// Pixel layout of the tile grid, once configured.
    pub dimensions: Option<TileDimensions>,
    /// The loaded map, if any.
    pub map: Option<TileMapModel>,
    /// The tempo in beats per minute.
    pub tempo: u32,
    /// The host's view transform, once configured.
    pub camera: Option<Camera>,
}

impl WorldModel {
    /// The store, and the map where present, are well formed.
    pub open spec fn wf(self) -> bool {
        &&& self.components.wf()
        &&& self.map matches Some(m) ==> m.wf()
    }
}

/// An arena-style game: a component store driven by a tile map.
pub struct Game {
    components: Components,
    dimensions: Option<TileDimensions>,
    map: Option<TileMap>,
    tempo: u32,
    camera: Option<Camera>,
}

impl View for Game {
    type V = WorldModel;

    closed spec fn view(&self) -> WorldModel {
        WorldModel {
            components: self.components@,
            dimensions: self.dimensions,
            map: match self.map {
                Some(ref m) => Some(m@),
                None => None,
            },
            tempo: self.tempo,
            camera: self.camera,
        }
    }
}

impl Game {
    /// A game with an empty store, the given tempo and tile layout, and
    /// no map or camera yet.
    pub fn new(tempo: u32, tile_dimensions: TileDimensions) -> (g: Game)
        ensures
            g@.components.len() == 0,
            g@.components.free.len() == 0,
            g@.dimensions == Some(tile_dimensions),
            g@.map is None,
            g@.tempo == tempo,
            g@.camera is None,
            g@.wf(),
    {
        Game {
            components: Components::default(),
            dimensions: Some(tile_dimensions),
            map: None,
            tempo,
            camera: None,
        }
    }

    /// Clear every tile-bearing entity, freeing its index; the player is
    /// never a tile entity, so it survives.
    fn clear_map(&mut self)
        requires
            old(self)@.wf(),
        ensures
            final(self)@.components == map_cleared(
                old(self)@.components,
                old(self)@.components.len(),
            ),
            final(self)@.dimensions == old(self)@.dimensions,
            final(self)@.map == old(self)@.map,
            final(self)@.tempo == old(self)@.tempo,
            final(self)@.camera == old(self)@.camera,
            final(self)@.wf(),
    {
        let n = self.components.tiles.len();
        let mut i: usize = 0;
        while i < n
            invariant
                old(self)@.wf(),
                n == old(self)@.components.len(),
                i <= n,
                self@.components == map_cleared(old(self)@.components, i as nat),
                self@.components.len() == n,
                self@.components.wf(),
                self@.dimensions == old(self)@.dimensions,
                self@.map == old(self)@.map,
                self@.tempo == old(self)@.tempo,
                self@.camera == old(self)@.camera,
                forall|j: int|
                    i <= j < n ==> (#[trigger] self@.components.tiles[j]) == old(
                        self,
                    )@.components.tiles[j],
            decreases n - i,
        {
            proof {
                assert(self@.components.tiles[i as int] == old(self)@.components.tiles[i as int]);
            }
            if self.components.tiles[i].is_some() {
                proof {
                    assert(old(self)@.components.tiles[i as int] is Some);
                }
                self.components.clear_entity(Entity(i));
            } else {
                proof {
                    assert(old(self)@.components.tiles[i as int] is None);
                }
            }
            proof {
                assert(self@.components =~= map_cleared(old(self)@.components, (i + 1) as nat));
            }
            i = i + 1;
        }
    }

    /// Replace the configured tile layout.
    pub fn set_dimensions(&mut self, dimensions: TileDimensions)
        ensures
            final(self)@ == (WorldModel { dimensions: Some(dimensions), ..old(self)@ }),
    {
        self.dimensions = Some(dimensions);
    }

    /// Configure the host's view transform.
    pub fn add_camera(&mut self, camera: Camera)
        ensures
            final(self)@ == (WorldModel { camera: Some(camera), ..old(self)@ }),
    {
        self.camera = Some(camera);
    }

    /// Replace the tempo used for newly loaded maps and players.
    pub fn set_tempo(&mut self, bpm: u32)
        ensures
            final(self)@ == (WorldModel { tempo: bpm, ..old(self)@ }),
    {
        self.tempo = bpm;
    }

    /// Load a parsed map: clear any previous tile entities, then allocate
    /// one entity per cell with its pixel position and its rhythm bound to
    /// the game's tempo.  Errs with `Configuration` when the layout or
    /// tempo is missing or cannot place the grid, and with `MapFormat` on
    /// a rhythm whose measure cannot carry the tempo; an error leaves the
    /// game unchanged.
    #[verifier::loop_isolation(false)]
    pub fn load_map(&mut self, map: TileMap) -> (r: Result<(), RCError>)
        requires
            old(self)@.wf(),
            map@.wf(),
        ensures
            r is Ok <==> (old(self)@.dimensions matches Some(dm) && 1 <= old(self)@.tempo
                <= MINUTE_US && map@.tempo_bindable() && dims_fit(dm, map@.rows, map@.cols)),
            r is Err ==> final(self)@ == old(self)@ && (r == Err::<(), RCError>(RCError::MapFormat)
                || r == Err::<(), RCError>(RCError::Configuration)),
            r is Ok ==> {
                &&& final(self)@.components == cells_loaded(
                    (if old(self)@.map is Some {
                        map_cleared(old(self)@.components, old(self)@.components.len())
                    } else {
                        old(self)@.components
                    }),
                    map@,
                    old(self)@.dimensions->0,
                    beat_length_spec(old(self)@.tempo as int),
                    map@.cells.len(),
                )
                &&& final(self)@.map == Some(map@)
                &&& final(self)@.dimensions == old(self)@.dimensions
                &&& final(self)@.tempo == old(self)@.tempo
                &&& final(self)@.camera == old(self)@.camera
                &&& final(self)@.wf()
            },
    {
        let dims = match &self.dimensions {
            Some(d) => *d,
            None => {
                return Err(RCError::Configuration);
            },
        };
        let tempo = self.tempo;
        if tempo < 1 || (tempo as u64) > MINUTE_US {
            return Err(RCError::Configuration);
        }
        if !map.can_bind_tempo() {
            return Err(RCError::MapFormat);
        }
        let rows = map.num_rows();
        let cols = map.num_columns();
        if !check_dims_fit(&dims, rows as u128, cols as u128) {
            return Err(RCError::Configuration);
        }
        if self.map.is_some() {
            self.clear_map();
        }
        let ghost base = self@.components;
        let ghost d = beat_length_spec(tempo as int);
        let cells = map.enumerate_column_major();
        let n = cells.len();
        let mut k: usize = 0;
        while k < n
            invariant
                k <= n,
                self@.components == cells_loaded(base, map@, dims, d, k as nat),
                self@.components.wf(),
                self@.dimensions == old(self)@.dimensions,
                self@.map == old(self)@.map,
                self@.tempo == old(self)@.tempo,
                self@.camera == old(self)@.camera,
            decreases n - k,
        {
            let ghost prev = self@.components;
            let pair = &cells[k];
            let rr = pair.0.0;
            let cc = pair.0.1;
            proof {
                assert(map@.cells.len() == map@.rows * map@.cols);
                assert(map@.rows >= 1 && map@.cols >= 1) by (nonlinear_arith)
                    requires
                        0 <= map@.rows,
                        0 <= map@.cols,
                        map@.rows * map@.cols > k,
                        0 <= k,
                {
                }
                assert(k as int / map@.rows < map@.cols) by {
                    lemma_multiply_divide_lt(k as int, map@.rows, map@.cols);
                };
                assert(map@.rows <= i32::MAX && map@.cols <= i32::MAX) by (nonlinear_arith)
                    requires
                        1 <= dims.tile_width + dims.row_gap,
                        1 <= dims.tile_height + dims.column_gap,
                        1 <= map@.rows,
                        1 <= map@.cols,
                        map@.rows * ((dims.tile_width + dims.row_gap) as int) <= i32::MAX,
                        map@.cols * ((dims.tile_height + dims.column_gap) as int) <= i32::MAX,
                {
                }
                lemma_mul_inequality(
                    rr as int + 1,
                    map@.rows,
                    (dims.tile_width + dims.row_gap) as int,
                );
                lemma_mul_inequality(
                    cc as int + 1,
                    map@.cols,
                    (dims.tile_height + dims.column_gap) as int,
                );
                assert((rr as int + 1) * ((dims.tile_width + dims.row_gap) as int) >= rr as int
                    * ((dims.tile_width + dims.row_gap) as int) + 1) by (nonlinear_arith)
                    requires
                        1 <= dims.tile_width + dims.row_gap,
                {
                }
                assert((cc as int + 1) * ((dims.tile_height + dims.column_gap) as int) >= cc as int
                    * ((dims.tile_height + dims.column_gap) as int) + 1) by (nonlinear_arith)
                    requires
                        1 <= dims.tile_height + dims.column_gap,
                {
                }
                crate::tiles::lemma_cell_index_bounds(
                    k as int % map@.rows,
                    k as int / map@.rows,
                    map@.rows,
                    map@.cols,
                );
                assert(map@.palette[map@.cells[(k as int % map@.rows) * map@.cols + (
                k as int / map@.rows)] as int].wf());
                assert(map@.tile_at(k as int % map@.rows, k as int / map@.rows).wf());
            }
            let e = self.components.new_entity();
            let ghost mid = self@.components;
            let (px, py) = dims.top_left(rr as i32, cc as i32);
            self.components.positions.set(e.0, Position(px as i64, py as i64));
            let t2 = pair.1.clone();
            let rhythm: Option<Rhythm> = match &pair.1.rhythm {
                Some(rh) => {
                    let mut r2 = rh.clone();
                    r2.set_tempo(tempo);
                    Some(r2)
                },
                None => None,
            };
            self.components.tiles.set(e.0, Some(t2));
            self.components.rhythms.set(e.0, rhythm);
            proof {
                let pos = Position(px as i64, py as i64);
                let tm = map@.tile_at(k as int % map@.rows, k as int / map@.rows);
                assert(self@.components.positions =~= mid.positions.update(e.0 as int, pos));
                assert(self@.components.tiles =~= mid.tiles.update(e.0 as int, Some(tm)));
                assert(self@.components.rhythms =~= mid.rhythms.update(
                    e.0 as int,
                    match tm.rhythm {
                        Some(r) => Some(r.with_duration(d)),
                        None => None,
                    },
                ));
                assert(self@.components =~= cell_loaded(prev, pos, tm, d));
                assert(self@.components =~= cells_loaded(base, map@, dims, d, (k + 1) as nat));
            }
            k = k + 1;
        }
        self.map = Some(map);
        Ok(())
    }

    /// Add a player entity at the map's starting pixel with a one-beat
    /// pulse at the game's tempo.  Returns `None`, changing nothing, while
    /// no map is loaded or the layout or tempo cannot support it.
    pub fn add_player(&mut self, player: Player) -> (r: Option<Entity>)
        requires
            old(self)@.wf(),
            player@.wf(),
        ensures
            (r is Some) <==> (old(self)@.map matches Some(m) && old(self)@.dimensions matches Some(
                dm,
            ) && 1 <= old(self)@.tempo <= MINUTE_US && dims_fit(
                dm,
                m.start.0 as int + 1,
                m.start.1 as int + 1,
            )),
            r is None ==> final(self)@ == old(self)@,
            r matches Some(e) ==> {
                &&& e.0 == alloc_result(old(self)@.components).1
                &&& final(self)@.components == player_added(
                    old(self)@.components,
                    Position(
                        old(self)@.dimensions->0.top_left_spec(
                            old(self)@.map->0.start.0 as int,
                            old(self)@.map->0.start.1 as int,
                        ).0 as i64,
                        old(self)@.dimensions->0.top_left_spec(
                            old(self)@.map->0.start.0 as int,
                            old(self)@.map->0.start.1 as int,
                        ).1 as i64,
                    ),
                    player@,
                    old(self)@.tempo as int,
                )
                &&& final(self)@.dimensions == old(self)@.dimensions
                &&& final(self)@.map == old(self)@.map
                &&& final(self)@.tempo == old(self)@.tempo
                &&& final(self)@.camera == old(self)@.camera
                &&& final(self)@.wf()
            },
    {
        let start = match &self.map {
            Some(m) => m.start(),
            None => {
                return None;
            },
        };
        let dims = match &self.dimensions {
            Some(d) => *d,
            None => {
                return None;
            },
        };
        let tempo = self.tempo;
        if tempo < 1 || (tempo as u64) > MINUTE_US {
            return None;
        }
        if !check_dims_fit(&dims, start.0 as u128 + 1, start.1 as u128 + 1) {
            return None;
        }
        proof {
            lemma_mul_inequality(
                start.0 as int,
                start.0 as int + 1,
                (dims.tile_width + dims.row_gap) as int,
            );
            lemma_mul_inequality(
                start.1 as int,
                start.1 as int + 1,
                (dims.tile_height + dims.column_gap) as int,
            );
            assert((start.0 as int) < i32::MAX && (start.1 as int) < i32::MAX)
                by (nonlinear_arith)
                requires
                    1 <= dims.tile_width + dims.row_gap,
                    1 <= dims.tile_height + dims.column_gap,
                    (start.0 as int + 1) * ((dims.tile_width + dims.row_gap) as int) <= i32::MAX,
                    (start.1 as int + 1) * ((dims.tile_height + dims.column_gap) as int)
                        <= i32::MAX,
                    0 <= (start.0 as int),
                    0 <= (start.1 as int),
            {
            }
        }
        let ghost prev = self@.components;
        let e = self.components.new_entity();
        let ghost mid = self@.components;
        let (px, py) = dims.top_left(start.0 as i32, start.1 as i32);
        self.components.positions.set(e.0, Position(px as i64, py as i64));
        self.components.players.set(e.0, Some(player));
        let mut beats: Vec<usize> = Vec::new();
        beats.push(0);
        let pulse = Rhythm::new(1, tempo, beats);
        proof {
            assert(pulse@.beats =~= seq![0int]);
        }
        self.components.rhythms.set(e.0, Some(pulse));
        proof {
            let pos = Position(px as i64, py as i64);
            assert(self@.components.positions =~= mid.positions.update(e.0 as int, pos));
            assert(self@.components.players =~= mid.players.update(e.0 as int, Some(player@)));
            assert(self@.components.rhythms =~= mid.rhythms.update(
                e.0 as int,
                Some(
                    RhythmModel {
                        length: 1,
                        duration: beat_length_spec(self.tempo as int),
                        time: 0,
                        beats: seq![0int],
                    },
                ),
            ));
            assert(self@.components =~= player_added(prev, pos, player@, self.tempo as int));
        }
        Some(e)
    }

    /// One frame of the world: advance every rhythm by `delta_t`
    /// microseconds.  The visual pulse of player entities is derived from
    /// those rhythms by the host at draw time.
    pub fn update(&mut self, delta_t: i64, _inputs: &Vec<Input>)
        requires
            old(self)@.wf(),
        ensures
            final(self)@.components == rhythms_advanced(old(self)@.components, delta_t as int),
            final(self)@.dimensions == old(self)@.dimensions,
            final(self)@.map == old(self)@.map,
            final(self)@.tempo == old(self)@.tempo,
            final(self)@.camera == old(self)@.camera,
            final(self)@.wf(),
    {
        update_rhythms(&mut self.components, delta_t);
    }

    /// The draw lists for one frame: every tile entity's position and
    /// effective color, and every player entity's position.  Errs while
    /// no camera or layout is configured, so the host can skip the frame.
    pub fn draw(&self) -> (r: Result<(Vec<(Position, Color)>, Vec<Position>), ()>)
        requires
            self@.wf(),
        ensures
            (self@.camera is None || self@.dimensions is None) <==> r is Err,
            r matches Ok(out) ==> out.0@ == tile_draw_list(
                self@.components,
                self@.components.len() as int,
            ) && out.1@ == player_draw_list(self@.components, self@.components.len() as int),
    {
        if self.camera.is_none() || self.dimensions.is_none() {
            return Err(());
        }
        let tiles = draw_tiles(&self.components);
        let players = draw_player(&self.components);
        Ok((tiles, players))
    }
}

} // verus!

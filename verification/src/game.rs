//! The player state machine and the top-level game orchestrator.

use vstd::prelude::*;
use vstd::arithmetic::div_mod::lemma_multiply_divide_lt;
use vstd::arithmetic::mul::lemma_mul_inequality;
use crate::inputs::direction;
use crate::inputs::direction_of;
use crate::inputs::is_restart;
use crate::inputs::restart_requested;
use crate::inputs::Input;
use crate::rhythm::beat_length_spec;
use crate::rhythm::Rhythm;
use crate::rhythm::RhythmModel;
use crate::rhythm::MINUTE_US;
use crate::tiles::Color;
use crate::tiles::Tile;
use crate::tiles::TileMap;
use crate::tiles::TileMapModel;

verus! {

/// How close to a beat, in microseconds, a movement command must fall to
/// be accepted.
pub const MOVEMENT_WINDOW: u64 = 150_000;

/// Base acceptance window, in microseconds, for judging the tile under
/// the player.
pub const WINDOW: u64 = 50_000;

/// The window used to judge the tile under the player: the base window
/// plus a tenth of a second of grace for late inputs.
pub const STAND_WINDOW: u64 = WINDOW + 100_000;

/// What states the player can be in.
#[derive(Clone, Copy, PartialEq, Eq, Structural, Debug)]
pub enum PlayerState {
    /// The attempt is under way.
    Playing,
    /// The player reached a goal tile.
    Cleared,
    /// The player missed the pulse or left the map.
    Died,
}

/// Mathematical state of the player.
#[verifier::ext_equal]
pub struct PlayerModel {
    /// Grid cell the player occupies, as `(row, column)`.
    pub position: (usize, usize),
    /// The rhythm the player pulses in.
    pub rhythm: RhythmModel,
    /// Size of the map in cells, as `(rows, columns)`.
    pub map_size: (usize, usize),
    /// Elapsed measure time at which the last accepted move occurred,
    /// used to debounce multiple moves within one beat.
    pub last_moved: Option<int>,
    /// The player's state machine position.
    pub state: PlayerState,
}

/// One coordinate stepped by `d`, clamped to `[0, bound)`: the coordinate
/// moves only if the destination is on the map.
pub open spec fn step_coord(pos: usize, d: int, bound: usize) -> usize {
    if 0 <= pos + d && pos + d < bound {
        (pos + d) as usize
    } else {
        pos
    }
}

impl PlayerModel {
    /// The player's clock is well formed.
    pub open spec fn wf(self) -> bool {
        self.rhythm.wf()
    }

    /// A movement command is accepted right now: the rhythm is within the
    /// movement window and no move has been accepted this beat.
    pub open spec fn move_accepted(self) -> bool {
        self.rhythm.in_window(MOVEMENT_WINDOW as int) && self.last_moved is None
    }

    /// The player after a movement command in direction `d`: if the move
    /// is accepted, each coordinate steps within the map bounds and the
    /// debounce records the rhythm's position; otherwise nothing changes.
    pub open spec fn moved(self, d: (int, int)) -> PlayerModel {
        if self.move_accepted() {
            PlayerModel {
                position: (
                    step_coord(self.position.0, d.0, self.map_size.0),
                    step_coord(self.position.1, d.1, self.map_size.1),
                ),
                last_moved: Some(self.rhythm.time),
                ..self
            }
        } else {
            self
        }
    }

    /// The player after one input event: directional keys command a move,
    /// every other event leaves the player unchanged.
    pub open spec fn input_step(self, i: Input) -> PlayerModel {
        match direction_of(i) {
            Some(d) => self.moved(d),
            None => self,
        }
    }

    /// The player after a list of input events, applied in order.
    pub open spec fn inputs_applied(self, inputs: Seq<Input>) -> PlayerModel
        decreases inputs.len(),
    {
        if inputs.len() == 0 {
            self
        } else {
            self.input_step(inputs[0]).inputs_applied(inputs.drop_first())
        }
    }

    /// The player with its clock advanced by `dt` microseconds.
    pub open spec fn ticked(self, dt: int) -> PlayerModel {
        PlayerModel { rhythm: self.rhythm.advanced(dt), ..self }
    }

    /// The debounce clears once a new beat cycle has begun: the beat
    /// index changed, or the position wrapped below the recorded one.
    pub open spec fn debounced(self) -> PlayerModel {
        if self.last_moved matches Some(lm) && (self.rhythm.beat_index() != lm
            / self.rhythm.duration || self.rhythm.time < lm) {
            PlayerModel { last_moved: None, ..self }
        } else {
            self
        }
    }

    /// One frame of the player: advance the clock, apply the inputs in
    /// order, then clear the debounce if a new beat cycle has begun.
    pub open spec fn updated(self, dt: int, inputs: Seq<Input>) -> PlayerModel {
        self.ticked(dt).inputs_applied(inputs).debounced()
    }

    /// The player put back at `start` for a fresh attempt: clock zeroed,
    /// debounce cleared, state playing.
    pub open spec fn revived(self, start: (usize, usize)) -> PlayerModel {
        PlayerModel {
            position: start,
            rhythm: self.rhythm.restarted(),
            last_moved: None,
            state: PlayerState::Playing,
            ..self
        }
    }
}

/// Applying the inputs one more event extends the fold at its end.
proof fn lemma_inputs_applied_push(p: PlayerModel, s: Seq<Input>, x: Input)
    ensures
        p.inputs_applied(s.push(x)) == p.inputs_applied(s).input_step(x),
    decreases s.len(),
{
    if s.len() == 0 {
        assert(s.push(x)[0] == x);
        assert(s.push(x).drop_first() =~= s);
        assert(p.inputs_applied(s.push(x)) == p.input_step(x).inputs_applied(s));
        assert(p.inputs_applied(s) == p);
    } else {
        assert(s.push(x)[0] == s[0]);
        assert(s.push(x).drop_first() =~= s.drop_first().push(x));
        lemma_inputs_applied_push(p.input_step(s[0]), s.drop_first(), x);
        assert(p.inputs_applied(s.push(x)) == p.input_step(s[0]).inputs_applied(
            s.drop_first().push(x),
        ));
        assert(p.inputs_applied(s) == p.input_step(s[0]).inputs_applied(s.drop_first()));
    }
}

/// A second movement command in the same beat window cannot move the
/// player again.
pub proof fn lemma_movement_debounce(p: PlayerModel, d1: (int, int), d2: (int, int))
    requires
        p.wf(),
        p.move_accepted(),
    ensures
        p.moved(d1).last_moved is Some,
        p.moved(d1).moved(d2) == p.moved(d1),
{
}

/// Once the rhythm's beat index has changed, or its position has wrapped
/// below the recorded one, the debounce clears, and a movement command
/// within the window is accepted again.
pub proof fn lemma_debounce_reenables(p: PlayerModel)
    requires
        p.wf(),
        p.last_moved matches Some(lm) && (p.rhythm.beat_index() != lm / p.rhythm.duration
            || p.rhythm.time < lm),
    ensures
        p.debounced().last_moved is None,
        p.rhythm.in_window(MOVEMENT_WINDOW as int) ==> p.debounced().move_accepted(),
{
}

/// The player game object.
pub struct Player {
    /// Grid cell the player occupies, as `(row, column)`.
    pub position: (usize, usize),
    /// The rhythm the player pulses in.
    rhythm: Rhythm,
    /// Size of the map in cells, as `(rows, columns)`.
    map_size: (usize, usize),
    /// Elapsed measure time at which the last accepted move occurred.
    last_moved: Option<u64>,
    /// The player's state machine position.
    pub state: PlayerState,
}

impl View for Player {
    type V = PlayerModel;

    closed spec fn view(&self) -> PlayerModel {
        PlayerModel {
            position: self.position,
            rhythm: self.rhythm@,
            map_size: self.map_size,
            last_moved: match self.last_moved {
                Some(t) => Some(t as int),
                None => None,
            },
            state: self.state,
        }
    }
}

impl Player {
    /// A playing player at `position` on a map of `map_size` cells, whose
    /// pulse is a one-beat measure at `tempo` beats per minute.
    pub fn new(position: (usize, usize), tempo: u32, map_size: (usize, usize)) -> (p: Player)
        requires
            1 <= tempo <= MINUTE_US,
        ensures
            p@.position == position,
            p@.map_size == map_size,
            p@.last_moved is None,
            p@.state == PlayerState::Playing,
            p@.rhythm == (RhythmModel {
                length: 1,
                duration: beat_length_spec(tempo as int),
                time: 0,
                beats: seq![0int],
            }),
            p@.wf(),
    {
        let mut beats: Vec<usize> = Vec::new();
        beats.push(0);
        let rhythm = Rhythm::new(1, tempo, beats);
        proof {
            assert(rhythm@.beats =~= seq![0int]);
        }
        Player { position, rhythm, map_size, last_moved: None, state: PlayerState::Playing }
    }

    /// The rhythm the player pulses in.
    pub fn rhythm(&self) -> (r: &Rhythm)
        ensures
            r@ == self@.rhythm,
    {
        &self.rhythm
    }

    /// Apply one movement command: if the rhythm is within the movement
    /// window and no move was accepted this beat, step each coordinate
    /// within the map bounds and record the rhythm's position.
    pub fn move_(&mut self, direction: (i64, i64))
        requires
            old(self)@.wf(),
        ensures
            final(self)@ == old(self)@.moved((direction.0 as int, direction.1 as int)),
            final(self)@.wf(),
    {
        let gate = self.rhythm.in_window(MOVEMENT_WINDOW);
        let free = match self.last_moved {
            None => true,
            Some(_) => false,
        };
        if gate && free {
            let nx: i128 = self.position.0 as i128 + direction.0 as i128;
            let ny: i128 = self.position.1 as i128 + direction.1 as i128;
            let new_x: usize = if nx >= 0 && nx < self.map_size.0 as i128 {
                nx as usize
            } else {
                self.position.0
            };
            let new_y: usize = if ny >= 0 && ny < self.map_size.1 as i128 {
                ny as usize
            } else {
                self.position.1
            };
            self.position = (new_x, new_y);
            self.last_moved = Some(self.rhythm.position());
        }
    }

    /// One frame of the player: advance the pulse clock, apply the frame's
    /// inputs in order, then clear the movement debounce if a new beat
    /// cycle has begun.
    pub fn update(&mut self, delta: i64, inputs: &Vec<Input>)
        requires
            old(self)@.wf(),
        ensures
            final(self)@ == old(self)@.updated(delta as int, inputs@),
            final(self)@.wf(),
    {
        self.rhythm.update(delta);
        let n = inputs.len();
        let mut i: usize = 0;
        proof {
            assert(inputs@.subrange(0, 0) =~= Seq::<Input>::empty());
        }
        while i < n
            invariant
                n == inputs@.len(),
                i <= n,
                self@.wf(),
                self@ == old(self)@.ticked(delta as int).inputs_applied(
                    inputs@.subrange(0, i as int),
                ),
            decreases n - i,
        {
            let ghost prefix = inputs@.subrange(0, i as int);
            match direction(&inputs[i]) {
                Some(d) => self.move_(d),
                None => {},
            }
            proof {
                lemma_inputs_applied_push(
                    old(self)@.ticked(delta as int),
                    prefix,
                    inputs@[i as int],
                );
                assert(prefix.push(inputs@[i as int]) =~= inputs@.subrange(0, i + 1));
            }
            i = i + 1;
        }
        proof {
            assert(inputs@.subrange(0, n as int) =~= inputs@);
        }
        if let Some(lm) = self.last_moved {
            let beat_now = self.rhythm.beat();
            let d = self.rhythm.duration();
            let pos = self.rhythm.position();
            if beat_now != lm / d || pos < lm {
                self.last_moved = None;
            }
        }
    }
}

/// The error kinds the game surfaces to its host.
#[derive(Clone, Copy, PartialEq, Eq, Structural, Debug)]
pub enum RCError {
    /// The map description is malformed.
    MapFormat,
    /// The map description could not be read.
    IO,
    /// The tempo or the tile dimensions are missing or out of range.
    Configuration,
}

/// The view transform the host renders with.  The core only stores it;
/// all drawing happens in the host.
#[derive(Clone, Copy, PartialEq, Eq, Debug)]
pub struct Camera {
    /// Pixel offset of the view.
    pub offset: (i32, i32),
    /// Pixel position the view is centered on.
    pub target: (i32, i32),
}

/// Pixel layout of the tile grid.
#[derive(Clone, Copy, PartialEq, Eq, Structural, Debug)]
pub struct TileDimensions {
    /// Width of one tile in pixels.
    pub tile_width: i32,
    /// Height of one tile in pixels.
    pub tile_height: i32,
    /// Horizontal gap between tiles in pixels.
    pub row_gap: i32,
    /// Vertical gap between tiles in pixels.
    pub column_gap: i32,
}

impl TileDimensions {
    /// The gaps are nonnegative and no larger than the tiles, and the
    /// tiles are at least one pixel.
    pub open spec fn sane(self) -> bool {
        &&& 1 <= self.tile_width
        &&& 1 <= self.tile_height
        &&& 0 <= self.row_gap <= self.tile_width
        &&& 0 <= self.column_gap <= self.tile_height
    }

    /// Top-left pixel of the cell at grid coordinates `(x, y)`.
    pub open spec fn top_left_spec(self, x: int, y: int) -> (int, int) {
        (x * (self.tile_width + self.row_gap), y * (self.tile_height + self.column_gap))
    }

    /// Center pixel of the cell at grid coordinates `(x, y)`.
    pub open spec fn center_spec(self, x: int, y: int) -> (int, int) {
        let tl = self.top_left_spec(x, y);
        (
            tl.0 + (self.tile_width - self.row_gap) / 2,
            tl.1 + (self.tile_height - self.column_gap) / 2,
        )
    }

    /// Top-left pixel of the cell at grid coordinates `(x, y)`.
    pub fn top_left(&self, x: i32, y: i32) -> (r: (i32, i32))
        requires
            self.sane(),
            0 <= x,
            0 <= y,
            self.tile_width + self.row_gap <= i32::MAX,
            self.tile_height + self.column_gap <= i32::MAX,
            x * (self.tile_width + self.row_gap) <= i32::MAX,
            y * (self.tile_height + self.column_gap) <= i32::MAX,
        ensures
            r.0 == self.top_left_spec(x as int, y as int).0,
            r.1 == self.top_left_spec(x as int, y as int).1,
            0 <= r.0,
            0 <= r.1,
    {
        proof {
            vstd::arithmetic::mul::lemma_mul_nonnegative(x as int, (self.tile_width + self.row_gap) as int);
            vstd::arithmetic::mul::lemma_mul_nonnegative(y as int, (self.tile_height + self.column_gap) as int);
        }
        (x * (self.tile_width + self.row_gap), y * (self.tile_height + self.column_gap))
    }

    /// Center pixel of the cell at grid coordinates `(x, y)`.
    pub fn center(&self, x: i32, y: i32) -> (r: (i32, i32))
        requires
            self.sane(),
            0 <= x,
            0 <= y,
            self.tile_width + self.row_gap <= i32::MAX,
            self.tile_height + self.column_gap <= i32::MAX,
            (x + 1) * (self.tile_width + self.row_gap) <= i32::MAX,
            (y + 1) * (self.tile_height + self.column_gap) <= i32::MAX,
        ensures
            r.0 == self.center_spec(x as int, y as int).0,
            r.1 == self.center_spec(x as int, y as int).1,
    {
        proof {
            let w = (self.tile_width + self.row_gap) as int;
            let h = (self.tile_height + self.column_gap) as int;
            assert((x + 1) * w == x * w + w) by (nonlinear_arith);
            assert((y + 1) * h == y * h + h) by (nonlinear_arith);
        }
        let (xtl, ytl) = self.top_left(x, y);
        (
            xtl + (self.tile_width - self.row_gap) / 2,
            ytl + (self.tile_height - self.column_gap) / 2,
        )
    }
}

/// Mathematical state of a level.
#[verifier::ext_equal]
pub struct LevelModel {
    /// The tile grid.
    pub tiles: TileMapModel,
    /// Grid cell the player starts on, as `(row, column)`.
    pub starting_location: (usize, usize),
    /// The level's tempo in beats per minute.
    pub tempo: u32,
}

impl LevelModel {
    /// The level's tile map is well formed.
    pub open spec fn wf(self) -> bool {
        self.tiles.wf()
    }

    /// The level after `dt` microseconds pass on every tile clock.
    pub open spec fn advanced(self, dt: int) -> LevelModel {
        LevelModel { tiles: self.tiles.updated(dt), ..self }
    }

    /// The level with every tile clock set back to the start of its
    /// measure.
    pub open spec fn restarted(self) -> LevelModel {
        LevelModel { tiles: self.tiles.restarted(), ..self }
    }
}

/// Every rhythm among the given tile rows can be rebound to a tempo
/// without the measure outgrowing the clock's range.
pub open spec fn rows_tempo_bindable(rows: Seq<Vec<Tile>>) -> bool {
    forall|i: int, j: int|
        0 <= i < rows.len() && 0 <= j < rows[i]@.len() ==> ((#[trigger] rows[i]@[j])@.rhythm
            matches Some(r) ==> MINUTE_US * r.length <= i64::MAX as int)
}

/// A loaded level: a tile map, the player's starting cell, and a tempo.
pub struct Level {
    /// The tile grid.
    pub tiles: TileMap,
    /// Grid cell the player starts on, as `(row, column)`.
    pub starting_location: (usize, usize),
    /// The level's tempo in beats per minute.
    pub tempo: u32,
}

impl View for Level {
    type V = LevelModel;

    open spec fn view(&self) -> LevelModel {
        LevelModel {
            tiles: self.tiles@,
            starting_location: self.starting_location,
            tempo: self.tempo,
        }
    }
}

impl Level {
    /// A level from rows of tiles: every tile rhythm is bound to the
    /// level's tempo, and the rows are deduplicated into a tile map.  Errs
    /// with `Configuration` on a tempo out of range, and with `MapFormat`
    /// on ragged rows or on a rhythm whose measure cannot carry the tempo.
    #[verifier::loop_isolation(false)]
    pub fn new(tiles: Vec<Vec<Tile>>, starting_location: (usize, usize), tempo: u32) -> (r:
        Result<Level, RCError>)
        requires
            forall|i: int, j: int|
                0 <= i < tiles@.len() && 0 <= j < tiles@[i]@.len() ==> (#[trigger] tiles@[i]@[j])@.wf(),
        ensures
            !(1 <= tempo <= MINUTE_US) ==> r == Err::<Level, RCError>(RCError::Configuration),
            r matches Ok(l) ==> {
                &&& 1 <= tempo <= MINUTE_US
                &&& l@.wf()
                &&& l@.tempo == tempo
                &&& l@.starting_location == starting_location
                &&& l@.tiles.rows == tiles@.len()
                &&& l@.tiles.cols == if tiles@.len() == 0 { 0int } else { tiles@[0]@.len() as int }
                &&& forall|i: int, j: int|
                    0 <= i < l@.tiles.rows && 0 <= j < l@.tiles.cols ==> l@.tiles.tile_at(i, j)
                        == (#[trigger] tiles@[i]@[j])@.with_duration(beat_length_spec(tempo as int))
            },
            1 <= tempo <= MINUTE_US ==> ((r is Ok) <==> (forall|i: int|
                0 <= i < tiles@.len() ==> (#[trigger] tiles@[i])@.len() == tiles@[0]@.len())
                && rows_tempo_bindable(tiles@)),
    {
        if tempo < 1 || (tempo as u64) > MINUTE_US {
            return Err(RCError::Configuration);
        }
        let ghost d = beat_length_spec(tempo as int);
        let n = tiles.len();
        let mut bound: Vec<Vec<Tile>> = Vec::new();
        let mut i: usize = 0;
        while i < n
            invariant
                i <= n,
                bound@.len() == i,
                forall|x: int| 0 <= x < i ==> (#[trigger] bound@[x])@.len() == tiles@[x]@.len(),
                forall|x: int, y: int|
                    0 <= x < i && 0 <= y < tiles@[x]@.len() ==> (#[trigger] bound@[x]@[y])@
                        == tiles@[x]@[y]@.with_duration(d) && bound@[x]@[y]@.wf(),
                forall|x: int, y: int|
                    0 <= x < i && 0 <= y < tiles@[x]@.len() ==> ((#[trigger] tiles@[x]@[y])@.rhythm
                        matches Some(rh) ==> MINUTE_US * rh.length <= i64::MAX as int),
            decreases n - i,
        {
            let row = &tiles[i];
            let m = row.len();
            let mut brow: Vec<Tile> = Vec::new();
            let mut j: usize = 0;
            while j < m
                invariant
                    i < n,
                    j <= m,
                    m == tiles@[i as int]@.len(),
                    brow@.len() == j,
                    forall|y: int|
                        0 <= y < j ==> (#[trigger] brow@[y])@ == tiles@[i as int]@[y]@.with_duration(
                            d,
                        ) && brow@[y]@.wf(),
                    forall|y: int|
                        0 <= y < j ==> ((#[trigger] tiles@[i as int]@[y])@.rhythm matches Some(rh)
                            ==> MINUTE_US * rh.length <= i64::MAX as int),
                decreases m - j,
            {
                let t = &row[j];
                match &t.rhythm {
                    Some(rh) => {
                        let len = rh.length();
                        if (MINUTE_US as u128) * (len as u128) > (i64::MAX as u128) {
                            proof {
                                assert(tiles@[i as int]@[j as int]@.rhythm matches Some(rh2)
                                    && MINUTE_US * rh2.length > i64::MAX as int);
                            }
                            return Err(RCError::MapFormat);
                        }
                    },
                    None => {},
                }
                let mut bt = t.clone();
                bt.set_tempo(tempo);
                brow.push(bt);
                j = j + 1;
            }
            bound.push(brow);
            i = i + 1;
        }
        let map = match TileMap::from_rows(&bound) {
            Some(m) => m,
            None => {
                proof {
                    let bad = choose|x: int|
                        0 <= x < bound@.len() && (#[trigger] bound@[x])@.len() != bound@[0]@.len();
                    assert(tiles@[bad]@.len() != tiles@[0]@.len());
                }
                return Err(RCError::MapFormat);
            },
        };
        proof {
            assert forall|x: int, y: int|
                0 <= x < map@.rows && 0 <= y < map@.cols implies map@.tile_at(x, y)
                == (#[trigger] tiles@[x]@[y])@.with_duration(d) by {
                assert(map@.tile_at(x, y) == bound@[x]@[y]@);
            }
            assert(rows_tempo_bindable(tiles@));
            assert forall|x: int|
                0 <= x < tiles@.len() implies (#[trigger] tiles@[x])@.len() == tiles@[0]@.len() by {
                assert(bound@[x]@.len() == bound@[0]@.len());
            }
        }
        Ok(Level { tiles: map, starting_location, tempo })
    }

    /// Rebind every tile rhythm to the level's tempo.
    pub fn set_tempo(&mut self)
        requires
            old(self)@.wf(),
            1 <= old(self)@.tempo <= MINUTE_US,
            old(self)@.tiles.tempo_bindable(),
        ensures
            final(self)@.tiles == old(self)@.tiles.with_duration(
                beat_length_spec(old(self)@.tempo as int),
            ),
            final(self)@.starting_location == old(self)@.starting_location,
            final(self)@.tempo == old(self)@.tempo,
            final(self)@.wf(),
    {
        let tempo = self.tempo;
        self.tiles.set_tempo(tempo);
    }

    /// Size of the map as `(rows, columns)`.
    pub fn size_tiles(&self) -> (s: (usize, usize))
        ensures
            s.0 == self@.tiles.rows,
            s.1 == self@.tiles.cols,
    {
        (self.tiles.num_rows(), self.tiles.num_columns())
    }

    /// One frame of the level: advance every tile clock by `delta`
    /// microseconds.  The inputs play no role here; they are consumed by
    /// the player.
    pub fn update(&mut self, delta: i64, _inputs: &Vec<Input>)
        requires
            old(self)@.wf(),
        ensures
            final(self)@ == old(self)@.advanced(delta as int),
            final(self)@.wf(),
    {
        self.tiles.update(delta);
    }
}

/// The state the player earns by standing on `pos`: off the map is death,
/// a goal tile clears the level, a rhythm tile that is not within the
/// standing window of any beat is death, and anything else keeps playing.
pub open spec fn judged_state(t: TileMapModel, pos: (usize, usize)) -> PlayerState {
    if !t.in_bounds(pos.0 as int, pos.1 as int) {
        PlayerState::Died
    } else if t.tile_at(pos.0 as int, pos.1 as int).goal {
        PlayerState::Cleared
    } else if t.tile_at(pos.0 as int, pos.1 as int).rhythm matches Some(r) && !r.on_beat(
        STAND_WINDOW as int,
    ) {
        PlayerState::Died
    } else {
        PlayerState::Playing
    }
}

/// Whether some event of the frame asks for a restart.
pub open spec fn has_restart(inputs: Seq<Input>) -> bool {
    exists|i: int| 0 <= i < inputs.len() && is_restart(#[trigger] inputs[i])
}

/// The state the player earns by standing on `pos` of the given map.
fn judge_tile(tiles: &TileMap, pos: (usize, usize)) -> (s: PlayerState)
    requires
        tiles@.wf(),
    ensures
        s == judged_state(tiles@, pos),
{
    match tiles.get(pos.0, pos.1) {
        None => PlayerState::Died,
        Some(tile) => {
            proof {
                crate::tiles::lemma_cell_index_bounds(
                    pos.0 as int,
                    pos.1 as int,
                    tiles@.rows,
                    tiles@.cols,
                );
                assert(tiles@.palette[tiles@.cells[pos.0 as int * tiles@.cols + pos.1 as int] as int].wf());
            }
            if tile.goal {
                PlayerState::Cleared
            } else {
                match tile.on(STAND_WINDOW) {
                    None => PlayerState::Playing,
                    Some(true) => PlayerState::Playing,
                    Some(false) => PlayerState::Died,
                }
            }
        },
    }
}

/// Whether some event of the frame asks for a restart.
fn any_restart(inputs: &Vec<Input>) -> (r: bool)
    ensures
        r == has_restart(inputs@),
{
    let n = inputs.len();
    let mut i: usize = 0;
    while i < n
        invariant
            n == inputs@.len(),
            i <= n,
            forall|j: int| 0 <= j < i ==> !is_restart(#[trigger] inputs@[j]),
        decreases n - i,
    {
        if restart_requested(&inputs[i]) {
            proof {
                assert(is_restart(inputs@[i as int]));
            }
            return true;
        }
        i = i + 1;
    }
    false
}

/// Mathematical state of the whole game.
#[verifier::ext_equal]
pub struct GameModel {
    /// The loaded level, if any.
    pub level: Option<LevelModel>,
    /// The player, if a level is loaded.
    pub player: Option<PlayerModel>,
    /// The host's view transform.
    pub camera: Camera,
    /// Pixel layout of the tile grid.
    pub dimensions: TileDimensions,
}

impl GameModel {
    /// Level and player, where present, are well formed.
    pub open spec fn wf(self) -> bool {
        &&& self.level matches Some(l) ==> l.wf()
        &&& self.player matches Some(p) ==> p.wf()
    }

    /// The pixel layout can place every cell of the loaded level, and the
    /// player's cell, without leaving 32-bit pixel coordinates.
    pub open spec fn renderable(self) -> bool {
        &&& self.dimensions.sane()
        &&& self.dimensions.tile_width + self.dimensions.row_gap <= i32::MAX
        &&& self.dimensions.tile_height + self.dimensions.column_gap <= i32::MAX
        &&& self.level matches Some(l) ==> {
            &&& l.tiles.rows * (self.dimensions.tile_width + self.dimensions.row_gap) <= i32::MAX
            &&& l.tiles.cols * (self.dimensions.tile_height + self.dimensions.column_gap)
                <= i32::MAX
        }
        &&& self.player matches Some(p) ==> {
            &&& (p.position.0 + 1) * (self.dimensions.tile_width + self.dimensions.row_gap)
                <= i32::MAX
            &&& (p.position.1 + 1) * (self.dimensions.tile_height + self.dimensions.column_gap)
                <= i32::MAX
        }
    }

    /// One frame: advance every tile clock; then, while playing, advance
    /// the player (movement gating included) and judge the tile under it;
    /// after death, a restart input revives the player at the start and
    /// zeroes every clock; a cleared level takes no further input.
    pub open spec fn stepped(self, dt: int, inputs: Seq<Input>) -> GameModel {
        match (self.level, self.player) {
            (Some(l), Some(p)) => {
                let l1 = l.advanced(dt);
                match p.state {
                    PlayerState::Playing => {
                        let p1 = p.updated(dt, inputs);
                        let p2 = PlayerModel { state: judged_state(l1.tiles, p1.position), ..p1 };
                        GameModel { level: Some(l1), player: Some(p2), ..self }
                    },
                    PlayerState::Died => {
                        if has_restart(inputs) {
                            GameModel {
                                level: Some(l1.restarted()),
                                player: Some(p.revived(l.starting_location)),
                                ..self
                            }
                        } else {
                            GameModel { level: Some(l1), player: Some(p), ..self }
                        }
                    },
                    PlayerState::Cleared => GameModel {
                        level: Some(l1),
                        player: Some(p),
                        ..self
                    },
                }
            },
            _ => self,
        }
    }
}

/// What the host must render for one frame: one colored rectangle per
/// tile, the player's center, the data its pulsing radius is derived
/// from, and which message box to overlay.
#[derive(Debug)]
pub struct Scene {
    /// Top-left pixel and effective color of every tile, column-major.
    pub tiles: Vec<(i32, i32, Color)>,
    /// Center pixel of the player's cell.
    pub player: (i32, i32),
    /// Elapsed time within the player's measure, in microseconds.
    pub player_phase: u64,
    /// Length of one player beat, in microseconds.
    pub player_beat_duration: u64,
    /// Which message box to draw over the scene.
    pub overlay: PlayerState,
}

/// Top-level data structure: the loaded level, the player, and the host's
/// view configuration.
pub struct Game {
    level: Option<Level>,
    player: Option<Player>,
    camera: Camera,
    dimensions: TileDimensions,
}

impl View for Game {
    type V = GameModel;

    closed spec fn view(&self) -> GameModel {
        GameModel {
            level: match self.level {
                Some(ref l) => Some(l@),
                None => None,
            },
            player: match self.player {
                Some(ref p) => Some(p@),
                None => None,
            },
            camera: self.camera,
            dimensions: self.dimensions,
        }
    }
}

impl Game {
    /// A game with no level loaded yet.
    pub fn new(camera: Camera, dimensions: TileDimensions) -> (g: Game)
        ensures
            g@.level is None,
            g@.player is None,
            g@.camera == camera,
            g@.dimensions == dimensions,
            g@.wf(),
    {
        Game { level: None, player: None, camera, dimensions }
    }

    /// Load a level: bind its tempo to every tile rhythm and place a new
    /// player at its starting location.  Errs with `Configuration` on a
    /// tempo out of range and with `MapFormat` on a rhythm whose measure
    /// cannot carry the tempo; on an error the game is unchanged.
    pub fn load_level(&mut self, level: Level) -> (r: Result<(), RCError>)
        requires
            level@.wf(),
        ensures
            (r is Ok) <==> (1 <= level@.tempo <= MINUTE_US && level@.tiles.tempo_bindable()),
            !(1 <= level@.tempo <= MINUTE_US) ==> r == Err::<(), RCError>(RCError::Configuration),
            (1 <= level@.tempo <= MINUTE_US && !level@.tiles.tempo_bindable()) ==> r == Err::<
                (),
                RCError,
            >(RCError::MapFormat),
            r is Err ==> final(self)@ == old(self)@,
            r is Ok ==> {
                &&& final(self)@.level == Some(LevelModel {
                    tiles: level@.tiles.with_duration(beat_length_spec(level@.tempo as int)),
                    starting_location: level@.starting_location,
                    tempo: level@.tempo,
                })
                &&& final(self)@.player matches Some(p) && p.position == level@.starting_location
                    && p.map_size.0 == level@.tiles.rows && p.map_size.1 == level@.tiles.cols
                    && p.last_moved is None && p.state == PlayerState::Playing && p.rhythm == (
                RhythmModel {
                    length: 1,
                    duration: beat_length_spec(level@.tempo as int),
                    time: 0,
                    beats: seq![0int],
                })
                &&& final(self)@.camera == old(self)@.camera
                &&& final(self)@.dimensions == old(self)@.dimensions
                &&& final(self)@.wf()
            },
    {
        let mut level = level;
        if level.tempo < 1 || (level.tempo as u64) > MINUTE_US {
            return Err(RCError::Configuration);
        }
        if !level.tiles.can_bind_tempo() {
            return Err(RCError::MapFormat);
        }
        level.set_tempo();
        let size = level.size_tiles();
        let player = Player::new(level.starting_location, level.tempo, size);
        self.player = Some(player);
        self.level = Some(level);
        Ok(())
    }

    /// The player's state, while a level is loaded.
    pub fn player_state(&self) -> (s: Option<PlayerState>)
        ensures
            self@.player matches Some(p) ==> s == Some(p.state),
            self@.player is None ==> s is None,
    {
        match &self.player {
            Some(p) => Some(p.state),
            None => None,
        }
    }

    /// The player's grid cell, while a level is loaded.
    pub fn player_position(&self) -> (s: Option<(usize, usize)>)
        ensures
            self@.player matches Some(p) ==> s == Some(p.position),
            self@.player is None ==> s is None,
    {
        match &self.player {
            Some(p) => Some(p.position),
            None => None,
        }
    }


    /// The scene the host must render, or `None` while no level is
    /// loaded: every tile at its top-left pixel with its effective color,
    /// in column-major order, then the player at its cell's center, with
    /// its pulse phase and which message box to overlay.
    #[verifier::loop_isolation(false)]
    #[verifier::rlimit(50)]
    pub fn draw(&self) -> (s: Option<Scene>)
        requires
            self@.wf(),
            self@.renderable(),
        ensures
            (self@.level is None || self@.player is None) <==> s is None,
            s matches Some(sc) ==> (self@.level matches Some(l) && self@.player matches Some(p) && {
                &&& sc.tiles@.len() == l.tiles.cells.len()
                &&& forall|k: int|
                    0 <= k < sc.tiles@.len() ==> {
                        &&& (#[trigger] sc.tiles@[k]).0 == self@.dimensions.top_left_spec(
                            k % l.tiles.rows,
                            k / l.tiles.rows,
                        ).0
                        &&& sc.tiles@[k].1 == self@.dimensions.top_left_spec(
                            k % l.tiles.rows,
                            k / l.tiles.rows,
                        ).1
                        &&& sc.tiles@[k].2 == l.tiles.tile_at(
                            k % l.tiles.rows,
                            k / l.tiles.rows,
                        ).effective_color()
                    }
                &&& sc.player.0 == self@.dimensions.center_spec(
                    p.position.0 as int,
                    p.position.1 as int,
                ).0
                &&& sc.player.1 == self@.dimensions.center_spec(
                    p.position.0 as int,
                    p.position.1 as int,
                ).1
                &&& sc.player_phase == p.rhythm.time
                &&& sc.player_beat_duration == p.rhythm.duration
                &&& sc.overlay == p.state
            }),
    {
        if self.level.is_none() || self.player.is_none() {
            proof {
                assert(self@.level is None || self@.player is None);
            }
            return None;
        }
        let (level, player) = match (&self.level, &self.player) {
            (Some(level), Some(player)) => (level, player),
            _ => {
                return None;
            },
        };
        let cells = level.tiles.enumerate_column_major();
        let nrows = level.tiles.num_rows();
        let n = cells.len();
        let mut tiles_out: Vec<(i32, i32, Color)> = Vec::new();
        let mut k: usize = 0;
        while k < n
            invariant
                n == cells@.len(),
                k <= n,
                tiles_out@.len() == k,
                forall|q: int|
                    0 <= q < k ==> {
                        &&& (#[trigger] tiles_out@[q]).0 == self@.dimensions.top_left_spec(
                            q % level@.tiles.rows,
                            q / level@.tiles.rows,
                        ).0
                        &&& tiles_out@[q].1 == self@.dimensions.top_left_spec(
                            q % level@.tiles.rows,
                            q / level@.tiles.rows,
                        ).1
                        &&& tiles_out@[q].2 == level@.tiles.tile_at(
                            q % level@.tiles.rows,
                            q / level@.tiles.rows,
                        ).effective_color()
                    },
            decreases n - k,
        {
            let ((r, c), tile) = &cells[k];
            proof {
                assert(level@.tiles.cells.len() == level@.tiles.rows * level@.tiles.cols);
                assert(level@.tiles.rows >= 1 && level@.tiles.cols >= 1) by (nonlinear_arith)
                    requires
                        0 <= level@.tiles.rows,
                        0 <= level@.tiles.cols,
                        level@.tiles.rows * level@.tiles.cols > k,
                        0 <= k,
                {
                }
                assert(level@.tiles.rows <= i32::MAX && level@.tiles.cols <= i32::MAX)
                    by (nonlinear_arith)
                    requires
                        1 <= self.dimensions.tile_width + self.dimensions.row_gap,
                        1 <= self.dimensions.tile_height + self.dimensions.column_gap,
                        1 <= level@.tiles.rows,
                        1 <= level@.tiles.cols,
                        level@.tiles.rows * ((self.dimensions.tile_width
                            + self.dimensions.row_gap) as int) <= i32::MAX,
                        level@.tiles.cols * ((self.dimensions.tile_height
                            + self.dimensions.column_gap) as int) <= i32::MAX,
                {
                }
                vstd::arithmetic::div_mod::lemma_mod_bound(k as int, level@.tiles.rows);
                assert(k as int / level@.tiles.rows < level@.tiles.cols) by {
                    lemma_multiply_divide_lt(k as int, level@.tiles.rows, level@.tiles.cols);
                };
                lemma_mul_inequality(
                    (*r) as int + 1,
                    level@.tiles.rows,
                    (self.dimensions.tile_width + self.dimensions.row_gap) as int,
                );
                lemma_mul_inequality(
                    (*c) as int + 1,
                    level@.tiles.cols,
                    (self.dimensions.tile_height + self.dimensions.column_gap) as int,
                );
                assert(((*r) as int + 1) * ((self.dimensions.tile_width
                    + self.dimensions.row_gap) as int) >= (*r) as int * ((self.dimensions.tile_width
                    + self.dimensions.row_gap) as int) + 1) by (nonlinear_arith)
                    requires
                        1 <= self.dimensions.tile_width + self.dimensions.row_gap,
                {
                }
                assert(((*c) as int + 1) * ((self.dimensions.tile_height
                    + self.dimensions.column_gap) as int) >= (*c) as int
                    * ((self.dimensions.tile_height + self.dimensions.column_gap) as int) + 1)
                    by (nonlinear_arith)
                    requires
                        1 <= self.dimensions.tile_height + self.dimensions.column_gap,
                {
                }
                crate::tiles::lemma_cell_index_bounds(
                    k as int % level@.tiles.rows,
                    k as int / level@.tiles.rows,
                    level@.tiles.rows,
                    level@.tiles.cols,
                );
                assert(level@.tiles.palette[level@.tiles.cells[(k as int % level@.tiles.rows)
                    * level@.tiles.cols + (k as int / level@.tiles.rows)] as int].wf());
            }
            let (x, y) = self.dimensions.top_left(*r as i32, *c as i32);
            let color = tile.get_color();
            tiles_out.push((x, y, color));
            k = k + 1;
        }
        proof {
            assert(player@.position.0 < i32::MAX && player@.position.1 < i32::MAX)
                by (nonlinear_arith)
                requires
                    1 <= self.dimensions.tile_width + self.dimensions.row_gap,
                    1 <= self.dimensions.tile_height + self.dimensions.column_gap,
                    (player@.position.0 + 1) * ((self.dimensions.tile_width
                        + self.dimensions.row_gap) as int) <= i32::MAX,
                    (player@.position.1 + 1) * ((self.dimensions.tile_height
                        + self.dimensions.column_gap) as int) <= i32::MAX,
            {
            }
        }
        let center = self.dimensions.center(player.position.0 as i32, player.position.1 as i32);
        Some(
            Scene {
                tiles: tiles_out,
                player: center,
                player_phase: player.rhythm.position(),
                player_beat_duration: player.rhythm.duration(),
                overlay: player.state,
            },
        )
    }

    /// One frame of the simulation, in the fixed order: advance every tile
    /// clock, then let the player act (movement gating included), then
    /// judge the tile under the player; a dead player revives on a restart
    /// input with every clock zeroed.
    pub fn update(&mut self, delta: i64, inputs: &Vec<Input>)
        requires
            old(self)@.wf(),
        ensures
            final(self)@ == old(self)@.stepped(delta as int, inputs@),
            final(self)@.wf(),
    {
        match (&mut self.level, &mut self.player) {
            (Some(level), Some(player)) => {
                level.update(delta, inputs);
                match player.state {
                    PlayerState::Playing => {
                        player.update(delta, inputs);
                        let s = judge_tile(&level.tiles, player.position);
                        player.state = s;
                    },
                    PlayerState::Died => {
                        if any_restart(inputs) {
                            player.position = level.starting_location;
                            player.state = PlayerState::Playing;
                            player.rhythm.reset();
                            player.last_moved = None;
                            level.tiles.reset_clocks();
                        }
                    },
                    PlayerState::Cleared => {},
                }
            },
            _ => {},
        }
    }
}

} // verus!

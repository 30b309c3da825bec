//! Tiles: grid cells that carry a color, an optional rhythm, and a goal
//! flag.

use vstd::prelude::*;
use vstd::arithmetic::div_mod::lemma_fundamental_div_mod_converse;
use crate::grid::grid_cells;
use crate::grid::grid_cols;
use crate::grid::grid_from_row_major;
use crate::grid::grid_get;
use crate::grid::grid_num_columns;
use crate::grid::grid_num_rows;
use crate::grid::grid_rows;
use crate::rhythm::beat_length_spec;
use crate::rhythm::Rhythm;
use crate::rhythm::RhythmModel;
use crate::rhythm::MINUTE_US;

verus! {

/// An RGBA color with 8-bit channels.
#[derive(Clone, Copy, PartialEq, Eq, Structural, Debug, Hash)]
pub struct Color {
    /// Red channel.
    pub r: u8,
    /// Green channel.
    pub g: u8,
    /// Blue channel.
    pub b: u8,
    /// Alpha channel; 0 is fully transparent.
    pub a: u8,
}

/// The fully transparent color a tile shows while its rhythm is off.
pub open spec fn transparent() -> Color {
    Color { r: 0, g: 0, b: 0, a: 0 }
}

impl Color {
    /// A color from its four channels.
    pub fn new(r: u8, g: u8, b: u8, a: u8) -> (c: Color)
        ensures
            c == (Color { r, g, b, a }),
    {
        Color { r, g, b, a }
    }
}

/// Mathematical state of a tile.
#[verifier::ext_equal]
pub struct TileModel {
    /// Base color of the tile.
    pub color: Color,
    /// The tile's rhythm, if it has one.
    pub rhythm: Option<RhythmModel>,
    /// Whether stepping on this tile clears the level.
    pub goal: bool,
}

impl TileModel {
    /// The tile's rhythm, if present, is well formed.
    pub open spec fn wf(self) -> bool {
        self.rhythm matches Some(r) ==> r.wf()
    }

    /// The tile after `dt` microseconds pass.
    pub open spec fn updated(self, dt: int) -> TileModel {
        match self.rhythm {
            Some(r) => TileModel { rhythm: Some(r.advanced(dt)), ..self },
            None => self,
        }
    }

    /// The tile with its clock set back to the start of the measure.
    pub open spec fn restarted(self) -> TileModel {
        match self.rhythm {
            Some(r) => TileModel { rhythm: Some(r.restarted()), ..self },
            None => self,
        }
    }

    /// The tile with its rhythm rebound to beat duration `d`.
    pub open spec fn with_duration(self, d: int) -> TileModel {
        match self.rhythm {
            Some(r) => TileModel { rhythm: Some(r.with_duration(d)), ..self },
            None => self,
        }
    }

    /// `None` for a tile without a rhythm; otherwise whether the rhythm is
    /// active or within `w` microseconds of the active span of some beat.
    pub open spec fn on_state(self, w: int) -> Option<bool> {
        match self.rhythm {
            Some(r) => Some(r.on_beat(w)),
            None => None,
        }
    }

    /// The color the tile shows: its base color when it has no rhythm or
    /// its rhythm is on the current beat, fully transparent otherwise.
    pub open spec fn effective_color(self) -> Color {
        match self.rhythm {
            Some(r) => if r.is_on() {
                self.color
            } else {
                transparent()
            },
            None => self.color,
        }
    }
}

/// A grid cell: a color, an optional rhythm, and a goal flag.
pub struct Tile {
    /// Base color of the tile.
    pub color: Color,
    /// The tile's rhythm, if it has one.
    pub rhythm: Option<Rhythm>,
    /// Whether stepping on this tile clears the level.
    pub goal: bool,
}

impl View for Tile {
    type V = TileModel;

    open spec fn view(&self) -> TileModel {
        TileModel {
            color: self.color,
            rhythm: match self.rhythm {
                Some(r) => Some(r@),
                None => None,
            },
            goal: self.goal,
        }
    }
}

impl Clone for Tile {
    /// A deep copy with the same mathematical state.
    fn clone(&self) -> (r: Tile)
        ensures
            r@ == self@,
    {
        Tile {
            color: self.color,
            rhythm: match &self.rhythm {
                Some(r) => Some(r.clone()),
                None => None,
            },
            goal: self.goal,
        }
    }
}

impl Tile {
    /// A non-goal tile with the given color and rhythm.
    pub fn from(color: &Color, rhythm: Option<Rhythm>) -> (t: Tile)
        ensures
            t@.color == *color,
            t@.goal == false,
            rhythm is None ==> t@.rhythm is None,
            rhythm matches Some(r) ==> t@.rhythm == Some(r@),
    {
        Tile { color: *color, rhythm, goal: false }
    }

    /// Advance the tile's clock by `delta` microseconds, if it has one.
    pub fn update(&mut self, delta: i64)
        requires
            old(self)@.wf(),
        ensures
            final(self)@ == old(self)@.updated(delta as int),
            final(self)@.wf(),
    {
        if let Some(r) = &mut self.rhythm {
            r.update(delta);
        }
    }

    /// `None` for a tile without a rhythm; otherwise whether the rhythm is
    /// active or within `window` microseconds of the active span of some
    /// beat.
    pub fn on(&self, window: u64) -> (r: Option<bool>)
        requires
            self@.wf(),
        ensures
            r == self@.on_state(window as int),
    {
        match &self.rhythm {
            Some(rh) => Some(rh.on_beat(window)),
            None => None,
        }
    }

    /// The color the tile shows right now.
    pub fn get_color(&self) -> (c: Color)
        requires
            self@.wf(),
        ensures
            c == self@.effective_color(),
    {
        match &self.rhythm {
            None => self.color,
            Some(rh) => {
                if rh.on() {
                    self.color
                } else {
                    Color { r: 0, g: 0, b: 0, a: 0 }
                }
            },
        }
    }

    /// Rebind the tile's rhythm, if any, to the given tempo.
    pub fn set_tempo(&mut self, tempo: u32)
        requires
            old(self)@.wf(),
            1 <= tempo <= MINUTE_US,
            old(self)@.rhythm matches Some(r) ==> MINUTE_US * r.length <= i64::MAX,
        ensures
            final(self)@ == old(self)@.with_duration(beat_length_spec(tempo as int)),
            final(self)@.wf(),
    {
        if let Some(r) = &mut self.rhythm {
            r.set_tempo(tempo);
        }
    }

    /// Set the tile's clock, if any, back to the start of its measure.
    pub fn reset_clock(&mut self)
        ensures
            final(self)@ == old(self)@.restarted(),
    {
        if let Some(r) = &mut self.rhythm {
            r.reset();
        }
    }
}

/// Whether two tiles have the same mathematical state.
pub fn tiles_equal(a: &Tile, b: &Tile) -> (r: bool)
    ensures
        r == (a@ == b@),
{
    if a.color.r != b.color.r || a.color.g != b.color.g || a.color.b != b.color.b
        || a.color.a != b.color.a {
        return false;
    }
    if a.goal != b.goal {
        return false;
    }
    match (&a.rhythm, &b.rhythm) {
        (None, None) => true,
        (Some(x), Some(y)) => x.same_state(y),
        _ => false,
    }
}

/// Index of the first palette entry with the same state as `t`, if any.
fn find_tile(palette: &Vec<Tile>, t: &Tile) -> (r: Option<usize>)
    ensures
        r matches Some(i) ==> i < palette@.len() && palette@[i as int]@ == t@,
        r is None ==> forall|p: int| 0 <= p < palette@.len() ==> (#[trigger] palette@[p])@ != t@,
{
    let n = palette.len();
    let mut k: usize = 0;
    while k < n
        invariant
            n == palette@.len(),
            k <= n,
            forall|p: int| 0 <= p < k ==> (#[trigger] palette@[p])@ != t@,
        decreases n - k,
    {
        if tiles_equal(&palette[k], t) {
            return Some(k);
        }
        k = k + 1;
    }
    None
}

/// A row-major cell index stays within the grid.
pub proof fn lemma_cell_index_bounds(x: int, y: int, rows: int, cols: int)
    requires
        0 <= x < rows,
        0 <= y < cols,
    ensures
        0 <= x * cols + y < rows * cols,
{
    assert(0 <= x * cols + y < rows * cols) by (nonlinear_arith)
        requires
            0 <= x < rows,
            0 <= y < cols,
    {
    }
}

/// Mathematical state of a tile map: a palette of distinct tiles and a
/// row-major grid of palette indices.
#[verifier::ext_equal]
pub struct TileMapModel {
    /// The deduplicated tiles.
    pub palette: Seq<TileModel>,
    /// Palette index of every cell, in row-major order.
    pub cells: Seq<usize>,
    /// Number of rows of the grid.
    pub rows: int,
    /// Number of columns of the grid.
    pub cols: int,
    /// Starting cell of the player, as `(row, column)`.
    pub start: (usize, usize),
}

impl TileMapModel {
    /// The map is well formed: the grid holds `rows * cols` indices, every
    /// index points into the palette, and every palette tile is well
    /// formed.
    pub open spec fn wf(self) -> bool {
        &&& 0 <= self.rows
        &&& 0 <= self.cols
        &&& self.cells.len() == self.rows * self.cols
        &&& forall|k: int| 0 <= k < self.cells.len() ==> (#[trigger] self.cells[k]) < self.palette.len()
        &&& forall|p: int| 0 <= p < self.palette.len() ==> (#[trigger] self.palette[p]).wf()
    }

    /// Whether `(r, c)` is a cell of the grid.
    pub open spec fn in_bounds(self, r: int, c: int) -> bool {
        0 <= r < self.rows && 0 <= c < self.cols
    }

    /// The tile shown at cell `(r, c)`.
    pub open spec fn tile_at(self, r: int, c: int) -> TileModel {
        self.palette[self.cells[r * self.cols + c] as int]
    }

    /// Every palette entry is the tile of some cell of the grid: the
    /// palette holds nothing but the grid's (deduplicated) tiles, so it
    /// can never outgrow the grid.
    pub open spec fn palette_covered(self) -> bool {
        forall|p: int|
            #![trigger self.palette[p]]
            0 <= p < self.palette.len() ==> exists|x: int, y: int|
                #![auto]
                0 <= x < self.rows && 0 <= y < self.cols && self.tile_at(x, y) == self.palette[p]
    }

    /// Every rhythm of the palette can be rebound to a tempo without the
    /// measure outgrowing the clock's range.
    pub open spec fn tempo_bindable(self) -> bool {
        forall|p: int|
            0 <= p < self.palette.len() ==> ((#[trigger] self.palette[p]).rhythm matches Some(r)
                ==> MINUTE_US * r.length <= i64::MAX as int)
    }

    /// The map after `dt` microseconds pass on every tile clock.
    pub open spec fn updated(self, dt: int) -> TileMapModel {
        TileMapModel { palette: self.palette.map_values(|t: TileModel| t.updated(dt)), ..self }
    }

    /// The map with every tile clock set back to the start of its measure.
    pub open spec fn restarted(self) -> TileMapModel {
        TileMapModel { palette: self.palette.map_values(|t: TileModel| t.restarted()), ..self }
    }

    /// The map with every tile rhythm rebound to beat duration `d`.
    pub open spec fn with_duration(self, d: int) -> TileMapModel {
        TileMapModel { palette: self.palette.map_values(|t: TileModel| t.with_duration(d)), ..self }
    }
}

/// A rectangular grid of tiles, stored as a palette of distinct tiles and
/// a grid of palette indices.
pub struct TileMap {
    tiles: Vec<Tile>,
    map: array2d::Array2D<usize>,
    /// Starting cell of the player, as `(row, column)`.
    pub starting_location: (usize, usize),
}

impl View for TileMap {
    type V = TileMapModel;

    closed spec fn view(&self) -> TileMapModel {
        TileMapModel {
            palette: self.tiles@.map_values(|t: Tile| t@),
            cells: grid_cells(self.map),
            rows: grid_rows(self.map),
            cols: grid_cols(self.map),
            start: self.starting_location,
        }
    }
}

impl TileMap {
    /// Build a map from rows of tiles, deduplicating identical tiles into
    /// the palette.  Returns `None` exactly when the rows do not all have
    /// the same length.
    #[verifier::loop_isolation(false)]
    pub fn from_rows(rows_in: &Vec<Vec<Tile>>) -> (r: Option<TileMap>)
        requires
            forall|i: int, j: int|
                0 <= i < rows_in@.len() && 0 <= j < rows_in@[i]@.len() ==> (#[trigger] rows_in@[i]@[j])@.wf(),
        ensures
            (r is Some) <==> (forall|i: int|
                0 <= i < rows_in@.len() ==> (#[trigger] rows_in@[i])@.len() == rows_in@[0]@.len()),
            r matches Some(m) ==> {
                &&& m@.wf()
                &&& m@.rows == rows_in@.len()
                &&& m@.cols == if rows_in@.len() == 0 { 0int } else { rows_in@[0]@.len() as int }
                &&& forall|i: int, j: int|
                    0 <= i < m@.rows && 0 <= j < m@.cols ==> m@.tile_at(i, j) == (#[trigger] rows_in@[i]@[j])@
                &&& forall|p: int, q: int|
                    0 <= p < q < m@.palette.len() ==> m@.palette[p] != m@.palette[q]
                &&& m@.palette_covered()
                &&& m@.start == (0usize, 0usize)
            },
    {
        let nrows = rows_in.len();
        let ncols = if nrows == 0 { 0 } else { rows_in[0].len() };
        let mut i: usize = 0;
        while i < nrows
            invariant
                i <= nrows,
                forall|x: int| 0 <= x < i ==> (#[trigger] rows_in@[x])@.len() == ncols,
            decreases nrows - i,
        {
            if rows_in[i].len() != ncols {
                return None;
            }
            i = i + 1;
        }
        let mut palette: Vec<Tile> = Vec::new();
        let mut cells: Vec<usize> = Vec::new();
        let ghost mut wit: Seq<(int, int)> = Seq::empty();
        let mut r: usize = 0;
        while r < nrows
            invariant
                r <= nrows,
                cells@.len() == r * ncols,
                forall|k: int| 0 <= k < cells@.len() ==> (#[trigger] cells@[k]) < palette@.len(),
                forall|p: int| 0 <= p < palette@.len() ==> (#[trigger] palette@[p])@.wf(),
                forall|p: int, q: int|
                    0 <= p < q < palette@.len() ==> palette@[p]@ != palette@[q]@,
                forall|x: int, y: int|
                    0 <= x < r && 0 <= y < ncols ==> palette@[cells@[x * ncols + y] as int]@
                        == (#[trigger] rows_in@[x]@[y])@,
                wit.len() == palette@.len(),
                forall|p: int|
                    0 <= p < wit.len() ==> 0 <= (#[trigger] wit[p]).0 < r && 0 <= wit[p].1 < ncols
                        && palette@[p]@ == rows_in@[wit[p].0]@[wit[p].1]@,
            decreases nrows - r,
        {
            let mut c: usize = 0;
            while c < ncols
                invariant
                    r < nrows,
                    c <= ncols,
                    cells@.len() == r * ncols + c,
                    forall|k: int| 0 <= k < cells@.len() ==> (#[trigger] cells@[k]) < palette@.len(),
                    forall|p: int| 0 <= p < palette@.len() ==> (#[trigger] palette@[p])@.wf(),
                    forall|p: int, q: int|
                        0 <= p < q < palette@.len() ==> palette@[p]@ != palette@[q]@,
                    forall|x: int, y: int|
                        0 <= x < r && 0 <= y < ncols ==> palette@[cells@[x * ncols + y] as int]@
                            == (#[trigger] rows_in@[x]@[y])@,
                    forall|y: int|
                        0 <= y < c ==> palette@[cells@[r * ncols + y] as int]@
                            == (#[trigger] rows_in@[r as int]@[y])@,
                    wit.len() == palette@.len(),
                    forall|p: int|
                        0 <= p < wit.len() ==> 0 <= (#[trigger] wit[p]).0 <= r as int
                            && (wit[p].0 < r || wit[p].1 < c) && 0 <= wit[p].1 < ncols
                            && palette@[p]@ == rows_in@[wit[p].0]@[wit[p].1]@,
                decreases ncols - c,
            {
                let t = &rows_in[r][c];
                let id: usize = match find_tile(&palette, t) {
                    Some(id) => id,
                    None => {
                        let id = palette.len();
                        palette.push(t.clone());
                        proof {
                            wit = wit.push((r as int, c as int));
                        }
                        id
                    },
                };
                cells.push(id);
                proof {
                    assert forall|x: int, y: int|
                        0 <= x < r && 0 <= y < ncols implies palette@[cells@[x * ncols + y] as int]@
                        == (#[trigger] rows_in@[x]@[y])@ by {
                        lemma_cell_index_bounds(x, y, r as int, ncols as int);
                    }
                }
                c = c + 1;
            }
            proof {
                assert((r + 1) * ncols == r * ncols + ncols) by (nonlinear_arith);
                assert forall|x: int, y: int|
                    0 <= x < r + 1 && 0 <= y < ncols implies palette@[cells@[x * ncols + y] as int]@
                    == (#[trigger] rows_in@[x]@[y])@ by {
                    lemma_cell_index_bounds(x, y, r + 1, ncols as int);
                    if x < r {
                        assert(palette@[cells@[x * ncols + y] as int]@ == rows_in@[x]@[y]@);
                    } else {
                        assert(palette@[cells@[r * ncols + y] as int]@ == rows_in@[r as int]@[y]@);
                    }
                }
            }
            r = r + 1;
        }
        let n_cells = cells.len();
        proof {
            assert(nrows * ncols == n_cells);
        }
        let g = grid_from_row_major(&cells, nrows, ncols);
        match g {
            Ok(map) => {
                let m = TileMap { tiles: palette, map, starting_location: (0, 0) };
                proof {
                    assert forall|i2: int, j2: int|
                        0 <= i2 < m@.rows && 0 <= j2 < m@.cols implies m@.tile_at(i2, j2)
                        == rows_in@[i2]@[j2]@ by {
                        lemma_cell_index_bounds(i2, j2, nrows as int, ncols as int);
                        assert(palette@[cells@[i2 * ncols + j2] as int]@ == rows_in@[i2]@[j2]@);
                    }
                    assert(m@.palette_covered()) by {
                        assert forall|p: int|
                            #![trigger m@.palette[p]]
                            0 <= p < m@.palette.len() implies exists|x: int, y: int|
                            #![auto]
                            0 <= x < m@.rows && 0 <= y < m@.cols && m@.tile_at(x, y)
                                == m@.palette[p] by {
                            let wx = wit[p].0;
                            let wy = wit[p].1;
                            assert(0 <= wx < nrows && 0 <= wy < ncols
                                && palette@[p]@ == rows_in@[wx]@[wy]@);
                            assert(m@.tile_at(wx, wy) == rows_in@[wx]@[wy]@);
                            assert(0 <= wx < m@.rows && 0 <= wy < m@.cols && m@.tile_at(wx, wy)
                                == m@.palette[p]);
                        }
                    }
                }
                Some(m)
            },
            Err(_) => None,
        }
    }

    /// Number of rows of the grid.
    pub fn num_rows(&self) -> (r: usize)
        ensures
            r == self@.rows,
    {
        grid_num_rows(&self.map)
    }

    /// Number of columns of the grid.
    pub fn num_columns(&self) -> (r: usize)
        ensures
            r == self@.cols,
    {
        grid_num_columns(&self.map)
    }

    /// The tile at cell `(r, c)`, or `None` outside the grid.
    pub fn get(&self, r: usize, c: usize) -> (t: Option<&Tile>)
        requires
            self@.wf(),
        ensures
            self@.in_bounds(r as int, c as int) ==> (t matches Some(tile) && tile@ == self@.tile_at(
                r as int,
                c as int,
            )),
            !self@.in_bounds(r as int, c as int) ==> t is None,
    {
        match grid_get(&self.map, r, c) {
            Some(idx) => {
                proof {
                    lemma_cell_index_bounds(r as int, c as int, self@.rows, self@.cols);
                    assert(self@.cells[r as int * self@.cols + c as int] < self@.palette.len());
                }
                Some(&self.tiles[idx])
            },
            None => None,
        }
    }

    /// The grid coordinates in column-major order: every `(row, column)`
    /// with the column varying slowest.
    #[verifier::loop_isolation(false)]
    pub fn indices_column_major(&self) -> (ix: Vec<(usize, usize)>)
        requires
            self@.wf(),
        ensures
            ix@.len() == self@.cells.len(),
            forall|k: int|
                0 <= k < ix@.len() ==> (#[trigger] ix@[k]).0 == k % self@.rows && ix@[k].1 == k
                    / self@.rows,
    {
        let nrows = self.num_rows();
        let ncols = self.num_columns();
        let mut ix: Vec<(usize, usize)> = Vec::new();
        let mut c: usize = 0;
        while c < ncols
            invariant
                c <= ncols,
                ix@.len() == c * nrows,
                forall|k: int|
                    0 <= k < ix@.len() ==> (#[trigger] ix@[k]).0 == k % self@.rows && ix@[k].1 == k
                        / self@.rows,
            decreases ncols - c,
        {
            let mut r: usize = 0;
            while r < nrows
                invariant
                    c < ncols,
                    r <= nrows,
                    ix@.len() == c * nrows + r,
                    forall|k: int|
                        0 <= k < ix@.len() ==> (#[trigger] ix@[k]).0 == k % self@.rows && ix@[k].1
                            == k / self@.rows,
                decreases nrows - r,
            {
                ix.push((r, c));
                proof {
                    lemma_fundamental_div_mod_converse(
                        c * nrows + r,
                        nrows as int,
                        c as int,
                        r as int,
                    );
                }
                r = r + 1;
            }
            proof {
                assert((c + 1) * nrows == c * nrows + nrows) by (nonlinear_arith);
            }
            c = c + 1;
        }
        proof {
            vstd::arithmetic::mul::lemma_mul_is_commutative(ncols as int, nrows as int);
        }
        ix
    }

    /// The tiles of the grid in column-major order, together with their
    /// coordinates.
    #[verifier::loop_isolation(false)]
    pub fn enumerate_column_major(&self) -> (ts: Vec<((usize, usize), Tile)>)
        requires
            self@.wf(),
        ensures
            ts@.len() == self@.cells.len(),
            forall|k: int|
                0 <= k < ts@.len() ==> (#[trigger] ts@[k]).0.0 == k % self@.rows && ts@[k].0.1 == k
                    / self@.rows && ts@[k].1@ == self@.tile_at(k % self@.rows, k / self@.rows),
    {
        let nrows = self.num_rows();
        let ncols = self.num_columns();
        let mut ts: Vec<((usize, usize), Tile)> = Vec::new();
        let mut c: usize = 0;
        while c < ncols
            invariant
                c <= ncols,
                ts@.len() == c * nrows,
                forall|k: int|
                    0 <= k < ts@.len() ==> (#[trigger] ts@[k]).0.0 == k % self@.rows && ts@[k].0.1
                        == k / self@.rows && ts@[k].1@ == self@.tile_at(
                        k % self@.rows,
                        k / self@.rows,
                    ),
            decreases ncols - c,
        {
            let mut r: usize = 0;
            while r < nrows
                invariant
                    c < ncols,
                    r <= nrows,
                    ts@.len() == c * nrows + r,
                    forall|k: int|
                        0 <= k < ts@.len() ==> (#[trigger] ts@[k]).0.0 == k % self@.rows
                            && ts@[k].0.1 == k / self@.rows && ts@[k].1@ == self@.tile_at(
                            k % self@.rows,
                            k / self@.rows,
                        ),
                decreases nrows - r,
            {
                let t = match self.get(r, c) {
                    Some(t) => t.clone(),
                    None => Tile { color: Color { r: 0, g: 0, b: 0, a: 0 }, rhythm: None, goal: false },
                };
                ts.push(((r, c), t));
                proof {
                    lemma_fundamental_div_mod_converse(
                        c * nrows + r,
                        nrows as int,
                        c as int,
                        r as int,
                    );
                }
                r = r + 1;
            }
            proof {
                assert((c + 1) * nrows == c * nrows + nrows) by (nonlinear_arith);
            }
            c = c + 1;
        }
        proof {
            vstd::arithmetic::mul::lemma_mul_is_commutative(ncols as int, nrows as int);
        }
        ts
    }

    /// The tiles of the grid in column-major order.
    pub fn iter(&self) -> (ts: Vec<Tile>)
        requires
            self@.wf(),
        ensures
            ts@.len() == self@.cells.len(),
            forall|k: int|
                0 <= k < ts@.len() ==> (#[trigger] ts@[k])@ == self@.tile_at(
                    k % self@.rows,
                    k / self@.rows,
                ),
    {
        let pairs = self.enumerate_column_major();
        let mut ts: Vec<Tile> = Vec::new();
        let n = pairs.len();
        let mut k: usize = 0;
        while k < n
            invariant
                n == pairs@.len(),
                pairs@.len() == self@.cells.len(),
                k <= n,
                ts@.len() == k,
                forall|j: int|
                    0 <= j < n ==> (#[trigger] pairs@[j]).1@ == self@.tile_at(
                        j % self@.rows,
                        j / self@.rows,
                    ),
                forall|j: int|
                    0 <= j < k ==> (#[trigger] ts@[j])@ == self@.tile_at(
                        j % self@.rows,
                        j / self@.rows,
                    ),
            decreases n - k,
        {
            ts.push(pairs[k].1.clone());
            k = k + 1;
        }
        ts
    }

    /// Number of distinct tiles in the palette.
    pub fn palette_size(&self) -> (n: usize)
        ensures
            n == self@.palette.len(),
    {
        self.tiles.len()
    }

    /// Starting cell of the player, as `(row, column)`.
    pub fn start(&self) -> (s: (usize, usize))
        ensures
            s == self@.start,
    {
        self.starting_location
    }

    /// Set the starting cell of the player.
    pub fn set_start(&mut self, s: (usize, usize))
        ensures
            final(self)@ == (TileMapModel { start: s, ..old(self)@ }),
    {
        self.starting_location = s;
    }

    /// Whether every rhythm of the palette can be rebound to a tempo
    /// without the measure outgrowing the clock's range.
    pub fn can_bind_tempo(&self) -> (b: bool)
        requires
            self@.wf(),
        ensures
            b == self@.tempo_bindable(),
    {
        let n = self.tiles.len();
        let mut i: usize = 0;
        while i < n
            invariant
                n == self.tiles@.len(),
                i <= n,
                forall|p: int|
                    0 <= p < i ==> ((#[trigger] self@.palette[p]).rhythm matches Some(r)
                        ==> MINUTE_US * r.length <= i64::MAX as int),
            decreases n - i,
        {
            match &self.tiles[i].rhythm {
                Some(rh) => {
                    let len = rh.length();
                    if (MINUTE_US as u128) * (len as u128) > (i64::MAX as u128) {
                        proof {
                            assert(self@.palette[i as int].rhythm matches Some(r)
                                && MINUTE_US * r.length > i64::MAX as int);
                        }
                        return false;
                    }
                },
                None => {},
            }
            i = i + 1;
        }
        true
    }

    /// Rebind every tile rhythm of the palette to the given tempo.
    #[verifier::loop_isolation(false)]
    pub fn set_tempo(&mut self, tempo: u32)
        requires
            old(self)@.wf(),
            1 <= tempo <= MINUTE_US,
            old(self)@.tempo_bindable(),
        ensures
            final(self)@ == old(self)@.with_duration(beat_length_spec(tempo as int)),
            final(self)@.wf(),
    {
        let n = self.tiles.len();
        let mut i: usize = 0;
        while i < n
            invariant
                n == self.tiles@.len(),
                i <= n,
                self.map == old(self).map,
                self.starting_location == old(self).starting_location,
                forall|p: int|
                    0 <= p < i ==> (#[trigger] self.tiles@[p])@ == old(self).tiles@[p]@.with_duration(
                        beat_length_spec(tempo as int),
                    ) && (self.tiles@[p])@.wf(),
                forall|p: int| i <= p < n ==> (#[trigger] self.tiles@[p])@ == old(self).tiles@[p]@,
            decreases n - i,
        {
            let mut t = self.tiles[i].clone();
            proof {
                assert(old(self)@.palette[i as int].wf());
                assert(old(self)@.palette[i as int] == old(self).tiles@[i as int]@);
            }
            t.set_tempo(tempo);
            self.tiles.set(i, t);
            i = i + 1;
        }
        proof {
            assert(self@.palette =~= old(self)@.palette.map_values(
                |t: TileModel| t.with_duration(beat_length_spec(tempo as int)),
            ));
            assert(self@ =~= old(self)@.with_duration(beat_length_spec(tempo as int)));
        }
    }

    /// Advance every tile clock of the palette by `delta` microseconds.
    #[verifier::loop_isolation(false)]
    pub fn update(&mut self, delta: i64)
        requires
            old(self)@.wf(),
        ensures
            final(self)@ == old(self)@.updated(delta as int),
            final(self)@.wf(),
    {
        let n = self.tiles.len();
        let mut i: usize = 0;
        while i < n
            invariant
                n == self.tiles@.len(),
                i <= n,
                self.map == old(self).map,
                self.starting_location == old(self).starting_location,
                forall|p: int|
                    0 <= p < i ==> (#[trigger] self.tiles@[p])@ == old(self).tiles@[p]@.updated(
                        delta as int,
                    ) && (self.tiles@[p])@.wf(),
                forall|p: int| i <= p < n ==> (#[trigger] self.tiles@[p])@ == old(self).tiles@[p]@,
            decreases n - i,
        {
            let mut t = self.tiles[i].clone();
            proof {
                assert(old(self)@.palette[i as int].wf());
            }
            t.update(delta);
            self.tiles.set(i, t);
            i = i + 1;
        }
        proof {
            assert(self@.palette =~= old(self)@.palette.map_values(
                |t: TileModel| t.updated(delta as int),
            ));
            assert(self@ =~= old(self)@.updated(delta as int));
        }
    }

    /// Set every tile clock of the palette back to the start of its
    /// measure.
    #[verifier::loop_isolation(false)]
    pub fn reset_clocks(&mut self)
        requires
            old(self)@.wf(),
        ensures
            final(self)@ == old(self)@.restarted(),
            final(self)@.wf(),
    {
        let n = self.tiles.len();
        let mut i: usize = 0;
        while i < n
            invariant
                n == self.tiles@.len(),
                i <= n,
                self.map == old(self).map,
                self.starting_location == old(self).starting_location,
                forall|p: int|
                    0 <= p < i ==> (#[trigger] self.tiles@[p])@ == old(self).tiles@[p]@.restarted()
                        && (self.tiles@[p])@.wf(),
                forall|p: int| i <= p < n ==> (#[trigger] self.tiles@[p])@ == old(self).tiles@[p]@,
            decreases n - i,
        {
            let mut t = self.tiles[i].clone();
            proof {
                assert(old(self)@.palette[i as int].wf());
            }
            t.reset_clock();
            self.tiles.set(i, t);
            i = i + 1;
        }
        proof {
            assert(self@.palette =~= old(self)@.palette.map_values(
                |t: TileModel| t.restarted(),
            ));
            assert(self@ =~= old(self)@.restarted());
        }
    }
}

} // verus!

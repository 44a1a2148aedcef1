//! The placement grid: a dense 2D lookup from board coordinate to the tile
//! occupying it, if any, built once from the sparse placement list.

use vstd::prelude::*;
use crate::ids::TileID;

verus! {

/// A rectangular array addressed by a pair of coordinates.
pub struct Matrix<T> {
    width: usize,
    height: usize,
    data: Vec<T>,
}

impl<T> Matrix<T> {
    /// The backing vector holds exactly one value per cell.
    pub closed spec fn wf(self) -> bool {
        self.data.len() == self.width * self.height
    }

    /// Number of columns.
    pub closed spec fn spec_width(&self) -> int {
        self.width as int
    }

    /// Number of rows.
    pub closed spec fn spec_height(&self) -> int {
        self.height as int
    }

    /// The value stored at column `x`, row `y`.
    pub closed spec fn spec_at(&self, x: int, y: int) -> T {
        self.data[y * self.width + x]
    }

    /// A matrix over the values of `data`, read in rows of length `width`:
    /// the value at column `x` of row `y` is `data[y * width + x]`.
    pub fn from_vec(data: Vec<T>, width: usize) -> (r: Self)
        requires
            width == 0 ==> data@.len() == 0,
            width > 0 ==> data@.len() as int % width as int == 0,
        ensures
            r.wf(),
            r.spec_width() == width,
            width > 0 ==> r.spec_height() == data@.len() as int / width as int,
            width == 0 ==> r.spec_height() == 0,
            forall|x: int, y: int|
                0 <= x < r.spec_width() && 0 <= y < r.spec_height() ==> #[trigger] r.spec_at(x, y)
                    == data@[y * width + x],
    {
        let height: usize = if width == 0 {
            0
        } else {
            data.len() / width
        };
        proof {
            if width > 0 {
                assert(width * (data@.len() as int / width as int) == data@.len()) by (nonlinear_arith)
                    requires
                        width > 0,
                        data@.len() as int % width as int == 0,
                ;
            }
        }
        Matrix { width, height, data }
    }

    /// The value at `(x, y)`, or `None` when the coordinate lies outside
    /// the rectangle (in particular when it is negative).
    pub fn get(&self, x: i32, y: i32) -> (r: Option<&T>)
        requires
            self.wf(),
        ensures
            match r {
                Some(v) => 0 <= x < self.spec_width() && 0 <= y < self.spec_height() && *v
                    == self.spec_at(x as int, y as int),
                None => !(0 <= x < self.spec_width() && 0 <= y < self.spec_height()),
            },
    {
        if x >= 0 && y >= 0 && (x as usize) < self.width && (y as usize) < self.height {
            let xi = x as usize;
            let yi = y as usize;
            proof {
                assert(yi * self.width + xi < self.width * self.height) by (nonlinear_arith)
                    requires
                        xi < self.width,
                        yi < self.height,
                ;
            }
            Some(&self.data[yi * self.width + xi])
        } else {
            None
        }
    }

    /// Replace the value at `(x, y)`, which must lie inside the rectangle.
    pub fn set(&mut self, x: usize, y: usize, value: T)
        requires
            old(self).wf(),
            x < old(self).spec_width(),
            y < old(self).spec_height(),
        ensures
            final(self).wf(),
            final(self).spec_width() == old(self).spec_width(),
            final(self).spec_height() == old(self).spec_height(),
            final(self).spec_at(x as int, y as int) == value,
            forall|x2: int, y2: int|
                0 <= x2 < old(self).spec_width() && 0 <= y2 < old(self).spec_height() && !(x2 == x
                    && y2 == y) ==> #[trigger] final(self).spec_at(x2, y2) == old(self).spec_at(
                    x2,
                    y2,
                ),
    {
        proof {
            assert(y * self.width + x < self.width * self.height) by (nonlinear_arith)
                requires
                    x < self.width,
                    y < self.height,
            ;
        }
        let i = y * self.width + x;
        self.data.set(i, value);
        proof {
            assert forall|x2: int, y2: int|
                0 <= x2 < self.spec_width() && 0 <= y2 < self.spec_height() && !(x2 == x && y2
                    == y) implies #[trigger] self.spec_at(x2, y2) == old(self).spec_at(x2, y2) by {
                assert(y2 * self.width + x2 != y * self.width + x && 0 <= y2 * self.width + x2
                    < self.width * self.height) by (nonlinear_arith)
                    requires
                        0 <= x2 < self.width,
                        0 <= y2 < self.height,
                        0 <= x < self.width,
                        0 <= y < self.height,
                        x2 != x || y2 != y,
                ;
            }
        }
    }
}

/// The cell of the grid that holds tile `i` of the placement list.
pub open spec fn placement_pos(placement: Seq<[u8; 2]>, i: int) -> (int, int) {
    (placement[i][0] as int, placement[i][1] as int)
}

/// The grid `m` is the 2D inversion of `placement` on a `w` by `h` board:
/// the cell at each placement holds that tile's identifier, and every
/// occupied cell points back at a tile placed there.
pub open spec fn grid_matches(
    m: &Matrix<Option<TileID>>,
    w: int,
    h: int,
    placement: Seq<[u8; 2]>,
) -> bool {
    &&& m.wf()
    &&& m.spec_width() == w
    &&& m.spec_height() == h
    &&& forall|i: int|
        0 <= i < placement.len() ==> #[trigger] m.spec_at(
            placement_pos(placement, i).0,
            placement_pos(placement, i).1,
        ) == Some(TileID(i as u8))
    &&& forall|x: int, y: int|
        0 <= x < w && 0 <= y < h ==> (#[trigger] m.spec_at(x, y) matches Some(t) ==> 0 <= t.0
            < placement.len() && placement_pos(placement, t.0 as int) == (x, y))
}

/// No two tiles of the placement list share a position.
pub open spec fn placement_distinct(placement: Seq<[u8; 2]>) -> bool {
    forall|i: int, j: int|
        0 <= i < j < placement.len() ==> placement_pos(placement, i) != placement_pos(placement, j)
}

/// A placement list fits a `w` by `h` board when every position lies on the
/// board and no two tiles share a position.
pub open spec fn placement_fits(placement: Seq<[u8; 2]>, w: int, h: int) -> bool {
    &&& forall|i: int|
        0 <= i < placement.len() ==> placement_pos(placement, i).0 < w && placement_pos(
            placement,
            i,
        ).1 < h
    &&& placement_distinct(placement)
}

/// Given the size of the map and the positions of the tiles within it,
/// produce the 2D lookup from position to the tile located there, if any.
pub fn derive_2d_map(map_size: [u8; 2], tile_placement: &Vec<[u8; 2]>) -> (r: Matrix<Option<TileID>>)
    requires
        map_size[0] > 0,
        map_size[1] > 0,
        tile_placement@.len() <= u8::MAX as int + 1,
        placement_fits(tile_placement@, map_size[0] as int, map_size[1] as int),
    ensures
        grid_matches(&r, map_size[0] as int, map_size[1] as int, tile_placement@),
{
    let width = map_size[0] as usize;
    let height = map_size[1] as usize;
    proof {
        assert(width * height <= 255 * 255) by (nonlinear_arith)
            requires
                width <= 255,
                height <= 255,
        ;
    }
    let total = width * height;
    let mut data: Vec<Option<TileID>> = Vec::new();
    let mut i: usize = 0;
    while i < total
        invariant
            i <= total,
            data@.len() == i,
            forall|j: int| 0 <= j < i ==> #[trigger] data@[j] is None,
        decreases total - i,
    {
        data.push(None);
        i = i + 1;
    }
    proof {
        if width > 0 {
            assert(total as int % width as int == 0) by (nonlinear_arith)
                requires
                    total == width * height,
                    width > 0,
            ;
        }
        assert(width > 0 ==> total as int / width as int == height) by (nonlinear_arith)
            requires
                total == width * height,
        ;
    }
    let ghost initial_cells = data@;
    let mut grid = Matrix::from_vec(data, width);
    proof {
        if width > 0 {
            assert(initial_cells.len() as int / width as int == height) by (nonlinear_arith)
                requires
                    width > 0,
                    initial_cells.len() == width * height,
            ;
        }
        assert forall|x: int, y: int|
            0 <= x < width && 0 <= y < height implies #[trigger] grid.spec_at(x, y) is None by {
            assert(0 <= y * width + x < width * height) by (nonlinear_arith)
                requires
                    0 <= x < width,
                    0 <= y < height,
            ;
            assert(initial_cells[y * width + x] is None);
        }
    }
    let mut t: usize = 0;
    while t < tile_placement.len()
        invariant
            t <= tile_placement@.len(),
            tile_placement@.len() <= u8::MAX as int + 1,
            placement_fits(tile_placement@, width as int, height as int),
            grid.wf(),
            grid.spec_width() == width,
            grid.spec_height() == height,
            forall|j: int|
                0 <= j < t ==> #[trigger] grid.spec_at(
                    placement_pos(tile_placement@, j).0,
                    placement_pos(tile_placement@, j).1,
                ) == Some(TileID(j as u8)),
            forall|x: int, y: int|
                0 <= x < width && 0 <= y < height ==> (#[trigger] grid.spec_at(x, y) matches Some(
                    u,
                ) ==> 0 <= u.0 < t && placement_pos(tile_placement@, u.0 as int) == (x, y)),
        decreases tile_placement@.len() - t,
    {
        let pos = tile_placement[t];
        proof {
            assert(placement_pos(tile_placement@, t as int) == (pos[0] as int, pos[1] as int));
        }
        grid.set(pos[0] as usize, pos[1] as usize, Some(TileID(t as u8)));
        t = t + 1;
        proof {
            assert forall|j: int|
                0 <= j < t implies #[trigger] grid.spec_at(
                placement_pos(tile_placement@, j).0,
                placement_pos(tile_placement@, j).1,
            ) == Some(TileID(j as u8)) by {
                if j < t - 1 {
                    assert(placement_pos(tile_placement@, j) != placement_pos(
                        tile_placement@,
                        t - 1,
                    ));
                }
            }
        }
    }
    grid
}

} // verus!

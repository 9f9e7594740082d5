//! Tile addresses and their enumeration over a range of zoom levels.

use vstd::prelude::*;
use vstd::arithmetic::power2::*;

verus! {

/// The deepest zoom level whose grid width still fits in a `u32`.
pub const MAX_ZOOM: u32 = 31;

/// More tiles than any walk holds: `2^68`.
pub const TILE_LIMIT: u128 = 0x10_0000_0000_0000_0000;

/// One cell of the `2^zoom` by `2^zoom` grid of a zoom level.
#[derive(Clone, Copy, Debug, PartialEq, Eq, Hash, Structural)]
pub struct TileAddress {
    pub zoom: u32,
    pub x: u32,
    pub y: u32,
}

/// The address with the given coordinates.
pub open spec fn tile_at(zoom: int, x: int, y: int) -> TileAddress {
    TileAddress { zoom: zoom as u32, x: x as u32, y: y as u32 }
}

/// Number of tiles along one axis at a zoom level.
pub open spec fn grid_width(zoom: int) -> int {
    pow2(zoom as nat) as int
}

/// The tiles `(zoom, x, y), (zoom, x, y + 1), ..` up to the last row `n - 1`.
pub open spec fn column(zoom: int, x: int, y: int, n: int) -> Seq<TileAddress> {
    Seq::new(
        if y < n {
            (n - y) as nat
        } else {
            0
        },
        |i: int| tile_at(zoom, x, y + i),
    )
}

/// The columns `x, x + 1, .., n - 1` of one zoom level, each from row
/// `start_y` on, one after the other.
pub open spec fn level_from(zoom: int, x: int, start_y: int, n: int) -> Seq<TileAddress>
    decreases n - x,
{
    if x >= n {
        Seq::empty()
    } else {
        column(zoom, x, start_y, n) + level_from(zoom, x + 1, start_y, n)
    }
}

/// Every tile of the zoom levels `zoom ..= end_zoom`, in the order of
/// enumeration: the levels ascending, and in each the columns from
/// `start_x` and the rows from `start_y`.
pub open spec fn tiles(zoom: int, end_zoom: int, start_x: int, start_y: int) -> Seq<TileAddress>
    decreases end_zoom + 1 - zoom,
{
    if zoom > end_zoom {
        Seq::empty()
    } else {
        level_from(zoom, start_x, start_y, grid_width(zoom)) + tiles(
            zoom + 1,
            end_zoom,
            start_x,
            start_y,
        )
    }
}

/// Width of the grid at `zoom`.
pub fn grid_size(zoom: u32) -> (n: u32)
    requires
        zoom <= MAX_ZOOM,
    ensures
        n == grid_width(zoom as int),
        1 <= n <= 0x8000_0000,
{
    proof {
        lemma2_to64();
        if zoom < 31 {
            lemma_pow2_strictly_increases(zoom as nat, 31);
        }
        lemma_pow2_pos(zoom as nat);
        vstd::bits::lemma_u32_shl_is_mul(1u32, zoom);
    }
    1u32 << zoom
}

/// A level is empty as soon as one of the two offsets lies past its grid.
pub proof fn lemma_level_empty(zoom: int, x: int, start_y: int, n: int)
    requires
        x >= n || start_y >= n,
    ensures
        level_from(zoom, x, start_y, n) =~= Seq::empty(),
    decreases n - x,
{
    if x < n {
        lemma_level_empty(zoom, x + 1, start_y, n);
    }
}

/// A lazy walk over `tiles(start_zoom, end_zoom, start_x, start_y)`: it holds
/// the next position only, never the sequence.
#[derive(Debug)]
pub struct Enumerator {
    zoom: u32,
    end_zoom: u32,
    x: u32,
    y: u32,
    start_x: u32,
    start_y: u32,
}

impl Enumerator {
    /// The state is one that `new` and `next` can reach.
    pub closed spec fn wf(&self) -> bool {
        self.end_zoom <= MAX_ZOOM && self.start_x <= self.x && self.start_y <= self.y
    }

    /// The last zoom level of the walk.
    pub closed spec fn last_zoom(&self) -> int {
        self.end_zoom as int
    }

    /// The column and the row at which every level starts.
    pub closed spec fn offsets(&self) -> (int, int) {
        (self.start_x as int, self.start_y as int)
    }

    /// The tiles not yet handed out, in the order in which `next` will give them.
    pub closed spec fn remaining(&self) -> Seq<TileAddress> {
        if self.zoom > self.end_zoom {
            Seq::empty()
        } else {
            let n = grid_width(self.zoom as int);
            let here = if self.x < n {
                column(self.zoom as int, self.x as int, self.y as int, n) + level_from(
                    self.zoom as int,
                    self.x + 1,
                    self.start_y as int,
                    n,
                )
            } else {
                Seq::empty()
            };
            here + tiles(
                self.zoom + 1,
                self.end_zoom as int,
                self.start_x as int,
                self.start_y as int,
            )
        }
    }

    /// What is left of a walk stays under `TILE_LIMIT`.
    pub proof fn remaining_bounded(&self)
        requires
            self.wf(),
        ensures
            self.remaining().len() <= TILE_LIMIT,
    {
        if self.zoom <= self.end_zoom {
            let z = self.zoom as int;
            let n = grid_width(z);
            lemma2_to64();
            lemma_pow2_pos(z as nat);
            if z < 31 {
                lemma_pow2_strictly_increases(z as nat, 31);
            }
            crate::order::level_length(z, self.x + 1, self.start_y as int, n);
            crate::order::tile_count_bounded(z, z, self.x + 1, self.start_y as int);
            assert(crate::order::tile_count(z + 1, z, self.x + 1, self.start_y as int) == 0);
            crate::order::tile_count_bounded(
                z + 1,
                self.end_zoom as int,
                self.start_x as int,
                self.start_y as int,
            );
            crate::order::enumeration_length(
                z + 1,
                self.end_zoom as int,
                self.start_x as int,
                self.start_y as int,
            );
        }
    }

    /// Starts a walk over the zoom levels `start_zoom ..= end_zoom`. With
    /// `start_zoom > end_zoom` the walk is empty.
    pub fn new(start_zoom: u32, end_zoom: u32, start_x: u32, start_y: u32) -> (e: Enumerator)
        requires
            end_zoom <= MAX_ZOOM,
        ensures
            e.wf(),
            e.last_zoom() == end_zoom,
            e.offsets() == (start_x as int, start_y as int),
            e.remaining() == tiles(
                start_zoom as int,
                end_zoom as int,
                start_x as int,
                start_y as int,
            ),
    {
        let e = Enumerator { zoom: start_zoom, end_zoom, x: start_x, y: start_y, start_x, start_y };
        proof {
            if start_zoom <= end_zoom {
                let n = grid_width(start_zoom as int);
                if start_x >= n {
                    assert(level_from(start_zoom as int, start_x as int, start_y as int, n)
                        =~= Seq::empty());
                }
            }
        }
        e
    }

    /// Whether the walk is over. The walk itself stays where it is.
    pub fn is_exhausted(&self) -> (r: bool)
        requires
            self.wf(),
        ensures
            r == (self.remaining().len() == 0),
    {
        let mut probe = Enumerator {
            zoom: self.zoom,
            end_zoom: self.end_zoom,
            x: self.x,
            y: self.y,
            start_x: self.start_x,
            start_y: self.start_y,
        };
        probe.next().is_none()
    }

    /// Hands out the next tile, or `None` once the walk is over.
    pub fn next(&mut self) -> (r: Option<TileAddress>)
        requires
            old(self).wf(),
        ensures
            final(self).wf(),
            final(self).last_zoom() == old(self).last_zoom(),
            final(self).offsets() == old(self).offsets(),
            match r {
                Some(t) => old(self).remaining().len() > 0 && t == old(self).remaining()[0]
                    && final(self).remaining() == old(self).remaining().drop_first(),
                None => old(self).remaining().len() == 0 && final(self).remaining().len() == 0,
            },
            r matches Some(t) ==> {
                &&& t.zoom <= old(self).last_zoom()
                &&& old(self).offsets().0 <= t.x < grid_width(t.zoom as int)
                &&& old(self).offsets().1 <= t.y < grid_width(t.zoom as int)
            },
    {
        loop
            invariant
                self.wf(),
                self.end_zoom == old(self).end_zoom,
                self.start_x == old(self).start_x,
                self.start_y == old(self).start_y,
                self.remaining() == old(self).remaining(),
            decreases self.end_zoom + 1 - self.zoom, u32::MAX - self.x,
        {
            if self.zoom > self.end_zoom {
                return None;
            }
            let n: u32 = grid_size(self.zoom);
            let ghost before = *self;
            if self.x >= n || self.start_y >= n {
                proof {
                    lemma_level_empty(self.zoom as int, self.x + 1, self.start_y as int, n as int);
                    if self.x < n {
                        assert(column(self.zoom as int, self.x as int, self.y as int, n as int)
                            =~= Seq::empty());
                    }
                    assert(before.remaining() =~= tiles(
                        self.zoom + 1,
                        self.end_zoom as int,
                        self.start_x as int,
                        self.start_y as int,
                    ));
                }
                self.zoom = self.zoom + 1;
                self.x = self.start_x;
                self.y = self.start_y;
                proof {
                    if self.zoom <= self.end_zoom {
                        let m = grid_width(self.zoom as int);
                        let level = level_from(
                            self.zoom as int,
                            self.x as int,
                            self.start_y as int,
                            m,
                        );
                        if self.x >= m {
                            assert(level =~= Seq::empty());
                        } else {
                            assert(level == column(
                                self.zoom as int,
                                self.x as int,
                                self.y as int,
                                m,
                            ) + level_from(self.zoom as int, self.x + 1, self.start_y as int, m));
                        }
                    }
                    assert(self.remaining() =~= before.remaining());
                }
            } else if self.y >= n {
                self.x = self.x + 1;
                self.y = self.start_y;
                proof {
                    assert(column(
                        before.zoom as int,
                        before.x as int,
                        before.y as int,
                        n as int,
                    ) =~= Seq::empty());
                    let rest = level_from(
                        before.zoom as int,
                        before.x + 1,
                        before.start_y as int,
                        n as int,
                    );
                    if self.x < n {
                        assert(rest == column(
                            self.zoom as int,
                            self.x as int,
                            self.y as int,
                            n as int,
                        ) + level_from(
                            self.zoom as int,
                            self.x + 1,
                            self.start_y as int,
                            n as int,
                        ));
                    } else {
                        assert(rest =~= Seq::empty());
                    }
                    assert(self.remaining() =~= before.remaining());
                }
            } else {
                let t = TileAddress { zoom: self.zoom, x: self.x, y: self.y };
                self.y = self.y + 1;
                proof {
                    let z = before.zoom as int;
                    let c0 = column(z, before.x as int, before.y as int, n as int);
                    let c1 = column(z, before.x as int, before.y + 1, n as int);
                    assert(c0 =~= seq![t] + c1);
                    assert(c0[0] == t);
                    assert(before.remaining()[0] == t);
                    assert(self.remaining() =~= before.remaining().drop_first());
                }
                return Some(t);
            }
        }
    }
}

} // verus!

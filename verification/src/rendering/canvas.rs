//! The chunked render cache.
//!
//! The canvas is cut into square chunks of `CHUNK_SIZE` cells. Each chunk that
//! was ever touched has an image, kept by whoever draws, and a flag here that
//! says whether that image is stale. Painting marks chunks dirty; a rebuild
//! hands out, for each dirty chunk, the rectangles that make up its new image.

use crate::data::cell::Cell;
use crate::data::cell::CellGrid;
use crate::data::color::Rgba;
use crate::data::coord::CoordMap;
use vstd::prelude::*;

verus! {

/// Cells along one side of a chunk.
pub const CHUNK_SIZE: i32 = 64;

/// Pixels along one side of a chunk's image.
pub const CHUNK_TEXTURE_SIZE: u32 = 512;

/// Pixels along one side of a cell inside a chunk's image.
pub const CELL_TEXTURE_SIZE: u32 = 8;

/// The chunk that owns `cell`: floor division, so that negative coordinates
/// fall into negative chunks.
pub open spec fn chunk_of(cell: (i32, i32)) -> (i32, i32) {
    ((cell.0 as int / 64) as i32, (cell.1 as int / 64) as i32)
}

/// Where `cell` lies inside its chunk: both components from 0 to 63.
pub open spec fn local_of(cell: (i32, i32)) -> (i32, i32) {
    ((cell.0 as int % 64) as i32, (cell.1 as int % 64) as i32)
}

/// A cell is found again from its chunk and its place in the chunk, and the
/// place lies inside the chunk. This holds of negative coordinates too.
pub proof fn lemma_chunk_addressing(cell: (i32, i32))
    ensures
        chunk_of(cell).0 * CHUNK_SIZE + local_of(cell).0 == cell.0,
        chunk_of(cell).1 * CHUNK_SIZE + local_of(cell).1 == cell.1,
        0 <= local_of(cell).0 < CHUNK_SIZE,
        0 <= local_of(cell).1 < CHUNK_SIZE,
        -0x200_0000 <= chunk_of(cell).0 < 0x200_0000,
        -0x200_0000 <= chunk_of(cell).1 < 0x200_0000,
{
}

/// A chunk and a place in it name one cell only: two cells with the same
/// chunk and the same place in it are the same cell.
pub proof fn lemma_chunk_decomposition_unique(a: (i32, i32), b: (i32, i32))
    requires
        chunk_of(a) == chunk_of(b),
        local_of(a) == local_of(b),
    ensures
        a == b,
{
}

/// A filled rectangle inside an image, in pixels from the top left corner.
#[derive(Clone, Copy, Debug, PartialEq, Eq, Structural)]
pub struct PixelRect {
    pub x: u32,
    pub y: u32,
    pub width: u32,
    pub height: u32,
    pub color: Rgba,
}

/// The new image of one chunk: clear to transparent, then fill `rects`.
#[derive(Debug)]
pub struct ChunkImage {
    pub chunk: (i32, i32),
    pub rects: Vec<PixelRect>,
}

/// The rectangle of place `i` of `chunk`, if a cell is painted there. Places
/// are numbered down the columns: place `i` is column `i / 64`, row `i % 64`.
pub open spec fn chunk_rect_at(grid: Map<(i32, i32), Cell>, chunk: (i32, i32), i: int) -> Option<
    PixelRect,
> {
    let x = chunk.0 * 64 + i / 64;
    let y = chunk.1 * 64 + i % 64;
    if i32::MIN <= x <= i32::MAX && i32::MIN <= y <= i32::MAX && grid.contains_key(
        (x as i32, y as i32),
    ) {
        Some(
            PixelRect {
                x: ((i / 64) * 8) as u32,
                y: ((i % 64) * 8) as u32,
                width: 8,
                height: 8,
                color: grid[(x as i32, y as i32)].color,
            },
        )
    } else {
        None
    }
}

/// The image of `chunk`: one rectangle of 8 x 8 pixels for each painted cell
/// of its 64 x 64 places, at 8 times the cell's place, in the order of the
/// places.
pub open spec fn chunk_rects(grid: Map<(i32, i32), Cell>, chunk: (i32, i32)) -> Seq<PixelRect> {
    Seq::new(4096, |i: int| i).filter_map(|i: int| chunk_rect_at(grid, chunk, i))
}

/// The image of a chunk holds the rectangle of each painted cell of the
/// chunk, and nothing else.
pub proof fn lemma_chunk_rects_content(grid: Map<(i32, i32), Cell>, chunk: (i32, i32), rect: PixelRect)
    ensures
        chunk_rects(grid, chunk).contains(rect) <==> exists|i: int|
            0 <= i < 4096 && #[trigger] chunk_rect_at(grid, chunk, i) == Some(rect),
{
    let places = Seq::new(4096, |i: int| i);
    let f = |i: int| chunk_rect_at(grid, chunk, i);
    if chunk_rects(grid, chunk).contains(rect) {
        places.lemma_filter_map_contains(f, rect);
        let t = choose|t: int| #[trigger] places.contains(t) && f(t) == Some(rect);
        let j = choose|j: int| 0 <= j < places.len() && places[j] == t;
        assert(chunk_rect_at(grid, chunk, j) == Some(rect));
    }
    if exists|i: int| 0 <= i < 4096 && #[trigger] chunk_rect_at(grid, chunk, i) == Some(rect) {
        let i = choose|i: int| 0 <= i < 4096 && #[trigger] chunk_rect_at(grid, chunk, i) == Some(rect);
        lemma_chunk_rects_prefix(grid, chunk, rect, i, 4096);
        assert(places.take(4096) =~= places);
    }
}

proof fn lemma_chunk_rects_prefix(
    grid: Map<(i32, i32), Cell>,
    chunk: (i32, i32),
    rect: PixelRect,
    i: int,
    n: int,
)
    requires
        0 <= i < n <= 4096,
        chunk_rect_at(grid, chunk, i) == Some(rect),
    ensures
        Seq::new(4096, |i: int| i).take(n).filter_map(|i: int| chunk_rect_at(grid, chunk, i)).contains(
            rect,
        ),
    decreases n,
{
    let places = Seq::new(4096, |i: int| i);
    let f = |i: int| chunk_rect_at(grid, chunk, i);
    places.lemma_filter_map_take_succ(f, n - 1);
    let shorter = places.take(n - 1).filter_map(f);
    let longer = places.take(n).filter_map(f);
    assert(places[n - 1] == n - 1);
    if i == n - 1 {
        assert(longer =~= shorter + seq![rect]);
        assert(longer[shorter.len() as int] == rect);
    } else {
        lemma_chunk_rects_prefix(grid, chunk, rect, i, n - 1);
        let j = choose|j: int| 0 <= j < shorter.len() && shorter[j] == rect;
        assert(longer[j] == rect);
    }
}

/// The same chunks, none of them dirty.
pub open spec fn all_clean(chunks: Map<(i32, i32), bool>) -> Map<(i32, i32), bool> {
    Map::new(|k: (i32, i32)| chunks.contains_key(k), |k: (i32, i32)| false)
}

/// The chunks whose image is stale.
pub open spec fn dirty_chunks(chunks: Map<(i32, i32), bool>) -> Set<(i32, i32)> {
    Set::new(|k: (i32, i32)| chunks.contains_key(k) && chunks[k])
}

/// `chunks` after each cell of `cells` was marked dirty: the chunks that own
/// those cells exist and are dirty, and the others are as they were.
pub open spec fn mark_cells(chunks: Map<(i32, i32), bool>, cells: Set<(i32, i32)>) -> Map<
    (i32, i32),
    bool,
> {
    Map::new(
        |k: (i32, i32)|
            chunks.contains_key(k) || exists|c: (i32, i32)| #[trigger]
                cells.contains(c) && chunk_of(c) == k,
        |k: (i32, i32)|
            if exists|c: (i32, i32)| #[trigger] cells.contains(c) && chunk_of(c) == k {
                true
            } else {
                chunks[k]
            },
    )
}

/// Marking no cell changes nothing, and marking one more cell is one more
/// `insert`.
pub proof fn lemma_mark_cells_step(
    chunks: Map<(i32, i32), bool>,
    cells: Set<(i32, i32)>,
    c: (i32, i32),
)
    ensures
        mark_cells(chunks, Set::empty()) == chunks,
        mark_cells(chunks, cells.insert(c)) == mark_cells(chunks, cells).insert(chunk_of(c), true),
{
    assert(mark_cells(chunks, Set::empty()) =~= chunks);
    let a = mark_cells(chunks, cells.insert(c));
    let b = mark_cells(chunks, cells).insert(chunk_of(c), true);
    assert forall|k: (i32, i32)| a.contains_key(k) <==> b.contains_key(k) by {
        if exists|d: (i32, i32)| #[trigger] cells.insert(c).contains(d) && chunk_of(d) == k {
            let d = choose|d: (i32, i32)| #[trigger] cells.insert(c).contains(d) && chunk_of(d) == k;
            if d != c {
                assert(cells.contains(d));
            }
        }
        if exists|d: (i32, i32)| #[trigger] cells.contains(d) && chunk_of(d) == k {
            let d = choose|d: (i32, i32)| #[trigger] cells.contains(d) && chunk_of(d) == k;
            assert(cells.insert(c).contains(d));
        }
        if k == chunk_of(c) {
            assert(cells.insert(c).contains(c));
        }
    }
    assert forall|k: (i32, i32)| a.contains_key(k) implies a[k] == b[k] by {
        if exists|d: (i32, i32)| #[trigger] cells.insert(c).contains(d) && chunk_of(d) == k {
            let d = choose|d: (i32, i32)| #[trigger] cells.insert(c).contains(d) && chunk_of(d) == k;
            if d != c {
                assert(cells.contains(d));
            }
        }
        if exists|d: (i32, i32)| #[trigger] cells.contains(d) && chunk_of(d) == k {
            let d = choose|d: (i32, i32)| #[trigger] cells.contains(d) && chunk_of(d) == k;
            assert(cells.insert(c).contains(d));
        }
        if k == chunk_of(c) {
            assert(cells.insert(c).contains(c));
        }
    }
    assert(a =~= b);
}

/// Whether `chunk` meets the rectangle of cells from `min` to `max`, both
/// included.
pub open spec fn chunk_visible(chunk: (i32, i32), min: (i32, i32), max: (i32, i32)) -> bool {
    &&& chunk_of(min).0 <= chunk.0 <= chunk_of(max).0
    &&& chunk_of(min).1 <= chunk.1 <= chunk_of(max).1
}

/// The order in which chunks are drawn: by column, and by row inside a column.
pub open spec fn drawn_before(a: (i32, i32), b: (i32, i32)) -> bool {
    a.0 < b.0 || (a.0 == b.0 && a.1 < b.1)
}

/// A chunk to draw, with the cell at its top left corner.
#[derive(Clone, Copy, Debug, PartialEq, Eq)]
pub struct VisibleChunk {
    pub chunk: (i32, i32),
    pub origin: (i32, i32),
}

/// Which chunks exist, and which of them are dirty.
///
/// The view maps each chunk that exists to its dirty flag.
#[derive(Debug)]
pub struct CanvasRenderer {
    chunks: CoordMap<bool>,
}

impl View for CanvasRenderer {
    type V = Map<(i32, i32), bool>;

    closed spec fn view(&self) -> Map<(i32, i32), bool> {
        self.chunks@
    }
}

impl CanvasRenderer {
    pub fn new() -> (canvas: CanvasRenderer)
        ensures
            canvas@ == Map::<(i32, i32), bool>::empty(),
    {
        CanvasRenderer { chunks: CoordMap::new() }
    }

    pub fn cell_to_chunk(cell_x: i32, cell_y: i32) -> (chunk: (i32, i32))
        ensures
            chunk == chunk_of((cell_x, cell_y)),
    {
        (Self::floor_div(cell_x), Self::floor_div(cell_y))
    }

    pub fn cell_to_local(cell_x: i32, cell_y: i32) -> (local: (i32, i32))
        ensures
            local == local_of((cell_x, cell_y)),
            0 <= local.0 < CHUNK_SIZE,
            0 <= local.1 < CHUNK_SIZE,
    {
        (Self::floor_rem(cell_x), Self::floor_rem(cell_y))
    }

    fn floor_div(v: i32) -> (q: i32)
        ensures
            q == v as int / 64,
    {
        let q: i32 = v / CHUNK_SIZE;
        if v % CHUNK_SIZE < 0 {
            q - 1
        } else {
            q
        }
    }

    fn floor_rem(v: i32) -> (r: i32)
        ensures
            r == v as int % 64,
    {
        let r: i32 = v % CHUNK_SIZE;
        if r < 0 {
            r + CHUNK_SIZE
        } else {
            r
        }
    }

    /// Makes sure that `chunk` exists. A chunk is born dirty.
    fn get_or_create_chunk(&mut self, chunk: (i32, i32))
        ensures
            final(self)@ == if old(self)@.contains_key(chunk) {
                old(self)@
            } else {
                old(self)@.insert(chunk, true)
            },
    {
        if !self.chunks.contains_key(chunk) {
            self.chunks.insert(chunk, true);
        }
    }

    /// Marks the chunk that owns `cell` as dirty, creating it if need be.
    pub fn mark_dirty(&mut self, cell: (i32, i32))
        ensures
            final(self)@ == old(self)@.insert(chunk_of(cell), true),
    {
        let chunk = Self::cell_to_chunk(cell.0, cell.1);
        self.get_or_create_chunk(chunk);
        self.chunks.insert(chunk, true);
    }

    /// Chunk images do not depend on the size of the screen.
    pub fn update_if_screen_resized(&mut self)
        ensures
            final(self)@ == old(self)@,
    {
    }

    /// Whether `chunk` exists, and if so whether it is dirty.
    pub fn chunk_state(&self, chunk: (i32, i32)) -> (dirty: Option<bool>)
        ensures
            dirty == self@.get(chunk),
    {
        match self.chunks.get(chunk) {
            Some(d) => Some(*d),
            None => None,
        }
    }

    /// The rectangles of the image of `chunk`.
    fn chunk_image(chunk: (i32, i32), cells: &CellGrid) -> (rects: Vec<PixelRect>)
        ensures
            rects@ == chunk_rects(cells@, chunk),
    {
        let ghost places = Seq::new(4096, |i: int| i);
        let ghost f = |i: int| chunk_rect_at(cells@, chunk, i);
        let mut rects: Vec<PixelRect> = Vec::new();
        let chunk_min_x: i64 = chunk.0 as i64 * 64;
        let chunk_min_y: i64 = chunk.1 as i64 * 64;
        let mut local_x: u32 = 0;
        while local_x < 64
            invariant
                local_x <= 64,
                chunk_min_x == chunk.0 * 64,
                chunk_min_y == chunk.1 * 64,
                places == Seq::new(4096, |i: int| i),
                f == (|i: int| chunk_rect_at(cells@, chunk, i)),
                rects@ == places.take(local_x as int * 64).filter_map(f),
            decreases 64 - local_x,
        {
            let mut local_y: u32 = 0;
            while local_y < 64
                invariant
                    local_x < 64,
                    local_y <= 64,
                    chunk_min_x == chunk.0 * 64,
                    chunk_min_y == chunk.1 * 64,
                    places == Seq::new(4096, |i: int| i),
                    f == (|i: int| chunk_rect_at(cells@, chunk, i)),
                    rects@ == places.take(local_x as int * 64 + local_y as int).filter_map(f),
                decreases 64 - local_y,
            {
                let ghost i: int = local_x as int * 64 + local_y as int;
                proof {
                    assert(i / 64 == local_x as int);
                    assert(i % 64 == local_y as int);
                    places.lemma_filter_map_take_succ(f, i);
                    assert(places[i] == i);
                }
                let cell_x: i64 = chunk_min_x + local_x as i64;
                let cell_y: i64 = chunk_min_y + local_y as i64;
                if -0x8000_0000 <= cell_x && cell_x <= 0x7fff_ffff && -0x8000_0000 <= cell_y && cell_y
                    <= 0x7fff_ffff {
                    match cells.get((cell_x as i32, cell_y as i32)) {
                        Some(cell) => {
                            rects.push(
                                PixelRect {
                                    x: local_x * CELL_TEXTURE_SIZE,
                                    y: local_y * CELL_TEXTURE_SIZE,
                                    width: CELL_TEXTURE_SIZE,
                                    height: CELL_TEXTURE_SIZE,
                                    color: cell.color,
                                },
                            );
                        },
                        None => {},
                    }
                }
                local_y += 1;
            }
            local_x += 1;
        }
        assert(places.take(4096) =~= places);
        rects
    }

    /// Rebuilds every dirty chunk from `cells` and marks it clean. The result
    /// holds one image for each chunk that was dirty, in no particular order.
    pub fn update(&mut self, cells: &CellGrid) -> (images: Vec<ChunkImage>)
        ensures
            final(self)@ == all_clean(old(self)@),
            forall|i: int|
                0 <= i < images@.len() ==> dirty_chunks(old(self)@).contains(
                    (#[trigger] images@[i]).chunk,
                ) && images@[i].rects@ == chunk_rects(cells@, images@[i].chunk),
            forall|k: (i32, i32)| #[trigger]
                dirty_chunks(old(self)@).contains(k) ==> exists|i: int|
                    0 <= i < images@.len() && (#[trigger] images@[i]).chunk == k,
            forall|i: int, j: int|
                0 <= i < j < images@.len() ==> (#[trigger] images@[i]).chunk != (
                #[trigger] images@[j]).chunk,
    {
        let keys = self.chunks.keys();
        let mut images: Vec<ChunkImage> = Vec::new();
        let mut n: usize = 0;
        while n < keys.len()
            invariant
                n <= keys@.len(),
                keys@.no_duplicates(),
                keys@.to_set() == old(self)@.dom(),
                self@.dom() == old(self)@.dom(),
                forall|p: int| 0 <= p < n ==> self@[#[trigger] keys@[p]] == false,
                forall|p: int| n <= p < keys@.len() ==> self@[keys@[p]] == old(self)@[#[trigger] keys@[p]],
                forall|i: int|
                    0 <= i < images@.len() ==> dirty_chunks(old(self)@).contains(
                        (#[trigger] images@[i]).chunk,
                    ) && images@[i].rects@ == chunk_rects(cells@, images@[i].chunk),
                forall|i: int|
                    0 <= i < images@.len() ==> exists|p: int|
                        0 <= p < n && keys@[p] == (#[trigger] images@[i]).chunk,
                forall|p: int|
                    0 <= p < n && dirty_chunks(old(self)@).contains(#[trigger] keys@[p]) ==> exists|
                        i: int,
                    |
                        0 <= i < images@.len() && (#[trigger] images@[i]).chunk == keys@[p],
                forall|i: int, j: int|
                    0 <= i < j < images@.len() ==> (#[trigger] images@[i]).chunk != (
                    #[trigger] images@[j]).chunk,
            decreases keys@.len() - n,
        {
            let chunk = keys[n];
            let ghost before = images@;
            let dirty = match self.chunks.get(chunk) {
                Some(d) => *d,
                None => false,
            };
            if dirty {
                let rects = Self::chunk_image(chunk, cells);
                self.chunks.insert(chunk, false);
                images.push(ChunkImage { chunk, rects });
                proof {
                    assert(self@.dom() =~= old(self)@.dom());
                    assert forall|p: int| n + 1 <= p < keys@.len() implies self@[keys@[p]] == old(
                        self,
                    )@[#[trigger] keys@[p]] by {
                        assert(keys@[p] != keys@[n as int]);
                    }
                    assert forall|i: int| 0 <= i < images@.len() implies exists|p: int|
                        0 <= p < n + 1 && keys@[p] == (#[trigger] images@[i]).chunk by {
                        if i < before.len() {
                            let p = choose|p: int| 0 <= p < n && keys@[p] == before[i].chunk;
                            assert(keys@[p] == images@[i].chunk);
                        } else {
                            assert(keys@[n as int] == images@[i].chunk);
                        }
                    }
                    assert forall|p: int|
                        0 <= p < n + 1 && dirty_chunks(old(self)@).contains(
                            #[trigger] keys@[p],
                        ) implies exists|i: int|
                        0 <= i < images@.len() && (#[trigger] images@[i]).chunk == keys@[p] by {
                        if p < n {
                            let i = choose|i: int|
                                0 <= i < before.len() && (#[trigger] before[i]).chunk == keys@[p];
                            assert(images@[i].chunk == keys@[p]);
                        } else {
                            assert(images@[before.len() as int].chunk == keys@[p]);
                        }
                    }
                }
            }
            n += 1;
        }
        images
    }

    /// The chunks to draw for a view of the cells from `(min_x, min_y)` to
    /// `(max_x, max_y)`: those chunks that exist and meet that rectangle, by
    /// column and then by row. Chunks that were never created are skipped.
    pub fn draw(&self, min_x: i32, min_y: i32, max_x: i32, max_y: i32) -> (visible: Vec<
        VisibleChunk,
    >)
        ensures
            forall|i: int|
                0 <= i < visible@.len() ==> {
                    let v = #[trigger] visible@[i];
                    &&& self@.contains_key(v.chunk)
                    &&& chunk_visible(v.chunk, (min_x, min_y), (max_x, max_y))
                    &&& v.origin.0 == v.chunk.0 * CHUNK_SIZE
                    &&& v.origin.1 == v.chunk.1 * CHUNK_SIZE
                },
            forall|k: (i32, i32)|
                self@.contains_key(k) && #[trigger] chunk_visible(k, (min_x, min_y), (max_x, max_y))
                    ==> exists|i: int| 0 <= i < visible@.len() && (#[trigger] visible@[i]).chunk == k,
            forall|i: int, j: int|
                0 <= i < j < visible@.len() ==> drawn_before(
                    (#[trigger] visible@[i]).chunk,
                    (#[trigger] visible@[j]).chunk,
                ),
    {
        let lo = Self::cell_to_chunk(min_x, min_y);
        let hi = Self::cell_to_chunk(max_x, max_y);
        let mut visible: Vec<VisibleChunk> = Vec::new();
        let mut chunk_x: i32 = lo.0;
        while chunk_x <= hi.0
            invariant
                lo == chunk_of((min_x, min_y)),
                hi == chunk_of((max_x, max_y)),
                -0x200_0000 <= lo.0 < 0x200_0000,
                -0x200_0000 <= lo.1 < 0x200_0000,
                -0x200_0000 <= hi.0 < 0x200_0000,
                -0x200_0000 <= hi.1 < 0x200_0000,
                lo.0 <= chunk_x,
                chunk_x <= hi.0 + 1 || hi.0 < lo.0,
                forall|i: int|
                    0 <= i < visible@.len() ==> {
                        let v = #[trigger] visible@[i];
                        &&& self@.contains_key(v.chunk)
                        &&& chunk_visible(v.chunk, (min_x, min_y), (max_x, max_y))
                        &&& v.origin.0 == v.chunk.0 * CHUNK_SIZE
                        &&& v.origin.1 == v.chunk.1 * CHUNK_SIZE
                        &&& v.chunk.0 < chunk_x
                    },
                forall|k: (i32, i32)|
                    self@.contains_key(k) && #[trigger] chunk_visible(
                        k,
                        (min_x, min_y),
                        (max_x, max_y),
                    ) && k.0 < chunk_x ==> exists|i: int|
                        0 <= i < visible@.len() && (#[trigger] visible@[i]).chunk == k,
                forall|i: int, j: int|
                    0 <= i < j < visible@.len() ==> drawn_before(
                        (#[trigger] visible@[i]).chunk,
                        (#[trigger] visible@[j]).chunk,
                    ),
            decreases hi.0 + 1 - chunk_x,
        {
            let mut chunk_y: i32 = lo.1;
            while chunk_y <= hi.1
                invariant
                    lo == chunk_of((min_x, min_y)),
                    hi == chunk_of((max_x, max_y)),
                    -0x200_0000 <= lo.0 < 0x200_0000,
                    -0x200_0000 <= lo.1 < 0x200_0000,
                    -0x200_0000 <= hi.0 < 0x200_0000,
                    -0x200_0000 <= hi.1 < 0x200_0000,
                    lo.0 <= chunk_x <= hi.0,
                    lo.1 <= chunk_y,
                    chunk_y <= hi.1 + 1 || hi.1 < lo.1,
                    forall|i: int|
                        0 <= i < visible@.len() ==> {
                            let v = #[trigger] visible@[i];
                            &&& self@.contains_key(v.chunk)
                            &&& chunk_visible(v.chunk, (min_x, min_y), (max_x, max_y))
                            &&& v.origin.0 == v.chunk.0 * CHUNK_SIZE
                            &&& v.origin.1 == v.chunk.1 * CHUNK_SIZE
                            &&& drawn_before(v.chunk, (chunk_x, chunk_y))
                        },
                    forall|k: (i32, i32)|
                        self@.contains_key(k) && #[trigger] chunk_visible(
                            k,
                            (min_x, min_y),
                            (max_x, max_y),
                        ) && drawn_before(k, (chunk_x, chunk_y)) ==> exists|i: int|
                            0 <= i < visible@.len() && (#[trigger] visible@[i]).chunk == k,
                    forall|i: int, j: int|
                        0 <= i < j < visible@.len() ==> drawn_before(
                            (#[trigger] visible@[i]).chunk,
                            (#[trigger] visible@[j]).chunk,
                        ),
                decreases hi.1 + 1 - chunk_y,
            {
                let ghost before = visible@;
                if self.chunks.contains_key((chunk_x, chunk_y)) {
                    visible.push(
                        VisibleChunk {
                            chunk: (chunk_x, chunk_y),
                            origin: (chunk_x * CHUNK_SIZE, chunk_y * CHUNK_SIZE),
                        },
                    );
                }
                proof {
                    assert forall|k: (i32, i32)|
                        self@.contains_key(k) && #[trigger] chunk_visible(
                            k,
                            (min_x, min_y),
                            (max_x, max_y),
                        ) && drawn_before(k, (chunk_x, (chunk_y + 1) as i32)) implies exists|i: int|
                        0 <= i < visible@.len() && (#[trigger] visible@[i]).chunk == k by {
                        if drawn_before(k, (chunk_x, chunk_y)) {
                            let i = choose|i: int|
                                0 <= i < before.len() && (#[trigger] before[i]).chunk == k;
                            assert(visible@[i].chunk == k);
                        } else {
                            assert(k == (chunk_x, chunk_y));
                            assert(visible@[before.len() as int].chunk == k);
                        }
                    }
                }
                chunk_y += 1;
            }
            chunk_x += 1;
        }
        visible
    }

    /// Rebuilds the image of `chunk` from `cells` and marks the chunk clean.
    /// A chunk that does not exist is left alone.
    pub fn rebuild_chunk(&mut self, chunk: (i32, i32), cells: &CellGrid) -> (rects: Option<
        Vec<PixelRect>,
    >)
        ensures
            old(self)@.contains_key(chunk) ==> final(self)@ == old(self)@.insert(chunk, false),
            old(self)@.contains_key(chunk) ==> (rects matches Some(r) && r@ == chunk_rects(
                cells@,
                chunk,
            )),
            !old(self)@.contains_key(chunk) ==> final(self)@ == old(self)@ && rects is None,
    {
        if !self.chunks.contains_key(chunk) {
            return None;
        }
        let rects = Self::chunk_image(chunk, cells);
        self.chunks.insert(chunk, false);
        Some(rects)
    }
}

} // verus!

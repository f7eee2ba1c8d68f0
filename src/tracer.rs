use vstd::prelude::*;

use crate::geom::Color;

verus! {

use vstd::arithmetic::div_mod::lemma_fundamental_div_mod_converse;

/// A `height` by `width` grid of colors, stored row by row: the cell at
/// `(row, col)` is `values[row * width + col]`.
pub struct Viewport {
    pub height: usize,
    pub width: usize,
    pub values: Vec<Color>,
}

/// Where a cell lies in the grid: its row, its column and its index in
/// `Viewport::values`.
#[derive(Clone, Copy, Debug, PartialEq, Eq, Structural)]
pub struct ViewportPosition {
    pub row: usize,
    pub col: usize,
    pub idx: usize,
}

/// The position of the cell with index `i` in a grid `width` cells wide.
pub open spec fn position_of(i: int, width: int) -> ViewportPosition {
    ViewportPosition { row: (i / width) as usize, col: (i % width) as usize, idx: i as usize }
}

/// The index in `Viewport::values` of the cell at `(row, col)`.
pub open spec fn cell_index(row: int, col: int, width: int) -> int {
    row * width + col
}

proof fn lemma_cell_index_bound(row: int, col: int, height: int, width: int)
    requires
        0 <= row < height,
        0 <= col <= width,
    ensures
        col < width ==> row * width + col < height * width,
        (row + 1) * width <= height * width,
        row * width + width == (row + 1) * width,
{
    assert(col < width ==> row * width + col < height * width) by (nonlinear_arith)
        requires
            0 <= row < height,
            0 <= col,
    ;
    assert((row + 1) * width <= height * width) by (nonlinear_arith)
        requires
            0 <= row < height,
            0 <= width,
    ;
    assert(row * width + width == (row + 1) * width) by (nonlinear_arith);
}

/// Index `k` holds a hit whose distance key is no greater than that of any
/// other hit, and strictly smaller than that of every hit before it.
pub open spec fn is_nearest(keys: Seq<Option<u64>>, k: int) -> bool {
    &&& 0 <= k < keys.len()
    &&& keys[k] is Some
    &&& forall|j: int|
        0 <= j < keys.len() && (#[trigger] keys[j]) is Some ==> keys[k]->0 <= keys[j]->0
    &&& forall|j: int| 0 <= j < k && (#[trigger] keys[j]) is Some ==> keys[k]->0 < keys[j]->0
}

/// Of two hits at different depths along one ray, with every other object
/// missed, the nearer one is the nearest hit, and no other index is.
pub proof fn lemma_nearer_of_two_hits(keys: Seq<Option<u64>>, near: int, far: int)
    requires
        0 <= near < keys.len(),
        0 <= far < keys.len(),
        keys[near] is Some,
        keys[far] is Some,
        keys[near]->0 < keys[far]->0,
        forall|i: int| 0 <= i < keys.len() && i != near && i != far ==> (#[trigger] keys[i]) is None,
    ensures
        is_nearest(keys, near),
        forall|k: int| #[trigger] is_nearest(keys, k) ==> k == near,
{
    assert forall|k: int| #[trigger] is_nearest(keys, k) implies k == near by {
        if k != near {
            assert(keys[k]->0 <= keys[near]->0);
        }
    }
}

/// Picks, among the objects that a ray hits, the one nearest to its start.
/// `keys[i]` is the distance key of object `i`'s hit, or `None` where the
/// ray misses it. The result is `None` exactly when every key is `None`;
/// otherwise it is the first index with the smallest key.
pub fn nearest_hit(keys: &Vec<Option<u64>>) -> (r: Option<usize>)
    ensures
        r is None <==> forall|i: int| 0 <= i < keys@.len() ==> (#[trigger] keys@[i]) is None,
        r matches Some(k) ==> is_nearest(keys@, k as int),
{
    let mut best: Option<usize> = None;
    let mut i: usize = 0;
    while i < keys.len()
        invariant
            i <= keys@.len(),
            best is None <==> forall|j: int| 0 <= j < i ==> (#[trigger] keys@[j]) is None,
            best matches Some(k) ==> is_nearest(keys@.subrange(0, i as int), k as int),
        decreases keys@.len() - i,
    {
        let cur = keys[i];
        match cur {
            Some(d) => {
                match best {
                    Some(k) => {
                        let kd = keys[k].unwrap();
                        if d < kd {
                            best = Some(i);
                        }
                    },
                    None => {
                        best = Some(i);
                    },
                }
            },
            None => {},
        }
        proof {
            let s = keys@.subrange(0, i + 1);
            assert(forall|j: int| 0 <= j < i + 1 ==> s[j] == keys@[j]);
            assert(forall|j: int| 0 <= j < i ==> keys@.subrange(0, i as int)[j] == keys@[j]);
        }
        i = i + 1;
    }
    proof {
        assert(keys@.subrange(0, keys@.len() as int) =~= keys@);
    }
    best
}

/// Whether a shadow ray is blocked: `hits[i]` says whether object `i`
/// intersects it. The point is in shadow exactly when some object does.
pub fn is_occluded(hits: &Vec<bool>) -> (r: bool)
    ensures
        r == exists|i: int| 0 <= i < hits@.len() && #[trigger] hits@[i],
{
    let mut i: usize = 0;
    while i < hits.len()
        invariant
            i <= hits@.len(),
            forall|j: int| 0 <= j < i ==> !(#[trigger] hits@[j]),
        decreases hits@.len() - i,
    {
        if hits[i] {
            return true;
        }
        i = i + 1;
    }
    false
}

impl Viewport {
    /// The grid holds exactly one color per cell.
    pub open spec fn wf(&self) -> bool {
        self.values@.len() == self.height * self.width
    }

    /// A grid of the given size whose every cell is black.
    pub fn new(height: usize, width: usize) -> (v: Viewport)
        requires
            height * width <= usize::MAX,
        ensures
            v.wf(),
            v.height == height,
            v.width == width,
            forall|i: int| 0 <= i < v.values@.len() ==> (#[trigger] v.values@[i]).is_black(),
    {
        let n: usize = height * width;
        let mut values: Vec<Color> = Vec::with_capacity(n);
        let mut i: usize = 0;
        while i < n
            invariant
                i <= n,
                values@.len() == i,
                forall|j: int| 0 <= j < i ==> (#[trigger] values@[j]).is_black(),
            decreases n - i,
        {
            values.push(Color::black());
            i = i + 1;
        }
        Viewport { height, width, values }
    }

    /// Fills every cell, row by row, with what `compute_fn` returns for its
    /// position. Each cell's color depends on its position alone.
    pub fn compute_each<F>(&mut self, compute_fn: F)
        where
            F: Fn(ViewportPosition) -> Color,
        requires
            old(self).wf(),
            forall|i: int|
                0 <= i < old(self).height * old(self).width ==> #[trigger] compute_fn.requires(
                    (position_of(i, old(self).width as int),),
                ),
        ensures
            final(self).wf(),
            final(self).height == old(self).height,
            final(self).width == old(self).width,
            forall|i: int|
                0 <= i < final(self).values@.len() ==> compute_fn.ensures(
                    (position_of(i, final(self).width as int),),
                    #[trigger] final(self).values@[i],
                ),
            forall|row: int, col: int|
                0 <= row < final(self).height && 0 <= col < final(self).width
                    ==> compute_fn.ensures(
                    ((ViewportPosition {
                        row: row as usize,
                        col: col as usize,
                        idx: cell_index(row, col, final(self).width as int) as usize,
                    }),),
                    #[trigger] final(self).values@[cell_index(row, col, final(self).width as int)],
                ),
    {
        let height = self.height;
        let width = self.width;
        let n = self.values.len();
        assert(n == height * width);
        let mut row: usize = 0;
        while row < height
            invariant
                self.height == height,
                self.width == width,
                self.wf(),
                n == height * width,
                row <= height,
                row * width <= height * width,
                forall|i: int|
                    0 <= i < height * width ==> #[trigger] compute_fn.requires(
                        (position_of(i, width as int),),
                    ),
                forall|i: int|
                    0 <= i < row * width ==> compute_fn.ensures(
                        (position_of(i, width as int),),
                        #[trigger] self.values@[i],
                    ),
            decreases height - row,
        {
            let mut col: usize = 0;
            while col < width
                invariant
                    self.height == height,
                    self.width == width,
                    self.wf(),
                    n == height * width,
                    row < height,
                    col <= width,
                    forall|i: int|
                        0 <= i < height * width ==> #[trigger] compute_fn.requires(
                            (position_of(i, width as int),),
                        ),
                    forall|i: int|
                        0 <= i < row * width + col ==> compute_fn.ensures(
                            (position_of(i, width as int),),
                            #[trigger] self.values@[i],
                        ),
                decreases width - col,
            {
                proof {
                    lemma_cell_index_bound(row as int, col as int, height as int, width as int);
                    lemma_fundamental_div_mod_converse(
                        row * width + col,
                        width as int,
                        row as int,
                        col as int,
                    );
                }
                let idx = row * width + col;
                let pos = ViewportPosition { row, col, idx };
                assert(pos == position_of(idx as int, width as int));
                let c = compute_fn(pos);
                self.values[idx] = c;
                col = col + 1;
            }
            proof {
                lemma_cell_index_bound(row as int, 0, height as int, width as int);
            }
            row = row + 1;
        }
        assert forall|r: int, c: int| 0 <= r < height && 0 <= c < width implies compute_fn.ensures(
            (
                (ViewportPosition {
                    row: r as usize,
                    col: c as usize,
                    idx: cell_index(r, c, width as int) as usize,
                }),
            ),
            #[trigger] self.values@[cell_index(r, c, width as int)],
        ) by {
            lemma_cell_index_bound(r, c, height as int, width as int);
            lemma_fundamental_div_mod_converse(r * width + c, width as int, r, c);
            assert(position_of(cell_index(r, c, width as int), width as int) == ViewportPosition {
                row: r as usize,
                col: c as usize,
                idx: cell_index(r, c, width as int) as usize,
            });
        }
    }
}

} // verus!

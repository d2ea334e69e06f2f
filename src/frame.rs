//! Assembly of the finished image from scanlines that arrive in any order.
//!
//! Rows of the image are rendered independently and handed back tagged with
//! the index of the row they belong to. The frame buffer files each one under
//! that index, so the finished image does not depend on the order of arrival.
use vstd::prelude::*;

verus! {

/// One rendered row of packed pixels, tagged with the index of its row.
pub struct ScanlineResult {
    pub id: usize,
    pub scanline: Vec<u32>,
}

impl ScanlineResult {
    pub open spec fn view(&self) -> (usize, Seq<u32>) {
        (self.id, self.scanline@)
    }
}

/// The rows of an image of fixed width and height, filled one scanline at a
/// time.
pub struct FrameBuffer {
    width: usize,
    rows: Vec<Vec<u32>>,
}

/// The rows obtained by filing each result, in turn, under its row index.
pub open spec fn placed(rows: Seq<Seq<u32>>, results: Seq<(usize, Seq<u32>)>) -> Seq<Seq<u32>>
    decreases results.len(),
{
    if results.len() == 0 {
        rows
    } else {
        placed(rows, results.drop_last()).update(results.last().0 as int, results.last().1)
    }
}

/// Every row holds exactly `width` pixels.
pub open spec fn uniform(rows: Seq<Seq<u32>>, width: nat) -> bool {
    forall|j: int| 0 <= j < rows.len() ==> (#[trigger] rows[j]).len() == width
}

/// No two results are tagged with the same row.
pub open spec fn distinct_ids(results: Seq<(usize, Seq<u32>)>) -> bool {
    forall|a: int, b: int|
        0 <= a < results.len() && 0 <= b < results.len() && a != b ==> (#[trigger] results[a]).0
            != (#[trigger] results[b]).0
}

/// Every result is tagged with a row of the image.
pub open spec fn ids_below(results: Seq<(usize, Seq<u32>)>, height: nat) -> bool {
    forall|k: int| 0 <= k < results.len() ==> ((#[trigger] results[k]).0 as nat) < height
}

impl FrameBuffer {
    /// The rows of the image, top row first.
    pub closed spec fn view(&self) -> Seq<Seq<u32>> {
        self.rows@.map_values(|r: Vec<u32>| r@)
    }

    /// The number of pixels that a complete row holds.
    pub closed spec fn spec_width(&self) -> nat {
        self.width as nat
    }

    /// An image `width` pixels wide and `height` rows high, every row still
    /// empty.
    pub fn new(width: usize, height: usize) -> (f: FrameBuffer)
        ensures
            f@ == Seq::new(height as nat, |j: int| Seq::<u32>::empty()),
            f.spec_width() == width,
    {
        let mut rows: Vec<Vec<u32>> = Vec::with_capacity(height);
        let mut j: usize = 0;
        while j < height
            invariant
                j <= height,
                rows@.len() == j,
                forall|k: int| 0 <= k < j ==> (#[trigger] rows@[k])@ == Seq::<u32>::empty(),
            decreases height - j,
        {
            rows.push(Vec::new());
            j += 1;
        }
        let f = FrameBuffer { width, rows };
        assert(f@ =~= Seq::new(height as nat, |j: int| Seq::<u32>::empty()));
        f
    }

    pub fn width(&self) -> (w: usize)
        ensures
            w == self.spec_width(),
    {
        self.width
    }

    pub fn height(&self) -> (h: usize)
        ensures
            h == self@.len(),
    {
        self.rows.len()
    }

    /// Files a scanline under its row index, replacing what that row held.
    pub fn place(&mut self, result: ScanlineResult)
        requires
            result.id < old(self)@.len(),
        ensures
            final(self)@ == old(self)@.update(result.id as int, result.scanline@),
            final(self).spec_width() == old(self).spec_width(),
    {
        let ScanlineResult { id, scanline } = result;
        self.rows.set(id, scanline);
        assert(self@ =~= old(self)@.update(id as int, result.scanline@));
    }

    /// Whether every row holds exactly one image width of pixels.
    pub fn is_complete(&self) -> (c: bool)
        ensures
            c == uniform(self@, self.spec_width()),
    {
        let mut j: usize = 0;
        while j < self.rows.len()
            invariant
                j <= self.rows@.len(),
                forall|k: int| 0 <= k < j ==> (#[trigger] self@[k]).len() == self.width,
            decreases self.rows@.len() - j,
        {
            if self.rows[j].len() != self.width {
                assert(self@[j as int] == self.rows@[j as int]@);
                return false;
            }
            j += 1;
        }
        true
    }

    /// The pixels of all rows, top row first and each row left to right.
    pub fn pixels(&self) -> (out: Vec<u32>)
        ensures
            out@ == self@.flatten(),
            uniform(self@, self.spec_width()) ==> {
                &&& out@.len() == self@.len() * self.spec_width()
                &&& forall|j: int, i: int|
                    0 <= j < self@.len() && 0 <= i < self.spec_width() ==> out@[j
                        * self.spec_width() + i] == #[trigger] self@[j][i]
            },
    {
        let mut out: Vec<u32> = Vec::new();
        let mut j: usize = 0;
        while j < self.rows.len()
            invariant
                j <= self.rows@.len(),
                out@ == self@.take(j as int).flatten_alt(),
            decreases self.rows@.len() - j,
        {
            let row = &self.rows[j];
            let ghost start = out@;
            let mut i: usize = 0;
            while i < row.len()
                invariant
                    i <= row@.len(),
                    row == self.rows@[j as int],
                    out@ == start + row@.take(i as int),
                decreases row@.len() - i,
            {
                out.push(row[i]);
                assert(row@.take(i + 1) == row@.take(i as int).push(row@[i as int]));
                i += 1;
            }
            assert(row@.take(i as int) == row@);
            assert(self@.take(j + 1).drop_last() == self@.take(j as int));
            j += 1;
        }
        assert(self@.take(j as int) == self@);
        proof {
            self@.lemma_flatten_and_flatten_alt_are_equivalent();
            if uniform(self@, self.spec_width()) {
                lemma_flatten_uniform(self@, self.spec_width());
            }
        }
        out
    }
}

/// Row-major indexing into the flattening of rows of equal width.
proof fn lemma_flatten_uniform(rows: Seq<Seq<u32>>, width: nat)
    requires
        uniform(rows, width),
    ensures
        rows.flatten_alt().len() == rows.len() * width,
        forall|j: int, i: int|
            0 <= j < rows.len() && 0 <= i < width ==> rows.flatten_alt()[j * width + i]
                == #[trigger] rows[j][i],
    decreases rows.len(),
{
    if rows.len() > 0 {
        let front = rows.drop_last();
        lemma_flatten_uniform(front, width);
        let n = rows.len() - 1;
        assert(rows.flatten_alt() == front.flatten_alt() + rows.last());
        assert(rows.last().len() == width);
        assert(front.len() * width + width == rows.len() * width) by (nonlinear_arith)
            requires
                front.len() == rows.len() - 1,
        ;
        assert forall|j: int, i: int|
            0 <= j < rows.len() && 0 <= i < width implies rows.flatten_alt()[j * width + i]
            == #[trigger] rows[j][i] by {
            if j < n {
                assert(front[j] == rows[j]);
                assert(j * width + i < n * width) by (nonlinear_arith)
                    requires
                        j < n,
                        i < width,
                ;
            } else {
                assert(j * width == n * width);
            }
        }
    }
}

/// Each row receives exactly the scanline that was tagged with its index, and a
/// row that no scanline was tagged with keeps what it held.
pub proof fn lemma_row_receives_its_scanline(
    rows: Seq<Seq<u32>>,
    results: Seq<(usize, Seq<u32>)>,
)
    requires
        distinct_ids(results),
        ids_below(results, rows.len()),
    ensures
        placed(rows, results).len() == rows.len(),
        forall|k: int|
            0 <= k < results.len() ==> placed(rows, results)[(#[trigger] results[k]).0 as int]
                == results[k].1,
        forall|j: int|
            0 <= j < rows.len() && (forall|k: int|
                0 <= k < results.len() ==> (#[trigger] results[k]).0 != j) ==> placed(
                rows,
                results,
            )[j] == rows[j],
    decreases results.len(),
{
    if results.len() > 0 {
        let front = results.drop_last();
        assert(distinct_ids(front)) by {
            assert forall|a: int, b: int|
                0 <= a < front.len() && 0 <= b < front.len() && a != b implies (
            #[trigger] front[a]).0 != (#[trigger] front[b]).0 by {
                assert(front[a] == results[a] && front[b] == results[b]);
            }
        }
        assert(ids_below(front, rows.len())) by {
            assert forall|k: int| 0 <= k < front.len() implies ((#[trigger] front[k]).0 as nat)
                < rows.len() by {
                assert(front[k] == results[k]);
            }
        }
        lemma_row_receives_its_scanline(rows, front);
        let last = results.len() - 1;
        assert forall|k: int|
            0 <= k < results.len() implies placed(rows, results)[(#[trigger] results[k]).0 as int]
            == results[k].1 by {
            if k < last {
                assert(front[k] == results[k]);
                assert(results[k].0 != results[last].0);
            }
        }
        assert forall|j: int|
            0 <= j < rows.len() && (forall|k: int|
                0 <= k < results.len() ==> (#[trigger] results[k]).0 != j) implies placed(
            rows,
            results,
        )[j] == rows[j] by {
            assert(results[last].0 != j);
            assert forall|k: int| 0 <= k < front.len() implies (#[trigger] front[k]).0 != j by {
                assert(front[k] == results[k]);
            }
        }
    }
}

/// The finished rows do not depend on the order in which the scanlines
/// arrived: any two arrival orders of the same tagged scanlines fill the
/// same image.
pub proof fn lemma_arrival_order_irrelevant(
    rows: Seq<Seq<u32>>,
    first: Seq<(usize, Seq<u32>)>,
    second: Seq<(usize, Seq<u32>)>,
)
    requires
        first.to_multiset() == second.to_multiset(),
        distinct_ids(first),
        distinct_ids(second),
        ids_below(first, rows.len()),
    ensures
        placed(rows, first) == placed(rows, second),
{
    broadcast use vstd::seq_lib::group_to_multiset_ensures;

    assert(ids_below(second, rows.len())) by {
        assert forall|k: int| 0 <= k < second.len() implies ((#[trigger] second[k]).0 as nat)
            < rows.len() by {
            assert(second.contains(second[k]));
            assert(second.to_multiset().count(second[k]) > 0);
            assert(first.to_multiset().count(second[k]) > 0);
            assert(first.contains(second[k]));
        }
    }
    lemma_row_receives_its_scanline(rows, first);
    lemma_row_receives_its_scanline(rows, second);
    assert forall|j: int| 0 <= j < rows.len() implies placed(rows, first)[j] == placed(
        rows,
        second,
    )[j] by {
        if exists|k: int| 0 <= k < first.len() && (#[trigger] first[k]).0 == j {
            let k = choose|k: int| 0 <= k < first.len() && (#[trigger] first[k]).0 == j;
            assert(first.contains(first[k]));
            assert(first.to_multiset().count(first[k]) > 0);
            assert(second.to_multiset().count(first[k]) > 0);
            assert(second.contains(first[k]));
            let k2 = choose|k2: int| 0 <= k2 < second.len() && second[k2] == first[k];
            assert(second[k2].0 == j);
            assert(placed(rows, second)[j] == second[k2].1);
            assert(placed(rows, first)[j] == first[k].1);
        } else if exists|k: int| 0 <= k < second.len() && (#[trigger] second[k]).0 == j {
            let k = choose|k: int| 0 <= k < second.len() && (#[trigger] second[k]).0 == j;
            assert(second.contains(second[k]));
            assert(second.to_multiset().count(second[k]) > 0);
            assert(first.to_multiset().count(second[k]) > 0);
            assert(first.contains(second[k]));
            let k1 = choose|k1: int| 0 <= k1 < first.len() && first[k1] == second[k];
            assert(first[k1].0 == j);
        } else {
            assert(forall|k: int| 0 <= k < first.len() ==> (#[trigger] first[k]).0 != j);
            assert(forall|k: int| 0 <= k < second.len() ==> (#[trigger] second[k]).0 != j);
            assert(placed(rows, first)[j] == rows[j]);
            assert(placed(rows, second)[j] == rows[j]);
        }
    }
    assert(placed(rows, first) =~= placed(rows, second));
}

} // verus!

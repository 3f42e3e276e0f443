use vstd::prelude::*;

verus! {

/// A dense feature matrix. Entries are multi-hot flags: `1` where a record
/// carries the label of that column, `0` everywhere else. `cols` fixes the
/// column count even when there are no rows.
pub struct FeatureMatrix {
    pub rows: Vec<Vec<u8>>,
    pub cols: usize,
}

impl View for FeatureMatrix {
    type V = Seq<Seq<u8>>;

    open spec fn view(&self) -> Seq<Seq<u8>> {
        self.rows@.map_values(|r: Vec<u8>| r@)
    }
}

impl FeatureMatrix {
    /// Every row has exactly `cols` entries and every entry is a flag.
    pub open spec fn well_formed(self) -> bool {
        &&& forall|i: int| 0 <= i < self@.len() ==> (#[trigger] self@[i]).len() == self.cols
        &&& forall|i: int, j: int|
            0 <= i < self@.len() && 0 <= j < self.cols ==> (self@[i][j] == 0 || self@[i][j] == 1)
    }

    /// An all-zero matrix of the given shape.
    pub fn zeros(row_count: usize, col_count: usize) -> (m: FeatureMatrix)
        ensures
            m.well_formed(),
            m.cols == col_count,
            m@.len() == row_count,
            forall|i: int, j: int| 0 <= i < row_count && 0 <= j < col_count ==> m@[i][j] == 0,
    {
        let mut rows: Vec<Vec<u8>> = Vec::new();
        let mut i: usize = 0;
        while i < row_count
            invariant
                i <= row_count,
                rows@.len() == i,
                forall|r: int| 0 <= r < i ==> (#[trigger] rows@[r])@.len() == col_count,
                forall|r: int, j: int|
                    0 <= r < i && 0 <= j < col_count ==> rows@[r]@[j] == 0,
            decreases row_count - i,
        {
            let mut row: Vec<u8> = Vec::new();
            let mut j: usize = 0;
            while j < col_count
                invariant
                    j <= col_count,
                    row@.len() == j,
                    forall|k: int| 0 <= k < j ==> row@[k] == 0,
                decreases col_count - j,
            {
                row.push(0u8);
                j = j + 1;
            }
            rows.push(row);
            i = i + 1;
        }
        let m = FeatureMatrix { rows, cols: col_count };
        proof {
            assert forall|i2: int| 0 <= i2 < m@.len() implies (#[trigger] m@[i2]).len()
                == col_count by {
                assert(m@[i2] == m.rows@[i2]@);
            }
            assert forall|i2: int, j2: int|
                0 <= i2 < row_count && 0 <= j2 < col_count implies m@[i2][j2] == 0 by {
                assert(m@[i2] == m.rows@[i2]@);
            }
        }
        m
    }

    /// The number of rows: one per encoded record.
    pub fn row_count(&self) -> (n: usize)
        ensures
            n == self@.len(),
    {
        self.rows.len()
    }

    /// The number of columns: the total feature width.
    pub fn column_count(&self) -> (n: usize)
        ensures
            n == self.cols,
    {
        self.cols
    }

    /// The flag at one cell.
    pub fn entry(&self, r: usize, c: usize) -> (v: u8)
        requires
            r < self@.len(),
            c < self@[r as int].len(),
        ensures
            v == self@[r as int][c as int],
    {
        proof {
            assert(self@[r as int] == self.rows@[r as int]@);
        }
        self.rows[r][c]
    }

    /// Raise the flag at one cell; every other cell keeps its value.
    pub fn set_one(&mut self, r: usize, c: usize)
        requires
            r < old(self)@.len(),
            c < old(self)@[r as int].len(),
        ensures
            final(self).cols == old(self).cols,
            final(self)@ == old(self)@.update(
                r as int,
                old(self)@[r as int].update(c as int, 1u8),
            ),
    {
        proof {
            assert(old(self)@[r as int] == self.rows@[r as int]@);
        }
        let row: &mut Vec<u8> = &mut self.rows[r];
        row[c] = 1u8;
        proof {
            broadcast use vstd::seq_lib::group_seq_properties;

            assert(self@ =~= old(self)@.update(
                r as int,
                old(self)@[r as int].update(c as int, 1u8),
            ));
        }
    }
}

} // verus!

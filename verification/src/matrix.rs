//! Key matrix scanning (COL2ROW): each of the 14 columns is driven high in
//! turn and the 6 rows are read with pull-downs. The diodes point from
//! column to row, so a pressed key reads high on its row.
//!
//! A read that differs from the debounced state must persist for
//! `DEBOUNCE_TICKS` consecutive scans before the state changes.
use vstd::prelude::*;

verus! {

pub const COLS: usize = 14;
pub const ROWS: usize = 6;
/// Consecutive differing reads that change a key's state.
pub const DEBOUNCE_TICKS: u8 = 3;

/// One key read: the new state, the new count of differing reads, and the
/// new state when it changed. A read equal to the state clears the count; a
/// differing read counts, and the `DEBOUNCE_TICKS`-th one changes the state.
pub open spec fn debounce_step(state: bool, count: u8, raw: bool) -> (bool, u8, Option<bool>) {
    if raw == state {
        (state, 0, None)
    } else if count + 1 >= DEBOUNCE_TICKS {
        (raw, 0, Some(raw))
    } else {
        (state, (count + 1) as u8, None)
    }
}

/// Debounced state of every key, by `col * ROWS + row`.
pub struct Debouncer {
    pub state: Vec<bool>,
    pub count: Vec<u8>,
}

impl Debouncer {
    /// Well-formed: one entry per key, counts below `DEBOUNCE_TICKS`.
    pub open spec fn wf(&self) -> bool {
        &&& self.state@.len() == COLS * ROWS
        &&& self.count@.len() == COLS * ROWS
        &&& forall|i: int| 0 <= i < COLS * ROWS ==> #[trigger] self.count@[i] < DEBOUNCE_TICKS
    }

    /// The debounced state of the key at (row, col).
    pub open spec fn state_at(&self, row: int, col: int) -> bool {
        self.state@[col * ROWS + row]
    }

    /// The count of differing reads of the key at (row, col).
    pub open spec fn count_at(&self, row: int, col: int) -> u8 {
        self.count@[col * ROWS + row]
    }

    /// All keys released, no differing reads.
    pub fn new() -> (r: Self)
        ensures
            r.wf(),
            forall|row: int, col: int|
                0 <= row < ROWS && 0 <= col < COLS ==> !#[trigger] r.state_at(row, col) && r.count_at(
                    row,
                    col,
                ) == 0,
    {
        let state = vec![false; COLS * ROWS];
        let count = vec![0u8; COLS * ROWS];
        let r = Debouncer { state, count };
        assert forall|row: int, col: int| 0 <= row < ROWS && 0 <= col < COLS implies !#[trigger] r.state_at(
            row,
            col,
        ) && r.count_at(row, col) == 0 by {
            assert(0 <= col * ROWS + row < COLS * ROWS) by (nonlinear_arith)
                requires
                    0 <= row < ROWS,
                    0 <= col < COLS,
            ;
        }
        r
    }

    /// Feeds one read of the key at (row, col); returns its new state when
    /// it changed. Other keys are untouched.
    pub fn update(&mut self, row: usize, col: usize, raw: bool) -> (r: Option<bool>)
        requires
            old(self).wf(),
            row < ROWS,
            col < COLS,
        ensures
            final(self).wf(),
            ({
                let i = col * ROWS + row;
                let (s, c, change) = debounce_step(old(self).state@[i], old(self).count@[i], raw);
                &&& final(self).state@ == old(self).state@.update(i, s)
                &&& final(self).count@ == old(self).count@.update(i, c)
                &&& r == change
            }),
    {
        assert(col * ROWS + row < COLS * ROWS) by (nonlinear_arith)
            requires
                row < ROWS,
                col < COLS,
        ;
        let i = col * ROWS + row;
        let state = self.state[i];
        let count = self.count[i];
        if raw == state {
            self.count.set(i, 0);
            None
        } else if count + 1 >= DEBOUNCE_TICKS {
            self.state.set(i, raw);
            self.count.set(i, 0);
            Some(raw)
        } else {
            self.count.set(i, count + 1);
            None
        }
    }
}

/// A differing read changes a released-and-settled key only on the
/// `DEBOUNCE_TICKS`-th consecutive read.
pub proof fn lemma_three_reads(s: bool)
    ensures
        ({
            let (s1, c1, e1) = debounce_step(s, 0, !s);
            let (s2, c2, e2) = debounce_step(s1, c1, !s);
            let (s3, c3, e3) = debounce_step(s2, c2, !s);
            &&& e1 is None && e2 is None
            &&& e3 == Some(!s) && s3 == !s && c3 == 0
        }),
{
}

/// A single glitch (one differing read, then an agreeing one) leaves the
/// state as it was and clears the count.
pub proof fn lemma_glitch_ignored(s: bool, c: u8)
    requires
        c < DEBOUNCE_TICKS - 1,
    ensures
        ({
            let (s1, c1, e1) = debounce_step(s, c, !s);
            let (s2, c2, e2) = debounce_step(s1, c1, s);
            &&& e1 is None && e2 is None
            &&& s2 == s && c2 == 0
        }),
{
}

} // verus!

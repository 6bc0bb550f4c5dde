//! The counter core of the directed switch-difficulty tables.
//!
//! A switch table counts, per mode, solo trials and successes, and per
//! ordered pair `a → b` (mode `b` attempted right after mode `a`) pair
//! trials and successes. The factorized form routes each switch into a
//! leave cell `(a, family(b))` and a land cell `(family(a), b)`. Counters
//! saturate at `u32::MAX`; successes never exceed trials.

use vstd::prelude::*;

verus! {

/// `x + 1`, saturating at `u32::MAX`.
pub open spec fn sat_inc(x: u32) -> u32 {
    if x == u32::MAX {
        x
    } else {
        (x + 1) as u32
    }
}

/// Count one trial in a `(success, trials)` cell.
pub open spec fn count_trial(cell: (u32, u32), success: bool) -> (u32, u32) {
    (if success { sat_inc(cell.0) } else { cell.0 }, sat_inc(cell.1))
}

/// A row of counters with `row[j]` replaced by `v`.
pub open spec fn grid_update(grid: Seq<Seq<u32>>, i: int, j: int, v: u32) -> Seq<Seq<u32>> {
    grid.update(i, grid[i].update(j, v))
}

/// Successes never exceed trials, cell by cell.
pub open spec fn cells_bounded(success: Seq<u32>, trials: Seq<u32>) -> bool {
    &&& success.len() == trials.len()
    &&& forall|i: int| 0 <= i < success.len() ==> success[i] <= trials[i]
}

/// Successes never exceed trials in any cell of a grid.
pub open spec fn grid_bounded(success: Seq<Seq<u32>>, trials: Seq<Seq<u32>>) -> bool {
    &&& success.len() == trials.len()
    &&& forall|i: int| 0 <= i < success.len() ==> cells_bounded(#[trigger] success[i], trials[i])
}

/// A fixed grid seen as a sequence of rows.
pub open spec fn grid_view<const R: usize, const C: usize>(g: [[u32; C]; R]) -> Seq<Seq<u32>> {
    Seq::new(R as nat, |i: int| g@[i]@)
}

/// The counters of an exact switch table, as sequences.
#[verifier::ext_equal]
pub struct SwitchCountsView {
    pub solo_success: Seq<u32>,
    pub solo_trials: Seq<u32>,
    pub pair_success: Seq<Seq<u32>>,
    pub pair_trials: Seq<Seq<u32>>,
}

impl SwitchCountsView {
    /// Successes never exceed trials, solo or pair.
    pub open spec fn bounded(self) -> bool {
        cells_bounded(self.solo_success, self.solo_trials) && grid_bounded(
            self.pair_success,
            self.pair_trials,
        )
    }

    /// Count one solo trial of `mode`.
    pub open spec fn record_solo(self, mode: int, success: bool) -> SwitchCountsView {
        let c = count_trial((self.solo_success[mode], self.solo_trials[mode]), success);
        SwitchCountsView {
            solo_success: self.solo_success.update(mode, c.0),
            solo_trials: self.solo_trials.update(mode, c.1),
            ..self
        }
    }

    /// Count one switch `a → b`.
    pub open spec fn record_switch(self, a: int, b: int, success: bool) -> SwitchCountsView {
        let c = count_trial((self.pair_success[a][b], self.pair_trials[a][b]), success);
        SwitchCountsView {
            pair_success: grid_update(self.pair_success, a, b, c.0),
            pair_trials: grid_update(self.pair_trials, a, b, c.1),
            ..self
        }
    }
}

/// Counters of a directed switch-difficulty table over `N` modes.
#[derive(Clone, Copy, Debug)]
pub struct SwitchCounts<const N: usize> {
    /// Solo successes per mode.
    pub solo_success: [u32; N],
    /// Solo trials per mode.
    pub solo_trials: [u32; N],
    /// `[a][b]`: successes of `b` attempted immediately after `a`.
    pub pair_success: [[u32; N]; N],
    /// `[a][b]`: trials of `b` attempted immediately after `a`.
    pub pair_trials: [[u32; N]; N],
}

impl<const N: usize> View for SwitchCounts<N> {
    type V = SwitchCountsView;

    open spec fn view(&self) -> SwitchCountsView {
        SwitchCountsView {
            solo_success: self.solo_success@,
            solo_trials: self.solo_trials@,
            pair_success: grid_view(self.pair_success),
            pair_trials: grid_view(self.pair_trials),
        }
    }
}

/// Count one trial into `(success, trials)`.
fn count_into(success_cell: u32, trials_cell: u32, success: bool) -> (r: (u32, u32))
    ensures
        r == count_trial((success_cell, trials_cell), success),
{
    let t = trials_cell.saturating_add(1);
    let s = if success { success_cell.saturating_add(1) } else { success_cell };
    (s, t)
}

impl<const N: usize> SwitchCounts<N> {
    /// An empty table: every counter zero.
    pub fn new() -> (t: Self)
        ensures
            t@ == (SwitchCountsView {
                solo_success: Seq::new(N as nat, |i: int| 0u32),
                solo_trials: Seq::new(N as nat, |i: int| 0u32),
                pair_success: Seq::new(N as nat, |i: int| Seq::new(N as nat, |j: int| 0u32)),
                pair_trials: Seq::new(N as nat, |i: int| Seq::new(N as nat, |j: int| 0u32)),
            }),
            t@.bounded(),
    {
        let t = Self {
            solo_success: [0; N],
            solo_trials: [0; N],
            pair_success: [[0; N]; N],
            pair_trials: [[0; N]; N],
        };
        assert(t@.solo_success =~= Seq::new(N as nat, |i: int| 0u32));
        assert(t@.solo_trials =~= Seq::new(N as nat, |i: int| 0u32));
        assert(t@.pair_success =~~= Seq::new(N as nat, |i: int| Seq::new(N as nat, |j: int| 0u32)));
        assert(t@.pair_trials =~~= Seq::new(N as nat, |i: int| Seq::new(N as nat, |j: int| 0u32)));
        t
    }

    /// Record one solo trial of `mode`.
    pub fn record_solo(&mut self, mode: usize, success: bool)
        requires
            mode < N,
        ensures
            final(self)@ == old(self)@.record_solo(mode as int, success),
    {
        let (s, t) = count_into(self.solo_success[mode], self.solo_trials[mode], success);
        self.solo_success[mode] = s;
        self.solo_trials[mode] = t;
        assert(self@ =~~= old(self)@.record_solo(mode as int, success));
    }

    /// Record one pair trial: `b` attempted immediately after `a`.
    pub fn record_switch(&mut self, a: usize, b: usize, success: bool)
        requires
            a < N,
            b < N,
        ensures
            final(self)@ == old(self)@.record_switch(a as int, b as int, success),
    {
        let mut srow = self.pair_success[a];
        let mut trow = self.pair_trials[a];
        let (s, t) = count_into(srow[b], trow[b], success);
        srow[b] = s;
        trow[b] = t;
        self.pair_success[a] = srow;
        self.pair_trials[a] = trow;
        assert(self@ =~~= old(self)@.record_switch(a as int, b as int, success));
    }

    /// Solo successes recorded for `mode`.
    pub fn solo_successes(&self, mode: usize) -> (r: u32)
        requires
            mode < N,
        ensures
            r == self@.solo_success[mode as int],
    {
        self.solo_success[mode]
    }

    /// Solo trials recorded for `mode`.
    pub fn solo_trials(&self, mode: usize) -> (r: u32)
        requires
            mode < N,
        ensures
            r == self@.solo_trials[mode as int],
    {
        self.solo_trials[mode]
    }

    /// Pair successes recorded for the ordered switch `a → b`.
    pub fn pair_successes(&self, a: usize, b: usize) -> (r: u32)
        requires
            a < N,
            b < N,
        ensures
            r == self@.pair_success[a as int][b as int],
    {
        self.pair_success[a][b]
    }

    /// Pair trials recorded for the ordered switch `a → b`.
    pub fn pair_trials(&self, a: usize, b: usize) -> (r: u32)
        requires
            a < N,
            b < N,
        ensures
            r == self@.pair_trials[a as int][b as int],
    {
        self.pair_trials[a][b]
    }
}

/// The counters of a factorized switch table, as sequences.
#[verifier::ext_equal]
pub struct FactorizedCountsView {
    pub family_of: Seq<usize>,
    pub solo_success: Seq<u32>,
    pub solo_trials: Seq<u32>,
    pub fam_solo_success: Seq<u32>,
    pub fam_solo_trials: Seq<u32>,
    pub leave_success: Seq<Seq<u32>>,
    pub leave_trials: Seq<Seq<u32>>,
    pub land_success: Seq<Seq<u32>>,
    pub land_trials: Seq<Seq<u32>>,
}

impl FactorizedCountsView {
    /// Every mode belongs to one of `families` families.
    pub open spec fn families_in_range(self, families: int) -> bool {
        forall|m: int| 0 <= m < self.family_of.len() ==> 0 <= #[trigger] self.family_of[m] < families
    }

    /// Successes never exceed trials, in every table.
    pub open spec fn bounded(self) -> bool {
        &&& cells_bounded(self.solo_success, self.solo_trials)
        &&& cells_bounded(self.fam_solo_success, self.fam_solo_trials)
        &&& grid_bounded(self.leave_success, self.leave_trials)
        &&& grid_bounded(self.land_success, self.land_trials)
    }

    /// Count one solo trial of `mode`, and of its family.
    pub open spec fn record_solo(self, mode: int, success: bool) -> FactorizedCountsView {
        let fam = self.family_of[mode] as int;
        let c = count_trial((self.solo_success[mode], self.solo_trials[mode]), success);
        let f = count_trial((self.fam_solo_success[fam], self.fam_solo_trials[fam]), success);
        FactorizedCountsView {
            solo_success: self.solo_success.update(mode, c.0),
            solo_trials: self.solo_trials.update(mode, c.1),
            fam_solo_success: self.fam_solo_success.update(fam, f.0),
            fam_solo_trials: self.fam_solo_trials.update(fam, f.1),
            ..self
        }
    }

    /// Count one switch `a → b` in its leave cell `(a, family(b))` and its
    /// land cell `(family(a), b)`.
    pub open spec fn record_switch(self, a: int, b: int, success: bool) -> FactorizedCountsView {
        let fa = self.family_of[a] as int;
        let fb = self.family_of[b] as int;
        let l = count_trial((self.leave_success[a][fb], self.leave_trials[a][fb]), success);
        let d = count_trial((self.land_success[fa][b], self.land_trials[fa][b]), success);
        FactorizedCountsView {
            leave_success: grid_update(self.leave_success, a, fb, l.0),
            leave_trials: grid_update(self.leave_trials, a, fb, l.1),
            land_success: grid_update(self.land_success, fa, b, d.0),
            land_trials: grid_update(self.land_trials, fa, b, d.1),
            ..self
        }
    }
}

/// Counters of a factorized switch table over `N` modes in `F` families:
/// O(N·F) pair counters instead of O(N²).
#[derive(Clone, Copy, Debug)]
pub struct FactorizedSwitchCounts<const N: usize, const F: usize> {
    /// The family of each mode (every entry below `F`).
    pub family_of: [usize; N],
    /// Solo successes per mode.
    pub solo_success: [u32; N],
    /// Solo trials per mode.
    pub solo_trials: [u32; N],
    /// Family-aggregated solo successes.
    pub fam_solo_success: [u32; F],
    /// Family-aggregated solo trials.
    pub fam_solo_trials: [u32; F],
    /// `[a][f]`: successes of any member of family `f` attempted after `a`.
    pub leave_success: [[u32; F]; N],
    /// `[a][f]`: trials of any member of family `f` attempted after `a`.
    pub leave_trials: [[u32; F]; N],
    /// `[f][b]`: successes of `b` attempted after any member of family `f`.
    pub land_success: [[u32; N]; F],
    /// `[f][b]`: trials of `b` attempted after any member of family `f`.
    pub land_trials: [[u32; N]; F],
}

impl<const N: usize, const F: usize> View for FactorizedSwitchCounts<N, F> {
    type V = FactorizedCountsView;

    open spec fn view(&self) -> FactorizedCountsView {
        FactorizedCountsView {
            family_of: self.family_of@,
            solo_success: self.solo_success@,
            solo_trials: self.solo_trials@,
            fam_solo_success: self.fam_solo_success@,
            fam_solo_trials: self.fam_solo_trials@,
            leave_success: grid_view(self.leave_success),
            leave_trials: grid_view(self.leave_trials),
            land_success: grid_view(self.land_success),
            land_trials: grid_view(self.land_trials),
        }
    }
}

impl<const N: usize, const F: usize> FactorizedSwitchCounts<N, F> {
    /// An empty factorized table. Every mode's family must be below `F`.
    pub fn new(family_of: [usize; N]) -> (t: Self)
        requires
            forall|m: int| 0 <= m < N ==> family_of@[m] < F,
        ensures
            t@.family_of == family_of@,
            t@.families_in_range(F as int),
            t@.bounded(),
            forall|m: int| 0 <= m < N ==> t@.solo_trials[m] == 0 && t@.solo_success[m] == 0,
            forall|f: int| 0 <= f < F ==> t@.fam_solo_trials[f] == 0 && t@.fam_solo_success[f] == 0,
            forall|a: int, f: int|
                0 <= a < N && 0 <= f < F ==> t@.leave_trials[a][f] == 0 && t@.leave_success[a][f]
                    == 0,
            forall|f: int, b: int|
                0 <= f < F && 0 <= b < N ==> t@.land_trials[f][b] == 0 && t@.land_success[f][b]
                    == 0,
    {
        Self {
            family_of,
            solo_success: [0; N],
            solo_trials: [0; N],
            fam_solo_success: [0; F],
            fam_solo_trials: [0; F],
            leave_success: [[0; F]; N],
            leave_trials: [[0; F]; N],
            land_success: [[0; N]; F],
            land_trials: [[0; N]; F],
        }
    }

    /// Record one solo trial of `mode` (also feeds its family aggregate).
    pub fn record_solo(&mut self, mode: usize, success: bool)
        requires
            mode < N,
            old(self)@.families_in_range(F as int),
        ensures
            final(self)@ == old(self)@.record_solo(mode as int, success),
    {
        let fam = self.family_of[mode];
        assert(self@.family_of[mode as int] < F);
        let (s, t) = count_into(self.solo_success[mode], self.solo_trials[mode], success);
        self.solo_success[mode] = s;
        self.solo_trials[mode] = t;
        let (fs, ft) = count_into(self.fam_solo_success[fam], self.fam_solo_trials[fam], success);
        self.fam_solo_success[fam] = fs;
        self.fam_solo_trials[fam] = ft;
        assert(self@ =~~= old(self)@.record_solo(mode as int, success));
    }

    /// Record one pair trial, routed into the leave and land family cells.
    pub fn record_switch(&mut self, a: usize, b: usize, success: bool)
        requires
            a < N,
            b < N,
            old(self)@.families_in_range(F as int),
        ensures
            final(self)@ == old(self)@.record_switch(a as int, b as int, success),
    {
        let fa = self.family_of[a];
        let fb = self.family_of[b];
        assert(self@.family_of[a as int] < F && self@.family_of[b as int] < F);
        let mut lsrow = self.leave_success[a];
        let mut ltrow = self.leave_trials[a];
        let (ls, lt) = count_into(lsrow[fb], ltrow[fb], success);
        lsrow[fb] = ls;
        ltrow[fb] = lt;
        self.leave_success[a] = lsrow;
        self.leave_trials[a] = ltrow;
        let mut dsrow = self.land_success[fa];
        let mut dtrow = self.land_trials[fa];
        let (ds, dt) = count_into(dsrow[b], dtrow[b], success);
        dsrow[b] = ds;
        dtrow[b] = dt;
        self.land_success[fa] = dsrow;
        self.land_trials[fa] = dtrow;
        assert(self@ =~~= old(self)@.record_switch(a as int, b as int, success));
    }

    /// The family of `mode`.
    pub fn family_of(&self, mode: usize) -> (f: usize)
        requires
            mode < N,
        ensures
            f == self@.family_of[mode as int],
    {
        self.family_of[mode]
    }

    /// Solo `(successes, trials)` of `mode`.
    pub fn solo_counts(&self, mode: usize) -> (r: (u32, u32))
        requires
            mode < N,
        ensures
            r == (self@.solo_success[mode as int], self@.solo_trials[mode as int]),
    {
        (self.solo_success[mode], self.solo_trials[mode])
    }

    /// Family-aggregated solo `(successes, trials)` of family `f`.
    pub fn family_counts(&self, f: usize) -> (r: (u32, u32))
        requires
            f < F,
        ensures
            r == (self@.fam_solo_success[f as int], self@.fam_solo_trials[f as int]),
    {
        (self.fam_solo_success[f], self.fam_solo_trials[f])
    }

    /// Leave-cell `(successes, trials)` of mode `a` toward family `f`.
    pub fn leave_counts(&self, a: usize, f: usize) -> (r: (u32, u32))
        requires
            a < N,
            f < F,
        ensures
            r == (self@.leave_success[a as int][f as int], self@.leave_trials[a as int][f as int]),
    {
        (self.leave_success[a][f], self.leave_trials[a][f])
    }

    /// Land-cell `(successes, trials)` of mode `b` from family `f`.
    pub fn land_counts(&self, f: usize, b: usize) -> (r: (u32, u32))
        requires
            f < F,
            b < N,
        ensures
            r == (self@.land_success[f as int][b as int], self@.land_trials[f as int][b as int]),
    {
        (self.land_success[f][b], self.land_trials[f][b])
    }
}

/// `grid` has `rows` rows of `cols` counters.
pub open spec fn grid_shaped(grid: Seq<Seq<u32>>, rows: int, cols: int) -> bool {
    grid.len() == rows && forall|i: int| 0 <= i < rows ==> (#[trigger] grid[i]).len() == cols
}

impl SwitchCountsView {
    /// `n` solo cells and an `n × n` pair grid.
    pub open spec fn shaped(self, n: int) -> bool {
        &&& self.solo_success.len() == n
        &&& self.solo_trials.len() == n
        &&& grid_shaped(self.pair_success, n, n)
        &&& grid_shaped(self.pair_trials, n, n)
    }
}

/// A table's counters always have their fixed shape.
pub proof fn law_counts_are_shaped<const N: usize>(t: SwitchCounts<N>)
    ensures
        t@.shaped(N as int),
{
}

/// Recording keeps successes at most trials, cell by cell.
pub proof fn law_recording_keeps_counts_bounded(
    s: SwitchCountsView,
    n: int,
    mode: int,
    a: int,
    b: int,
    success: bool,
)
    requires
        s.shaped(n),
        s.bounded(),
        0 <= mode < n,
        0 <= a < n,
        0 <= b < n,
    ensures
        s.record_solo(mode, success).bounded(),
        s.record_switch(a, b, success).bounded(),
        s.record_switch(a, b, success).shaped(n),
        s.record_solo(mode, success).shaped(n),
{
    let r = s.record_switch(a, b, success);
    assert forall|i: int| 0 <= i < r.pair_success.len() implies cells_bounded(
        #[trigger] r.pair_success[i],
        r.pair_trials[i],
    ) by {
        assert(cells_bounded(s.pair_success[i], s.pair_trials[i]));
    }
}

/// Recording a switch touches only its own cell: trials grow by one
/// (saturating), successes grow by one exactly when the switch succeeded,
/// and every other counter is unchanged.
pub proof fn law_switch_touches_one_cell(s: SwitchCountsView, n: int, a: int, b: int, success: bool)
    requires
        s.shaped(n),
        0 <= a < n,
        0 <= b < n,
    ensures
        ({
            let r = s.record_switch(a, b, success);
            &&& r.pair_trials[a][b] == sat_inc(s.pair_trials[a][b])
            &&& r.pair_success[a][b] == if success {
                sat_inc(s.pair_success[a][b])
            } else {
                s.pair_success[a][b]
            }
            &&& forall|i: int, j: int|
                0 <= i < n && 0 <= j < n && (i != a || j != b) ==> r.pair_trials[i][j]
                    == s.pair_trials[i][j] && r.pair_success[i][j] == s.pair_success[i][j]
            &&& r.solo_trials == s.solo_trials
            &&& r.solo_success == s.solo_success
        }),
{
}

/// Recording order does not matter: any two recordings commute, so a
/// table's counters depend only on the multiset of recorded outcomes.
pub proof fn law_recordings_commute(
    s: SwitchCountsView,
    n: int,
    a1: int,
    b1: int,
    ok1: bool,
    a2: int,
    b2: int,
    ok2: bool,
    m: int,
    okm: bool,
)
    requires
        s.shaped(n),
        0 <= a1 < n,
        0 <= b1 < n,
        0 <= a2 < n,
        0 <= b2 < n,
        0 <= m < n,
    ensures
        s.record_switch(a1, b1, ok1).record_switch(a2, b2, ok2) == s.record_switch(
            a2,
            b2,
            ok2,
        ).record_switch(a1, b1, ok1),
        s.record_solo(m, okm).record_switch(a1, b1, ok1) == s.record_switch(a1, b1, ok1).record_solo(
            m,
            okm,
        ),
{
    let x = s.record_switch(a1, b1, ok1).record_switch(a2, b2, ok2);
    let y = s.record_switch(a2, b2, ok2).record_switch(a1, b1, ok1);
    assert(x.pair_trials =~~= y.pair_trials);
    assert(x.pair_success =~~= y.pair_success);
    assert(x =~~= y);
    let u = s.record_solo(m, okm).record_switch(a1, b1, ok1);
    let v = s.record_switch(a1, b1, ok1).record_solo(m, okm);
    assert(u =~~= v);
}

/// In the factorized table a switch `a → b` counts once in the leave cell
/// `(a, family(b))` and once in the land cell `(family(a), b)`, and
/// recording keeps successes at most trials.
pub proof fn law_factorized_routing(s: FactorizedCountsView, n: int, f: int, a: int, b: int, success: bool)
    requires
        s.family_of.len() == n,
        s.families_in_range(f),
        s.bounded(),
        grid_shaped(s.leave_success, n, f),
        grid_shaped(s.leave_trials, n, f),
        grid_shaped(s.land_success, f, n),
        grid_shaped(s.land_trials, f, n),
        s.solo_trials.len() == n,
        s.fam_solo_trials.len() == f,
        0 <= a < n,
        0 <= b < n,
    ensures
        ({
            let r = s.record_switch(a, b, success);
            let fa = s.family_of[a] as int;
            let fb = s.family_of[b] as int;
            &&& r.leave_trials[a][fb] == sat_inc(s.leave_trials[a][fb])
            &&& r.land_trials[fa][b] == sat_inc(s.land_trials[fa][b])
            &&& r.bounded()
            &&& r.solo_trials == s.solo_trials
            &&& r.fam_solo_trials == s.fam_solo_trials
        }),
        s.record_solo(a, success).bounded(),
        s.record_solo(a, success).fam_solo_trials[s.family_of[a] as int] == sat_inc(
            s.fam_solo_trials[s.family_of[a] as int],
        ),
{
    let r = s.record_switch(a, b, success);
    let fa = s.family_of[a] as int;
    let fb = s.family_of[b] as int;
    assert(0 <= fa < f && 0 <= fb < f);
    assert forall|i: int| 0 <= i < r.leave_success.len() implies cells_bounded(
        #[trigger] r.leave_success[i],
        r.leave_trials[i],
    ) by {
        assert(cells_bounded(s.leave_success[i], s.leave_trials[i]));
    }
    assert forall|i: int| 0 <= i < r.land_success.len() implies cells_bounded(
        #[trigger] r.land_success[i],
        r.land_trials[i],
    ) by {
        assert(cells_bounded(s.land_success[i], s.land_trials[i]));
    }
}

/// A factorized switch `a → b` counts one trial in the leave cell
/// `(a, family(b))` and one in the land cell `(family(a), b)`, and one
/// success in each exactly when the switch succeeded; a failed switch
/// leaves both success counts as they were. No other counter moves.
pub proof fn law_factorized_switch_counts_success(
    s: FactorizedCountsView,
    n: int,
    f: int,
    a: int,
    b: int,
    success: bool,
)
    requires
        s.family_of.len() == n,
        s.families_in_range(f),
        grid_shaped(s.leave_success, n, f),
        grid_shaped(s.leave_trials, n, f),
        grid_shaped(s.land_success, f, n),
        grid_shaped(s.land_trials, f, n),
        0 <= a < n,
        0 <= b < n,
    ensures
        ({
            let r = s.record_switch(a, b, success);
            let fa = s.family_of[a] as int;
            let fb = s.family_of[b] as int;
            &&& r.land_success[fa][b] == if success {
                sat_inc(s.land_success[fa][b])
            } else {
                s.land_success[fa][b]
            }
            &&& r.leave_success[a][fb] == if success {
                sat_inc(s.leave_success[a][fb])
            } else {
                s.leave_success[a][fb]
            }
            &&& r.land_trials[fa][b] == sat_inc(s.land_trials[fa][b])
            &&& r.leave_trials[a][fb] == sat_inc(s.leave_trials[a][fb])
            &&& forall|i: int, j: int|
                0 <= i < n && 0 <= j < f && (i != a || j != fb) ==> r.leave_success[i][j]
                    == s.leave_success[i][j] && r.leave_trials[i][j] == s.leave_trials[i][j]
            &&& forall|i: int, j: int|
                0 <= i < f && 0 <= j < n && (i != fa || j != b) ==> r.land_success[i][j]
                    == s.land_success[i][j] && r.land_trials[i][j] == s.land_trials[i][j]
            &&& r.solo_success == s.solo_success
            &&& r.solo_trials == s.solo_trials
            &&& r.fam_solo_success == s.fam_solo_success
            &&& r.fam_solo_trials == s.fam_solo_trials
            &&& r.family_of == s.family_of
        }),
{
    let fa = s.family_of[a] as int;
    let fb = s.family_of[b] as int;
    assert(0 <= fa < f && 0 <= fb < f);
}

/// A factorized solo trial of `mode` counts one trial for the mode and one
/// for its family, and one success for each exactly when the trial
/// succeeded; a failed trial leaves both success counts as they were. No
/// pair counter moves.
pub proof fn law_factorized_solo_counts_success(
    s: FactorizedCountsView,
    n: int,
    f: int,
    mode: int,
    success: bool,
)
    requires
        s.family_of.len() == n,
        s.families_in_range(f),
        s.solo_success.len() == n,
        s.solo_trials.len() == n,
        s.fam_solo_success.len() == f,
        s.fam_solo_trials.len() == f,
        0 <= mode < n,
    ensures
        ({
            let r = s.record_solo(mode, success);
            let fm = s.family_of[mode] as int;
            &&& r.solo_success[mode] == if success {
                sat_inc(s.solo_success[mode])
            } else {
                s.solo_success[mode]
            }
            &&& r.solo_trials[mode] == sat_inc(s.solo_trials[mode])
            &&& r.fam_solo_success[fm] == if success {
                sat_inc(s.fam_solo_success[fm])
            } else {
                s.fam_solo_success[fm]
            }
            &&& r.fam_solo_trials[fm] == sat_inc(s.fam_solo_trials[fm])
            &&& forall|i: int|
                0 <= i < n && i != mode ==> r.solo_success[i] == s.solo_success[i]
                    && r.solo_trials[i] == s.solo_trials[i]
            &&& forall|g: int|
                0 <= g < f && g != fm ==> r.fam_solo_success[g] == s.fam_solo_success[g]
                    && r.fam_solo_trials[g] == s.fam_solo_trials[g]
            &&& r.leave_success == s.leave_success
            &&& r.leave_trials == s.leave_trials
            &&& r.land_success == s.land_success
            &&& r.land_trials == s.land_trials
        }),
{
    let fm = s.family_of[mode] as int;
    assert(0 <= fm < f);
}

/// A solo trial of `mode` in the exact table counts one trial, and one
/// success exactly when it succeeded; no other counter moves.
pub proof fn law_solo_counts_success(s: SwitchCountsView, n: int, mode: int, success: bool)
    requires
        s.shaped(n),
        0 <= mode < n,
    ensures
        ({
            let r = s.record_solo(mode, success);
            &&& r.solo_success[mode] == if success {
                sat_inc(s.solo_success[mode])
            } else {
                s.solo_success[mode]
            }
            &&& r.solo_trials[mode] == sat_inc(s.solo_trials[mode])
            &&& forall|i: int|
                0 <= i < n && i != mode ==> r.solo_success[i] == s.solo_success[i]
                    && r.solo_trials[i] == s.solo_trials[i]
            &&& r.pair_success == s.pair_success
            &&& r.pair_trials == s.pair_trials
        }),
{
}

} // verus!

use vstd::prelude::*;

use crate::additive::{
    push_carry,
    push_output,
    PhaseTicks,
    RemainderAccumulator,
    TAU_TICKS_DEFAULT,
};
use crate::math_error::MathError;

verus! {

/// Slots of the root feedback accumulator: one quantum returns to the root
/// for every four that reach the deepest level.
pub const ROOT_FEEDBACK_SLOTS: i64 = 4;

/// Number of cells at level `l`: the root is one cell, each level doubles.
pub open spec fn level_width(l: nat) -> nat
    decreases l,
{
    if l == 0 {
        1
    } else {
        2 * level_width((l - 1) as nat)
    }
}

/// Sum of a sequence of quanta.
pub open spec fn seq_sum(s: Seq<i64>) -> int
    decreases s.len(),
{
    if s.len() == 0 {
        0
    } else {
        seq_sum(s.drop_last()) + s.last()
    }
}

/// Sum of the quanta held in levels `0..l`.
pub open spec fn levels_sum(ls: Seq<Seq<i64>>, l: nat) -> int
    decreases l,
{
    if l == 0 {
        0
    } else {
        levels_sum(ls, (l - 1) as nat) + seq_sum(ls[l - 1])
    }
}

/// All quanta held by a kernel.
pub open spec fn total(ls: Seq<Seq<i64>>) -> int {
    levels_sum(ls, ls.len())
}

/// Quanta that a step moves before it reaches cell `i` of level `l`.
pub open spec fn quanta_before(ls: Seq<Seq<i64>>, l: nat, i: int) -> int {
    levels_sum(ls, l) + seq_sum(ls[l as int].take(i))
}

/// The alternating split toggle as it stands when a step reaches cell `i` of level `l`.
pub open spec fn toggle_at(ls: Seq<Seq<i64>>, toggle: bool, l: nat, i: int) -> bool {
    toggle != (quanta_before(ls, l, i) % 2 == 1)
}

/// How many of `q` quanta the left child receives when the split starts with `toggle`.
pub open spec fn left_share(q: int, toggle: bool) -> int {
    if toggle {
        (q + 1) / 2
    } else {
        q / 2
    }
}

/// Quanta that child cell `j` of level `l` receives from its parent in one step.
pub open spec fn child_quanta(ls: Seq<Seq<i64>>, toggle: bool, l: nat, j: int) -> int {
    let q = ls[l - 1][j / 2] as int;
    let left = left_share(q, toggle_at(ls, toggle, (l - 1) as nat, j / 2));
    if j % 2 == 0 {
        left
    } else {
        q - left
    }
}

/// Level `l` as a step fills it from level `l - 1`.
pub open spec fn child_level(ls: Seq<Seq<i64>>, toggle: bool, l: nat) -> Seq<i64> {
    Seq::new(level_width(l), |j: int| child_quanta(ls, toggle, l, j) as i64)
}

/// A level of empty cells.
pub open spec fn zero_level(l: nat) -> Seq<i64> {
    Seq::new(level_width(l), |j: int| 0i64)
}

/// A kernel as plain values.
pub struct FractalView {
    pub levels: Seq<Seq<i64>>,
    pub toggle: bool,
    pub carry: int,
    pub slots: int,
    pub tick: nat,
    pub tau: nat,
}

/// What every kernel satisfies: at least two levels, each twice as wide as
/// the one above, no negative cell, an empty deepest level, and a root
/// accumulator of four slots holding less than a slot.
pub open spec fn fractal_wf(v: FractalView) -> bool {
    &&& v.levels.len() >= 2
    &&& forall|l: int| 0 <= l < v.levels.len() ==> #[trigger] v.levels[l].len() == level_width(
        l as nat,
    )
    &&& forall|l: int, j: int|
        0 <= l < v.levels.len() && 0 <= j < v.levels[l].len() ==> #[trigger] v.levels[l][j] >= 0
    &&& forall|j: int|
        0 <= j < v.levels.last().len() ==> #[trigger] v.levels.last()[j] == 0
    &&& v.slots == ROOT_FEEDBACK_SLOTS
    &&& 0 <= v.carry < ROOT_FEEDBACK_SLOTS
    &&& v.tau == TAU_TICKS_DEFAULT
    &&& v.tick < v.tau
}

/// Quanta that reach the deepest level in one step.
pub open spec fn deepest_inflow(v: FractalView) -> int {
    seq_sum(v.levels[v.levels.len() - 2])
}

/// One step: every quantum above the deepest level moves to one of its two
/// children, alternating between right and left; the quanta that reach the
/// deepest level are sunk, and one in four of them returns to the root.
pub open spec fn fractal_step(v: FractalView) -> FractalView {
    let d = v.levels.len();
    let inflow = deepest_inflow(v);
    FractalView {
        levels: Seq::new(
            d,
            |l: int|
                if l == 0 {
                    seq![push_output(v.carry + inflow, v.slots) as i64]
                } else if l == d - 1 {
                    zero_level(l as nat)
                } else {
                    child_level(v.levels, v.toggle, l as nat)
                },
        ),
        toggle: v.toggle != (levels_sum(v.levels, (d - 1) as nat) % 2 == 1),
        carry: push_carry(v.carry + inflow, v.slots),
        slots: v.slots,
        tick: ((v.tick + 1) as int % (v.tau as int)) as nat,
        tau: v.tau,
    }
}

proof fn lemma_seq_sum_take_next(s: Seq<i64>, i: int)
    requires
        0 <= i < s.len(),
    ensures
        seq_sum(s.take(i + 1)) == seq_sum(s.take(i)) + s[i],
{
    assert(s.take(i + 1).drop_last() =~= s.take(i));
}

proof fn lemma_seq_sum_take_all(s: Seq<i64>)
    ensures
        seq_sum(s.take(s.len() as int)) == seq_sum(s),
{
    assert(s.take(s.len() as int) =~= s);
}

proof fn lemma_seq_sum_nonneg(s: Seq<i64>)
    requires
        forall|j: int| 0 <= j < s.len() ==> s[j] >= 0,
    ensures
        seq_sum(s) >= 0,
    decreases s.len(),
{
    if s.len() > 0 {
        lemma_seq_sum_nonneg(s.drop_last());
    }
}

proof fn lemma_seq_sum_take_le(s: Seq<i64>, i: int)
    requires
        0 <= i <= s.len(),
        forall|j: int| 0 <= j < s.len() ==> s[j] >= 0,
    ensures
        0 <= seq_sum(s.take(i)) <= seq_sum(s),
    decreases s.len() - i,
{
    if i < s.len() {
        lemma_seq_sum_take_le(s, i + 1);
        lemma_seq_sum_take_next(s, i);
        lemma_seq_sum_nonneg(s.take(i));
    } else {
        lemma_seq_sum_take_all(s);
        lemma_seq_sum_nonneg(s);
    }
}

proof fn lemma_seq_sum_zero(l: nat)
    ensures
        seq_sum(zero_level(l)) == 0,
{
    lemma_seq_sum_zero_len(level_width(l));
    assert(zero_level(l) =~= Seq::new(level_width(l), |j: int| 0i64));
}

proof fn lemma_seq_sum_zero_len(n: nat)
    ensures
        seq_sum(Seq::new(n, |j: int| 0i64)) == 0,
    decreases n,
{
    if n > 0 {
        lemma_seq_sum_zero_len((n - 1) as nat);
        assert(Seq::new(n, |j: int| 0i64).drop_last() =~= Seq::new((n - 1) as nat, |j: int| 0i64));
    }
}

proof fn lemma_level_width_pos(l: nat)
    ensures
        level_width(l) >= 1,
    decreases l,
{
    if l > 0 {
        lemma_level_width_pos((l - 1) as nat);
    }
}

/// A level whose cells pair up into the cells of its parent holds as many quanta as the parent.
proof fn lemma_pairs_sum(parent: Seq<i64>, child: Seq<i64>)
    requires
        child.len() == 2 * parent.len(),
        forall|i: int|
            0 <= i < parent.len() ==> child[2 * i] + child[2 * i + 1] == #[trigger] parent[i],
    ensures
        seq_sum(child) == seq_sum(parent),
    decreases parent.len(),
{
    if parent.len() > 0 {
        let n = parent.len();
        let p2 = parent.drop_last();
        let c2 = child.drop_last().drop_last();
        assert forall|i: int| 0 <= i < p2.len() implies c2[2 * i] + c2[2 * i + 1] == #[trigger] p2[i] by {
            assert(parent[i] == p2[i]);
        }
        lemma_pairs_sum(p2, c2);
        assert(seq_sum(child) == seq_sum(child.drop_last()) + child.last());
        assert(seq_sum(child.drop_last()) == seq_sum(c2) + child.drop_last().last());
        assert(seq_sum(parent) == seq_sum(p2) + parent.last());
        assert(child.drop_last().last() == child[2 * n - 2]);
        assert(parent[n - 1] == child[2 * (n - 1)] + child[2 * (n - 1) + 1]);
    }
}

proof fn lemma_child_level_pairs(ls: Seq<Seq<i64>>, toggle: bool, l: nat)
    requires
        l >= 1,
        l < ls.len(),
        ls[l - 1].len() == level_width((l - 1) as nat),
        forall|j: int| 0 <= j < ls[l - 1].len() ==> #[trigger] ls[l - 1][j] >= 0,
    ensures
        seq_sum(child_level(ls, toggle, l)) == seq_sum(ls[l - 1]),
{
    let c = child_level(ls, toggle, l);
    let p = ls[l - 1];
    assert forall|i: int| 0 <= i < p.len() implies c[2 * i] + c[2 * i + 1] == #[trigger] p[i] by {
        lemma_child_pair(ls, toggle, l, i);
    }
    lemma_pairs_sum(p, c);
}

proof fn lemma_child_level_nonneg(ls: Seq<Seq<i64>>, toggle: bool, l: nat)
    requires
        l >= 1,
        l < ls.len(),
        ls[l - 1].len() == level_width((l - 1) as nat),
        forall|j: int| 0 <= j < ls[l - 1].len() ==> #[trigger] ls[l - 1][j] >= 0,
    ensures
        forall|j: int| 0 <= j < level_width(l) ==> #[trigger] child_level(ls, toggle, l)[j] >= 0,
{
    assert forall|j: int| 0 <= j < level_width(l) implies #[trigger] child_level(ls, toggle, l)[j]
        >= 0 by {
        assert(level_width(l) == 2 * level_width((l - 1) as nat));
        assert(0 <= j / 2 < level_width((l - 1) as nat));
        assert(ls[l - 1][j / 2] >= 0);
    }
}

/// The new levels hold, above level `l`, the feedback plus every quantum
/// that stood above level `l - 1`.
proof fn lemma_step_levels_sum(v: FractalView, l: nat)
    requires
        fractal_wf(v),
        v.carry + deepest_inflow(v) <= i64::MAX,
        1 <= l <= v.levels.len() - 1,
    ensures
        levels_sum(fractal_step(v).levels, l) == push_output(
            v.carry + deepest_inflow(v),
            v.slots,
        ) + levels_sum(v.levels, (l - 1) as nat),
    decreases l,
{
    let w = fractal_step(v).levels;
    let fb = push_output(v.carry + deepest_inflow(v), v.slots);
    if l == 1 {
        assert(levels_sum(w, 0) == 0);
        assert(levels_sum(v.levels, 0) == 0);
        assert(seq_sum(w[0]) == fb) by {
            assert(w[0] == seq![fb as i64]);
            assert(seq![fb as i64].drop_last() =~= Seq::<i64>::empty());
            assert(seq_sum(Seq::<i64>::empty()) == 0);
            lemma_fb_in_range(v);
        }
    } else {
        lemma_step_levels_sum(v, (l - 1) as nat);
        assert(w[l - 1] == child_level(v.levels, v.toggle, (l - 1) as nat));
        assert(v.levels[l - 2].len() == level_width((l - 2) as nat));
        lemma_child_level_pairs(v.levels, v.toggle, (l - 1) as nat);
        assert(levels_sum(w, l) == levels_sum(w, (l - 1) as nat) + seq_sum(w[l - 1]));
        assert(levels_sum(v.levels, (l - 1) as nat) == levels_sum(v.levels, (l - 2) as nat)
            + seq_sum(v.levels[l - 2]));
    }
}

proof fn lemma_fb_in_range(v: FractalView)
    requires
        fractal_wf(v),
        v.carry + deepest_inflow(v) <= i64::MAX,
    ensures
        0 <= push_output(v.carry + deepest_inflow(v), v.slots) <= deepest_inflow(v),
        i64::MIN <= push_output(v.carry + deepest_inflow(v), v.slots) <= i64::MAX,
{
    let d = v.levels.len();
    let s = v.levels[d - 2];
    assert forall|j: int| 0 <= j < s.len() implies s[j] >= 0 by {
        assert(v.levels[d - 2][j] >= 0);
    }
    lemma_seq_sum_nonneg(s);
    let x = v.carry + deepest_inflow(v);
    let inflow = deepest_inflow(v);
    vstd::arithmetic::div_mod::lemma_fundamental_div_mod(x, 4);
    vstd::arithmetic::div_mod::lemma_mod_pos_bound(x, 4);
}

/// A step never creates quanta: the kernel holds afterwards the quanta it
/// held, less those sunk at the deepest level, plus the one in four of them
/// that the root accumulator hands back; so the total never grows and never
/// falls below zero.
pub proof fn lemma_step_conserves(v: FractalView)
    requires
        fractal_wf(v),
        v.carry + deepest_inflow(v) <= i64::MAX,
    ensures
        total(fractal_step(v).levels) == total(v.levels) - deepest_inflow(v) + push_output(
            v.carry + deepest_inflow(v),
            v.slots,
        ),
        0 <= total(fractal_step(v).levels) <= total(v.levels),
        total(fractal_step(v).levels) + fractal_step(v).carry <= total(v.levels) + v.carry,
{
    let d = v.levels.len();
    let w = fractal_step(v).levels;
    lemma_step_levels_sum(v, (d - 1) as nat);
    assert(w[d - 1] == zero_level((d - 1) as nat));
    lemma_seq_sum_zero((d - 1) as nat);
    assert(v.levels.last() == v.levels[d - 1]);
    assert(v.levels[d - 1] =~= zero_level((d - 1) as nat));
    lemma_fb_in_range(v);
    lemma_levels_sum_nonneg(v, (d - 2) as nat);
    let x = v.carry + deepest_inflow(v);
    vstd::arithmetic::div_mod::lemma_fundamental_div_mod(x, 4);
    vstd::arithmetic::div_mod::lemma_mod_pos_bound(x, 4);
}

proof fn lemma_levels_sum_nonneg(v: FractalView, l: nat)
    requires
        fractal_wf(v),
        l <= v.levels.len(),
    ensures
        levels_sum(v.levels, l) >= 0,
    decreases l,
{
    if l > 0 {
        lemma_levels_sum_nonneg(v, (l - 1) as nat);
        let s = v.levels[l - 1];
        assert forall|j: int| 0 <= j < s.len() implies s[j] >= 0 by {
            assert(v.levels[l - 1][j] >= 0);
        }
        lemma_seq_sum_nonneg(s);
    }
}

/// Each quantum of a level above the two deepest moves one level down: a
/// step hands level `l` exactly the quanta that level `l - 1` held, split
/// between each cell's two children as evenly as possible.
pub proof fn lemma_step_moves_down(v: FractalView, l: nat)
    requires
        fractal_wf(v),
        1 <= l < v.levels.len() - 1,
    ensures
        seq_sum(fractal_step(v).levels[l as int]) == seq_sum(v.levels[l - 1]),
        forall|i: int|
            0 <= i < v.levels[l - 1].len() ==> {
                &&& fractal_step(v).levels[l as int][2 * i] + fractal_step(v).levels[l as int][2
                    * i + 1] == #[trigger] v.levels[l - 1][i]
                &&& -1 <= fractal_step(v).levels[l as int][2 * i] - fractal_step(
                    v,
                ).levels[l as int][2 * i + 1] <= 1
            },
{
    let p = v.levels[l - 1];
    assert forall|j: int| 0 <= j < p.len() implies #[trigger] p[j] >= 0 by {
        assert(v.levels[l - 1][j] >= 0);
    }
    lemma_child_level_pairs(v.levels, v.toggle, l);
    let c = child_level(v.levels, v.toggle, l);
    let w = fractal_step(v).levels;
    assert(w[l as int] == c);
    assert forall|i: int| 0 <= i < v.levels[l - 1].len() implies {
        &&& w[l as int][2 * i] + w[l as int][2 * i + 1] == #[trigger] v.levels[l - 1][i]
        &&& -1 <= w[l as int][2 * i] - w[l as int][2 * i + 1] <= 1
    } by {
        lemma_child_pair(v.levels, v.toggle, l, i);
    }
}

proof fn lemma_child_pair(ls: Seq<Seq<i64>>, toggle: bool, l: nat, i: int)
    requires
        l >= 1,
        l < ls.len(),
        ls[l - 1].len() == level_width((l - 1) as nat),
        0 <= i < ls[l - 1].len(),
        ls[l - 1][i] >= 0,
    ensures
        child_level(ls, toggle, l)[2 * i] + child_level(ls, toggle, l)[2 * i + 1] == ls[l - 1][i],
        -1 <= child_level(ls, toggle, l)[2 * i] - child_level(ls, toggle, l)[2 * i + 1] <= 1,
{
    assert((2 * i) / 2 == i);
    assert((2 * i + 1) / 2 == i);
    assert((2 * i) % 2 == 0);
    assert((2 * i + 1) % 2 == 1);
    assert(level_width(l) == 2 * level_width((l - 1) as nat));
}

/// Additive-only recursive branching kernel.
///
/// Hot-path updates avoid multiplication/division and use only
/// addition/subtraction/comparison plus indexing.
#[derive(Debug, Clone)]
pub struct AdditiveFractalKernel {
    levels: Vec<Vec<i64>>,
    split_toggle: bool,
    root_feedback: RemainderAccumulator,
    phase: PhaseTicks,
}

impl View for AdditiveFractalKernel {
    type V = FractalView;

    closed spec fn view(&self) -> FractalView {
        FractalView {
            levels: self.levels@.map_values(|r: Vec<i64>| r@),
            toggle: self.split_toggle,
            carry: self.root_feedback@.carry,
            slots: self.root_feedback@.slots,
            tick: self.phase@.tick,
            tau: self.phase@.tau,
        }
    }
}

impl AdditiveFractalKernel {
    /// What every kernel satisfies.
    pub open spec fn wf(&self) -> bool {
        fractal_wf(self@)
    }

    /// A kernel of `depth` empty levels, the root at phase zero.
    pub fn new(depth: usize) -> (r: Result<Self, MathError>)
        requires
            depth >= 2 ==> level_width(depth as nat) <= usize::MAX,
        ensures
            depth < 2 ==> r == Err::<Self, MathError>(MathError::InvalidConfig("depth must be >= 2")),
            depth >= 2 ==> (r matches Ok(k) && k.wf() && k@.levels.len() == depth && k@.carry
                == 0 && !k@.toggle && k@.tick == 0 && forall|l: int|
                0 <= l < depth ==> #[trigger] k@.levels[l] == zero_level(l as nat)),
    {
        if depth < 2 {
            return Err(MathError::InvalidConfig("depth must be >= 2"));
        }
        let mut levels: Vec<Vec<i64>> = Vec::with_capacity(depth);
        let mut width: usize = 1;
        let mut l: usize = 0;
        while l < depth
            invariant
                l <= depth,
                depth >= 2,
                level_width(depth as nat) <= usize::MAX,
                width == level_width(l as nat),
                levels@.len() == l,
                forall|k: int| 0 <= k < l ==> #[trigger] levels@[k]@ == zero_level(k as nat),
            decreases depth - l,
        {
            let row = zero_row(width);
            levels.push(row);
            proof {
                lemma_level_width_mono(l as nat + 1, depth as nat);
            }
            width += width;
            l += 1;
        }
        let root_feedback = match RemainderAccumulator::new(ROOT_FEEDBACK_SLOTS) {
            Ok(a) => a,
            Err(e) => return Err(e),
        };
        let phase = match PhaseTicks::new(0, TAU_TICKS_DEFAULT) {
            Ok(p) => p,
            Err(e) => return Err(e),
        };
        let k = Self { levels, split_toggle: false, root_feedback, phase };
        proof {
            assert forall|i: int| 0 <= i < depth implies #[trigger] k@.levels[i] == zero_level(
                i as nat,
            ) by {
                assert(k@.levels[i] == levels@[i]@);
            }
            assert(k@.levels.last() == k@.levels[depth - 1]);
        }
        Ok(k)
    }

    /// Number of levels.
    pub fn depth(&self) -> (d: usize)
        ensures
            d == self@.levels.len(),
    {
        self.levels.len()
    }

    /// The levels, root first.
    pub fn levels(&self) -> (r: &[Vec<i64>])
        ensures
            r@.len() == self@.levels.len(),
            forall|l: int| 0 <= l < r@.len() ==> #[trigger] r@[l]@ == self@.levels[l],
    {
        self.levels.as_slice()
    }

    /// The kernel's phase, one tick further each step.
    pub fn phase(&self) -> (p: PhaseTicks)
        ensures
            p@.tick == self@.tick,
            p@.tau == self@.tau,
    {
        self.phase
    }

    /// Adds `amount` quanta to the root when it is positive.
    pub fn seed_root(&mut self, amount: i64)
        requires
            old(self).wf(),
            amount > 0 ==> old(self)@.levels[0][0] + amount <= i64::MAX,
        ensures
            final(self).wf(),
            final(self)@.toggle == old(self)@.toggle,
            final(self)@.carry == old(self)@.carry,
            final(self)@.tick == old(self)@.tick,
            amount <= 0 ==> final(self)@ == old(self)@,
            amount > 0 ==> final(self)@.levels == old(self)@.levels.update(
                0,
                old(self)@.levels[0].update(0, (old(self)@.levels[0][0] + amount) as i64),
            ),
            total(final(self)@.levels) == total(old(self)@.levels) + if amount > 0 {
                amount as int
            } else {
                0
            },
    {
        if amount > 0 {
            let ghost before = self@.levels;
            proof {
                assert(self.levels@[0]@ == before[0]);
                assert(before[0].len() == level_width(0));
            }
            self.levels[0][0] += amount;
            proof {
                let after = self@.levels;
                assert(after =~= before.update(0, before[0].update(0, (before[0][0] + amount) as i64)));
                lemma_update_root_sum(before, amount as int);
                assert(after.last() == after[after.len() - 1]);
                assert(before.last() == before[before.len() - 1]);
            }
        }
    }

    /// All quanta held by the kernel.
    pub fn total_quanta(&self) -> (t: i64)
        requires
            self.wf(),
            total(self@.levels) <= i64::MAX,
        ensures
            t == total(self@.levels),
    {
        let ghost ls = self@.levels;
        let mut t: i64 = 0;
        let mut l: usize = 0;
        while l < self.levels.len()
            invariant
                fractal_wf(self@),
                ls == self@.levels,
                l <= ls.len(),
                total(ls) <= i64::MAX,
                t == levels_sum(ls, l as nat),
            decreases ls.len() - l,
        {
            let row = &self.levels[l];
            proof {
                assert(row@ == ls[l as int]);
                lemma_levels_sum_le_total(self@, l as nat + 1);
                lemma_levels_sum_nonneg(self@, l as nat);
            }
            let mut j: usize = 0;
            while j < row.len()
                invariant
                    fractal_wf(self@),
                    ls == self@.levels,
                    l < ls.len(),
                    row@ == ls[l as int],
                    j <= row@.len(),
                    levels_sum(ls, l as nat) + seq_sum(ls[l as int]) <= i64::MAX,
                    levels_sum(ls, l as nat) >= 0,
                    t == levels_sum(ls, l as nat) + seq_sum(row@.take(j as int)),
                decreases row@.len() - j,
            {
                proof {
                    assert forall|k: int| 0 <= k < row@.len() implies row@[k] >= 0 by {
                        assert(self@.levels[l as int][k] >= 0);
                    }
                    lemma_seq_sum_take_next(row@, j as int);
                    lemma_seq_sum_take_le(row@, j as int + 1);
                }
                t = t + row[j];
                j += 1;
            }
            proof {
                lemma_seq_sum_take_all(row@);
            }
            l += 1;
        }
        t
    }

    /// Moves every quantum one level down, alternating between the two
    /// children of its cell, sinks the quanta that reach the deepest level,
    /// returns one in four of them to the root, and advances the phase one tick.
    pub fn step(&mut self)
        requires
            old(self).wf(),
            old(self)@.carry + deepest_inflow(old(self)@) <= i64::MAX,
        ensures
            final(self).wf(),
            final(self)@ == fractal_step(old(self)@),
    {
        let ghost v = self@;
        let ghost ls = self@.levels;
        let depth = self.levels.len();
        let mut next: Vec<Vec<i64>> = Vec::with_capacity(depth);
        let mut l: usize = 0;
        while l < depth
            invariant
                fractal_wf(v),
                v == self@,
                ls == v.levels,
                depth == ls.len(),
                l <= depth,
                next@.len() == l,
                forall|k: int| 0 <= k < l ==> #[trigger] next@[k]@ == zero_level(k as nat),
            decreases depth - l,
        {
            let w = self.levels[l].len();
            proof {
                assert(self.levels@[l as int]@ == ls[l as int]);
            }
            next.push(zero_row(w));
            l += 1;
        }
        let mut toggle = self.split_toggle;
        let mut lvl: usize = 0;
        while lvl < depth - 1
            invariant
                fractal_wf(v),
                v == self@,
                ls == v.levels,
                depth == ls.len(),
                lvl <= depth - 1,
                next@.len() == depth,
                toggle == toggle_at(ls, v.toggle, lvl as nat, 0),
                next@[0]@ == zero_level(0),
                forall|k: int| 1 <= k <= lvl ==> #[trigger] next@[k]@ == child_level(ls, v.toggle, k as nat),
                forall|k: int| lvl < k < depth ==> #[trigger] next@[k]@ == zero_level(k as nat),
            decreases depth - 1 - lvl,
        {
            let this_len = self.levels[lvl].len();
            proof {
                assert(self.levels@[lvl as int]@ == ls[lvl as int]);
                assert(ls[lvl as int].len() == level_width(lvl as nat));
                assert(next@[lvl + 1]@ == zero_level(lvl as nat + 1));
                assert(ls[lvl as int].take(0) =~= Seq::<i64>::empty());
            }
            let child_len = next[lvl + 1].len();
            let mut child_base: usize = 0;
            let mut idx: usize = 0;
            while idx < this_len
                invariant
                    fractal_wf(v),
                    v == self@,
                    ls == v.levels,
                    depth == ls.len(),
                    lvl < depth - 1,
                    this_len == ls[lvl as int].len(),
                    this_len == level_width(lvl as nat),
                    idx <= this_len,
                    child_base == 2 * idx,
                    child_len == 2 * this_len,
                    next@.len() == depth,
                    next@[lvl + 1]@.len() == level_width(lvl as nat + 1),
                    toggle == toggle_at(ls, v.toggle, lvl as nat, idx as int),
                    next@[0]@ == zero_level(0),
                    forall|k: int| 1 <= k <= lvl ==> #[trigger] next@[k]@ == child_level(ls, v.toggle, k as nat),
                    forall|k: int| lvl + 1 < k < depth ==> #[trigger] next@[k]@ == zero_level(k as nat),
                    forall|j: int| 0 <= j < child_base ==> #[trigger] next@[lvl + 1]@[j] == child_quanta(ls, v.toggle, lvl as nat + 1, j),
                    forall|j: int| child_base <= j < next@[lvl + 1]@.len() ==> #[trigger] next@[lvl + 1]@[j] == 0,
                decreases this_len - idx,
            {
                let q0 = self.levels[lvl][idx];
                let ghost tb = toggle;
                proof {
                    assert(self.levels@[lvl as int]@ == ls[lvl as int]);
                    assert(q0 == ls[lvl as int][idx as int]);
                    assert(q0 >= 0);
                    assert(level_width(lvl as nat + 1) == 2 * level_width(lvl as nat));
                }
                let mut q = q0;
                while q > 0
                    invariant
                        fractal_wf(v),
                        v == self@,
                        ls == v.levels,
                        depth == ls.len(),
                        lvl < depth - 1,
                        this_len == level_width(lvl as nat),
                        idx < this_len,
                        child_base == 2 * idx,
                        0 <= q <= q0,
                        q0 >= 0,
                        next@.len() == depth,
                        next@[lvl + 1]@.len() == level_width(lvl as nat + 1),
                        level_width(lvl as nat + 1) == 2 * this_len,
                        toggle == (tb != ((q0 - q) % 2 == 1)),
                        next@[lvl + 1]@[child_base as int] == left_share(q0 - q, tb),
                        next@[lvl + 1]@[child_base + 1] == (q0 - q) - left_share(q0 - q, tb),
                        next@[0]@ == zero_level(0),
                        forall|k: int| 1 <= k <= lvl ==> #[trigger] next@[k]@ == child_level(ls, v.toggle, k as nat),
                        forall|k: int| lvl + 1 < k < depth ==> #[trigger] next@[k]@ == zero_level(k as nat),
                        forall|j: int| 0 <= j < child_base ==> #[trigger] next@[lvl + 1]@[j] == child_quanta(ls, v.toggle, lvl as nat + 1, j),
                        forall|j: int| child_base + 2 <= j < next@[lvl + 1]@.len() ==> #[trigger] next@[lvl + 1]@[j] == 0,
                    decreases q,
                {
                    if toggle {
                        next[lvl + 1][child_base] += 1;
                    } else {
                        next[lvl + 1][child_base + 1] += 1;
                    }
                    toggle = !toggle;
                    q -= 1;
                }
                proof {
                    lemma_toggle_advance(ls, v.toggle, lvl as nat, idx as int);
                    assert forall|j: int| 0 <= j < child_base + 2 implies #[trigger] next@[lvl + 1]@[j] == child_quanta(ls, v.toggle, lvl as nat + 1, j) by {
                        if j >= child_base {
                            assert(j / 2 == idx);
                        }
                    }
                }
                child_base += 2;
                idx += 1;
            }
            proof {
                assert(next@[lvl + 1]@ =~= child_level(ls, v.toggle, lvl as nat + 1));
                lemma_toggle_next_level(ls, v.toggle, lvl as nat);
            }
            lvl += 1;
        }
        let last_idx = depth - 1;
        let mut deepest: i64 = 0;
        let mut j: usize = 0;
        let ghost deep_row = next@[last_idx as int]@;
        proof {
            lemma_child_level_pairs(ls, v.toggle, last_idx as nat);
            assert(deep_row.take(0) =~= Seq::<i64>::empty());
        }
        while j < next[last_idx].len()
            invariant
                fractal_wf(v),
                v == self@,
                ls == v.levels,
                depth == ls.len(),
                last_idx == depth - 1,
                next@.len() == depth,
                deep_row == child_level(ls, v.toggle, last_idx as nat),
                seq_sum(deep_row) == deepest_inflow(v),
                v.carry + deepest_inflow(v) <= i64::MAX,
                forall|k: int| 0 <= k < deep_row.len() ==> #[trigger] deep_row[k] >= 0,
                next@[last_idx as int]@.len() == deep_row.len(),
                j <= deep_row.len(),
                deepest == seq_sum(deep_row.take(j as int)),
                forall|k: int| 0 <= k < j ==> #[trigger] next@[last_idx as int]@[k] == 0,
                forall|k: int| j <= k < deep_row.len() ==> #[trigger] next@[last_idx as int]@[k] == deep_row[k],
                next@[0]@ == zero_level(0),
                forall|k: int| 1 <= k < last_idx ==> #[trigger] next@[k]@ == child_level(ls, v.toggle, k as nat),
            decreases deep_row.len() - j,
        {
            proof {
                lemma_seq_sum_take_next(deep_row, j as int);
                lemma_seq_sum_take_le(deep_row, j as int + 1);
                lemma_seq_sum_take_le(deep_row, j as int);
                lemma_fb_in_range(v);
            }
            deepest += next[last_idx][j];
            next[last_idx][j] = 0;
            j += 1;
        }
        proof {
            lemma_seq_sum_take_all(deep_row);
            assert(next@[last_idx as int]@ =~= zero_level(last_idx as nat));
        }
        let feedback = self.root_feedback.push(deepest);
        if feedback > 0 {
            next[0][0] += feedback;
        }
        self.levels = next;
        self.split_toggle = toggle;
        self.phase = self.phase.add_ticks(1);
        proof {
            let w = fractal_step(v);
            lemma_fb_in_range(v);
            assert(self@.levels[0] =~= w.levels[0]);
            assert(self@.levels =~= w.levels);
            assert(toggle_at(ls, v.toggle, (depth - 1) as nat, 0) == w.toggle) by {
                assert(ls[depth - 1].take(0) =~= Seq::<i64>::empty());
            }
            lemma_step_wf(v);
        }
    }
}

/// A row of `width` empty cells.
fn zero_row(width: usize) -> (r: Vec<i64>)
    ensures
        r@.len() == width,
        forall|j: int| 0 <= j < width ==> #[trigger] r@[j] == 0,
{
    let mut r: Vec<i64> = Vec::with_capacity(width);
    let mut j: usize = 0;
    while j < width
        invariant
            j <= width,
            r@.len() == j,
            forall|k: int| 0 <= k < j ==> #[trigger] r@[k] == 0,
        decreases width - j,
    {
        r.push(0);
        j += 1;
    }
    r
}

proof fn lemma_level_width_mono(a: nat, b: nat)
    requires
        a <= b,
    ensures
        level_width(a) <= level_width(b),
    decreases b - a,
{
    if a < b {
        lemma_level_width_mono(a, (b - 1) as nat);
        lemma_level_width_pos((b - 1) as nat);
    }
}

proof fn lemma_update_root_sum(ls: Seq<Seq<i64>>, amount: int)
    requires
        ls.len() >= 1,
        ls[0].len() == 1,
        i64::MIN <= ls[0][0] + amount <= i64::MAX,
    ensures
        total(ls.update(0, ls[0].update(0, (ls[0][0] + amount) as i64))) == total(ls) + amount,
{
    let ls2 = ls.update(0, ls[0].update(0, (ls[0][0] + amount) as i64));
    lemma_levels_sum_shift(ls, ls2, amount, ls.len());
}

proof fn lemma_levels_sum_shift(ls: Seq<Seq<i64>>, ls2: Seq<Seq<i64>>, amount: int, l: nat)
    requires
        ls.len() >= 1,
        ls[0].len() == 1,
        l <= ls.len(),
        i64::MIN <= ls[0][0] + amount <= i64::MAX,
        ls2 == ls.update(0, ls[0].update(0, (ls[0][0] + amount) as i64)),
    ensures
        levels_sum(ls2, l) == levels_sum(ls, l) + if l >= 1 {
            amount
        } else {
            0
        },
    decreases l,
{
    if l > 0 {
        lemma_levels_sum_shift(ls, ls2, amount, (l - 1) as nat);
        if l == 1 {
            let r = ls2[0];
            assert(r.drop_last() =~= Seq::<i64>::empty());
            assert(ls[0].drop_last() =~= Seq::<i64>::empty());
        }
    }
}

proof fn lemma_levels_sum_le_total(v: FractalView, l: nat)
    requires
        fractal_wf(v),
        l <= v.levels.len(),
    ensures
        levels_sum(v.levels, l) <= total(v.levels),
    decreases v.levels.len() - l,
{
    if l < v.levels.len() {
        lemma_levels_sum_le_total(v, l + 1);
        let s = v.levels[l as int];
        assert forall|j: int| 0 <= j < s.len() implies s[j] >= 0 by {
            assert(v.levels[l as int][j] >= 0);
        }
        lemma_seq_sum_nonneg(s);
    }
}

proof fn lemma_toggle_advance(ls: Seq<Seq<i64>>, toggle: bool, l: nat, i: int)
    requires
        l < ls.len(),
        0 <= i < ls[l as int].len(),
    ensures
        toggle_at(ls, toggle, l, i + 1) == (toggle_at(ls, toggle, l, i) != (ls[l as int][i] % 2
            == 1)),
{
    lemma_seq_sum_take_next(ls[l as int], i);
}

proof fn lemma_toggle_next_level(ls: Seq<Seq<i64>>, toggle: bool, l: nat)
    requires
        l + 1 < ls.len(),
    ensures
        toggle_at(ls, toggle, l + 1, 0) == toggle_at(ls, toggle, l, ls[l as int].len() as int),
{
    lemma_seq_sum_take_all(ls[l as int]);
    assert(ls[l as int + 1].take(0) =~= Seq::<i64>::empty());
}

proof fn lemma_step_wf(v: FractalView)
    requires
        fractal_wf(v),
        v.carry + deepest_inflow(v) <= i64::MAX,
    ensures
        fractal_wf(fractal_step(v)),
{
    let w = fractal_step(v);
    let d = v.levels.len();
    lemma_fb_in_range(v);
    let x = v.carry + deepest_inflow(v);
    vstd::arithmetic::div_mod::lemma_mod_pos_bound(x, 4);
    vstd::arithmetic::div_mod::lemma_mod_pos_bound((v.tick + 1) as int, v.tau as int);
    assert forall|l: int| 0 <= l < d implies #[trigger] w.levels[l].len() == level_width(l as nat) by {
    }
    assert forall|l: int, j: int| 0 <= l < d && 0 <= j < w.levels[l].len() implies #[trigger] w.levels[l][j] >= 0 by {
        if 1 <= l < d - 1 {
            let p = v.levels[l - 1];
            assert forall|k: int| 0 <= k < p.len() implies #[trigger] p[k] >= 0 by {
                assert(v.levels[l - 1][k] >= 0);
            }
            lemma_child_level_nonneg(v.levels, v.toggle, l as nat);
        }
    }
    assert(w.levels.last() == w.levels[d - 1]);
}

/// The root accumulator loses nothing that reaches the deepest level: after
/// a step it carries the old carry plus that inflow, modulo four, and the
/// root cell holds the whole fours of it.
pub proof fn lemma_step_feeds_back(v: FractalView)
    requires
        fractal_wf(v),
        v.carry + seq_sum(v.levels[v.levels.len() - 2]) <= i64::MAX,
    ensures
        fractal_step(v).carry == (v.carry + seq_sum(v.levels[v.levels.len() - 2])) % 4,
        fractal_step(v).levels[0].len() == 1,
        fractal_step(v).levels[0][0] == (v.carry + seq_sum(v.levels[v.levels.len() - 2])) / 4,
        4 * fractal_step(v).levels[0][0] + fractal_step(v).carry == v.carry + seq_sum(
            v.levels[v.levels.len() - 2],
        ),
        0 <= fractal_step(v).carry < 4,
{
    lemma_fb_in_range(v);
    let x = v.carry + deepest_inflow(v);
    vstd::arithmetic::div_mod::lemma_fundamental_div_mod(x, 4);
    vstd::arithmetic::div_mod::lemma_mod_pos_bound(x, 4);
}

/// Over two consecutive steps the root gets back the whole fours of
/// everything that reached the deepest level in both, and carries the rest:
/// no remainder is dropped between steps.
pub proof fn lemma_feedback_over_two_steps(v: FractalView)
    requires
        fractal_wf(v),
        v.carry + seq_sum(v.levels[v.levels.len() - 2]) <= i64::MAX,
        fractal_step(v).carry + seq_sum(fractal_step(v).levels[v.levels.len() - 2]) <= i64::MAX,
    ensures
        fractal_step(v).levels[0][0] + fractal_step(fractal_step(v)).levels[0][0] == (v.carry
            + seq_sum(v.levels[v.levels.len() - 2]) + seq_sum(
            fractal_step(v).levels[v.levels.len() - 2],
        )) / 4,
        fractal_step(fractal_step(v)).carry == (v.carry + seq_sum(v.levels[v.levels.len() - 2])
            + seq_sum(fractal_step(v).levels[v.levels.len() - 2])) % 4,
{
    let w = fractal_step(v);
    lemma_step_wf(v);
    lemma_step_feeds_back(v);
    lemma_step_feeds_back(w);
    let x1 = v.carry + seq_sum(v.levels[v.levels.len() - 2]);
    let i2 = seq_sum(w.levels[v.levels.len() - 2]);
    let q1 = w.levels[0][0] as int;
    let q2 = fractal_step(w).levels[0][0] as int;
    let r2 = fractal_step(w).carry;
    assert(x1 + i2 == 4 * (q1 + q2) + r2);
    vstd::arithmetic::div_mod::lemma_fundamental_div_mod_converse(x1 + i2, 4, q1 + q2, r2);
}

/// The split alternates across a whole step: the direction flips once per
/// quantum moved, so it ends the step flipped exactly when the kernel held
/// an odd number of quanta. The root's quanta go first, the extra one of an
/// odd count to the right child when the step starts unflipped and to the
/// left child when it starts flipped.
pub proof fn lemma_step_split_order(v: FractalView)
    requires
        fractal_wf(v),
        v.levels.len() >= 3,
    ensures
        fractal_step(v).toggle == (v.toggle != (total(v.levels) % 2 == 1)),
        fractal_step(v).levels[1][0] == if v.toggle {
            (v.levels[0][0] + 1) / 2
        } else {
            v.levels[0][0] / 2
        },
        fractal_step(v).levels[1][1] == if v.toggle {
            v.levels[0][0] / 2
        } else {
            (v.levels[0][0] + 1) / 2
        },
{
    let d = v.levels.len();
    let last = v.levels[d - 1];
    assert(last =~= zero_level((d - 1) as nat)) by {
        assert(last == v.levels.last());
    }
    lemma_seq_sum_zero((d - 1) as nat);
    assert(total(v.levels) == levels_sum(v.levels, (d - 1) as nat) + seq_sum(last));
    assert(levels_sum(v.levels, 0) == 0);
    assert(v.levels[0].take(0) =~= Seq::<i64>::empty());
    assert(quanta_before(v.levels, 0, 0) == 0);
    assert(0int / 2 == 0 && 1int / 2 == 0 && 0int % 2 == 0 && 1int % 2 == 1);
    assert(v.levels[0][0] >= 0);
}

} // verus!

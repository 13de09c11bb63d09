//! Mathematical model of the closed-form 1F1B schedule.
//!
//! The schedule a stage produces is defined here as a recursive function of
//! the number of `step()` calls taken so far, mirroring the three phases of
//! the algorithm: warm-up (forwards only), steady state (coupled
//! backward/forward pairs) and cool-down (draining backwards).  The laws of
//! the produced matrix — rectangular shape, each minibatch's forward and
//! backward pass occurring exactly once and in order, no backward preceding
//! its forward — are stated and proved over this model.

use vstd::prelude::*;

use crate::minibatch::{bwd, fwd, MiniBatch};

verus! {

/// The inputs the closed-form phase arithmetic is defined for: at least one
/// stage, at least as many minibatches as stages, and indices small enough
/// that every quantity the algorithm computes fits in `usize`.
pub open spec fn valid_params(w: int, n: int) -> bool {
    &&& 1 <= w
    &&& w <= n
    &&& 4 * n <= usize::MAX
}

/// Number of forward passes stage `i` runs before its first backward pass.
pub open spec fn warm_up(w: int, i: int) -> int {
    w - i
}

/// Number of coupled backward/forward steps stage `i` runs in steady state.
pub open spec fn steady(w: int, n: int, i: int) -> int {
    n - (w - i)
}

/// Number of draining backward passes stage `i` runs after its last forward.
pub open spec fn cool_down(w: int, i: int) -> int {
    w - i
}

/// The entries stage `i` appends to its row in one `step()` call, given its
/// forward counter `f`, backward counter `b` and elapsed local time `t`.
pub open spec fn stage_emit(w: int, n: int, i: int, f: int, b: int, t: int) -> Seq<MiniBatch> {
    if f < warm_up(w, i) {
        if t < i {
            seq![MiniBatch::Nops]
        } else {
            seq![fwd(f)]
        }
    } else if f < n {
        if t < 2 * w - 1 - i {
            seq![MiniBatch::Nops]
        } else {
            seq![bwd(b), fwd(f)]
        }
    } else if b < n {
        if b + 1 < n {
            seq![bwd(b), MiniBatch::Nops]
        } else {
            seq![bwd(b)]
        }
    } else {
        seq![MiniBatch::Nops]
    }
}

/// The counters stage `i` holds after the step taken at time `t` with
/// counters `(f, b)`.
pub open spec fn next_counters(w: int, n: int, i: int, f: int, b: int, t: int) -> (int, int) {
    if f < warm_up(w, i) {
        if t < i {
            (f, b)
        } else {
            (f + 1, b)
        }
    } else if f < n {
        if t < 2 * w - 1 - i {
            (f, b)
        } else {
            (f + 1, b + 1)
        }
    } else if b < n {
        (f, b + 1)
    } else {
        (f, b)
    }
}

/// Stage `i`'s `(forward, backward)` counters after `t` steps.
pub open spec fn counters_at(w: int, n: int, i: int, t: int) -> (int, int)
    decreases t,
{
    if t <= 0 {
        (0, 0)
    } else {
        let prev = counters_at(w, n, i, t - 1);
        next_counters(w, n, i, prev.0, prev.1, t - 1)
    }
}

/// Stage `i`'s forward counter after `t` steps.
pub open spec fn f_at(w: int, n: int, i: int, t: int) -> int {
    counters_at(w, n, i, t).0
}

/// Stage `i`'s backward counter after `t` steps.
pub open spec fn b_at(w: int, n: int, i: int, t: int) -> int {
    counters_at(w, n, i, t).1
}

/// Stage `i`'s row of the schedule matrix after `t` steps.
pub open spec fn row_at(w: int, n: int, i: int, t: int) -> Seq<MiniBatch>
    decreases t,
{
    if t <= 0 {
        Seq::empty()
    } else {
        row_at(w, n, i, t - 1) + stage_emit(
            w,
            n,
            i,
            f_at(w, n, i, t - 1),
            b_at(w, n, i, t - 1),
            t - 1,
        )
    }
}

/// The step at which stage `i` leaves its steady-state wait and starts the
/// coupled backward/forward phase (equal to `phase_d` when the stage has no
/// steady phase at all).
pub open spec fn phase_c(w: int, n: int, i: int) -> int {
    if steady(w, n, i) > 0 {
        2 * w - 1 - i
    } else {
        w
    }
}

/// The step at which stage `i` has scheduled its last forward pass and enters
/// cool-down.
pub open spec fn phase_d(w: int, n: int, i: int) -> int {
    if steady(w, n, i) > 0 {
        n + w - 1
    } else {
        w
    }
}

/// The step at which stage `i` has scheduled its last backward pass and is
/// complete.
pub open spec fn stage_finish(w: int, n: int, i: int) -> int {
    phase_d(w, n, i) + (w - i)
}

/// The number of `step()` calls after which every stage is complete.
pub open spec fn horizon(w: int, n: int) -> int {
    if n == w && w >= 2 {
        3 * w - 2
    } else {
        n + 2 * w - 1
    }
}

/// The length every row of the finished matrix reaches.
pub open spec fn schedule_len(w: int, n: int) -> int {
    horizon(w, n) + n - 1
}

/// The finished schedule matrix: one row per stage, taken at the horizon.
pub open spec fn schedule_spec(w: int, n: int) -> Seq<Seq<MiniBatch>> {
    Seq::new(w as nat, |i: int| row_at(w, n, i, horizon(w, n)))
}

/// The forward-pass entries of a row, in order.
pub open spec fn fwd_part(row: Seq<MiniBatch>) -> Seq<MiniBatch> {
    row.filter(|m: MiniBatch| m.is_forward())
}

/// The backward-pass entries of a row, in order.
pub open spec fn bwd_part(row: Seq<MiniBatch>) -> Seq<MiniBatch> {
    row.filter(|m: MiniBatch| m.is_backward())
}

/// The non-idle entries of a row, in order.
pub open spec fn work_part(row: Seq<MiniBatch>) -> Seq<MiniBatch> {
    row.filter(|m: MiniBatch| m.is_work())
}

/// Everything the content of a stage's row satisfies while its counters stand
/// at `(f, b)`: the forward entries are exactly `Forward(0..f)` in order, the
/// backward entries exactly `Backward(0..b)` in order, and every backward
/// entry is preceded by the forward entry of the same minibatch.
pub open spec fn row_ok(f: int, b: int, row: Seq<MiniBatch>) -> bool {
    &&& fwd_part(row) == Seq::new(f as nat, |k: int| fwd(k))
    &&& bwd_part(row) == Seq::new(b as nat, |k: int| bwd(k))
    &&& work_part(row).len() == f + b
    &&& forall|p: int|
        0 <= p < row.len() && (#[trigger] row[p]) is Forward ==> row[p]->Forward_0 < f
    &&& forall|p: int|
        0 <= p < row.len() && (#[trigger] row[p]) is Backward ==> row[p]->Backward_0 < b
    &&& forall|p: int, q: int|
        0 <= p < q < row.len() && (#[trigger] row[p]) is Forward && (#[trigger] row[q]) is Forward
            ==> row[p]->Forward_0 < row[q]->Forward_0
    &&& forall|p: int, q: int|
        0 <= p < q < row.len() && (#[trigger] row[p]) is Backward && (#[trigger] row[q]) is Backward
            ==> row[p]->Backward_0 < row[q]->Backward_0
    &&& forall|j: int| 0 <= j < f ==> #[trigger] row.contains(fwd(j))
    &&& forall|p: int|
        0 <= p < row.len() && (#[trigger] row[p]) is Backward ==> exists|q: int|
            0 <= q < p && row[q] == fwd(row[p]->Backward_0 as int)
}

/// Appending an idle entry leaves every row-content property intact.
#[verifier::rlimit(50)]
proof fn lemma_row_push_nop(f: int, b: int, row: Seq<MiniBatch>)
    requires
        row_ok(f, b, row),
    ensures
        row_ok(f, b, row.push(MiniBatch::Nops)),
{
    broadcast use Seq::lemma_filter_push;

    let row2 = row.push(MiniBatch::Nops);
    let len = row.len() as int;
    assert(forall|p: int| 0 <= p < len ==> row2[p] == row[p]);
    assert(row2[len] == MiniBatch::Nops);
    assert(fwd_part(row2) == fwd_part(row));
    assert(bwd_part(row2) == bwd_part(row));
    assert(work_part(row2) == work_part(row));
    assert forall|j: int| 0 <= j < f implies #[trigger] row2.contains(fwd(j)) by {
        assert(row.contains(fwd(j)));
        let q = choose|q: int| 0 <= q < row.len() && row[q] == fwd(j);
        assert(row2[q] == fwd(j));
    }
    assert forall|p: int|
        0 <= p < row2.len() && (#[trigger] row2[p]) is Backward implies exists|q: int|
        0 <= q < p && row2[q] == fwd(row2[p]->Backward_0 as int) by {
        let q = choose|q: int| 0 <= q < p && row[q] == fwd(row[p]->Backward_0 as int);
        assert(row2[q] == fwd(row2[p]->Backward_0 as int));
    }
}

/// Appending `Forward(f)` advances the forward counter's row-content
/// properties from `f` to `f + 1`.
#[verifier::rlimit(50)]
proof fn lemma_row_push_fwd(f: int, b: int, row: Seq<MiniBatch>)
    requires
        row_ok(f, b, row),
        0 <= f,
        f < usize::MAX,
    ensures
        row_ok(f + 1, b, row.push(fwd(f))),
{
    broadcast use Seq::lemma_filter_push;

    let row2 = row.push(fwd(f));
    let len = row.len() as int;
    assert(forall|p: int| 0 <= p < len ==> row2[p] == row[p]);
    assert(row2[len] == fwd(f));
    assert(fwd_part(row2) == fwd_part(row).push(fwd(f)));
    assert(fwd_part(row2) =~= Seq::new((f + 1) as nat, |k: int| fwd(k)));
    assert(bwd_part(row2) == bwd_part(row));
    assert(work_part(row2) == work_part(row).push(fwd(f)));
    assert forall|j: int| 0 <= j < f + 1 implies #[trigger] row2.contains(fwd(j)) by {
        if j < f {
            assert(row.contains(fwd(j)));
            let q = choose|q: int| 0 <= q < row.len() && row[q] == fwd(j);
            assert(row2[q] == fwd(j));
        } else {
            assert(row2[len] == fwd(j));
        }
    }
    assert forall|p: int|
        0 <= p < row2.len() && (#[trigger] row2[p]) is Backward implies exists|q: int|
        0 <= q < p && row2[q] == fwd(row2[p]->Backward_0 as int) by {
        let q = choose|q: int| 0 <= q < p && row[q] == fwd(row[p]->Backward_0 as int);
        assert(row2[q] == fwd(row2[p]->Backward_0 as int));
    }
}

/// Appending `Backward(b)` advances the backward counter's row-content
/// properties from `b` to `b + 1`; the matching forward entry must already be
/// in the row, which `b < f` guarantees.
#[verifier::rlimit(50)]
proof fn lemma_row_push_bwd(f: int, b: int, row: Seq<MiniBatch>)
    requires
        row_ok(f, b, row),
        0 <= b,
        b < f,
        f <= usize::MAX,
    ensures
        row_ok(f, b + 1, row.push(bwd(b))),
{
    broadcast use Seq::lemma_filter_push;

    let row2 = row.push(bwd(b));
    let len = row.len() as int;
    assert(forall|p: int| 0 <= p < len ==> row2[p] == row[p]);
    assert(row2[len] == bwd(b));
    assert(bwd_part(row2) == bwd_part(row).push(bwd(b)));
    assert(bwd_part(row2) =~= Seq::new((b + 1) as nat, |k: int| bwd(k)));
    assert(fwd_part(row2) == fwd_part(row));
    assert(work_part(row2) == work_part(row).push(bwd(b)));
    assert forall|j: int| 0 <= j < f implies #[trigger] row2.contains(fwd(j)) by {
        assert(row.contains(fwd(j)));
        let q = choose|q: int| 0 <= q < row.len() && row[q] == fwd(j);
        assert(row2[q] == fwd(j));
    }
    assert forall|p: int|
        0 <= p < row2.len() && (#[trigger] row2[p]) is Backward implies exists|q: int|
        0 <= q < p && row2[q] == fwd(row2[p]->Backward_0 as int) by {
        if p < len {
            let q = choose|q: int| 0 <= q < p && row[q] == fwd(row[p]->Backward_0 as int);
            assert(row2[q] == fwd(row2[p]->Backward_0 as int));
        } else {
            assert(row.contains(fwd(b)));
            let q = choose|q: int| 0 <= q < row.len() && row[q] == fwd(b);
            assert(row2[q] == fwd(row2[p]->Backward_0 as int));
        }
    }
}

/// The exact value of both counters at every step `t`, phase by phase:
/// nothing before the stage's first activation, one forward per step through
/// warm-up, a wait until the coupled phase begins at `phase_c`, one forward
/// and one backward per step until `phase_d`, and one backward per step until
/// `stage_finish`.
pub open spec fn counters_profile(w: int, n: int, i: int, t: int) -> bool {
    let f = f_at(w, n, i, t);
    let b = b_at(w, n, i, t);
    let c = phase_c(w, n, i);
    let d = phase_d(w, n, i);
    let e = stage_finish(w, n, i);
    &&& (t <= i ==> f == 0)
    &&& (i <= t <= w ==> f == t - i)
    &&& (w <= t <= c ==> f == w - i)
    &&& (c <= t <= d ==> f == (w - i) + (t - c))
    &&& (d <= t ==> f == n)
    &&& (t <= c ==> b == 0)
    &&& (c <= t <= d ==> b == t - c)
    &&& (d <= t <= e ==> b == steady(w, n, i) + (t - d))
    &&& (e <= t ==> b == n)
}

/// How many coupled backward/forward steps stage `i` has taken by step `t`
/// (each appends two entries to the row).
pub open spec fn coupled_at(w: int, n: int, i: int, t: int) -> int {
    let c = phase_c(w, n, i);
    let d = phase_d(w, n, i);
    if t <= c {
        0
    } else if t <= d {
        t - c
    } else {
        steady(w, n, i)
    }
}

/// How many cool-down steps stage `i` has padded with an extra idle entry by
/// step `t` (every cool-down step except the last pads).
pub open spec fn drained_at(w: int, n: int, i: int, t: int) -> int {
    let d = phase_d(w, n, i);
    let e = stage_finish(w, n, i);
    if t <= d {
        0
    } else if t < e {
        t - d
    } else {
        cool_down(w, i) - 1
    }
}

/// The length of stage `i`'s row after `t` steps: one entry per step, plus
/// one extra per coupled step and per padded cool-down step.
pub open spec fn row_len_at(w: int, n: int, i: int, t: int) -> int {
    t + coupled_at(w, n, i, t) + drained_at(w, n, i, t)
}

/// Everything that holds of stage `i` after `t` steps: the counter profile,
/// counter bounds, the row's length, and the row's content.
pub open spec fn stage_inv(w: int, n: int, i: int, t: int) -> bool {
    &&& counters_profile(w, n, i, t)
    &&& 0 <= b_at(w, n, i, t) <= f_at(w, n, i, t) <= n
    &&& row_at(w, n, i, t).len() == row_len_at(w, n, i, t)
    &&& row_ok(f_at(w, n, i, t), b_at(w, n, i, t), row_at(w, n, i, t))
}

/// The empty row satisfies the content properties for zeroed counters.
proof fn lemma_row_ok_empty()
    ensures
        row_ok(0, 0, Seq::<MiniBatch>::empty()),
{
    assert(fwd_part(Seq::<MiniBatch>::empty()) =~= Seq::new(0nat, |k: int| fwd(k)));
    assert(bwd_part(Seq::<MiniBatch>::empty()) =~= Seq::new(0nat, |k: int| bwd(k)));
    assert(work_part(Seq::<MiniBatch>::empty()) =~= Seq::<MiniBatch>::empty());
}

/// The master invariant: every stage of a valid configuration satisfies
/// `stage_inv` at every step, by induction over the transition.
#[verifier::rlimit(100)]
pub proof fn lemma_stage_inv(w: int, n: int, i: int, t: int)
    requires
        valid_params(w, n),
        0 <= i < w,
        0 <= t,
    ensures
        stage_inv(w, n, i, t),
    decreases t,
{
    let c = phase_c(w, n, i);
    let d = phase_d(w, n, i);
    let e = stage_finish(w, n, i);
    if t == 0 {
        assert(counters_at(w, n, i, 0) == (0int, 0int));
        assert(row_at(w, n, i, 0) == Seq::<MiniBatch>::empty());
        lemma_row_ok_empty();
    } else {
        lemma_stage_inv(w, n, i, t - 1);
        let s = t - 1;
        let f0 = f_at(w, n, i, s);
        let b0 = b_at(w, n, i, s);
        let row0 = row_at(w, n, i, s);
        let em = stage_emit(w, n, i, f0, b0, s);
        assert(counters_at(w, n, i, t) == next_counters(w, n, i, f0, b0, s));
        assert(row_at(w, n, i, t) == row0 + em);
        if s < i {
            assert(f0 == 0 && b0 == 0);
            assert(em =~= seq![MiniBatch::Nops]);
            assert(row0 + em =~= row0.push(MiniBatch::Nops));
            lemma_row_push_nop(f0, b0, row0);
        } else if s < w {
            assert(f0 == s - i && b0 == 0);
            assert(f0 < warm_up(w, i));
            assert(em =~= seq![fwd(f0)]);
            assert(row0 + em =~= row0.push(fwd(f0)));
            lemma_row_push_fwd(f0, b0, row0);
        } else if s < c {
            assert(steady(w, n, i) > 0);
            assert(c == 2 * w - 1 - i);
            assert(f0 == w - i && b0 == 0);
            assert(f0 < n);
            assert(em =~= seq![MiniBatch::Nops]);
            assert(row0 + em =~= row0.push(MiniBatch::Nops));
            lemma_row_push_nop(f0, b0, row0);
        } else if s < d {
            assert(steady(w, n, i) > 0);
            assert(c == 2 * w - 1 - i);
            assert(f0 == (w - i) + (s - c) && b0 == s - c);
            assert(warm_up(w, i) <= f0 < n);
            assert(b0 < f0);
            assert(em =~= seq![bwd(b0), fwd(f0)]);
            assert(row0 + em =~= row0.push(bwd(b0)).push(fwd(f0)));
            lemma_row_push_bwd(f0, b0, row0);
            lemma_row_push_fwd(f0, b0 + 1, row0.push(bwd(b0)));
        } else if s < e {
            assert(f0 == n);
            assert(b0 == steady(w, n, i) + (s - d));
            assert(b0 < n);
            if b0 + 1 < n {
                assert(em =~= seq![bwd(b0), MiniBatch::Nops]);
                assert(row0 + em =~= row0.push(bwd(b0)).push(MiniBatch::Nops));
                lemma_row_push_bwd(f0, b0, row0);
                lemma_row_push_nop(f0, b0 + 1, row0.push(bwd(b0)));
            } else {
                assert(t == e);
                assert(em =~= seq![bwd(b0)]);
                assert(row0 + em =~= row0.push(bwd(b0)));
                lemma_row_push_bwd(f0, b0, row0);
            }
        } else {
            assert(f0 == n && b0 == n);
            assert(em =~= seq![MiniBatch::Nops]);
            assert(row0 + em =~= row0.push(MiniBatch::Nops));
            lemma_row_push_nop(f0, b0, row0);
        }
    }
}

/// True when stage `i` has scheduled every forward and backward pass after
/// `t` steps.
pub open spec fn stage_done_at(w: int, n: int, i: int, t: int) -> bool {
    f_at(w, n, i, t) == n && b_at(w, n, i, t) == n
}

/// True when every stage is complete after `t` steps.
pub open spec fn all_done_at(w: int, n: int, t: int) -> bool {
    forall|i: int| 0 <= i < w ==> stage_done_at(w, n, i, t)
}

/// A stage is complete exactly from its finishing step onward.
pub proof fn lemma_stage_done_iff(w: int, n: int, i: int, t: int)
    requires
        valid_params(w, n),
        0 <= i < w,
        0 <= t,
    ensures
        stage_done_at(w, n, i, t) <==> t >= stage_finish(w, n, i),
{
    lemma_stage_inv(w, n, i, t);
    let c = phase_c(w, n, i);
    let d = phase_d(w, n, i);
    let e = stage_finish(w, n, i);
    if t < e {
        if t <= c {
            assert(b_at(w, n, i, t) == 0);
        } else if t <= d {
            assert(b_at(w, n, i, t) == t - c);
            assert(d - c == steady(w, n, i));
        } else {
            assert(b_at(w, n, i, t) == steady(w, n, i) + (t - d));
        }
        assert(b_at(w, n, i, t) < n);
    }
}

/// No stage finishes after the horizon.
pub proof fn lemma_finish_le_horizon(w: int, n: int, i: int)
    requires
        valid_params(w, n),
        0 <= i < w,
    ensures
        stage_finish(w, n, i) <= horizon(w, n),
{
}

/// The run is complete exactly from the horizon onward: before it some stage
/// still has work, from it on every stage is done.
pub proof fn lemma_done_iff_horizon(w: int, n: int, t: int)
    requires
        valid_params(w, n),
        0 <= t,
    ensures
        all_done_at(w, n, t) <==> t >= horizon(w, n),
{
    if t >= horizon(w, n) {
        assert forall|i: int| 0 <= i < w implies stage_done_at(w, n, i, t) by {
            lemma_finish_le_horizon(w, n, i);
            lemma_stage_done_iff(w, n, i, t);
        }
    } else {
        let wit: int = if n == w && w >= 2 {
            1
        } else {
            0
        };
        assert(stage_finish(w, n, wit) == horizon(w, n));
        lemma_stage_done_iff(w, n, wit, t);
        assert(!stage_done_at(w, n, wit, t));
    }
}

/// The finished matrix has exactly one row per stage, and every row has the
/// same length.
pub proof fn lemma_schedule_shape(w: int, n: int)
    requires
        valid_params(w, n),
    ensures
        schedule_spec(w, n).len() == w,
        forall|i: int|
            0 <= i < w ==> (#[trigger] schedule_spec(w, n)[i]).len() == schedule_len(w, n),
{
    assert forall|i: int|
        0 <= i < w implies (#[trigger] schedule_spec(w, n)[i]).len() == schedule_len(w, n) by {
        lemma_row_laws(w, n, i);
    }
}

/// The laws of one finished row: it has the uniform length; its forward
/// entries are exactly `Forward(0..n)` in increasing order, its backward
/// entries exactly `Backward(0..n)` in increasing order; exactly `2 * n`
/// entries are non-idle; and no backward pass precedes the forward pass of
/// the same minibatch.
pub proof fn lemma_row_laws(w: int, n: int, i: int)
    requires
        valid_params(w, n),
        0 <= i < w,
    ensures
        schedule_spec(w, n)[i] == row_at(w, n, i, horizon(w, n)),
        schedule_spec(w, n)[i].len() == schedule_len(w, n),
        fwd_part(schedule_spec(w, n)[i]) == Seq::new(n as nat, |k: int| fwd(k)),
        bwd_part(schedule_spec(w, n)[i]) == Seq::new(n as nat, |k: int| bwd(k)),
        work_part(schedule_spec(w, n)[i]).len() == 2 * n,
        forall|p: int, q: int|
            0 <= p < q < schedule_len(w, n) && (#[trigger] schedule_spec(w, n)[i][p]) is Forward
                && (#[trigger] schedule_spec(w, n)[i][q]) is Forward ==> schedule_spec(
                w,
                n,
            )[i][p]->Forward_0 < schedule_spec(w, n)[i][q]->Forward_0,
        forall|p: int, q: int|
            0 <= p < q < schedule_len(w, n) && (#[trigger] schedule_spec(w, n)[i][p]) is Backward
                && (#[trigger] schedule_spec(w, n)[i][q]) is Backward ==> schedule_spec(
                w,
                n,
            )[i][p]->Backward_0 < schedule_spec(w, n)[i][q]->Backward_0,
        forall|p: int|
            0 <= p < schedule_len(w, n) && (#[trigger] schedule_spec(w, n)[i][p]) is Backward
                ==> exists|q: int|
                0 <= q < p && schedule_spec(w, n)[i][q] == fwd(
                    schedule_spec(w, n)[i][p]->Backward_0 as int,
                ),
{
    let t = horizon(w, n);
    lemma_stage_inv(w, n, i, t);
    lemma_finish_le_horizon(w, n, i);
    lemma_stage_done_iff(w, n, i, t);
    assert(f_at(w, n, i, t) == n && b_at(w, n, i, t) == n);
    assert(row_len_at(w, n, i, t) == schedule_len(w, n));
}

} // verus!

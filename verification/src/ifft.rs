//! Decimation in time inverse fast Fourier transform.
//!
//! The mirror of the forward engine: the input is bit-reversed first,
//! the first radix-2 pass applies the `1/n` normalization exactly once,
//! and the subsequent stages use conjugated twiddle signs with growing
//! block length.  Every step is pinned by the ghost transition function
//! [`IfftModel::next`], and the blocking entry point by [`IfftModel::run`],
//! which iterates that transition to the terminal state.

use vstd::prelude::*;
use crate::common::Float;
use crate::common::ConfigurationError;
use crate::common::valid_size;
use crate::common::spec_log2;
use crate::common::spec_reverse_bits;
use crate::common::spec_reverse_index;
use crate::common::is_power_of_two;
use crate::common::floor_log2;
use crate::common::reverse_low_bits;
use crate::common::lemma_pow2_log2;
use crate::common::lemma_valid_size_multiple_of_four;
use crate::common::lemma_valid_size_quarter;
use crate::common::lemma_reverse_bits_bound;
use crate::common::lemma_reverse_bits_zero;
use crate::common::lemma_reverse_bits_involution;
use crate::fft::pair_sum;

verus! {

/// Conversion state.
#[derive(PartialEq, Eq, Structural)]
pub enum State {
    Reorder,
    Step1,
    Step2,
    Step3,
    Step4,
    Step5,
    Step6,
    Done,
}

/// The mathematical model of an inverse engine: its tagged state, scalar
/// cursors, and the buffer contents as a sequence.
pub ghost struct IfftModel<T> {
    pub state: State,
    pub length: int,
    pub step: int,
    pub step_size: int,
    pub top_idx: int,
    pub bottom_idx: int,
    pub data: Seq<(T, T)>,
}

/// The model a freshly constructed inverse engine starts from.
pub open spec fn init_ifft_model<T>(d: Seq<(T, T)>) -> IfftModel<T> {
    IfftModel {
        state: State::Reorder,
        length: 1,
        step: 0,
        step_size: d.len() as int / 4,
        top_idx: 0,
        bottom_idx: 0,
        data: d,
    }
}

impl<T: Float> IfftModel<T> {
    /// The buffer size.
    pub open spec fn n(self) -> int {
        self.data.len() as int
    }

    /// The quarter size: the length of the twiddle table.
    pub open spec fn q(self) -> int {
        self.n() / 4
    }

    /// Arithmetic facts every reachable engine state satisfies.
    pub open spec fn wf_base(self) -> bool {
        &&& valid_size(self.data.len())
        &&& self.n() == 4 * (self.length * self.step_size)
        &&& 1 <= self.length
        &&& 1 <= self.step_size
        &&& is_power_of_two(self.step_size as nat)
    }

    /// The per-state cursor invariant: whichever butterfly or transition
    /// comes next only touches indices inside the buffer.
    pub open spec fn wf(self) -> bool {
        let n = self.n();
        let l = self.length;
        let s = self.step_size;
        &&& self.wf_base()
        &&& match self.state {
            State::Reorder => {
                &&& 0 <= self.top_idx < n
                &&& 0 <= self.bottom_idx < n
                &&& self.bottom_idx
                    == spec_reverse_bits(spec_log2(n as nat), self.top_idx as nat) as int
            },
            State::Step1 => {
                &&& 0 <= self.top_idx
                &&& self.top_idx % 2 == 0
                &&& self.bottom_idx == self.top_idx + 1
                &&& self.top_idx + 2 <= n
            },
            State::Step2 => {
                &&& 0 <= self.top_idx
                &&& self.top_idx % (4 * l) == 0
                &&& self.top_idx + 4 * l <= n
            },
            State::Step3 => {
                let j = self.step / s;
                &&& self.step == j * s
                &&& 1 <= j < l
                &&& j <= self.top_idx
                &&& (self.top_idx - j) % (4 * l) == 0
                &&& self.top_idx - j + 4 * l <= n
                &&& self.bottom_idx == self.top_idx + 2 * l
            },
            State::Step4 => {
                &&& l <= self.top_idx
                &&& (self.top_idx - l) % (4 * l) == 0
                &&& self.top_idx - l + 4 * l <= n
                &&& self.bottom_idx == self.top_idx + 2 * l
            },
            State::Step5 => {
                let j = self.step / s;
                &&& self.step == j * s
                &&& 1 <= j < l
                &&& l + j <= self.top_idx
                &&& (self.top_idx - l - j) % (4 * l) == 0
                &&& self.top_idx - l - j + 4 * l <= n
                &&& self.bottom_idx == self.top_idx + 2 * l
            },
            State::Step6 => {
                &&& 2 * l <= self.top_idx
                &&& (self.top_idx - 2 * l) % (4 * l) == 0
                &&& self.bottom_idx == self.top_idx + 2 * l
                &&& self.bottom_idx <= n
            },
            State::Done => true,
        }
    }

    /// What one call of the stepping operation does: exactly one
    /// butterfly or one bookkeeping transition, and nothing once done.
    pub open spec fn next(self) -> IfftModel<T> {
        let n = self.n();
        let q = self.q();
        match self.state {
            State::Reorder => {
                // Ensure the input order is reversed
                let t = self.top_idx;
                let b = self.bottom_idx;
                let d = if b > t {
                    self.data.update(t, self.data[b]).update(b, self.data[t])
                } else {
                    self.data
                };
                if t < n - 1 {
                    IfftModel {
                        top_idx: t + 1,
                        bottom_idx: spec_reverse_bits(
                            spec_log2(n as nat),
                            (t + 1) as nat,
                        ) as int,
                        data: d,
                        ..self
                    }
                } else {
                    IfftModel { state: State::Step1, top_idx: 0, bottom_idx: 1, data: d, ..self }
                }
            },
            State::Step1 => {
                // Twiddle = 1 / N
                let t = self.top_idx;
                let b = self.bottom_idx;
                let top = self.data[t];
                let bot = self.data[b];
                let ninv = T::n_inv_spec(n);
                let d = self.data.update(
                    t,
                    (bot.0.add_spec(top.0).mul_spec(ninv), bot.1.add_spec(top.1).mul_spec(ninv)),
                ).update(
                    b,
                    (
                        bot.0.neg_spec().add_spec(top.0).mul_spec(ninv),
                        bot.1.neg_spec().add_spec(top.1).mul_spec(ninv),
                    ),
                );
                if b < n - 2 {
                    IfftModel { top_idx: t + 2, bottom_idx: b + 2, data: d, ..self }
                } else {
                    IfftModel { state: State::Step2, top_idx: 0, data: d, ..self }
                }
            },
            State::Step2 => {
                // Twiddle = 1
                let t = self.top_idx;
                let b = t + 2 * self.length;
                let top = self.data[t];
                let bot = self.data[b];
                IfftModel {
                    state: if self.step_size < q { State::Step3 } else { State::Step4 },
                    step: self.step_size,
                    top_idx: t + 1,
                    bottom_idx: b + 1,
                    data: self.data.update(t, pair_sum(bot, top)).update(
                        b,
                        (top.0.sub_spec(bot.0), top.1.sub_spec(bot.1)),
                    ),
                    ..self
                }
            },
            State::Step3 => {
                // Twiddle = e^(+j * theta)
                let t = self.top_idx;
                let b = self.bottom_idx;
                let top = self.data[t];
                let bot = self.data[b];
                let c = T::sine_spec(q - self.step, n);
                let s = T::sine_spec(self.step, n);
                let temp = (
                    bot.0.mul_spec(c).sub_spec(bot.1.mul_spec(s)),
                    bot.1.mul_spec(c).add_spec(bot.0.mul_spec(s)),
                );
                let last = !(self.step < q - self.step_size);
                IfftModel {
                    state: if last { State::Step4 } else { State::Step3 },
                    step: if last { self.step } else { self.step + self.step_size },
                    top_idx: t + 1,
                    bottom_idx: b + 1,
                    data: self.data.update(
                        t,
                        (top.0.add_spec(temp.0), top.1.add_spec(temp.1)),
                    ).update(b, (top.0.sub_spec(temp.0), top.1.sub_spec(temp.1))),
                    ..self
                }
            },
            State::Step4 => {
                // Twiddle = +j
                let t = self.top_idx;
                let b = self.bottom_idx;
                let top = self.data[t];
                let bot = self.data[b];
                IfftModel {
                    state: if self.step_size < q { State::Step5 } else { State::Step6 },
                    step: self.step_size,
                    top_idx: t + 1,
                    bottom_idx: b + 1,
                    data: self.data.update(
                        t,
                        (top.0.sub_spec(bot.1), top.1.add_spec(bot.0)),
                    ).update(b, (top.0.add_spec(bot.1), top.1.sub_spec(bot.0))),
                    ..self
                }
            },
            State::Step5 => {
                // Twiddle = +j * e^(+j * theta)
                let t = self.top_idx;
                let b = self.bottom_idx;
                let top = self.data[t];
                let bot = self.data[b];
                let c = T::sine_spec(q - self.step, n);
                let s = T::sine_spec(self.step, n);
                let temp = (
                    bot.1.neg_spec().mul_spec(c).sub_spec(bot.0.mul_spec(s)),
                    bot.0.mul_spec(c).sub_spec(bot.1.mul_spec(s)),
                );
                let last = !(self.step < q - self.step_size);
                IfftModel {
                    state: if last { State::Step6 } else { State::Step5 },
                    step: if last { self.step } else { self.step + self.step_size },
                    top_idx: t + 1,
                    bottom_idx: b + 1,
                    data: self.data.update(
                        t,
                        (top.0.add_spec(temp.0), top.1.add_spec(temp.1)),
                    ).update(b, (top.0.sub_spec(temp.0), top.1.sub_spec(temp.1))),
                    ..self
                }
            },
            State::Step6 => {
                // Check if we need to loop
                if self.bottom_idx < n {
                    IfftModel { state: State::Step2, top_idx: self.bottom_idx, ..self }
                } else if self.step_size > 1 {
                    IfftModel {
                        state: State::Step2,
                        length: self.length * 2,
                        step_size: self.step_size / 2,
                        top_idx: 0,
                        ..self
                    }
                } else {
                    IfftModel { state: State::Done, ..self }
                }
            },
            State::Done => self,
        }
    }

    /// Coarse progress rank: reordering, then the normalizing radix-2
    /// pass, then the butterfly stages, then done.
    pub open spec fn phase(self) -> int {
        match self.state {
            State::Reorder => 3,
            State::Step1 => 2,
            State::Step2 => 1,
            State::Step3 => 1,
            State::Step4 => 1,
            State::Step5 => 1,
            State::Step6 => 1,
            State::Done => 0,
        }
    }

    /// What the blocking operation does: iterate [`IfftModel::next`]
    /// until the terminal state.
    pub open spec fn run(self) -> IfftModel<T>
        decreases self.phase(), self.step_size, self.n() - self.top_idx,
            when self.wf()
    {
        if self.state == State::Done {
            self
        } else {
            proof {
                lemma_ifft_next_decreases(self);
            }
            self.next().run()
        }
    }

    /// The state after `k` calls of the stepping operation.
    pub open spec fn nexts(self, k: nat) -> IfftModel<T>
        decreases k,
    {
        if k == 0 {
            self
        } else {
            self.next().nexts((k - 1) as nat)
        }
    }

    /// How many calls of the stepping operation remain until the
    /// terminal state.
    pub open spec fn steps_remaining(self) -> nat
        decreases self.phase(), self.step_size, self.n() - self.top_idx,
            when self.wf()
    {
        if self.state == State::Done {
            0
        } else {
            proof {
                lemma_ifft_next_decreases(self);
            }
            1 + self.next().steps_remaining()
        }
    }
}

/// Whether two engine models agree on everything that steers the state
/// machine: the tagged state, the cursors, and the buffer size — all but
/// the sample values.
pub open spec fn same_ifft_control<T>(a: IfftModel<T>, b: IfftModel<T>) -> bool {
    &&& a.state == b.state
    &&& a.length == b.length
    &&& a.step == b.step
    &&& a.step_size == b.step_size
    &&& a.top_idx == b.top_idx
    &&& a.bottom_idx == b.bottom_idx
    &&& a.data.len() == b.data.len()
}

/// A freshly constructed engine on any buffer of a valid size is
/// well-formed.
pub proof fn lemma_init_ifft_wf<T: Float>(d: Seq<(T, T)>)
    requires
        valid_size(d.len()),
    ensures
        init_ifft_model(d).wf(),
{
    lemma_valid_size_multiple_of_four(d.len());
    lemma_valid_size_quarter(d.len());
    let m = init_ifft_model(d);
    assert(m.n() == 4 * (m.length * m.step_size)) by (nonlinear_arith)
        requires
            m.step_size == m.n() / 4,
            m.length == 1,
            m.n() == 4 * (m.n() / 4),
    ;
    lemma_reverse_bits_zero(spec_log2(d.len()));
}

/// Derived bounds every well-formed engine satisfies.
proof fn lemma_ifft_wf_arith<T: Float>(m: IfftModel<T>)
    requires
        m.wf_base(),
    ensures
        m.q() == m.length * m.step_size,
        m.n() == 4 * m.q(),
        4 * m.length <= m.n(),
        4 * m.step_size <= m.n(),
        m.length <= m.q(),
        m.step_size <= m.q(),
        1 <= m.q(),
        m.n() % 2 == 0,
{
    lemma_valid_size_quarter(m.data.len());
    assert((4 * (m.length * m.step_size)) / 4 == m.length * m.step_size) by {
        vstd::arithmetic::div_mod::lemma_div_multiples_vanish(m.length * m.step_size, 4);
    }
    assert(m.length <= m.length * m.step_size && m.step_size <= m.length * m.step_size)
        by (nonlinear_arith)
        requires 1 <= m.length, 1 <= m.step_size;
}

/// In the twiddle states the step cursor stays inside the open quarter
/// range, so both table lookups hit populated entries.
proof fn lemma_ifft_twiddle_bounds<T: Float>(m: IfftModel<T>)
    requires
        m.wf(),
        m.state == State::Step3 || m.state == State::Step5,
    ensures
        m.step_size <= m.step,
        m.step + m.step_size <= m.q(),
        1 <= m.step < m.q(),
        1 <= m.q() - m.step < m.q(),
{
    lemma_ifft_wf_arith(m);
    let j = m.step / m.step_size;
    assert(m.step_size <= j * m.step_size && j * m.step_size + m.step_size <= m.length
        * m.step_size) by (nonlinear_arith)
        requires 1 <= j, j < m.length, 1 <= m.step_size;
}

/// The transition preserves well-formedness: from a well-formed state,
/// every butterfly and every bookkeeping move lands in a well-formed
/// state.
proof fn lemma_ifft_next_wf<T: Float>(m: IfftModel<T>)
    requires
        m.wf(),
    ensures
        m.next().wf(),
{
    lemma_ifft_wf_arith(m);
    let n = m.n();
    let l = m.length;
    let s = m.step_size;
    let q = m.q();
    match m.state {
        State::Reorder => {
            if m.top_idx < n - 1 {
                lemma_reverse_bits_bound(spec_log2(n as nat), (m.top_idx + 1) as nat);
                lemma_pow2_log2(m.data.len());
            }
        },
        State::Step1 => {
            if m.bottom_idx < n - 2 {
                assert(m.top_idx + 4 <= n) by {
                    assert(m.top_idx < n - 3);
                    assert(m.top_idx != n - 4 + 1) by {
                        assert((n - 3) % 2 == 1) by (nonlinear_arith)
                            requires n % 2 == 0, 4 <= n;
                    }
                }
            } else {
                assert(0int % (4 * l) == 0) by (nonlinear_arith)
                    requires 1 <= l;
            }
        },
        State::Step2 => {
            if s < q {
                assert(2 <= l) by (nonlinear_arith)
                    requires s < l * s, 1 <= s, 1 <= l;
                assert(m.step_size / s == 1) by {
                    vstd::arithmetic::div_mod::lemma_div_by_multiple(1, s);
                }
                assert(s == 1 * s);
            } else {
                assert(l == 1) by (nonlinear_arith)
                    requires l * s <= s, 1 <= s, 1 <= l;
            }
        },
        State::Step3 => {
            let j = m.step / s;
            if m.step < q - s {
                assert((m.step + s) / s == j + 1) by {
                    assert(m.step + s == s * (j + 1)) by (nonlinear_arith)
                        requires m.step == j * s;
                    vstd::arithmetic::div_mod::lemma_div_by_multiple(j + 1, s);
                }
                assert(j + 1 < l) by (nonlinear_arith)
                    requires j * s + s < l * s, 1 <= s;
                assert(m.step + s == (j + 1) * s) by (nonlinear_arith)
                    requires m.step == j * s;
            } else {
                assert(j == l - 1) by (nonlinear_arith)
                    requires
                        1 <= j,
                        j < l,
                        1 <= s,
                        l * s - s <= j * s,
                ;
            }
        },
        State::Step4 => {
            if s < q {
                assert(2 <= l) by (nonlinear_arith)
                    requires s < l * s, 1 <= s, 1 <= l;
                assert(m.step_size / s == 1) by {
                    vstd::arithmetic::div_mod::lemma_div_by_multiple(1, s);
                }
                assert(s == 1 * s);
            } else {
                assert(l == 1) by (nonlinear_arith)
                    requires l * s <= s, 1 <= s, 1 <= l;
            }
        },
        State::Step5 => {
            let j = m.step / s;
            if m.step < q - s {
                assert((m.step + s) / s == j + 1) by {
                    assert(m.step + s == s * (j + 1)) by (nonlinear_arith)
                        requires m.step == j * s;
                    vstd::arithmetic::div_mod::lemma_div_by_multiple(j + 1, s);
                }
                assert(j + 1 < l) by (nonlinear_arith)
                    requires j * s + s < l * s, 1 <= s;
                assert(m.step + s == (j + 1) * s) by (nonlinear_arith)
                    requires m.step == j * s;
            } else {
                assert(j == l - 1) by (nonlinear_arith)
                    requires
                        1 <= j,
                        j < l,
                        1 <= s,
                        l * s - s <= j * s,
                ;
            }
        },
        State::Step6 => {
            let w = 4 * l;
            let mtop = (m.top_idx - 2 * l) / w;
            assert(m.top_idx - 2 * l == w * mtop) by {
                vstd::arithmetic::div_mod::lemma_fundamental_div_mod(m.top_idx - 2 * l, w);
            }
            assert(m.bottom_idx == w * (mtop + 1)) by (nonlinear_arith)
                requires
                    m.top_idx - 2 * l == w * mtop,
                    m.bottom_idx == m.top_idx + 2 * l,
                    w == 4 * l,
            ;
            if m.bottom_idx < n {
                // the next block start is a multiple of the block width
                assert(m.bottom_idx % w == 0) by {
                    vstd::arithmetic::div_mod::lemma_mod_multiples_basic(mtop + 1, w);
                    assert(w * (mtop + 1) == (mtop + 1) * w) by (nonlinear_arith);
                }
                // and it leaves room for one more whole block
                assert(mtop + 1 < s) by (nonlinear_arith)
                    requires
                        m.bottom_idx == w * (mtop + 1),
                        m.bottom_idx < n,
                        n == 4 * (l * s),
                        w == 4 * l,
                        1 <= l,
                ;
                assert(m.bottom_idx + w <= n) by (nonlinear_arith)
                    requires
                        m.bottom_idx == w * (mtop + 1),
                        mtop + 1 < s,
                        n == 4 * (l * s),
                        w == 4 * l,
                        1 <= l,
                ;
            } else if s > 1 {
                let s2 = s / 2;
                assert(s == 2 * s2);
                assert(n == 4 * ((l * 2) * s2)) by (nonlinear_arith)
                    requires n == 4 * (l * s), s == 2 * s2;
                assert(0int % (4 * (l * 2)) == 0) by (nonlinear_arith)
                    requires 1 <= l;
                assert(4 * (l * 2) <= n) by (nonlinear_arith)
                    requires n == 4 * ((l * 2) * s2), 1 <= s2, 1 <= l;
            }
        },
        State::Done => {},
    }
}

/// Every transition out of a non-terminal state makes strict progress
/// under the lexicographic measure (phase, step size, cursor).
pub proof fn lemma_ifft_next_decreases<T: Float>(m: IfftModel<T>)
    requires
        m.wf(),
        m.state != State::Done,
    ensures
        m.next().n() == m.n(),
        (0 <= m.next().phase() < m.phase()) || (m.next().phase() == m.phase() && 0
            <= m.next().step_size < m.step_size) || (m.next().phase() == m.phase()
            && m.next().step_size == m.step_size && 0 <= m.n() - m.next().top_idx < m.n()
            - m.top_idx),
{
    lemma_ifft_wf_arith(m);
}

/// Stepping a completed conversion is a no-op: the terminal state is a
/// fixed point of the transition.
pub proof fn lemma_ifft_step_after_done<T: Float>(m: IfftModel<T>)
    requires
        m.state == State::Done,
    ensures
        m.next() == m,
{
}

/// The blocking operation reaches the terminal state, and it does so by
/// iterating the very transition the stepping operation performs: from a
/// non-terminal state, running to completion equals stepping once and
/// then running to completion.
pub proof fn lemma_ifft_run_reaches_done<T: Float>(m: IfftModel<T>)
    requires
        m.wf(),
    ensures
        m.run().wf(),
        m.run().state == State::Done,
        m.state == State::Done ==> m.run() == m,
        m.state != State::Done ==> m.run() == m.next().run(),
    decreases m.phase(), m.step_size, m.n() - m.top_idx,
{
    if m.state != State::Done {
        lemma_ifft_next_wf(m);
        lemma_ifft_next_decreases(m);
        lemma_ifft_run_reaches_done(m.next());
    }
}

/// The invariant of the reordering pass: indices the cursor has visited
/// — directly, or as the bit-reversed partner of a visited index — hold
/// the sample that started at their partner; all others still hold their
/// own.
spec fn ifft_reorder_inv<T>(m: IfftModel<T>, orig: Seq<(T, T)>) -> bool {
    let n = orig.len() as int;
    &&& orig.len() == m.data.len()
    &&& forall|i: int|
        0 <= i < n ==> #[trigger] m.data[i] == (
        if i < m.top_idx || spec_reverse_index(n, i) < m.top_idx {
            orig[spec_reverse_index(n, i)]
        } else {
            orig[i]
        })
}

/// Pushing the reordering pass from any cursor position to its exit
/// completes the bit-reversal permutation of `orig`.
proof fn lemma_ifft_reorder_partial<T: Float>(m: IfftModel<T>, orig: Seq<(T, T)>)
    requires
        m.wf(),
        m.state == State::Reorder,
        ifft_reorder_inv(m, orig),
    ensures
        ({
            let e = m.nexts((m.n() - m.top_idx) as nat);
            &&& e.state == State::Step1
            &&& e.top_idx == 0
            &&& e.bottom_idx == 1
            &&& e.data.len() == m.n()
            &&& forall|i: int|
                0 <= i < m.n() ==> #[trigger] e.data[i] == orig[spec_reverse_index(m.n(), i)]
        }),
    decreases m.n() - m.top_idx,
{
    let n = m.n();
    let k = spec_log2(n as nat);
    let t = m.top_idx;
    let b = m.bottom_idx;
    lemma_ifft_next_wf(m);
    lemma_pow2_log2(m.data.len());
    lemma_reverse_bits_involution(k, t as nat);
    lemma_reverse_bits_bound(k, t as nat);
    let m2 = m.next();
    assert(m.nexts((n - t) as nat) == m2.nexts((n - t - 1) as nat));
    if t < n - 1 {
        assert forall|i: int| 0 <= i < n implies #[trigger] m2.data[i] == (
            if i < m2.top_idx || spec_reverse_index(n, i) < m2.top_idx {
                orig[spec_reverse_index(n, i)]
            } else {
                orig[i]
            }) by {
            lemma_reverse_bits_involution(k, i as nat);
            lemma_reverse_bits_bound(k, i as nat);
            assert(m.data[t] == (if t < t || b < t {
                orig[b]
            } else {
                orig[t]
            }));
            assert(m.data[b] == (if b < t || spec_reverse_index(n, b) < t {
                orig[spec_reverse_index(n, b)]
            } else {
                orig[b]
            }));
        }
        lemma_ifft_reorder_partial(m2, orig);
    } else {
        // the last index is its own partner, so the pass is already done
        assert(m2.nexts(0) == m2);
        assert forall|i: int| 0 <= i < n implies #[trigger] m2.data[i] == orig[spec_reverse_index(
            n,
            i,
        )] by {
            lemma_reverse_bits_involution(k, i as nat);
            lemma_reverse_bits_bound(k, i as nat);
        }
    }
}

/// The reordering pass hands the normalization pass a bit-reversed
/// buffer: after exactly `n` steps of a freshly started conversion,
/// every slot `i` holds the sample that stood at the bit-reversed index
/// of `i` — the bit-reversal permutation, and nothing else, is applied
/// before the first butterfly.
pub proof fn lemma_ifft_reorder_applies_bit_reversal<T: Float>(m: IfftModel<T>)
    requires
        m.wf(),
        m.state == State::Reorder,
        m.top_idx == 0,
        m.bottom_idx == 0,
    ensures
        ({
            let e = m.nexts(m.data.len());
            &&& e.state == State::Step1
            &&& e.data.len() == m.n()
            &&& forall|i: int|
                0 <= i < m.n() ==> #[trigger] e.data[i] == m.data[spec_reverse_index(m.n(), i)]
        }),
{
    lemma_ifft_reorder_partial(m, m.data);
}

/// The transition steers by the control state alone: two engines that
/// agree on state, cursors and buffer size keep agreeing after a step,
/// whatever their sample values.
proof fn lemma_ifft_next_control<T: Float>(a: IfftModel<T>, b: IfftModel<T>)
    requires
        a.wf(),
        b.wf(),
        same_ifft_control(a, b),
    ensures
        same_ifft_control(a.next(), b.next()),
{
    if a.state != State::Done {
        lemma_ifft_next_decreases(a);
        lemma_ifft_next_decreases(b);
    }
    match a.state {
        State::Reorder => {
            assert(same_ifft_control(a.next(), b.next()));
        },
        State::Step1 => {
            assert(same_ifft_control(a.next(), b.next()));
        },
        State::Step2 => {
            assert(same_ifft_control(a.next(), b.next()));
        },
        State::Step3 => {
            assert(same_ifft_control(a.next(), b.next()));
        },
        State::Step4 => {
            assert(same_ifft_control(a.next(), b.next()));
        },
        State::Step5 => {
            assert(same_ifft_control(a.next(), b.next()));
        },
        State::Step6 => {
            assert(same_ifft_control(a.next(), b.next()));
        },
        State::Done => {
            assert(same_ifft_control(a.next(), b.next()));
        },
    }
}

/// The number of stepping calls needed to reach the terminal state is a
/// fixed function of the control state — never of the sample values.
pub proof fn lemma_ifft_step_count_deterministic<T: Float>(a: IfftModel<T>, b: IfftModel<T>)
    requires
        a.wf(),
        b.wf(),
        same_ifft_control(a, b),
    ensures
        a.steps_remaining() == b.steps_remaining(),
    decreases a.phase(), a.step_size, a.n() - a.top_idx,
{
    if a.state != State::Done {
        lemma_ifft_next_wf(a);
        lemma_ifft_next_wf(b);
        lemma_ifft_next_decreases(a);
        lemma_ifft_next_control(a, b);
        lemma_ifft_step_count_deterministic(a.next(), b.next());
    }
}

/// For freshly constructed engines the step count is a function of the
/// buffer size only.
pub proof fn lemma_ifft_step_count_from_size<T: Float>(d1: Seq<(T, T)>, d2: Seq<(T, T)>)
    requires
        d1.len() == d2.len(),
        valid_size(d1.len()),
    ensures
        init_ifft_model(d1).steps_remaining() == init_ifft_model(d2).steps_remaining(),
{
    lemma_init_ifft_wf(d1);
    lemma_init_ifft_wf(d2);
    lemma_ifft_step_count_deterministic(init_ifft_model(d1), init_ifft_model(d2));
}

/// Decimation in time inverse fast Fourier transform.
///
/// This structure owns the input / output data for the lifetime of one
/// conversion, as well as information related to the internal state.
pub struct EmbIfft<T> {
    data: Vec<(T, T)>,
    state: State,
    length: usize,
    step: usize,
    step_size: usize,
    top_idx: usize,
    bottom_idx: usize,
}

impl<T> View for EmbIfft<T> {
    type V = IfftModel<T>;

    closed spec fn view(&self) -> IfftModel<T> {
        IfftModel {
            state: self.state,
            length: self.length as int,
            step: self.step as int,
            step_size: self.step_size as int,
            top_idx: self.top_idx as int,
            bottom_idx: self.bottom_idx as int,
            data: self.data@,
        }
    }
}

impl<T: Float> EmbIfft<T> {
    /// Initializes a new IFFT conversion.
    ///
    /// Use this function whenever a new conversion is required.  The
    /// buffer size must be a power of two, at least 4; any other size is
    /// rejected before any data is touched.
    pub fn new(data: Vec<(T, T)>) -> (r: Result<EmbIfft<T>, ConfigurationError>)
        ensures
            (r is Ok) <==> valid_size(data@.len()),
            r matches Ok(engine) ==> engine@ == init_ifft_model(data@) && engine@.wf(),
    {
        let valid = crate::common::check_valid_size(data.len());
        if !valid {
            return Err(ConfigurationError);
        }
        let step_size = data.len() / 4;
        let engine = EmbIfft {
            data,
            state: State::Reorder,
            length: 1,
            step: 0,
            step_size,
            top_idx: 0,
            bottom_idx: 0,
        };
        proof {
            assert(engine@ == init_ifft_model(engine@.data));
            lemma_init_ifft_wf(engine@.data);
        }
        Ok(engine)
    }

    /// Checks if the conversion is complete.
    ///
    /// Use this together with the [`EmbIfft::ifft_iterate()`] function.
    pub fn is_done(&self) -> (r: bool)
        ensures
            r == (self@.state == State::Done),
    {
        self.state == State::Done
    }

    /// Hands the buffer back to the caller.
    ///
    /// After the terminal state it holds the transform result in the
    /// original ordering; dropping out earlier leaves it in a
    /// well-defined but intermediate state.
    pub fn into_data(self) -> (r: Vec<(T, T)>)
        ensures
            r@ == self@.data,
    {
        self.data
    }

    fn reorder(&mut self)
        requires
            old(self)@.wf(),
            old(self)@.state == State::Reorder,
        ensures
            final(self)@ == old(self)@.next(),
    {
        // Ensure the input order is reversed
        let t = self.top_idx;
        let b = self.bottom_idx;
        let top = self.data[t];
        let bot = self.data[b];
        if b > t {
            self.data[t] = bot;
            self.data[b] = top;
        }
        if t < self.data.len() - 1 {
            let k = floor_log2(self.data.len());
            proof {
                lemma_pow2_log2(self@.data.len());
            }
            self.bottom_idx = reverse_low_bits(k, t + 1);
            self.top_idx = t + 1;
        } else {
            self.top_idx = 0;
            self.bottom_idx = 1;
            self.state = State::Step1;
        }
    }

    fn step1(&mut self)
        requires
            old(self)@.wf(),
            old(self)@.state == State::Step1,
        ensures
            final(self)@ == old(self)@.next(),
    {
        proof {
            lemma_ifft_wf_arith(old(self)@);
        }
        // Twiddle = 1 / N
        let n = self.data.len();
        let ninv = T::n_inv(n);
        let t = self.top_idx;
        let b = self.bottom_idx;
        let top = self.data[t];
        let bot = self.data[b];
        self.data[t] = (bot.0.add(top.0).mul(ninv), bot.1.add(top.1).mul(ninv));
        self.data[b] = (bot.0.neg().add(top.0).mul(ninv), bot.1.neg().add(top.1).mul(ninv));
        if b < n - 2 {
            self.top_idx = t + 2;
            self.bottom_idx = b + 2;
        } else {
            self.top_idx = 0;
            self.state = State::Step2;
        }
    }

    fn step2(&mut self)
        requires
            old(self)@.wf(),
            old(self)@.state == State::Step2,
        ensures
            final(self)@ == old(self)@.next(),
    {
        proof {
            lemma_ifft_wf_arith(old(self)@);
        }
        // Twiddle = 1
        let n = self.data.len();
        let t = self.top_idx;
        let b = t + (self.length * 2);
        let top = self.data[t];
        let bot = self.data[b];
        self.data[t] = (bot.0.add(top.0), bot.1.add(top.1));
        self.data[b] = (top.0.sub(bot.0), top.1.sub(bot.1));
        self.top_idx = t + 1;
        self.bottom_idx = b + 1;
        self.step = self.step_size;
        if self.step_size < n / 4 {
            self.state = State::Step3;
        } else {
            self.state = State::Step4;
        }
    }

    fn step3(&mut self)
        requires
            old(self)@.wf(),
            old(self)@.state == State::Step3,
        ensures
            final(self)@ == old(self)@.next(),
    {
        proof {
            lemma_ifft_wf_arith(old(self)@);
            lemma_ifft_twiddle_bounds(old(self)@);
        }
        // Twiddle = e^(+j * theta)
        let n = self.data.len();
        let q = n / 4;
        let t = self.top_idx;
        let b = self.bottom_idx;
        let top = self.data[t];
        let bot = self.data[b];
        let c = T::sine(q - self.step, n);
        let s = T::sine(self.step, n);
        let temp = (bot.0.mul(c).sub(bot.1.mul(s)), bot.1.mul(c).add(bot.0.mul(s)));
        self.data[t] = (top.0.add(temp.0), top.1.add(temp.1));
        self.data[b] = (top.0.sub(temp.0), top.1.sub(temp.1));
        self.top_idx = t + 1;
        self.bottom_idx = b + 1;
        if self.step < q - self.step_size {
            self.step = self.step + self.step_size;
        } else {
            self.state = State::Step4;
        }
    }

    fn step4(&mut self)
        requires
            old(self)@.wf(),
            old(self)@.state == State::Step4,
        ensures
            final(self)@ == old(self)@.next(),
    {
        proof {
            lemma_ifft_wf_arith(old(self)@);
        }
        // Twiddle = +j
        let n = self.data.len();
        let t = self.top_idx;
        let b = self.bottom_idx;
        let top = self.data[t];
        let bot = self.data[b];
        self.data[t] = (top.0.sub(bot.1), top.1.add(bot.0));
        self.data[b] = (top.0.add(bot.1), top.1.sub(bot.0));
        self.top_idx = t + 1;
        self.bottom_idx = b + 1;
        self.step = self.step_size;
        if self.step_size < n / 4 {
            self.state = State::Step5;
        } else {
            self.state = State::Step6;
        }
    }

    fn step5(&mut self)
        requires
            old(self)@.wf(),
            old(self)@.state == State::Step5,
        ensures
            final(self)@ == old(self)@.next(),
    {
        proof {
            lemma_ifft_wf_arith(old(self)@);
            lemma_ifft_twiddle_bounds(old(self)@);
        }
        // Twiddle = +j * e^(+j * theta)
        let n = self.data.len();
        let q = n / 4;
        let t = self.top_idx;
        let b = self.bottom_idx;
        let top = self.data[t];
        let bot = self.data[b];
        let c = T::sine(q - self.step, n);
        let s = T::sine(self.step, n);
        let temp = (bot.1.neg().mul(c).sub(bot.0.mul(s)), bot.0.mul(c).sub(bot.1.mul(s)));
        self.data[t] = (top.0.add(temp.0), top.1.add(temp.1));
        self.data[b] = (top.0.sub(temp.0), top.1.sub(temp.1));
        self.top_idx = t + 1;
        self.bottom_idx = b + 1;
        if self.step < q - self.step_size {
            self.step = self.step + self.step_size;
        } else {
            self.state = State::Step6;
        }
    }

    fn step6(&mut self)
        requires
            old(self)@.wf(),
            old(self)@.state == State::Step6,
        ensures
            final(self)@ == old(self)@.next(),
    {
        proof {
            lemma_ifft_wf_arith(old(self)@);
        }
        // Check if we need to loop
        if self.bottom_idx < self.data.len() {
            self.top_idx = self.bottom_idx;
            self.state = State::Step2;
        } else if self.step_size > 1 {
            self.length = self.length * 2;
            self.step_size = self.step_size / 2;
            self.top_idx = 0;
            self.state = State::Step2;
        } else {
            self.state = State::Done;
        }
    }

    /// Non-blocking IFFT computation.
    ///
    /// Performs exactly one butterfly or one bookkeeping transition of
    /// the conversion, as the ghost transition [`IfftModel::next`]
    /// describes; once the conversion is complete it does nothing.  Use
    /// this together with the [`EmbIfft::is_done()`] function, and
    /// invoke steps of one engine strictly sequentially.
    pub fn ifft_iterate(&mut self)
        requires
            old(self)@.wf(),
        ensures
            final(self)@ == old(self)@.next(),
            final(self)@.wf(),
    {
        match self.state {
            State::Reorder => { self.reorder(); },
            State::Step1 => { self.step1(); },
            State::Step2 => { self.step2(); },
            State::Step3 => { self.step3(); },
            State::Step4 => { self.step4(); },
            State::Step5 => { self.step5(); },
            State::Step6 => { self.step6(); },
            State::Done => {},
        }
        proof {
            lemma_ifft_next_wf(old(self)@);
        }
    }

    /// Blocking IFFT computation.
    ///
    /// Loops the stepping operation until the conversion is complete, so
    /// it is observably the same as calling [`EmbIfft::ifft_iterate()`]
    /// until [`EmbIfft::is_done()`] holds: the result is pinned to
    /// [`IfftModel::run`], the closure of the single-step transition.
    pub fn ifft(&mut self)
        requires
            old(self)@.wf(),
        ensures
            final(self)@ == old(self)@.run(),
            final(self)@.wf(),
            final(self)@.state == State::Done,
    {
        let ghost m0 = self@;
        while self.state != State::Done
            invariant
                self@.wf(),
                self@.run() == m0.run(),
            decreases self@.phase(), self@.step_size, self@.n() - self@.top_idx,
        {
            proof {
                lemma_ifft_next_decreases(self@);
                lemma_ifft_run_reaches_done(self@);
            }
            self.ifft_iterate();
        }
        proof {
            lemma_ifft_run_reaches_done(self@);
        }
    }
}

} // verus!

//! The fixed-topology feed-forward network: one hidden layer, logistic
//! activations, parameters and activations in fixed point (see [`ONE`]).
use crate::activation::{lemma_sigmoid_in_range, sigmoid, sigmoid_spec, ONE};
use crate::random::random_in;
use rand::rngs::StdRng;
use vstd::prelude::*;

verus! {

/// Bound on every weight and bias after construction, mutation or crossover: `2.0`.
pub const PARAM_LIMIT: i64 = 20_000;

/// Bound on every weight and bias drawn at construction: `1.0`.
pub const INIT_LIMIT: i64 = 10_000;

/// Bound on every observation fed to [`NeuralNetwork::forward`]: `100_000.0`.
pub const INPUT_LIMIT: i64 = 1_000_000_000;

/// The scale of a probability: a rate `r` stands for `r / RATE_ONE`.
pub const RATE_ONE: u64 = 10_000;

/// Bound on one product of a parameter and an observation, `PARAM_LIMIT * INPUT_LIMIT`.
pub const PRODUCT_LIMIT: i128 = 20_000_000_000_000;

/// A feed-forward network with one hidden layer.
///
/// `weights_input_hidden` has `hidden_size` rows of `input_size` weights,
/// `weights_hidden_output` has `output_size` rows of `hidden_size` weights.
#[derive(Debug)]
pub struct NeuralNetwork {
    pub weights_input_hidden: Vec<Vec<i64>>,
    pub weights_hidden_output: Vec<Vec<i64>>,
    pub bias_hidden: Vec<i64>,
    pub bias_output: Vec<i64>,
    pub input_size: usize,
    pub hidden_size: usize,
    pub output_size: usize,
}

/// The mathematical content of a [`NeuralNetwork`].
pub struct NetworkView {
    pub input_size: nat,
    pub hidden_size: nat,
    pub output_size: nat,
    pub w_ih: Seq<Seq<i64>>,
    pub w_ho: Seq<Seq<i64>>,
    pub b_h: Seq<i64>,
    pub b_o: Seq<i64>,
}

/// The rows of a matrix as sequences.
pub open spec fn rows(m: Seq<Vec<i64>>) -> Seq<Seq<i64>> {
    Seq::new(m.len(), |i: int| m[i]@)
}

impl View for NeuralNetwork {
    type V = NetworkView;

    open spec fn view(&self) -> NetworkView {
        NetworkView {
            input_size: self.input_size as nat,
            hidden_size: self.hidden_size as nat,
            output_size: self.output_size as nat,
            w_ih: rows(self.weights_input_hidden@),
            w_ho: rows(self.weights_hidden_output@),
            b_h: self.bias_hidden@,
            b_o: self.bias_output@,
        }
    }
}

/// Every value of `s` lies in `[-limit, limit]`.
pub open spec fn within(s: Seq<i64>, limit: int) -> bool {
    forall|i: int| 0 <= i < s.len() ==> -limit <= #[trigger] s[i] <= limit
}

/// `m` has `r` rows of `c` values, each in `[-limit, limit]`.
pub open spec fn matrix_within(m: Seq<Seq<i64>>, r: nat, c: nat, limit: int) -> bool {
    &&& m.len() == r
    &&& forall|i: int| 0 <= i < m.len() ==> (#[trigger] m[i]).len() == c && within(m[i], limit)
}

impl NetworkView {
    /// The layer sizes of both networks agree.
    pub open spec fn same_topology(self, other: NetworkView) -> bool {
        &&& self.input_size == other.input_size
        &&& self.hidden_size == other.hidden_size
        &&& self.output_size == other.output_size
    }

    /// The shapes agree with the sizes and every parameter lies in `[-limit, limit]`.
    pub open spec fn shaped_within(self, limit: int) -> bool {
        &&& matrix_within(self.w_ih, self.hidden_size, self.input_size, limit)
        &&& matrix_within(self.w_ho, self.output_size, self.hidden_size, limit)
        &&& self.b_h.len() == self.hidden_size && within(self.b_h, limit)
        &&& self.b_o.len() == self.output_size && within(self.b_o, limit)
    }

    /// Positive sizes, matching shapes, every parameter in `[-PARAM_LIMIT, PARAM_LIMIT]`.
    pub open spec fn wf(self) -> bool {
        &&& self.input_size > 0
        &&& self.hidden_size > 0
        &&& self.output_size > 0
        &&& self.shaped_within(PARAM_LIMIT as int)
    }
}

/// `sum_j w[j] * x[j]` over the positions of `w`.
pub open spec fn dot(w: Seq<i64>, x: Seq<i64>) -> int
    decreases w.len(),
{
    if w.len() == 0 {
        0
    } else {
        dot(w.drop_last(), x) + w.last() * x[w.len() - 1]
    }
}

/// The activation of one unit: `sigmoid(bias + sum_j w[j] * x[j])`.
pub open spec fn unit(bias: i64, w: Seq<i64>, x: Seq<i64>) -> i64 {
    sigmoid_spec(bias * ONE + dot(w, x)) as i64
}

/// The hidden activations of `n` on the observation `x`.
pub open spec fn hidden_layer(n: NetworkView, x: Seq<i64>) -> Seq<i64> {
    Seq::new(n.hidden_size, |j: int| unit(n.b_h[j], n.w_ih[j], x))
}

/// The outputs of `n` on the observation `x`.
pub open spec fn output_layer(n: NetworkView, x: Seq<i64>) -> Seq<i64> {
    let h = hidden_layer(n, x);
    Seq::new(n.output_size, |k: int| unit(n.b_o[k], n.w_ho[k], h))
}

/// `v` held to `[-PARAM_LIMIT, PARAM_LIMIT]`.
pub open spec fn clamp_param(v: int) -> int {
    if v < -PARAM_LIMIT {
        -PARAM_LIMIT as int
    } else if v > PARAM_LIMIT {
        PARAM_LIMIT as int
    } else {
        v
    }
}

/// `v` moved by `d`, then clamped.
pub open spec fn shifted(v: i64, d: int) -> int {
    clamp_param(v + d)
}

/// `new` is `old` plus some perturbation of at most `strength`, then clamped.
pub open spec fn perturbed(old: i64, new: i64, strength: i64) -> bool {
    exists|d: int| -strength <= d <= strength && new == #[trigger] shifted(old, d)
}

/// What mutation at `rate` may make of one parameter: kept at rate zero,
/// perturbed at a rate of `RATE_ONE` or more, either in between.
pub open spec fn mutation_step(old: i64, new: i64, rate: u64, strength: i64) -> bool {
    if rate == 0 {
        new == old
    } else if rate >= RATE_ONE {
        perturbed(old, new, strength)
    } else {
        new == old || perturbed(old, new, strength)
    }
}

/// `b` is `a` with each value mutated.
pub open spec fn row_mutated(a: Seq<i64>, b: Seq<i64>, rate: u64, strength: i64) -> bool {
    &&& a.len() == b.len()
    &&& forall|i: int| 0 <= i < a.len() ==> mutation_step(a[i], #[trigger] b[i], rate, strength)
}

/// `b` is `a` with each row mutated.
pub open spec fn matrix_mutated(a: Seq<Seq<i64>>, b: Seq<Seq<i64>>, rate: u64, strength: i64) -> bool {
    &&& a.len() == b.len()
    &&& forall|i: int| 0 <= i < a.len() ==> row_mutated(a[i], #[trigger] b[i], rate, strength)
}

/// `b` is the network `a` with every parameter mutated at `rate` by at most `strength`.
pub open spec fn mutated(a: NetworkView, b: NetworkView, rate: u64, strength: i64) -> bool {
    &&& a.same_topology(b)
    &&& matrix_mutated(a.w_ih, b.w_ih, rate, strength)
    &&& matrix_mutated(a.w_ho, b.w_ho, rate, strength)
    &&& row_mutated(a.b_h, b.b_h, rate, strength)
    &&& row_mutated(a.b_o, b.b_o, rate, strength)
}

/// Each value of `c` is the value of `a` or of `b` at the same position.
pub open spec fn row_mixed(a: Seq<i64>, b: Seq<i64>, c: Seq<i64>) -> bool {
    &&& c.len() == a.len()
    &&& forall|i: int| 0 <= i < c.len() ==> #[trigger] c[i] == a[i] || c[i] == b[i]
}

/// Each row of `c` mixes the rows of `a` and `b` at the same position.
pub open spec fn matrix_mixed(a: Seq<Seq<i64>>, b: Seq<Seq<i64>>, c: Seq<Seq<i64>>) -> bool {
    &&& c.len() == a.len()
    &&& forall|i: int| 0 <= i < c.len() ==> row_mixed(a[i], b[i], #[trigger] c[i])
}

/// `c` has the topology of `a`, and each of its parameters comes from `a` or `b`.
pub open spec fn mixed(a: NetworkView, b: NetworkView, c: NetworkView) -> bool {
    &&& c.same_topology(a)
    &&& matrix_mixed(a.w_ih, b.w_ih, c.w_ih)
    &&& matrix_mixed(a.w_ho, b.w_ho, c.w_ho)
    &&& row_mixed(a.b_h, b.b_h, c.b_h)
    &&& row_mixed(a.b_o, b.b_o, c.b_o)
}

proof fn lemma_product_bound(a: int, b: int)
    requires
        -PARAM_LIMIT <= a <= PARAM_LIMIT,
        -INPUT_LIMIT <= b <= INPUT_LIMIT,
    ensures
        -PRODUCT_LIMIT <= a * b <= PRODUCT_LIMIT,
{
    assert(-PRODUCT_LIMIT <= a * b <= PRODUCT_LIMIT) by (nonlinear_arith)
        requires
            -20_000 <= a <= 20_000,
            -1_000_000_000 <= b <= 1_000_000_000,
    ;
}

/// `sigmoid(bias + sum_j row[j] * x[j])`, with the sum accumulated exactly.
fn unit_activation(bias: i64, row: &Vec<i64>, x: &[i64]) -> (r: i64)
    requires
        row@.len() == x@.len(),
        -PARAM_LIMIT <= bias <= PARAM_LIMIT,
        within(row@, PARAM_LIMIT as int),
        within(x@, INPUT_LIMIT as int),
    ensures
        r == unit(bias, row@, x@),
        0 < r < ONE,
{
    let n = row.len();
    let mut acc: i128 = bias as i128 * ONE as i128;
    let mut j: usize = 0;
    while j < n
        invariant
            n == row@.len(),
            n == x@.len(),
            j <= n,
            -PARAM_LIMIT <= bias <= PARAM_LIMIT,
            within(row@, PARAM_LIMIT as int),
            within(x@, INPUT_LIMIT as int),
            acc == bias * ONE + dot(row@.take(j as int), x@),
            -(j * PRODUCT_LIMIT) <= dot(row@.take(j as int), x@) <= j * PRODUCT_LIMIT,
        decreases n - j,
    {
        proof {
            lemma_product_bound(row@[j as int] as int, x@[j as int] as int);
            assert(row@.take(j + 1).drop_last() =~= row@.take(j as int));
        }
        acc = acc + row[j] as i128 * x[j] as i128;
        j = j + 1;
    }
    proof {
        assert(row@.take(n as int) =~= row@);
        lemma_sigmoid_in_range(acc as int);
    }
    sigmoid(acc)
}

/// A copy of `v`.
fn copy_row(v: &Vec<i64>) -> (r: Vec<i64>)
    ensures
        r@ == v@,
{
    let r = v.clone();
    assert(r@ =~= v@);
    r
}

/// A copy of every row of `m`.
fn copy_matrix(m: &Vec<Vec<i64>>) -> (r: Vec<Vec<i64>>)
    ensures
        rows(r@) == rows(m@),
{
    let mut r: Vec<Vec<i64>> = Vec::new();
    let mut i: usize = 0;
    while i < m.len()
        invariant
            i <= m@.len(),
            r@.len() == i,
            forall|k: int| 0 <= k < i ==> (#[trigger] r@[k])@ == m@[k]@,
        decreases m@.len() - i,
    {
        r.push(copy_row(&m[i]));
        i = i + 1;
    }
    assert(rows(r@) =~= rows(m@));
    r
}

/// `n` values drawn independently and uniformly from `[-INIT_LIMIT, INIT_LIMIT]`.
fn random_row(n: usize, rng: &mut StdRng) -> (r: Vec<i64>)
    ensures
        r@.len() == n,
        within(r@, INIT_LIMIT as int),
{
    let mut r: Vec<i64> = Vec::new();
    let mut i: usize = 0;
    while i < n
        invariant
            i <= n,
            r@.len() == i,
            within(r@, INIT_LIMIT as int),
        decreases n - i,
    {
        let v = random_in(rng, -INIT_LIMIT as i128, INIT_LIMIT as i128) as i64;
        r.push(v);
        i = i + 1;
    }
    r
}

/// A matrix of `n_rows` rows of `n_cols` values, drawn as [`random_row`] draws them.
fn random_matrix(n_rows: usize, n_cols: usize, rng: &mut StdRng) -> (r: Vec<Vec<i64>>)
    ensures
        matrix_within(rows(r@), n_rows as nat, n_cols as nat, INIT_LIMIT as int),
{
    let mut r: Vec<Vec<i64>> = Vec::new();
    let mut i: usize = 0;
    while i < n_rows
        invariant
            i <= n_rows,
            matrix_within(rows(r@), i as nat, n_cols as nat, INIT_LIMIT as int),
        decreases n_rows - i,
    {
        let row = random_row(n_cols, rng);
        let ghost before = rows(r@);
        r.push(row);
        i = i + 1;
        assert(rows(r@) =~= before.push(row@));
    }
    r
}

/// One parameter after the draws of a mutation: with `roll` below `rate` it
/// moves by `delta` and is clamped to `[-2.0, 2.0]`, otherwise it stays.
pub fn mutation_outcome(value: i64, roll: u64, rate: u64, delta: i64) -> (r: i64)
    ensures
        r == if roll < rate {
            clamp_param(value + delta)
        } else {
            value as int
        },
{
    if roll < rate {
        let v = value as i128 + delta as i128;
        if v < -PARAM_LIMIT as i128 {
            -PARAM_LIMIT
        } else if v > PARAM_LIMIT as i128 {
            PARAM_LIMIT
        } else {
            v as i64
        }
    } else {
        value
    }
}

/// Mutates each value of `row` in place: with probability `rate / RATE_ONE`
/// it gains a uniform perturbation from `[-strength, strength]` and is clamped.
fn mutate_row(row: &mut Vec<i64>, rate: u64, strength: i64, rng: &mut StdRng)
    requires
        rate > 0 ==> strength >= 0,
        within(old(row)@, PARAM_LIMIT as int),
    ensures
        row_mutated(old(row)@, final(row)@, rate, strength),
        within(final(row)@, PARAM_LIMIT as int),
{
    let n = row.len();
    let mut i: usize = 0;
    while i < n
        invariant
            n == row@.len(),
            n == old(row)@.len(),
            i <= n,
            rate > 0 ==> strength >= 0,
            within(row@, PARAM_LIMIT as int),
            forall|k: int| 0 <= k < i ==> mutation_step(old(row)@[k], #[trigger] row@[k], rate, strength),
            forall|k: int| i <= k < n ==> #[trigger] row@[k] == old(row)@[k],
        decreases n - i,
    {
        let roll = random_in(rng, 0, (RATE_ONE - 1) as i128) as u64;
        if roll < rate {
            let d = random_in(rng, -strength as i128, strength as i128) as i64;
            let v = mutation_outcome(row[i], roll, rate, d);
            proof {
                assert(-strength <= d <= strength && v == shifted(old(row)@[i as int], d as int));
            }
            row.set(i, v);
        }
        i = i + 1;
    }
}

/// Mutates every row of `m` as [`mutate_row`] does.
fn mutate_matrix(m: &mut Vec<Vec<i64>>, rate: u64, strength: i64, rng: &mut StdRng)
    requires
        rate > 0 ==> strength >= 0,
        forall|i: int| 0 <= i < old(m)@.len() ==> within(#[trigger] old(m)@[i]@, PARAM_LIMIT as int),
    ensures
        matrix_mutated(rows(old(m)@), rows(final(m)@), rate, strength),
        forall|i: int| 0 <= i < final(m)@.len() ==> within(#[trigger] final(m)@[i]@, PARAM_LIMIT as int),
{
    let n = m.len();
    let mut i: usize = 0;
    while i < n
        invariant
            n == m@.len(),
            n == old(m)@.len(),
            i <= n,
            rate > 0 ==> strength >= 0,
            forall|k: int| 0 <= k < n ==> within(#[trigger] m@[k]@, PARAM_LIMIT as int),
            forall|k: int| 0 <= k < i ==> row_mutated(old(m)@[k]@, #[trigger] m@[k]@, rate, strength),
            forall|k: int| i <= k < n ==> (#[trigger] m@[k])@ == old(m)@[k]@,
        decreases n - i,
    {
        let mut row = copy_row(&m[i]);
        mutate_row(&mut row, rate, strength, rng);
        m.set(i, row);
        i = i + 1;
    }
    assert(rows(old(m)@).len() == rows(m@).len());
}

/// A row whose each value is taken, on a fair coin, from `a` or from `b`.
fn mix_rows(a: &Vec<i64>, b: &Vec<i64>, rng: &mut StdRng) -> (r: Vec<i64>)
    requires
        a@.len() == b@.len(),
    ensures
        row_mixed(a@, b@, r@),
{
    let mut r: Vec<i64> = Vec::new();
    let mut i: usize = 0;
    while i < a.len()
        invariant
            a@.len() == b@.len(),
            i <= a@.len(),
            r@.len() == i,
            forall|k: int| 0 <= k < i ==> #[trigger] r@[k] == a@[k] || r@[k] == b@[k],
        decreases a@.len() - i,
    {
        let coin = random_in(rng, 0, 1);
        if coin == 0 {
            r.push(b[i]);
        } else {
            r.push(a[i]);
        }
        i = i + 1;
    }
    r
}

/// A matrix whose each row is [`mix_rows`] of the rows of `a` and `b`.
fn mix_matrices(a: &Vec<Vec<i64>>, b: &Vec<Vec<i64>>, rng: &mut StdRng) -> (r: Vec<Vec<i64>>)
    requires
        a@.len() == b@.len(),
        forall|i: int| 0 <= i < a@.len() ==> (#[trigger] a@[i])@.len() == b@[i]@.len(),
    ensures
        matrix_mixed(rows(a@), rows(b@), rows(r@)),
{
    let mut r: Vec<Vec<i64>> = Vec::new();
    let mut i: usize = 0;
    while i < a.len()
        invariant
            a@.len() == b@.len(),
            forall|k: int| 0 <= k < a@.len() ==> (#[trigger] a@[k])@.len() == b@[k]@.len(),
            i <= a@.len(),
            r@.len() == i,
            forall|k: int| 0 <= k < i ==> row_mixed(a@[k]@, b@[k]@, (#[trigger] r@[k])@),
        decreases a@.len() - i,
    {
        let row = mix_rows(&a[i], &b[i], rng);
        r.push(row);
        i = i + 1;
    }
    r
}

proof fn lemma_within_widens(s: Seq<i64>, small: int, large: int)
    requires
        within(s, small),
        small <= large,
    ensures
        within(s, large),
{
}

/// Every output of every network lies strictly between zero and one, whatever
/// the observation.
pub proof fn lemma_outputs_in_unit_interval(n: NetworkView, x: Seq<i64>)
    ensures
        forall|k: int| 0 <= k < n.output_size ==> 0 < #[trigger] output_layer(n, x)[k] < ONE,
{
    assert forall|k: int| 0 <= k < n.output_size implies 0 < #[trigger] output_layer(n, x)[k] < ONE by {
        let h = hidden_layer(n, x);
        lemma_sigmoid_in_range(n.b_o[k] * ONE + dot(n.w_ho[k], h));
    }
}

/// Mutation at rate zero leaves every weight and bias as it was.
pub proof fn lemma_zero_rate_mutation_is_identity(a: NetworkView, b: NetworkView, strength: i64)
    requires
        mutated(a, b, 0, strength),
    ensures
        b == a,
{
    assert forall|i: int| 0 <= i < a.w_ih.len() implies #[trigger] b.w_ih[i] == a.w_ih[i] by {
        assert(b.w_ih[i] =~= a.w_ih[i]);
    }
    assert forall|i: int| 0 <= i < a.w_ho.len() implies #[trigger] b.w_ho[i] == a.w_ho[i] by {
        assert(b.w_ho[i] =~= a.w_ho[i]);
    }
    assert(b.w_ih =~= a.w_ih);
    assert(b.w_ho =~= a.w_ho);
    assert(b.b_h =~= a.b_h);
    assert(b.b_o =~= a.b_o);
}

/// Each parameter of `b` is the one of `a` moved by at most `strength`, then clamped.
pub open spec fn all_perturbed(a: NetworkView, b: NetworkView, strength: i64) -> bool {
    &&& forall|i: int, j: int|
        0 <= i < a.w_ih.len() && 0 <= j < a.w_ih[i].len() ==> perturbed(a.w_ih[i][j], #[trigger] b.w_ih[i][j], strength)
    &&& forall|i: int, j: int|
        0 <= i < a.w_ho.len() && 0 <= j < a.w_ho[i].len() ==> perturbed(a.w_ho[i][j], #[trigger] b.w_ho[i][j], strength)
    &&& forall|j: int| 0 <= j < a.b_h.len() ==> perturbed(a.b_h[j], #[trigger] b.b_h[j], strength)
    &&& forall|j: int| 0 <= j < a.b_o.len() ==> perturbed(a.b_o[j], #[trigger] b.b_o[j], strength)
}

proof fn lemma_perturbed_within(old: i64, new: i64, strength: i64)
    requires
        perturbed(old, new, strength),
    ensures
        -PARAM_LIMIT <= new <= PARAM_LIMIT,
{
}

proof fn lemma_row_mutated_within(a: Seq<i64>, b: Seq<i64>, rate: u64, strength: i64)
    requires
        within(a, PARAM_LIMIT as int),
        row_mutated(a, b, rate, strength),
    ensures
        within(b, PARAM_LIMIT as int),
{
    assert forall|i: int| 0 <= i < b.len() implies -PARAM_LIMIT <= #[trigger] b[i] <= PARAM_LIMIT by {
        if b[i] != a[i] {
            lemma_perturbed_within(a[i], b[i], strength);
        }
    }
}

/// Mutation at a rate of one moves every parameter by at most `strength` before
/// clamping, and leaves every parameter in `[-2.0, 2.0]`.
pub proof fn lemma_full_rate_mutation_is_bounded(a: NetworkView, b: NetworkView, rate: u64, strength: i64)
    requires
        a.wf(),
        rate >= RATE_ONE,
        mutated(a, b, rate, strength),
    ensures
        all_perturbed(a, b, strength),
        b.wf(),
{
    assert forall|i: int| 0 <= i < b.w_ih.len() implies (#[trigger] b.w_ih[i]).len() == b.input_size
        && within(b.w_ih[i], PARAM_LIMIT as int) by {
        lemma_row_mutated_within(a.w_ih[i], b.w_ih[i], rate, strength);
    }
    assert forall|i: int| 0 <= i < b.w_ho.len() implies (#[trigger] b.w_ho[i]).len() == b.hidden_size
        && within(b.w_ho[i], PARAM_LIMIT as int) by {
        lemma_row_mutated_within(a.w_ho[i], b.w_ho[i], rate, strength);
    }
    lemma_row_mutated_within(a.b_h, b.b_h, rate, strength);
    lemma_row_mutated_within(a.b_o, b.b_o, rate, strength);
}

/// Crossing a network with itself gives back that network.
pub proof fn lemma_self_crossover_is_identity(a: NetworkView, c: NetworkView)
    requires
        mixed(a, a, c),
    ensures
        c == a,
{
    assert forall|i: int| 0 <= i < a.w_ih.len() implies #[trigger] c.w_ih[i] == a.w_ih[i] by {
        assert(c.w_ih[i] =~= a.w_ih[i]);
    }
    assert forall|i: int| 0 <= i < a.w_ho.len() implies #[trigger] c.w_ho[i] == a.w_ho[i] by {
        assert(c.w_ho[i] =~= a.w_ho[i]);
    }
    assert(c.w_ih =~= a.w_ih);
    assert(c.w_ho =~= a.w_ho);
    assert(c.b_h =~= a.b_h);
    assert(c.b_o =~= a.b_o);
}

impl NeuralNetwork {
    /// The network is well formed (see [`NetworkView::wf`]).
    pub open spec fn wf(&self) -> bool {
        self@.wf()
    }

    /// A network of the given topology whose every weight and bias is drawn
    /// independently and uniformly from `[-1.0, 1.0]`.
    pub fn new(input_size: usize, hidden_size: usize, output_size: usize, rng: &mut StdRng) -> (r: Self)
        requires
            input_size > 0,
            hidden_size > 0,
            output_size > 0,
        ensures
            r.wf(),
            r@.input_size == input_size,
            r@.hidden_size == hidden_size,
            r@.output_size == output_size,
            r@.shaped_within(INIT_LIMIT as int),
    {
        let weights_input_hidden = random_matrix(hidden_size, input_size, rng);
        let weights_hidden_output = random_matrix(output_size, hidden_size, rng);
        let bias_hidden = random_row(hidden_size, rng);
        let bias_output = random_row(output_size, rng);
        let r = NeuralNetwork {
            weights_input_hidden,
            weights_hidden_output,
            bias_hidden,
            bias_output,
            input_size,
            hidden_size,
            output_size,
        };
        proof {
            let v = r@;
            assert forall|i: int| 0 <= i < v.w_ih.len() implies within(#[trigger] v.w_ih[i], PARAM_LIMIT as int) by {
                lemma_within_widens(v.w_ih[i], INIT_LIMIT as int, PARAM_LIMIT as int);
            }
            assert forall|i: int| 0 <= i < v.w_ho.len() implies within(#[trigger] v.w_ho[i], PARAM_LIMIT as int) by {
                lemma_within_widens(v.w_ho[i], INIT_LIMIT as int, PARAM_LIMIT as int);
            }
        }
        r
    }

    /// The outputs for one observation: each hidden unit is
    /// `sigmoid(bias_hidden[i] + sum_j inputs[j] * W_ih[i][j])`, each output unit
    /// `sigmoid(bias_output[k] + sum_j hidden[j] * W_ho[k][j])`.
    pub fn forward(&self, inputs: &[i64]) -> (r: Vec<i64>)
        requires
            self.wf(),
            inputs@.len() == self.input_size,
            within(inputs@, INPUT_LIMIT as int),
        ensures
            r@ == output_layer(self@, inputs@),
            forall|k: int| 0 <= k < r@.len() ==> 0 < #[trigger] r@[k] < ONE,
    {
        let ghost v = self@;
        let mut hidden: Vec<i64> = Vec::new();
        let mut i: usize = 0;
        while i < self.hidden_size
            invariant
                self.wf(),
                v == self@,
                inputs@.len() == self.input_size,
                within(inputs@, INPUT_LIMIT as int),
                i <= self.hidden_size,
                hidden@.len() == i,
                forall|k: int| 0 <= k < i ==> #[trigger] hidden@[k] == unit(v.b_h[k], v.w_ih[k], inputs@),
                forall|k: int| 0 <= k < i ==> 0 < #[trigger] hidden@[k] < ONE,
            decreases self.hidden_size - i,
        {
            assert(v.w_ih[i as int] == self.weights_input_hidden@[i as int]@);
            let a = unit_activation(self.bias_hidden[i], &self.weights_input_hidden[i], inputs);
            hidden.push(a);
            i = i + 1;
        }
        assert(hidden@ =~= hidden_layer(v, inputs@));
        let mut out: Vec<i64> = Vec::new();
        let mut k: usize = 0;
        while k < self.output_size
            invariant
                self.wf(),
                v == self@,
                hidden@ == hidden_layer(v, inputs@),
                hidden@.len() == self.hidden_size,
                forall|j: int| 0 <= j < hidden@.len() ==> 0 < #[trigger] hidden@[j] < ONE,
                k <= self.output_size,
                out@.len() == k,
                forall|m: int| 0 <= m < k ==> #[trigger] out@[m] == unit(v.b_o[m], v.w_ho[m], hidden@),
                forall|m: int| 0 <= m < k ==> 0 < #[trigger] out@[m] < ONE,
            decreases self.output_size - k,
        {
            assert(v.w_ho[k as int] == self.weights_hidden_output@[k as int]@);
            let a = unit_activation(self.bias_output[k], &self.weights_hidden_output[k], hidden.as_slice());
            out.push(a);
            k = k + 1;
        }
        assert(out@ =~= output_layer(v, inputs@));
        out
    }

    /// Mutates every weight and bias in place: with probability
    /// `mutation_rate / RATE_ONE` it gains a uniform perturbation from
    /// `[-mutation_strength, mutation_strength]` and is then clamped to
    /// `[-2.0, 2.0]`. No parameter is mutated twice.
    pub fn mutate(&mut self, mutation_rate: u64, mutation_strength: i64, rng: &mut StdRng)
        requires
            old(self).wf(),
            mutation_rate > 0 ==> mutation_strength >= 0,
        ensures
            final(self).wf(),
            mutated(old(self)@, final(self)@, mutation_rate, mutation_strength),
    {
        proof {
            let (a, b) = (self.weights_input_hidden@, self.weights_hidden_output@);
            assert forall|i: int| 0 <= i < a.len() implies within(#[trigger] a[i]@, PARAM_LIMIT as int) by {
                assert(rows(a)[i] == a[i]@);
            }
            assert forall|i: int| 0 <= i < b.len() implies within(#[trigger] b[i]@, PARAM_LIMIT as int) by {
                assert(rows(b)[i] == b[i]@);
            }
        }
        mutate_matrix(&mut self.weights_input_hidden, mutation_rate, mutation_strength, rng);
        mutate_matrix(&mut self.weights_hidden_output, mutation_rate, mutation_strength, rng);
        mutate_row(&mut self.bias_hidden, mutation_rate, mutation_strength, rng);
        mutate_row(&mut self.bias_output, mutation_rate, mutation_strength, rng);
    }

    /// A child whose every weight and bias is taken, on an independent fair
    /// coin, from `self` or from `other`.
    pub fn crossover(&self, other: &NeuralNetwork, rng: &mut StdRng) -> (r: NeuralNetwork)
        requires
            self.wf(),
            other.wf(),
            self@.same_topology(other@),
        ensures
            r.wf(),
            mixed(self@, other@, r@),
    {
        proof {
            let (a, b) = (self.weights_input_hidden@, other.weights_input_hidden@);
            assert forall|i: int| 0 <= i < a.len() implies (#[trigger] a[i])@.len() == b[i]@.len() by {
                assert(rows(a)[i] == a[i]@ && rows(b)[i] == b[i]@);
            }
            let (a, b) = (self.weights_hidden_output@, other.weights_hidden_output@);
            assert forall|i: int| 0 <= i < a.len() implies (#[trigger] a[i])@.len() == b[i]@.len() by {
                assert(rows(a)[i] == a[i]@ && rows(b)[i] == b[i]@);
            }
        }
        let weights_input_hidden = mix_matrices(&self.weights_input_hidden, &other.weights_input_hidden, rng);
        let weights_hidden_output = mix_matrices(&self.weights_hidden_output, &other.weights_hidden_output, rng);
        let bias_hidden = mix_rows(&self.bias_hidden, &other.bias_hidden, rng);
        let bias_output = mix_rows(&self.bias_output, &other.bias_output, rng);
        NeuralNetwork {
            weights_input_hidden,
            weights_hidden_output,
            bias_hidden,
            bias_output,
            input_size: self.input_size,
            hidden_size: self.hidden_size,
            output_size: self.output_size,
        }
    }
}

impl Clone for NeuralNetwork {
    /// A deep copy: no storage is shared with `self`.
    fn clone(&self) -> (r: Self)
        ensures
            r@ == self@,
    {
        NeuralNetwork {
            weights_input_hidden: copy_matrix(&self.weights_input_hidden),
            weights_hidden_output: copy_matrix(&self.weights_hidden_output),
            bias_hidden: copy_row(&self.bias_hidden),
            bias_output: copy_row(&self.bias_output),
            input_size: self.input_size,
            hidden_size: self.hidden_size,
            output_size: self.output_size,
        }
    }
}

} // verus!

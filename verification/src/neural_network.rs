//! The feed-forward neural network.
//!
//! A network is an ordered stack of layers; a layer an ordered sequence of
//! neurons; a neuron one bias and one weight per input of the previous
//! layer. Propagation is pure: each neuron computes its bias plus the
//! weighted sum of its inputs, clamped below at zero (a ReLU stack, no
//! normalization), and a layer's output vector feeds the next layer.
//!
//! All values are fixed-point scalars (see [`crate::fx`]); the weighted
//! sum accumulates left to right with saturating arithmetic, which the
//! evaluation specification mirrors exactly.

use vstd::prelude::*;
use crate::fx::{fx_mul, fx_sat_add, sat, tdiv, LIMIT, SCALE};
use crate::genetic_algorithm::Chromosome;
use crate::rng::{gen_range_i64, SimRng};
use crate::SimError;

verus! {

/// One bias and one weight per input.
pub struct Neuron {
    pub bias: i64,
    pub weights: Vec<i64>,
}

/// An ordered, non-empty sequence of neurons sharing one input width.
pub struct Layer {
    pub neurons: Vec<Neuron>,
}

/// An ordered, non-empty stack of layers.
pub struct Network {
    pub layers: Vec<Layer>,
}

/// A sequence of scalars as mathematical integers.
pub open spec fn to_ints(s: Seq<i64>) -> Seq<int> {
    s.map_values(|x: i64| x as int)
}

/// The saturating left-to-right weighted sum of paired weights and inputs.
pub open spec fn dot(ws: Seq<i64>, xs: Seq<int>) -> int
    decreases ws.len(),
{
    if ws.len() == 0 || xs.len() == 0 {
        0
    } else {
        sat(dot(ws.drop_last(), xs.drop_last()) + sat(tdiv(ws.last() * xs.last(), SCALE as int)))
    }
}

/// One neuron's output: bias plus weighted input sum, clamped below at zero.
pub open spec fn neuron_eval(n: Neuron, xs: Seq<int>) -> int {
    let pre = sat(dot(n.weights@, xs) + n.bias);
    if pre < 0 {
        0
    } else {
        pre
    }
}

/// One layer's output vector, one entry per neuron.
pub open spec fn layer_eval(l: Layer, xs: Seq<int>) -> Seq<int> {
    Seq::new(l.neurons@.len(), |i: int| neuron_eval(l.neurons@[i], xs))
}

/// The input vector folded through the layer stack, in order.
pub open spec fn net_eval(ls: Seq<Layer>, xs: Seq<int>) -> Seq<int>
    decreases ls.len(),
{
    if ls.len() == 0 {
        xs
    } else {
        layer_eval(ls.last(), net_eval(ls.drop_last(), xs))
    }
}

/// Every neuron of the layer takes `w` inputs, and there is at least one.
pub open spec fn layer_uniform(l: Layer, w: int) -> bool {
    l.neurons@.len() > 0 && forall|j: int|
        0 <= j < l.neurons@.len() ==> (#[trigger] l.neurons@[j]).weights@.len() == w
}

/// The input width of the network: what its first neuron consumes.
pub open spec fn in_width(net: Network) -> int {
    net.layers@[0].neurons@[0].weights@.len() as int
}

/// The width feeding layer `k`.
pub open spec fn width_into(net: Network, k: int) -> int {
    if k == 0 {
        in_width(net)
    } else {
        net.layers@[k - 1].neurons@.len() as int
    }
}

/// Shape invariant: at least one layer, every layer non-empty, and each
/// neuron of layer `k` takes one input per neuron of layer `k - 1`.
pub open spec fn net_wf(net: Network) -> bool {
    net.layers@.len() > 0 && forall|k: int|
        0 <= k < net.layers@.len() ==> layer_uniform(#[trigger] net.layers@[k], width_into(net, k))
}

/// The layer-width sequence the network realises: input width first, then
/// one entry per layer.
pub open spec fn net_topology(net: Network) -> Seq<int> {
    seq![in_width(net)] + net.layers@.map_values(|l: Layer| l.neurons@.len() as int)
}

/// Output shape and ReLU bounds of a prefix of the layer stack.
proof fn lemma_net_eval_take(ls: Seq<Layer>, xs: Seq<int>, k: int)
    requires
        1 <= k <= ls.len(),
    ensures
        net_eval(ls.take(k), xs).len() == ls[k - 1].neurons@.len(),
        forall|i: int|
            0 <= i < net_eval(ls.take(k), xs).len() ==> 0 <= #[trigger] net_eval(ls.take(k), xs)[i]
                <= LIMIT,
    decreases k,
{
    let prefix = ls.take(k);
    assert(prefix.last() == ls[k - 1]);
    assert(prefix.drop_last() =~= ls.take(k - 1));
    assert(net_eval(prefix, xs) == layer_eval(ls[k - 1], net_eval(ls.take(k - 1), xs)));
    if k > 1 {
        lemma_net_eval_take(ls, xs, k - 1);
    }
}

/// The stack's output has one entry per neuron of the last layer, and every
/// entry is a clamped non-negative scalar: whatever the input vector holds,
/// a network's answer has the output layer's width and no negative value.
pub proof fn lemma_net_eval_shape(ls: Seq<Layer>, xs: Seq<int>)
    requires
        ls.len() > 0,
    ensures
        net_eval(ls, xs).len() == ls.last().neurons@.len(),
        forall|i: int| 0 <= i < net_eval(ls, xs).len() ==> 0 <= #[trigger] net_eval(ls, xs)[i]
            <= LIMIT,
{
    lemma_net_eval_take(ls, xs, ls.len() as int);
    assert(ls.take(ls.len() as int) =~= ls);
}

/// Every scalar of the sequence lies in `[-b, b]`.
pub open spec fn genes_in_band(s: Seq<i64>, b: int) -> bool {
    forall|i: int| 0 <= i < s.len() ==> -b <= #[trigger] s[i] <= b
}

/// The neuron's bias and every weight lie in `[-b, b]`.
pub open spec fn neuron_in_band(n: Neuron, b: int) -> bool {
    -b <= n.bias <= b && genes_in_band(n.weights@, b)
}

impl Neuron {
    /// The neuron's output for one input vector.
    pub fn propagate(&self, inputs: &Vec<i64>) -> (r: i64)
        requires
            self.weights@.len() == inputs@.len(),
        ensures
            r as int == neuron_eval(*self, to_ints(inputs@)),
            0 <= r <= LIMIT,
    {
        let n = self.weights.len();
        let mut acc: i64 = 0;
        let mut i: usize = 0;
        while i < n
            invariant
                n == self.weights@.len() == inputs@.len(),
                i <= n,
                acc as int == dot(self.weights@.take(i as int), to_ints(inputs@).take(i as int)),
            decreases n - i,
        {
            let term = fx_mul(self.weights[i], inputs[i]);
            let next = fx_sat_add(acc, term);
            proof {
                let wt = self.weights@.take(i + 1);
                let xt = to_ints(inputs@).take(i + 1);
                assert(wt.drop_last() =~= self.weights@.take(i as int));
                assert(xt.drop_last() =~= to_ints(inputs@).take(i as int));
                assert(wt.last() == self.weights@[i as int]);
                assert(xt.last() == inputs@[i as int] as int);
            }
            acc = next;
            i = i + 1;
        }
        proof {
            assert(self.weights@.take(n as int) =~= self.weights@);
            assert(to_ints(inputs@).take(n as int) =~= to_ints(inputs@));
        }
        let pre = fx_sat_add(acc, self.bias);
        if pre < 0 {
            0
        } else {
            pre
        }
    }

    /// A fresh neuron with bias and weights drawn independently and
    /// uniformly from `[-1, 1]` in fixed point.
    pub fn random(rng: &mut SimRng, input_size: usize) -> (r: Neuron)
        ensures
            r.weights@.len() == input_size,
            neuron_in_band(r, SCALE as int),
    {
        let bias = gen_range_i64(rng, -SCALE, SCALE + 1);
        let mut weights: Vec<i64> = Vec::new();
        let mut j: usize = 0;
        while j < input_size
            invariant
                j == weights@.len() <= input_size,
                forall|m: int| 0 <= m < j ==> -SCALE <= #[trigger] weights@[m] <= SCALE,
            decreases input_size - j,
        {
            weights.push(gen_range_i64(rng, -SCALE, SCALE + 1));
            j = j + 1;
        }
        Neuron { bias, weights }
    }
}

impl Layer {
    /// Each neuron's output for one input vector, in neuron order.
    pub fn propagate(&self, inputs: &Vec<i64>) -> (r: Vec<i64>)
        requires
            forall|j: int|
                0 <= j < self.neurons@.len() ==> (#[trigger] self.neurons@[j]).weights@.len()
                    == inputs@.len(),
        ensures
            to_ints(r@) == layer_eval(*self, to_ints(inputs@)),
            r@.len() == self.neurons@.len(),
            forall|i: int| 0 <= i < r@.len() ==> 0 <= #[trigger] r@[i] <= LIMIT,
    {
        let n = self.neurons.len();
        let mut out: Vec<i64> = Vec::new();
        let mut i: usize = 0;
        while i < n
            invariant
                n == self.neurons@.len(),
                i == out@.len() <= n,
                forall|j: int|
                    0 <= j < n ==> (#[trigger] self.neurons@[j]).weights@.len() == inputs@.len(),
                forall|j: int|
                    0 <= j < i ==> out@[j] as int == neuron_eval(
                        #[trigger] self.neurons@[j],
                        to_ints(inputs@),
                    ),
                forall|j: int| 0 <= j < i ==> 0 <= #[trigger] out@[j] <= LIMIT,
            decreases n - i,
        {
            out.push(self.neurons[i].propagate(inputs));
            i = i + 1;
        }
        proof {
            assert(to_ints(out@) =~= layer_eval(*self, to_ints(inputs@)));
        }
        out
    }

    /// A fresh layer of `output_size` random neurons of `input_size` inputs.
    pub fn random(rng: &mut SimRng, input_size: usize, output_size: usize) -> (r: Layer)
        ensures
            r.neurons@.len() == output_size,
            forall|j: int|
                0 <= j < output_size ==> (#[trigger] r.neurons@[j]).weights@.len() == input_size,
            forall|j: int| 0 <= j < output_size ==> neuron_in_band(#[trigger] r.neurons@[j],
                SCALE as int,
            ),
    {
        let mut neurons: Vec<Neuron> = Vec::new();
        let mut i: usize = 0;
        while i < output_size
            invariant
                i == neurons@.len() <= output_size,
                forall|j: int|
                    0 <= j < i ==> (#[trigger] neurons@[j]).weights@.len() == input_size,
                forall|j: int|
                    0 <= j < i ==> neuron_in_band(#[trigger] neurons@[j], SCALE as int),
            decreases output_size - i,
        {
            neurons.push(Neuron::random(rng, input_size));
            i = i + 1;
        }
        Layer { neurons }
    }
}

/// A usable layer-width sequence: at least an input and an output width,
/// every width positive.
pub open spec fn topology_valid(t: Seq<usize>) -> bool {
    t.len() >= 2 && forall|i: int| 0 <= i < t.len() ==> t[i] > 0
}

impl Network {
    /// The output vector for one input vector, or `ShapeMismatch` exactly
    /// when the input length is not the network's input width. Every entry
    /// of a returned vector is non-negative (the ReLU clamp) and has the
    /// last layer's width.
    pub fn propagate(&self, inputs: &Vec<i64>) -> (r: Result<Vec<i64>, SimError>)
        requires
            net_wf(*self),
        ensures
            r matches Ok(out) ==> {
                &&& inputs@.len() == in_width(*self)
                &&& to_ints(out@) == net_eval(self.layers@, to_ints(inputs@))
                &&& out@.len() == net_topology(*self).last()
                &&& forall|i: int| 0 <= i < out@.len() ==> 0 <= #[trigger] out@[i] <= LIMIT
            },
            r matches Err(e) ==> e == SimError::ShapeMismatch && inputs@.len() != in_width(*self),
    {
        let n = self.layers.len();
        if self.layers[0].neurons[0].weights.len() != inputs.len() {
            return Err(SimError::ShapeMismatch);
        }
        let mut current: Vec<i64> = inputs.clone();
        let mut k: usize = 0;
        while k < n
            invariant
                net_wf(*self),
                n == self.layers@.len(),
                k <= n,
                to_ints(current@) == net_eval(self.layers@.take(k as int), to_ints(inputs@)),
                current@.len() == width_into(*self, k as int),
                inputs@.len() == in_width(*self),
            decreases n - k,
        {
            let next = self.layers[k].propagate(&current);
            proof {
                let prefix = self.layers@.take(k + 1);
                assert(prefix.drop_last() =~= self.layers@.take(k as int));
                assert(prefix.last() == self.layers@[k as int]);
            }
            current = next;
            k = k + 1;
        }
        proof {
            assert(self.layers@.take(n as int) =~= self.layers@);
            let widths = self.layers@.map_values(|l: Layer| l.neurons@.len() as int);
            assert(net_topology(*self).last() == widths[n - 1]);
            assert(widths[n - 1] == self.layers@[n - 1].neurons@.len() as int);
            lemma_net_eval_shape(self.layers@, to_ints(inputs@));
            assert forall|i: int| 0 <= i < current@.len() implies 0 <= #[trigger] current@[i]
                <= LIMIT by {
                assert(to_ints(current@)[i] == current@[i] as int);
            }
        }
        Ok(current)
    }

    /// A fresh network for a topology, every bias and weight drawn
    /// independently and uniformly from `[-1, 1]`; `InvalidConfiguration`
    /// exactly when the topology is unusable.
    pub fn random(rng: &mut SimRng, topology: &Vec<usize>) -> (r: Result<Network, SimError>)
        ensures
            r matches Ok(net) ==> {
                &&& topology_valid(topology@)
                &&& net_wf(net)
                &&& net_topology(net) == topology@.map_values(|w: usize| w as int)
                &&& genes_in_band(net_genes(net.layers@), SCALE as int)
            },
            r matches Err(e) ==> e == SimError::InvalidConfiguration && !topology_valid(topology@),
    {
        if !check_topology(topology) {
            return Err(SimError::InvalidConfiguration);
        }
        let n = topology.len();
        let mut layers: Vec<Layer> = Vec::new();
        let mut k: usize = 1;
        while k < n
            invariant
                topology_valid(topology@),
                n == topology@.len(),
                1 <= k <= n,
                layers@.len() == k - 1,
                forall|m: int|
                    0 <= m < k - 1 ==> (#[trigger] layers@[m]).neurons@.len() == topology@[m + 1],
                forall|m: int, j: int|
                    0 <= m < k - 1 && 0 <= j < layers@[m].neurons@.len() ==> (
                    #[trigger] layers@[m].neurons@[j]).weights@.len() == topology@[m],
                forall|m: int, j: int|
                    0 <= m < k - 1 && 0 <= j < layers@[m].neurons@.len() ==> neuron_in_band(
                        #[trigger] layers@[m].neurons@[j],
                        SCALE as int,
                    ),
            decreases n - k,
        {
            layers.push(Layer::random(rng, topology[k - 1], topology[k]));
            k = k + 1;
        }
        let net = Network { layers };
        proof {
            lemma_topology_of_shaped(net, topology@);
            lemma_net_genes_band(net.layers@, SCALE as int);
        }
        Ok(net)
    }
}

/// Whether a width sequence is usable (see [`topology_valid`]).
pub fn check_topology(topology: &Vec<usize>) -> (r: bool)
    ensures
        r == topology_valid(topology@),
{
    if topology.len() < 2 {
        return false;
    }
    let mut i: usize = 0;
    while i < topology.len()
        invariant
            i <= topology@.len(),
            forall|j: int| 0 <= j < i ==> topology@[j] > 0,
        decreases topology.len() - i,
    {
        if topology[i] == 0 {
            return false;
        }
        i = i + 1;
    }
    true
}

/// One neuron's genes: its bias first, then its weights in order.
pub open spec fn neuron_genes(n: Neuron) -> Seq<i64> {
    seq![n.bias] + n.weights@
}

/// A neuron sequence's genes, neuron by neuron.
pub open spec fn neurons_genes(ns: Seq<Neuron>) -> Seq<i64>
    decreases ns.len(),
{
    if ns.len() == 0 {
        Seq::empty()
    } else {
        neurons_genes(ns.drop_last()) + neuron_genes(ns.last())
    }
}

/// The flat genome a layer stack encodes to: layer by layer, neuron by
/// neuron, bias before weights. This fixed order is the encoding contract
/// crossover and mutation treat as opaque positions.
pub open spec fn net_genes(ls: Seq<Layer>) -> Seq<i64>
    decreases ls.len(),
{
    if ls.len() == 0 {
        Seq::empty()
    } else {
        net_genes(ls.drop_last()) + neurons_genes(ls.last().neurons@)
    }
}

/// The genome length a topology demands: for each non-input layer, one
/// bias and one weight per input for each of its neurons.
pub open spec fn genome_len(t: Seq<usize>) -> int
    decreases t.len(),
{
    if t.len() <= 1 {
        0
    } else {
        genome_len(t.drop_last()) + t.last() * (t[t.len() - 2] + 1)
    }
}

/// Extending a topology prefix by one layer adds that layer's gene count.
proof fn lemma_genome_len_take_succ(t: Seq<usize>, k: int)
    requires
        1 <= k < t.len(),
    ensures
        genome_len(t.take(k + 1)) == genome_len(t.take(k)) + t[k] * (t[k - 1] + 1),
{
    assert(t.take(k + 1).drop_last() =~= t.take(k));
    assert(t.take(k + 1).last() == t[k]);
    assert(t.take(k + 1)[k - 1] == t[k - 1]);
}

/// A topology prefix never demands more genes than the whole.
proof fn lemma_genome_len_mono(t: Seq<usize>, k: int)
    requires
        1 <= k <= t.len(),
    ensures
        genome_len(t.take(k)) <= genome_len(t),
    decreases t.len() - k,
{
    if k == t.len() {
        assert(t.take(k) =~= t);
    } else {
        lemma_genome_len_take_succ(t, k);
        assert(t[k] * (t[k - 1] + 1) >= 0) by (nonlinear_arith)
            requires
                t[k] >= 0,
                t[k - 1] >= 0,
        ;
        lemma_genome_len_mono(t, k + 1);
    }
}

/// Genes of a uniform neuron sequence count one bias and `w` weights each.
proof fn lemma_neurons_genes_len(ns: Seq<Neuron>, w: int)
    requires
        forall|j: int| 0 <= j < ns.len() ==> (#[trigger] ns[j]).weights@.len() == w,
    ensures
        neurons_genes(ns).len() == ns.len() * (w + 1),
    decreases ns.len(),
{
    if ns.len() == 0 {
    } else {
        lemma_neurons_genes_len(ns.drop_last(), w);
        assert((ns.len() - 1) * (w + 1) + (w + 1) == ns.len() * (w + 1)) by (nonlinear_arith);
    }
}

/// Genes of neurons whose parameters lie in a band lie in that band.
proof fn lemma_neurons_genes_band(ns: Seq<Neuron>, b: int)
    requires
        forall|j: int| 0 <= j < ns.len() ==> neuron_in_band(#[trigger] ns[j], b),
    ensures
        genes_in_band(neurons_genes(ns), b),
    decreases ns.len(),
{
    if ns.len() == 0 {
    } else {
        lemma_neurons_genes_band(ns.drop_last(), b);
        let a = neurons_genes(ns.drop_last());
        let g = neuron_genes(ns.last());
        assert forall|i: int| 0 <= i < neurons_genes(ns).len() implies -b
            <= #[trigger] neurons_genes(ns)[i] <= b by {
            if i < a.len() {
                assert(neurons_genes(ns)[i] == a[i]);
            } else {
                assert(neurons_genes(ns)[i] == g[i - a.len()]);
                if i - a.len() > 0 {
                    assert(g[i - a.len()] == ns.last().weights@[i - a.len() - 1]);
                }
            }
        }
    }
}

/// Genes of layers whose parameters lie in a band lie in that band.
proof fn lemma_net_genes_band(ls: Seq<Layer>, b: int)
    requires
        forall|m: int, j: int|
            0 <= m < ls.len() && 0 <= j < ls[m].neurons@.len() ==> neuron_in_band(
                #[trigger] ls[m].neurons@[j],
                b,
            ),
    ensures
        genes_in_band(net_genes(ls), b),
    decreases ls.len(),
{
    if ls.len() == 0 {
    } else {
        lemma_net_genes_band(ls.drop_last(), b);
        lemma_neurons_genes_band(ls.last().neurons@, b);
        let a = net_genes(ls.drop_last());
        let g = neurons_genes(ls.last().neurons@);
        assert forall|i: int| 0 <= i < net_genes(ls).len() implies -b <= #[trigger] net_genes(
            ls,
        )[i] <= b by {
            if i < a.len() {
                assert(net_genes(ls)[i] == a[i]);
            } else {
                assert(net_genes(ls)[i] == g[i - a.len()]);
            }
        }
    }
}

/// A well-formed network's flat genome has exactly the length its
/// topology demands.
pub proof fn lemma_net_genes_len(net: Network, t: Seq<usize>)
    requires
        net_wf(net),
        net_topology(net) == t.map_values(|w: usize| w as int),
    ensures
        net_genes(net.layers@).len() == genome_len(t),
{
    assert(t.map_values(|w: usize| w as int).len() == t.len());
    assert(t.len() == net.layers@.len() + 1);
    lemma_net_genes_len_take(net, t, net.layers@.len() as int);
    assert(net.layers@.take(net.layers@.len() as int) =~= net.layers@);
    assert(t.take(net.layers@.len() as int + 1) =~= t);
}

proof fn lemma_net_genes_len_take(net: Network, t: Seq<usize>, k: int)
    requires
        net_wf(net),
        net_topology(net) == t.map_values(|w: usize| w as int),
        0 <= k <= net.layers@.len(),
    ensures
        net_genes(net.layers@.take(k)).len() == genome_len(t.take(k + 1)),
    decreases k,
{
    assert(t.len() == net_topology(net).len());
    if k == 0 {
        assert(net.layers@.take(0) =~= Seq::<Layer>::empty());
    } else {
        lemma_net_genes_len_take(net, t, k - 1);
        let prefix = net.layers@.take(k);
        assert(prefix.drop_last() =~= net.layers@.take(k - 1));
        assert(prefix.last() == net.layers@[k - 1]);
        assert(t.map_values(|w: usize| w as int)[k] == t[k] as int);
        assert(t.map_values(|w: usize| w as int)[k - 1] == t[k - 1] as int);
        assert(net.layers@[k - 1].neurons@.len() == t[k] as int);
        assert(width_into(net, k - 1) == t[k - 1] as int);
        assert(layer_uniform(net.layers@[k - 1], width_into(net, k - 1)));
        lemma_neurons_genes_len(net.layers@[k - 1].neurons@, t[k - 1] as int);
        lemma_genome_len_take_succ(t, k);
    }
}

impl Network {
    /// Decode a flat genome against a topology: the genes are consumed
    /// left to right, layer by layer, neuron by neuron, one bias then one
    /// weight per input. `InvalidConfiguration` exactly when the topology
    /// is unusable; otherwise `ShapeMismatch` exactly when the genome
    /// length is not what the topology demands; otherwise the network
    /// whose flat genome is exactly the given one.
    pub fn from_weights(topology: &Vec<usize>, chromosome: &Chromosome) -> (r: Result<
        Network,
        SimError,
    >)
        ensures
            r matches Ok(net) ==> {
                &&& topology_valid(topology@)
                &&& chromosome@.len() == genome_len(topology@)
                &&& net_wf(net)
                &&& net_topology(net) == topology@.map_values(|w: usize| w as int)
                &&& net_genes(net.layers@) == chromosome@
            },
            r matches Err(e) ==> if !topology_valid(topology@) {
                e == SimError::InvalidConfiguration
            } else {
                e == SimError::ShapeMismatch && chromosome@.len() != genome_len(topology@)
            },
    {
        if !check_topology(topology) {
            return Err(SimError::InvalidConfiguration);
        }
        let genes = chromosome.as_genes();
        let total = genes.len();
        let n = topology.len();
        let mut layers: Vec<Layer> = Vec::new();
        let mut pos: usize = 0;
        let mut k: usize = 1;
        while k < n
            invariant
                topology_valid(topology@),
                n == topology@.len(),
                1 <= k <= n,
                genes@ == chromosome@,
                total == genes@.len(),
                layers@.len() == k - 1,
                forall|m: int|
                    0 <= m < k - 1 ==> (#[trigger] layers@[m]).neurons@.len() == topology@[m + 1],
                forall|m: int, j: int|
                    0 <= m < k - 1 && 0 <= j < layers@[m].neurons@.len() ==> (
                    #[trigger] layers@[m].neurons@[j]).weights@.len() == topology@[m],
                pos as int == genome_len(topology@.take(k as int)),
                pos <= total,
                net_genes(layers@) == genes@.subrange(0, pos as int),
            decreases n - k,
        {
            let w = topology[k - 1];
            let cnt = topology[k];
            let ghost base = genome_len(topology@.take(k as int));
            let mut neurons: Vec<Neuron> = Vec::new();
            let mut j: usize = 0;
            while j < cnt
                invariant
                    topology_valid(topology@),
                    n == topology@.len(),
                    1 <= k < n,
                    genes@ == chromosome@,
                    total == genes@.len(),
                    w == topology@[k - 1],
                    cnt == topology@[k as int],
                    base == genome_len(topology@.take(k as int)),
                    j == neurons@.len() <= cnt,
                    forall|m: int| 0 <= m < j ==> (#[trigger] neurons@[m]).weights@.len() == w,
                    pos as int == base + j * (w + 1),
                    pos <= total,
                    net_genes(layers@) + neurons_genes(neurons@) == genes@.subrange(
                        0,
                        pos as int,
                    ),
                decreases cnt - j,
            {
                if w >= total - pos {
                    proof {
                        lemma_genome_len_take_succ(topology@, k as int);
                        assert((j + 1) * (w + 1) <= cnt * (w + 1)) by (nonlinear_arith)
                            requires
                                j + 1 <= cnt,
                                w >= 0,
                        ;
                        assert(j * (w + 1) + (w + 1) == (j + 1) * (w + 1)) by (nonlinear_arith);
                        lemma_genome_len_mono(topology@, k + 1);
                        assert(genome_len(topology@) >= pos + w + 1 > total);
                    }
                    return Err(SimError::ShapeMismatch);
                }
                let bias = genes[pos];
                let mut weights: Vec<i64> = Vec::new();
                let mut m: usize = 0;
                while m < w
                    invariant
                        total == genes@.len(),
                        pos + w + 1 <= total,
                        m == weights@.len() <= w,
                        weights@ == genes@.subrange(pos + 1, pos + 1 + m),
                    decreases w - m,
                {
                    weights.push(genes[pos + 1 + m]);
                    proof {
                        assert(weights@ =~= genes@.subrange(pos + 1, pos + 1 + m + 1));
                    }
                    m = m + 1;
                }
                let neuron = Neuron { bias, weights };
                proof {
                    assert(neuron_genes(neuron) =~= genes@.subrange(
                        pos as int,
                        pos + w + 1,
                    ));
                    assert(neurons@.push(neuron).drop_last() =~= neurons@);
                    assert(neurons@.push(neuron).last() == neuron);
                    assert(neurons_genes(neurons@.push(neuron)) == neurons_genes(neurons@)
                        + neuron_genes(neuron));
                    assert((net_genes(layers@) + neurons_genes(neurons@)) + neuron_genes(neuron)
                        =~= genes@.subrange(0, pos + w + 1));
                    assert(net_genes(layers@) + (neurons_genes(neurons@) + neuron_genes(neuron))
                        =~= (net_genes(layers@) + neurons_genes(neurons@)) + neuron_genes(neuron));
                    assert(net_genes(layers@) + neurons_genes(neurons@.push(neuron))
                        =~= genes@.subrange(0, pos + w + 1));
                    assert(j * (w + 1) + (w + 1) == (j + 1) * (w + 1)) by (nonlinear_arith);
                }
                neurons.push(neuron);
                pos = pos + w + 1;
                j = j + 1;
            }
            let layer = Layer { neurons };
            proof {
                assert(layers@.push(layer).drop_last() =~= layers@);
                assert(layers@.push(layer).last() == layer);
                assert(net_genes(layers@.push(layer)) =~= genes@.subrange(0, pos as int));
                lemma_genome_len_take_succ(topology@, k as int);
            }
            layers.push(layer);
            k = k + 1;
        }
        proof {
            assert(topology@.take(n as int) =~= topology@);
        }
        if pos != total {
            return Err(SimError::ShapeMismatch);
        }
        let net = Network { layers };
        proof {
            lemma_topology_of_shaped(net, topology@);
            assert(genes@.subrange(0, total as int) =~= genes@);
        }
        Ok(net)
    }

    /// Encode the network's parameters back into a flat genome, in the
    /// same fixed order decoding consumes: the exact inverse of
    /// [`Network::from_weights`] for this network's topology.
    pub fn to_chromosome(&self) -> (r: Chromosome)
        ensures
            r@ == net_genes(self.layers@),
    {
        let n = self.layers.len();
        let mut genes: Vec<i64> = Vec::new();
        let mut k: usize = 0;
        while k < n
            invariant
                n == self.layers@.len(),
                k <= n,
                genes@ == net_genes(self.layers@.take(k as int)),
            decreases n - k,
        {
            let cnt = self.layers[k].neurons.len();
            let mut j: usize = 0;
            while j < cnt
                invariant
                    n == self.layers@.len(),
                    k < n,
                    cnt == self.layers@[k as int].neurons@.len(),
                    j <= cnt,
                    genes@ == net_genes(self.layers@.take(k as int)) + neurons_genes(
                        self.layers@[k as int].neurons@.take(j as int),
                    ),
                decreases cnt - j,
            {
                let ghost before = genes@;
                genes.push(self.layers[k].neurons[j].bias);
                let w = self.layers[k].neurons[j].weights.len();
                let mut m: usize = 0;
                while m < w
                    invariant
                        n == self.layers@.len(),
                        k < n,
                        j < self.layers@[k as int].neurons@.len(),
                        w == self.layers@[k as int].neurons@[j as int].weights@.len(),
                        m <= w,
                        genes@ == before + seq![
                            self.layers@[k as int].neurons@[j as int].bias,
                        ] + self.layers@[k as int].neurons@[j as int].weights@.take(m as int),
                    decreases w - m,
                {
                    genes.push(self.layers[k].neurons[j].weights[m]);
                    proof {
                        let nr = self.layers@[k as int].neurons@[j as int];
                        assert(nr.weights@.take(m + 1) =~= nr.weights@.take(m as int).push(
                            nr.weights@[m as int],
                        ));
                        assert(before + seq![nr.bias] + nr.weights@.take(m + 1) =~= (before
                            + seq![nr.bias] + nr.weights@.take(m as int)).push(
                            nr.weights@[m as int],
                        ));
                    }
                    m = m + 1;
                }
                proof {
                    let ns = self.layers@[k as int].neurons@;
                    assert(ns[j as int].weights@.take(w as int) =~= ns[j as int].weights@);
                    assert(ns.take(j + 1).drop_last() =~= ns.take(j as int));
                    assert(ns.take(j + 1).last() == ns[j as int]);
                    assert(genes@ =~= net_genes(self.layers@.take(k as int)) + neurons_genes(
                        ns.take(j + 1),
                    ));
                }
                j = j + 1;
            }
            proof {
                let ls = self.layers@;
                assert(ls[k as int].neurons@.take(cnt as int) =~= ls[k as int].neurons@);
                assert(ls.take(k + 1).drop_last() =~= ls.take(k as int));
                assert(ls.take(k + 1).last() == ls[k as int]);
            }
            k = k + 1;
        }
        proof {
            assert(self.layers@.take(n as int) =~= self.layers@);
        }
        Chromosome::from_genes(genes)
    }
}

/// A network whose layers follow a width sequence is well formed and
/// realises that sequence as its topology.
proof fn lemma_topology_of_shaped(net: Network, t: Seq<usize>)
    requires
        t.len() >= 2,
        forall|i: int| 0 <= i < t.len() ==> t[i] > 0,
        net.layers@.len() == t.len() - 1,
        forall|m: int| 0 <= m < net.layers@.len() ==> (#[trigger] net.layers@[m]).neurons@.len()
            == t[m + 1],
        forall|m: int, j: int|
            0 <= m < net.layers@.len() && 0 <= j < net.layers@[m].neurons@.len() ==> (
            #[trigger] net.layers@[m].neurons@[j]).weights@.len() == t[m],
    ensures
        net_wf(net),
        net_topology(net) == t.map_values(|w: usize| w as int),
{
    assert(forall|k: int|
        0 <= k < net.layers@.len() ==> layer_uniform(#[trigger] net.layers@[k], width_into(net, k)));
    assert(net_topology(net) =~= t.map_values(|w: usize| w as int));
}

} // verus!

//! The network: an arena of layers of nodes, addressed by layer and index.
//!
//! Evaluation is demand-driven and memoizing: reading a node's value fills
//! the memo caches of every node it pulled on, without changing any value
//! an observer could read. The specification model of this is
//! [`Network::eval_value`], the value a node shows given the current caches
//! and parameters, together with the refinement relation
//! [`Network::refines`]: evaluation only moves a network to a refinement of
//! itself, and refinement preserves every `eval_value`.

use vstd::prelude::*;
use crate::node::{copy_scalars, zero_scalars, AnyNode, Node, StartNode};
use crate::sigmoid::{Arith, Sigmoid};
use crate::training_data::{TrainingData, TrainingExample};
use crate::util::{error_deriv, error_f, TryIntoRef, TryIntoRefMut};

verus! {

/// One layer of the arena.
pub type LayerT<S> = Vec<AnyNode<S>>;

/// All layers, in depth order; layer 0 is the input layer.
pub type NetworkLayersT<S> = Vec<LayerT<S>>;

/// Construction parameters: the node count per layer and the positive factor
/// scaling every applied gradient step.
#[derive(Debug, Clone, PartialEq)]
pub struct NetworkConfig<S> {
    pub learning_rate: S,
    pub shape: Vec<usize>,
}

impl<S: Arith> Default for NetworkConfig<S> {
    /// The default configuration: unit learning rate and a shape still to be
    /// filled in.
    fn default() -> (c: NetworkConfig<S>)
        ensures
            c.learning_rate == S::one_spec(),
            c.shape@.len() == 0,
    {
        NetworkConfig { learning_rate: S::one(), shape: Vec::new() }
    }
}

/// The network owns every node; a node is addressed only by its layer index
/// and its index within the layer, never by reference, so the backward sweep
/// is an indexed lookup rather than a pointer cycle.
#[derive(Debug)]
pub struct Network<S> {
    pub layers: NetworkLayersT<S>,
    pub config: NetworkConfig<S>,
}

impl<S: Arith> Network<S> {
    /// The node at the given address.
    pub open spec fn node_at(self, li: int, ni: int) -> AnyNode<S> {
        self.layers@[li]@[ni]
    }

    /// The compute node at the given address.
    pub open spec fn main_at(self, li: int, ni: int) -> Node<S> {
        self.node_at(li, ni).main_node()
    }

    pub open spec fn n_layers_spec(self) -> int {
        self.layers@.len() as int
    }

    /// The width of a layer.
    pub open spec fn width(self, li: int) -> int {
        self.layers@[li]@.len() as int
    }

    /// Whether an address names a node.
    pub open spec fn in_range(self, li: int, ni: int) -> bool {
        0 <= li < self.n_layers_spec() && 0 <= ni < self.width(li)
    }

    /// Structural well-formedness: the layers realize the shape, layer 0
    /// holds input nodes and every other layer compute nodes, each compute
    /// node knows its own layer, and its weight vector and its gradient
    /// accumulator are as long as the previous layer.
    pub open spec fn wf(self) -> bool {
        &&& self.layers@.len() == self.config.shape@.len()
        &&& self.layers@.len() >= 2
        &&& forall|l: int|
            0 <= l < self.n_layers_spec() ==> #[trigger] self.width(l) == self.config.shape@[l]
        &&& forall|n: int| 0 <= n < self.width(0) ==> #[trigger] self.node_at(0, n) is Start
        &&& forall|l: int, n: int|
            1 <= l < self.n_layers_spec() && 0 <= n < self.width(l) ==> {
                &&& #[trigger] self.node_at(l, n) is Main
                &&& self.main_at(l, n).layer == l
                &&& self.main_at(l, n).inp_w@.len() == self.width(l - 1)
                &&& self.main_at(l, n).wf()
            }
    }

    pub fn n_layers(&self) -> (r: usize)
        ensures
            r == self.n_layers_spec(),
    {
        self.layers.len()
    }
}

// The evaluation model and the refinement relation.
impl<S: Sigmoid> Network<S> {
    /// The first `k` terms of the weighted sum the compute node at
    /// `(li, ni)` computes over the previous layer, in index order, starting
    /// from zero, as demand-driven evaluation would produce them under the
    /// current caches.
    pub open spec fn eval_wsum(self, li: int, ni: int, k: int) -> S
        decreases li, 0int, k,
    {
        if k <= 0 || li < 1 {
            S::zero_spec()
        } else {
            self.eval_wsum(li, ni, k - 1).add_spec(
                self.eval_value(li - 1, k - 1).mul_spec(self.main_at(li, ni).inp_w@[k - 1]),
            )
        }
    }

    /// The pre-activation sum the compute node at `(li, ni)` shows: the
    /// cached sum when one is set, else the weighted sum over the previous
    /// layer plus the bias.
    pub open spec fn eval_sum(self, li: int, ni: int) -> S
        decreases li, 1int, 0int,
    {
        match self.main_at(li, ni).sum_cache {
            Some(s) => s,
            None => self.eval_wsum(li, ni, self.main_at(li, ni).inp_w@.len() as int).add_spec(
                self.main_at(li, ni).bias,
            ),
        }
    }

    /// The value the node at `(li, ni)` shows: an input node its stored
    /// value, a compute node its cached result when one is set, else the
    /// activation of the sum it shows.
    pub open spec fn eval_value(self, li: int, ni: int) -> S
        decreases li, 2int, 0int,
    {
        if li < 1 {
            self.node_at(0, ni).start_node().value
        } else {
            match self.main_at(li, ni).result_cache {
                Some(v) => v,
                None => self.eval_sum(li, ni).sigmoid_spec(),
            }
        }
    }

    /// Everything evaluation reads apart from the caches is equal: the
    /// dimensions, the input values, and every compute node's parameters.
    /// The gradient state and the configuration are not constrained.
    pub open spec fn same_eval_basis(self, b: Network<S>) -> bool {
        &&& b.layers@.len() == self.layers@.len()
        &&& forall|l: int| 0 <= l < self.n_layers_spec() ==> #[trigger] b.width(l) == self.width(l)
        &&& forall|n: int|
            0 <= n < self.width(0) ==> (#[trigger] b.node_at(0, n) is Start <==> self.node_at(
                0,
                n,
            ) is Start) && (self.node_at(0, n) is Start ==> b.node_at(0, n).start_node().value
                == self.node_at(0, n).start_node().value)
        &&& forall|l: int, n: int|
            1 <= l < self.n_layers_spec() && 0 <= n < self.width(l) ==> (#[trigger] b.node_at(
                l,
                n,
            ) is Main <==> self.node_at(l, n) is Main) && (self.node_at(l, n) is Main
                ==> self.main_at(l, n).same_params(b.main_at(l, n)))
    }

    /// The caches of the compute node at `(li, ni)` in `b` against those in
    /// `self`: a set cache is kept as it is, and an unset one is either left
    /// unset or filled with exactly the value `self` shows for it.
    pub open spec fn cache_refined(self, b: Network<S>, li: int, ni: int) -> bool {
        let x = self.main_at(li, ni);
        let y = b.main_at(li, ni);
        &&& (x.sum_cache is Some ==> y.sum_cache == x.sum_cache)
        &&& (x.result_cache is Some ==> y.result_cache == x.result_cache)
        &&& (x.sum_cache is None && y.sum_cache is Some ==> y.sum_cache == Some(
            self.eval_sum(li, ni),
        ))
        &&& (x.result_cache is None && y.result_cache is Some ==> y.result_cache == Some(
            self.eval_value(li, ni),
        ))
    }

    /// All caches refined: see [`Network::cache_refined`].
    pub open spec fn caches_refined(self, b: Network<S>) -> bool {
        forall|l: int, n: int|
            1 <= l < self.n_layers_spec() && 0 <= n < self.width(l) ==> #[trigger] self.cache_refined(
                b,
                l,
                n,
            )
    }

    /// `b` is `self` after some amount of demand-driven evaluation: the
    /// evaluation basis is untouched and every cache is at most filled in
    /// with the value it stood for. Refinement preserves every value a node
    /// shows ([`lemma_refines_eval`]).
    pub open spec fn refines(self, b: Network<S>) -> bool {
        &&& self.same_eval_basis(b)
        &&& self.caches_refined(b)
    }

    /// No compute node holds a cached value.
    pub open spec fn caches_empty(self) -> bool {
        forall|l: int, n: int|
            1 <= l < self.n_layers_spec() && 0 <= n < self.width(l) ==> (#[trigger] self.main_at(
                l,
                n,
            )).sum_cache is None && self.main_at(l, n).result_cache is None
    }

    /// The gradient state of every compute node is equal in `b`.
    pub open spec fn same_nudge_state(self, b: Network<S>) -> bool {
        forall|l: int, n: int|
            1 <= l < self.n_layers_spec() && 0 <= n < self.width(l) && self.node_at(l, n) is Main
                ==> (#[trigger] self.main_at(l, n)).same_nudges(b.main_at(l, n))
    }
}

/// Refinement preserves the value and the sum every node shows.
pub proof fn lemma_refines_eval<S: Sigmoid>(a: Network<S>, b: Network<S>, li: int, ni: int)
    requires
        a.wf(),
        a.refines(b),
        a.in_range(li, ni),
    ensures
        b.eval_value(li, ni) == a.eval_value(li, ni),
        li >= 1 ==> b.eval_sum(li, ni) == a.eval_sum(li, ni),
    decreases li, 2int, 0int,
{
    if li >= 1 {
        lemma_refines_wsum(a, b, li, ni, a.main_at(li, ni).inp_w@.len() as int);
        assert(a.cache_refined(b, li, ni));
        assert(a.main_at(li, ni).same_params(b.main_at(li, ni)));
    }
}

/// Refinement preserves every partial weighted sum.
pub proof fn lemma_refines_wsum<S: Sigmoid>(
    a: Network<S>,
    b: Network<S>,
    li: int,
    ni: int,
    k: int,
)
    requires
        a.wf(),
        a.refines(b),
        1 <= li < a.n_layers_spec(),
        0 <= ni < a.width(li),
        k <= a.main_at(li, ni).inp_w@.len(),
    ensures
        b.eval_wsum(li, ni, k) == a.eval_wsum(li, ni, k),
    decreases li, 0int, k,
{
    if k > 0 {
        lemma_refines_wsum(a, b, li, ni, k - 1);
        lemma_refines_eval(a, b, li - 1, k - 1);
        assert(a.main_at(li, ni).same_params(b.main_at(li, ni)));
    }
}

/// Refinement preserves the value and the sum every node shows, stated over
/// all addresses at once.
pub proof fn lemma_refines_eval_all<S: Sigmoid>(a: Network<S>, b: Network<S>)
    requires
        a.wf(),
        a.refines(b),
    ensures
        forall|l: int, n: int|
            a.in_range(l, n) ==> #[trigger] b.eval_value(l, n) == a.eval_value(l, n),
        forall|l: int, n: int|
            1 <= l < a.n_layers_spec() && 0 <= n < a.width(l) ==> #[trigger] b.eval_sum(l, n)
                == a.eval_sum(l, n),
{
    assert forall|l: int, n: int| a.in_range(l, n) implies #[trigger] b.eval_value(l, n)
        == a.eval_value(l, n) by {
        lemma_refines_eval(a, b, l, n);
    }
    assert forall|l: int, n: int|
        1 <= l < a.n_layers_spec() && 0 <= n < a.width(l) implies #[trigger] b.eval_sum(l, n)
        == a.eval_sum(l, n) by {
        lemma_refines_eval(a, b, l, n);
    }
}

/// Well-formedness only reads the evaluation basis, so refinement keeps it.
pub proof fn lemma_same_basis_wf<S: Sigmoid>(a: Network<S>, b: Network<S>)
    requires
        a.wf(),
        a.same_eval_basis(b),
        b.layers@.len() == b.config.shape@.len(),
        forall|l: int| 0 <= l < b.n_layers_spec() ==> #[trigger] b.width(l) == b.config.shape@[l],
        forall|l: int, n: int|
            1 <= l < b.n_layers_spec() && 0 <= n < b.width(l) && b.node_at(l, n) is Main ==> (
            #[trigger] b.main_at(l, n)).layer == a.main_at(l, n).layer && b.main_at(l, n).wf(),
    ensures
        b.wf(),
{
}

/// Refinement composes: evaluating twice is one longer evaluation.
pub proof fn lemma_refines_trans<S: Sigmoid>(a: Network<S>, b: Network<S>, c: Network<S>)
    requires
        a.wf(),
        a.refines(b),
        b.refines(c),
    ensures
        a.refines(c),
{
    lemma_refines_eval_all(a, b);
    assert forall|l: int, n: int|
        1 <= l < a.n_layers_spec() && 0 <= n < a.width(l) implies #[trigger] a.cache_refined(
        c,
        l,
        n,
    ) by {
        assert(a.cache_refined(b, l, n));
        assert(b.cache_refined(c, l, n));
    }
}

/// A network refines itself: evaluation that touched nothing.
pub proof fn lemma_refines_refl<S: Sigmoid>(a: Network<S>)
    ensures
        a.refines(a),
{
    assert forall|l: int, n: int|
        1 <= l < a.n_layers_spec() && 0 <= n < a.width(l) implies #[trigger] a.cache_refined(
        a,
        l,
        n,
    ) by {}
}


// Construction.
impl<S: Sigmoid> Network<S> {
    /// The state every node is constructed in: no cached values, zero
    /// parameters, zero gradient state, zero inputs.
    pub open spec fn freshly_built(self) -> bool {
        &&& self.caches_empty()
        &&& forall|n: int|
            0 <= n < self.width(0) ==> #[trigger] self.node_at(0, n).start_node().value
                == S::zero_spec()
        &&& forall|l: int, n: int|
            1 <= l < self.n_layers_spec() && 0 <= n < self.width(l) ==> {
                let nd = #[trigger] self.main_at(l, n);
                &&& nd.bias == S::zero_spec()
                &&& (forall|i: int| 0 <= i < nd.inp_w@.len() ==> nd.inp_w@[i] == S::zero_spec())
                &&& nd.nudges_clear()
            }
    }

    /// Builds the layers the configuration's shape asks for: input nodes in
    /// layer 0, compute nodes with zeroed parameters in every later layer.
    /// A network needs at least its input layer and an output layer.
    pub fn with_config(config: &NetworkConfig<S>) -> (nw: Network<S>)
        requires
            config.shape@.len() >= 2,
        ensures
            nw.wf(),
            nw.config.learning_rate == config.learning_rate,
            nw.config.shape@ == config.shape@,
            nw.freshly_built(),
    {
        let mut layers: Vec<LayerT<S>> = Vec::new();
        let mut i: usize = 0;
        while i < config.shape.len()
            invariant
                i <= config.shape@.len(),
                layers@.len() == i,
                forall|l: int|
                    0 <= l < i ==> (#[trigger] layers@[l])@.len() == config.shape@[l],
                forall|n: int|
                    i > 0 && 0 <= n < layers@[0]@.len() ==> (#[trigger] layers@[0]@[n]) is Start
                        && layers@[0]@[n].start_node().value == S::zero_spec(),
                forall|l: int, n: int|
                    1 <= l < i && 0 <= n < layers@[l]@.len() ==> {
                        let nd = (#[trigger] layers@[l]@[n]).main_node();
                        &&& layers@[l]@[n] is Main
                        &&& nd.layer == l
                        &&& nd.inp_w@.len() == config.shape@[l - 1]
                        &&& nd.wf()
                        &&& nd.bias == S::zero_spec()
                        &&& (forall|w: int|
                            0 <= w < nd.inp_w@.len() ==> nd.inp_w@[w] == S::zero_spec())
                        &&& nd.sum_cache is None
                        &&& nd.result_cache is None
                        &&& nd.nudges_clear()
                    },
            decreases config.shape@.len() - i,
        {
            let width = config.shape[i];
            let mut layer: LayerT<S> = Vec::new();
            if i == 0 {
                while layer.len() < width
                    invariant
                        layer@.len() <= width,
                        forall|n: int|
                            0 <= n < layer@.len() ==> (#[trigger] layer@[n]) is Start
                                && layer@[n].start_node().value == S::zero_spec(),
                    decreases width - layer@.len(),
                {
                    layer.push(AnyNode::Start(StartNode::new(S::zero())));
                }
            } else {
                let zeroes = zero_scalars::<S>(config.shape[i - 1]);
                while layer.len() < width
                    invariant
                        layer@.len() <= width,
                        zeroes@.len() == config.shape@[i as int - 1],
                        forall|w: int| 0 <= w < zeroes@.len() ==> zeroes@[w] == S::zero_spec(),
                        1 <= i < config.shape@.len(),
                        forall|n: int|
                            0 <= n < layer@.len() ==> {
                                let nd = (#[trigger] layer@[n]).main_node();
                                &&& layer@[n] is Main
                                &&& nd.layer == i
                                &&& nd.inp_w@.len() == config.shape@[i as int - 1]
                                &&& nd.wf()
                                &&& nd.bias == S::zero_spec()
                                &&& (forall|w: int|
                                    0 <= w < nd.inp_w@.len() ==> nd.inp_w@[w] == S::zero_spec())
                                &&& nd.sum_cache is None
                                &&& nd.result_cache is None
                                &&& nd.nudges_clear()
                            },
                    decreases width - layer@.len(),
                {
                    layer.push(AnyNode::Main(Node::new(S::zero(), &zeroes, i)));
                }
            }
            layers.push(layer);
            i += 1;
        }
        Network {
            layers,
            config: NetworkConfig {
                learning_rate: config.learning_rate,
                shape: copy_scalars(&config.shape),
            },
        }
    }

    /// Builds from a bare shape, with the default learning rate.
    pub fn new(shape: &Vec<usize>) -> (nw: Network<S>)
        requires
            shape@.len() >= 2,
        ensures
            nw.wf(),
            nw.config.learning_rate == S::one_spec(),
            nw.config.shape@ == shape@,
            nw.freshly_built(),
    {
        Self::with_config(&NetworkConfig { learning_rate: S::one(), shape: copy_scalars(shape) })
    }
}

// Indexing.
impl<S: Sigmoid> Network<S> {
    #[inline]
    pub fn layers_ref(&self) -> (r: &NetworkLayersT<S>)
        ensures
            *r == self.layers,
    {
        &self.layers
    }

    #[inline]
    pub fn layers_mut(&mut self) -> (r: &mut NetworkLayersT<S>)
        ensures
            *r == old(self).layers,
            final(self).layers == *final(r),
            final(self).config == old(self).config,
    {
        &mut self.layers
    }

    pub fn get_layer(&self, i: usize) -> (r: &LayerT<S>)
        requires
            0 <= i < self.n_layers_spec(),
        ensures
            *r == self.layers@[i as int],
    {
        &self.layers[i]
    }

    pub fn get_node(&self, li: usize, ni: usize) -> (r: &AnyNode<S>)
        requires
            self.in_range(li as int, ni as int),
        ensures
            *r == self.node_at(li as int, ni as int),
    {
        &self.layers[li][ni]
    }

    pub fn get_node_mut(&mut self, li: usize, ni: usize) -> (r: &mut AnyNode<S>)
        requires
            old(self).in_range(li as int, ni as int),
        ensures
            *r == old(self).node_at(li as int, ni as int),
            final(self).config == old(self).config,
            final(self).layers@.len() == old(self).layers@.len(),
            forall|l: int|
                0 <= l < old(self).n_layers_spec() && l != li ==> #[trigger] final(self).layers@[l]
                    == old(self).layers@[l],
            final(self).width(li as int) == old(self).width(li as int),
            forall|n: int|
                0 <= n < old(self).width(li as int) && n != ni ==> #[trigger] final(self).node_at(
                    li as int,
                    n,
                ) == old(self).node_at(li as int, n),
            forall|l2: int|
                0 <= l2 < old(self).n_layers_spec() ==> #[trigger] final(self).width(l2) == old(
                    self,
                ).width(l2),
            forall|l2: int, n2: int|
                old(self).in_range(l2, n2) && (l2 != li || n2 != ni) ==> #[trigger] final(self).node_at(l2, n2)
                    == old(self).node_at(l2, n2),
            final(self).node_at(li as int, ni as int) == *final(r),
    {
        &mut self.layers[li][ni]
    }

    /// The input node at index `ni` of layer 0.
    pub fn get_start_node(&self, ni: usize) -> (r: &StartNode<S>)
        requires
            self.n_layers_spec() >= 1,
            0 <= ni < self.width(0),
            self.node_at(0, ni as int) is Start,
        ensures
            *r == self.node_at(0, ni as int).start_node(),
    {
        match &self.layers[0][ni] {
            AnyNode::Start(n) => n,
            AnyNode::Main(_) => vstd::pervasive::unreached(),
        }
    }

    pub fn get_start_node_mut(&mut self, ni: usize) -> (r: &mut StartNode<S>)
        requires
            old(self).n_layers_spec() >= 1,
            0 <= ni < old(self).width(0),
            old(self).node_at(0, ni as int) is Start,
        ensures
            *r == old(self).node_at(0, ni as int).start_node(),
            final(self).config == old(self).config,
            final(self).layers@.len() == old(self).layers@.len(),
            forall|l: int|
                1 <= l < old(self).n_layers_spec() ==> #[trigger] final(self).layers@[l] == old(
                    self,
                ).layers@[l],
            final(self).width(0) == old(self).width(0),
            forall|n: int|
                0 <= n < old(self).width(0) && n != ni ==> #[trigger] final(self).node_at(0, n)
                    == old(self).node_at(0, n),
            forall|l2: int|
                0 <= l2 < old(self).n_layers_spec() ==> #[trigger] final(self).width(l2) == old(
                    self,
                ).width(l2),
            forall|l2: int, n2: int|
                old(self).in_range(l2, n2) && (l2 != 0 || n2 != ni) ==> #[trigger] final(self).node_at(l2, n2)
                    == old(self).node_at(l2, n2),
            final(self).node_at(0, ni as int) == AnyNode::Start(*final(r)),
    {
        match &mut self.layers[0][ni] {
            AnyNode::Start(n) => n,
            AnyNode::Main(_) => vstd::pervasive::unreached(),
        }
    }

    /// The compute node at `(li, ni)`; layer 0 holds none.
    pub fn get_main_node(&self, li: usize, ni: usize) -> (r: &Node<S>)
        requires
            li >= 1,
            self.in_range(li as int, ni as int),
            self.node_at(li as int, ni as int) is Main,
        ensures
            *r == self.main_at(li as int, ni as int),
    {
        match &self.layers[li][ni] {
            AnyNode::Main(n) => n,
            AnyNode::Start(_) => vstd::pervasive::unreached(),
        }
    }

    pub fn get_main_node_mut(&mut self, li: usize, ni: usize) -> (r: &mut Node<S>)
        requires
            li >= 1,
            old(self).in_range(li as int, ni as int),
            old(self).node_at(li as int, ni as int) is Main,
        ensures
            *r == old(self).main_at(li as int, ni as int),
            final(self).config == old(self).config,
            final(self).layers@.len() == old(self).layers@.len(),
            forall|l: int|
                0 <= l < old(self).n_layers_spec() && l != li ==> #[trigger] final(self).layers@[l]
                    == old(self).layers@[l],
            final(self).width(li as int) == old(self).width(li as int),
            forall|n: int|
                0 <= n < old(self).width(li as int) && n != ni ==> #[trigger] final(self).node_at(
                    li as int,
                    n,
                ) == old(self).node_at(li as int, n),
            forall|l2: int|
                0 <= l2 < old(self).n_layers_spec() ==> #[trigger] final(self).width(l2) == old(
                    self,
                ).width(l2),
            forall|l2: int, n2: int|
                old(self).in_range(l2, n2) && (l2 != li || n2 != ni) ==> #[trigger] final(self).node_at(l2, n2)
                    == old(self).node_at(l2, n2),
            final(self).node_at(li as int, ni as int) == AnyNode::Main(*final(r)),
    {
        match &mut self.layers[li][ni] {
            AnyNode::Main(n) => n,
            AnyNode::Start(_) => vstd::pervasive::unreached(),
        }
    }

    /// The node at `(li, ni)` seen as the case `T`, `None` when it is of the
    /// other kind.
    pub fn get_node_as<T>(&self, li: usize, ni: usize) -> (r: Option<&T>) where
        AnyNode<S>: TryIntoRef<T>,

        requires
            self.in_range(li as int, ni as int),
        ensures
            r is Some <==> TryIntoRef::<T>::is_case(&self.node_at(li as int, ni as int)),
            r matches Some(x) ==> *x == TryIntoRef::<T>::as_case(
                &self.node_at(li as int, ni as int),
            ),
    {
        self.get_node(li, ni).try_into_ref()
    }

    pub fn get_node_as_mut<T>(&mut self, li: usize, ni: usize) -> (r: Option<&mut T>) where
        AnyNode<S>: TryIntoRefMut<T>,

        requires
            old(self).in_range(li as int, ni as int),
        ensures
            r is Some <==> TryIntoRefMut::<T>::is_case_mut(
                &old(self).node_at(li as int, ni as int),
            ),
    {
        self.get_node_mut(li, ni).try_into_ref_mut()
    }

    #[inline]
    pub fn last_layer(&self) -> (r: &LayerT<S>)
        requires
            self.n_layers_spec() >= 1,
        ensures
            *r == self.layers@[self.n_layers_spec() - 1],
    {
        &self.layers[self.layers.len() - 1]
    }
}


// Inputs and cache control.
impl<S: Sigmoid> Network<S> {
    /// Overwrites one input node's value. Compute caches are not touched:
    /// invalidating them before the next read is the caller's job.
    pub fn set_input(&mut self, i: usize, value: S)
        requires
            old(self).n_layers_spec() >= 1,
            0 <= i < old(self).width(0),
            old(self).node_at(0, i as int) is Start,
        ensures
            final(self).config == old(self).config,
            final(self).layers@.len() == old(self).layers@.len(),
            forall|l: int|
                1 <= l < old(self).n_layers_spec() ==> #[trigger] final(self).layers@[l] == old(
                    self,
                ).layers@[l],
            final(self).width(0) == old(self).width(0),
            forall|n: int|
                0 <= n < old(self).width(0) && n != i ==> #[trigger] final(self).node_at(0, n)
                    == old(self).node_at(0, n),
            final(self).node_at(0, i as int) == (AnyNode::Start(StartNode { value })),
    {
        self.get_start_node_mut(i).set_value(value)
    }

    /// Overwrites every input node's value, in index order. Compute caches
    /// are not touched.
    #[verifier::loop_isolation(false)]
    pub fn set_inputs(&mut self, inputs: &Vec<S>)
        requires
            old(self).wf(),
            inputs@.len() == old(self).width(0),
        ensures
            final(self).wf(),
            final(self).config == old(self).config,
            final(self).layers@.len() == old(self).layers@.len(),
            forall|l: int|
                1 <= l < old(self).n_layers_spec() ==> #[trigger] final(self).layers@[l] == old(
                    self,
                ).layers@[l],
            final(self).width(0) == old(self).width(0),
            forall|n: int|
                0 <= n < old(self).width(0) ==> #[trigger] final(self).node_at(0, n) == (
                AnyNode::Start(StartNode { value: inputs@[n] })),
    {
        let mut i: usize = 0;
        while i < inputs.len()
            invariant
                i <= inputs@.len(),
                self.config == old(self).config,
                self.layers@.len() == old(self).layers@.len(),
                forall|l: int|
                    1 <= l < old(self).n_layers_spec() ==> #[trigger] self.layers@[l] == old(
                        self,
                    ).layers@[l],
                self.width(0) == old(self).width(0),
                forall|n: int|
                    i <= n < old(self).width(0) ==> #[trigger] self.node_at(0, n) == old(
                        self,
                    ).node_at(0, n),
                forall|n: int|
                    0 <= n < i ==> #[trigger] self.node_at(0, n) == (AnyNode::Start(
                        StartNode { value: inputs@[n] },
                    )),
            decreases inputs@.len() - i,
        {
            self.set_input(i, inputs[i]);
            i += 1;
        }
        proof {
            assert forall|l: int| 0 <= l < self.n_layers_spec() implies #[trigger] self.width(l)
                == old(self).width(l) by {
                if l >= 1 {
                    assert(self.layers@[l] == old(self).layers@[l]);
                }
            }
            assert forall|l: int, n: int|
                1 <= l < self.n_layers_spec() && 0 <= n < self.width(l) implies #[trigger] self.node_at(
                l,
                n,
            ) == old(self).node_at(l, n) by {
                assert(self.layers@[l] == old(self).layers@[l]);
            }
            assert(self.wf());
        }
    }

    /// Clears the caches of the one compute node at `(li, ni)`, leaving the
    /// rest of the network as it was.
    fn invalidate_node(&mut self, li: usize, ni: usize)
        requires
            old(self).in_range(li as int, ni as int),
            li >= 1,
            old(self).node_at(li as int, ni as int) is Main,
        ensures
            final(self).config == old(self).config,
            final(self).layers@.len() == old(self).layers@.len(),
            forall|l: int|
                0 <= l < old(self).n_layers_spec() && l != li ==> #[trigger] final(self).layers@[l]
                    == old(self).layers@[l],
            final(self).width(li as int) == old(self).width(li as int),
            forall|n: int|
                0 <= n < old(self).width(li as int) && n != ni ==> #[trigger] final(self).node_at(
                    li as int,
                    n,
                ) == old(self).node_at(li as int, n),
            forall|l2: int|
                0 <= l2 < old(self).n_layers_spec() ==> #[trigger] final(self).width(l2) == old(
                    self,
                ).width(l2),
            forall|l2: int, n2: int|
                old(self).in_range(l2, n2) && (l2 != li || n2 != ni) ==> #[trigger] final(self).node_at(l2, n2)
                    == old(self).node_at(l2, n2),
            final(self).node_at(li as int, ni as int) is Main,
            final(self).main_at(li as int, ni as int).sum_cache is None,
            final(self).main_at(li as int, ni as int).result_cache is None,
            old(self).main_at(li as int, ni as int).same_params(
                final(self).main_at(li as int, ni as int),
            ),
            old(self).main_at(li as int, ni as int).same_nudges(
                final(self).main_at(li as int, ni as int),
            ),
    {
        self.get_node_mut(li, ni).invalidate();
    }

    /// Clears the memo caches of every compute node. Evaluation is not aware
    /// of input changes, so the trainer calls this after changing inputs and
    /// before reading values again.
    #[verifier::loop_isolation(false)]
    pub fn invalidate(&mut self)
        requires
            old(self).wf(),
        ensures
            final(self).wf(),
            final(self).config == old(self).config,
            final(self).layers@.len() == old(self).layers@.len(),
            old(self).same_eval_basis(*final(self)),
            old(self).same_nudge_state(*final(self)),
            final(self).caches_empty(),
            forall|n: int|
                0 <= n < old(self).width(0) ==> #[trigger] final(self).node_at(0, n) == old(
                    self,
                ).node_at(0, n),
    {
        let mut l: usize = 1;
        while l < self.layers.len()
            invariant
                1 <= l <= self.layers@.len(),
                self.config == old(self).config,
                self.layers@.len() == old(self).layers@.len(),
                self.layers@[0] == old(self).layers@[0],
                forall|ll: int|
                    l <= ll < old(self).n_layers_spec() ==> #[trigger] self.layers@[ll] == old(
                        self,
                    ).layers@[ll],
                forall|ll: int|
                    1 <= ll < l ==> #[trigger] self.width(ll) == old(self).width(ll),
                forall|ll: int, n: int|
                    1 <= ll < l && 0 <= n < old(self).width(ll) ==> {
                        let a = old(self).main_at(ll, n);
                        let b = #[trigger] self.node_at(ll, n);
                        &&& b is Main
                        &&& b.main_node().sum_cache is None
                        &&& b.main_node().result_cache is None
                        &&& a.same_params(b.main_node())
                        &&& a.same_nudges(b.main_node())
                    },
            decreases self.layers@.len() - l,
        {
            let mut n: usize = 0;
            let width = self.layers[l].len();
            while n < width
                invariant
                    1 <= l < self.layers@.len(),
                    n <= width,
                    width == old(self).width(l as int),
                    self.config == old(self).config,
                    self.layers@.len() == old(self).layers@.len(),
                    self.layers@[0] == old(self).layers@[0],
                    forall|ll: int|
                        l < ll < old(self).n_layers_spec() ==> #[trigger] self.layers@[ll] == old(
                            self,
                        ).layers@[ll],
                    forall|ll: int|
                        1 <= ll <= l ==> #[trigger] self.width(ll) == old(self).width(ll),
                    forall|ll: int, nn: int|
                        1 <= ll < l && 0 <= nn < old(self).width(ll) || ll == l && 0 <= nn < n
                            ==> {
                            let a = old(self).main_at(ll, nn);
                            let b = #[trigger] self.node_at(ll, nn);
                            &&& b is Main
                            &&& b.main_node().sum_cache is None
                            &&& b.main_node().result_cache is None
                            &&& a.same_params(b.main_node())
                            &&& a.same_nudges(b.main_node())
                        },
                    forall|nn: int|
                        n <= nn < old(self).width(l as int) ==> #[trigger] self.node_at(l as int, nn)
                            == old(self).node_at(l as int, nn),
                decreases width - n,
            {
                self.invalidate_node(l, n);
                n += 1;
            }
            l += 1;
        }
        proof {
            lemma_same_basis_wf(*old(self), *self);
        }
    }
}


// Demand-driven evaluation. Reading a value may fill memo caches of the
// node read and of every node it pulled on, but never changes the value any
// node shows: both functions ensure `refines` against the entry state and
// that every `eval_value` is preserved.
impl<S: Sigmoid> Network<S> {
    /// The pre-activation sum of the compute node at `(li, ni)`: the cached
    /// sum if set, else bias plus the weighted values of the previous layer,
    /// evaluated on demand and memoized into the sum cache.
    #[verifier::loop_isolation(false)]
    pub fn get_sum(&mut self, li: usize, ni: usize) -> (r: S)
        requires
            old(self).wf(),
            li >= 1,
            old(self).in_range(li as int, ni as int),
        ensures
            final(self).wf(),
            r == old(self).eval_sum(li as int, ni as int),
            old(self).refines(*final(self)),
            old(self).same_nudge_state(*final(self)),
            final(self).config == old(self).config,
            forall|l: int, n: int|
                old(self).in_range(l, n) ==> #[trigger] final(self).eval_value(l, n) == old(
                    self,
                ).eval_value(l, n),
            forall|l: int, n: int|
                1 <= l < old(self).n_layers_spec() && 0 <= n < old(self).width(l)
                    ==> #[trigger] final(self).eval_sum(l, n) == old(self).eval_sum(l, n),
            forall|l2: int| 0 <= l2 < old(self).n_layers_spec() ==> #[trigger] final(self).width(l2) == old(self).width(l2),
            forall|l2: int, n2: int|
                old(self).in_range(l2, n2) && l2 > li ==> #[trigger] final(self).node_at(l2, n2)
                    == old(self).node_at(l2, n2),
            forall|n2: int|
                0 <= n2 < old(self).width(li as int) && n2 != ni ==> #[trigger] final(self).node_at(
                    li as int,
                    n2,
                ) == old(self).node_at(li as int, n2),
            forall|n2: int|
                0 <= n2 < old(self).width(0) ==> #[trigger] final(self).node_at(0, n2) == old(
                    self,
                ).node_at(0, n2),
            final(self).main_at(li as int, ni as int).sum_cache == Some(r),
            final(self).main_at(li as int, ni as int).result_cache == old(self).main_at(
                li as int,
                ni as int,
            ).result_cache,
            old(self).main_at(li as int, ni as int).sum_cache is Some
                ==> *final(self) == *old(self),
        decreases li, 0int,
    {
        let cached = match &self.layers[li][ni] {
            AnyNode::Main(nd) => nd.sum_cache,
            AnyNode::Start(_) => vstd::pervasive::unreached(),
        };
        if let Some(s) = cached {
            proof {
                lemma_refines_refl(*self);
            }
            return s;
        }
        let wlen = match &self.layers[li][ni] {
            AnyNode::Main(nd) => nd.inp_w.len(),
            AnyNode::Start(_) => vstd::pervasive::unreached(),
        };
        let mut acc = S::zero();
        let mut i: usize = 0;
        proof {
            lemma_refines_refl(*self);
        }
        while i < wlen
            invariant
                i <= wlen,
                self.wf(),
                old(self).refines(*self),
                old(self).same_nudge_state(*self),
                self.config == old(self).config,
                forall|l2: int, n2: int|
                    old(self).in_range(l2, n2) && l2 >= li ==> #[trigger] self.node_at(l2, n2)
                        == old(self).node_at(l2, n2),
                forall|n2: int|
                    0 <= n2 < old(self).width(0) ==> #[trigger] self.node_at(0, n2) == old(
                        self,
                    ).node_at(0, n2),
                forall|l2: int|
                    0 <= l2 < old(self).n_layers_spec() ==> #[trigger] self.width(l2) == old(
                        self,
                    ).width(l2),
                acc == old(self).eval_wsum(li as int, ni as int, i as int),
            decreases wlen - i,
        {
            let ghost pre = *self;
            let v = self.get_value(li - 1, i);
            proof {
                lemma_refines_eval(*old(self), pre, li as int - 1, i as int);
                lemma_refines_trans(*old(self), pre, *self);
                assert(self.layers@.len() == old(self).layers@.len());
                assert(self.width(li as int) == old(self).width(li as int));
            }
            let w = match &self.layers[li][ni] {
                AnyNode::Main(nd) => nd.inp_w[i],
                AnyNode::Start(_) => vstd::pervasive::unreached(),
            };
            acc = acc.add(v.mul(w));
            i += 1;
        }
        proof {
            assert(self.layers@.len() == old(self).layers@.len());
            assert(self.width(li as int) == old(self).width(li as int));
        }
        let b = match &self.layers[li][ni] {
            AnyNode::Main(nd) => nd.bias,
            AnyNode::Start(_) => vstd::pervasive::unreached(),
        };
        let s = acc.add(b);
        let ghost mid = *self;
        match self.get_node_mut(li, ni) {
            AnyNode::Main(nd) => {
                nd.sum_cache = Some(s);
            },
            AnyNode::Start(_) => {
                vstd::pervasive::unreached::<()>();
            },
        }
        proof {
            assert(s == old(self).eval_sum(li as int, ni as int));
            lemma_refines_eval(*old(self), mid, li as int, ni as int);
            assert(mid.eval_sum(li as int, ni as int) == s);
            assert forall|l: int, n: int|
                1 <= l < mid.n_layers_spec() && 0 <= n < mid.width(l) implies #[trigger] mid.cache_refined(
                *self,
                l,
                n,
            ) by {}
            lemma_same_basis_wf(*old(self), mid);
            lemma_refines_trans(*old(self), mid, *self);
            lemma_refines_eval_all(*old(self), *self);
            lemma_same_basis_wf(*old(self), *self);
        }
        s
    }

    /// The value the node at `(li, ni)` shows: an input node's stored value,
    /// or a compute node's cached result if set, else the activation of its
    /// sum, computed on demand and memoized into the result cache. This is
    /// the recursive pull: the first read of an output evaluates and caches
    /// every node it reaches backward.
    pub fn get_value(&mut self, li: usize, ni: usize) -> (r: S)
        requires
            old(self).wf(),
            old(self).in_range(li as int, ni as int),
        ensures
            final(self).wf(),
            r == old(self).eval_value(li as int, ni as int),
            old(self).refines(*final(self)),
            old(self).same_nudge_state(*final(self)),
            final(self).config == old(self).config,
            forall|l: int, n: int|
                old(self).in_range(l, n) ==> #[trigger] final(self).eval_value(l, n) == old(
                    self,
                ).eval_value(l, n),
            forall|l: int, n: int|
                1 <= l < old(self).n_layers_spec() && 0 <= n < old(self).width(l)
                    ==> #[trigger] final(self).eval_sum(l, n) == old(self).eval_sum(l, n),
            forall|l2: int| 0 <= l2 < old(self).n_layers_spec() ==> #[trigger] final(self).width(l2) == old(self).width(l2),
            forall|l2: int, n2: int|
                old(self).in_range(l2, n2) && l2 > li ==> #[trigger] final(self).node_at(l2, n2)
                    == old(self).node_at(l2, n2),
            forall|n2: int|
                0 <= n2 < old(self).width(li as int) && n2 != ni ==> #[trigger] final(self).node_at(
                    li as int,
                    n2,
                ) == old(self).node_at(li as int, n2),
            forall|n2: int|
                0 <= n2 < old(self).width(0) ==> #[trigger] final(self).node_at(0, n2) == old(
                    self,
                ).node_at(0, n2),
            li >= 1 ==> final(self).main_at(li as int, ni as int).result_cache == Some(r),
            li == 0 ==> *final(self) == *old(self),
            li >= 1 && old(self).main_at(li as int, ni as int).result_cache is Some
                ==> *final(self) == *old(self),
        decreases li, 1int,
    {
        if li == 0 {
            let v = match &self.layers[0][ni] {
                AnyNode::Start(sn) => sn.value,
                AnyNode::Main(_) => vstd::pervasive::unreached(),
            };
            proof {
                lemma_refines_refl(*self);
            }
            return v;
        }
        let cached = match &self.layers[li][ni] {
            AnyNode::Main(nd) => nd.result_cache,
            AnyNode::Start(_) => vstd::pervasive::unreached(),
        };
        if let Some(v) = cached {
            proof {
                lemma_refines_refl(*self);
            }
            return v;
        }
        let s = self.get_sum(li, ni);
        let v = s.sigmoid();
        let ghost mid = *self;
        match self.get_node_mut(li, ni) {
            AnyNode::Main(nd) => {
                nd.result_cache = Some(v);
            },
            AnyNode::Start(_) => {
                vstd::pervasive::unreached::<()>();
            },
        }
        proof {
            assert(mid.eval_value(li as int, ni as int) == v);
            assert(v == old(self).eval_value(li as int, ni as int));
            assert forall|l: int, n: int|
                1 <= l < mid.n_layers_spec() && 0 <= n < mid.width(l) implies #[trigger] mid.cache_refined(
                *self,
                l,
                n,
            ) by {}
            lemma_same_basis_wf(*old(self), mid);
            lemma_refines_trans(*old(self), mid, *self);
            lemma_refines_eval_all(*old(self), *self);
            lemma_same_basis_wf(*old(self), *self);
        }
        v
    }
}


// Outputs and cost.
impl<S: Sigmoid> Network<S> {
    /// The cost total over the first `k` output nodes: squared errors
    /// accumulated in index order, starting from zero.
    pub open spec fn cost_acc(self, expected: Seq<S>, k: int) -> S
        decreases k,
    {
        if k <= 0 {
            S::zero_spec()
        } else {
            let e = expected[k - 1];
            let v = self.eval_value(self.n_layers_spec() - 1, k - 1);
            self.cost_acc(expected, k - 1).add_spec(e.sub_spec(v).mul_spec(e.sub_spec(v)))
        }
    }

    /// The cost the network shows against an expected output vector: the sum
    /// of squared errors over the whole last layer.
    pub open spec fn cost_spec(self, expected: Seq<S>) -> S {
        self.cost_acc(expected, self.width(self.n_layers_spec() - 1))
    }

    /// The value of the output node at index `i` of the last layer.
    pub fn get_output(&mut self, i: usize) -> (r: S)
        requires
            old(self).wf(),
            0 <= i < old(self).width(old(self).n_layers_spec() - 1),
        ensures
            final(self).wf(),
            r == old(self).eval_value(old(self).n_layers_spec() - 1, i as int),
            old(self).refines(*final(self)),
            old(self).same_nudge_state(*final(self)),
            final(self).config == old(self).config,
            forall|l: int, n: int|
                old(self).in_range(l, n) ==> #[trigger] final(self).eval_value(l, n) == old(
                    self,
                ).eval_value(l, n),
            forall|l2: int|
                0 <= l2 < old(self).n_layers_spec() ==> #[trigger] final(self).width(l2) == old(
                    self,
                ).width(l2),
    {
        let l = self.layers.len() - 1;
        self.get_value(l, i)
    }

    /// The values of all output nodes, in index order.
    #[verifier::loop_isolation(false)]
    pub fn get_outputs(&mut self) -> (r: Vec<S>)
        requires
            old(self).wf(),
        ensures
            final(self).wf(),
            r@.len() == old(self).width(old(self).n_layers_spec() - 1),
            forall|n: int|
                0 <= n < r@.len() ==> r@[n] == old(self).eval_value(
                    old(self).n_layers_spec() - 1,
                    n,
                ),
            old(self).refines(*final(self)),
            old(self).same_nudge_state(*final(self)),
            final(self).config == old(self).config,
            forall|l: int, n: int|
                old(self).in_range(l, n) ==> #[trigger] final(self).eval_value(l, n) == old(
                    self,
                ).eval_value(l, n),
            forall|l2: int|
                0 <= l2 < old(self).n_layers_spec() ==> #[trigger] final(self).width(l2) == old(
                    self,
                ).width(l2),
    {
        let l = self.layers.len() - 1;
        let w = self.layers[l].len();
        let mut r: Vec<S> = Vec::new();
        let mut i: usize = 0;
        proof {
            lemma_refines_refl(*self);
        }
        while i < w
            invariant
                i <= w,
                r@.len() == i,
                self.wf(),
                old(self).refines(*self),
                old(self).same_nudge_state(*self),
                self.config == old(self).config,
                forall|l2: int|
                    0 <= l2 < old(self).n_layers_spec() ==> #[trigger] self.width(l2) == old(
                        self,
                    ).width(l2),
                forall|n: int|
                    0 <= n < i ==> r@[n] == old(self).eval_value(old(self).n_layers_spec() - 1, n),
            decreases w - i,
        {
            let ghost pre = *self;
            let v = self.get_value(l, i);
            proof {
                lemma_refines_eval(*old(self), pre, l as int, i as int);
                lemma_refines_trans(*old(self), pre, *self);
            }
            r.push(v);
            i += 1;
        }
        proof {
            lemma_refines_eval_all(*old(self), *self);
        }
        r
    }

    /// The cost the network currently shows: the squared error of every
    /// output node against the expected vector, summed in index order.
    #[verifier::loop_isolation(false)]
    pub fn get_current_cost(&mut self, expected: &Vec<S>) -> (r: S)
        requires
            old(self).wf(),
            expected@.len() == old(self).width(old(self).n_layers_spec() - 1),
        ensures
            final(self).wf(),
            r == old(self).cost_spec(expected@),
            old(self).refines(*final(self)),
            old(self).same_nudge_state(*final(self)),
            final(self).config == old(self).config,
            forall|l: int, n: int|
                old(self).in_range(l, n) ==> #[trigger] final(self).eval_value(l, n) == old(
                    self,
                ).eval_value(l, n),
            forall|l2: int|
                0 <= l2 < old(self).n_layers_spec() ==> #[trigger] final(self).width(l2) == old(
                    self,
                ).width(l2),
    {
        let l = self.layers.len() - 1;
        let w = self.layers[l].len();
        let mut acc = S::zero();
        let mut i: usize = 0;
        proof {
            lemma_refines_refl(*self);
        }
        while i < w
            invariant
                i <= w,
                self.wf(),
                old(self).refines(*self),
                old(self).same_nudge_state(*self),
                self.config == old(self).config,
                forall|l2: int|
                    0 <= l2 < old(self).n_layers_spec() ==> #[trigger] self.width(l2) == old(
                        self,
                    ).width(l2),
                acc == old(self).cost_acc(expected@, i as int),
            decreases w - i,
        {
            let ghost pre = *self;
            let v = self.get_value(l, i);
            proof {
                lemma_refines_eval(*old(self), pre, l as int, i as int);
                lemma_refines_trans(*old(self), pre, *self);
            }
            acc = acc.add(error_f(expected[i], v));
            i += 1;
        }
        proof {
            lemma_refines_eval_all(*old(self), *self);
        }
        acc
    }
}


// The backward sweep's model. The sweep is a function of the values and
// sums the forward pass produced (the grids `vals` and `sums`), the pending
// gradients the sweep starts from (`pend0`), the expected output vector, and
// the weights and learning rate read from `self`.
impl<S: Sigmoid> Network<S> {
    /// Every value the network shows, as a grid indexed by layer and node.
    pub open spec fn eval_grid(self) -> Seq<Seq<S>> {
        Seq::new(
            self.layers@.len(),
            |l: int| Seq::new(self.layers@[l]@.len(), |n: int| self.eval_value(l, n)),
        )
    }

    /// Every pre-activation sum the network shows; layer 0 computes no sum,
    /// so its entries are zero.
    pub open spec fn eval_sum_grid(self) -> Seq<Seq<S>> {
        Seq::new(
            self.layers@.len(),
            |l: int|
                Seq::new(
                    self.layers@[l]@.len(),
                    |n: int|
                        if l >= 1 {
                            self.eval_sum(l, n)
                        } else {
                            S::zero_spec()
                        },
                ),
        )
    }

    /// Every pending gradient; input nodes hold none, so layer 0's entries
    /// are zero.
    pub open spec fn pending_grid(self) -> Seq<Seq<S>> {
        Seq::new(
            self.layers@.len(),
            |l: int|
                Seq::new(
                    self.layers@[l]@.len(),
                    |n: int|
                        if l >= 1 {
                            self.main_at(l, n).requested_nudge
                        } else {
                            S::zero_spec()
                        },
                ),
        )
    }

    /// The gradient seeded into an output node: its pending amount plus the
    /// negated derivative of its squared error.
    pub open spec fn sweep_seed(
        self,
        pend0: Seq<Seq<S>>,
        vals: Seq<Seq<S>>,
        expected: Seq<S>,
        n: int,
    ) -> S {
        let l = self.n_layers_spec() - 1;
        pend0[l][n].add_spec(S::two_spec().mul_spec(vals[l][n].sub_spec(expected[n])).neg_spec())
    }

    /// The pending gradient of the node at `(l, n)` at the moment the
    /// backward sweep consumes it: for the last layer the seed; for an inner
    /// layer its starting pending amount plus the contribution of every node
    /// of layer `l + 1`, in index order.
    pub open spec fn sweep_pend(
        self,
        pend0: Seq<Seq<S>>,
        vals: Seq<Seq<S>>,
        sums: Seq<Seq<S>>,
        expected: Seq<S>,
        l: int,
        n: int,
    ) -> S
        decreases self.n_layers_spec() - 1 - l, 1int, 0int,
    {
        if l >= self.n_layers_spec() - 1 {
            self.sweep_seed(pend0, vals, expected, n)
        } else {
            self.sweep_pend_acc(pend0, vals, sums, expected, l, n, self.width(l + 1))
        }
    }

    /// The pending gradient of the node at `(l, n)` after the first `m`
    /// nodes of layer `l + 1` have contributed.
    pub open spec fn sweep_pend_acc(
        self,
        pend0: Seq<Seq<S>>,
        vals: Seq<Seq<S>>,
        sums: Seq<Seq<S>>,
        expected: Seq<S>,
        l: int,
        n: int,
        m: int,
    ) -> S
        decreases self.n_layers_spec() - 1 - l, 0int, m,
    {
        if m <= 0 || l >= self.n_layers_spec() - 1 {
            pend0[l][n]
        } else {
            self.sweep_pend_acc(pend0, vals, sums, expected, l, n, m - 1).add_spec(
                self.sweep_base(pend0, vals, sums, expected, l + 1, m - 1).mul_spec(
                    self.main_at(l + 1, m - 1).inp_w@[n],
                ),
            )
        }
    }

    /// The base quantity of the backward step at `(l, n)`: the consumed
    /// pending gradient times the activation derivative at the node's sum,
    /// times the learning rate. It is what the step adds to the node's bias
    /// accumulator, and what it distributes to weights and upstream pendings.
    pub open spec fn sweep_base(
        self,
        pend0: Seq<Seq<S>>,
        vals: Seq<Seq<S>>,
        sums: Seq<Seq<S>>,
        expected: Seq<S>,
        l: int,
        n: int,
    ) -> S
        decreases self.n_layers_spec() - 1 - l, 2int, 0int,
    {
        self.sweep_pend(pend0, vals, sums, expected, l, n).mul_spec(
            sums[l][n].sig_deriv_spec(),
        ).mul_spec(self.config.learning_rate)
    }

    /// The base quantity one `calc_nudge` call computes from the current
    /// state: the node's pending gradient times the activation derivative of
    /// the sum it shows, times the learning rate.
    pub open spec fn nudge_base(self, li: int, ni: int) -> S {
        self.main_at(li, ni).requested_nudge.mul_spec(
            self.eval_sum(li, ni).sig_deriv_spec(),
        ).mul_spec(self.config.learning_rate)
    }
}


// Seeding the backward sweep.
impl<S: Sigmoid> Network<S> {
    /// Seeds the backward sweep: evaluates the outputs, then adds to each
    /// last-layer node's pending gradient the negated derivative of its
    /// squared error against the expected value.
    #[verifier::loop_isolation(false)]
    pub fn request_nudges_end(&mut self, expected: &Vec<S>)
        requires
            old(self).wf(),
            expected@.len() == old(self).width(old(self).n_layers_spec() - 1),
        ensures
            final(self).wf(),
            final(self).config == old(self).config,
            old(self).refines(*final(self)),
            forall|l: int, n: int|
                old(self).in_range(l, n) ==> #[trigger] final(self).eval_value(l, n) == old(
                    self,
                ).eval_value(l, n),
            forall|l: int, n: int|
                1 <= l < old(self).n_layers_spec() && 0 <= n < old(self).width(l)
                    ==> #[trigger] final(self).eval_sum(l, n) == old(self).eval_sum(l, n),
            forall|l2: int|
                0 <= l2 < old(self).n_layers_spec() ==> #[trigger] final(self).width(l2) == old(
                    self,
                ).width(l2),
            forall|n2: int|
                0 <= n2 < old(self).width(0) ==> #[trigger] final(self).node_at(0, n2) == old(
                    self,
                ).node_at(0, n2),
            forall|l: int, n: int|
                1 <= l < old(self).n_layers_spec() - 1 && 0 <= n < old(self).width(l)
                    ==> (#[trigger] old(self).main_at(l, n)).same_nudges(final(self).main_at(l, n)),
            forall|n: int|
                0 <= n < old(self).width(old(self).n_layers_spec() - 1) ==> {
                    let a = #[trigger] old(self).main_at(old(self).n_layers_spec() - 1, n);
                    let b = final(self).main_at(old(self).n_layers_spec() - 1, n);
                    &&& b.requested_nudge == a.requested_nudge.add_spec(
                        S::two_spec().mul_spec(
                            old(self).eval_value(old(self).n_layers_spec() - 1, n).sub_spec(
                                expected@[n],
                            ),
                        ).neg_spec(),
                    )
                    &&& b.bias_nudge_sum == a.bias_nudge_sum
                    &&& b.inp_w_nudge_sum@ == a.inp_w_nudge_sum@
                    &&& b.nudge_cnt == a.nudge_cnt
                },
    {
        let outputs = self.get_outputs();
        let l = self.layers.len() - 1;
        let mut i: usize = 0;
        while i < outputs.len()
            invariant
                i <= outputs@.len(),
                l == old(self).n_layers_spec() - 1,
                self.wf(),
                old(self).refines(*self),
                self.config == old(self).config,
                forall|l2: int|
                    0 <= l2 < old(self).n_layers_spec() ==> #[trigger] self.width(l2) == old(
                        self,
                    ).width(l2),
                forall|n2: int|
                    0 <= n2 < old(self).width(0) ==> #[trigger] self.node_at(0, n2) == old(
                        self,
                    ).node_at(0, n2),
                forall|l2: int, n2: int|
                    1 <= l2 < old(self).n_layers_spec() - 1 && 0 <= n2 < old(self).width(l2) ==> (
                    #[trigger] old(self).main_at(l2, n2)).same_nudges(self.main_at(l2, n2)),
                forall|n2: int|
                    i <= n2 < old(self).width(l as int) ==> (#[trigger] old(self).main_at(
                        l as int,
                        n2,
                    )).same_nudges(self.main_at(l as int, n2)),
                forall|n2: int|
                    0 <= n2 < i ==> {
                        let a = #[trigger] old(self).main_at(l as int, n2);
                        let b = self.main_at(l as int, n2);
                        &&& b.requested_nudge == a.requested_nudge.add_spec(
                            S::two_spec().mul_spec(
                                old(self).eval_value(l as int, n2).sub_spec(expected@[n2]),
                            ).neg_spec(),
                        )
                        &&& b.bias_nudge_sum == a.bias_nudge_sum
                        &&& b.inp_w_nudge_sum@ == a.inp_w_nudge_sum@
                        &&& b.nudge_cnt == a.nudge_cnt
                    },
            decreases outputs@.len() - i,
        {
            let ghost pre = *self;
            let mut want_nudge = error_deriv(outputs[i], expected[i]);
            want_nudge = want_nudge.neg();
            match self.get_node_mut(l, i) {
                AnyNode::Main(nd) => nd.request_nudge(want_nudge),
                AnyNode::Start(_) => vstd::pervasive::unreached(),
            }
            proof {
                assert forall|l2: int, n2: int|
                    1 <= l2 < old(self).n_layers_spec() && 0 <= n2 < old(self).width(l2) implies
                    #[trigger] old(self).cache_refined(*self, l2, n2) by {
                    assert(old(self).cache_refined(pre, l2, n2));
                }
            }
            i += 1;
        }
        proof {
            lemma_refines_eval_all(*old(self), *self);
            lemma_same_basis_wf(*old(self), *self);
        }
    }
}


// One backward step.
impl<S: Sigmoid> Network<S> {
    /// One backward step at the compute node `(li, ni)`: consumes the
    /// node's pending gradient into a base quantity (pending times the
    /// activation derivative of the node's sum, times the learning rate),
    /// adds the base to the node's bias accumulator, adds base times each
    /// previous-layer value to the matching weight accumulator, propagates
    /// base times each weight into the previous layer's pending gradients
    /// when that layer is itself a compute layer, and counts the step. The
    /// pending amount itself is left in place; only `clear_nudges` resets it.
    #[verifier::loop_isolation(false)]
    pub fn calc_nudge(&mut self, li: usize, ni: usize)
        requires
            old(self).wf(),
            li >= 1,
            old(self).in_range(li as int, ni as int),
            old(self).main_at(li as int, ni as int).nudge_cnt < usize::MAX,
        ensures
            final(self).wf(),
            final(self).config == old(self).config,
            old(self).refines(*final(self)),
            forall|l: int, n: int|
                old(self).in_range(l, n) ==> #[trigger] final(self).eval_value(l, n) == old(
                    self,
                ).eval_value(l, n),
            forall|l: int, n: int|
                1 <= l < old(self).n_layers_spec() && 0 <= n < old(self).width(l)
                    ==> #[trigger] final(self).eval_sum(l, n) == old(self).eval_sum(l, n),
            forall|l2: int|
                0 <= l2 < old(self).n_layers_spec() ==> #[trigger] final(self).width(l2) == old(
                    self,
                ).width(l2),
            forall|n2: int|
                0 <= n2 < old(self).width(0) ==> #[trigger] final(self).node_at(0, n2) == old(
                    self,
                ).node_at(0, n2),
            ({
                let base = old(self).nudge_base(li as int, ni as int);
                let a = old(self).main_at(li as int, ni as int);
                let b = final(self).main_at(li as int, ni as int);
                &&& b.bias_nudge_sum == a.bias_nudge_sum.add_spec(base)
                &&& b.inp_w_nudge_sum@.len() == a.inp_w_nudge_sum@.len()
                &&& (forall|i: int|
                    0 <= i < a.inp_w@.len() ==> b.inp_w_nudge_sum@[i] == a.inp_w_nudge_sum@[i].add_spec(
                        base.mul_spec(old(self).eval_value(li as int - 1, i)),
                    ))
                &&& b.nudge_cnt == a.nudge_cnt + 1
                &&& b.requested_nudge == a.requested_nudge
            }),
            li > 1 ==> forall|i: int|
                0 <= i < old(self).width(li as int - 1) ==> {
                    let a = #[trigger] old(self).main_at(li as int - 1, i);
                    let b = final(self).main_at(li as int - 1, i);
                    &&& b.requested_nudge == a.requested_nudge.add_spec(
                        old(self).nudge_base(li as int, ni as int).mul_spec(
                            old(self).main_at(li as int, ni as int).inp_w@[i],
                        ),
                    )
                    &&& b.bias_nudge_sum == a.bias_nudge_sum
                    &&& b.inp_w_nudge_sum@ == a.inp_w_nudge_sum@
                    &&& b.nudge_cnt == a.nudge_cnt
                },
            forall|l: int, n: int|
                1 <= l < old(self).n_layers_spec() && 0 <= n < old(self).width(l) && !(l == li && n
                    == ni) && !(li > 1 && l == li - 1) ==> (#[trigger] old(self).main_at(
                    l,
                    n,
                )).same_nudges(final(self).main_at(l, n)),
    {
        let d_sig = self.get_sum(li, ni).sig_deriv();
        proof {
            assert(self.layers@.len() == old(self).layers@.len());
            assert(self.width(li as int) == old(self).width(li as int));
        }
        let req = match &self.layers[li][ni] {
            AnyNode::Main(nd) => nd.requested_nudge,
            AnyNode::Start(_) => vstd::pervasive::unreached(),
        };
        let base_nudge = req.mul(d_sig).mul(self.config.learning_rate);
        proof {
            assert(base_nudge == old(self).nudge_base(li as int, ni as int));
        }
        let ghost mid = *self;
        match self.get_node_mut(li, ni) {
            AnyNode::Main(nd) => {
                nd.bias_nudge_sum = nd.bias_nudge_sum.add(base_nudge);
            },
            AnyNode::Start(_) => {
                vstd::pervasive::unreached::<()>();
            },
        }
        proof {
            assert forall|l2: int, n2: int|
                1 <= l2 < old(self).n_layers_spec() && 0 <= n2 < old(self).width(l2) implies
                #[trigger] old(self).cache_refined(*self, l2, n2) by {
                assert(old(self).cache_refined(mid, l2, n2));
            }
            lemma_same_basis_wf(*old(self), *self);
        }
        let wlen = match &self.layers[li][ni] {
            AnyNode::Main(nd) => nd.inp_w.len(),
            AnyNode::Start(_) => vstd::pervasive::unreached(),
        };
        let mut i: usize = 0;
        while i < wlen
            invariant
                i <= wlen,
                wlen == old(self).main_at(li as int, ni as int).inp_w@.len(),
                base_nudge == old(self).nudge_base(li as int, ni as int),
                self.wf(),
                old(self).refines(*self),
                self.config == old(self).config,
                forall|l2: int|
                    0 <= l2 < old(self).n_layers_spec() ==> #[trigger] self.width(l2) == old(
                        self,
                    ).width(l2),
                forall|n2: int|
                    0 <= n2 < old(self).width(0) ==> #[trigger] self.node_at(0, n2) == old(
                        self,
                    ).node_at(0, n2),
                ({
                    let a = old(self).main_at(li as int, ni as int);
                    let b = self.main_at(li as int, ni as int);
                    &&& b.bias_nudge_sum == a.bias_nudge_sum.add_spec(base_nudge)
                    &&& b.inp_w_nudge_sum@.len() == a.inp_w_nudge_sum@.len()
                    &&& (forall|j: int|
                        0 <= j < i ==> b.inp_w_nudge_sum@[j] == a.inp_w_nudge_sum@[j].add_spec(
                            base_nudge.mul_spec(old(self).eval_value(li as int - 1, j)),
                        ))
                    &&& (forall|j: int|
                        i <= j < a.inp_w@.len() ==> b.inp_w_nudge_sum@[j] == a.inp_w_nudge_sum@[j])
                    &&& b.nudge_cnt == a.nudge_cnt
                    &&& b.requested_nudge == a.requested_nudge
                }),
                li > 1 ==> forall|j: int|
                    0 <= j < old(self).width(li as int - 1) ==> {
                        let a = #[trigger] old(self).main_at(li as int - 1, j);
                        let b = self.main_at(li as int - 1, j);
                        &&& (0 <= j < i ==> b.requested_nudge == a.requested_nudge.add_spec(
                            base_nudge.mul_spec(old(self).main_at(li as int, ni as int).inp_w@[j]),
                        ))
                        &&& (i <= j ==> b.requested_nudge == a.requested_nudge)
                        &&& b.bias_nudge_sum == a.bias_nudge_sum
                        &&& b.inp_w_nudge_sum@ == a.inp_w_nudge_sum@
                        &&& b.nudge_cnt == a.nudge_cnt
                    },
                forall|l: int, n: int|
                    1 <= l < old(self).n_layers_spec() && 0 <= n < old(self).width(l) && !(l == li
                        && n == ni) && !(li > 1 && l == li - 1) ==> (#[trigger] old(self).main_at(
                        l,
                        n,
                    )).same_nudges(self.main_at(l, n)),
            decreases wlen - i,
        {
            let ghost pre = *self;
            let v = self.get_value(li - 1, i);
            proof {
                lemma_refines_eval(*old(self), pre, li as int - 1, i as int);
                lemma_refines_trans(*old(self), pre, *self);
                assert(self.layers@.len() == old(self).layers@.len());
                assert(self.width(li as int) == old(self).width(li as int));
            }
            let ghost mid2 = *self;
            match self.get_node_mut(li, ni) {
                AnyNode::Main(nd) => {
                    let cur = nd.inp_w_nudge_sum[i];
                    nd.inp_w_nudge_sum.set(i, cur.add(base_nudge.mul(v)));
                },
                AnyNode::Start(_) => {
                    vstd::pervasive::unreached::<()>();
                },
            }
            proof {
                assert forall|l2: int, n2: int|
                    1 <= l2 < old(self).n_layers_spec() && 0 <= n2 < old(self).width(l2) implies
                    #[trigger] old(self).cache_refined(*self, l2, n2) by {
                    assert(old(self).cache_refined(mid2, l2, n2));
                }
            }
            if li > 1 {
                let w_i = match &self.layers[li][ni] {
                    AnyNode::Main(nd) => nd.inp_w[i],
                    AnyNode::Start(_) => vstd::pervasive::unreached(),
                };
                let ghost mid3 = *self;
                match self.get_node_mut(li - 1, i) {
                    AnyNode::Main(nd) => {
                        nd.requested_nudge = nd.requested_nudge.add(base_nudge.mul(w_i));
                    },
                    AnyNode::Start(_) => {
                        vstd::pervasive::unreached::<()>();
                    },
                }
                proof {
                    assert forall|l2: int, n2: int|
                        1 <= l2 < old(self).n_layers_spec() && 0 <= n2 < old(self).width(l2)
                        implies #[trigger] old(self).cache_refined(*self, l2, n2) by {
                        assert(old(self).cache_refined(mid3, l2, n2));
                    }
                }
            }
            proof {
                lemma_same_basis_wf(*old(self), *self);
            }
            i += 1;
        }
        let ghost mid4 = *self;
        match self.get_node_mut(li, ni) {
            AnyNode::Main(nd) => {
                nd.nudge_cnt = nd.nudge_cnt + 1;
            },
            AnyNode::Start(_) => {
                vstd::pervasive::unreached::<()>();
            },
        }
        proof {
            assert forall|l2: int, n2: int|
                1 <= l2 < old(self).n_layers_spec() && 0 <= n2 < old(self).width(l2) implies
                #[trigger] old(self).cache_refined(*self, l2, n2) by {
                assert(old(self).cache_refined(mid4, l2, n2));
            }
            lemma_refines_eval_all(*old(self), *self);
            lemma_same_basis_wf(*old(self), *self);
        }
    }
}


// The full backward sweep.
impl<S: Sigmoid> Network<S> {
    /// Trains one step on whatever inputs the network currently holds:
    /// seeds the last layer's pending gradients from the expected vector,
    /// then performs one backward step at every compute node, visiting the
    /// layers in reverse order so that each node's pending gradient is fully
    /// accumulated from all later layers before it is consumed. Each
    /// accumulator ends exactly as the sweep model says, over the values,
    /// sums and pending gradients the network showed at entry.
    #[verifier::loop_isolation(false)]
    pub fn train_on_current_data(&mut self, expected: &Vec<S>)
        requires
            old(self).wf(),
            expected@.len() == old(self).width(old(self).n_layers_spec() - 1),
            forall|l: int, n: int|
                1 <= l < old(self).n_layers_spec() && 0 <= n < old(self).width(l) ==> (
                #[trigger] old(self).main_at(l, n)).nudge_cnt < usize::MAX,
        ensures
            final(self).wf(),
            final(self).config == old(self).config,
            old(self).refines(*final(self)),
            forall|l: int, n: int|
                old(self).in_range(l, n) ==> #[trigger] final(self).eval_value(l, n) == old(
                    self,
                ).eval_value(l, n),
            forall|l2: int|
                0 <= l2 < old(self).n_layers_spec() ==> #[trigger] final(self).width(l2) == old(
                    self,
                ).width(l2),
            forall|n2: int|
                0 <= n2 < old(self).width(0) ==> #[trigger] final(self).node_at(0, n2) == old(
                    self,
                ).node_at(0, n2),
            forall|l: int, n: int|
                1 <= l < old(self).n_layers_spec() && 0 <= n < old(self).width(l) ==> {
                    let a = #[trigger] old(self).main_at(l, n);
                    let b = final(self).main_at(l, n);
                    let base = old(self).sweep_base(
                        old(self).pending_grid(),
                        old(self).eval_grid(),
                        old(self).eval_sum_grid(),
                        expected@,
                        l,
                        n,
                    );
                    &&& b.bias_nudge_sum == a.bias_nudge_sum.add_spec(base)
                    &&& b.inp_w_nudge_sum@.len() == a.inp_w_nudge_sum@.len()
                    &&& (forall|k: int|
                        0 <= k < a.inp_w@.len() ==> b.inp_w_nudge_sum@[k]
                            == a.inp_w_nudge_sum@[k].add_spec(
                            base.mul_spec(old(self).eval_value(l - 1, k)),
                        ))
                    &&& b.nudge_cnt == a.nudge_cnt + 1
                    &&& b.requested_nudge == old(self).sweep_pend(
                        old(self).pending_grid(),
                        old(self).eval_grid(),
                        old(self).eval_sum_grid(),
                        expected@,
                        l,
                        n,
                    )
                },
    {
        let ghost s0 = *old(self);
        let ghost pend0 = s0.pending_grid();
        let ghost vals = s0.eval_grid();
        let ghost sums = s0.eval_sum_grid();
        self.request_nudges_end(expected);
        proof {
            assert forall|n: int|
                0 <= n < s0.width(s0.n_layers_spec() - 1) implies (#[trigger] self.main_at(
                s0.n_layers_spec() - 1,
                n,
            )).requested_nudge == s0.sweep_pend(
                pend0,
                vals,
                sums,
                expected@,
                s0.n_layers_spec() - 1,
                n,
            ) by {
                assert(self.main_at(s0.n_layers_spec() - 1, n).requested_nudge == s0.sweep_seed(
                    pend0,
                    vals,
                    expected@,
                    n,
                ));
            }
        }
        let mut l = self.layers.len() - 1;
        while l >= 1
            invariant
                0 <= l <= s0.n_layers_spec() - 1,
                self.wf(),
                s0.refines(*self),
                self.config == s0.config,
                forall|l2: int|
                    0 <= l2 < s0.n_layers_spec() ==> #[trigger] self.width(l2) == s0.width(l2),
                forall|n2: int|
                    0 <= n2 < s0.width(0) ==> #[trigger] self.node_at(0, n2) == s0.node_at(0, n2),
                // layers above l are done:
                forall|j: int, n: int|
                    l < j < s0.n_layers_spec() && 0 <= n < s0.width(j) ==> {
                        let a = #[trigger] s0.main_at(j, n);
                        let b = self.main_at(j, n);
                        let base = s0.sweep_base(pend0, vals, sums, expected@, j, n);
                        &&& b.bias_nudge_sum == a.bias_nudge_sum.add_spec(base)
                        &&& b.inp_w_nudge_sum@.len() == a.inp_w_nudge_sum@.len()
                        &&& (forall|k: int|
                            0 <= k < a.inp_w@.len() ==> b.inp_w_nudge_sum@[k]
                                == a.inp_w_nudge_sum@[k].add_spec(
                                base.mul_spec(s0.eval_value(j - 1, k)),
                            ))
                        &&& b.nudge_cnt == a.nudge_cnt + 1
                        &&& b.requested_nudge == s0.sweep_pend(pend0, vals, sums, expected@, j, n)
                    },
                // layer l's pending gradients are fully accumulated, its
                // accumulators untouched:
                l >= 1 ==> forall|n: int|
                    0 <= n < s0.width(l as int) ==> {
                        let a = #[trigger] s0.main_at(l as int, n);
                        let b = self.main_at(l as int, n);
                        &&& b.requested_nudge == s0.sweep_pend(
                            pend0,
                            vals,
                            sums,
                            expected@,
                            l as int,
                            n,
                        )
                        &&& b.bias_nudge_sum == a.bias_nudge_sum
                        &&& b.inp_w_nudge_sum@ == a.inp_w_nudge_sum@
                        &&& b.nudge_cnt == a.nudge_cnt
                    },
                // layers below l are untouched:
                forall|j: int, n: int|
                    1 <= j < l && 0 <= n < s0.width(j) ==> (#[trigger] s0.main_at(
                        j,
                        n,
                    )).same_nudges(self.main_at(j, n)),
            decreases l,
        {
            proof {
                assert(self.layers@.len() == s0.layers@.len());
                assert(self.width(l as int) == s0.width(l as int));
            }
            let wl = self.layers[l].len();
            let mut n: usize = 0;
            while n < wl
                invariant
                    1 <= l <= s0.n_layers_spec() - 1,
                    n <= wl,
                    wl == s0.width(l as int),
                    self.wf(),
                    s0.refines(*self),
                    self.config == s0.config,
                    forall|l2: int|
                        0 <= l2 < s0.n_layers_spec() ==> #[trigger] self.width(l2) == s0.width(l2),
                    forall|n2: int|
                        0 <= n2 < s0.width(0) ==> #[trigger] self.node_at(0, n2) == s0.node_at(
                            0,
                            n2,
                        ),
                    // layers above l done:
                    forall|j: int, n2: int|
                        l < j < s0.n_layers_spec() && 0 <= n2 < s0.width(j) ==> {
                            let a = #[trigger] s0.main_at(j, n2);
                            let b = self.main_at(j, n2);
                            let base = s0.sweep_base(pend0, vals, sums, expected@, j, n2);
                            &&& b.bias_nudge_sum == a.bias_nudge_sum.add_spec(base)
                            &&& b.inp_w_nudge_sum@.len() == a.inp_w_nudge_sum@.len()
                            &&& (forall|k: int|
                                0 <= k < a.inp_w@.len() ==> b.inp_w_nudge_sum@[k]
                                    == a.inp_w_nudge_sum@[k].add_spec(
                                    base.mul_spec(s0.eval_value(j - 1, k)),
                                ))
                            &&& b.nudge_cnt == a.nudge_cnt + 1
                            &&& b.requested_nudge == s0.sweep_pend(
                                pend0,
                                vals,
                                sums,
                                expected@,
                                j,
                                n2,
                            )
                        },
                    // nodes of layer l already consumed:
                    forall|n2: int|
                        0 <= n2 < n ==> {
                            let a = #[trigger] s0.main_at(l as int, n2);
                            let b = self.main_at(l as int, n2);
                            let base = s0.sweep_base(pend0, vals, sums, expected@, l as int, n2);
                            &&& b.bias_nudge_sum == a.bias_nudge_sum.add_spec(base)
                            &&& b.inp_w_nudge_sum@.len() == a.inp_w_nudge_sum@.len()
                            &&& (forall|k: int|
                                0 <= k < a.inp_w@.len() ==> b.inp_w_nudge_sum@[k]
                                    == a.inp_w_nudge_sum@[k].add_spec(
                                    base.mul_spec(s0.eval_value(l as int - 1, k)),
                                ))
                            &&& b.nudge_cnt == a.nudge_cnt + 1
                            &&& b.requested_nudge == s0.sweep_pend(
                                pend0,
                                vals,
                                sums,
                                expected@,
                                l as int,
                                n2,
                            )
                        },
                    // nodes of layer l not yet consumed:
                    forall|n2: int|
                        n <= n2 < s0.width(l as int) ==> {
                            let a = #[trigger] s0.main_at(l as int, n2);
                            let b = self.main_at(l as int, n2);
                            &&& b.requested_nudge == s0.sweep_pend(
                                pend0,
                                vals,
                                sums,
                                expected@,
                                l as int,
                                n2,
                            )
                            &&& b.bias_nudge_sum == a.bias_nudge_sum
                            &&& b.inp_w_nudge_sum@ == a.inp_w_nudge_sum@
                            &&& b.nudge_cnt == a.nudge_cnt
                        },
                    // layer below (if compute): partially fed pendings:
                    l > 1 ==> forall|j: int|
                        0 <= j < s0.width(l as int - 1) ==> {
                            let a = #[trigger] s0.main_at(l as int - 1, j);
                            let b = self.main_at(l as int - 1, j);
                            &&& b.requested_nudge == s0.sweep_pend_acc(
                                pend0,
                                vals,
                                sums,
                                expected@,
                                l as int - 1,
                                j,
                                n as int,
                            )
                            &&& b.bias_nudge_sum == a.bias_nudge_sum
                            &&& b.inp_w_nudge_sum@ == a.inp_w_nudge_sum@
                            &&& b.nudge_cnt == a.nudge_cnt
                        },
                    // layers further below untouched:
                    forall|j: int, n2: int|
                        1 <= j < l - 1 && 0 <= n2 < s0.width(j) ==> (#[trigger] s0.main_at(
                            j,
                            n2,
                        )).same_nudges(self.main_at(j, n2)),
                decreases wl - n,
            {
                let ghost c = *self;
                proof {
                    lemma_refines_eval(s0, c, l as int, n as int);
                    lemma_refines_eval_all(s0, c);
                    assert(c.nudge_base(l as int, n as int) == s0.sweep_base(
                        pend0,
                        vals,
                        sums,
                        expected@,
                        l as int,
                        n as int,
                    ));
                }
                self.calc_nudge(l, n);
                proof {
                    lemma_refines_trans(s0, c, *self);
                    if l > 1 {
                        assert forall|j: int|
                            0 <= j < s0.width(l as int - 1) implies (#[trigger] self.main_at(
                            l as int - 1,
                            j,
                        )).requested_nudge == s0.sweep_pend_acc(
                            pend0,
                            vals,
                            sums,
                            expected@,
                            l as int - 1,
                            j,
                            n as int + 1,
                        ) by {
                            assert(c.main_at(l as int, n as int).inp_w@ == s0.main_at(
                                l as int,
                                n as int,
                            ).inp_w@);
                        }
                    }
                }
                n += 1;
            }
            l -= 1;
        }
        proof {
            lemma_refines_eval_all(s0, *self);
        }
    }
}


// The apply phase of the batch protocol.
impl<S: Sigmoid> Network<S> {
    /// Resets the gradient state of the one compute node at `(li, ni)`.
    fn clear_node(&mut self, li: usize, ni: usize)
        requires
            old(self).in_range(li as int, ni as int),
            li >= 1,
            old(self).node_at(li as int, ni as int) is Main,
        ensures
            final(self).config == old(self).config,
            final(self).layers@.len() == old(self).layers@.len(),
            forall|l2: int|
                0 <= l2 < old(self).n_layers_spec() ==> #[trigger] final(self).width(l2) == old(
                    self,
                ).width(l2),
            forall|l2: int, n2: int|
                old(self).in_range(l2, n2) && (l2 != li || n2 != ni) ==> #[trigger] final(self).node_at(l2, n2)
                    == old(self).node_at(l2, n2),
            final(self).node_at(li as int, ni as int) is Main,
            final(self).main_at(li as int, ni as int).nudges_clear(),
            final(self).main_at(li as int, ni as int).inp_w_nudge_sum@.len() == old(self).main_at(
                li as int,
                ni as int,
            ).inp_w@.len(),
            old(self).main_at(li as int, ni as int).same_params(
                final(self).main_at(li as int, ni as int),
            ),
            old(self).main_at(li as int, ni as int).same_caches(
                final(self).main_at(li as int, ni as int),
            ),
    {
        match self.get_node_mut(li, ni) {
            AnyNode::Main(nd) => nd.clear_nudges(),
            AnyNode::Start(_) => vstd::pervasive::unreached(),
        }
    }

    /// Applies the batch mean of the accumulated gradients to the one
    /// compute node at `(li, ni)`, then resets its gradient state.
    fn apply_node(&mut self, li: usize, ni: usize)
        requires
            old(self).in_range(li as int, ni as int),
            li >= 1,
            old(self).node_at(li as int, ni as int) is Main,
            old(self).main_at(li as int, ni as int).wf(),
            old(self).main_at(li as int, ni as int).nudge_cnt > 0,
        ensures
            final(self).config == old(self).config,
            final(self).layers@.len() == old(self).layers@.len(),
            forall|l2: int|
                0 <= l2 < old(self).n_layers_spec() ==> #[trigger] final(self).width(l2) == old(
                    self,
                ).width(l2),
            forall|l2: int, n2: int|
                old(self).in_range(l2, n2) && (l2 != li || n2 != ni) ==> #[trigger] final(self).node_at(l2, n2)
                    == old(self).node_at(l2, n2),
            final(self).node_at(li as int, ni as int) is Main,
            ({
                let a = old(self).main_at(li as int, ni as int);
                let b = final(self).main_at(li as int, ni as int);
                let inv = S::recip_of_spec(a.nudge_cnt);
                &&& b.bias == a.bias.add_spec(a.bias_nudge_sum.mul_spec(inv))
                &&& b.inp_w@.len() == a.inp_w@.len()
                &&& (forall|k: int|
                    0 <= k < a.inp_w@.len() ==> b.inp_w@[k] == a.inp_w@[k].add_spec(
                        a.inp_w_nudge_sum@[k].mul_spec(inv),
                    ))
                &&& b.layer == a.layer
                &&& a.same_caches(b)
                &&& b.nudges_clear()
                &&& b.wf()
            }),
    {
        match self.get_node_mut(li, ni) {
            AnyNode::Main(nd) => {
                nd.apply_nudges();
                nd.clear_nudges();
            },
            AnyNode::Start(_) => {
                vstd::pervasive::unreached::<()>();
            },
        }
    }

    /// Resets every compute node's gradient accumulators and pending
    /// gradient. The memo caches are left alone.
    #[verifier::loop_isolation(false)]
    pub fn clear_nudges(&mut self)
        requires
            old(self).wf(),
        ensures
            final(self).wf(),
            final(self).config == old(self).config,
            old(self).same_eval_basis(*final(self)),
            forall|l2: int|
                0 <= l2 < old(self).n_layers_spec() ==> #[trigger] final(self).width(l2) == old(
                    self,
                ).width(l2),
            forall|n2: int|
                0 <= n2 < old(self).width(0) ==> #[trigger] final(self).node_at(0, n2) == old(
                    self,
                ).node_at(0, n2),
            forall|l: int, n: int|
                1 <= l < old(self).n_layers_spec() && 0 <= n < old(self).width(l) ==> {
                    let a = #[trigger] old(self).main_at(l, n);
                    let b = final(self).main_at(l, n);
                    &&& final(self).node_at(l, n) is Main
                    &&& a.same_params(b)
                    &&& a.same_caches(b)
                    &&& b.nudges_clear()
                },
    {
        let mut l: usize = 1;
        while l < self.layers.len()
            invariant
                1 <= l <= old(self).n_layers_spec(),
                self.config == old(self).config,
                self.layers@.len() == old(self).layers@.len(),
                forall|l2: int|
                    0 <= l2 < old(self).n_layers_spec() ==> #[trigger] self.width(l2) == old(
                        self,
                    ).width(l2),
                forall|l2: int, n2: int|
                    old(self).in_range(l2, n2) && (l2 == 0 || l2 >= l) ==> #[trigger] self.node_at(
                        l2,
                        n2,
                    ) == old(self).node_at(l2, n2),
                forall|ll: int, n: int|
                    1 <= ll < l && 0 <= n < old(self).width(ll) ==> {
                        let a = #[trigger] old(self).main_at(ll, n);
                        let b = self.main_at(ll, n);
                        &&& self.node_at(ll, n) is Main
                        &&& a.same_params(b)
                        &&& a.same_caches(b)
                        &&& b.nudges_clear()
                        &&& b.wf()
                    },
            decreases old(self).n_layers_spec() - l,
        {
            proof {
                assert(self.width(l as int) == old(self).width(l as int));
            }
            let wl = self.layers[l].len();
            let mut n: usize = 0;
            while n < wl
                invariant
                    1 <= l < old(self).n_layers_spec(),
                    n <= wl,
                    wl == old(self).width(l as int),
                    self.config == old(self).config,
                    self.layers@.len() == old(self).layers@.len(),
                    forall|l2: int|
                        0 <= l2 < old(self).n_layers_spec() ==> #[trigger] self.width(l2) == old(
                            self,
                        ).width(l2),
                    forall|l2: int, n2: int|
                        old(self).in_range(l2, n2) && (l2 == 0 || l2 > l || l2 == l && n2 >= n)
                            ==> #[trigger] self.node_at(l2, n2) == old(self).node_at(l2, n2),
                    forall|ll: int, n2: int|
                        (1 <= ll < l && 0 <= n2 < old(self).width(ll)) || (ll == l && 0 <= n2 < n)
                            ==> {
                            let a = #[trigger] old(self).main_at(ll, n2);
                            let b = self.main_at(ll, n2);
                            &&& self.node_at(ll, n2) is Main
                            &&& a.same_params(b)
                            &&& a.same_caches(b)
                            &&& b.nudges_clear()
                            &&& b.wf()
                        },
                decreases wl - n,
            {
                self.clear_node(l, n);
                n += 1;
            }
            l += 1;
        }
        proof {
            lemma_same_basis_wf(*old(self), *self);
        }
    }

    /// The apply phase: adds the batch mean of every accumulated gradient to
    /// each compute node's parameters, then resets all gradient state. All
    /// accumulation strictly precedes this. The memo caches are left alone,
    /// so cached values are stale until the caller invalidates; clearing
    /// them is the caller's responsibility, as with any parameter write.
    #[verifier::loop_isolation(false)]
    pub fn apply_nudges(&mut self)
        requires
            old(self).wf(),
            forall|l: int, n: int|
                1 <= l < old(self).n_layers_spec() && 0 <= n < old(self).width(l) ==> (
                #[trigger] old(self).main_at(l, n)).nudge_cnt > 0,
        ensures
            final(self).wf(),
            final(self).config == old(self).config,
            forall|l2: int|
                0 <= l2 < old(self).n_layers_spec() ==> #[trigger] final(self).width(l2) == old(
                    self,
                ).width(l2),
            forall|n2: int|
                0 <= n2 < old(self).width(0) ==> #[trigger] final(self).node_at(0, n2) == old(
                    self,
                ).node_at(0, n2),
            forall|l: int, n: int|
                1 <= l < old(self).n_layers_spec() && 0 <= n < old(self).width(l) ==> {
                    let a = #[trigger] old(self).main_at(l, n);
                    let b = final(self).main_at(l, n);
                    let inv = S::recip_of_spec(a.nudge_cnt);
                    &&& final(self).node_at(l, n) is Main
                    &&& b.bias == a.bias.add_spec(a.bias_nudge_sum.mul_spec(inv))
                    &&& b.inp_w@.len() == a.inp_w@.len()
                    &&& (forall|k: int|
                        0 <= k < a.inp_w@.len() ==> b.inp_w@[k] == a.inp_w@[k].add_spec(
                            a.inp_w_nudge_sum@[k].mul_spec(inv),
                        ))
                    &&& b.layer == a.layer
                    &&& a.same_caches(b)
                    &&& b.nudges_clear()
                },
    {
        let mut l: usize = 1;
        while l < self.layers.len()
            invariant
                1 <= l <= old(self).n_layers_spec(),
                self.config == old(self).config,
                self.layers@.len() == old(self).layers@.len(),
                forall|l2: int|
                    0 <= l2 < old(self).n_layers_spec() ==> #[trigger] self.width(l2) == old(
                        self,
                    ).width(l2),
                forall|l2: int, n2: int|
                    old(self).in_range(l2, n2) && (l2 == 0 || l2 >= l) ==> #[trigger] self.node_at(
                        l2,
                        n2,
                    ) == old(self).node_at(l2, n2),
                forall|ll: int, n: int|
                    1 <= ll < l && 0 <= n < old(self).width(ll) ==> {
                        let a = #[trigger] old(self).main_at(ll, n);
                        let b = self.main_at(ll, n);
                        let inv = S::recip_of_spec(a.nudge_cnt);
                        &&& self.node_at(ll, n) is Main
                        &&& b.bias == a.bias.add_spec(a.bias_nudge_sum.mul_spec(inv))
                        &&& b.inp_w@.len() == a.inp_w@.len()
                        &&& (forall|k: int|
                            0 <= k < a.inp_w@.len() ==> b.inp_w@[k] == a.inp_w@[k].add_spec(
                                a.inp_w_nudge_sum@[k].mul_spec(inv),
                            ))
                        &&& b.layer == a.layer
                        &&& a.same_caches(b)
                        &&& b.nudges_clear()
                        &&& b.wf()
                    },
            decreases old(self).n_layers_spec() - l,
        {
            proof {
                assert(self.width(l as int) == old(self).width(l as int));
            }
            let wl = self.layers[l].len();
            let mut n: usize = 0;
            while n < wl
                invariant
                    1 <= l < old(self).n_layers_spec(),
                    n <= wl,
                    wl == old(self).width(l as int),
                    self.config == old(self).config,
                    self.layers@.len() == old(self).layers@.len(),
                    forall|l2: int|
                        0 <= l2 < old(self).n_layers_spec() ==> #[trigger] self.width(l2) == old(
                            self,
                        ).width(l2),
                    forall|l2: int, n2: int|
                        old(self).in_range(l2, n2) && (l2 == 0 || l2 > l || l2 == l && n2 >= n)
                            ==> #[trigger] self.node_at(l2, n2) == old(self).node_at(l2, n2),
                    forall|ll: int, n2: int|
                        (1 <= ll < l && 0 <= n2 < old(self).width(ll)) || (ll == l && 0 <= n2 < n)
                            ==> {
                            let a = #[trigger] old(self).main_at(ll, n2);
                            let b = self.main_at(ll, n2);
                            let inv = S::recip_of_spec(a.nudge_cnt);
                            &&& self.node_at(ll, n2) is Main
                            &&& b.bias == a.bias.add_spec(a.bias_nudge_sum.mul_spec(inv))
                            &&& b.inp_w@.len() == a.inp_w@.len()
                            &&& (forall|k: int|
                                0 <= k < a.inp_w@.len() ==> b.inp_w@[k] == a.inp_w@[k].add_spec(
                                    a.inp_w_nudge_sum@[k].mul_spec(inv),
                                ))
                            &&& b.layer == a.layer
                            &&& a.same_caches(b)
                            &&& b.nudges_clear()
                            &&& b.wf()
                        },
                decreases wl - n,
            {
                self.apply_node(l, n);
                n += 1;
            }
            l += 1;
        }
        proof {
            assert(self.wf());
        }
    }
}


// The true-value model: what the nodes compute from the parameters and a
// given input vector alone, with no caches in the way. Demand-driven
// evaluation agrees with it whenever every set cache is coherent
// ([`lemma_fresh_eval_in`]); it depends only on the compute parameters
// ([`lemma_true_in_params`]).
impl<S: Sigmoid> Network<S> {
    /// The first `k` terms of the weighted sum at `(li, ni)` over the true
    /// values of the previous layer, under the input vector `inputs`.
    pub open spec fn true_wsum_in(self, inputs: Seq<S>, li: int, ni: int, k: int) -> S
        decreases li, 0int, k,
    {
        if k <= 0 || li < 1 {
            S::zero_spec()
        } else {
            self.true_wsum_in(inputs, li, ni, k - 1).add_spec(
                self.true_value_in(inputs, li - 1, k - 1).mul_spec(
                    self.main_at(li, ni).inp_w@[k - 1],
                ),
            )
        }
    }

    /// The true pre-activation sum at `(li, ni)` under `inputs`.
    pub open spec fn true_sum_in(self, inputs: Seq<S>, li: int, ni: int) -> S
        decreases li, 1int, 0int,
    {
        self.true_wsum_in(inputs, li, ni, self.main_at(li, ni).inp_w@.len() as int).add_spec(
            self.main_at(li, ni).bias,
        )
    }

    /// The true value at `(li, ni)` under `inputs`: the input entry for
    /// layer 0, the activated true sum everywhere else.
    pub open spec fn true_value_in(self, inputs: Seq<S>, li: int, ni: int) -> S
        decreases li, 2int, 0int,
    {
        if li < 1 {
            inputs[ni]
        } else {
            self.true_sum_in(inputs, li, ni).sigmoid_spec()
        }
    }

    /// The values the input layer currently holds.
    pub open spec fn start_vals(self) -> Seq<S> {
        Seq::new(self.layers@[0]@.len(), |n: int| self.node_at(0, n).start_node().value)
    }

    /// The true pre-activation sum at `(li, ni)` under the inputs the
    /// network currently holds.
    pub open spec fn true_sum(self, li: int, ni: int) -> S {
        self.true_sum_in(self.start_vals(), li, ni)
    }

    /// The true value at `(li, ni)` under the inputs the network currently
    /// holds.
    pub open spec fn true_value(self, li: int, ni: int) -> S {
        self.true_value_in(self.start_vals(), li, ni)
    }

    /// Every true value under `inputs`, as a grid.
    pub open spec fn true_grid_in(self, inputs: Seq<S>) -> Seq<Seq<S>> {
        Seq::new(
            self.layers@.len(),
            |l: int| Seq::new(self.layers@[l]@.len(), |n: int| self.true_value_in(inputs, l, n)),
        )
    }

    /// Every true pre-activation sum under `inputs`, as a grid; layer 0
    /// computes no sum, so its entries are zero.
    pub open spec fn true_sum_grid_in(self, inputs: Seq<S>) -> Seq<Seq<S>> {
        Seq::new(
            self.layers@.len(),
            |l: int|
                Seq::new(
                    self.layers@[l]@.len(),
                    |n: int|
                        if l >= 1 {
                            self.true_sum_in(inputs, l, n)
                        } else {
                            S::zero_spec()
                        },
                ),
        )
    }

    /// Every cache the network holds is coherent: a set sum cache holds the
    /// node's true sum, a set result cache its true value, both under the
    /// inputs the network currently holds. Freshly built, freshly
    /// invalidated, and freshly evaluated networks all qualify; writing a
    /// parameter or an input without invalidating is what breaks it.
    pub open spec fn fresh(self) -> bool {
        forall|l: int, n: int|
            1 <= l < self.n_layers_spec() && 0 <= n < self.width(l) ==> {
                let nd = #[trigger] self.main_at(l, n);
                &&& (nd.sum_cache is Some ==> nd.sum_cache == Some(self.true_sum(l, n)))
                &&& (nd.result_cache is Some ==> nd.result_cache == Some(self.true_value(l, n)))
            }
    }

    /// The dimensions and every compute node's parameters agree with `b`;
    /// nothing is said of the input layer, the caches or the gradient state.
    pub open spec fn same_compute_params(self, b: Network<S>) -> bool {
        &&& b.layers@.len() == self.layers@.len()
        &&& forall|l: int| 0 <= l < self.n_layers_spec() ==> #[trigger] b.width(l) == self.width(l)
        &&& forall|l: int, n: int|
            1 <= l < self.n_layers_spec() && 0 <= n < self.width(l) ==> (#[trigger] b.node_at(
                l,
                n,
            ) is Main <==> self.node_at(l, n) is Main) && (self.node_at(l, n) is Main
                ==> self.main_at(l, n).same_params(b.main_at(l, n)))
    }
}

/// Where every set cache is coherent with `inputs` (which the input layer
/// holds), the value and sum every node shows are the true ones.
pub proof fn lemma_fresh_eval_in<S: Sigmoid>(b: Network<S>, inputs: Seq<S>, li: int, ni: int)
    requires
        b.wf(),
        b.in_range(li, ni),
        forall|n: int|
            0 <= n < b.width(0) ==> #[trigger] b.node_at(0, n).start_node().value == inputs[n],
        forall|l: int, n: int|
            1 <= l < b.n_layers_spec() && 0 <= n < b.width(l) ==> {
                let nd = #[trigger] b.main_at(l, n);
                &&& (nd.sum_cache is Some ==> nd.sum_cache == Some(b.true_sum_in(inputs, l, n)))
                &&& (nd.result_cache is Some ==> nd.result_cache == Some(
                    b.true_value_in(inputs, l, n),
                ))
            },
    ensures
        b.eval_value(li, ni) == b.true_value_in(inputs, li, ni),
        li >= 1 ==> b.eval_sum(li, ni) == b.true_sum_in(inputs, li, ni),
    decreases li, 2int, 0int,
{
    if li >= 1 {
        lemma_fresh_wsum_in(b, inputs, li, ni, b.main_at(li, ni).inp_w@.len() as int);
    }
}

/// Partial weighted sums under coherent caches are the true ones.
pub proof fn lemma_fresh_wsum_in<S: Sigmoid>(
    b: Network<S>,
    inputs: Seq<S>,
    li: int,
    ni: int,
    k: int,
)
    requires
        b.wf(),
        1 <= li < b.n_layers_spec(),
        0 <= ni < b.width(li),
        k <= b.main_at(li, ni).inp_w@.len(),
        forall|n: int|
            0 <= n < b.width(0) ==> #[trigger] b.node_at(0, n).start_node().value == inputs[n],
        forall|l: int, n: int|
            1 <= l < b.n_layers_spec() && 0 <= n < b.width(l) ==> {
                let nd = #[trigger] b.main_at(l, n);
                &&& (nd.sum_cache is Some ==> nd.sum_cache == Some(b.true_sum_in(inputs, l, n)))
                &&& (nd.result_cache is Some ==> nd.result_cache == Some(
                    b.true_value_in(inputs, l, n),
                ))
            },
    ensures
        b.eval_wsum(li, ni, k) == b.true_wsum_in(inputs, li, ni, k),
    decreases li, 0int, k,
{
    if k > 0 {
        lemma_fresh_wsum_in(b, inputs, li, ni, k - 1);
        lemma_fresh_eval_in(b, inputs, li - 1, k - 1);
    }
}

/// The true values and sums read nothing but the dimensions and the compute
/// parameters, so they agree across networks that share those.
pub proof fn lemma_true_in_params<S: Sigmoid>(
    a: Network<S>,
    b: Network<S>,
    inputs: Seq<S>,
    li: int,
    ni: int,
)
    requires
        a.wf(),
        a.same_compute_params(b),
        a.in_range(li, ni),
    ensures
        b.true_value_in(inputs, li, ni) == a.true_value_in(inputs, li, ni),
        li >= 1 ==> b.true_sum_in(inputs, li, ni) == a.true_sum_in(inputs, li, ni),
    decreases li, 2int, 0int,
{
    if li >= 1 {
        lemma_true_wsum_in_params(a, b, inputs, li, ni, a.main_at(li, ni).inp_w@.len() as int);
    }
}

/// Partial true weighted sums agree across networks sharing the compute
/// parameters.
pub proof fn lemma_true_wsum_in_params<S: Sigmoid>(
    a: Network<S>,
    b: Network<S>,
    inputs: Seq<S>,
    li: int,
    ni: int,
    k: int,
)
    requires
        a.wf(),
        a.same_compute_params(b),
        1 <= li < a.n_layers_spec(),
        0 <= ni < a.width(li),
        k <= a.main_at(li, ni).inp_w@.len(),
    ensures
        b.true_wsum_in(inputs, li, ni, k) == a.true_wsum_in(inputs, li, ni, k),
    decreases li, 0int, k,
{
    if k > 0 {
        lemma_true_wsum_in_params(a, b, inputs, li, ni, k - 1);
        lemma_true_in_params(a, b, inputs, li - 1, k - 1);
    }
}

/// The backward sweep's model reads nothing of a network but the
/// dimensions, the weights and the learning rate, so it agrees across
/// networks that share those.
pub proof fn lemma_sweep_params<S: Sigmoid>(
    a: Network<S>,
    b: Network<S>,
    pend0: Seq<Seq<S>>,
    vals: Seq<Seq<S>>,
    sums: Seq<Seq<S>>,
    expected: Seq<S>,
    l: int,
    n: int,
)
    requires
        a.wf(),
        a.same_compute_params(b),
        b.config.learning_rate == a.config.learning_rate,
        1 <= l < a.n_layers_spec(),
        0 <= n < a.width(l),
    ensures
        b.sweep_pend(pend0, vals, sums, expected, l, n) == a.sweep_pend(
            pend0,
            vals,
            sums,
            expected,
            l,
            n,
        ),
        b.sweep_base(pend0, vals, sums, expected, l, n) == a.sweep_base(
            pend0,
            vals,
            sums,
            expected,
            l,
            n,
        ),
    decreases a.n_layers_spec() - 1 - l, 2int, 0int,
{
    if l < a.n_layers_spec() - 1 {
        lemma_sweep_acc_params(a, b, pend0, vals, sums, expected, l, n, a.width(l + 1));
    }
}

/// Partial pending accumulations agree across networks sharing the
/// dimensions, weights and learning rate.
pub proof fn lemma_sweep_acc_params<S: Sigmoid>(
    a: Network<S>,
    b: Network<S>,
    pend0: Seq<Seq<S>>,
    vals: Seq<Seq<S>>,
    sums: Seq<Seq<S>>,
    expected: Seq<S>,
    l: int,
    n: int,
    m: int,
)
    requires
        a.wf(),
        a.same_compute_params(b),
        b.config.learning_rate == a.config.learning_rate,
        1 <= l < a.n_layers_spec() - 1,
        0 <= n < a.width(l),
        m <= a.width(l + 1),
    ensures
        b.sweep_pend_acc(pend0, vals, sums, expected, l, n, m) == a.sweep_pend_acc(
            pend0,
            vals,
            sums,
            expected,
            l,
            n,
            m,
        ),
    decreases a.n_layers_spec() - 1 - l, 0int, m,
{
    if m > 0 {
        lemma_sweep_acc_params(a, b, pend0, vals, sums, expected, l, n, m - 1);
        lemma_sweep_params(a, b, pend0, vals, sums, expected, l + 1, m - 1);
        assert(a.main_at(l + 1, m - 1).same_params(b.main_at(l + 1, m - 1)));
    }
}


// One training step on one example.
impl<S: Sigmoid> Network<S> {
    /// Trains one step on one example: sets the inputs, invalidates every
    /// cache, and runs the backward sweep. The accumulators change exactly
    /// as the sweep model says over the true values and sums of the
    /// example's inputs; every cache ends coherent with those inputs.
    pub fn train_on_data(&mut self, data: &TrainingExample<S>)
        requires
            old(self).wf(),
            data.inputs@.len() == old(self).width(0),
            data.expected@.len() == old(self).width(old(self).n_layers_spec() - 1),
            forall|l: int, n: int|
                1 <= l < old(self).n_layers_spec() && 0 <= n < old(self).width(l) ==> (
                #[trigger] old(self).main_at(l, n)).nudge_cnt < usize::MAX,
        ensures
            final(self).wf(),
            final(self).config == old(self).config,
            old(self).same_compute_params(*final(self)),
            forall|l2: int|
                0 <= l2 < old(self).n_layers_spec() ==> #[trigger] final(self).width(l2) == old(
                    self,
                ).width(l2),
            forall|n: int|
                0 <= n < old(self).width(0) ==> #[trigger] final(self).node_at(0, n) == (
                AnyNode::Start(StartNode { value: data.inputs@[n] })),
            final(self).fresh(),
            forall|l: int, n: int|
                1 <= l < old(self).n_layers_spec() && 0 <= n < old(self).width(l) ==> {
                    let a = #[trigger] old(self).main_at(l, n);
                    let b = final(self).main_at(l, n);
                    let base = old(self).sweep_base(
                        old(self).pending_grid(),
                        old(self).true_grid_in(data.inputs@),
                        old(self).true_sum_grid_in(data.inputs@),
                        data.expected@,
                        l,
                        n,
                    );
                    &&& b.bias_nudge_sum == a.bias_nudge_sum.add_spec(base)
                    &&& b.inp_w_nudge_sum@.len() == a.inp_w_nudge_sum@.len()
                    &&& (forall|k: int|
                        0 <= k < a.inp_w@.len() ==> b.inp_w_nudge_sum@[k]
                            == a.inp_w_nudge_sum@[k].add_spec(
                            base.mul_spec(old(self).true_value_in(data.inputs@, l - 1, k)),
                        ))
                    &&& b.nudge_cnt == a.nudge_cnt + 1
                    &&& b.requested_nudge == old(self).sweep_pend(
                        old(self).pending_grid(),
                        old(self).true_grid_in(data.inputs@),
                        old(self).true_sum_grid_in(data.inputs@),
                        data.expected@,
                        l,
                        n,
                    )
                },
    {
        let ghost inp = data.inputs@;
        self.set_inputs(&data.inputs);
        let ghost s1 = *self;
        self.invalidate();
        let ghost s2 = *self;
        proof {
            assert(old(self).same_compute_params(s2));
            assert forall|l: int, n: int|
                0 <= l < s2.n_layers_spec() && 0 <= n < s2.width(l) implies #[trigger] s2.eval_value(
                l,
                n,
            ) == old(self).true_value_in(inp, l, n) && (l >= 1 ==> s2.eval_sum(l, n) == old(
                self,
            ).true_sum_in(inp, l, n)) by {
                lemma_fresh_eval_in(s2, inp, l, n);
                lemma_true_in_params(*old(self), s2, inp, l, n);
            }
            assert forall|l: int, n: int|
                1 <= l < s2.n_layers_spec() && 0 <= n < s2.width(l) implies (#[trigger] s2.main_at(
                l,
                n,
            )).requested_nudge == old(self).main_at(l, n).requested_nudge by {
                assert(s1.node_at(l, n) == old(self).node_at(l, n));
                assert(s1.main_at(l, n).same_nudges(s2.main_at(l, n)));
            }
            assert forall|l: int|
                #![trigger s2.pending_grid()[l]]
                #![trigger s2.eval_grid()[l]]
                #![trigger s2.eval_sum_grid()[l]]
                0 <= l < s2.n_layers_spec() implies s2.pending_grid()[l] == old(
                self,
            ).pending_grid()[l] && s2.eval_grid()[l] == old(self).true_grid_in(inp)[l]
                && s2.eval_sum_grid()[l] == old(self).true_sum_grid_in(inp)[l] by {
                assert(s2.layers@[l]@.len() == old(self).layers@[l]@.len());
                assert forall|n: int| 0 <= n < s2.width(l) implies s2.pending_grid()[l][n] == old(
                    self,
                ).pending_grid()[l][n] && s2.eval_sum_grid()[l][n] == old(self).true_sum_grid_in(
                    inp,
                )[l][n] by {
                    if l >= 1 {
                        lemma_fresh_eval_in(s2, inp, l, n);
                        lemma_true_in_params(*old(self), s2, inp, l, n);
                        assert(s2.pending_grid()[l][n] == s2.main_at(l, n).requested_nudge);
                        assert(old(self).pending_grid()[l][n] == old(self).main_at(
                            l,
                            n,
                        ).requested_nudge);
                        assert(s2.eval_sum_grid()[l][n] == s2.eval_sum(l, n));
                        assert(old(self).true_sum_grid_in(inp)[l][n] == old(self).true_sum_in(
                            inp,
                            l,
                            n,
                        ));
                    } else {
                        assert(s2.pending_grid()[l][n] == S::zero_spec());
                        assert(old(self).pending_grid()[l][n] == S::zero_spec());
                        assert(s2.eval_sum_grid()[l][n] == S::zero_spec());
                        assert(old(self).true_sum_grid_in(inp)[l][n] == S::zero_spec());
                    }
                }
                assert(s2.pending_grid()[l] =~= old(self).pending_grid()[l]);
                assert(s2.eval_grid()[l] =~= old(self).true_grid_in(inp)[l]);
                assert(s2.eval_sum_grid()[l] =~= old(self).true_sum_grid_in(inp)[l]);
            }
            assert(s2.pending_grid() =~= old(self).pending_grid());
            assert(s2.eval_grid() =~= old(self).true_grid_in(inp));
            assert(s2.eval_sum_grid() =~= old(self).true_sum_grid_in(inp));
        }
        self.train_on_current_data(&data.expected);
        proof {
            let pend0 = old(self).pending_grid();
            let vals = old(self).true_grid_in(inp);
            let sums = old(self).true_sum_grid_in(inp);
            let e = data.expected@;
            assert forall|l: int, n: int|
                1 <= l < old(self).n_layers_spec() && 0 <= n < old(self).width(l) implies
                s2.sweep_base(pend0, vals, sums, e, l, n) == old(self).sweep_base(
                pend0,
                vals,
                sums,
                e,
                l,
                n,
            ) && s2.sweep_pend(pend0, vals, sums, e, l, n) == old(self).sweep_pend(
                pend0,
                vals,
                sums,
                e,
                l,
                n,
            ) by {
                lemma_sweep_params(*old(self), s2, pend0, vals, sums, e, l, n);
            }
            assert forall|l: int, n: int|
                1 <= l < old(self).n_layers_spec() && 0 <= n < old(self).width(l) implies {
                let k = #[trigger] self.main_at(l, n);
                &&& (k.sum_cache is Some ==> k.sum_cache == Some(self.true_sum(l, n)))
                &&& (k.result_cache is Some ==> k.result_cache == Some(self.true_value(l, n)))
            } by {
                assert(s2.cache_refined(*self, l, n));
                assert(self.start_vals() =~= inp);
                lemma_true_in_params(*old(self), *self, inp, l, n);
            }
        }
    }
}


/// The gradient state of every compute node at once, as grids indexed by
/// layer and node: pending gradients, bias accumulators, weight
/// accumulators, and step counts. Layer 0 carries zeroes and empty rows.
pub struct GradState<S> {
    pub pend: Seq<Seq<S>>,
    pub bias: Seq<Seq<S>>,
    pub w: Seq<Seq<Seq<S>>>,
    pub cnt: Seq<Seq<int>>,
}

// The batch model: what training on a whole batch does to the gradient
// state, one example at a time.
impl<S: Sigmoid> Network<S> {
    /// Every bias accumulator, as a grid.
    pub open spec fn bias_grid(self) -> Seq<Seq<S>> {
        Seq::new(
            self.layers@.len(),
            |l: int|
                Seq::new(
                    self.layers@[l]@.len(),
                    |n: int|
                        if l >= 1 {
                            self.main_at(l, n).bias_nudge_sum
                        } else {
                            S::zero_spec()
                        },
                ),
        )
    }

    /// Every weight accumulator row, as a grid.
    pub open spec fn wsum_grid(self) -> Seq<Seq<Seq<S>>> {
        Seq::new(
            self.layers@.len(),
            |l: int|
                Seq::new(
                    self.layers@[l]@.len(),
                    |n: int|
                        if l >= 1 {
                            self.main_at(l, n).inp_w_nudge_sum@
                        } else {
                            Seq::empty()
                        },
                ),
        )
    }

    /// Every step count, as a grid.
    pub open spec fn cnt_grid(self) -> Seq<Seq<int>> {
        Seq::new(
            self.layers@.len(),
            |l: int|
                Seq::new(
                    self.layers@[l]@.len(),
                    |n: int|
                        if l >= 1 {
                            self.main_at(l, n).nudge_cnt as int
                        } else {
                            0int
                        },
                ),
        )
    }

    /// The gradient state the network currently holds.
    pub open spec fn grad_state(self) -> GradState<S> {
        GradState {
            pend: self.pending_grid(),
            bias: self.bias_grid(),
            w: self.wsum_grid(),
            cnt: self.cnt_grid(),
        }
    }

    /// One training example applied to a gradient state: the backward sweep
    /// over the example's true values and sums, starting from the state's
    /// pending gradients. The weights and the learning rate are read from
    /// `self`; the batch protocol applies nothing until the batch ends, so
    /// they are the same for every example.
    pub open spec fn step_grad(self, g: GradState<S>, inp: Seq<S>, exp: Seq<S>) -> GradState<S> {
        let vals = self.true_grid_in(inp);
        let sums = self.true_sum_grid_in(inp);
        GradState {
            pend: Seq::new(
                self.layers@.len(),
                |l: int|
                    Seq::new(
                        self.layers@[l]@.len(),
                        |n: int|
                            if l >= 1 {
                                self.sweep_pend(g.pend, vals, sums, exp, l, n)
                            } else {
                                S::zero_spec()
                            },
                    ),
            ),
            bias: Seq::new(
                self.layers@.len(),
                |l: int|
                    Seq::new(
                        self.layers@[l]@.len(),
                        |n: int|
                            if l >= 1 {
                                g.bias[l][n].add_spec(self.sweep_base(g.pend, vals, sums, exp, l, n))
                            } else {
                                S::zero_spec()
                            },
                    ),
            ),
            w: Seq::new(
                self.layers@.len(),
                |l: int|
                    Seq::new(
                        self.layers@[l]@.len(),
                        |n: int|
                            if l >= 1 {
                                Seq::new(
                                    self.main_at(l, n).inp_w@.len(),
                                    |k: int|
                                        g.w[l][n][k].add_spec(
                                            self.sweep_base(
                                                g.pend,
                                                vals,
                                                sums,
                                                exp,
                                                l,
                                                n,
                                            ).mul_spec(vals[l - 1][k]),
                                        ),
                                )
                            } else {
                                Seq::empty()
                            },
                    ),
            ),
            cnt: Seq::new(
                self.layers@.len(),
                |l: int|
                    Seq::new(
                        self.layers@[l]@.len(),
                        |n: int|
                            if l >= 1 {
                                g.cnt[l][n] + 1
                            } else {
                                0int
                            },
                    ),
            ),
        }
    }

    /// The gradient state after the first `j` examples of a batch, starting
    /// from the state the network currently holds.
    pub open spec fn batch_grad(self, batch: Seq<(Seq<S>, Seq<S>)>, j: int) -> GradState<S>
        decreases j,
    {
        if j <= 0 {
            self.grad_state()
        } else {
            self.step_grad(self.batch_grad(batch, j - 1), batch[j - 1].0, batch[j - 1].1)
        }
    }
}

/// The true-value and true-sum grids read nothing of a network but the
/// dimensions and compute parameters, so they agree across networks sharing
/// those.
pub proof fn lemma_true_grids_params<S: Sigmoid>(a: Network<S>, b: Network<S>, inputs: Seq<S>)
    requires
        a.wf(),
        a.same_compute_params(b),
    ensures
        b.true_grid_in(inputs) == a.true_grid_in(inputs),
        b.true_sum_grid_in(inputs) == a.true_sum_grid_in(inputs),
{
    assert forall|l: int|
        #![trigger b.true_grid_in(inputs)[l]]
        #![trigger b.true_sum_grid_in(inputs)[l]]
        0 <= l < a.n_layers_spec() implies b.true_grid_in(inputs)[l] == a.true_grid_in(inputs)[l]
        && b.true_sum_grid_in(inputs)[l] == a.true_sum_grid_in(inputs)[l] by {
        assert(b.layers@.len() == a.layers@.len());
        assert(b.width(l) == a.width(l));
        assert forall|n: int|
            0 <= n < a.width(l) implies b.true_grid_in(inputs)[l][n] == a.true_grid_in(
            inputs,
        )[l][n] && b.true_sum_grid_in(inputs)[l][n] == a.true_sum_grid_in(inputs)[l][n] by {
            lemma_true_in_params(a, b, inputs, l, n);
        }
        assert(b.true_grid_in(inputs)[l] =~= a.true_grid_in(inputs)[l]);
        assert(b.true_sum_grid_in(inputs)[l] =~= a.true_sum_grid_in(inputs)[l]);
    }
    assert(b.true_grid_in(inputs) =~= a.true_grid_in(inputs));
    assert(b.true_sum_grid_in(inputs) =~= a.true_sum_grid_in(inputs));
}


// Batch training.
impl<S: Sigmoid> Network<S> {
    /// Trains on every example of the batch in order, accumulating
    /// gradients across all of them with nothing cleared in between, then
    /// applies the averaged update once and resets the gradient state:
    /// mini-batch gradient descent. The gradient state accumulated over the
    /// batch is the fold [`Network::batch_grad`] of the sweep model over
    /// the examples, and each parameter receives exactly its accumulated
    /// gradient divided by its step count.
    /// What one full accumulate-and-apply cycle on `batch` leaves behind,
    /// as a relation between the state before (`self`) and after (`post`):
    /// the gradient state accumulated over the batch is the fold
    /// [`Network::batch_grad`] of the sweep model over the examples, each
    /// parameter receives its accumulated gradient divided by its step
    /// count, every accumulator ends cleared, and the input layer holds the
    /// last example's inputs.
    pub open spec fn batch_trained(self, batch: Seq<(Seq<S>, Seq<S>)>, post: Network<S>) -> bool {
        &&& post.wf()
        &&& post.config == self.config
        &&& (forall|l2: int|
            0 <= l2 < self.n_layers_spec() ==> #[trigger] post.width(l2) == self.width(l2))
        &&& (batch.len() > 0 ==> forall|n: int|
            0 <= n < self.width(0) ==> #[trigger] post.node_at(0, n) == (AnyNode::Start(
                StartNode { value: batch[batch.len() - 1].0[n] },
            )))
        &&& (forall|l: int, n: int|
            1 <= l < self.n_layers_spec() && 0 <= n < self.width(l) ==> {
                let g = self.batch_grad(batch, batch.len() as int);
                let a = #[trigger] self.main_at(l, n);
                let b = post.main_at(l, n);
                let inv = S::recip_of_spec(g.cnt[l][n] as usize);
                &&& post.node_at(l, n) is Main
                &&& b.bias == a.bias.add_spec(g.bias[l][n].mul_spec(inv))
                &&& b.inp_w@.len() == a.inp_w@.len()
                &&& (forall|k: int|
                    0 <= k < a.inp_w@.len() ==> b.inp_w@[k] == a.inp_w@[k].add_spec(
                        g.w[l][n][k].mul_spec(inv),
                    ))
                &&& b.layer == a.layer
                &&& b.nudges_clear()
            })
    }

    #[verifier::loop_isolation(false)]
    pub fn train_on_batch(&mut self, batch: &TrainingData<S>)
        requires
            old(self).wf(),
            forall|j: int|
                0 <= j < batch@.len() ==> (#[trigger] batch@[j]).0.len() == old(self).width(0)
                    && batch@[j].1.len() == old(self).width(old(self).n_layers_spec() - 1),
            forall|l: int, n: int|
                1 <= l < old(self).n_layers_spec() && 0 <= n < old(self).width(l) ==> (
                #[trigger] old(self).main_at(l, n)).nudge_cnt + batch@.len() <= usize::MAX,
            batch@.len() == 0 ==> forall|l: int, n: int|
                1 <= l < old(self).n_layers_spec() && 0 <= n < old(self).width(l) ==> (
                #[trigger] old(self).main_at(l, n)).nudge_cnt > 0,
        ensures
            old(self).batch_trained(batch@, *final(self)),
    {
        let ghost s0 = *old(self);
        let ghost bv = batch@;
        let mut j: usize = 0;
        while j < batch.0.len()
            invariant
                j <= bv.len(),
                self.wf(),
                self.config == s0.config,
                s0.same_compute_params(*self),
                forall|l2: int|
                    0 <= l2 < s0.n_layers_spec() ==> #[trigger] self.width(l2) == s0.width(l2),
                j >= 1 ==> forall|n2: int|
                    0 <= n2 < s0.width(0) ==> #[trigger] self.node_at(0, n2) == (AnyNode::Start(
                        StartNode { value: bv[j - 1].0[n2] },
                    )),
                forall|l: int, n: int|
                    1 <= l < s0.n_layers_spec() && 0 <= n < s0.width(l) ==> {
                        let g = s0.batch_grad(bv, j as int);
                        let a = #[trigger] s0.main_at(l, n);
                        let b = self.main_at(l, n);
                        &&& b.bias_nudge_sum == g.bias[l][n]
                        &&& b.inp_w_nudge_sum@.len() == a.inp_w@.len()
                        &&& (forall|k: int|
                            0 <= k < a.inp_w@.len() ==> b.inp_w_nudge_sum@[k] == g.w[l][n][k])
                        &&& b.nudge_cnt == g.cnt[l][n]
                        &&& b.requested_nudge == g.pend[l][n]
                        &&& g.cnt[l][n] == a.nudge_cnt + j
                    },
            decreases bv.len() - j,
        {
            let ghost c = *self;
            let ghost gj = s0.batch_grad(bv, j as int);
            let e = &batch.0[j];
            proof {
                assert(e@ == bv[j as int]);
                assert forall|l: int|
                    #![trigger c.pending_grid()[l]]
                    0 <= l < s0.n_layers_spec() implies c.pending_grid()[l] == gj.pend[l] by {
                    assert(c.layers@.len() == s0.layers@.len());
                    assert(c.width(l) == s0.width(l));
                    assert forall|n: int|
                        0 <= n < s0.width(l) implies c.pending_grid()[l][n] == gj.pend[l][n] by {
                        if l >= 1 {
                            assert(c.pending_grid()[l][n] == c.main_at(l, n).requested_nudge);
                        } else {
                            assert(c.pending_grid()[l][n] == S::zero_spec());
                            assert(gj.pend[l][n] == S::zero_spec());
                        }
                    }
                    assert(c.pending_grid()[l] =~= gj.pend[l]);
                }
                assert(gj.pend.len() == s0.layers@.len());
                assert(c.pending_grid() =~= gj.pend);
                lemma_true_grids_params(s0, c, bv[j as int].0);
            }
            self.train_on_data(e);
            proof {
                let inp = bv[j as int].0;
                let exp = bv[j as int].1;
                let vals = s0.true_grid_in(inp);
                let sums = s0.true_sum_grid_in(inp);
                let gj1 = s0.batch_grad(bv, j as int + 1);
                assert(gj1 == s0.step_grad(gj, inp, exp));
                assert forall|l: int, n: int|
                    1 <= l < s0.n_layers_spec() && 0 <= n < s0.width(l) implies {
                    let a = #[trigger] s0.main_at(l, n);
                    let b = self.main_at(l, n);
                    &&& b.bias_nudge_sum == gj1.bias[l][n]
                    &&& b.inp_w_nudge_sum@.len() == a.inp_w@.len()
                    &&& (forall|k: int|
                        0 <= k < a.inp_w@.len() ==> b.inp_w_nudge_sum@[k] == gj1.w[l][n][k])
                    &&& b.nudge_cnt == gj1.cnt[l][n]
                    &&& b.requested_nudge == gj1.pend[l][n]
                    &&& gj1.cnt[l][n] == a.nudge_cnt + j + 1
                } by {
                    lemma_sweep_params(s0, c, gj.pend, vals, sums, exp, l, n);
                    assert(c.sweep_base(c.pending_grid(), c.true_grid_in(inp), c.true_sum_grid_in(
                        inp,
                    ), exp, l, n) == s0.sweep_base(gj.pend, vals, sums, exp, l, n));
                    assert(gj1.bias[l][n] == gj.bias[l][n].add_spec(s0.sweep_base(
                        gj.pend,
                        vals,
                        sums,
                        exp,
                        l,
                        n,
                    )));
                    assert(gj1.pend[l][n] == s0.sweep_pend(gj.pend, vals, sums, exp, l, n));
                    assert(gj1.cnt[l][n] == gj.cnt[l][n] + 1);
                    assert forall|k: int|
                        0 <= k < s0.main_at(l, n).inp_w@.len() implies self.main_at(
                        l,
                        n,
                    ).inp_w_nudge_sum@[k] == gj1.w[l][n][k] by {
                        lemma_true_in_params(s0, c, inp, l - 1, k);
                        assert(gj1.w[l][n][k] == gj.w[l][n][k].add_spec(s0.sweep_base(
                            gj.pend,
                            vals,
                            sums,
                            exp,
                            l,
                            n,
                        ).mul_spec(vals[l - 1][k])));
                        assert(vals[l - 1][k] == s0.true_value_in(inp, l - 1, k));
                    }
                }
            }
            j += 1;
        }
        let ghost gk = s0.batch_grad(bv, bv.len() as int);
        proof {
            assert forall|l: int, n: int|
                1 <= l < self.n_layers_spec() && 0 <= n < self.width(l) implies (
            #[trigger] self.main_at(l, n)).nudge_cnt > 0 by {
                assert(gk.cnt[l][n] == s0.main_at(l, n).nudge_cnt + bv.len());
            }
        }
        self.apply_nudges();
    }
}


// Training over pre-chunked batches.
impl<S: Sigmoid> Network<S> {
    /// Sequential composition of full batch cycles: `post` is what remains
    /// of `self` after training on each batch of `batches` in order, each
    /// cycle as [`Network::batch_trained`] describes it.
    pub open spec fn batches_trained(
        self,
        batches: Seq<Seq<(Seq<S>, Seq<S>)>>,
        post: Network<S>,
    ) -> bool
        decreases batches.len(),
    {
        if batches.len() == 0 {
            post == self
        } else {
            exists|mid: Network<S>|
                self.batch_trained(batches[0], mid) && mid.batches_trained(batches.skip(1), post)
        }
    }

    /// Trains on each batch in turn: one full accumulate-and-apply cycle
    /// per batch, as [`Network::train_on_batch`] specifies it. An empty
    /// batch would reach the apply phase with empty accumulators, so every
    /// batch must hold an example; chunking never produces an empty one.
    #[verifier::loop_isolation(false)]
    pub fn train_on_batches(&mut self, batches: &Vec<TrainingData<S>>)
        requires
            old(self).wf(),
            forall|i: int, j: int|
                0 <= i < batches@.len() && 0 <= j < batches@[i]@.len() ==> ((
                #[trigger] batches@[i]@[j]).0.len() == old(self).width(0) && batches@[i]@[j].1.len()
                    == old(self).width(old(self).n_layers_spec() - 1)),
            forall|i: int| 0 <= i < batches@.len() ==> (#[trigger] batches@[i])@.len() >= 1,
            batches@.len() > 0 ==> forall|l: int, n: int|
                1 <= l < old(self).n_layers_spec() && 0 <= n < old(self).width(l) ==> (
                #[trigger] old(self).main_at(l, n)).nudge_cnt + batches@[0]@.len() <= usize::MAX,
        ensures
            final(self).wf(),
            final(self).config == old(self).config,
            forall|l2: int|
                0 <= l2 < old(self).n_layers_spec() ==> #[trigger] final(self).width(l2) == old(
                    self,
                ).width(l2),
            batches@.len() == 0 ==> *final(self) == *old(self),
            batches@.len() > 0 ==> forall|l: int, n: int|
                1 <= l < old(self).n_layers_spec() && 0 <= n < old(self).width(l)
                    ==> (#[trigger] final(self).main_at(l, n)).nudges_clear(),
            old(self).batches_trained(
                Seq::new(batches@.len(), |i: int| batches@[i]@),
                *final(self),
            ),
    {
        let ghost bviews = Seq::new(batches@.len(), |i: int| batches@[i]@);
        let mut i: usize = 0;
        proof {
            assert(bviews.subrange(0, 0) =~= Seq::<Seq<(Seq<S>, Seq<S>)>>::empty());
        }
        while i < batches.len()
            invariant
                i <= batches@.len(),
                self.wf(),
                self.config == old(self).config,
                forall|l2: int|
                    0 <= l2 < old(self).n_layers_spec() ==> #[trigger] self.width(l2) == old(
                        self,
                    ).width(l2),
                i == 0 ==> *self == *old(self),
                i >= 1 ==> forall|l: int, n: int|
                    1 <= l < old(self).n_layers_spec() && 0 <= n < old(self).width(l) ==> (
                    #[trigger] self.main_at(l, n)).nudges_clear(),
                old(self).batches_trained(bviews.subrange(0, i as int), *self),
            decreases batches@.len() - i,
        {
            let ghost c = *self;
            let bl = batches[i].0.len();
            proof {
                if i >= 1 {
                    assert forall|l: int, n: int|
                        1 <= l < old(self).n_layers_spec() && 0 <= n < old(self).width(l) implies (
                    #[trigger] self.main_at(l, n)).nudge_cnt + batches@[i as int]@.len()
                        <= usize::MAX by {
                        assert(self.main_at(l, n).nudges_clear());
                    }
                }
            }
            self.train_on_batch(&batches[i]);
            proof {
                assert forall|l: int, n: int|
                    1 <= l < old(self).n_layers_spec() && 0 <= n < old(self).width(l) implies (
                #[trigger] self.main_at(l, n)).nudges_clear() by {
                    assert(c.n_layers_spec() == old(self).n_layers_spec());
                    assert(c.width(l) == old(self).width(l));
                    assert(c.main_at(l, n).nudge_cnt >= 0);
                }
                lemma_batches_trained_push(
                    *old(self),
                    bviews.subrange(0, i as int),
                    c,
                    bviews[i as int],
                    *self,
                );
                assert(bviews.subrange(0, i as int).push(bviews[i as int]) =~= bviews.subrange(
                    0,
                    i as int + 1,
                ));
            }
            i += 1;
        }
        proof {
            assert(bviews.subrange(0, batches@.len() as int) =~= bviews);
        }
    }
}

/// One more batch cycle extends a sequential composition at its end.
pub proof fn lemma_batches_trained_push<S: Sigmoid>(
    a: Network<S>,
    s: Seq<Seq<(Seq<S>, Seq<S>)>>,
    b: Network<S>,
    x: Seq<(Seq<S>, Seq<S>)>,
    c: Network<S>,
)
    requires
        a.batches_trained(s, b),
        b.batch_trained(x, c),
    ensures
        a.batches_trained(s.push(x), c),
    decreases s.len(),
{
    if s.len() == 0 {
        assert(b == a);
        assert(s.push(x)[0] == x);
        assert(s.push(x).skip(1) =~= s);
        assert(a.batch_trained(s.push(x)[0], c) && c.batches_trained(s.push(x).skip(1), c));
    } else {
        let mid = choose|mid: Network<S>|
            a.batch_trained(s[0], mid) && mid.batches_trained(s.skip(1), b);
        lemma_batches_trained_push(mid, s.skip(1), b, x, c);
        assert(s.push(x)[0] == s[0]);
        assert(s.push(x).skip(1) =~= s.skip(1).push(x));
        assert(a.batch_trained(s.push(x)[0], mid) && mid.batches_trained(s.push(x).skip(1), c));
    }
}

/// The invalidation law: clearing every cache changes no value any node
/// shows, provided every cache that was set was coherent with the current
/// parameters and inputs. Here `s` is a network before invalidation and
/// `t` the same network after it: caches empty, everything else equal. A
/// cache made stale by a parameter or input write is exactly what the
/// proviso excludes: there invalidation is what brings the shown values
/// back to the true ones.
pub proof fn lemma_invalidate_preserves_values<S: Sigmoid>(
    s: Network<S>,
    t: Network<S>,
    li: int,
    ni: int,
)
    requires
        s.wf(),
        t.wf(),
        s.fresh(),
        s.same_eval_basis(t),
        t.caches_empty(),
        s.in_range(li, ni),
    ensures
        t.eval_value(li, ni) == s.eval_value(li, ni),
        t.eval_value(li, ni) == s.true_value(li, ni),
{
    lemma_fresh_eval_in(s, s.start_vals(), li, ni);
    lemma_fresh_eval_in(t, s.start_vals(), li, ni);
    lemma_true_in_params(s, t, s.start_vals(), li, ni);
}

} // verus!


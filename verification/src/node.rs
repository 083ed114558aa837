//! The two node kinds of the graph.
//!
//! A [`StartNode`] holds an externally set input value. A [`Node`] (a
//! compute node) holds its bias and one weight per node of the previous
//! layer, two memo caches for the pre-activation sum and the activated
//! result, and the gradient accumulators of the batch protocol. A layer
//! stores them behind the sum type [`AnyNode`].

use vstd::prelude::*;
use crate::network::Network;
use crate::sigmoid::Arith;
use crate::util::{TryIntoRef, TryIntoRefMut};

verus! {

/// An input node of layer 0: a bare value, no cache, no gradient state.
#[derive(Debug)]
pub struct StartNode<S> {
    pub value: S,
}

impl<S: Copy> StartNode<S> {
    pub fn new(value: S) -> (n: StartNode<S>)
        ensures
            n.value == value,
    {
        StartNode { value }
    }

    pub fn set_value(&mut self, value: S)
        ensures
            final(self).value == value,
    {
        self.value = value;
    }

    /// The stored value, read without a network at hand.
    pub fn get_start_value(&self) -> (r: S)
        ensures
            r == self.value,
    {
        self.value
    }
}

/// A compute node of a layer at depth one or more.
#[derive(Debug)]
pub struct Node<S> {
    pub bias: S,
    /// One weight per node of the previous layer.
    pub inp_w: Vec<S>,
    /// The index of the layer this node lives in.
    pub layer: usize,
    /// Memo cache of the pre-activation weighted sum. Forcing or clearing a
    /// cache is the caller's affair; a write to the parameters does not
    /// invalidate it.
    pub sum_cache: Option<S>,
    /// Memo cache of the activated value.
    pub result_cache: Option<S>,
    /// Accumulated bias gradient of the current batch.
    pub bias_nudge_sum: S,
    /// Accumulated weight gradients of the current batch, one per weight.
    pub inp_w_nudge_sum: Vec<S>,
    /// How many training examples have contributed to the accumulators.
    pub nudge_cnt: usize,
    /// Gradient requested by downstream nodes and not yet consumed.
    pub requested_nudge: S,
}

impl<S: Arith> Node<S> {
    /// The one structural invariant of a node on its own: the gradient
    /// accumulator is as long as the weight vector.
    pub open spec fn wf(self) -> bool {
        self.inp_w_nudge_sum@.len() == self.inp_w@.len()
    }

    /// The parameters and the address: everything the apply step owns.
    pub open spec fn same_params(self, other: Node<S>) -> bool {
        &&& other.bias == self.bias
        &&& other.inp_w@ == self.inp_w@
        &&& other.layer == self.layer
    }

    /// Both memo caches.
    pub open spec fn same_caches(self, other: Node<S>) -> bool {
        &&& other.sum_cache == self.sum_cache
        &&& other.result_cache == self.result_cache
    }

    /// The whole gradient state of the batch protocol.
    pub open spec fn same_nudges(self, other: Node<S>) -> bool {
        &&& other.bias_nudge_sum == self.bias_nudge_sum
        &&& other.inp_w_nudge_sum@ == self.inp_w_nudge_sum@
        &&& other.nudge_cnt == self.nudge_cnt
        &&& other.requested_nudge == self.requested_nudge
    }

    /// The gradient state immediately after construction, after
    /// `clear_nudges`, and after every apply step.
    pub open spec fn nudges_clear(self) -> bool {
        &&& self.nudge_cnt == 0
        &&& self.bias_nudge_sum == S::zero_spec()
        &&& self.requested_nudge == S::zero_spec()
        &&& forall|i: int|
            0 <= i < self.inp_w_nudge_sum@.len() ==> self.inp_w_nudge_sum@[i] == S::zero_spec()
    }

    pub fn new(bias: S, inp_w: &Vec<S>, layer: usize) -> (n: Node<S>)
        ensures
            n.wf(),
            n.bias == bias,
            n.inp_w@ == inp_w@,
            n.layer == layer,
            n.sum_cache is None,
            n.result_cache is None,
            n.nudges_clear(),
    {
        Node {
            bias,
            inp_w: copy_scalars(inp_w),
            layer,
            result_cache: None,
            sum_cache: None,
            bias_nudge_sum: S::zero(),
            inp_w_nudge_sum: zero_scalars(inp_w.len()),
            nudge_cnt: 0,
            requested_nudge: S::zero(),
        }
    }

    /// Whether this node's layer index names the network's last layer.
    pub fn is_last_layer(&self, network: &Network<S>) -> (r: bool)
        requires
            network.layers@.len() >= 1,
        ensures
            r == (self.layer == network.layers@.len() - 1),
    {
        self.layer == network.n_layers() - 1
    }

    pub fn get_weight(&self, wi: usize) -> (r: S)
        requires
            wi < self.inp_w@.len(),
        ensures
            r == self.inp_w@[wi as int],
    {
        self.inp_w[wi]
    }

    pub fn set_weight(&mut self, wi: usize, v: S)
        requires
            wi < old(self).inp_w@.len(),
        ensures
            final(self).inp_w@ == old(self).inp_w@.update(wi as int, v),
            final(self).bias == old(self).bias,
            final(self).layer == old(self).layer,
            old(self).same_caches(*final(self)),
            old(self).same_nudges(*final(self)),
    {
        self.inp_w.set(wi, v);
    }

    /// Adds a gradient request to the pending amount; it is consumed later
    /// by the node's own backward step.
    pub fn request_nudge(&mut self, nudge: S)
        ensures
            final(self).requested_nudge == old(self).requested_nudge.add_spec(nudge),
            final(self).bias_nudge_sum == old(self).bias_nudge_sum,
            final(self).inp_w_nudge_sum@ == old(self).inp_w_nudge_sum@,
            final(self).nudge_cnt == old(self).nudge_cnt,
            old(self).same_params(*final(self)),
            old(self).same_caches(*final(self)),
    {
        self.requested_nudge = self.requested_nudge.add(nudge);
    }

    /// Adds the batch mean of every accumulated gradient to the matching
    /// parameter. The accumulators themselves are left alone; clearing them
    /// is a separate step.
    pub fn apply_nudges(&mut self)
        requires
            old(self).wf(),
            old(self).nudge_cnt > 0,
        ensures
            final(self).wf(),
            final(self).bias == old(self).bias.add_spec(
                old(self).bias_nudge_sum.mul_spec(S::recip_of_spec(old(self).nudge_cnt)),
            ),
            final(self).inp_w@.len() == old(self).inp_w@.len(),
            forall|i: int|
                0 <= i < old(self).inp_w@.len() ==> final(self).inp_w@[i] == old(
                    self,
                ).inp_w@[i].add_spec(
                    old(self).inp_w_nudge_sum@[i].mul_spec(S::recip_of_spec(old(self).nudge_cnt)),
                ),
            final(self).layer == old(self).layer,
            old(self).same_caches(*final(self)),
            old(self).same_nudges(*final(self)),
    {
        let inv_cnt = S::recip_of(self.nudge_cnt);
        self.bias = self.bias.add(self.bias_nudge_sum.mul(inv_cnt));
        let mut i: usize = 0;
        while i < self.inp_w.len()
            invariant
                self.wf(),
                i <= self.inp_w@.len(),
                inv_cnt == S::recip_of_spec(old(self).nudge_cnt),
                self.inp_w@.len() == old(self).inp_w@.len(),
                forall|j: int|
                    0 <= j < i ==> self.inp_w@[j] == old(self).inp_w@[j].add_spec(
                        old(self).inp_w_nudge_sum@[j].mul_spec(
                            S::recip_of_spec(old(self).nudge_cnt),
                        ),
                    ),
                forall|j: int| i <= j < self.inp_w@.len() ==> self.inp_w@[j] == old(self).inp_w@[j],
                self.bias == old(self).bias.add_spec(
                    old(self).bias_nudge_sum.mul_spec(S::recip_of_spec(old(self).nudge_cnt)),
                ),
                self.layer == old(self).layer,
                old(self).same_caches(*self),
                old(self).same_nudges(*self),
            decreases self.inp_w@.len() - i,
        {
            let stepped = self.inp_w[i].add(self.inp_w_nudge_sum[i].mul(inv_cnt));
            self.inp_w.set(i, stepped);
            i += 1;
        }
    }

    /// Resets every gradient accumulator to zero. The memo caches are left
    /// alone.
    pub fn clear_nudges(&mut self)
        ensures
            final(self).wf(),
            final(self).nudges_clear(),
            final(self).inp_w_nudge_sum@.len() == old(self).inp_w@.len(),
            old(self).same_params(*final(self)),
            old(self).same_caches(*final(self)),
    {
        self.nudge_cnt = 0;
        self.bias_nudge_sum = S::zero();
        self.inp_w_nudge_sum = zero_scalars(self.inp_w.len());
        self.requested_nudge = S::zero();
    }

    /// Clears both memo caches.
    pub fn invalidate(&mut self)
        ensures
            final(self).sum_cache is None,
            final(self).result_cache is None,
            old(self).same_params(*final(self)),
            old(self).same_nudges(*final(self)),
    {
        self.sum_cache = None;
        self.result_cache = None;
    }
}

/// A node of either kind, as a layer stores it.
#[derive(Debug)]
pub enum AnyNode<S> {
    Start(StartNode<S>),
    Main(Node<S>),
}

impl<S: Arith> AnyNode<S> {
    /// The input node held, meaningful on the `Start` case.
    pub open spec fn start_node(self) -> StartNode<S>
        recommends
            self is Start,
    {
        self->Start_0
    }

    /// The compute node held, meaningful on the `Main` case.
    pub open spec fn main_node(self) -> Node<S>
        recommends
            self is Main,
    {
        self->Main_0
    }

    /// Clears the memo caches of a compute node; an input node has none, so
    /// there the call does nothing.
    pub fn invalidate(&mut self)
        ensures
            *old(self) is Start ==> *final(self) == *old(self),
            *old(self) is Main ==> {
                &&& *final(self) is Main
                &&& final(self).main_node().sum_cache is None
                &&& final(self).main_node().result_cache is None
                &&& old(self).main_node().same_params(final(self).main_node())
                &&& old(self).main_node().same_nudges(final(self).main_node())
            },
    {
        match self {
            AnyNode::Start(_) => {},
            AnyNode::Main(n) => n.invalidate(),
        }
    }

    /// Adds to a compute node's pending gradient; an input node terminates
    /// the backward sweep, so there the call does nothing.
    pub fn request_nudge(&mut self, nudge: S)
        ensures
            *old(self) is Start ==> *final(self) == *old(self),
            *old(self) is Main ==> {
                &&& *final(self) is Main
                &&& final(self).main_node().requested_nudge == old(
                    self,
                ).main_node().requested_nudge.add_spec(nudge)
                &&& final(self).main_node().bias_nudge_sum == old(self).main_node().bias_nudge_sum
                &&& final(self).main_node().inp_w_nudge_sum@ == old(
                    self,
                ).main_node().inp_w_nudge_sum@
                &&& final(self).main_node().nudge_cnt == old(self).main_node().nudge_cnt
                &&& old(self).main_node().same_params(final(self).main_node())
                &&& old(self).main_node().same_caches(final(self).main_node())
            },
    {
        match self {
            AnyNode::Start(_) => {},
            AnyNode::Main(n) => n.request_nudge(nudge),
        }
    }
}

impl<S: Arith> TryIntoRef<StartNode<S>> for AnyNode<S> {
    open spec fn is_case(&self) -> bool {
        *self is Start
    }

    open spec fn as_case(&self) -> StartNode<S> {
        self.start_node()
    }

    fn try_into_ref(&self) -> Option<&StartNode<S>> {
        match self {
            AnyNode::Start(n) => Some(n),
            AnyNode::Main(_) => None,
        }
    }
}

impl<S: Arith> TryIntoRef<Node<S>> for AnyNode<S> {
    open spec fn is_case(&self) -> bool {
        *self is Main
    }

    open spec fn as_case(&self) -> Node<S> {
        self.main_node()
    }

    fn try_into_ref(&self) -> Option<&Node<S>> {
        match self {
            AnyNode::Start(_) => None,
            AnyNode::Main(n) => Some(n),
        }
    }
}

impl<S: Arith> TryIntoRefMut<StartNode<S>> for AnyNode<S> {
    open spec fn is_case_mut(&self) -> bool {
        *self is Start
    }

    fn try_into_ref_mut(&mut self) -> Option<&mut StartNode<S>> {
        match self {
            AnyNode::Start(n) => Some(n),
            AnyNode::Main(_) => None,
        }
    }
}

impl<S: Arith> TryIntoRefMut<Node<S>> for AnyNode<S> {
    open spec fn is_case_mut(&self) -> bool {
        *self is Main
    }

    fn try_into_ref_mut(&mut self) -> Option<&mut Node<S>> {
        match self {
            AnyNode::Start(_) => None,
            AnyNode::Main(n) => Some(n),
        }
    }
}

/// A fresh vector of `n` zeroes, as the accumulators start out.
pub(crate) fn zero_scalars<S: Arith>(n: usize) -> (r: Vec<S>)
    ensures
        r@.len() == n,
        forall|i: int| 0 <= i < n ==> r@[i] == S::zero_spec(),
{
    let mut r: Vec<S> = Vec::new();
    while r.len() < n
        invariant
            r@.len() <= n,
            forall|i: int| 0 <= i < r@.len() ==> r@[i] == S::zero_spec(),
        decreases n - r@.len(),
    {
        r.push(S::zero());
    }
    r
}

/// An owned copy of a scalar vector.
pub(crate) fn copy_scalars<S: Copy>(v: &Vec<S>) -> (r: Vec<S>)
    ensures
        r@ == v@,
{
    let mut r: Vec<S> = Vec::new();
    let mut i: usize = 0;
    while i < v.len()
        invariant
            i <= v@.len(),
            r@ == v@.subrange(0, i as int),
        decreases v@.len() - i,
    {
        r.push(v[i]);
        i += 1;
    }
    proof {
        assert(r@ == v@.subrange(0, v@.len() as int));
        assert(v@.subrange(0, v@.len() as int) =~= v@);
    }
    r
}

} // verus!

use sigmoid_net::network::{Network, NetworkConfig};
use sigmoid_net::node::{AnyNode, Node, StartNode};
use sigmoid_net::sigmoid::{Arith, Sigmoid};
use sigmoid_net::training_data::{TrainingData, TrainingExample};
use sigmoid_net::util::{error_deriv, error_f, TryIntoRef, TryIntoRefMut};

/// Scalar carrier over `f64`.
#[derive(Debug, Clone, Copy, PartialEq)]
struct F(f64);

impl Arith for F {
    fn zero_spec() -> F {
        F(0.0)
    }
    fn one_spec() -> F {
        F(1.0)
    }
    fn two_spec() -> F {
        F(2.0)
    }
    fn add_spec(self, other: F) -> F {
        self.add(other)
    }
    fn sub_spec(self, other: F) -> F {
        self.sub(other)
    }
    fn mul_spec(self, other: F) -> F {
        self.mul(other)
    }
    fn neg_spec(self) -> F {
        self.neg()
    }
    fn recip_of_spec(n: usize) -> F {
        F::recip_of(n)
    }
    fn zero() -> F {
        F(0.0)
    }
    fn one() -> F {
        F(1.0)
    }
    fn two() -> F {
        F(2.0)
    }
    fn add(self, other: F) -> F {
        F(self.0 + other.0)
    }
    fn sub(self, other: F) -> F {
        F(self.0 - other.0)
    }
    fn mul(self, other: F) -> F {
        F(self.0 * other.0)
    }
    fn neg(self) -> F {
        F(-self.0)
    }
    fn recip_of(n: usize) -> F {
        F(1.0 / (n as f64))
    }
}

impl Sigmoid for F {
    fn sigmoid_spec(self) -> F {
        self.sigmoid()
    }
    fn sig_deriv_spec(self) -> F {
        self.sig_deriv()
    }
    fn sigmoid(&self) -> F {
        F(1.0 / (1.0 + (-self.0).exp()))
    }
    fn sig_deriv(&self) -> F {
        let s = self.sigmoid().0;
        F(s * (1.0 - s))
    }
}

/// Scalar carrier over `f32`.
#[derive(Debug, Clone, Copy, PartialEq)]
struct G(f32);

impl Arith for G {
    fn zero_spec() -> G {
        G(0.0)
    }
    fn one_spec() -> G {
        G(1.0)
    }
    fn two_spec() -> G {
        G(2.0)
    }
    fn add_spec(self, other: G) -> G {
        self.add(other)
    }
    fn sub_spec(self, other: G) -> G {
        self.sub(other)
    }
    fn mul_spec(self, other: G) -> G {
        self.mul(other)
    }
    fn neg_spec(self) -> G {
        self.neg()
    }
    fn recip_of_spec(n: usize) -> G {
        G::recip_of(n)
    }
    fn zero() -> G {
        G(0.0)
    }
    fn one() -> G {
        G(1.0)
    }
    fn two() -> G {
        G(2.0)
    }
    fn add(self, other: G) -> G {
        G(self.0 + other.0)
    }
    fn sub(self, other: G) -> G {
        G(self.0 - other.0)
    }
    fn mul(self, other: G) -> G {
        G(self.0 * other.0)
    }
    fn neg(self) -> G {
        G(-self.0)
    }
    fn recip_of(n: usize) -> G {
        G(1.0 / (n as f32))
    }
}

impl Sigmoid for G {
    fn sigmoid_spec(self) -> G {
        self.sigmoid()
    }
    fn sig_deriv_spec(self) -> G {
        self.sig_deriv()
    }
    fn sigmoid(&self) -> G {
        G(1.0 / (1.0 + (-self.0).exp()))
    }
    fn sig_deriv(&self) -> G {
        let s = self.sigmoid().0;
        G(s * (1.0 - s))
    }
}

/// Tolerance comparison for f64, a few ulps of relative error.
fn f64_eq(a: f64, b: f64) -> bool {
    if a.is_nan() || b.is_nan() {
        a.is_nan() && b.is_nan()
    } else {
        a == b || ((a - b).abs() / b <= f64::EPSILON * 4.0)
    }
}

/// Tolerance comparison for f32.
fn f32_eq(a: f32, b: f32) -> bool {
    if a.is_nan() || b.is_nan() {
        a.is_nan() && b.is_nan()
    } else {
        a == b || ((a - b).abs() / b <= f32::EPSILON * 4.0)
    }
}

fn fvec(xs: &[f64]) -> Vec<F> {
    xs.iter().map(|x| F(*x)).collect()
}

// ---- activation ----

#[test]
fn sig_f32() {
    assert!(f32_eq(G(0.0_f32).sigmoid().0, 0.5_f32));
    assert!(f32_eq(G(1.5_f32).sigmoid().0, 0.8175744_f32));
}

#[test]
fn sig_f64() {
    assert!(f64_eq(F(0.0_f64).sigmoid().0, 0.5_f64));
    assert!(f64_eq(F(1.5_f64).sigmoid().0, 0.8175744761936437_f64));
}

#[test]
fn sig_deriv_f32() {
    assert!(f32_eq(G(0.0_f32).sig_deriv().0, 0.25_f32));
    assert!(f32_eq(G(-1.8_f32).sig_deriv().0, 0.121729344_f32));
}

#[test]
fn sig_deriv_f64() {
    assert!(f64_eq(F(0.0_f64).sig_deriv().0, 0.25_f64));
    assert!(f64_eq(F(-1.8_f64).sig_deriv().0, 0.12172934028708539_f64));
}

#[test]
fn sig_inf() {
    assert_eq!(F(f64::INFINITY).sigmoid().0, 1.0);
    assert_eq!(F(f64::NEG_INFINITY).sigmoid().0, 0.0);
    assert_eq!(G(f32::INFINITY).sigmoid().0, 1.0);
    assert_eq!(G(f32::NEG_INFINITY).sigmoid().0, 0.0);
}

#[test]
fn sig_deriv_inf() {
    assert_eq!(F(f64::INFINITY).sig_deriv().0, 0.0);
    assert_eq!(F(f64::NEG_INFINITY).sig_deriv().0, 0.0);
    assert_eq!(G(f32::INFINITY).sig_deriv().0, 0.0);
    assert_eq!(G(f32::NEG_INFINITY).sig_deriv().0, 0.0);
}

// ---- squared-error helpers ----

#[test]
fn error_f_squares() {
    assert_eq!(error_f(F(0.5), F(0.25)).0, 0.0625);
    assert_eq!(error_f(F(0.25), F(0.5)).0, 0.0625);
}

#[test]
fn error_deriv_doubles() {
    assert_eq!(error_deriv(F(0.75), F(0.5)).0, 0.5);
    assert_eq!(error_deriv(F(0.25), F(0.5)).0, -0.5);
}

// ---- network construction ----

#[test]
fn init_by_shape() {
    let shape = vec![5usize, 3, 2];
    let nw: Network<F> = Network::new(&shape);
    assert_eq!(nw.layers.len(), shape.len());
    for (i, l) in nw.layers.iter().enumerate() {
        assert_eq!(l.len(), shape[i]);
    }
}

#[test]
fn nodes_know_self_layer() {
    let shape = vec![5usize, 3, 2];
    let nw: Network<F> = Network::new(&shape);
    for (i, l) in nw.layers.iter().enumerate().skip(1) {
        for n in l.iter() {
            let node: &Node<F> = n.try_into_ref().unwrap();
            assert_eq!(node.layer, i);
        }
    }
}

#[test]
fn nodes_have_correct_inp_w_length() {
    let shape = vec![5usize, 3, 2];
    let nw: Network<F> = Network::new(&shape);
    for (i, l) in nw.layers.iter().enumerate().skip(1) {
        for n in l.iter() {
            let node: &Node<F> = n.try_into_ref().unwrap();
            assert_eq!(node.inp_w.len(), shape[i - 1]);
        }
    }
}

#[test]
fn start_layer_has_start_nodes() {
    let shape = vec![5usize, 3, 2];
    let nw: Network<F> = Network::new(&shape);
    for n in nw.layers[0].iter() {
        let _: &StartNode<F> = n.try_into_ref().expect("Start layer must only conatin start nodes");
    }
}

#[test]
fn main_layers_have_main_nodes() {
    let shape = vec![5usize, 3, 2];
    let nw: Network<F> = Network::new(&shape);
    for l in nw.layers.iter().skip(1) {
        for n in l.iter() {
            let _: &Node<F> = n.try_into_ref().expect("Main layer must only conatin main nodes");
        }
    }
}

#[test]
fn config_built_correctly() {
    let shape = vec![5usize, 3, 2];
    let nw: Network<F> = Network::new(&shape);
    assert_eq!(
        nw.config,
        NetworkConfig { shape: vec![5, 3, 2], ..Default::default() }
    );
}

#[test]
fn config_arg_respected() {
    let config = NetworkConfig { learning_rate: F(3.5), shape: vec![10usize, 6, 3] };
    let nw = Network::with_config(&config);
    assert_eq!(nw.config, config);
}

fn new_nw() -> Network<F> {
    Network::new(&vec![5usize, 3, 2])
}

// ---- cost ----

#[test]
fn current_cost_zero() {
    let mut nw = new_nw();
    nw.set_inputs(&fvec(&[0.0; 5]));
    assert_eq!(nw.get_current_cost(&fvec(&[0.5; 2])).0, 0.0);
}

#[test]
fn current_cost_normal() {
    let mut nw: Network<F> = Network::new(&vec![7usize, 5, 5, 2]);
    nw.set_inputs(&fvec(&[0.0; 7]));
    assert!(f64_eq(nw.get_current_cost(&fvec(&[0.9, 0.31])).0, 0.1961));
}

// ---- caches and invalidation ----

#[test]
fn test_invaildate() {
    let mut nw = new_nw();
    nw.get_outputs();
    for l in 1..nw.layers.len() {
        for n in 0..nw.layers[l].len() {
            let node = nw.get_main_node(l, n);
            assert!(node.sum_cache.is_some());
            assert!(node.result_cache.is_some());
        }
    }
    nw.invalidate();
    for l in 1..nw.layers.len() {
        for n in 0..nw.layers[l].len() {
            let node = nw.get_main_node(l, n);
            assert!(node.sum_cache.is_none());
            assert!(node.result_cache.is_none());
        }
    }
}

#[test]
fn test_set_input() {
    let mut nw = new_nw();
    nw.set_input(3, F(0.7));
    assert_eq!(nw.get_value(0, 3).0, 0.7);
}

#[test]
fn test_set_inputs() {
    let mut nw = new_nw();
    let inps = fvec(&[0.2; 5]);
    nw.set_inputs(&inps);
    for i in 0..5 {
        assert_eq!(nw.get_value(0, i), inps[i]);
    }
}

#[test]
fn get_output_from_cache_forced() {
    let mut nw = new_nw();
    for i in 0..*nw.config.shape.last().unwrap() {
        nw.get_main_node_mut(2, i).result_cache = Some(F(-4.5));
        assert_eq!(nw.get_output(i).0, -4.5);
    }
}

#[test]
fn get_outputs_from_cache_forced() {
    let mut nw = new_nw();
    let out_cnt = *nw.config.shape.last().unwrap();
    for i in 0..out_cnt {
        nw.get_main_node_mut(2, i).result_cache = Some(F(0.2));
    }
    assert_eq!(nw.get_outputs(), vec![F(0.2); out_cnt]);
}

// ---- start nodes ----

#[test]
fn test_new() {
    let n = StartNode::new(F(0.7));
    assert_eq!(n.value.0, 0.7);
}

#[test]
fn set_value() {
    let mut n = StartNode::new(F(3.3));
    n.set_value(F(0.1));
    assert_eq!(n.value.0, 0.1);
}

#[test]
fn get_value() {
    let mut nw: Network<F> = Network::new(&vec![1usize, 1]);
    nw.get_start_node_mut(0).value = F(-1.9);
    assert_eq!(nw.get_value(0, 0).0, -1.9);
}

#[test]
fn get_value_start() {
    let n = StartNode::new(F(8.7));
    assert_eq!(n.get_start_value().0, 8.7);
}

// ---- compute nodes ----

/// Makes network with shape `[3, 5, 4, 2]`
fn make_nw() -> Network<F> {
    Network::new(&vec![3usize, 5, 4, 2])
}

#[test]
fn new_params() {
    let n = Node::new(F(2.1), &vec![F(0.4), F(-7.4)], 4);
    assert_eq!(n.bias.0, 2.1);
    assert_eq!(n.inp_w, vec![F(0.4), F(-7.4)]);
    assert_eq!(n.layer, 4);
}

#[test]
fn new_cache() {
    let n = Node::new(F(2.1), &vec![F(0.4), F(-7.4)], 4);
    assert_eq!(n.sum_cache, None);
    assert_eq!(n.result_cache, None);
}

#[test]
fn new_nudges() {
    let n = Node::new(F(2.1), &vec![F(0.4), F(-7.4)], 4);
    assert_eq!(n.nudge_cnt, 0);
    assert_eq!(n.bias_nudge_sum.0, 0.0);
    assert_eq!(n.inp_w_nudge_sum, vec![F(0.0); 2]);
}

#[test]
fn is_last_layer_in_network() {
    let nw: Network<F> = Network::new(&vec![1usize, 2, 3]);
    let n = nw.get_main_node(2, 1);
    assert_eq!(n.is_last_layer(&nw), true);
    let n = nw.get_main_node(1, 0);
    assert_eq!(n.is_last_layer(&nw), false);
}

#[test]
fn is_last_layer_indep() {
    let nw: Network<F> = Network::new(&vec![1usize, 2, 3]);
    let n = Node::new(F(0.2), &vec![F(2.1), F(-0.3)], 2);
    assert_eq!(n.is_last_layer(&nw), true);
    let n = Node::new(F(0.2), &vec![F(-9.8)], 1);
    assert_eq!(n.is_last_layer(&nw), false);
}

#[test]
fn get_weight() {
    let n = Node::new(F(0.0), &vec![F(1.0), F(-0.2), F(0.0)], 1);
    assert_eq!(n.get_weight(0).0, 1.0);
    assert_eq!(n.get_weight(2).0, 0.0);
}

#[test]
fn set_weight() {
    let mut n = Node::new(F(0.0), &vec![F(1.0), F(-0.2), F(0.0)], 1);
    n.set_weight(2, F(3.4));
    assert_eq!(n.inp_w[2].0, 3.4);
}

#[test]
fn invalidate_sum_cache() {
    let mut n = Node::new(F(2.1), &vec![F(0.4), F(-7.4)], 2);
    n.sum_cache = Some(F(-0.8));
    n.invalidate();
    assert_eq!(n.sum_cache, None);
}

#[test]
fn invalidate_result_cache() {
    let mut n = Node::new(F(2.1), &vec![F(0.4), F(-7.4)], 2);
    n.result_cache = Some(F(-0.8));
    n.invalidate();
    assert_eq!(n.result_cache, None);
}

#[test]
fn sum_uses_cached() {
    let mut nw = make_nw();
    nw.get_main_node_mut(2, 1).sum_cache = Some(F(-77.6));
    assert_eq!(nw.get_sum(2, 1).0, -77.6);
}

#[test]
fn sums_prev_layer_and_bias() {
    let mut nw = make_nw();
    nw.set_inputs(&fvec(&[0.4, 0.8, 0.1]));
    let n = nw.get_main_node_mut(1, 2);
    n.bias = F(0.5);
    n.inp_w = fvec(&[2.3, -1.2, 0.6]);
    n.sum_cache = None; // ensure not cached
    let expected = 0.4 * 2.3 - 0.8 * 1.2 + 0.1 * 0.6 + 0.5;
    assert_eq!(nw.get_sum(1, 2).0, expected);
}

#[test]
fn sum_sets_cache() {
    let mut nw = make_nw();
    nw.set_inputs(&fvec(&[0.4, 0.8, 0.1]));
    let n = nw.get_main_node_mut(1, 2);
    n.bias = F(0.5);
    n.inp_w = fvec(&[2.3, -1.2, 0.6]);
    n.sum_cache = None; // ensure not cached
    let value = nw.get_sum(1, 2);
    assert_eq!(nw.get_main_node(1, 2).sum_cache, Some(value));
}

#[test]
fn value_uses_cached() {
    let mut nw = make_nw();
    nw.get_main_node_mut(2, 1).result_cache = Some(F(0.9031));
    assert_eq!(nw.get_value(2, 1).0, 0.9031);
}

#[test]
fn uses_cached_sum() {
    let mut nw = make_nw();
    nw.get_main_node_mut(2, 1).sum_cache = Some(F(5.67));
    assert_eq!(nw.get_value(2, 1), F(5.67).sigmoid());
}

#[test]
fn value_sets_cache() {
    let mut nw = make_nw();
    nw.get_main_node_mut(2, 1).sum_cache = Some(F(5.67));
    let value = nw.get_value(2, 1);
    assert_eq!(nw.get_main_node(2, 1).result_cache, Some(value));
}

#[test]
fn works_without_cache() {
    let mut nw = make_nw();
    nw.set_inputs(&fvec(&[0.9, 0.0, 0.1]));
    let n = nw.get_main_node_mut(1, 2);
    n.bias = F(-3.5);
    n.inp_w = fvec(&[2.3, -1.2, 0.6]);
    n.invalidate(); // ensure nothing cached
    let expected = F(0.9 * 2.3 - 0.0 * 1.2 + 0.1 * 0.6 - 3.5).sigmoid();
    assert_eq!(nw.get_value(1, 2), expected);
}

#[test]
fn request_nudge() {
    let mut n = Node::new(F(0.2), &vec![F(2.1), F(-0.3)], 1);
    n.request_nudge(F(3.1));
    assert_eq!(n.requested_nudge.0, 3.1);
    n.request_nudge(F(-0.8));
    assert_eq!(n.requested_nudge.0, 3.1 - 0.8);
}

#[test]
fn clear_nudges() {
    let mut n = Node::new(F(1.2), &vec![F(2.2), F(-0.33)], 2);
    n.bias_nudge_sum = F(7.998);
    n.inp_w_nudge_sum = fvec(&[3.1, -2.8]);
    n.requested_nudge = F(-3.02);
    n.nudge_cnt = 6;
    n.clear_nudges();
    assert_eq!(n.nudge_cnt, 0);
    assert_eq!(n.bias_nudge_sum.0, 0.0);
    assert_eq!(n.inp_w_nudge_sum, vec![F(0.0); 2]);
    assert_eq!(n.requested_nudge.0, 0.0);
}

// ---- one backward step ----

fn layer1_template(lr: f64) {
    let mut nw = Network::with_config(&NetworkConfig { learning_rate: F(lr), shape: vec![3usize, 2] });
    nw.set_inputs(&fvec(&[0.8, 0.12, 0.53]));
    nw.get_main_node_mut(1, 1).request_nudge(F(0.9));
    nw.get_main_node_mut(1, 1).sum_cache = Some(F(-0.8));
    nw.calc_nudge(1, 1);
    let base_nudge = 0.9 * F(-0.8).sig_deriv().0 * lr;
    let n = nw.get_main_node(1, 1);
    assert_eq!(n.bias_nudge_sum.0, base_nudge);
    assert_eq!(
        n.inp_w_nudge_sum,
        vec![F(base_nudge * 0.8), F(base_nudge * 0.12), F(base_nudge * 0.53)]
    );
    assert_eq!(n.nudge_cnt, 1);
}

#[test]
fn no_prev_layer() {
    layer1_template(1.0);
}

#[test]
fn no_prev_learning_rate() {
    layer1_template(2.7);
    layer1_template(0.3);
}

fn layer2_template(lr: f64) {
    let mut nw = Network::with_config(&NetworkConfig {
        learning_rate: F(lr),
        shape: vec![5usize, 5, 3],
    });
    let layer_1_value = [0.2, 0.9, 0.0, 0.3, 1.0];
    for i in 0..5 {
        nw.get_main_node_mut(1, i).result_cache = Some(F(layer_1_value[i]));
    }
    let inp_w = fvec(&[3.5, 0.3, -2.1, 0.0, -4.7]);
    nw.get_main_node_mut(2, 1).inp_w = inp_w.clone();
    nw.get_main_node_mut(2, 1).request_nudge(F(-0.3));
    nw.get_main_node_mut(2, 1).sum_cache = Some(F(1.8));
    nw.calc_nudge(2, 1);
    let base_nudge = -0.3 * F(1.8).sig_deriv().0 * lr;
    let n = nw.get_main_node(2, 1);
    assert_eq!(n.bias_nudge_sum.0, base_nudge);
    assert_eq!(
        n.inp_w_nudge_sum,
        layer_1_value.iter().map(|nv| F(base_nudge * nv)).collect::<Vec<_>>()
    );
    let actual: Vec<F> = (0..5).map(|i| nw.get_main_node(1, i).requested_nudge).collect();
    assert_eq!(actual, inp_w.iter().map(|w| F(base_nudge * w.0)).collect::<Vec<_>>());
    assert_eq!(nw.get_main_node(2, 1).nudge_cnt, 1);
}

#[test]
fn has_prev_layer() {
    layer2_template(1.0);
}

#[test]
fn has_prev_learning_rate() {
    layer2_template(3.1);
    layer2_template(0.47);
}

// ---- whole-run scenario: evaluation, cost, one training step ----

#[test]
fn train_scenario_2x2() {
    let mut nw: Network<F> = Network::new(&vec![2usize, 2]);
    assert_eq!(nw.get_main_node(1, 1).result_cache, None);
    let v = nw.get_value(1, 1);
    assert_eq!(v.0, 0.5); // sigmoid(0.0)
    assert_eq!(nw.get_main_node(1, 1).result_cache, Some(v));
    nw.get_start_node_mut(1).set_value(F(1.0));
    assert_eq!(nw.get_start_node(1).value.0, 1.0);
    nw.get_main_node_mut(1, 1).set_weight(1, F(1.0));
    assert_eq!(nw.get_main_node(1, 1).get_weight(1).0, 1.0);
    nw.get_main_node_mut(1, 1).invalidate();
    assert_eq!(nw.get_main_node(1, 1).result_cache, None);
    let v = nw.get_value(1, 1);
    assert_eq!(v.0, 0.7310585786300049);
    assert_eq!(nw.get_main_node(1, 1).result_cache, Some(v));
    assert_eq!(nw.get_main_node(1, 1).sum_cache, Some(F(1.0)));
    assert_eq!(nw.get_current_cost(&fvec(&[0.5, 1.0])).0, 0.07232948812851325);
    nw.train_on_current_data(&fvec(&[0.5, 0.5]));
    assert_eq!(nw.get_main_node(1, 1).requested_nudge.0, -0.4621171572600098);
    // base = pending * sig_deriv(sum) * learning rate
    let base = -0.4621171572600098 * F(1.0).sig_deriv().0;
    assert_eq!(nw.get_main_node(1, 1).inp_w_nudge_sum, vec![F(0.0), F(base)]);
    assert_eq!(nw.get_main_node(1, 1).bias_nudge_sum.0, base);
    assert_eq!(nw.get_main_node(1, 1).nudge_cnt, 1);
    nw.apply_nudges();
    assert_eq!(nw.get_main_node(1, 1).inp_w_nudge_sum, vec![F(0.0); 2]);
    assert_eq!(nw.get_main_node(1, 1).bias_nudge_sum.0, 0.0);
    assert_eq!(nw.get_main_node(1, 1).nudge_cnt, 0);
    assert_eq!(nw.get_main_node(1, 1).requested_nudge.0, 0.0);
}

// ---- reading a value twice changes nothing ----

#[test]
fn value_read_idempotent() {
    let mut nw = make_nw();
    nw.set_inputs(&fvec(&[0.4, 0.8, 0.1]));
    let v1 = nw.get_value(3, 1);
    let sum_caches: Vec<Option<F>> =
        (0..4).map(|n| nw.get_main_node(2, n).sum_cache).collect();
    let v2 = nw.get_value(3, 1);
    assert_eq!(v1, v2);
    let sum_caches_after: Vec<Option<F>> =
        (0..4).map(|n| nw.get_main_node(2, n).sum_cache).collect();
    assert_eq!(sum_caches, sum_caches_after);
}

// ---- parameter writes leave caches stale until invalidation ----

#[test]
fn stale_cache_until_invalidate() {
    let mut nw: Network<F> = Network::new(&vec![1usize, 1]);
    nw.set_input(0, F(1.0));
    let before = nw.get_value(1, 0);
    // writing a weight does not invalidate: the cached value still shows
    nw.get_main_node_mut(1, 0).set_weight(0, F(2.0));
    assert_eq!(nw.get_value(1, 0), before);
    // only invalidation makes the new weight visible
    nw.invalidate();
    assert_eq!(nw.get_value(1, 0), F(2.0).sigmoid());
}

// ---- invalidation recomputes the same values ----

#[test]
fn invalidate_recomputes_same_values() {
    let mut nw = make_nw();
    nw.set_inputs(&fvec(&[0.9, -0.3, 0.5]));
    nw.invalidate();
    let before = nw.get_outputs();
    nw.invalidate();
    let after = nw.get_outputs();
    assert_eq!(before, after);
}

// ---- gradient accumulation over a batch ----

#[test]
fn batch_accumulates_and_averages() {
    // One input node feeding one output node, everything zeroed: each
    // backward step can be followed by hand.
    let mut nw: Network<F> = Network::new(&vec![1usize, 1]);
    let ex_a = TrainingExample::new(&fvec(&[0.25]), &fvec(&[1.0]));
    let ex_b = TrainingExample::new(&fvec(&[0.75]), &fvec(&[0.25]));

    // First example: output is sigmoid(0) = 0.5; the seeded nudge is
    // -(2 * (0.5 - 1.0)) = 1.0; with sum 0 the derivative is 0.25.
    let base_a = 1.0 * 0.25;
    nw.train_on_data(&ex_a);
    assert_eq!(nw.get_main_node(1, 0).bias_nudge_sum.0, base_a);
    assert_eq!(nw.get_main_node(1, 0).inp_w_nudge_sum[0].0, base_a * 0.25);
    assert_eq!(nw.get_main_node(1, 0).nudge_cnt, 1);

    // Second example: the pending nudge is not cleared between examples,
    // so the new seed adds onto it.
    let pend_b = 1.0 + -(2.0 * (0.5 - 0.25));
    let base_b = pend_b * 0.25;
    nw.train_on_data(&ex_b);
    assert_eq!(nw.get_main_node(1, 0).bias_nudge_sum.0, base_a + base_b);
    assert_eq!(
        nw.get_main_node(1, 0).inp_w_nudge_sum[0].0,
        base_a * 0.25 + base_b * 0.75
    );
    assert_eq!(nw.get_main_node(1, 0).nudge_cnt, 2);

    // Applying adds the mean of each accumulator to its parameter.
    nw.apply_nudges();
    assert_eq!(nw.get_main_node(1, 0).bias.0, (base_a + base_b) / 2.0);
    assert_eq!(
        nw.get_main_node(1, 0).inp_w[0].0,
        (base_a * 0.25 + base_b * 0.75) / 2.0
    );
}

#[test]
fn train_on_batch_matches_manual_steps() {
    let examples = vec![
        TrainingExample::new(&fvec(&[0.25]), &fvec(&[1.0])),
        TrainingExample::new(&fvec(&[0.75]), &fvec(&[0.25])),
    ];
    let mut by_batch: Network<F> = Network::new(&vec![1usize, 1]);
    by_batch.train_on_batch(&TrainingData(examples.clone()));

    let mut by_hand: Network<F> = Network::new(&vec![1usize, 1]);
    by_hand.train_on_data(&examples[0]);
    by_hand.train_on_data(&examples[1]);
    by_hand.apply_nudges();

    assert_eq!(by_batch.get_main_node(1, 0).bias, by_hand.get_main_node(1, 0).bias);
    assert_eq!(by_batch.get_main_node(1, 0).inp_w, by_hand.get_main_node(1, 0).inp_w);
}

// ---- apply resets every accumulator ----

#[test]
fn apply_clears_gradient_state() {
    let mut nw: Network<F> = Network::new(&vec![2usize, 3, 2]);
    let batch = TrainingData(vec![
        TrainingExample::new(&fvec(&[0.1, 0.9]), &fvec(&[1.0, 0.0])),
        TrainingExample::new(&fvec(&[0.8, 0.2]), &fvec(&[0.0, 1.0])),
        TrainingExample::new(&fvec(&[0.5, 0.5]), &fvec(&[0.5, 0.5])),
    ]);
    nw.train_on_batch(&batch);
    for l in 1..nw.layers.len() {
        for n in 0..nw.layers[l].len() {
            let node = nw.get_main_node(l, n);
            assert_eq!(node.nudge_cnt, 0);
            assert_eq!(node.bias_nudge_sum.0, 0.0);
            assert_eq!(node.requested_nudge.0, 0.0);
            for w in node.inp_w_nudge_sum.iter() {
                assert_eq!(w.0, 0.0);
            }
        }
    }
}

#[test]
fn train_on_batches_runs_each_batch() {
    let mut nw: Network<F> = Network::new(&vec![2usize, 2]);
    let data = TrainingData(
        (0..6)
            .map(|i| {
                TrainingExample::new(&fvec(&[0.1 * i as f64, 0.5]), &fvec(&[1.0, 0.0]))
            })
            .collect(),
    );
    let batches = data.chunks(4);
    nw.train_on_batches(&batches);
    assert_ne!(nw.get_main_node(1, 0).bias.0, 0.0);
    assert_eq!(nw.get_main_node(1, 0).nudge_cnt, 0);
}

// ---- batches and chunking ----

#[test]
fn training_example_copies_its_vectors() {
    let inputs = fvec(&[0.1, 0.2]);
    let expected = fvec(&[0.9]);
    let e = TrainingExample::new(&inputs, &expected);
    assert_eq!(e.inputs, inputs);
    assert_eq!(e.expected, expected);
}

#[test]
fn chunks_of_24_by_10() {
    let data = TrainingData(
        (0..24)
            .map(|i| TrainingExample::new(&fvec(&[i as f64]), &fvec(&[-(i as f64)])))
            .collect(),
    );
    let chunks = data.chunks(10);
    assert_eq!(chunks.len(), 3);
    assert_eq!(chunks[0].0.len(), 10);
    assert_eq!(chunks[1].0.len(), 10);
    assert_eq!(chunks[2].0.len(), 4);
    let mut i = 0.0;
    for c in chunks.iter() {
        for e in c.0.iter() {
            assert_eq!(e.inputs[0].0, i);
            assert_eq!(e.expected[0].0, -i);
            i += 1.0;
        }
    }
    // the source is untouched
    assert_eq!(data.0.len(), 24);
}

#[test]
fn chunks_exact_multiple() {
    let data = TrainingData(
        (0..6)
            .map(|i| TrainingExample::new(&fvec(&[i as f64]), &fvec(&[0.0])))
            .collect(),
    );
    let chunks = data.chunks(3);
    assert_eq!(chunks.len(), 2);
    assert_eq!(chunks[0].0.len(), 3);
    assert_eq!(chunks[1].0.len(), 3);
}

#[test]
fn chunks_of_empty_batch() {
    let data: TrainingData<F> = TrainingData(Vec::new());
    assert_eq!(data.chunks(5).len(), 0);
}

// ---- conversion traits ----

#[test]
fn try_into_ref_picks_the_kind() {
    let start: AnyNode<F> = AnyNode::Start(StartNode::new(F(1.5)));
    let s: Option<&StartNode<F>> = start.try_into_ref();
    assert_eq!(s.unwrap().value.0, 1.5);
    let m: Option<&Node<F>> = start.try_into_ref();
    assert!(m.is_none());
}

#[test]
fn try_into_ref_mut_picks_the_kind() {
    let mut main: AnyNode<F> = AnyNode::Main(Node::new(F(0.5), &fvec(&[1.0]), 1));
    {
        let m: Option<&mut Node<F>> = main.try_into_ref_mut();
        m.unwrap().bias = F(2.5);
    }
    let s: Option<&mut StartNode<F>> = main.try_into_ref_mut();
    assert!(s.is_none());
    let m: Option<&Node<F>> = main.try_into_ref();
    assert_eq!(m.unwrap().bias.0, 2.5);
}

#[test]
fn get_node_as_both_kinds() {
    let mut nw: Network<F> = Network::new(&vec![2usize, 2]);
    assert!(nw.get_node_as::<StartNode<F>>(0, 0).is_some());
    assert!(nw.get_node_as::<Node<F>>(0, 0).is_none());
    assert!(nw.get_node_as::<Node<F>>(1, 1).is_some());
    assert!(nw.get_node_as_mut::<StartNode<F>>(1, 0).is_none());
}

// ---- indexing helpers ----

#[test]
fn layer_accessors_agree() {
    let nw = new_nw();
    assert_eq!(nw.n_layers(), 3);
    assert_eq!(nw.layers_ref().len(), 3);
    assert_eq!(nw.get_layer(1).len(), 3);
    assert_eq!(nw.last_layer().len(), 2);
}

use autodiff::element::{Element, Exp, Ln, Pow, RealElement};
use autodiff::node::{Graph, Node};

/// A real number for the graph's element type.
#[derive(Debug, Clone, Copy, PartialEq)]
struct Real(f64);

impl std::ops::Add for Real {
    type Output = Real;
    fn add(self, o: Real) -> Real {
        Real(self.0 + o.0)
    }
}

impl std::ops::Mul for Real {
    type Output = Real;
    fn mul(self, o: Real) -> Real {
        Real(self.0 * o.0)
    }
}

impl std::ops::Div for Real {
    type Output = Real;
    fn div(self, o: Real) -> Real {
        Real(self.0 / o.0)
    }
}

impl From<i8> for Real {
    fn from(k: i8) -> Real {
        Real(f64::from(k))
    }
}

impl Exp for Real {
    fn exp(self) -> Real {
        Real(self.0.exp())
    }
}

impl Ln for Real {
    fn ln(self) -> Real {
        Real(self.0.ln())
    }
}

impl Pow for Real {
    fn pow(self, e: Real) -> Real {
        Real(self.0.powf(e.0))
    }
}

impl Element for Real {}
impl RealElement for Real {}

fn grad_of(g: &Graph<Real>, id: usize) -> Option<f64> {
    g.node(id).grad().map(|r| r.0)
}

fn val_of(g: &Graph<Real>, id: usize) -> f64 {
    g.node(id).val().0
}

fn operands(g: &Graph<Real>, id: usize) -> (usize, usize) {
    match g.node(id) {
        Node::Sum(_, _, (a, b)) | Node::Prod(_, _, (a, b)) | Node::Pow(_, _, (a, b)) => (*a, *b),
        _ => panic!(),
    }
}

#[test]
fn test_new() {
    let node = Node::<f64>::new(3.1, Some(0.4));
    assert_eq!(node.val(), &3.1_f64);
    assert_eq!(node.grad(), &Some(0.4));
}

#[test]
fn test_set_grad() {
    let mut node = Node::<f64>::new(3.1, None);
    assert_eq!(node.val(), &3.1_f64);
    assert_eq!(node.grad(), &None);

    node.set_grad(0.4);

    assert_eq!(node.val(), &3.1_f64);
    assert_eq!(node.grad(), &Some(0.4));
}

#[test]
fn test_add() {
    let mut g = Graph::new();
    let node1 = g.leaf(Real(3.1), Some(Real(0.4)));
    let node2 = g.leaf(Real(22.2), None);

    let result = g.add(node1, node2);
    assert_eq!(val_of(&g, result), 25.3_f64);
    assert_eq!(grad_of(&g, result), None);
}

#[test]
fn test_mul() {
    let mut g = Graph::new();
    let node1 = g.leaf(Real(3.1), Some(Real(0.4)));
    let node2 = g.leaf(Real(22.2), None);

    let result = g.mul(node1, node2);
    assert_eq!(val_of(&g, result), 68.82_f64);
    assert_eq!(grad_of(&g, result), None);
}

#[test]
fn test_div() {
    let mut g = Graph::new();
    let node1 = g.leaf(Real(3.1), Some(Real(0.4)));
    let node2 = g.leaf(Real(22.2), None);

    let result = g.div(node1, node2);
    assert_eq!(val_of(&g, result), 0.13963963963963966_f64);
    assert_eq!(grad_of(&g, result), None);
}

#[test]
fn test_div_by_zero() {
    let mut g = Graph::new();
    let node1 = g.leaf(Real(3.1), Some(Real(0.4)));
    let node2 = g.leaf(Real(0.0), None);

    let result = g.div(node1, node2);
    assert_eq!(val_of(&g, result), f64::INFINITY);
}

#[test]
fn test_pow() {
    let mut g = Graph::new();
    let node1 = g.leaf(Real(3.1), Some(Real(0.4)));
    let node2 = g.leaf(Real(22.2), None);

    let result = g.pow(node1, node2);
    assert_eq!(val_of(&g, result), 80952376567.60643_f64);
    assert_eq!(grad_of(&g, result), None);
}

#[test]
fn test_backward_on_sum() {
    let mut g = Graph::new();
    let node1 = g.leaf(Real(1.1), None);
    let node2 = g.leaf(Real(2.2), None);

    let node = g.add(node1, node2);
    assert_eq!(val_of(&g, node), 3.3000000000000003_f64);

    assert!(grad_of(&g, node).is_none());
    let (n1, n2) = operands(&g, node);
    assert!(matches!(g.node(node), Node::Sum(_, _, _)));
    assert!(grad_of(&g, n1).is_none());
    assert!(grad_of(&g, n2).is_none());

    Node::backward(&mut g, node, Real(5.0));

    assert!(grad_of(&g, node).is_some());
    assert_eq!(grad_of(&g, node).unwrap(), 5.0_f64);
    assert!(grad_of(&g, n1).is_some());
    assert_eq!(grad_of(&g, n1).unwrap(), 5.0_f64);
    assert!(grad_of(&g, n2).is_some());
    assert_eq!(grad_of(&g, n2).unwrap(), 5.0_f64);
}

#[test]
fn test_backward_on_prod() {
    let mut g = Graph::new();
    let node1 = g.leaf(Real(1.1), None);
    let node2 = g.leaf(Real(2.2), None);

    let node = g.mul(node1, node2);

    assert!(grad_of(&g, node).is_none());
    assert!(matches!(g.node(node), Node::Prod(_, _, _)));
    let (n1, n2) = operands(&g, node);
    assert!(grad_of(&g, n1).is_none());
    assert!(grad_of(&g, n2).is_none());

    Node::backward(&mut g, node, Real(5.0));

    assert!(grad_of(&g, node).is_some());
    assert_eq!(grad_of(&g, node).unwrap(), 5.0_f64);
    assert!(grad_of(&g, n1).is_some());
    assert_eq!(grad_of(&g, n1).unwrap(), 11.0_f64);
    assert!(grad_of(&g, n2).is_some());
    assert_eq!(grad_of(&g, n2).unwrap(), 5.5_f64);
}

#[test]
fn test_backward_on_prod_sum() {
    let mut g = Graph::new();
    let node_a = g.leaf(Real(3.0), None);
    let node_b = g.leaf(Real(2.0), None);
    let node_c = g.leaf(Real(2.0), None);

    let node_d = g.add(node_a, node_b);
    let node_f = g.mul(node_d, node_c);

    // Every gradient is unset before the backward pass.
    assert!(grad_of(&g, node_f).is_none());
    let (d, c) = operands(&g, node_f);
    assert!(grad_of(&g, d).is_none());
    assert!(matches!(g.node(d), Node::Sum(_, _, _)));
    let (a, b) = operands(&g, d);
    assert!(grad_of(&g, a).is_none());
    assert!(grad_of(&g, b).is_none());
    assert!(grad_of(&g, c).is_none());

    Node::backward(&mut g, node_f, Real(10.0));

    assert_eq!(val_of(&g, node_f), 10.0_f64);
    assert!(grad_of(&g, node_f).is_some());
    assert_eq!(grad_of(&g, node_f).unwrap(), 10.0_f64);
    assert!(grad_of(&g, d).is_some());
    assert_eq!(grad_of(&g, d).unwrap(), 20.0_f64);
    assert!(grad_of(&g, c).is_some());
    assert_eq!(grad_of(&g, c).unwrap(), 50.0_f64);
    assert!(grad_of(&g, a).is_some());
    assert_eq!(grad_of(&g, a).unwrap(), 20.0_f64);
    assert!(grad_of(&g, b).is_some());
    assert_eq!(grad_of(&g, b).unwrap(), 20.0_f64);
}

#[test]
fn test_backward_on_2x_squared_plus_exp_5x() {
    // Expression: f(x) = 2x^2 + exp(5x)
    let mut g = Graph::new();
    let node_x = g.leaf(Real(3.0), None);

    let node_2 = g.leaf(Real(2.0), None);
    let node_2_ = g.leaf(Real(2.0), None);
    let node_5 = g.leaf(Real(5.0), None);

    let node_5x = g.mul(node_5, node_x);
    let node_exp_5x = g.exp(node_5x);
    let node_x_squared = g.pow(node_x, node_2);
    let node_2x_squared = g.mul(node_x_squared, node_2_);

    let node_f = g.add(node_exp_5x, node_2x_squared);

    Node::backward(&mut g, node_f, Real(1.0));
}

#[test]
fn sum_rule_with_other_seed() {
    let mut g = Graph::new();
    let a = g.leaf(Real(-4.5), Some(Real(9.0)));
    let b = g.leaf(Real(7.25), None);
    let f = g.add(a, b);
    Node::backward(&mut g, f, Real(-2.5));
    assert_eq!(grad_of(&g, a), Some(-2.5));
    assert_eq!(grad_of(&g, b), Some(-2.5));
}

#[test]
fn product_rule_swaps_values() {
    let mut g = Graph::new();
    let a = g.leaf(Real(3.0), None);
    let b = g.leaf(Real(4.0), None);
    let f = g.mul(a, b);
    Node::backward(&mut g, f, Real(0.5));
    assert_eq!(grad_of(&g, a), Some(2.0));
    assert_eq!(grad_of(&g, b), Some(1.5));
}

#[test]
fn shared_operand_gradient_is_overwritten() {
    // f = x * u + x * v: x ends with what x * v writes, 5 * 1, not 2 + 5.
    let mut g = Graph::new();
    let x = g.leaf(Real(3.0), None);
    let u = g.leaf(Real(2.0), None);
    let v = g.leaf(Real(5.0), None);
    let p = g.mul(x, u);
    let q = g.mul(x, v);
    let f = g.add(p, q);
    Node::backward(&mut g, f, Real(1.0));
    assert_eq!(grad_of(&g, x), Some(5.0));
    assert_eq!(grad_of(&g, u), Some(3.0));
    assert_eq!(grad_of(&g, v), Some(3.0));
}

#[test]
fn division_applies_the_product_rule() {
    let mut g = Graph::new();
    let a = g.leaf(Real(6.0), None);
    let b = g.leaf(Real(3.0), None);
    let f = g.div(a, b);
    assert_eq!(val_of(&g, f), 2.0);
    assert!(matches!(g.node(f), Node::Prod(_, _, _)));
    Node::backward(&mut g, f, Real(2.0));
    assert_eq!(grad_of(&g, a), Some(6.0));
    assert_eq!(grad_of(&g, b), Some(12.0));
}

#[test]
fn logarithm_builds_an_exponential_vertex() {
    let mut g = Graph::new();
    let a = g.leaf(Real(1.0), None);
    let f = g.ln(a);
    assert_eq!(val_of(&g, f), 0.0);
    assert!(matches!(g.node(f), Node::Exp(_, _, _)));
    Node::backward(&mut g, f, Real(7.0));
    // The exponential's rule writes the vertex's own value, 0, ignoring the seed.
    assert_eq!(grad_of(&g, a), Some(0.0));
}

#[test]
fn exponential_ignores_the_seed() {
    let mut g = Graph::new();
    let a = g.leaf(Real(0.0), None);
    let f = g.exp(a);
    assert_eq!(val_of(&g, f), 1.0);
    Node::backward(&mut g, f, Real(9.0));
    assert_eq!(grad_of(&g, a), Some(1.0));
}

#[test]
fn power_rules_ignore_the_seed() {
    let mut g = Graph::new();
    let b = g.leaf(Real(2.0), None);
    let e = g.leaf(Real(3.0), None);
    let f = g.pow(b, e);
    assert_eq!(val_of(&g, f), 8.0);
    Node::backward(&mut g, f, Real(10.0));
    // base: 3 * 2^2; exponent: 2^3 * ln 2
    assert_eq!(grad_of(&g, b), Some(12.0));
    assert_eq!(grad_of(&g, e), Some(8.0 * 2.0_f64.ln()));
}

#[test]
fn backward_keeps_values_and_untouched_vertices() {
    let mut g = Graph::new();
    let a = g.leaf(Real(1.5), None);
    let b = g.leaf(Real(2.5), None);
    let other = g.leaf(Real(8.0), Some(Real(-1.0)));
    let f = g.add(a, b);
    Node::backward(&mut g, f, Real(1.0));
    assert_eq!(val_of(&g, a), 1.5);
    assert_eq!(val_of(&g, b), 2.5);
    assert_eq!(val_of(&g, f), 4.0);
    assert_eq!(grad_of(&g, other), Some(-1.0));
    assert_eq!(g.len(), 4);
}

#[test]
fn second_backward_overwrites() {
    let mut g = Graph::new();
    let a = g.leaf(Real(1.0), None);
    let b = g.leaf(Real(2.0), None);
    let f = g.add(a, b);
    Node::backward(&mut g, f, Real(1.0));
    Node::backward(&mut g, f, Real(3.0));
    assert_eq!(grad_of(&g, a), Some(3.0));
}

#[test]
fn product_of_literals() {
    let mut g = Graph::new();
    let a = g.leaf(Real(1.1), None);
    let b = g.leaf(Real(2.2), None);
    let f = g.mul(a, b);
    assert_eq!(val_of(&g, f), 2.4200000000000004);
}

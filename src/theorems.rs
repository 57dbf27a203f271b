use vstd::prelude::*;
use crate::element::RealElement;
use crate::node::{applied, seeded, lemma_applied_shape, lemma_node_shape, lemma_regrade, lemma_trace_shape, trace, well_formed, writes, written, Node};

verus! {

/// The state `states[k]` of a trace is `states[0]` with gradients changed at most.
proof fn lemma_values_kept<T: RealElement>(states: Seq<Seq<Node<T>>>, ws: Seq<(int, int)>, k: int, i: int)
    requires
        trace(states, ws),
        0 <= k <= ws.len(),
        0 <= i < states[0].len(),
    ensures
        states[k].len() == states[0].len(),
        states[k][i].value() == states[0][i].value(),
        states[k][i].arity() == states[0][i].arity(),
        states[k][i].child(0) == states[0][i].child(0),
        states[k][i].child(1) == states[0][i].child(1),
{
    lemma_trace_shape(states, ws, k);
    assert(states[0][i].with_gradient(None) == states[k][i].with_gradient(None));
    lemma_node_shape(states[0][i], states[k][i]);
}

/// A backward pass changes no vertex's value, operation or operands: the value that an
/// operation gave a vertex when it was built is the value it keeps.
pub proof fn backward_keeps_values<T: RealElement>(s: Seq<Node<T>>, ws: Seq<(int, int)>, t: Seq<Node<T>>)
    requires
        applied(s, ws, t),
    ensures
        t.len() == s.len(),
        forall|i: int| 0 <= i < s.len() ==> (#[trigger] t[i]).value() == s[i].value(),
        forall|i: int| 0 <= i < s.len() ==> (#[trigger] t[i]).with_gradient(None) == s[i].with_gradient(None),
{
    lemma_applied_shape(s, ws, t);
    assert forall|i: int| 0 <= i < s.len() implies (#[trigger] t[i]).value() == s[i].value() by {
        assert(s[i].with_gradient(None) == t[i].with_gradient(None));
        lemma_node_shape(s[i], t[i]);
    }
}

/// Sum rule: after a backward pass with seed `seed` from `f = a + b`, where `a` and `b` are
/// leaves, both `a` and `b` hold the gradient `seed`.
pub proof fn sum_rule<T: RealElement>(s: Seq<Node<T>>, f: int, a: usize, b: usize, seed: T, t: Seq<Node<T>>)
    requires
        well_formed(s),
        0 <= f < s.len(),
        s[f] matches Node::Sum(_, _, (x, y)) && x == a && y == b,
        s[a as int] is Leaf,
        s[b as int] is Leaf,
        applied(seeded(s, f, seed), writes(s, f), t),
    ensures
        t[a as int].gradient() == Some(seed),
        t[b as int].gradient() == Some(seed),
{
    assert(0 <= s[f].child(0) < f && 0 <= s[f].child(1) < f);
    assert(writes(s, a as int) =~= Seq::<(int, int)>::empty());
    assert(writes(s, b as int) =~= Seq::<(int, int)>::empty());
    let ws = writes(s, f);
    assert(ws =~= seq![(f, 0int), (f, 1int)]);
    let s0 = seeded(s, f, seed);
    let states = choose|st: Seq<Seq<Node<T>>>| #[trigger] trace(st, ws) && st[0] == s0 && st.last() == t;
    lemma_regrade(s[f], Some(seed));
    let (k0, k1): (int, int) = (0, 1);
    assert(written(states[k0], ws[k0], states[k0 + 1]));
    assert(written(states[k1], ws[k1], states[k1 + 1]));
    lemma_values_kept(states, ws, 1, f);
}

/// Product rule: after a backward pass with seed `seed` from `f = a * b`, where `a` and `b`
/// are leaves, `a` holds the product of the value of `b` and `seed`, and `b` the product of
/// the value of `a` and `seed`.
pub proof fn product_rule<T: RealElement>(s: Seq<Node<T>>, f: int, a: usize, b: usize, seed: T, t: Seq<Node<T>>)
    requires
        well_formed(s),
        0 <= f < s.len(),
        s[f] matches Node::Prod(_, _, (x, y)) && x == a && y == b,
        s[a as int] is Leaf,
        s[b as int] is Leaf,
        applied(seeded(s, f, seed), writes(s, f), t),
    ensures
        t[a as int].gradient() is Some,
        t[b as int].gradient() is Some,
        call_ensures(T::mul, (s[b as int].value(), seed), t[a as int].gradient().unwrap()),
        call_ensures(T::mul, (s[a as int].value(), seed), t[b as int].gradient().unwrap()),
{
    assert(0 <= s[f].child(0) < f && 0 <= s[f].child(1) < f);
    assert(writes(s, a as int) =~= Seq::<(int, int)>::empty());
    assert(writes(s, b as int) =~= Seq::<(int, int)>::empty());
    let ws = writes(s, f);
    assert(ws =~= seq![(f, 0int), (f, 1int)]);
    let s0 = seeded(s, f, seed);
    let states = choose|st: Seq<Seq<Node<T>>>| #[trigger] trace(st, ws) && st[0] == s0 && st.last() == t;
    lemma_regrade(s[f], Some(seed));
    let (k0, k1): (int, int) = (0, 1);
    assert(written(states[k0], ws[k0], states[k0 + 1]));
    assert(written(states[k1], ws[k1], states[k1 + 1]));
    lemma_values_kept(states, ws, 1, f);
    lemma_values_kept(states, ws, 1, a as int);
    lemma_values_kept(states, ws, 1, b as int);
}

/// Gradients are overwritten, not summed: in `f = x * u + x * v`, where `x` is one leaf used by
/// two different products `p` and `q`, a backward pass from `f` with seed `seed` leaves in `x`
/// only what `q`, the product visited last, writes: the value of `v` times `seed`. The part
/// that comes through `p` is lost.
pub proof fn gradients_overwrite<T: RealElement>(
    s: Seq<Node<T>>,
    f: int,
    p: usize,
    q: usize,
    x: usize,
    u: usize,
    v: usize,
    seed: T,
    t: Seq<Node<T>>,
)
    requires
        well_formed(s),
        0 <= f < s.len(),
        p != q,
        x != v,
        s[f] matches Node::Sum(_, _, (l, r)) && l == p && r == q,
        s[p as int] matches Node::Prod(_, _, (l, r)) && l == x && r == u,
        s[q as int] matches Node::Prod(_, _, (l, r)) && l == x && r == v,
        s[x as int] is Leaf,
        s[u as int] is Leaf,
        s[v as int] is Leaf,
        applied(seeded(s, f, seed), writes(s, f), t),
    ensures
        t[x as int].gradient() is Some,
        call_ensures(T::mul, (s[v as int].value(), seed), t[x as int].gradient().unwrap()),
{
    let (pi, qi, xi, ui, vi) = (p as int, q as int, x as int, u as int, v as int);
    assert(0 <= s[f].child(0) < f && 0 <= s[f].child(1) < f);
    assert(0 <= s[pi].child(0) < pi && 0 <= s[pi].child(1) < pi);
    assert(0 <= s[qi].child(0) < qi && 0 <= s[qi].child(1) < qi);
    assert(writes(s, xi) =~= Seq::<(int, int)>::empty());
    assert(writes(s, ui) =~= Seq::<(int, int)>::empty());
    assert(writes(s, vi) =~= Seq::<(int, int)>::empty());
    assert(writes(s, pi) =~= seq![(pi, 0int), (pi, 1int)]);
    assert(writes(s, qi) =~= seq![(qi, 0int), (qi, 1int)]);
    let ws = writes(s, f);
    assert(ws =~= seq![(f, 0int), (f, 1int), (pi, 0int), (pi, 1int), (qi, 0int), (qi, 1int)]);
    let s0 = seeded(s, f, seed);
    let st = choose|st: Seq<Seq<Node<T>>>| #[trigger] trace(st, ws) && st[0] == s0 && st.last() == t;
    lemma_regrade(s[f], Some(seed));
    let (k0, k1, k2, k3, k4, k5): (int, int, int, int, int, int) = (0, 1, 2, 3, 4, 5);
    assert(written(st[k0], ws[k0], st[k0 + 1]));
    assert(written(st[k1], ws[k1], st[k1 + 1]));
    assert(written(st[k2], ws[k2], st[k2 + 1]));
    assert(written(st[k3], ws[k3], st[k3 + 1]));
    assert(written(st[k4], ws[k4], st[k4 + 1]));
    assert(written(st[k5], ws[k5], st[k5 + 1]));
    lemma_values_kept(st, ws, 1, f);
    lemma_values_kept(st, ws, 2, qi);
    lemma_values_kept(st, ws, 4, qi);
    lemma_values_kept(st, ws, 4, vi);
    lemma_regrade(st[1][qi], st[2][qi].gradient());
    assert(st[2][qi].gradient() == Some(seed));
    assert(st[4][qi].gradient() == Some(seed));
}

} // verus!

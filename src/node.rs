use vstd::prelude::*;
use crate::element::{ops_total, RealElement};

verus! {

/// A vertex of a computation graph: its value, computed when the vertex was built, its
/// gradient, set by a backward pass, and the handles of its operands in the owning `Graph`.
pub enum Node<T> {
    Sum(T, Option<T>, (usize, usize)),
    Prod(T, Option<T>, (usize, usize)),
    Exp(T, Option<T>, usize),
    Ln(T, Option<T>, usize),
    Pow(T, Option<T>, (usize, usize)),
    Leaf(T, Option<T>),
}

impl<T> Node<T> {
    pub open spec fn value(self) -> T {
        match self {
            Node::Sum(v, _, _) => v,
            Node::Prod(v, _, _) => v,
            Node::Exp(v, _, _) => v,
            Node::Ln(v, _, _) => v,
            Node::Pow(v, _, _) => v,
            Node::Leaf(v, _) => v,
        }
    }

    pub open spec fn gradient(self) -> Option<T> {
        match self {
            Node::Sum(_, g, _) => g,
            Node::Prod(_, g, _) => g,
            Node::Exp(_, g, _) => g,
            Node::Ln(_, g, _) => g,
            Node::Pow(_, g, _) => g,
            Node::Leaf(_, g) => g,
        }
    }

    /// The same vertex with its gradient replaced.
    pub open spec fn with_gradient(self, g: Option<T>) -> Node<T> {
        match self {
            Node::Sum(v, _, c) => Node::Sum(v, g, c),
            Node::Prod(v, _, c) => Node::Prod(v, g, c),
            Node::Exp(v, _, c) => Node::Exp(v, g, c),
            Node::Ln(v, _, c) => Node::Ln(v, g, c),
            Node::Pow(v, _, c) => Node::Pow(v, g, c),
            Node::Leaf(v, _) => Node::Leaf(v, g),
        }
    }

    /// The number of operands.
    pub open spec fn arity(self) -> int {
        match self {
            Node::Leaf(_, _) => 0,
            Node::Exp(_, _, _) => 1,
            Node::Ln(_, _, _) => 1,
            _ => 2,
        }
    }

    /// The handle of the operand in position `slot` (0 or 1).
    pub open spec fn child(self, slot: int) -> int {
        match self {
            Node::Sum(_, _, (l, r)) => if slot == 0 { l as int } else { r as int },
            Node::Prod(_, _, (l, r)) => if slot == 0 { l as int } else { r as int },
            Node::Pow(_, _, (l, r)) => if slot == 0 { l as int } else { r as int },
            Node::Exp(_, _, c) => c as int,
            Node::Ln(_, _, c) => c as int,
            Node::Leaf(_, _) => 0,
        }
    }
}

/// Two vertex sequences that differ in gradients at most.
pub open spec fn same_shape<T>(a: Seq<Node<T>>, b: Seq<Node<T>>) -> bool {
    &&& a.len() == b.len()
    &&& forall|i: int| 0 <= i < a.len() ==> #[trigger] a[i].with_gradient(None) == b[i].with_gradient(None)
}

/// Every operand of a vertex was built before it, so the graph has no cycle.
pub open spec fn well_formed<T>(s: Seq<Node<T>>) -> bool {
    forall|i: int, slot: int|
        0 <= i < s.len() && 0 <= slot < s[i].arity() ==> 0 <= #[trigger] s[i].child(slot) < i
}

/// The gradient writes of a backward pass started at vertex `id`, in the order in which they
/// happen: each write is the pair of the writing vertex and the operand position it writes to.
/// A vertex first writes to each of its operands, then the pass goes on into the first operand
/// and then into the second. A vertex reached along two paths is visited twice.
pub open spec fn writes<T>(s: Seq<Node<T>>, id: int) -> Seq<(int, int)>
    decreases id,
{
    if 0 <= id < s.len() {
        let n = s[id];
        if n.arity() == 1 && 0 <= n.child(0) < id {
            seq![(id, 0)] + writes(s, n.child(0))
        } else if n.arity() == 2 && 0 <= n.child(0) < id && 0 <= n.child(1) < id {
            seq![(id, 0), (id, 1)] + writes(s, n.child(0)) + writes(s, n.child(1))
        } else {
            seq![]
        }
    } else {
        seq![]
    }
}

/// `s` with vertex `f` seeded with gradient `seed`.
pub open spec fn seeded<T>(s: Seq<Node<T>>, f: int, seed: T) -> Seq<Node<T>> {
    s.update(f, s[f].with_gradient(Some(seed)))
}

/// `g` is the gradient that vertex `p` of `s` writes to its operand in position `slot`.
/// Sum and product follow the chain rule; exponential, logarithm and power ignore the
/// gradient of `p` and write the local derivative alone.
pub open spec fn local_gradient<T: RealElement>(s: Seq<Node<T>>, p: int, slot: int, g: T) -> bool {
    match s[p].gradient() {
        None => false,
        Some(gp) => match s[p] {
            Node::Sum(_, _, _) => g == gp,
            Node::Prod(_, _, (l, r)) => if slot == 0 {
                call_ensures(T::mul, (s[r as int].value(), gp), g)
            } else {
                call_ensures(T::mul, (s[l as int].value(), gp), g)
            },
            Node::Exp(v, _, _) => g == v,
            Node::Ln(v, _, _) => exists|one: T|
                call_ensures(T::from, (1i8,), one) && #[trigger] call_ensures(T::div, (one, v), g),
            Node::Pow(_, _, (b, e)) => {
                let bv = s[b as int].value();
                let ev = s[e as int].value();
                if slot == 0 {
                    exists|m: T, d: T, q: T|
                        #![trigger call_ensures(T::add, (ev, m), d), call_ensures(T::mul, (ev, q), g)]
                        call_ensures(T::from, (-1i8,), m) && call_ensures(T::add, (ev, m), d)
                            && call_ensures(T::pow, (bv, d), q) && call_ensures(T::mul, (ev, q), g)
                } else {
                    exists|q: T, l: T|
                        call_ensures(T::pow, (bv, ev), q) && call_ensures(T::ln, (bv,), l)
                            && #[trigger] call_ensures(T::mul, (q, l), g)
                }
            },
            Node::Leaf(_, _) => false,
        },
    }
}

/// `t` is `s` after write `w`: the operand that `w` names gets the gradient of the rule,
/// overwriting whatever it held.
pub open spec fn written<T: RealElement>(s: Seq<Node<T>>, w: (int, int), t: Seq<Node<T>>) -> bool {
    let c = s[w.0].child(w.1);
    &&& 0 <= w.0 < s.len()
    &&& 0 <= c < s.len()
    &&& t.len() == s.len()
    &&& t[c].gradient() is Some
    &&& local_gradient(s, w.0, w.1, t[c].gradient().unwrap())
    &&& t == s.update(c, s[c].with_gradient(t[c].gradient()))
}

/// `states` runs through the writes `ws`: its first entry is the state before them, and each
/// later entry is the one before it after the next write.
pub open spec fn trace<T: RealElement>(states: Seq<Seq<Node<T>>>, ws: Seq<(int, int)>) -> bool {
    &&& states.len() == ws.len() + 1
    &&& forall|k: int| 0 <= k < ws.len() ==> #[trigger] written(states[k], ws[k], states[k + 1])
}

/// `t` is `s` after the writes `ws`, done one after the other.
pub open spec fn applied<T: RealElement>(s: Seq<Node<T>>, ws: Seq<(int, int)>, t: Seq<Node<T>>) -> bool {
    exists|states: Seq<Seq<Node<T>>>| #[trigger] trace(states, ws) && states[0] == s && states.last() == t
}

} // verus!

verus! {

pub(crate) proof fn lemma_node_shape<T>(n: Node<T>, m: Node<T>)
    requires
        n.with_gradient(None) == m.with_gradient(None),
    ensures
        n.arity() == m.arity(),
        n.child(0) == m.child(0),
        n.child(1) == m.child(1),
        n.value() == m.value(),
{
    match n {
        Node::Sum(_, _, _) => {},
        Node::Prod(_, _, _) => {},
        Node::Exp(_, _, _) => {},
        Node::Ln(_, _, _) => {},
        Node::Pow(_, _, _) => {},
        Node::Leaf(_, _) => {},
    }
}

pub(crate) proof fn lemma_regrade<T>(n: Node<T>, g: Option<T>)
    ensures
        n.with_gradient(g).with_gradient(None) == n.with_gradient(None),
        n.with_gradient(g).gradient() == g,
{
    match n {
        Node::Sum(_, _, _) => {},
        Node::Prod(_, _, _) => {},
        Node::Exp(_, _, _) => {},
        Node::Ln(_, _, _) => {},
        Node::Pow(_, _, _) => {},
        Node::Leaf(_, _) => {},
    }
}

proof fn lemma_regrade_same<T>(n: Node<T>)
    ensures
        n.with_gradient(n.gradient()) == n,
{
    match n {
        Node::Sum(_, _, _) => {},
        Node::Prod(_, _, _) => {},
        Node::Exp(_, _, _) => {},
        Node::Ln(_, _, _) => {},
        Node::Pow(_, _, _) => {},
        Node::Leaf(_, _) => {},
    }
}

proof fn lemma_shape_trans<T>(a: Seq<Node<T>>, b: Seq<Node<T>>, c: Seq<Node<T>>)
    requires
        same_shape(a, b),
        same_shape(b, c),
    ensures
        same_shape(a, c),
{
    assert forall|i: int| 0 <= i < a.len() implies #[trigger] a[i].with_gradient(None) == c[i].with_gradient(None) by {
        assert(a[i].with_gradient(None) == b[i].with_gradient(None));
        assert(b[i].with_gradient(None) == c[i].with_gradient(None));
    }
}

proof fn lemma_shape_well_formed<T>(a: Seq<Node<T>>, b: Seq<Node<T>>)
    requires
        same_shape(a, b),
        well_formed(a),
    ensures
        well_formed(b),
{
    assert forall|i: int, slot: int| 0 <= i < b.len() && 0 <= slot < b[i].arity() implies 0 <= #[trigger] b[i].child(slot) < i by {
        assert(a[i].with_gradient(None) == b[i].with_gradient(None));
        lemma_node_shape(a[i], b[i]);
        assert(0 <= a[i].child(slot) < i);
    }
}

proof fn lemma_written_shape<T: RealElement>(s: Seq<Node<T>>, w: (int, int), t: Seq<Node<T>>)
    requires
        written(s, w, t),
    ensures
        same_shape(s, t),
        forall|i: int| 0 <= i < s.len() && s[i].gradient() is Some ==> (#[trigger] t[i].gradient()) is Some,
{
    let c = s[w.0].child(w.1);
    lemma_regrade(s[c], t[c].gradient());
    assert forall|i: int| 0 <= i < s.len() implies #[trigger] s[i].with_gradient(None) == t[i].with_gradient(None) by {
        if i == c {
            lemma_regrade(s[c], t[c].gradient());
        }
    }
}

pub(crate) proof fn lemma_trace_shape<T: RealElement>(states: Seq<Seq<Node<T>>>, ws: Seq<(int, int)>, k: int)
    requires
        trace(states, ws),
        0 <= k <= ws.len(),
    ensures
        same_shape(states[0], states[k]),
        forall|i: int|
            0 <= i < states[0].len() && states[0][i].gradient() is Some ==> (#[trigger] states[k][i].gradient()) is Some,
    decreases k,
{
    if k == 0 {
        let s = states[0];
        assert forall|i: int| 0 <= i < s.len() implies #[trigger] s[i].with_gradient(None) == s[i].with_gradient(None) by {}
    } else {
        lemma_trace_shape(states, ws, k - 1);
        let j = k - 1;
        assert(written(states[j], ws[j], states[j + 1]));
        lemma_written_shape(states[j], ws[j], states[j + 1]);
        lemma_shape_trans(states[0], states[j], states[j + 1]);
    }
}

pub(crate) proof fn lemma_applied_shape<T: RealElement>(s: Seq<Node<T>>, ws: Seq<(int, int)>, t: Seq<Node<T>>)
    requires
        applied(s, ws, t),
    ensures
        same_shape(s, t),
        forall|i: int| 0 <= i < s.len() && s[i].gradient() is Some ==> (#[trigger] t[i].gradient()) is Some,
{
    let states = choose|states: Seq<Seq<Node<T>>>| #[trigger] trace(states, ws) && states[0] == s && states.last() == t;
    lemma_trace_shape(states, ws, ws.len() as int);
}

proof fn lemma_writes_shape<T>(a: Seq<Node<T>>, b: Seq<Node<T>>, id: int)
    requires
        same_shape(a, b),
    ensures
        writes(a, id) == writes(b, id),
    decreases id,
{
    if 0 <= id < a.len() {
        assert(a[id].with_gradient(None) == b[id].with_gradient(None));
        lemma_node_shape(a[id], b[id]);
        let n = a[id];
        if n.arity() == 1 && 0 <= n.child(0) < id {
            lemma_writes_shape(a, b, n.child(0));
        } else if n.arity() == 2 && 0 <= n.child(0) < id && 0 <= n.child(1) < id {
            lemma_writes_shape(a, b, n.child(0));
            lemma_writes_shape(a, b, n.child(1));
        }
    }
}

proof fn lemma_applied_empty<T: RealElement>(s: Seq<Node<T>>)
    ensures
        applied(s, Seq::<(int, int)>::empty(), s),
{
    let states = seq![s];
    assert(trace(states, Seq::<(int, int)>::empty()));
}

proof fn lemma_applied_step<T: RealElement>(
    s: Seq<Node<T>>,
    ws: Seq<(int, int)>,
    m: Seq<Node<T>>,
    w: (int, int),
    t: Seq<Node<T>>,
)
    requires
        applied(s, ws, m),
        written(m, w, t),
    ensures
        applied(s, ws.push(w), t),
{
    let states = choose|states: Seq<Seq<Node<T>>>| #[trigger] trace(states, ws) && states[0] == s && states.last() == m;
    let more = states.push(t);
    assert forall|k: int| 0 <= k < ws.push(w).len() implies #[trigger] written(more[k], ws.push(w)[k], more[k + 1]) by {
        if k < ws.len() {
            assert(written(states[k], ws[k], states[k + 1]));
        }
    }
    assert(trace(more, ws.push(w)));
}

proof fn lemma_applied_concat<T: RealElement>(
    s: Seq<Node<T>>,
    w1: Seq<(int, int)>,
    m: Seq<Node<T>>,
    w2: Seq<(int, int)>,
    t: Seq<Node<T>>,
)
    requires
        applied(s, w1, m),
        applied(m, w2, t),
    ensures
        applied(s, w1 + w2, t),
{
    let st1 = choose|st: Seq<Seq<Node<T>>>| #[trigger] trace(st, w1) && st[0] == s && st.last() == m;
    let st2 = choose|st: Seq<Seq<Node<T>>>| #[trigger] trace(st, w2) && st[0] == m && st.last() == t;
    let all = st1 + st2.drop_first();
    let ws = w1 + w2;
    assert forall|k: int| 0 <= k < ws.len() implies #[trigger] written(all[k], ws[k], all[k + 1]) by {
        if k < w1.len() {
            assert(written(st1[k], w1[k], st1[k + 1]));
        } else {
            assert(written(st2[k - w1.len()], w2[k - w1.len()], st2[k - w1.len() + 1]));
        }
    }
    assert(trace(all, ws));
}

} // verus!

verus! {

impl<T: Copy> Node<T> {
    /// A leaf holding `val`, with gradient `grad`.
    pub fn new(val: T, grad: Option<T>) -> (r: Self)
        ensures
            r == Node::Leaf(val, grad),
    {
        Node::Leaf(val, grad)
    }

    /// The value computed when the vertex was built.
    pub fn val(&self) -> (r: &T)
        ensures
            *r == self.value(),
    {
        match self {
            Node::Sum(v, _, _) => v,
            Node::Prod(v, _, _) => v,
            Node::Exp(v, _, _) => v,
            Node::Ln(v, _, _) => v,
            Node::Pow(v, _, _) => v,
            Node::Leaf(v, _) => v,
        }
    }

    /// The gradient, or `None` while no backward pass has reached the vertex.
    pub fn grad(&self) -> (r: &Option<T>)
        ensures
            *r == self.gradient(),
    {
        match self {
            Node::Sum(_, g, _) => g,
            Node::Prod(_, g, _) => g,
            Node::Exp(_, g, _) => g,
            Node::Ln(_, g, _) => g,
            Node::Pow(_, g, _) => g,
            Node::Leaf(_, g) => g,
        }
    }

    fn regraded(&self, g: T) -> (r: Node<T>)
        ensures
            r == self.with_gradient(Some(g)),
    {
        match self {
            Node::Sum(v, _, c) => Node::Sum(*v, Some(g), *c),
            Node::Prod(v, _, c) => Node::Prod(*v, Some(g), *c),
            Node::Exp(v, _, c) => Node::Exp(*v, Some(g), *c),
            Node::Ln(v, _, c) => Node::Ln(*v, Some(g), *c),
            Node::Pow(v, _, c) => Node::Pow(*v, Some(g), *c),
            Node::Leaf(v, _) => Node::Leaf(*v, Some(g)),
        }
    }

    /// Overwrites the gradient, whatever it held.
    pub fn set_grad(&mut self, new_grad: T)
        ensures
            *final(self) == old(self).with_gradient(Some(new_grad)),
    {
        *self = self.regraded(new_grad);
    }
}

/// An arena of vertices: a vertex is named by its handle, its position in the arena, and its
/// operands always have smaller handles.
pub struct Graph<T> {
    nodes: Vec<Node<T>>,
}

impl<T> View for Graph<T> {
    type V = Seq<Node<T>>;

    closed spec fn view(&self) -> Seq<Node<T>> {
        self.nodes@
    }
}

impl<T: RealElement> Graph<T> {
    pub open spec fn wf(&self) -> bool {
        well_formed(self@)
    }

    /// An empty graph.
    pub fn new() -> (r: Self)
        ensures
            r@ == Seq::<Node<T>>::empty(),
            r.wf(),
    {
        Graph { nodes: Vec::new() }
    }

    /// The number of vertices.
    pub fn len(&self) -> (r: usize)
        ensures
            r == self@.len(),
    {
        self.nodes.len()
    }

    /// The vertex with handle `id`.
    pub fn node(&self, id: usize) -> (r: &Node<T>)
        requires
            id < self@.len(),
        ensures
            *r == self@[id as int],
    {
        &self.nodes[id]
    }

    fn push(&mut self, n: Node<T>) -> (r: usize)
        requires
            old(self).wf(),
            forall|slot: int| 0 <= slot < n.arity() ==> 0 <= #[trigger] n.child(slot) < old(self)@.len(),
        ensures
            r == old(self)@.len(),
            final(self)@ == old(self)@.push(n),
            final(self).wf(),
    {
        let r = self.nodes.len();
        self.nodes.push(n);
        assert forall|i: int, slot: int| 0 <= i < self@.len() && 0 <= slot < self@[i].arity() implies 0
            <= #[trigger] self@[i].child(slot) < i by {
            if i < r {
                assert(old(self)@[i] == self@[i]);
            }
        }
        r
    }

    /// Adds a leaf holding `val`, with gradient `grad`, and returns its handle.
    pub fn leaf(&mut self, val: T, grad: Option<T>) -> (r: usize)
        requires
            old(self).wf(),
        ensures
            r == old(self)@.len(),
            final(self)@ == old(self)@.push(Node::Leaf(val, grad)),
            final(self).wf(),
    {
        self.push(Node::new(val, grad))
    }

    /// Adds the sum of vertices `a` and `b`; its value is the sum of their values.
    pub fn add(&mut self, a: usize, b: usize) -> (r: usize)
        requires
            old(self).wf(),
            a < old(self)@.len(),
            b < old(self)@.len(),
            ops_total::<T>(),
        ensures
            r == old(self)@.len(),
            final(self).wf(),
            final(self)@ == old(self)@.push(Node::Sum(final(self)@[r as int].value(), None, (a, b))),
            call_ensures(T::add, (old(self)@[a as int].value(), old(self)@[b as int].value()), final(self)@[r as int].value()),
    {
        let v = *self.nodes[a].val() + *self.nodes[b].val();
        self.push(Node::Sum(v, None, (a, b)))
    }

    /// Adds the product of vertices `a` and `b`; its value is the product of their values.
    pub fn mul(&mut self, a: usize, b: usize) -> (r: usize)
        requires
            old(self).wf(),
            a < old(self)@.len(),
            b < old(self)@.len(),
            ops_total::<T>(),
        ensures
            r == old(self)@.len(),
            final(self).wf(),
            final(self)@ == old(self)@.push(Node::Prod(final(self)@[r as int].value(), None, (a, b))),
            call_ensures(T::mul, (old(self)@[a as int].value(), old(self)@[b as int].value()), final(self)@[r as int].value()),
    {
        let v = *self.nodes[a].val() * *self.nodes[b].val();
        self.push(Node::Prod(v, None, (a, b)))
    }

    /// Adds the quotient of vertices `a` and `b`. Its value is the quotient of their values
    /// (a zero divisor gives whatever the element type's division gives), but the vertex is
    /// a product vertex, so a backward pass applies the product rule to it.
    pub fn div(&mut self, a: usize, b: usize) -> (r: usize)
        requires
            old(self).wf(),
            a < old(self)@.len(),
            b < old(self)@.len(),
            ops_total::<T>(),
        ensures
            r == old(self)@.len(),
            final(self).wf(),
            final(self)@ == old(self)@.push(Node::Prod(final(self)@[r as int].value(), None, (a, b))),
            call_ensures(T::div, (old(self)@[a as int].value(), old(self)@[b as int].value()), final(self)@[r as int].value()),
    {
        let v = *self.nodes[a].val() / *self.nodes[b].val();
        self.push(Node::Prod(v, None, (a, b)))
    }

    /// Adds the exponential of vertex `a`.
    pub fn exp(&mut self, a: usize) -> (r: usize)
        requires
            old(self).wf(),
            a < old(self)@.len(),
        ensures
            r == old(self)@.len(),
            final(self).wf(),
            final(self)@ == old(self)@.push(Node::Exp(final(self)@[r as int].value(), None, a)),
            call_ensures(T::exp, (old(self)@[a as int].value(),), final(self)@[r as int].value()),
    {
        let v = self.nodes[a].val().exp();
        self.push(Node::Exp(v, None, a))
    }

    /// Adds the natural logarithm of vertex `a`. Its value is the logarithm of the value of
    /// `a`, but the vertex is an exponential vertex, so a backward pass applies the
    /// exponential's rule to it.
    pub fn ln(&mut self, a: usize) -> (r: usize)
        requires
            old(self).wf(),
            a < old(self)@.len(),
        ensures
            r == old(self)@.len(),
            final(self).wf(),
            final(self)@ == old(self)@.push(Node::Exp(final(self)@[r as int].value(), None, a)),
            call_ensures(T::ln, (old(self)@[a as int].value(),), final(self)@[r as int].value()),
    {
        let v = self.nodes[a].val().ln();
        self.push(Node::Exp(v, None, a))
    }

    /// Adds vertex `base` raised to the power of vertex `exponent`; the base is the first
    /// operand and the exponent the second.
    pub fn pow(&mut self, base: usize, exponent: usize) -> (r: usize)
        requires
            old(self).wf(),
            base < old(self)@.len(),
            exponent < old(self)@.len(),
        ensures
            r == old(self)@.len(),
            final(self).wf(),
            final(self)@ == old(self)@.push(Node::Pow(final(self)@[r as int].value(), None, (base, exponent))),
            call_ensures(T::pow, (old(self)@[base as int].value(), old(self)@[exponent as int].value()), final(self)@[r as int].value()),
    {
        let v = self.nodes[base].val().pow(*self.nodes[exponent].val());
        self.push(Node::Pow(v, None, (base, exponent)))
    }

    /// Overwrites the gradient of vertex `id`.
    pub fn set_grad(&mut self, id: usize, g: T)
        requires
            id < old(self)@.len(),
        ensures
            final(self)@ == old(self)@.update(id as int, old(self)@[id as int].with_gradient(Some(g))),
    {
        let n = self.nodes[id].regraded(g);
        self.nodes.set(id, n);
    }
}

} // verus!

verus! {

proof fn lemma_one_write<T: RealElement>(s0: Seq<Node<T>>, ws: Seq<(int, int)>, m: Seq<Node<T>>, w: (int, int), t: Seq<Node<T>>)
    requires
        applied(s0, ws, m),
        same_shape(s0, m),
        forall|i: int| 0 <= i < s0.len() && s0[i].gradient() is Some ==> (#[trigger] m[i].gradient()) is Some,
        written(m, w, t),
    ensures
        applied(s0, ws.push(w), t),
        same_shape(s0, t),
        forall|i: int| 0 <= i < s0.len() && s0[i].gradient() is Some ==> (#[trigger] t[i].gradient()) is Some,
{
    lemma_applied_step(s0, ws, m, w, t);
    lemma_written_shape(m, w, t);
    lemma_shape_trans(s0, m, t);
}

proof fn lemma_regraded_write<T: RealElement>(s: Seq<Node<T>>, p: int, slot: int, g: T, t: Seq<Node<T>>)
    requires
        0 <= p < s.len(),
        0 <= s[p].child(slot) < s.len(),
        t == s.update(s[p].child(slot), s[s[p].child(slot)].with_gradient(Some(g))),
        local_gradient(s, p, slot, g),
    ensures
        written(s, (p, slot), t),
{
    lemma_regrade(s[s[p].child(slot)], Some(g));
}

/// The writes of a vertex with one operand, followed by the pass below that operand.
proof fn lemma_unary_done<T: RealElement>(s0: Seq<Node<T>>, id: int, s1: Seq<Node<T>>, s2: Seq<Node<T>>)
    requires
        0 <= id < s0.len(),
        well_formed(s0),
        s0[id].arity() == 1,
        applied(s0, seq![(id, 0)], s1),
        same_shape(s0, s1),
        applied(s1, writes(s1, s0[id].child(0)), s2),
    ensures
        applied(s0, writes(s0, id), s2),
        same_shape(s0, s2),
{
    let c = s0[id].child(0);
    assert(0 <= s0[id].child(0) < id);
    lemma_writes_shape(s0, s1, c);
    lemma_applied_concat(s0, seq![(id, 0)], s1, writes(s1, c), s2);
    lemma_applied_shape(s1, writes(s1, c), s2);
    lemma_shape_trans(s0, s1, s2);
}

/// The writes of a vertex with two operands, followed by the passes below each of them.
proof fn lemma_binary_done<T: RealElement>(
    s0: Seq<Node<T>>,
    id: int,
    s2: Seq<Node<T>>,
    s3: Seq<Node<T>>,
    s4: Seq<Node<T>>,
)
    requires
        0 <= id < s0.len(),
        well_formed(s0),
        s0[id].arity() == 2,
        applied(s0, seq![(id, 0), (id, 1)], s2),
        same_shape(s0, s2),
        applied(s2, writes(s2, s0[id].child(0)), s3),
        applied(s3, writes(s3, s0[id].child(1)), s4),
    ensures
        applied(s0, writes(s0, id), s4),
        same_shape(s0, s4),
{
    let l = s0[id].child(0);
    let r = s0[id].child(1);
    assert(0 <= s0[id].child(0) < id);
    assert(0 <= s0[id].child(1) < id);
    lemma_writes_shape(s0, s2, l);
    lemma_applied_shape(s2, writes(s2, l), s3);
    lemma_shape_trans(s0, s2, s3);
    lemma_writes_shape(s0, s3, r);
    lemma_applied_concat(s0, seq![(id, 0), (id, 1)], s2, writes(s2, l), s3);
    lemma_applied_concat(s0, seq![(id, 0), (id, 1)] + writes(s0, l), s3, writes(s3, r), s4);
    lemma_applied_shape(s3, writes(s3, r), s4);
    lemma_shape_trans(s0, s3, s4);
}

impl<T: RealElement> Node<T> {
    /// Seeds vertex `root` with gradient `seed`, then propagates backward from it.
    pub fn backward(graph: &mut Graph<T>, root: usize, seed: T)
        requires
            old(graph).wf(),
            root < old(graph)@.len(),
            ops_total::<T>(),
        ensures
            final(graph).wf(),
            same_shape(old(graph)@, final(graph)@),
            forall|i: int| 0 <= i < old(graph)@.len() ==> (#[trigger] final(graph)@[i]).value() == old(graph)@[i].value(),
            applied(seeded(old(graph)@, root as int, seed), writes(old(graph)@, root as int), final(graph)@),
    {
        let ghost s0 = graph@;
        graph.set_grad(root, seed);
        let ghost s1 = graph@;
        proof {
            lemma_regrade(s0[root as int], Some(seed));
            assert forall|i: int| 0 <= i < s0.len() implies #[trigger] s0[i].with_gradient(None) == s1[i].with_gradient(None) by {}
            lemma_shape_well_formed(s0, s1);
            lemma_writes_shape(s0, s1, root as int);
        }
        Node::propagate_backward(graph, root);
        proof {
            lemma_applied_shape(s1, writes(s1, root as int), graph@);
            lemma_shape_trans(s0, s1, graph@);
            assert forall|i: int| 0 <= i < s0.len() implies (#[trigger] graph@[i]).value() == s0[i].value() by {
                assert(s0[i].with_gradient(None) == graph@[i].with_gradient(None));
                lemma_node_shape(s0[i], graph@[i]);
            }
        }
    }

    /// Propagates the gradient of vertex `id`, which must be set, to its operands, overwriting
    /// theirs, and then on from each operand in turn, the first before the second.
    pub fn propagate_backward(graph: &mut Graph<T>, id: usize)
        requires
            old(graph).wf(),
            id < old(graph)@.len(),
            old(graph)@[id as int].gradient() is Some,
            ops_total::<T>(),
        ensures
            final(graph).wf(),
            same_shape(old(graph)@, final(graph)@),
            applied(old(graph)@, writes(old(graph)@, id as int), final(graph)@),
        decreases id,
    {
        let ghost s0 = graph@;
        let ghost iid = id as int;
        let self_val = *graph.nodes[id].val();
        let self_grad = graph.nodes[id].grad().unwrap();
        let n = graph.nodes[id].regraded(self_grad);
        proof {
            lemma_regrade_same(s0[iid]);
            lemma_applied_empty(s0);
            assert forall|i: int| 0 <= i < s0.len() implies #[trigger] s0[i].with_gradient(None) == s0[i].with_gradient(None) by {}
            assert(0 <= s0[iid].child(0) < iid || s0[iid].arity() == 0);
            assert(0 <= s0[iid].child(1) < iid || s0[iid].arity() < 2);
        }
        match n {
            Node::Leaf(_, _) => {},
            Node::Exp(_, _, c) | Node::Ln(_, _, c) => {
                let g = match n {
                    Node::Exp(_, _, _) => self_val,
                    _ => T::from(1i8) / self_val,
                };
                graph.set_grad(c, g);
                let ghost s1 = graph@;
                proof {
                    lemma_regraded_write(s0, iid, 0, g, s1);
                    lemma_one_write(s0, Seq::<(int, int)>::empty(), s0, (iid, 0), s1);
                    assert(Seq::<(int, int)>::empty().push((iid, 0int)) =~= seq![(iid, 0int)]);
                    lemma_shape_well_formed(s0, s1);
                }
                Node::propagate_backward(graph, c);
                proof {
                    lemma_unary_done(s0, iid, s1, graph@);
                    lemma_shape_well_formed(s0, graph@);
                }
            },
            Node::Sum(_, _, (l, r)) | Node::Prod(_, _, (l, r)) | Node::Pow(_, _, (l, r)) => {
                let g0 = match n {
                    Node::Sum(_, _, _) => self_grad,
                    Node::Prod(_, _, _) => *graph.nodes[r].val() * self_grad,
                    _ => {
                        let bv = *graph.nodes[l].val();
                        let ev = *graph.nodes[r].val();
                        let m = T::from(-1i8);
                        let d = ev + m;
                        let q = bv.pow(d);
                        ev * q
                    },
                };
                graph.set_grad(l, g0);
                let ghost s1 = graph@;
                proof {
                    lemma_regraded_write(s0, iid, 0, g0, s1);
                    lemma_one_write(s0, Seq::<(int, int)>::empty(), s0, (iid, 0), s1);
                    assert(Seq::<(int, int)>::empty().push((iid, 0int)) =~= seq![(iid, 0int)]);
                    lemma_regrade(s0[l as int], Some(g0));
                    assert(s1[iid] == s0[iid]);
                }
                let g1 = match n {
                    Node::Sum(_, _, _) => self_grad,
                    Node::Prod(_, _, _) => *graph.nodes[l].val() * self_grad,
                    _ => {
                        let bv = *graph.nodes[l].val();
                        let ev = *graph.nodes[r].val();
                        let q = bv.pow(ev);
                        let lg = bv.ln();
                        q * lg
                    },
                };
                graph.set_grad(r, g1);
                let ghost s2 = graph@;
                proof {
                    lemma_regraded_write(s1, iid, 1, g1, s2);
                    lemma_one_write(s0, seq![(iid, 0int)], s1, (iid, 1), s2);
                    assert(seq![(iid, 0int)].push((iid, 1int)) =~= seq![(iid, 0int), (iid, 1int)]);
                    lemma_shape_well_formed(s0, s2);
                    lemma_regrade(s1[r as int], Some(g1));
                }
                Node::propagate_backward(graph, l);
                let ghost s3 = graph@;
                proof {
                    lemma_applied_shape(s2, writes(s2, l as int), s3);
                    lemma_shape_well_formed(s2, s3);
                }
                Node::propagate_backward(graph, r);
                proof {
                    lemma_binary_done(s0, iid, s2, s3, graph@);
                    lemma_shape_well_formed(s0, graph@);
                }
            },
        }
    }
}

} // verus!

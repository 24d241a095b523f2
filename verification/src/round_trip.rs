use vstd::prelude::*;

use crate::evaluator::spec_eval_stack;
use crate::shunting_yard::ops_as_tokens;
use crate::shunting_yard::spec_flush;
use crate::shunting_yard::spec_pops;
use crate::shunting_yard::spec_postfix;
use crate::shunting_yard::spec_stack_after;
use crate::shunting_yard::spec_sy;
use crate::tokenizer::Element;

verus! {

/// The additive operator characters, the looser-binding level.
pub open spec fn is_additive(c: char) -> bool {
    c == '+' || c == '-'
}

/// The multiplicative operator characters, the tighter-binding level.
pub open spec fn is_multiplicative(c: char) -> bool {
    c == '*' || c == '/'
}

/// A flat infix expression over `+ - * /`: a number at every even position,
/// an additive or multiplicative operator at every odd one, and a number at
/// the end (so the length is odd). No parentheses, no unary minus.
pub open spec fn wf_flat<V>(s: Seq<Element<V>>) -> bool {
    &&& s.len() % 2 == 1
    &&& forall|i: int| 0 <= i < s.len() && i % 2 == 0 ==> (#[trigger] s[i]) is Number
    &&& forall|i: int|
        0 <= i < s.len() && i % 2 == 1 ==> ((#[trigger] s[i]) matches Element::Operator(o) && (
        is_additive(o) || is_multiplicative(o)))
}

/// The payload of a number token.
pub open spec fn num_of<V>(t: Element<V>) -> V
    recommends
        t is Number,
{
    match t {
        Element::Number(v) => v,
        Element::Operator(_) => arbitrary(),
    }
}

/// The character of an operator token.
pub open spec fn op_of<V>(t: Element<V>) -> char
    recommends
        t is Operator,
{
    match t {
        Element::Number(_) => arbitrary(),
        Element::Operator(o) => o,
    }
}

/// The rightmost odd position of `s` holding an additive operator, stepping
/// pairwise from the right; negative when there is none.
pub open spec fn last_additive<V>(s: Seq<Element<V>>) -> int
    decreases s.len(),
{
    if s.len() < 2 {
        -1
    } else if is_additive(op_of(s[s.len() - 2])) {
        s.len() - 2
    } else {
        last_additive(s.take(s.len() - 2))
    }
}

/// The conventional value of a run of multiplicative operators: grouped to
/// the left, so `a * b / c` is `(a * b) / c`.
pub open spec fn product_value<V>(s: Seq<Element<V>>, g: spec_fn(char, V, V) -> V) -> V
    decreases s.len(),
{
    if s.len() <= 1 {
        num_of(s[0])
    } else {
        g(op_of(s[s.len() - 2]), product_value(s.take(s.len() - 2), g), num_of(s[s.len() - 1]))
    }
}

/// The conventional, precedence-respecting, left-associative value of a flat
/// infix expression: split at the rightmost additive operator — the one
/// applied last under left associativity — the part after it folded as a
/// product; an expression without additive operators is one product.
pub open spec fn infix_value<V>(s: Seq<Element<V>>, g: spec_fn(char, V, V) -> V) -> V
    decreases s.len(),
{
    let k = last_additive(s);
    if k < 0 {
        product_value(s, g)
    } else if k + 1 < s.len() {
        g(op_of(s[k]), infix_value(s.take(k), g), product_value(s.skip(k + 1), g))
    } else {
        product_value(s, g)
    }
}

/// A reading state: the pending sum (its left value and operator, if an
/// additive operator has been read) and the value of the current product.
type Pending<V> = (Option<(V, char)>, V);

/// Closes the state: applies the pending additive operator, if any, to the
/// current product.
spec fn resolve<V>(st: Pending<V>, g: spec_fn(char, V, V) -> V) -> V {
    match st.0 {
        Some(p) => g(p.1, p.0, st.1),
        None => st.1,
    }
}

/// Reads one operator-number pair: a multiplicative operator folds the
/// number into the current product; an additive one closes the state into a
/// new pending sum and starts a fresh product with the number.
spec fn auto_step<V>(st: Pending<V>, o: char, n: V, g: spec_fn(char, V, V) -> V) -> Pending<V> {
    if is_multiplicative(o) {
        (st.0, g(o, st.1, n))
    } else {
        (Some((resolve(st, g), o)), n)
    }
}

/// Reads the operator-number pairs of `s` from position `i` on, starting in
/// state `st`.
spec fn run_state<V>(s: Seq<Element<V>>, i: int, st: Pending<V>, g: spec_fn(char, V, V) -> V) -> Pending<V>
    decreases s.len() - i,
{
    if i < 0 || i + 1 >= s.len() {
        st
    } else {
        run_state(s, i + 2, auto_step(st, op_of(s[i]), num_of(s[i + 1]), g), g)
    }
}

/// One step of the postfix stack machine, as `spec_eval_stack` takes it.
spec fn eval_step<V>(stack: Seq<V>, t: Element<V>, zero: V, g: spec_fn(char, V, V) -> V) -> Seq<V> {
    match t {
        Element::Number(v) => stack.push(v),
        Element::Operator(o) => {
            let op2 = if stack.len() >= 1 {
                stack.last()
            } else {
                zero
            };
            let op1 = if stack.len() >= 2 {
                stack[stack.len() - 2]
            } else {
                zero
            };
            let rest = if stack.len() >= 2 {
                stack.take(stack.len() - 2)
            } else {
                Seq::empty()
            };
            rest.push(g(o, op1, op2))
        },
    }
}

/// The whole postfix sequence `s` run on the stack `st`.
spec fn eval_all<V>(s: Seq<Element<V>>, st: Seq<V>, zero: V, g: spec_fn(char, V, V) -> V) -> Seq<V> {
    spec_eval_stack(s, 0, st, zero, g)
}

/// Appending one token to a postfix sequence appends one machine step to its
/// evaluation.
proof fn lemma_eval_snoc<V>(
    s: Seq<Element<V>>,
    t: Element<V>,
    i: int,
    st: Seq<V>,
    zero: V,
    g: spec_fn(char, V, V) -> V,
)
    requires
        0 <= i <= s.len(),
    ensures
        spec_eval_stack(s.push(t), i, st, zero, g) == eval_step(
            spec_eval_stack(s, i, st, zero, g),
            t,
            zero,
            g,
        ),
    decreases s.len() - i,
{
    if i == s.len() {
        assert(s.push(t)[i] == t);
        assert(spec_eval_stack(s, i, st, zero, g) == st);
        assert(spec_eval_stack(s.push(t), i + 1, eval_step(st, t, zero, g), zero, g) == eval_step(
            st,
            t,
            zero,
            g,
        ));
        match t {
            Element::Number(v) => {
                assert(spec_eval_stack(s.push(t), i, st, zero, g) == eval_step(st, t, zero, g));
            },
            Element::Operator(o) => {
                assert(spec_eval_stack(s.push(t), i, st, zero, g) == eval_step(st, t, zero, g));
            },
        }
    } else {
        assert(s.push(t)[i] == s[i]);
        match s[i] {
            Element::Number(v) => {
                lemma_eval_snoc(s, t, i + 1, st.push(v), zero, g);
            },
            Element::Operator(o) => {
                lemma_eval_snoc(s, t, i + 1, eval_step(st, s[i], zero, g), zero, g);
                assert(spec_eval_stack(s, i, st, zero, g) == spec_eval_stack(
                    s,
                    i + 1,
                    eval_step(st, s[i], zero, g),
                    zero,
                    g,
                ));
                assert(spec_eval_stack(s.push(t), i, st, zero, g) == spec_eval_stack(
                    s.push(t),
                    i + 1,
                    eval_step(st, s[i], zero, g),
                    zero,
                    g,
                ));
            },
        }
    }
}

/// How the converter's operator stack and the output's value stack mirror a
/// reading state on flat input. The stack holds at most one additive
/// operator, with at most one multiplicative operator above it; the value
/// stack holds, below the top, the operands those pending operators wait
/// for.
spec fn inv<V>(stack: Seq<char>, vs: Seq<V>, st: Pending<V>, g: spec_fn(char, V, V) -> V) -> bool {
    if stack.len() == 0 {
        vs.len() == 1 && st.0 is None && st.1 == vs[0]
    } else if stack.len() == 1 {
        vs.len() == 2 && (if is_additive(stack[0]) {
            st.0 == Some((vs[0], stack[0])) && st.1 == vs[1]
        } else {
            is_multiplicative(stack[0]) && st.0 is None && st.1 == g(stack[0], vs[0], vs[1])
        })
    } else {
        stack.len() == 2 && is_additive(stack[0]) && is_multiplicative(stack[1]) && vs.len() == 3
            && st.0 == Some((vs[0], stack[0])) && st.1 == g(stack[1], vs[1], vs[2])
    }
}

/// Draining the operator stack at the end of the input turns a mirrored
/// state into its closed value on top of the base stack.
proof fn lemma_finish<V>(
    out: Seq<Element<V>>,
    stack: Seq<char>,
    vs: Seq<V>,
    st: Pending<V>,
    base: Seq<V>,
    zero: V,
    g: spec_fn(char, V, V) -> V,
)
    requires
        inv(stack, vs, st, g),
        eval_all(out, base, zero, g) == base + vs,
    ensures
        eval_all(out + ops_as_tokens::<V>(spec_flush(stack)), base, zero, g) == base + seq![
            resolve(st, g),
        ],
    decreases stack.len(),
{
    if stack.len() == 0 {
        assert(spec_flush(stack) == Seq::<char>::empty());
        assert(out + ops_as_tokens::<V>(Seq::<char>::empty()) =~= out);
        assert(vs =~= seq![st.1]);
    } else if stack.len() == 1 {
        let c = stack[0];
        let x = vs[0];
        let y = vs[1];
        assert(stack.last() == c && stack.drop_last() =~= Seq::<char>::empty());
        assert(spec_flush(Seq::<char>::empty()) == Seq::<char>::empty());
        assert(ops_as_tokens::<V>(Seq::<char>::empty()) == Seq::<Element<V>>::empty());
        assert(spec_flush(stack) =~= seq![c]);
        assert(seq![c].drop_first() =~= Seq::<char>::empty());
        assert(ops_as_tokens::<V>(seq![c]) =~= seq![Element::Operator::<V>(c)]);
        assert(out + ops_as_tokens::<V>(spec_flush(stack)) =~= out.push(Element::Operator(c)));
        lemma_eval_snoc(out, Element::Operator(c), 0, base, zero, g);
        let s1 = base + vs;
        assert(s1.len() == base.len() + 2);
        assert(s1.last() == y);
        assert(s1[s1.len() - 2] == x);
        assert(s1.take(s1.len() - 2) =~= base);
        assert(eval_step(s1, Element::Operator(c), zero, g) =~= base + seq![g(c, x, y)]);
        assert(resolve(st, g) == g(c, x, y));
    } else {
        let a = stack[0];
        let m = stack[1];
        let x = vs[0];
        let y = vs[1];
        let z = vs[2];
        assert(spec_flush(Seq::<char>::empty()) == Seq::<char>::empty());
        assert(ops_as_tokens::<V>(Seq::<char>::empty()) == Seq::<Element<V>>::empty());
        assert(stack.last() == m && stack.drop_last() =~= seq![a]);
        assert(seq![a].last() == a && seq![a].drop_last() =~= Seq::<char>::empty());
        assert(spec_flush(seq![a]) =~= seq![a]);
        assert(spec_flush(stack) =~= seq![m, a]);
        assert(seq![m, a][0] == m && seq![m, a].drop_first() =~= seq![a]);
        assert(seq![a].drop_first() =~= Seq::<char>::empty());
        assert(ops_as_tokens::<V>(seq![a]) =~= seq![Element::Operator::<V>(a)]);
        assert(ops_as_tokens::<V>(seq![m, a]) =~= seq![
            Element::Operator::<V>(m),
            Element::Operator::<V>(a),
        ]);
        let out1 = out.push(Element::Operator(m));
        assert(out + ops_as_tokens::<V>(spec_flush(stack)) =~= out1.push(Element::Operator(a)));
        lemma_eval_snoc(out, Element::Operator(m), 0, base, zero, g);
        let s1 = base + vs;
        assert(s1.len() == base.len() + 3);
        assert(s1.last() == z);
        assert(s1[s1.len() - 2] == y);
        assert(s1.take(s1.len() - 2) =~= base + seq![x]);
        let w = g(m, y, z);
        assert(eval_all(out1, base, zero, g) =~= base + seq![x, w]);
        lemma_eval_snoc(out1, Element::Operator(a), 0, base, zero, g);
        let s2 = base + seq![x, w];
        assert(s2.len() == base.len() + 2);
        assert(s2.last() == w);
        assert(s2[s2.len() - 2] == x);
        assert(s2.take(s2.len() - 2) =~= base);
        assert(eval_step(s2, Element::Operator(a), zero, g) =~= base + seq![g(a, x, w)]);
        assert(resolve(st, g) == g(a, x, w));
    }
}

/// Appending an operator token applies it to the two values on top of `vs`.
proof fn lemma_apply_op<V>(
    out: Seq<Element<V>>,
    base: Seq<V>,
    vs: Seq<V>,
    c: char,
    zero: V,
    g: spec_fn(char, V, V) -> V,
)
    requires
        vs.len() >= 2,
        eval_all(out, base, zero, g) == base + vs,
    ensures
        eval_all(out.push(Element::Operator(c)), base, zero, g) == base + vs.take(
            vs.len() - 2,
        ).push(g(c, vs[vs.len() - 2], vs[vs.len() - 1])),
{
    lemma_eval_snoc(out, Element::Operator(c), 0, base, zero, g);
    let s1 = base + vs;
    assert(s1.len() == base.len() + vs.len());
    assert(s1.last() == vs[vs.len() - 1]);
    assert(s1[s1.len() - 2] == vs[vs.len() - 2]);
    assert(s1.take(s1.len() - 2) =~= base + vs.take(vs.len() - 2));
    assert((base + vs.take(vs.len() - 2)).push(g(c, vs[vs.len() - 2], vs[vs.len() - 1])) =~= base
        + vs.take(vs.len() - 2).push(g(c, vs[vs.len() - 2], vs[vs.len() - 1])));
}

/// Appending a number token pushes its payload on top of `vs`.
proof fn lemma_push_num<V>(
    out: Seq<Element<V>>,
    base: Seq<V>,
    vs: Seq<V>,
    n: V,
    zero: V,
    g: spec_fn(char, V, V) -> V,
)
    requires
        eval_all(out, base, zero, g) == base + vs,
    ensures
        eval_all(out.push(Element::Number(n)), base, zero, g) == base + vs.push(n),
{
    lemma_eval_snoc(out, Element::Number(n), 0, base, zero, g);
    assert((base + vs).push(n) =~= base + vs.push(n));
}

/// The heart of the round trip: from any mirrored mid-run state, finishing
/// the shunting-yard run and evaluating what it appends yields the value of
/// the reading automaton run to the end of the input.
proof fn lemma_run<V>(
    s: Seq<Element<V>>,
    i: int,
    stack: Seq<char>,
    out: Seq<Element<V>>,
    vs: Seq<V>,
    st: Pending<V>,
    base: Seq<V>,
    zero: V,
    g: spec_fn(char, V, V) -> V,
    neg_one: V,
)
    requires
        wf_flat(s),
        1 <= i <= s.len(),
        i % 2 == 1,
        inv(stack, vs, st, g),
        eval_all(out, base, zero, g) == base + vs,
    ensures
        spec_sy(s, i, stack, out, false, neg_one) matches Some(r) && eval_all(r, base, zero, g)
            == base + seq![resolve(run_state(s, i, st, g), g)],
    decreases s.len() - i,
{
    if i >= s.len() {
        assert(run_state(s, i, st, g) == st);
        lemma_finish(out, stack, vs, st, base, zero, g);
        assert(spec_sy(s, i, stack, out, false, neg_one) == Some(
            out + ops_as_tokens::<V>(spec_flush(stack)),
        ));
    } else {
        assert(s[i] matches Element::Operator(oo) && (is_additive(oo) || is_multiplicative(oo)));
        let o = op_of(s[i]);
        let n = num_of(s[i + 1]);
        assert((i + 1) % 2 == 0 && s[i + 1] is Number);
        assert(s[i + 1] == Element::Number(n));
        assert(o != '(' && o != ')');
        let out1 = out + ops_as_tokens::<V>(spec_pops(stack, o));
        let stack1 = spec_stack_after(stack, o).push(o);
        assert(spec_sy(s, i, stack, out, false, neg_one) == spec_sy(
            s,
            i + 1,
            stack1,
            out1,
            true,
            neg_one,
        ));
        let out2 = out1.push(Element::Number(n));
        assert(spec_sy(s, i + 1, stack1, out1, true, neg_one) == spec_sy(
            s,
            i + 2,
            stack1,
            out2,
            false,
            neg_one,
        ));
        let st2 = auto_step(st, o, n, g);
        assert(run_state(s, i, st, g) == run_state(s, i + 2, st2, g));
        assert(ops_as_tokens::<V>(Seq::<char>::empty()) == Seq::<Element<V>>::empty());
        if stack.len() == 0 {
            assert(spec_pops(stack, o) == Seq::<char>::empty());
            assert(spec_stack_after(stack, o) == stack);
            assert(out1 =~= out);
            assert(stack1 =~= seq![o]);
            let vs2 = vs.push(n);
            lemma_push_num(out, base, vs, n, zero, g);
            assert(out2 == out.push(Element::Number(n)));
            assert(vs2 =~= seq![vs[0], n]);
            assert(inv(stack1, vs2, st2, g));
            lemma_run(s, i + 2, stack1, out2, vs2, st2, base, zero, g, neg_one);
        } else if stack.len() == 1 {
            let c = stack[0];
            assert(stack.last() == c && stack.drop_last() =~= Seq::<char>::empty());
            if (is_additive(c) && is_multiplicative(o)) {
                // `o` binds tighter: nothing pops, `o` goes on top of `c`.
                assert(!crate::shunting_yard::spec_pops_over(c, o));
                assert(spec_pops(stack, o) == Seq::<char>::empty());
                assert(spec_stack_after(stack, o) == stack);
                assert(out1 =~= out);
                assert(stack1 =~= seq![c, o]);
                let vs2 = vs.push(n);
                lemma_push_num(out, base, vs, n, zero, g);
                assert(out2 == out.push(Element::Number(n)));
                assert(vs2 =~= seq![vs[0], vs[1], n]);
                assert(inv(stack1, vs2, st2, g));
                lemma_run(s, i + 2, stack1, out2, vs2, st2, base, zero, g, neg_one);
            } else {
                // `c` pops: equal level and left associativity, or `c` the
                // tighter multiplicative one.
                assert(crate::shunting_yard::spec_pops_over(c, o));
                assert(spec_pops(Seq::<char>::empty(), o) == Seq::<char>::empty());
                assert(spec_stack_after(Seq::<char>::empty(), o) == Seq::<char>::empty());
                assert(spec_pops(stack, o) =~= seq![c]);
                assert(spec_stack_after(stack, o) == Seq::<char>::empty());
                assert(seq![c].drop_first() =~= Seq::<char>::empty());
                assert(ops_as_tokens::<V>(seq![c]) =~= seq![Element::Operator::<V>(c)]);
                assert(out1 =~= out.push(Element::Operator(c)));
                assert(stack1 =~= seq![o]);
                let w = g(c, vs[0], vs[1]);
                lemma_apply_op(out, base, vs, c, zero, g);
                assert(vs.take(vs.len() - 2) =~= Seq::<V>::empty());
                assert(eval_all(out1, base, zero, g) == base + Seq::<V>::empty().push(w));
                lemma_push_num(out1, base, Seq::<V>::empty().push(w), n, zero, g);
                let vs2 = Seq::<V>::empty().push(w).push(n);
                assert(vs2 =~= seq![w, n]);
                assert(resolve(st, g) == w);
                assert(inv(stack1, vs2, st2, g));
                lemma_run(s, i + 2, stack1, out2, vs2, st2, base, zero, g, neg_one);
            }
        } else {
            let a = stack[0];
            let m = stack[1];
            let x = vs[0];
            let y = vs[1];
            let z = vs[2];
            assert(stack.last() == m && stack.drop_last() =~= seq![a]);
            assert(seq![a].last() == a && seq![a].drop_last() =~= Seq::<char>::empty());
            assert(crate::shunting_yard::spec_pops_over(m, o));
            if is_multiplicative(o) {
                // Only `m` pops; `o` replaces it above `a`.
                assert(!crate::shunting_yard::spec_pops_over(a, o));
                assert(spec_pops(seq![a], o) == Seq::<char>::empty());
                assert(spec_stack_after(seq![a], o) == seq![a]);
                assert(spec_pops(stack, o) =~= seq![m]);
                assert(spec_stack_after(stack, o) == seq![a]);
                assert(seq![m].drop_first() =~= Seq::<char>::empty());
                assert(ops_as_tokens::<V>(seq![m]) =~= seq![Element::Operator::<V>(m)]);
                assert(out1 =~= out.push(Element::Operator(m)));
                assert(stack1 =~= seq![a, o]);
                let w = g(m, y, z);
                lemma_apply_op(out, base, vs, m, zero, g);
                assert(vs.take(vs.len() - 2) =~= seq![x]);
                assert(eval_all(out1, base, zero, g) == base + seq![x].push(w));
                lemma_push_num(out1, base, seq![x].push(w), n, zero, g);
                let vs2 = seq![x].push(w).push(n);
                assert(vs2 =~= seq![x, w, n]);
                assert(inv(stack1, vs2, st2, g));
                lemma_run(s, i + 2, stack1, out2, vs2, st2, base, zero, g, neg_one);
            } else {
                // Both pending operators pop, `m` first; `o` starts a fresh
                // stack.
                assert(is_additive(o));
                assert(crate::shunting_yard::spec_pops_over(a, o));
                assert(spec_pops(Seq::<char>::empty(), o) == Seq::<char>::empty());
                assert(spec_stack_after(Seq::<char>::empty(), o) == Seq::<char>::empty());
                assert(spec_pops(seq![a], o) =~= seq![a]);
                assert(spec_stack_after(seq![a], o) == Seq::<char>::empty());
                assert(spec_pops(stack, o) =~= seq![m, a]);
                assert(spec_stack_after(stack, o) == Seq::<char>::empty());
                assert(seq![m, a][0] == m && seq![m, a].drop_first() =~= seq![a]);
                assert(seq![a].drop_first() =~= Seq::<char>::empty());
                assert(ops_as_tokens::<V>(seq![a]) =~= seq![Element::Operator::<V>(a)]);
                assert(ops_as_tokens::<V>(seq![m, a]) =~= seq![
                    Element::Operator::<V>(m),
                    Element::Operator::<V>(a),
                ]);
                let outm = out.push(Element::Operator(m));
                assert(out1 =~= outm.push(Element::Operator(a)));
                assert(stack1 =~= seq![o]);
                let w = g(m, y, z);
                lemma_apply_op(out, base, vs, m, zero, g);
                assert(vs.take(vs.len() - 2) =~= seq![x]);
                assert(eval_all(outm, base, zero, g) == base + seq![x].push(w));
                let u = g(a, x, w);
                lemma_apply_op(outm, base, seq![x].push(w), a, zero, g);
                assert(seq![x].push(w).take(0) =~= Seq::<V>::empty());
                assert(eval_all(out1, base, zero, g) == base + Seq::<V>::empty().push(u));
                lemma_push_num(out1, base, Seq::<V>::empty().push(u), n, zero, g);
                let vs2 = Seq::<V>::empty().push(u).push(n);
                assert(vs2 =~= seq![u, n]);
                assert(resolve(st, g) == u);
                assert(inv(stack1, vs2, st2, g));
                lemma_run(s, i + 2, stack1, out2, vs2, st2, base, zero, g, neg_one);
            }
        }
    }
}

/// Extending the input by one operator-number pair extends the reading by
/// one step.
proof fn lemma_run_state_snoc<V>(
    s: Seq<Element<V>>,
    o: char,
    n: V,
    i: int,
    st: Pending<V>,
    g: spec_fn(char, V, V) -> V,
)
    requires
        s.len() % 2 == 1,
        1 <= i <= s.len(),
        i % 2 == 1,
    ensures
        run_state(s.push(Element::Operator(o)).push(Element::Number(n)), i, st, g) == auto_step(
            run_state(s, i, st, g),
            o,
            n,
            g,
        ),
    decreases s.len() - i,
{
    let s2 = s.push(Element::Operator(o)).push(Element::Number(n));
    assert(s2.len() == s.len() + 2);
    if i + 1 >= s.len() {
        assert(i == s.len());
        assert(run_state(s, i, st, g) == st);
        assert(s2[i] == Element::Operator::<V>(o));
        assert(s2[i + 1] == Element::Number(n));
        assert(run_state(s2, i, st, g) == run_state(s2, i + 2, auto_step(st, o, n, g), g));
        assert(run_state(s2, i + 2, auto_step(st, o, n, g), g) == auto_step(st, o, n, g));
    } else {
        assert(s2[i] == s[i]);
        assert(s2[i + 1] == s[i + 1]);
        lemma_run_state_snoc(s, o, n, i + 2, auto_step(st, op_of(s[i]), num_of(s[i + 1]), g), g);
    }
}

/// The reading automaton computes the conventional split: its pending sum is
/// the value left of the rightmost additive operator, its current product
/// the product right of it.
proof fn lemma_auto_is_infix<V>(s: Seq<Element<V>>, g: spec_fn(char, V, V) -> V)
    requires
        wf_flat(s),
    ensures
        ({
            let k = last_additive(s);
            let st = run_state(s, 1, (None::<(V, char)>, num_of(s[0])), g);
            &&& k < 0 ==> st == (None::<(V, char)>, product_value(s, g))
            &&& k >= 0 ==> k + 1 < s.len() && st == (
                Some((infix_value(s.take(k), g), op_of(s[k]))),
                product_value(s.skip(k + 1), g),
            )
        }),
    decreases s.len(),
{
    let st0 = (None::<(V, char)>, num_of(s[0]));
    if s.len() == 1 {
        assert(run_state(s, 1, st0, g) == st0);
        assert(last_additive(s) == -1);
        assert(product_value(s, g) == num_of(s[0]));
    } else {
        let len = s.len() as int;
        let prefix = s.take(len - 2);
        assert(prefix.len() % 2 == 1);
        assert(wf_flat(prefix)) by {
            assert(forall|j: int|
                0 <= j < prefix.len() ==> #[trigger] prefix[j] == s[j]);
        }
        lemma_auto_is_infix(prefix, g);
        assert(s[len - 2] matches Element::Operator(oo) && (is_additive(oo)
            || is_multiplicative(oo)));
        let o = op_of(s[len - 2]);
        let n = num_of(s[len - 1]);
        assert(s[len - 2] == Element::Operator::<V>(o));
        assert(s[len - 1] == Element::Number(n));
        assert(s =~= prefix.push(Element::Operator(o)).push(Element::Number(n)));
        assert(prefix[0] == s[0]);
        lemma_run_state_snoc(prefix, o, n, 1, st0, g);
        let prev = run_state(prefix, 1, st0, g);
        let st = run_state(s, 1, st0, g);
        assert(st == auto_step(prev, o, n, g));
        let kp = last_additive(prefix);
        // The recursive ensures, spelled out for the two shapes of `prefix`.
        if kp < 0 {
            assert(prev == (None::<(V, char)>, product_value(prefix, g)));
            assert(resolve(prev, g) == product_value(prefix, g));
            assert(infix_value(prefix, g) == product_value(prefix, g));
        } else {
            assert(prev == (
                Some((infix_value(prefix.take(kp), g), op_of(prefix[kp]))),
                product_value(prefix.skip(kp + 1), g),
            ));
            assert(resolve(prev, g) == g(
                op_of(prefix[kp]),
                infix_value(prefix.take(kp), g),
                product_value(prefix.skip(kp + 1), g),
            ));
            assert(infix_value(prefix, g) == resolve(prev, g));
        }
        if is_additive(o) {
            assert(last_additive(s) == len - 2);
            assert(st == (Some((resolve(prev, g), o)), n));
            assert(s.take(len - 2) == prefix);
            assert(op_of(s[len - 2]) == o);
            assert(s.skip(len - 1) =~= seq![Element::Number(n)]);
            assert(product_value(s.skip(len - 1), g) == n);
            assert(resolve(prev, g) == infix_value(prefix, g));
        } else {
            assert(last_additive(s) == last_additive(prefix));
            assert(st == (prev.0, g(o, prev.1, n)));
            if kp < 0 {
                assert(product_value(s, g) == g(o, product_value(prefix, g), n));
            } else {
                assert(s.take(kp) =~= prefix.take(kp));
                assert(s[kp] == prefix[kp]);
                let t = s.skip(kp + 1);
                assert(t.len() == len - kp - 1);
                assert(t.len() >= 2);
                assert(t[t.len() - 2] == s[len - 2]);
                assert(t[t.len() - 1] == s[len - 1]);
                assert(t.take(t.len() - 2) =~= prefix.skip(kp + 1));
                assert(product_value(t, g) == g(o, product_value(prefix.skip(kp + 1), g), n));
            }
        }
    }
}

/// Round-trip precedence: a flat infix expression over the four binary
/// operators `+ - * /`, put through the shunting-yard conversion and the
/// postfix stack machine, takes the conventional value — the one that
/// groups `*` and `/` before `+` and `-` and applies operators of equal
/// precedence left to right — whatever the payloads and the arithmetic `g`
/// stand for.
pub proof fn lemma_round_trip_precedence<V>(
    s: Seq<Element<V>>,
    zero: V,
    neg_one: V,
    g: spec_fn(char, V, V) -> V,
)
    requires
        wf_flat(s),
    ensures
        spec_postfix(s, neg_one) matches Some(out) && crate::evaluator::spec_evaluate(out, zero, g)
            == infix_value(s, g),
{
    let e = Seq::<Element<V>>::empty();
    let n0 = num_of(s[0]);
    assert(s[0] is Number);
    assert(s[0] == Element::Number(n0));
    assert(spec_sy(s, 0, Seq::empty(), e, true, neg_one) == spec_sy(
        s,
        1,
        Seq::empty(),
        e.push(Element::Number(n0)),
        false,
        neg_one,
    ));
    let st0 = (None::<(V, char)>, n0);
    let eb = Seq::<V>::empty();
    assert(eval_all(e, eb, zero, g) =~= eb + eb);
    lemma_push_num(e, eb, eb, n0, zero, g);
    let vs0 = eb.push(n0);
    assert(inv(Seq::<char>::empty(), vs0, st0, g));
    lemma_run(s, 1, Seq::<char>::empty(), e.push(Element::Number(n0)), vs0, st0, eb, zero, g, neg_one);
    lemma_auto_is_infix(s, g);
    let st = run_state(s, 1, st0, g);
    let k = last_additive(s);
    if k < 0 {
        assert(resolve(st, g) == product_value(s, g));
        assert(infix_value(s, g) == product_value(s, g));
    } else {
        assert(resolve(st, g) == g(
            op_of(s[k]),
            infix_value(s.take(k), g),
            product_value(s.skip(k + 1), g),
        ));
        assert(infix_value(s, g) == resolve(st, g));
    }
    let r = spec_sy(s, 1, Seq::<char>::empty(), e.push(Element::Number(n0)), false, neg_one);
    assert(r matches Some(out) && eval_all(out, eb, zero, g) == eb + seq![resolve(st, g)]);
    assert(spec_postfix(s, neg_one) == r);
    assert(r matches Some(out) ==> {
        &&& eval_all(out, eb, zero, g) =~= seq![resolve(st, g)]
        &&& crate::evaluator::spec_evaluate(out, zero, g) == resolve(st, g)
    });
}

} // verus!

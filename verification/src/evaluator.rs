use vstd::prelude::*;

use crate::tokenizer::Element;

verus! {

/// `g` names what `apply` computes: every value `apply` may return for an
/// operator character and two operands equals `g` of them.
pub open spec fn apply_matches<V, F: Fn(char, V, V) -> V>(
    apply: F,
    g: spec_fn(char, V, V) -> V,
) -> bool {
    forall|c: char, a: V, b: V, r: V|
        #[trigger] call_ensures(apply, (c, a, b), r) ==> r == g(c, a, b)
}

/// The value stack left after the postfix tokens of `s`, from position `i`
/// on, are consumed starting from `stack`. A number is pushed; an operator
/// pops its right operand first, then its left one — each replaced by `zero`
/// when the stack is exhausted — and pushes `g` of the operator and the two
/// operands.
pub open spec fn spec_eval_stack<V>(
    s: Seq<Element<V>>,
    i: int,
    stack: Seq<V>,
    zero: V,
    g: spec_fn(char, V, V) -> V,
) -> Seq<V>
    decreases s.len() - i,
{
    if i < 0 || i >= s.len() {
        stack
    } else {
        match s[i] {
            Element::Number(v) => spec_eval_stack(s, i + 1, stack.push(v), zero, g),
            Element::Operator(o) => {
                let op2 = if stack.len() >= 1 {
                    stack.last()
                } else {
                    zero
                };
                let op1 = if stack.len() >= 2 {
                    stack[stack.len() - 2]
                } else {
                    zero
                };
                let rest = if stack.len() >= 2 {
                    stack.take(stack.len() - 2)
                } else {
                    Seq::empty()
                };
                spec_eval_stack(s, i + 1, rest.push(g(o, op1, op2)), zero, g)
            },
        }
    }
}

/// The value of the postfix sequence `postfix`: the top of the final stack,
/// or `zero` when the final stack is empty.
pub open spec fn spec_evaluate<V>(
    postfix: Seq<Element<V>>,
    zero: V,
    g: spec_fn(char, V, V) -> V,
) -> V {
    let st = spec_eval_stack(postfix, 0, Seq::empty(), zero, g);
    if st.len() > 0 {
        st.last()
    } else {
        zero
    }
}

/// Reduces a postfix token sequence to one value with a stack machine.
/// Numbers are pushed; an operator pops its right operand, then its left one
/// (`zero` stands in for each missing operand), and pushes `apply` of them;
/// the result is the value left on top, or `zero` when nothing is left. For
/// any arithmetic `g` that `apply` implements, the result is pinned down as
/// `spec_evaluate(postfix@, zero, g)`.
pub fn evaluate<V: Copy, F: Fn(char, V, V) -> V>(postfix: Vec<Element<V>>, zero: V, apply: F) -> (r:
    V)
    requires
        forall|c: char, a: V, b: V| #[trigger] call_requires(apply, (c, a, b)),
    ensures
        forall|g: spec_fn(char, V, V) -> V|
            #[trigger] apply_matches(apply, g) ==> r == spec_evaluate(postfix@, zero, g),
        postfix@.len() == 0 ==> r == zero,
{
    let mut stack: Vec<V> = Vec::new();
    let mut i: usize = 0;
    proof {
        assert(stack@ =~= Seq::<V>::empty());
    }
    while i < postfix.len()
        invariant
            i <= postfix@.len(),
            postfix@.len() == 0 ==> stack@.len() == 0,
            forall|c: char, a: V, b: V| #[trigger] call_requires(apply, (c, a, b)),
            forall|g: spec_fn(char, V, V) -> V|
                #[trigger] apply_matches(apply, g) ==> spec_eval_stack(
                    postfix@,
                    i as int,
                    stack@,
                    zero,
                    g,
                ) == spec_eval_stack(postfix@, 0, Seq::empty(), zero, g),
        decreases postfix@.len() - i,
    {
        let ghost prev_stack = stack@;
        match postfix[i] {
            Element::Number(v) => {
                stack.push(v);
                proof {
                    assert forall|g: spec_fn(char, V, V) -> V| #[trigger] apply_matches(apply, g)
                        implies spec_eval_stack(postfix@, i as int + 1, stack@, zero, g)
                        == spec_eval_stack(postfix@, 0, Seq::empty(), zero, g) by {
                        assert(spec_eval_stack(postfix@, i as int, prev_stack, zero, g)
                            == spec_eval_stack(postfix@, i as int + 1, prev_stack.push(v), zero, g));
                    }
                }
            },
            Element::Operator(o) => {
                let op2 = match stack.pop() {
                    Some(v) => v,
                    None => zero,
                };
                let op1 = match stack.pop() {
                    Some(v) => v,
                    None => zero,
                };
                let ghost rest = stack@;
                let result = apply(o, op1, op2);
                stack.push(result);
                proof {
                    if prev_stack.len() >= 2 {
                        assert(rest =~= prev_stack.take(prev_stack.len() - 2));
                    } else {
                        assert(rest =~= Seq::<V>::empty());
                    }
                    assert forall|g: spec_fn(char, V, V) -> V| #[trigger] apply_matches(apply, g)
                        implies spec_eval_stack(postfix@, i as int + 1, stack@, zero, g)
                        == spec_eval_stack(postfix@, 0, Seq::empty(), zero, g) by {
                        assert(result == g(o, op1, op2));
                        assert(spec_eval_stack(postfix@, i as int, prev_stack, zero, g)
                            == spec_eval_stack(
                            postfix@,
                            i as int + 1,
                            rest.push(g(o, op1, op2)),
                            zero,
                            g,
                        ));
                    }
                }
            },
        }
        i = i + 1;
    }
    let ghost end_stack = stack@;
    let result = match stack.pop() {
        Some(v) => v,
        None => zero,
    };
    proof {
        assert forall|g: spec_fn(char, V, V) -> V| #[trigger] apply_matches(apply, g)
            implies result == spec_evaluate(postfix@, zero, g) by {
            assert(spec_eval_stack(postfix@, postfix@.len() as int, end_stack, zero, g)
                == end_stack);
        }
    }
    result
}

} // verus!

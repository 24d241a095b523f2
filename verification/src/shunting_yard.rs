use vstd::prelude::*;

use crate::helpers::get_op_value;
use crate::helpers::spec_precedence;
use crate::helpers::spec_right_assoc;
use crate::tokenizer::Element;

verus! {

/// Whether the precedence-pop rule moves `top` off the stack when `op`
/// arrives: `top` binds tighter, or equally tight while `op` is
/// left-associative.
pub open spec fn spec_pops_over(top: char, op: char) -> bool {
    spec_precedence(top) > spec_precedence(op) || (spec_precedence(top) == spec_precedence(op)
        && !spec_right_assoc(op))
}

/// The operators the precedence-pop rule pops for an incoming `op`, in pop
/// order (stack top first).
pub open spec fn spec_pops(stack: Seq<char>, op: char) -> Seq<char>
    decreases stack.len(),
{
    if stack.len() == 0 {
        Seq::empty()
    } else if spec_pops_over(stack.last(), op) {
        seq![stack.last()] + spec_pops(stack.drop_last(), op)
    } else {
        Seq::empty()
    }
}

/// What remains of the stack after the precedence-pop rule ran for `op`
/// (before `op` itself is pushed).
pub open spec fn spec_stack_after(stack: Seq<char>, op: char) -> Seq<char>
    decreases stack.len(),
{
    if stack.len() == 0 {
        stack
    } else if spec_pops_over(stack.last(), op) {
        spec_stack_after(stack.drop_last(), op)
    } else {
        stack
    }
}

/// The operators a closing parenthesis pops, in pop order: everything above
/// the nearest `(`, or the whole stack when no `(` is present.
pub open spec fn spec_paren_pops(stack: Seq<char>) -> Seq<char>
    decreases stack.len(),
{
    if stack.len() == 0 {
        Seq::empty()
    } else if stack.last() == '(' {
        Seq::empty()
    } else {
        seq![stack.last()] + spec_paren_pops(stack.drop_last())
    }
}

/// What remains of the stack after a closing parenthesis: the part below the
/// nearest `(` (which is discarded), or nothing when no `(` is present.
pub open spec fn spec_paren_stack(stack: Seq<char>) -> Seq<char>
    decreases stack.len(),
{
    if stack.len() == 0 {
        Seq::empty()
    } else if stack.last() == '(' {
        stack.drop_last()
    } else {
        spec_paren_stack(stack.drop_last())
    }
}

/// The whole stack in pop order (top first), as drained at the end of input.
pub open spec fn spec_flush(stack: Seq<char>) -> Seq<char>
    decreases stack.len(),
{
    if stack.len() == 0 {
        Seq::empty()
    } else {
        seq![stack.last()] + spec_flush(stack.drop_last())
    }
}

/// Operator characters as operator tokens.
pub open spec fn ops_as_tokens<V>(ops: Seq<char>) -> Seq<Element<V>>
    decreases ops.len(),
{
    if ops.len() == 0 {
        Seq::empty()
    } else {
        seq![Element::Operator(ops[0])] + ops_as_tokens(ops.drop_first())
    }
}

proof fn lemma_ops_as_tokens_cons<V>(top: char, rest: Seq<char>)
    ensures
        ops_as_tokens::<V>(seq![top] + rest) == seq![Element::Operator::<V>(top)]
            + ops_as_tokens::<V>(rest),
{
    let s = seq![top] + rest;
    assert(s[0] == top);
    assert(s.drop_first() =~= rest);
}

/// One pop step: moving `top` from the stack to the output queue commutes
/// with prepending it to the operators still to pop.
proof fn lemma_pop_step<V>(prev_out: Seq<Element<V>>, new_out: Seq<Element<V>>, top: char, rest: Seq<char>)
    requires
        new_out == prev_out.push(Element::Operator::<V>(top)),
    ensures
        prev_out + ops_as_tokens::<V>(seq![top] + rest) == new_out + ops_as_tokens::<V>(rest),
{
    lemma_ops_as_tokens_cons::<V>(top, rest);
    assert(new_out =~= prev_out + seq![Element::Operator::<V>(top)]);
    assert(prev_out + (seq![Element::Operator::<V>(top)] + ops_as_tokens::<V>(rest)) =~= (prev_out
        + seq![Element::Operator::<V>(top)]) + ops_as_tokens::<V>(rest));
}

/// One run of the shunting-yard algorithm from position `i` of `s`, with
/// operator stack `stack`, output queue `out` and the unary flag `unary`
/// (true when a `-` read next would be a sign, not a subtraction). A number
/// goes to the output; `(` is pushed; `)` pops down to its `(`; a unary `-`
/// appends the following number (if one follows directly), then a synthetic
/// number `neg_one` and a synthetic `*`; every other operator first pops by
/// the precedence-pop rule and is then pushed. At the end of input the stack
/// is drained to the output in pop order. The run is `None` exactly when a
/// unary `-` is the last token, where the algorithm has no next token to
/// inspect.
pub open spec fn spec_sy<V>(
    s: Seq<Element<V>>,
    i: int,
    stack: Seq<char>,
    out: Seq<Element<V>>,
    unary: bool,
    neg_one: V,
) -> Option<Seq<Element<V>>>
    decreases s.len() - i,
{
    if i < 0 || i >= s.len() {
        Some(out + ops_as_tokens(spec_flush(stack)))
    } else {
        match s[i] {
            Element::Number(v) => spec_sy(
                s,
                i + 1,
                stack,
                out.push(Element::Number(v)),
                false,
                neg_one,
            ),
            Element::Operator(o) => {
                if o == '(' {
                    spec_sy(s, i + 1, stack.push('('), out, true, neg_one)
                } else if o == ')' {
                    spec_sy(
                        s,
                        i + 1,
                        spec_paren_stack(stack),
                        out + ops_as_tokens(spec_paren_pops(stack)),
                        false,
                        neg_one,
                    )
                } else if o == '-' && unary {
                    if i + 1 >= s.len() {
                        None
                    } else {
                        match s[i + 1] {
                            Element::Number(v) => spec_sy(
                                s,
                                i + 2,
                                stack,
                                out.push(Element::Number(v)).push(Element::Number(neg_one)).push(
                                    Element::Operator('*'),
                                ),
                                true,
                                neg_one,
                            ),
                            Element::Operator(_) => spec_sy(
                                s,
                                i + 1,
                                stack,
                                out.push(Element::Number(neg_one)).push(Element::Operator('*')),
                                true,
                                neg_one,
                            ),
                        }
                    }
                } else {
                    spec_sy(
                        s,
                        i + 1,
                        spec_stack_after(stack, o).push(o),
                        out + ops_as_tokens(spec_pops(stack, o)),
                        true,
                        neg_one,
                    )
                }
            },
        }
    }
}

/// The postfix form of `tokens`, with `neg_one` as the synthetic factor of a
/// rewritten unary minus; `None` exactly when a unary minus ends the input.
pub open spec fn spec_postfix<V>(tokens: Seq<Element<V>>, neg_one: V) -> Option<Seq<Element<V>>> {
    spec_sy(tokens, 0, Seq::empty(), Seq::empty(), true, neg_one)
}

/// Applies the precedence-pop rule for an incoming `operator`: pops stack
/// operators that bind tighter (or equally tight, the incoming operator
/// being left-associative) onto the output queue. Does not push `operator`.
fn handle_precedence<V: Copy>(
    op_stack: &mut Vec<char>,
    out_queue: &mut Vec<Element<V>>,
    operator: char,
)
    ensures
        final(op_stack)@ == spec_stack_after(old(op_stack)@, operator),
        final(out_queue)@ == old(out_queue)@ + ops_as_tokens::<V>(
            spec_pops(old(op_stack)@, operator),
        ),
{
    let mut done = false;
    while !done
        invariant
            (if done {
                op_stack@ == spec_stack_after(old(op_stack)@, operator) && out_queue@ == old(
                    out_queue,
                )@ + ops_as_tokens::<V>(spec_pops(old(op_stack)@, operator))
            } else {
                spec_stack_after(op_stack@, operator) == spec_stack_after(
                    old(op_stack)@,
                    operator,
                ) && out_queue@ + ops_as_tokens::<V>(spec_pops(op_stack@, operator)) == old(
                    out_queue,
                )@ + ops_as_tokens::<V>(spec_pops(old(op_stack)@, operator))
            }),
        decreases op_stack@.len() + (if done {
            0int
        } else {
            1int
        }),
    {
        let ghost prev_stack = op_stack@;
        let ghost prev_out = out_queue@;
        match op_stack.pop() {
            None => {
                proof {
                    assert(spec_pops(prev_stack, operator) == Seq::<char>::empty());
                    assert(spec_stack_after(prev_stack, operator) == prev_stack);
                    assert(out_queue@ + ops_as_tokens::<V>(Seq::<char>::empty()) =~= out_queue@);
                }
                done = true;
            },
            Some(top) => {
                let top_rule = get_op_value(top);
                let op_rule = get_op_value(operator);
                if top_rule.0 > op_rule.0 || (top_rule.0 == op_rule.0 && !op_rule.1) {
                    out_queue.push(Element::Operator(top));
                    proof {
                        assert(op_stack@ =~= prev_stack.drop_last());
                        assert(spec_pops(prev_stack, operator) == seq![top] + spec_pops(
                            op_stack@,
                            operator,
                        ));
                        lemma_pop_step::<V>(prev_out, out_queue@, top, spec_pops(
                            op_stack@,
                            operator,
                        ));
                    }
                } else {
                    op_stack.push(top);
                    proof {
                        assert(op_stack@ =~= prev_stack);
                        assert(spec_pops(prev_stack, operator) == Seq::<char>::empty());
                        assert(spec_stack_after(prev_stack, operator) == prev_stack);
                        assert(out_queue@ + ops_as_tokens::<V>(Seq::<char>::empty())
                            =~= out_queue@);
                    }
                    done = true;
                }
            },
        }
    }
}

/// The shunting-yard conversion of `infix` to postfix order, total over all
/// inputs: `None` exactly when a unary minus is the last token (the one run
/// the algorithm cannot finish), the converted sequence otherwise. `neg_one`
/// is the synthetic factor a unary minus is rewritten with.
pub fn try_convert_postfix<V: Copy>(infix: Vec<Element<V>>, neg_one: V) -> (r: Option<
    Vec<Element<V>>,
>)
    ensures
        (match r {
            Some(out) => spec_postfix(infix@, neg_one) == Some(out@),
            None => spec_postfix(infix@, neg_one) is None,
        }),
{
    let mut op_stack: Vec<char> = Vec::new();
    let mut out_queue: Vec<Element<V>> = Vec::new();
    let mut expect_unary = true;
    let mut i: usize = 0;
    proof {
        assert(op_stack@ =~= Seq::<char>::empty());
        assert(out_queue@ =~= Seq::<Element<V>>::empty());
    }
    while i < infix.len()
        invariant
            i <= infix@.len(),
            spec_sy(infix@, i as int, op_stack@, out_queue@, expect_unary, neg_one) == spec_postfix(
                infix@,
                neg_one,
            ),
        decreases infix@.len() - i,
    {
        let ghost entry_stack = op_stack@;
        let ghost entry_out = out_queue@;
        let ghost entry_unary = expect_unary;
        let ghost entry_i = i as int;
        match infix[i] {
            Element::Number(n) => {
                out_queue.push(Element::Number(n));
                expect_unary = false;
                i = i + 1;
            },
            Element::Operator(o) => {
                if o == '(' {
                    op_stack.push('(');
                    expect_unary = true;
                    i = i + 1;
                } else if o == ')' {
                    let mut done = false;
                    while !done
                        invariant
                            (if done {
                                op_stack@ == spec_paren_stack(entry_stack) && out_queue@
                                    == entry_out + ops_as_tokens::<V>(spec_paren_pops(entry_stack))
                            } else {
                                spec_paren_stack(op_stack@) == spec_paren_stack(entry_stack)
                                    && out_queue@ + ops_as_tokens::<V>(spec_paren_pops(op_stack@))
                                    == entry_out + ops_as_tokens::<V>(spec_paren_pops(entry_stack))
                            }),
                        decreases op_stack@.len() + (if done {
                            0int
                        } else {
                            1int
                        }),
                    {
                        let ghost prev_stack = op_stack@;
                        let ghost prev_out = out_queue@;
                        match op_stack.pop() {
                            None => {
                                proof {
                                    assert(spec_paren_pops(prev_stack) == Seq::<char>::empty());
                                    assert(spec_paren_stack(prev_stack) == Seq::<char>::empty());
                                    assert(op_stack@ =~= prev_stack);
                                    assert(out_queue@ + ops_as_tokens::<V>(Seq::<char>::empty())
                                        =~= out_queue@);
                                }
                                done = true;
                            },
                            Some(top) => {
                                if top == '(' {
                                    proof {
                                        assert(spec_paren_pops(prev_stack)
                                            == Seq::<char>::empty());
                                        assert(spec_paren_stack(prev_stack)
                                            == prev_stack.drop_last());
                                        assert(op_stack@ =~= prev_stack.drop_last());
                                        assert(out_queue@ + ops_as_tokens::<V>(
                                            Seq::<char>::empty(),
                                        ) =~= out_queue@);
                                    }
                                    done = true;
                                } else {
                                    out_queue.push(Element::Operator(top));
                                    proof {
                                        assert(op_stack@ =~= prev_stack.drop_last());
                                        assert(spec_paren_pops(prev_stack) == seq![top]
                                            + spec_paren_pops(op_stack@));
                                        lemma_pop_step::<V>(
                                            prev_out,
                                            out_queue@,
                                            top,
                                            spec_paren_pops(op_stack@),
                                        );
                                    }
                                }
                            },
                        }
                    }
                    expect_unary = false;
                    i = i + 1;
                } else if o == '-' && expect_unary {
                    if i + 1 < infix.len() {
                        match infix[i + 1] {
                            Element::Number(n) => {
                                out_queue.push(Element::Number(n));
                                out_queue.push(Element::Number(neg_one));
                                out_queue.push(Element::Operator('*'));
                                i = i + 2;
                            },
                            Element::Operator(_) => {
                                out_queue.push(Element::Number(neg_one));
                                out_queue.push(Element::Operator('*'));
                                i = i + 1;
                            },
                        }
                        expect_unary = true;
                    } else {
                        proof {
                            assert(spec_sy(
                                infix@,
                                entry_i,
                                entry_stack,
                                entry_out,
                                entry_unary,
                                neg_one,
                            ) is None);
                        }
                        return None;
                    }
                } else {
                    handle_precedence(&mut op_stack, &mut out_queue, o);
                    op_stack.push(o);
                    expect_unary = true;
                    i = i + 1;
                }
            },
        }
        proof {
            assert(spec_sy(infix@, i as int, op_stack@, out_queue@, expect_unary, neg_one)
                == spec_sy(infix@, entry_i, entry_stack, entry_out, entry_unary, neg_one));
        }
    }
    let ghost entry_stack = op_stack@;
    let ghost entry_out = out_queue@;
    proof {
        assert(spec_postfix(infix@, neg_one) == Some(
            entry_out + ops_as_tokens::<V>(spec_flush(entry_stack)),
        ));
    }
    while op_stack.len() > 0
        invariant
            out_queue@ + ops_as_tokens::<V>(spec_flush(op_stack@)) == entry_out
                + ops_as_tokens::<V>(spec_flush(entry_stack)),
        decreases op_stack@.len(),
    {
        let ghost prev_stack = op_stack@;
        let ghost prev_out = out_queue@;
        match op_stack.pop() {
            None => {
                proof {
                    assert(false);
                }
            },
            Some(top) => {
                out_queue.push(Element::Operator(top));
                proof {
                    assert(op_stack@ =~= prev_stack.drop_last());
                    assert(spec_flush(prev_stack) == seq![top] + spec_flush(op_stack@));
                    lemma_pop_step::<V>(prev_out, out_queue@, top, spec_flush(op_stack@));
                }
            },
        }
    }
    proof {
        assert(spec_flush(op_stack@) == Seq::<char>::empty());
        assert(out_queue@ + ops_as_tokens::<V>(Seq::<char>::empty()) =~= out_queue@);
        assert(out_queue@ =~= entry_out + ops_as_tokens::<V>(spec_flush(entry_stack)));
    }
    Some(out_queue)
}

/// The shunting-yard conversion of `infix` to postfix order, for the runs
/// the algorithm finishes; callers that cannot show this precondition use
/// `try_convert_postfix`. `neg_one` is the synthetic factor a unary minus is
/// rewritten with.
pub fn convert_postfix<V: Copy>(infix: Vec<Element<V>>, neg_one: V) -> (out: Vec<Element<V>>)
    requires
        spec_postfix(infix@, neg_one) is Some,
    ensures
        spec_postfix(infix@, neg_one) == Some(out@),
{
    match try_convert_postfix(infix, neg_one) {
        Some(out) => out,
        None => {
            proof {
                assert(false);
            }
            Vec::new()
        },
    }
}

} // verus!

use vstd::prelude::*;

use crate::evaluator::spec_evaluate;
use crate::shunting_yard::ops_as_tokens;
use crate::shunting_yard::spec_flush;
use crate::shunting_yard::spec_postfix;
use crate::shunting_yard::spec_sy;
use crate::tokenizer::spec_tokens;
use crate::tokenizer::Element;

verus! {

/// Empty input flows through the whole pipeline as emptiness: an empty text
/// scans to no tokens, no tokens convert to no tokens, and an empty postfix
/// sequence evaluates to the stack machine's default value — whatever the
/// number parser `g`, the arithmetic `h`, and the payloads stand for.
pub proof fn lemma_empty_pipeline<V>(
    g: spec_fn(Seq<char>) -> V,
    h: spec_fn(char, V, V) -> V,
    zero: V,
    neg_one: V,
)
    ensures
        spec_tokens(Seq::<char>::empty(), g) == Seq::<Element<V>>::empty(),
        spec_postfix(Seq::<Element<V>>::empty(), neg_one) == Some(Seq::<Element<V>>::empty()),
        spec_evaluate(Seq::<Element<V>>::empty(), zero, h) == zero,
{
    assert(spec_tokens(Seq::<char>::empty(), g) == Seq::<Element<V>>::empty());
    assert(Seq::<Element<V>>::empty() + ops_as_tokens::<V>(spec_flush(Seq::<char>::empty()))
        =~= Seq::<Element<V>>::empty());
}

/// Chained `^` groups to the right: the postfix form of `a ^ b ^ c` is
/// `a b c ^ ^`, the shape whose evaluation reduces `b ^ c` first — for all
/// payloads, so in particular for the numbers of `2 ^ 3 ^ 2`.
pub proof fn lemma_caret_right_assoc<V>(a: V, b: V, c: V, neg_one: V)
    ensures
        spec_postfix(
            seq![
                Element::Number(a),
                Element::Operator('^'),
                Element::Number(b),
                Element::Operator('^'),
                Element::Number(c),
            ],
            neg_one,
        ) == Some(
            seq![
                Element::Number(a),
                Element::Number(b),
                Element::Number(c),
                Element::Operator::<V>('^'),
                Element::Operator::<V>('^'),
            ],
        ),
{
    let s = seq![
        Element::Number(a),
        Element::Operator::<V>('^'),
        Element::Number(b),
        Element::Operator::<V>('^'),
        Element::Number(c),
    ];
    let e = Seq::<Element<V>>::empty();
    let o1 = e.push(Element::Number(a));
    assert(spec_sy(s, 0, Seq::empty(), e, true, neg_one) == spec_sy(s, 1, Seq::empty(), o1, false, neg_one));
    assert(spec_sy(s, 1, Seq::empty(), o1, false, neg_one) == spec_sy(
        s,
        2,
        Seq::<char>::empty().push('^'),
        o1 + ops_as_tokens::<V>(Seq::empty()),
        true,
        neg_one,
    ));
    assert(o1 + ops_as_tokens::<V>(Seq::empty()) =~= o1);
    let o2 = o1.push(Element::Number(b));
    let st1 = Seq::<char>::empty().push('^');
    assert(spec_sy(s, 2, st1, o1, true, neg_one) == spec_sy(s, 3, st1, o2, false, neg_one));
    assert(spec_sy(s, 3, st1, o2, false, neg_one) == spec_sy(
        s,
        4,
        st1.push('^'),
        o2 + ops_as_tokens::<V>(Seq::empty()),
        true,
        neg_one,
    ));
    assert(o2 + ops_as_tokens::<V>(Seq::empty()) =~= o2);
    let o3 = o2.push(Element::Number(c));
    let st2 = st1.push('^');
    assert(spec_sy(s, 4, st2, o2, true, neg_one) == spec_sy(s, 5, st2, o3, false, neg_one));
    assert(spec_sy(s, 5, st2, o3, false, neg_one) == Some(o3 + ops_as_tokens::<V>(spec_flush(st2))));
    assert(st2.last() == '^' && st2.drop_last() =~= st1);
    assert(spec_flush(st2) == seq!['^'] + spec_flush(st1));
    assert(st1.last() == '^' && st1.drop_last() =~= Seq::<char>::empty());
    assert(spec_flush(st1) == seq!['^'] + spec_flush(Seq::<char>::empty()));
    assert(spec_flush(st2) =~= seq!['^', '^']);
    assert(ops_as_tokens::<V>(seq!['^', '^'])[0] == Element::Operator::<V>('^'));
    assert(seq!['^', '^'].drop_first() =~= seq!['^']);
    assert(seq!['^'].drop_first() =~= Seq::<char>::empty());
    assert(ops_as_tokens::<V>(seq!['^', '^']) =~= seq![
        Element::Operator::<V>('^'),
        Element::Operator::<V>('^'),
    ]);
    assert(o3 + ops_as_tokens::<V>(spec_flush(st2)) =~= seq![
        Element::Number(a),
        Element::Number(b),
        Element::Number(c),
        Element::Operator::<V>('^'),
        Element::Operator::<V>('^'),
    ]);
}

/// Parentheses override precedence: the postfix form of `( a + b ) ^ c` is
/// `a b + c ^`, so the parenthesized sum is reduced before the
/// exponentiation — for all payloads, so in particular for `(2 + 3) ^ 2`.
pub proof fn lemma_paren_grouping<V>(a: V, b: V, c: V, neg_one: V)
    ensures
        spec_postfix(
            seq![
                Element::Operator::<V>('('),
                Element::Number(a),
                Element::Operator('+'),
                Element::Number(b),
                Element::Operator(')'),
                Element::Operator('^'),
                Element::Number(c),
            ],
            neg_one,
        ) == Some(
            seq![
                Element::Number(a),
                Element::Number(b),
                Element::Operator::<V>('+'),
                Element::Number(c),
                Element::Operator::<V>('^'),
            ],
        ),
{
    let s = seq![
        Element::Operator::<V>('('),
        Element::Number(a),
        Element::Operator::<V>('+'),
        Element::Number(b),
        Element::Operator::<V>(')'),
        Element::Operator::<V>('^'),
        Element::Number(c),
    ];
    let e = Seq::<Element<V>>::empty();
    let stp = Seq::<char>::empty().push('(');
    assert(spec_sy(s, 0, Seq::empty(), e, true, neg_one) == spec_sy(s, 1, stp, e, true, neg_one));
    let o1 = e.push(Element::Number(a));
    assert(spec_sy(s, 1, stp, e, true, neg_one) == spec_sy(s, 2, stp, o1, false, neg_one));
    let stpp = crate::shunting_yard::spec_stack_after(stp, '+').push('+');
    assert(crate::shunting_yard::spec_stack_after(stp, '+') == stp);
    assert(crate::shunting_yard::spec_pops(stp, '+') == Seq::<char>::empty());
    assert(spec_sy(s, 2, stp, o1, false, neg_one) == spec_sy(
        s,
        3,
        stpp,
        o1 + ops_as_tokens::<V>(Seq::empty()),
        true,
        neg_one,
    ));
    assert(o1 + ops_as_tokens::<V>(Seq::empty()) =~= o1);
    let o2 = o1.push(Element::Number(b));
    assert(spec_sy(s, 3, stpp, o1, true, neg_one) == spec_sy(s, 4, stpp, o2, false, neg_one));
    // ')' pops '+' to the output and discards the '('.
    assert(stpp.last() == '+' && stpp.drop_last() =~= stp);
    assert(crate::shunting_yard::spec_paren_pops(stpp) == seq!['+'] + crate::shunting_yard::spec_paren_pops(stp));
    assert(crate::shunting_yard::spec_paren_pops(stp) == Seq::<char>::empty());
    assert(crate::shunting_yard::spec_paren_pops(stpp) =~= seq!['+']);
    assert(crate::shunting_yard::spec_paren_stack(stpp) == crate::shunting_yard::spec_paren_stack(stp));
    assert(stp.last() == '(' && stp.drop_last() =~= Seq::<char>::empty());
    assert(crate::shunting_yard::spec_paren_stack(stp) =~= Seq::<char>::empty());
    assert(seq!['+'].drop_first() =~= Seq::<char>::empty());
    assert(ops_as_tokens::<V>(seq!['+']) =~= seq![Element::Operator::<V>('+')]);
    let o3 = o2 + ops_as_tokens::<V>(crate::shunting_yard::spec_paren_pops(stpp));
    assert(spec_sy(s, 4, stpp, o2, false, neg_one) == spec_sy(
        s,
        5,
        crate::shunting_yard::spec_paren_stack(stpp),
        o3,
        false,
        neg_one,
    ));
    assert(o3 =~= seq![Element::Number(a), Element::Number(b), Element::Operator::<V>('+')]);
    let ec = Seq::<char>::empty();
    assert(crate::shunting_yard::spec_paren_stack(stpp) == ec);
    let stc = crate::shunting_yard::spec_stack_after(ec, '^').push('^');
    assert(crate::shunting_yard::spec_stack_after(ec, '^') == ec);
    assert(crate::shunting_yard::spec_pops(ec, '^') == Seq::<char>::empty());
    assert(spec_sy(s, 5, ec, o3, false, neg_one) == spec_sy(
        s,
        6,
        stc,
        o3 + ops_as_tokens::<V>(Seq::empty()),
        true,
        neg_one,
    ));
    assert(o3 + ops_as_tokens::<V>(Seq::empty()) =~= o3);
    let o4 = o3.push(Element::Number(c));
    assert(spec_sy(s, 6, stc, o3, true, neg_one) == spec_sy(s, 7, stc, o4, false, neg_one));
    assert(spec_sy(s, 7, stc, o4, false, neg_one) == Some(o4 + ops_as_tokens::<V>(spec_flush(stc))));
    assert(stc.last() == '^' && stc.drop_last() =~= ec);
    assert(spec_flush(stc) == seq!['^'] + spec_flush(ec));
    assert(spec_flush(stc) =~= seq!['^']);
    assert(seq!['^'].drop_first() =~= Seq::<char>::empty());
    assert(ops_as_tokens::<V>(seq!['^']) =~= seq![Element::Operator::<V>('^')]);
    assert(o4 + ops_as_tokens::<V>(spec_flush(stc)) =~= seq![
        Element::Number(a),
        Element::Number(b),
        Element::Operator::<V>('+'),
        Element::Number(c),
        Element::Operator::<V>('^'),
    ]);
}

/// A unary minus is rewritten as multiplication by the synthetic factor: the
/// postfix form of `- a ^ b` is `a n * b ^` (negate `a`, then raise), and
/// that of `a * - b` is `a b n * *` (negate `b`, then multiply), where `n`
/// stands for the caller's negative one — for all payloads, so in particular
/// for `-2 ^ 3` and `3 * -4`.
pub proof fn lemma_unary_minus_rewrite<V>(a: V, b: V, neg_one: V)
    ensures
        spec_postfix(
            seq![
                Element::Operator::<V>('-'),
                Element::Number(a),
                Element::Operator('^'),
                Element::Number(b),
            ],
            neg_one,
        ) == Some(
            seq![
                Element::Number(a),
                Element::Number(neg_one),
                Element::Operator::<V>('*'),
                Element::Number(b),
                Element::Operator::<V>('^'),
            ],
        ),
        spec_postfix(
            seq![
                Element::Number(a),
                Element::Operator::<V>('*'),
                Element::Operator('-'),
                Element::Number(b),
            ],
            neg_one,
        ) == Some(
            seq![
                Element::Number(a),
                Element::Number(b),
                Element::Number(neg_one),
                Element::Operator::<V>('*'),
                Element::Operator::<V>('*'),
            ],
        ),
{
    let e = Seq::<Element<V>>::empty();
    let ec = Seq::<char>::empty();
    // First shape: `- a ^ b`.
    let s1 = seq![
        Element::Operator::<V>('-'),
        Element::Number(a),
        Element::Operator::<V>('^'),
        Element::Number(b),
    ];
    let p1 = e.push(Element::Number(a)).push(Element::Number(neg_one)).push(
        Element::Operator('*'),
    );
    assert(s1[1] == Element::Number::<V>(a));
    assert(spec_sy(s1, 0, ec, e, true, neg_one) == spec_sy(s1, 2, ec, p1, true, neg_one));
    let st1 = crate::shunting_yard::spec_stack_after(ec, '^').push('^');
    assert(crate::shunting_yard::spec_stack_after(ec, '^') == ec);
    assert(crate::shunting_yard::spec_pops(ec, '^') == Seq::<char>::empty());
    assert(spec_sy(s1, 2, ec, p1, true, neg_one) == spec_sy(
        s1,
        3,
        st1,
        p1 + ops_as_tokens::<V>(Seq::empty()),
        true,
        neg_one,
    ));
    assert(p1 + ops_as_tokens::<V>(Seq::empty()) =~= p1);
    let p2 = p1.push(Element::Number(b));
    assert(spec_sy(s1, 3, st1, p1, true, neg_one) == spec_sy(s1, 4, st1, p2, false, neg_one));
    assert(spec_sy(s1, 4, st1, p2, false, neg_one) == Some(p2 + ops_as_tokens::<V>(spec_flush(st1))));
    assert(st1.last() == '^' && st1.drop_last() =~= ec);
    assert(spec_flush(st1) == seq!['^'] + spec_flush(ec));
    assert(spec_flush(st1) =~= seq!['^']);
    assert(seq!['^'].drop_first() =~= Seq::<char>::empty());
    assert(ops_as_tokens::<V>(seq!['^']) =~= seq![Element::Operator::<V>('^')]);
    assert(p2 + ops_as_tokens::<V>(spec_flush(st1)) =~= seq![
        Element::Number(a),
        Element::Number(neg_one),
        Element::Operator::<V>('*'),
        Element::Number(b),
        Element::Operator::<V>('^'),
    ]);
    // Second shape: `a * - b`.
    let s2 = seq![
        Element::Number(a),
        Element::Operator::<V>('*'),
        Element::Operator::<V>('-'),
        Element::Number(b),
    ];
    let q1 = e.push(Element::Number(a));
    assert(spec_sy(s2, 0, ec, e, true, neg_one) == spec_sy(s2, 1, ec, q1, false, neg_one));
    let st2 = crate::shunting_yard::spec_stack_after(ec, '*').push('*');
    assert(crate::shunting_yard::spec_stack_after(ec, '*') == ec);
    assert(crate::shunting_yard::spec_pops(ec, '*') == Seq::<char>::empty());
    assert(spec_sy(s2, 1, ec, q1, false, neg_one) == spec_sy(
        s2,
        2,
        st2,
        q1 + ops_as_tokens::<V>(Seq::empty()),
        true,
        neg_one,
    ));
    assert(q1 + ops_as_tokens::<V>(Seq::empty()) =~= q1);
    let q2 = q1.push(Element::Number(b)).push(Element::Number(neg_one)).push(
        Element::Operator('*'),
    );
    assert(s2[3] == Element::Number::<V>(b));
    assert(spec_sy(s2, 2, st2, q1, true, neg_one) == spec_sy(s2, 4, st2, q2, true, neg_one));
    assert(spec_sy(s2, 4, st2, q2, true, neg_one) == Some(q2 + ops_as_tokens::<V>(spec_flush(st2))));
    assert(st2.last() == '*' && st2.drop_last() =~= ec);
    assert(spec_flush(st2) == seq!['*'] + spec_flush(ec));
    assert(spec_flush(st2) =~= seq!['*']);
    assert(seq!['*'].drop_first() =~= Seq::<char>::empty());
    assert(ops_as_tokens::<V>(seq!['*']) =~= seq![Element::Operator::<V>('*')]);
    assert(q2 + ops_as_tokens::<V>(spec_flush(st2)) =~= seq![
        Element::Number(a),
        Element::Number(b),
        Element::Number(neg_one),
        Element::Operator::<V>('*'),
        Element::Operator::<V>('*'),
    ]);
}

} // verus!

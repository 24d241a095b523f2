use vstd::prelude::*;
use vstd::string::StrSliceExecFns;

use crate::helpers::is_operator;
use crate::helpers::spec_is_operator;

verus! {

/// One token of an arithmetic expression: a numeric literal carrying a
/// payload of type `V`, or a single operator character.
#[derive(Debug, PartialEq, Clone, Copy)]
pub enum Element<V> {
    Number(V),
    Operator(char),
}

/// Whether `c` may extend a pending numeric literal: an ASCII digit or a
/// decimal point.
pub open spec fn spec_is_num_char(c: char) -> bool {
    (48 <= c as u32 && c as u32 <= 57) || c == '.'
}

/// A literal buffer as handed to the number parser: non-empty, made only of
/// digits and decimal points.
pub open spec fn spec_buf_ok(b: Seq<char>) -> bool {
    &&& b.len() > 0
    &&& forall|j: int| 0 <= j < b.len() ==> spec_is_num_char(#[trigger] b[j])
}

/// The tokens produced from position `i` of `s` onward, with `buf` pending as
/// the literal read so far. A digit or point extends the buffer; any other
/// character first flushes a non-empty buffer as a number, then is emitted as
/// an operator token if it is one (spaces and unknown characters yield no
/// token); the end of the text flushes a last pending literal. A literal `b`
/// is carried as `g(b)`, where `g` stands for the caller's number parser.
pub open spec fn spec_scan<V>(
    s: Seq<char>,
    i: int,
    buf: Seq<char>,
    g: spec_fn(Seq<char>) -> V,
) -> Seq<Element<V>>
    decreases s.len() - i,
{
    if i < 0 || i >= s.len() {
        if buf.len() > 0 {
            seq![Element::Number(g(buf))]
        } else {
            Seq::empty()
        }
    } else {
        let c = s[i];
        if spec_is_num_char(c) {
            spec_scan(s, i + 1, buf.push(c), g)
        } else {
            let flushed: Seq<Element<V>> = if buf.len() > 0 {
                seq![Element::Number(g(buf))]
            } else {
                Seq::empty()
            };
            let op: Seq<Element<V>> = if c != ' ' && spec_is_operator(c) {
                seq![Element::Operator(c)]
            } else {
                Seq::empty()
            };
            flushed + op + spec_scan(s, i + 1, Seq::empty(), g)
        }
    }
}

/// The token sequence of the text `s`, with each numeric literal `b` carried
/// as `g(b)`.
pub open spec fn spec_tokens<V>(s: Seq<char>, g: spec_fn(Seq<char>) -> V) -> Seq<Element<V>> {
    spec_scan(s, 0, Seq::empty(), g)
}

/// `g` names what `parse` computes: every value `parse` may return for a
/// well-formed literal buffer equals `g` of that buffer's characters.
pub open spec fn parse_matches<V, F: Fn(Vec<char>) -> V>(
    parse: F,
    g: spec_fn(Seq<char>) -> V,
) -> bool {
    forall|v: Vec<char>, r: V|
        spec_buf_ok(v@) && #[trigger] call_ensures(parse, (v,), r) ==> r == g(v@)
}

/// Scans `input` left to right into a token sequence. Numeric literals are
/// maximal runs of digits and decimal points; each is handed to `parse` as
/// the run's characters. Spaces only terminate a literal; of the remaining
/// characters exactly the seven operator characters become tokens. For any
/// parser behaviour `g` that `parse` implements, the result is pinned down
/// as `spec_tokens(input@, g)`.
pub fn parse_input<V, F: Fn(Vec<char>) -> V>(input: String, parse: F) -> (out: Vec<Element<V>>)
    requires
        forall|v: Vec<char>| spec_buf_ok(v@) ==> #[trigger] call_requires(parse, (v,)),
    ensures
        forall|g: spec_fn(Seq<char>) -> V|
            #[trigger] parse_matches(parse, g) ==> out@ == spec_tokens(input@, g),
{
    let s: &str = input.as_str();
    let n: usize = s.unicode_len();
    let mut out: Vec<Element<V>> = Vec::new();
    let mut buf: Vec<char> = Vec::new();
    let mut i: usize = 0;
    while i < n
        invariant
            s@ == input@,
            n == s@.len(),
            i <= n,
            buf@.len() == 0 || spec_buf_ok(buf@),
            forall|v: Vec<char>| spec_buf_ok(v@) ==> #[trigger] call_requires(parse, (v,)),
            forall|g: spec_fn(Seq<char>) -> V|
                #[trigger] parse_matches(parse, g) ==> out@ + spec_scan(input@, i as int, buf@, g)
                    == spec_tokens(input@, g),
        decreases n - i,
    {
        let ghost prev_out = out@;
        let ghost prev_buf = buf@;
        let c = s.get_char(i);
        let x = c as u32;
        if (48 <= x && x <= 57) || c == '.' {
            buf.push(c);
            proof {
                assert(spec_buf_ok(buf@));
                assert forall|g: spec_fn(Seq<char>) -> V| #[trigger] parse_matches(parse, g)
                    implies out@ + spec_scan(input@, i as int + 1, buf@, g) == spec_tokens(
                    input@,
                    g,
                ) by {
                    assert(spec_scan(input@, i as int, prev_buf, g) == spec_scan(
                        input@,
                        i as int + 1,
                        prev_buf.push(c),
                        g,
                    ));
                }
            }
        } else if buf.len() > 0 {
            let value = parse(buf);
            out.push(Element::Number(value));
            buf = Vec::new();
            if c != ' ' && is_operator(c) {
                out.push(Element::Operator(c));
            }
            proof {
                assert forall|g: spec_fn(Seq<char>) -> V| #[trigger] parse_matches(parse, g)
                    implies out@ + spec_scan(input@, i as int + 1, buf@, g) == spec_tokens(
                    input@,
                    g,
                ) by {
                    let op: Seq<Element<V>> = if c != ' ' && spec_is_operator(c) {
                        seq![Element::Operator(c)]
                    } else {
                        Seq::empty()
                    };
                    assert(value == g(prev_buf));
                    assert(spec_scan(input@, i as int, prev_buf, g) == seq![
                        Element::Number(g(prev_buf)),
                    ] + op + spec_scan(input@, i as int + 1, Seq::empty(), g));
                    assert(out@ =~= prev_out + seq![Element::Number(g(prev_buf))] + op);
                    assert(out@ + spec_scan(input@, i as int + 1, buf@, g) =~= prev_out
                        + spec_scan(input@, i as int, prev_buf, g));
                }
            }
        } else {
            if c != ' ' && is_operator(c) {
                out.push(Element::Operator(c));
            }
            proof {
                assert forall|g: spec_fn(Seq<char>) -> V| #[trigger] parse_matches(parse, g)
                    implies out@ + spec_scan(input@, i as int + 1, buf@, g) == spec_tokens(
                    input@,
                    g,
                ) by {
                    let op: Seq<Element<V>> = if c != ' ' && spec_is_operator(c) {
                        seq![Element::Operator(c)]
                    } else {
                        Seq::empty()
                    };
                    assert(prev_buf =~= Seq::<char>::empty());
                    assert(spec_scan(input@, i as int, prev_buf, g) == op + spec_scan(
                        input@,
                        i as int + 1,
                        Seq::empty(),
                        g,
                    ));
                    assert(out@ =~= prev_out + op);
                    assert(out@ + spec_scan(input@, i as int + 1, buf@, g) =~= prev_out
                        + spec_scan(input@, i as int, prev_buf, g));
                }
            }
        }
        i = i + 1;
    }
    if buf.len() > 0 {
        let ghost prev_out = out@;
        let ghost prev_buf = buf@;
        let value = parse(buf);
        out.push(Element::Number(value));
        proof {
            assert forall|g: spec_fn(Seq<char>) -> V| #[trigger] parse_matches(parse, g)
                implies out@ == spec_tokens(input@, g) by {
                assert(value == g(prev_buf));
                assert(spec_scan(input@, n as int, prev_buf, g) == seq![
                    Element::Number(g(prev_buf)),
                ]);
                assert(out@ =~= prev_out + spec_scan(input@, n as int, prev_buf, g));
            }
        }
    } else {
        proof {
            assert forall|g: spec_fn(Seq<char>) -> V| #[trigger] parse_matches(parse, g)
                implies out@ == spec_tokens(input@, g) by {
                assert(spec_scan(input@, n as int, buf@, g) == Seq::<Element<V>>::empty());
                assert(out@ + spec_scan(input@, n as int, buf@, g) =~= out@);
            }
        }
    }
    out
}

} // verus!

use vstd::prelude::*;

use crate::text::dec_digits;
use crate::text::lemma_dec_digits;
use crate::text::write_u64;
use crate::parse::chars_to_string;

verus! {

/// The outcome of evaluating an expression: text, a signed integer, a
/// truth value, or nothing. It carries no identity and no recursion; it is
/// produced by evaluation and never part of the static tree. Structural,
/// case-sensitive equality; no case coerces into another.
#[derive(Debug, PartialEq)]
pub enum ReturnValue {
    Text(String),
    Int(i64),
    Bool(bool),
    Empty,
}

/// Decimal rendering of a signed integer: a minus sign before the digits
/// of the magnitude, nothing before a non-negative value.
pub open spec fn spec_render_int(n: int) -> Seq<char> {
    if n < 0 {
        seq!['-'] + dec_digits((-n) as nat)
    } else {
        dec_digits(n as nat)
    }
}

/// The text a result renders as: text verbatim, integers in decimal,
/// booleans as the lowercase words, the empty case as the word `None`.
pub open spec fn spec_render(v: ReturnValue) -> Seq<char> {
    match v {
        ReturnValue::Text(s) => s@,
        ReturnValue::Int(n) => spec_render_int(n as int),
        ReturnValue::Bool(b) => if b {
            seq!['t', 'r', 'u', 'e']
        } else {
            seq!['f', 'a', 'l', 's', 'e']
        },
        ReturnValue::Empty => seq!['N', 'o', 'n', 'e'],
    }
}

impl ReturnValue {
    /// The canonical textual rendering of this result.
    pub fn render(&self) -> (r: String)
        ensures
            r@ == spec_render(*self),
    {
        match self {
            ReturnValue::Text(s) => s.clone(),
            ReturnValue::Int(n) => {
                let mut buf: Vec<char> = Vec::new();
                if *n < 0 {
                    buf.push('-');
                }
                let mag: u64 = if *n == i64::MIN {
                    9223372036854775808u64
                } else if *n < 0 {
                    (-*n) as u64
                } else {
                    *n as u64
                };
                let ghost before = buf@;
                write_u64(mag, &mut buf);
                proof {
                    if *n < 0 {
                        assert(before =~= seq!['-']);
                        assert(buf@ =~= spec_render_int(*n as int));
                    } else {
                        assert(before =~= Seq::<char>::empty());
                        assert(buf@ =~= spec_render_int(*n as int));
                    }
                }
                chars_to_string(&buf)
            },
            ReturnValue::Bool(b) => {
                let mut buf: Vec<char> = Vec::new();
                if *b {
                    buf.push('t');
                    buf.push('r');
                    buf.push('u');
                    buf.push('e');
                } else {
                    buf.push('f');
                    buf.push('a');
                    buf.push('l');
                    buf.push('s');
                    buf.push('e');
                }
                proof {
                    assert(buf@ =~= spec_render(*self));
                }
                chars_to_string(&buf)
            },
            ReturnValue::Empty => {
                let mut buf: Vec<char> = Vec::new();
                buf.push('N');
                buf.push('o');
                buf.push('n');
                buf.push('e');
                proof {
                    assert(buf@ =~= spec_render(*self));
                }
                chars_to_string(&buf)
            },
        }
    }
}

} // verus!

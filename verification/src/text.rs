use vstd::prelude::*;

use crate::json::JsonV;
use crate::json::Json;
use crate::json::json_view;
use crate::json::arr_view;
use crate::json::obj_view;
use vstd::string::StrSliceExecFns;

verus! {

broadcast use
    vstd::seq::axiom_seq_index_decreases,
    vstd::seq::axiom_seq_subrange_decreases,
    vstd::std_specs::vec::axiom_vec_index_decreases,
    vstd::std_specs::vec::axiom_vec_decreases_to_view;

/// JSON insignificant whitespace.
pub open spec fn is_ws(c: char) -> bool {
    c == ' ' || c == '\t' || c == '\n' || c == '\r'
}

pub open spec fn is_digit_c(c: char) -> bool {
    c == '0' || c == '1' || c == '2' || c == '3' || c == '4' || c == '5' || c == '6' || c == '7'
        || c == '8' || c == '9'
}

/// The decimal digit character for a value 0 through 9.
pub open spec fn dchar(d: int) -> char {
    if d == 0 {
        '0'
    } else if d == 1 {
        '1'
    } else if d == 2 {
        '2'
    } else if d == 3 {
        '3'
    } else if d == 4 {
        '4'
    } else if d == 5 {
        '5'
    } else if d == 6 {
        '6'
    } else if d == 7 {
        '7'
    } else if d == 8 {
        '8'
    } else if d == 9 {
        '9'
    } else {
        arbitrary()
    }
}

/// The value of a decimal digit character, or -1.
pub open spec fn dval(c: char) -> int {
    if c == '0' {
        0
    } else if c == '1' {
        1
    } else if c == '2' {
        2
    } else if c == '3' {
        3
    } else if c == '4' {
        4
    } else if c == '5' {
        5
    } else if c == '6' {
        6
    } else if c == '7' {
        7
    } else if c == '8' {
        8
    } else if c == '9' {
        9
    } else {
        -1
    }
}

/// The lowercase hexadecimal digit character for a value 0 through 15.
pub open spec fn hex_char(d: int) -> char {
    if d < 10 {
        dchar(d)
    } else if d == 10 {
        'a'
    } else if d == 11 {
        'b'
    } else if d == 12 {
        'c'
    } else if d == 13 {
        'd'
    } else if d == 14 {
        'e'
    } else if d == 15 {
        'f'
    } else {
        arbitrary()
    }
}

/// The value of a hexadecimal digit character (either case), or -1.
pub open spec fn hex_val(c: char) -> int {
    if is_digit_c(c) {
        dval(c)
    } else if c == 'a' || c == 'A' {
        10
    } else if c == 'b' || c == 'B' {
        11
    } else if c == 'c' || c == 'C' {
        12
    } else if c == 'd' || c == 'D' {
        13
    } else if c == 'e' || c == 'E' {
        14
    } else if c == 'f' || c == 'F' {
        15
    } else {
        -1
    }
}

/// Standard decimal rendering of a non-negative integer: no sign, no
/// leading zeros (zero itself is the single digit `0`).
pub open spec fn dec_digits(n: nat) -> Seq<char>
    decreases n,
{
    if n < 10 {
        seq![dchar(n as int)]
    } else {
        dec_digits(n / 10).push(dchar((n % 10) as int))
    }
}

/// The number denoted by a sequence of decimal digit characters.
pub open spec fn digits_val(s: Seq<char>) -> int
    decreases s.len(),
{
    if s.len() == 0 {
        0
    } else {
        digits_val(s.drop_last()) * 10 + dval(s.last())
    }
}

pub proof fn lemma_dec_digits(n: nat)
    ensures
        dec_digits(n).len() >= 1,
        digits_val(dec_digits(n)) == n,
        forall|k: int| 0 <= k < dec_digits(n).len() ==> is_digit_c(#[trigger] dec_digits(n)[k]),
        dec_digits(n).len() > 1 ==> dec_digits(n)[0] != '0',
        n < 10 <==> dec_digits(n).len() == 1,
    decreases n,
{
    if n < 10 {
        assert(dec_digits(n) == seq![dchar(n as int)]);
        assert(dec_digits(n).drop_last() =~= Seq::<char>::empty());
        assert(dec_digits(n).last() == dchar(n as int));
        assert(dval(dchar(n as int)) == n);
        assert(is_digit_c(dchar(n as int)));
        assert(digits_val(Seq::<char>::empty()) == 0);
        assert(digits_val(dec_digits(n)) == digits_val(dec_digits(n).drop_last()) * 10 + dval(
            dec_digits(n).last(),
        ));
    } else {
        lemma_dec_digits(n / 10);
        let pre = dec_digits(n / 10);
        let d = dchar((n % 10) as int);
        assert(dec_digits(n) == pre.push(d));
        assert(pre.push(d).drop_last() =~= pre);
        assert(pre.push(d).last() == d);
        assert(dval(d) == n % 10);
        assert(n / 10 * 10 + n % 10 == n) by {
            vstd::arithmetic::div_mod::lemma_fundamental_div_mod(n as int, 10);
        }
        assert(digits_val(dec_digits(n)) == n);
        assert(forall|k: int|
            0 <= k < pre.push(d).len() ==> is_digit_c(#[trigger] pre.push(d)[k]));
        assert(pre.push(d)[0] == pre[0]);
        assert(pre[0] != '0') by {
            if pre.len() == 1 {
                assert(pre[0] == dchar((n / 10) as int));
                assert(n / 10 >= 1);
            }
        }
    }
}

/// Appending digits never shrinks the denoted value.
pub proof fn lemma_digits_val_prefix(s: Seq<char>, k: int)
    requires
        0 <= k <= s.len(),
        forall|q: int| 0 <= q < s.len() ==> is_digit_c(#[trigger] s[q]),
    ensures
        digits_val(s.take(k)) <= digits_val(s),
        digits_val(s) >= 0,
    decreases s.len(),
{
    if s.len() == 0 {
        assert(s.take(k) =~= s);
    } else if k == s.len() {
        assert(s.take(k) =~= s);
        lemma_digits_val_prefix(s.drop_last(), s.len() - 1);
    } else {
        lemma_digits_val_prefix(s.drop_last(), k);
        assert(s.take(k) =~= s.drop_last().take(k));
        assert(dval(s.last()) >= 0);
    }
}

/// How one character is written inside a JSON string: quote and backslash
/// get a backslash escape, the common control characters their short
/// escapes, other control characters a `\\u00..` escape, and everything else
/// stands as itself.
pub open spec fn esc_char(c: char) -> Seq<char> {
    if c == '"' {
        seq!['\\', '"']
    } else if c == '\\' {
        seq!['\\', '\\']
    } else if c == '\u{8}' {
        seq!['\\', 'b']
    } else if c == '\t' {
        seq!['\\', 't']
    } else if c == '\n' {
        seq!['\\', 'n']
    } else if c == '\u{c}' {
        seq!['\\', 'f']
    } else if c == '\r' {
        seq!['\\', 'r']
    } else if (c as u32) < 0x20 {
        seq!['\\', 'u', '0', '0', hex_char((c as u32) as int / 16), hex_char((c as u32) as int % 16)]
    } else {
        seq![c]
    }
}

/// A whole string's characters written one after the other.
pub open spec fn escape(s: Seq<char>) -> Seq<char>
    decreases s.len(),
{
    if s.len() == 0 {
        Seq::empty()
    } else {
        esc_char(s[0]) + escape(s.drop_first())
    }
}

pub proof fn lemma_escape_split(x: Seq<char>, k: int)
    requires
        0 <= k <= x.len(),
    ensures
        escape(x) == escape(x.take(k)) + escape(x.skip(k)),
    decreases k,
{
    if k == 0 {
        assert(x.take(0) =~= Seq::<char>::empty());
        assert(x.skip(0) =~= x);
        assert(escape(Seq::<char>::empty()) + escape(x) =~= escape(x));
    } else {
        assert(x.len() > 0);
        assert(x.take(k).len() > 0);
        assert(x.take(k)[0] == x[0]);
        assert(x.take(k).drop_first() =~= x.drop_first().take(k - 1));
        lemma_escape_split(x.drop_first(), k - 1);
        assert(x.skip(k) =~= x.drop_first().skip(k - 1));
        assert(escape(x) == esc_char(x[0]) + escape(x.drop_first()));
        assert(escape(x.take(k)) == esc_char(x[0]) + escape(x.drop_first().take(k - 1)));
        assert((esc_char(x[0]) + escape(x.drop_first().take(k - 1))) + escape(x.skip(k)) =~= esc_char(
            x[0],
        ) + (escape(x.drop_first().take(k - 1)) + escape(x.drop_first().skip(k - 1))));
    }
}

/// The canonical text of a JSON document: no whitespace, object keys in
/// stored order, strings escaped as `esc_char` says.
pub open spec fn spec_print(j: JsonV) -> Seq<char>
    decreases j, 0int,
{
    match j {
        JsonV::Null => seq!['n', 'u', 'l', 'l'],
        JsonV::Bool(b) => if b {
            seq!['t', 'r', 'u', 'e']
        } else {
            seq!['f', 'a', 'l', 's', 'e']
        },
        JsonV::Int(n) => dec_digits(n as nat),
        JsonV::Str(s) => seq!['"'] + escape(s) + seq!['"'],
        JsonV::Arr(items) => seq!['['] + print_items(items, 0) + seq![']'],
        JsonV::Obj(pairs) => seq!['{'] + print_pairs(pairs, 0) + seq!['}'],
    }
}

/// The items of an array from position `i` on, comma-separated.
pub open spec fn print_items(items: Seq<JsonV>, i: int) -> Seq<char>
    decreases items, items.len() - i,
{
    if 0 <= i < items.len() {
        if i + 1 == items.len() {
            spec_print(items[i])
        } else {
            spec_print(items[i]) + seq![','] + print_items(items, i + 1)
        }
    } else {
        Seq::empty()
    }
}

/// The pairs of an object from position `i` on: quoted escaped key, colon,
/// value, comma-separated.
pub open spec fn print_pair(p: (Seq<char>, JsonV)) -> Seq<char>
    decreases p, 1int,
{
    seq!['"'] + escape(p.0) + seq!['"', ':'] + spec_print(p.1)
}

pub open spec fn print_pairs(pairs: Seq<(Seq<char>, JsonV)>, i: int) -> Seq<char>
    decreases pairs, pairs.len() - i,
{
    if 0 <= i < pairs.len() {
        if i + 1 == pairs.len() {
            print_pair(pairs[i])
        } else {
            print_pair(pairs[i]) + seq![','] + print_pairs(pairs, i + 1)
        }
    } else {
        Seq::empty()
    }
}

/// Relies on String::push: appends exactly the one character to the end of
/// the string.
#[verifier::external_body]
pub fn push_char(s: &mut String, c: char)
    ensures
        final(s)@ == old(s)@.push(c),
{
    s.push(c);
}

/// Relies on char::from_u32: `Some` exactly for valid scalar values (not a
/// surrogate, at most 0x10FFFF), and the returned character has the given
/// code.
#[verifier::external_body]
pub fn char_from_u32(u: u32) -> (r: Option<char>)
    ensures
        match r {
            Some(c) => c as u32 == u,
            None => 0xD800 <= u < 0xE000 || u > 0x10FFFF,
        },
{
    char::from_u32(u)
}

/// The characters of a string slice, in order.
pub fn str_to_chars(s: &str) -> (r: Vec<char>)
    ensures
        r@ == s@,
{
    let n = s.unicode_len();
    let mut out: Vec<char> = Vec::new();
    for i in 0..n
        invariant
            n == s@.len(),
            out@.len() == i,
            forall|q: int| 0 <= q < i ==> out@[q] == s@[q],
    {
        let c = s.get_char(i);
        out.push(c);
    }
    proof {
        assert(out@ =~= s@);
    }
    out
}

/// Append the decimal rendering of `v`.
pub fn write_u64(v: u64, out: &mut Vec<char>)
    ensures
        final(out)@ == old(out)@.add(dec_digits(v as nat)),
{
    let ghost base = out@;
    let mut tmp: Vec<char> = Vec::new();
    let mut cur: u64 = v;
    while cur >= 10
        invariant
            dec_digits(v as nat) =~= dec_digits(cur as nat) + tmp@.reverse(),
        decreases cur,
    {
        let ghost old_tmp = tmp@;
        let ghost old_cur = cur;
        let d: u64 = cur % 10;
        let dc = digit_char(d);
        tmp.push(dc);
        cur = cur / 10;
        proof {
            assert(old_tmp.push(dc).reverse() =~= seq![dc] + old_tmp.reverse());
            assert(dec_digits(old_cur as nat) == dec_digits((old_cur as nat) / 10).push(
                dchar(((old_cur as nat) % 10) as int),
            ));
            assert((old_cur as nat) / 10 == cur as nat);
            assert(dec_digits(old_cur as nat) =~= dec_digits(cur as nat) + seq![dc]);
            assert((dec_digits(cur as nat) + seq![dc]) + old_tmp.reverse() =~= dec_digits(
                cur as nat,
            ) + (seq![dc] + old_tmp.reverse()));
            assert(dec_digits(v as nat) =~= dec_digits(cur as nat) + tmp@.reverse());
        }
    }
    let ghost old_tmp = tmp@;
    let dc = digit_char(cur);
    tmp.push(dc);
    proof {
        assert(dec_digits(cur as nat) == seq![dchar(cur as int)]);
        assert(old_tmp.push(dc).reverse() =~= seq![dc] + old_tmp.reverse());
        assert(dec_digits(v as nat) =~= tmp@.reverse());
    }
    let n = tmp.len();
    for i in 0..n
        invariant
            n == tmp@.len(),
            dec_digits(v as nat) =~= tmp@.reverse(),
            out@ =~= base + tmp@.reverse().take(i as int),
    {
        let c = tmp[n - 1 - i];
        proof {
            assert(tmp@.reverse()[i as int] == tmp@[n - 1 - i as int]);
        }
        out.push(c);
        proof {
            assert((base + tmp@.reverse().take(i as int)).push(c) =~= base + tmp@.reverse().take(
                i + 1,
            ));
        }
    }
    proof {
        assert(tmp@.reverse().take(n as int) =~= tmp@.reverse());
        assert(out@ =~= base.add(dec_digits(v as nat)));
    }
}

/// The decimal digit character of a value 0 through 9.
pub fn digit_char(d: u64) -> (r: char)
    requires
        d < 10,
    ensures
        r == dchar(d as int),
{
    match d {
        0 => '0',
        1 => '1',
        2 => '2',
        3 => '3',
        4 => '4',
        5 => '5',
        6 => '6',
        7 => '7',
        8 => '8',
        _ => '9',
    }
}

/// The lowercase hexadecimal digit character of a value 0 through 15.
pub fn hex_digit_char(d: u32) -> (r: char)
    requires
        d < 16,
    ensures
        r == hex_char(d as int),
{
    match d {
        0 => '0',
        1 => '1',
        2 => '2',
        3 => '3',
        4 => '4',
        5 => '5',
        6 => '6',
        7 => '7',
        8 => '8',
        9 => '9',
        10 => 'a',
        11 => 'b',
        12 => 'c',
        13 => 'd',
        14 => 'e',
        _ => 'f',
    }
}

/// Append one string character, escaped as the format demands.
pub fn write_escaped_char(c: char, out: &mut Vec<char>)
    ensures
        final(out)@ == old(out)@.add(esc_char(c)),
{
    let ghost base = out@;
    if c == '"' {
        out.push('\\');
        out.push('"');
        proof {
            assert(out@ =~= base.add(esc_char(c)));
        }
    } else if c == '\\' {
        out.push('\\');
        out.push('\\');
        proof {
            assert(out@ =~= base.add(esc_char(c)));
        }
    } else if c == '\u{8}' {
        out.push('\\');
        out.push('b');
        proof {
            assert(out@ =~= base.add(esc_char(c)));
        }
    } else if c == '\t' {
        out.push('\\');
        out.push('t');
        proof {
            assert(out@ =~= base.add(esc_char(c)));
        }
    } else if c == '\n' {
        out.push('\\');
        out.push('n');
        proof {
            assert(out@ =~= base.add(esc_char(c)));
        }
    } else if c == '\u{c}' {
        out.push('\\');
        out.push('f');
        proof {
            assert(out@ =~= base.add(esc_char(c)));
        }
    } else if c == '\r' {
        out.push('\\');
        out.push('r');
        proof {
            assert(out@ =~= base.add(esc_char(c)));
        }
    } else if (c as u32) < 0x20 {
        let u = c as u32;
        out.push('\\');
        out.push('u');
        out.push('0');
        out.push('0');
        out.push(hex_digit_char(u / 16));
        out.push(hex_digit_char(u % 16));
        proof {
            assert(hex_char((c as u32) as int / 16) == hex_char((u / 16) as int));
            assert(hex_char((c as u32) as int % 16) == hex_char((u % 16) as int));
            assert(out@ =~= base.add(esc_char(c)));
        }
    } else {
        out.push(c);
        proof {
            assert(out@ =~= base.add(esc_char(c)));
        }
    }
}

/// Append a whole string's characters, escaped.
pub fn write_escaped(s: &Vec<char>, out: &mut Vec<char>)
    ensures
        final(out)@ == old(out)@.add(escape(s@)),
{
    let ghost base = out@;
    let n = s.len();
    let ghost sv = s@;
    proof {
        assert(sv.skip(0) =~= sv);
    }
    for i in 0..n
        invariant
            n == s@.len(),
            sv == s@,
            out@.add(escape(sv.skip(i as int))) =~= base.add(escape(sv)),
    {
        proof {
            assert(sv.skip(i as int).len() > 0);
            assert(sv.skip(i as int)[0] == sv[i as int]);
            assert(sv.skip(i as int).drop_first() =~= sv.skip(i + 1));
            assert(escape(sv.skip(i as int)) == esc_char(sv[i as int]) + escape(sv.skip(i + 1)));
        }
        let ghost before = out@;
        write_escaped_char(s[i], out);
        proof {
            assert(before.add(esc_char(sv[i as int])).add(escape(sv.skip(i + 1))) =~= before.add(
                esc_char(sv[i as int]) + escape(sv.skip(i + 1)),
            ));
        }
    }
    proof {
        assert(sv.skip(n as int) =~= Seq::<char>::empty());
        assert(escape(Seq::<char>::empty()) == Seq::<char>::empty());
        assert(out@.add(Seq::<char>::empty()) =~= out@);
    }
}

/// Append the canonical text of a JSON document.
#[verifier::loop_isolation(false)]
#[verifier::rlimit(100)]
pub fn write_json(j: &Json, out: &mut Vec<char>)
    ensures
        final(out)@ == old(out)@.add(spec_print(j@)),
    decreases *j,
{
    let ghost base = out@;
    match j {
        Json::Null => {
            out.push('n');
            out.push('u');
            out.push('l');
            out.push('l');
            proof {
                assert(out@ =~= base.add(spec_print(j@)));
            }
        },
        Json::Bool(b) => {
            if *b {
                out.push('t');
                out.push('r');
                out.push('u');
                out.push('e');
            } else {
                out.push('f');
                out.push('a');
                out.push('l');
                out.push('s');
                out.push('e');
            }
            proof {
                assert(out@ =~= base.add(spec_print(j@)));
            }
        },
        Json::Int(n) => {
            write_u64(*n, out);
        },
        Json::Str(st) => {
            let cs = str_to_chars(st.as_str());
            out.push('"');
            write_escaped(&cs, out);
            out.push('"');
            proof {
                assert(out@ =~= base.add(spec_print(j@)));
            }
        },
        Json::Arr(v) => {
            let ghost av = arr_view(v@);
            out.push('[');
            let n = v.len();
            proof {
                assert(out@ =~= base + seq!['[']);
                assert(av.len() == v@.len());
            }
            for i in 0..n
                invariant
                    n == v@.len(),
                    av == arr_view(v@),
                    out@.add(print_items(av, i as int)) =~= base + seq!['['] + print_items(
                        av,
                        0,
                    ),
            {
                let ghost before = out@;
                proof {
                    assert(av[i as int] == json_view(v@[i as int]));
                }
                write_json(&v[i], out);
                if i + 1 < n {
                    out.push(',');
                    proof {
                        assert(print_items(av, i as int) == spec_print(av[i as int]) + seq![',']
                            + print_items(av, i + 1));
                        assert(before.add(spec_print(av[i as int])).push(',').add(print_items(
                            av,
                            i + 1,
                        )) =~= before.add(print_items(av, i as int)));
                    }
                } else {
                    proof {
                        assert(print_items(av, i as int) == spec_print(av[i as int]));
                        assert(print_items(av, i + 1) == Seq::<char>::empty());
                        assert(before.add(spec_print(av[i as int])).add(Seq::<char>::empty())
                            =~= before.add(print_items(av, i as int)));
                    }
                }
            }
            proof {
                assert(print_items(av, n as int) == Seq::<char>::empty());
                assert(out@ =~= base + seq!['['] + print_items(av, 0));
            }
            out.push(']');
            proof {
                assert((base + seq!['['] + print_items(av, 0)).push(']') =~= base.add(
                    seq!['['] + print_items(av, 0) + seq![']'],
                ));
                assert(out@ =~= base.add(spec_print(j@)));
            }
        },
        Json::Obj(v) => {
            let ghost ov = obj_view(v@);
            out.push('{');
            let n = v.len();
            proof {
                assert(out@ =~= base + seq!['{']);
                assert(ov.len() == v@.len());
            }
            for i in 0..n
                invariant
                    n == v@.len(),
                    ov == obj_view(v@),
                    out@.add(print_pairs(ov, i as int)) =~= base + seq!['{'] + print_pairs(
                        ov,
                        0,
                    ),
            {
                let ghost before = out@;
                proof {
                    assert(ov[i as int] == (v@[i as int].0@, json_view(v@[i as int].1)));
                }
                let ks = str_to_chars(v[i].0.as_str());
                out.push('"');
                write_escaped(&ks, out);
                out.push('"');
                out.push(':');
                let ghost mid = out@;
                proof {
                    assert(mid =~= before + seq!['"'] + escape(ov[i as int].0) + seq!['"', ':']);
                }
                write_json(&v[i].1, out);
                proof {
                    assert(out@ =~= before.add(print_pair(ov[i as int])));
                }
                if i + 1 < n {
                    out.push(',');
                    proof {
                        assert(print_pairs(ov, i as int) == print_pair(ov[i as int]) + seq![',']
                            + print_pairs(ov, i + 1));
                        assert(before.add(print_pair(ov[i as int])).push(',').add(print_pairs(
                            ov,
                            i + 1,
                        )) =~= before.add(print_pairs(ov, i as int)));
                    }
                } else {
                    proof {
                        assert(print_pairs(ov, i as int) == print_pair(ov[i as int]));
                        assert(print_pairs(ov, i + 1) == Seq::<char>::empty());
                        assert(before.add(print_pair(ov[i as int])).add(Seq::<char>::empty())
                            =~= before.add(print_pairs(ov, i as int)));
                    }
                }
            }
            proof {
                assert(print_pairs(ov, n as int) == Seq::<char>::empty());
                assert(out@ =~= base + seq!['{'] + print_pairs(ov, 0));
            }
            out.push('}');
            proof {
                assert((base + seq!['{'] + print_pairs(ov, 0)).push('}') =~= base.add(
                    seq!['{'] + print_pairs(ov, 0) + seq!['}'],
                ));
                assert(out@ =~= base.add(spec_print(j@)));
            }
        },
    }
}

} // verus!

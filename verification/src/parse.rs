use vstd::prelude::*;

use crate::json::Json;
use crate::json::JsonV;
use crate::json::json_view;
use crate::json::arr_view;
use crate::json::obj_view;
use crate::codec::DecodeError;
use crate::text::is_ws;
use crate::text::is_digit_c;
use crate::text::dval;
use crate::text::hex_val;
use crate::text::hex_char;
use crate::text::dec_digits;
use crate::text::digits_val;
use crate::text::lemma_dec_digits;
use crate::text::lemma_digits_val_prefix;
use crate::text::esc_char;
use crate::text::escape;
use crate::text::lemma_escape_split;
use crate::text::spec_print;
use crate::text::print_items;
use crate::text::print_pair;
use crate::text::print_pairs;
use crate::text::push_char;
use crate::text::char_from_u32;

verus! {

broadcast use
    vstd::seq::axiom_seq_index_decreases,
    vstd::seq::axiom_seq_subrange_decreases,
    vstd::std_specs::vec::axiom_vec_index_decreases,
    vstd::std_specs::vec::axiom_vec_decreases_to_view;

/// The text from position `i` on reads as the canonical printing of `jv`
/// followed by `rest`, and `rest` does not begin with a digit (in the wire
/// format a value is always followed by a separator, a closer, or the end).
pub open spec fn printed_at(s: Seq<char>, i: int, jv: JsonV, rest: Seq<char>) -> bool {
    &&& 0 <= i <= s.len()
    &&& s.skip(i) == spec_print(jv) + rest
    &&& (rest.len() == 0 || !is_digit_c(rest[0]))
}

/// The text from position `i` on reads as the decimal digits of `n`
/// followed by `rest`, which does not begin with a digit.
pub open spec fn num_printed_at(s: Seq<char>, i: int, n: u64, rest: Seq<char>) -> bool {
    &&& 0 <= i <= s.len()
    &&& s.skip(i) == dec_digits(n as nat) + rest
    &&& (rest.len() == 0 || !is_digit_c(rest[0]))
}

/// A string as it stands in the text: quoted and escaped.
pub open spec fn quoted(x: Seq<char>) -> Seq<char> {
    seq!['"'] + escape(x) + seq!['"']
}

/// The text from position `i` on begins with a quoted, escaped copy of `x`.
pub open spec fn str_printed_at(s: Seq<char>, i: int, x: Seq<char>) -> bool {
    &&& 0 <= i
    &&& i + 2 + escape(x).len() <= s.len()
    &&& s.subrange(i, i + 2 + escape(x).len()) == quoted(x)
}

/// What the first characters of one escaped character can be.
pub proof fn lemma_esc_char(c: char)
    ensures
        1 <= esc_char(c).len(),
        esc_char(c)[0] != '"',
        esc_char(c)[0] == '\\' || (esc_char(c) =~= seq![c] && (c as u32) >= 0x20 && c != '"'
            && c != '\\'),
        esc_char(c)[0] == '\\' ==> esc_char(c).len() >= 2,
        esc_char(c)[0] == '\\' ==> (esc_char(c)[1] == '"' || esc_char(c)[1] == '\\' || esc_char(
            c,
        )[1] == 'b' || esc_char(c)[1] == 't' || esc_char(c)[1] == 'n' || esc_char(c)[1] == 'f'
            || esc_char(c)[1] == 'r' || esc_char(c)[1] == 'u'),
        esc_char(c)[0] == '\\' && esc_char(c)[1] == '"' ==> c == '"' && esc_char(c).len() == 2,
        esc_char(c)[0] == '\\' && esc_char(c)[1] == '\\' ==> c == '\\' && esc_char(c).len() == 2,
        esc_char(c)[0] == '\\' && esc_char(c)[1] == 'b' ==> c == '\u{8}' && esc_char(c).len()
            == 2,
        esc_char(c)[0] == '\\' && esc_char(c)[1] == 't' ==> c == '\t' && esc_char(c).len() == 2,
        esc_char(c)[0] == '\\' && esc_char(c)[1] == 'n' ==> c == '\n' && esc_char(c).len() == 2,
        esc_char(c)[0] == '\\' && esc_char(c)[1] == 'f' ==> c == '\u{c}' && esc_char(c).len()
            == 2,
        esc_char(c)[0] == '\\' && esc_char(c)[1] == 'r' ==> c == '\r' && esc_char(c).len() == 2,
        esc_char(c)[0] == '\\' && esc_char(c)[1] == 'u' ==> (c as u32) < 0x20 && esc_char(
            c,
        ).len() == 6 && esc_char(c)[2] == '0' && esc_char(c)[3] == '0' && esc_char(c)[4]
            == hex_char((c as u32) as int / 16) && esc_char(c)[5] == hex_char(
            (c as u32) as int % 16,
        ),
{
}

/// Hexadecimal digit characters read back as their value.
pub proof fn lemma_hex_round(d: int)
    requires
        0 <= d < 16,
    ensures
        hex_val(hex_char(d)) == d,
{
}

/// One more character escaped: `quoted(x)` carries `esc_char(x[k])` right
/// after the escape of the first `k` characters.
pub proof fn lemma_escape_snoc(x: Seq<char>, k: int)
    requires
        0 <= k < x.len(),
    ensures
        escape(x.take(k + 1)) == escape(x.take(k)) + esc_char(x[k]),
        escape(x.take(k)).len() + esc_char(x[k]).len() <= escape(x).len(),
        forall|t: int|
            0 <= t < esc_char(x[k]).len() ==> #[trigger] escape(x)[escape(x.take(k)).len() + t]
                == esc_char(x[k])[t],
{
    lemma_escape_split(x, k);
    assert(x.skip(k).len() > 0);
    assert(x.skip(k)[0] == x[k]);
    assert(x.skip(k).drop_first() =~= x.skip(k + 1));
    assert(escape(x.skip(k)) == esc_char(x[k]) + escape(x.skip(k + 1)));
    assert(x.take(k + 1).take(k) =~= x.take(k));
    assert(x.take(k + 1).skip(k) =~= seq![x[k]]);
    lemma_escape_split(x.take(k + 1), k);
    assert(seq![x[k]].drop_first() =~= Seq::<char>::empty());
    assert(escape(seq![x[k]]) == esc_char(x[k]) + escape(Seq::<char>::empty()));
    assert(esc_char(x[k]) + Seq::<char>::empty() =~= esc_char(x[k]));
    assert(escape(x.take(k + 1)) == escape(x.take(k)) + esc_char(x[k]));
    assert forall|t: int| 0 <= t < esc_char(x[k]).len() implies #[trigger] escape(x)[escape(
        x.take(k),
    ).len() + t] == esc_char(x[k])[t] by {
        assert(escape(x) == escape(x.take(k)) + escape(x.skip(k)));
        assert(escape(x)[escape(x.take(k)).len() + t] == escape(x.skip(k))[t]);
        assert((esc_char(x[k]) + escape(x.skip(k + 1)))[t] == esc_char(x[k])[t]);
    }
}

/// Characters of the text under a quoted string: offset `1 + t` holds
/// `escape(x)[t]`, and the closing quote follows the escaped body.
pub proof fn lemma_str_at(s: Seq<char>, i: int, x: Seq<char>)
    requires
        str_printed_at(s, i, x),
    ensures
        s[i] == '"',
        s[i + 1 + escape(x).len()] == '"',
        forall|t: int| 0 <= t < escape(x).len() ==> #[trigger] s[i + 1 + t] == escape(x)[t],
{
    let el = escape(x).len() as int;
    let sub = s.subrange(i, i + 2 + el);
    assert(sub[0] == s[i]);
    assert(quoted(x)[0] == '"');
    assert(sub[1 + el] == s[i + 1 + el]);
    assert(quoted(x)[1 + el] == '"');
    assert forall|t: int| 0 <= t < el implies #[trigger] s[i + 1 + t] == escape(x)[t] by {
        assert(sub[1 + t] == s[i + 1 + t]);
        assert(quoted(x)[1 + t] == (seq!['"'] + escape(x))[1 + t]);
        assert((seq!['"'] + escape(x))[1 + t] == escape(x)[t]);
    }
}

/// Every canonical printing is non-empty, and its first character names the
/// kind of document printed.
pub proof fn lemma_print_shape(jv: JsonV)
    ensures
        spec_print(jv).len() >= 1,
        jv is Null <==> spec_print(jv)[0] == 'n',
        jv is Bool && jv->Bool_0 <==> spec_print(jv)[0] == 't',
        jv is Bool && !jv->Bool_0 <==> spec_print(jv)[0] == 'f',
        jv is Int <==> is_digit_c(spec_print(jv)[0]),
        jv is Str <==> spec_print(jv)[0] == '"',
        jv is Arr <==> spec_print(jv)[0] == '[',
        jv is Obj <==> spec_print(jv)[0] == '{',
        !is_ws(spec_print(jv)[0]),
        spec_print(jv)[0] != ']' && spec_print(jv)[0] != '}' && spec_print(jv)[0] != ','
            && spec_print(jv)[0] != ':',
{
    match jv {
        JsonV::Null => {},
        JsonV::Bool(b) => {},
        JsonV::Int(n) => {
            lemma_dec_digits(n as nat);
            assert(is_digit_c(dec_digits(n as nat)[0]));
        },
        JsonV::Str(s) => {
            assert(spec_print(jv)[0] == '"');
        },
        JsonV::Arr(items) => {
            assert(spec_print(jv)[0] == '[');
        },
        JsonV::Obj(pairs) => {
            assert(spec_print(jv)[0] == '{');
        },
    }
}

/// A string of the given characters. Relies only on `String::push`, through
/// `push_char`.
pub fn chars_to_string(v: &Vec<char>) -> (r: String)
    ensures
        r@ == v@,
{
    let mut out = String::new();
    let n = v.len();
    for i in 0..n
        invariant
            n == v@.len(),
            out@ == v@.take(i as int),
    {
        push_char(&mut out, v[i]);
        proof {
            assert(v@.take(i as int).push(v@[i as int]) =~= v@.take(i + 1));
        }
    }
    proof {
        assert(v@.take(n as int) =~= v@);
    }
    out
}

/// First position at or after `i` that does not hold insignificant
/// whitespace.
pub fn skip_ws(s: &Vec<char>, i: usize) -> (r: usize)
    requires
        i <= s@.len(),
    ensures
        i <= r <= s@.len(),
        forall|q: int| i <= q < r ==> is_ws(#[trigger] s@[q]),
        r < s@.len() ==> !is_ws(s@[r as int]),
        (i < s@.len() && !is_ws(s@[i as int])) ==> r == i,
{
    let mut p = i;
    while p < s.len() && (s[p] == ' ' || s[p] == '\t' || s[p] == '\n' || s[p] == '\r')
        invariant
            i <= p <= s@.len(),
            forall|q: int| i <= q < p ==> is_ws(#[trigger] s@[q]),
        decreases s@.len() - p,
    {
        p = p + 1;
    }
    p
}

/// Read a non-negative decimal number, as the wire format's identifiers are
/// written: digits only, no leading zero, no sign, fitting in 64 bits.
/// Wherever the text from `i` on is the canonical rendering of a number
/// followed by a non-digit, that exact number and its end position come
/// back.
pub fn parse_number(s: &Vec<char>, i: usize) -> (r: Result<(u64, usize), DecodeError>)
    requires
        i < s@.len(),
        is_digit_c(s@[i as int]),
    ensures
        (match r {
            Ok(p) => i < p.1 <= s@.len(),
            Err(_) => true,
        }),
        forall|n: u64, rest: Seq<char>| #[trigger]
            num_printed_at(s@, i as int, n, rest) ==> (match r {
                Ok(p) => p.0 == n && p.1 == i + dec_digits(n as nat).len(),
                Err(_) => false,
            }),
{
    let n_len = s.len();
    if s[i] == '0' && i + 1 < n_len && digit_of(s[i + 1]) >= 0 {
        proof {
            assert forall|n: u64, rest: Seq<char>| #[trigger]
                num_printed_at(s@, i as int, n, rest) implies false by {
                lemma_dec_digits(n as nat);
                let dd = dec_digits(n as nat);
                assert(s@.skip(i as int)[0] == s@[i as int]);
                assert((dd + rest)[0] == dd[0]);
                assert(dd[0] == '0');
                assert(dd.len() == 1);
                assert(n < 10);
                assert(s@.skip(i as int)[1] == s@[i as int + 1]);
                assert((dd + rest)[1] == rest[0]);
                assert(is_digit_c(rest[0]));
            }
        }
        return Err(DecodeError::Syntax);
    }
    let mut k = i;
    let mut val: u64 = 0;
    while k < n_len && digit_of(s[k]) >= 0
        invariant
            n_len == s@.len(),
            i <= k <= s@.len(),
            i < s@.len() && is_digit_c(s@[i as int]),
            forall|q: int| i <= q < k ==> is_digit_c(#[trigger] s@[q]),
            val == digits_val(s@.subrange(i as int, k as int)),
        decreases s@.len() - k,
    {
        let d = digit_of(s[k]);
        let du = d as u64;
        proof {
            assert(is_digit_c(s@[k as int]));
            assert(s@.subrange(i as int, k + 1).drop_last() =~= s@.subrange(i as int, k as int));
            assert(s@.subrange(i as int, k + 1).last() == s@[k as int]);
        }
        if val > (u64::MAX - du) / 10 {
            proof {
                assert forall|n: u64, rest: Seq<char>| #[trigger]
                    num_printed_at(s@, i as int, n, rest) implies false by {
                    lemma_dec_digits(n as nat);
                    let dd = dec_digits(n as nat);
                    let ll = dd.len() as int;
                    assert(s@.skip(i as int) == dd + rest);
                    assert(s@.skip(i as int).len() == s@.len() - i);
                    // the scanned digits cannot run past the printed ones
                    assert(k + 1 - i <= ll) by {
                        if k + 1 - i > ll {
                            assert(s@.skip(i as int)[ll] == s@[i + ll]);
                            assert((dd + rest)[ll] == rest[0]);
                            assert(i + ll <= k);
                            assert(is_digit_c(s@[i + ll]));
                            assert(!is_digit_c(rest[0]));
                        }
                    }
                    assert forall|q: int| 0 <= q < k + 1 - i implies #[trigger] s@.subrange(
                        i as int,
                        k + 1,
                    )[q] == dd.take(k + 1 - i)[q] by {
                        assert(s@.subrange(i as int, k + 1)[q] == s@[i + q]);
                        assert(s@.skip(i as int)[q] == s@[i + q]);
                        assert((dd + rest)[q] == dd[q]);
                    }
                    assert(s@.subrange(i as int, k + 1) =~= dd.take(k + 1 - i));
                    lemma_digits_val_prefix(dd, k + 1 - i);
                    assert(digits_val(dd.take(k + 1 - i)) <= n);
                    assert(dd.take(k + 1 - i).drop_last() =~= s@.subrange(i as int, k as int));
                    assert(dd.take(k + 1 - i).last() == s@[k as int]);
                    assert(digits_val(dd.take(k + 1 - i)) == val * 10 + du);
                    assert(val * 10 + du <= u64::MAX);
                    assert(val <= (u64::MAX - du) / 10) by {
                        let m = (u64::MAX - du) as int;
                        assert(val * 10 <= m);
                        vstd::arithmetic::div_mod::lemma_fundamental_div_mod(m, 10);
                    }
                }
            }
            return Err(DecodeError::Syntax);
        }
        proof {
            assert(val * 10 + du <= u64::MAX) by {
                let m = (u64::MAX - du) as int;
                assert(val <= m / 10);
                vstd::arithmetic::div_mod::lemma_fundamental_div_mod(m, 10);
            }
        }
        val = val * 10 + du;
        k = k + 1;
    }
    proof {
        assert forall|n: u64, rest: Seq<char>| #[trigger]
            num_printed_at(s@, i as int, n, rest) implies val == n && k == i + dec_digits(
            n as nat,
        ).len() by {
            lemma_dec_digits(n as nat);
            let dd = dec_digits(n as nat);
            let ll = dd.len() as int;
            assert(s@.skip(i as int) == dd + rest);
            assert(s@.skip(i as int).len() == s@.len() - i);
            assert(k - i <= ll) by {
                if k - i > ll {
                    assert(s@.skip(i as int)[ll] == s@[i + ll]);
                    assert((dd + rest)[ll] == rest[0]);
                    assert(i + ll < k);
                    assert(is_digit_c(s@[i + ll]));
                    assert(!is_digit_c(rest[0]));
                }
            }
            assert(k - i >= ll) by {
                if k - i < ll {
                    assert(s@.skip(i as int)[k - i] == s@[k as int]);
                    assert((dd + rest)[k - i] == dd[k - i]);
                    assert(is_digit_c(dd[k - i]));
                    assert(k == s@.len() || !is_digit_c(s@[k as int]));
                    assert(i + ll + rest.len() == s@.len());
                }
            }
            assert forall|q: int| 0 <= q < ll implies #[trigger] s@.subrange(
                i as int,
                k as int,
            )[q] == dd[q] by {
                assert(s@.subrange(i as int, k as int)[q] == s@[i + q]);
                assert(s@.skip(i as int)[q] == s@[i + q]);
                assert((dd + rest)[q] == dd[q]);
            }
            assert(s@.subrange(i as int, k as int) =~= dd);
            assert(val == digits_val(dd));
        }
    }
    Ok((val, k))
}

/// The digit value of a character, or -1.
pub fn digit_of(c: char) -> (r: i8)
    ensures
        r as int == dval(c),
{
    match c {
        '0' => 0,
        '1' => 1,
        '2' => 2,
        '3' => 3,
        '4' => 4,
        '5' => 5,
        '6' => 6,
        '7' => 7,
        '8' => 8,
        '9' => 9,
        _ => -1,
    }
}

/// The hexadecimal digit value of a character (either case), or -1.
pub fn hex_of(c: char) -> (r: i8)
    ensures
        r as int == hex_val(c),
{
    match c {
        '0' => 0,
        '1' => 1,
        '2' => 2,
        '3' => 3,
        '4' => 4,
        '5' => 5,
        '6' => 6,
        '7' => 7,
        '8' => 8,
        '9' => 9,
        'a' | 'A' => 10,
        'b' | 'B' => 11,
        'c' | 'C' => 12,
        'd' | 'D' => 13,
        'e' | 'E' => 14,
        'f' | 'F' => 15,
        _ => -1,
    }
}

/// What the text holds at escape step `k` of a quoted string: the closing
/// quote if all of `x` is consumed, else the escape of `x[k]`.
pub proof fn lemma_str_state(s: Seq<char>, i: int, x: Seq<char>, k: int)
    requires
        str_printed_at(s, i, x),
        0 <= k <= x.len(),
    ensures
        escape(x.take(k)).len() <= escape(x).len(),
        k == x.len() ==> escape(x.take(k)) == escape(x) && s[i + 1 + escape(x).len()] == '"',
        k < x.len() ==> escape(x.take(k)).len() + esc_char(x[k]).len() <= escape(x).len(),
        k < x.len() ==> s[i + 1 + escape(x.take(k)).len()] == esc_char(x[k])[0],
        k < x.len() && esc_char(x[k]).len() >= 2 ==> s[i + 2 + escape(x.take(k)).len()]
            == esc_char(x[k])[1],
        k < x.len() && esc_char(x[k]).len() == 6 ==> s[i + 3 + escape(x.take(k)).len()]
            == esc_char(x[k])[2] && s[i + 4 + escape(x.take(k)).len()] == esc_char(x[k])[3] && s[
            i + 5 + escape(x.take(k)).len()
        ] == esc_char(x[k])[4] && s[i + 6 + escape(x.take(k)).len()] == esc_char(x[k])[5],
{
    lemma_str_at(s, i, x);
    if k == x.len() {
        assert(x.take(k) =~= x);
    } else {
        lemma_escape_snoc(x, k);
        let base = escape(x.take(k)).len() as int;
        assert forall|t: int| 0 <= t < esc_char(x[k]).len() implies s[i + 1 + base + t]
            == esc_char(x[k])[t] by {
            assert(escape(x)[base + t] == esc_char(x[k])[t]);
            assert(s[i + 1 + (base + t)] == escape(x)[base + t]);
        }
        assert(s[i + 1 + base + 0] == esc_char(x[k])[0]);
        if esc_char(x[k]).len() >= 2 {
            assert(s[i + 1 + base + 1] == esc_char(x[k])[1]);
        }
        if esc_char(x[k]).len() == 6 {
            assert(s[i + 1 + base + 2] == esc_char(x[k])[2]);
            assert(s[i + 1 + base + 3] == esc_char(x[k])[3]);
            assert(s[i + 1 + base + 4] == esc_char(x[k])[4]);
            assert(s[i + 1 + base + 5] == esc_char(x[k])[5]);
        }
        lemma_escape_split(x, k);
    }
}

/// Read a quoted string with its escapes, returning the characters it
/// denotes and the position after the closing quote. Wherever the text from
/// `i` on is the escaped quoted form of some characters, exactly those come
/// back.
pub fn parse_string(s: &Vec<char>, i: usize) -> (r: Result<(String, usize), DecodeError>)
    requires
        i < s@.len(),
        s@[i as int] == '"',
    ensures
        (match r {
            Ok(p) => i + 2 <= p.1 <= s@.len(),
            Err(_) => true,
        }),
        forall|x: Seq<char>| #[trigger]
            str_printed_at(s@, i as int, x) ==> (match r {
                Ok(p) => p.0@ == x && p.1 == i + 2 + escape(x).len(),
                Err(_) => false,
            }),
{
    let n_len = s.len();
    let mut p = i + 1;
    let mut out: Vec<char> = Vec::new();
    proof {
        assert forall|x: Seq<char>| #[trigger] str_printed_at(s@, i as int, x) implies out@.len()
            <= x.len() && out@ == x.take(out@.len() as int) && p == i + 1 + escape(
            x.take(out@.len() as int),
        ).len() by {
            assert(out@ =~= x.take(0));
            assert(x.take(0) =~= Seq::<char>::empty());
            assert(escape(x.take(0)) == Seq::<char>::empty());
        }
    }
    while p < n_len
        invariant
            n_len == s@.len(),
            i + 1 <= p <= s@.len(),
            forall|x: Seq<char>| #[trigger]
                str_printed_at(s@, i as int, x) ==> out@.len() <= x.len() && out@ == x.take(
                    out@.len() as int,
                ) && p == i + 1 + escape(x.take(out@.len() as int)).len(),
        decreases s@.len() - p,
    {
        let ghost k = out@.len() as int;
        let ghost old_out = out@;
        let ghost old_p = p as int;
        let c = s[p];
        if c == '"' {
            proof {
                assert forall|x: Seq<char>| #[trigger] str_printed_at(s@, i as int, x) implies
                    out@ == x && p + 1 == i + 2 + escape(x).len() by {
                    lemma_str_state(s@, i as int, x, k);
                    if k < x.len() {
                        lemma_esc_char(x[k]);
                        assert(old_p == i + 1 + escape(x.take(k)).len());
                        assert(s@[old_p] == esc_char(x[k])[0]);
                    }
                    assert(k == x.len());
                    assert(x.take(k) =~= x);
                }
            }
            let st = chars_to_string(&out);
            return Ok((st, p + 1));
        } else if c == '\\' {
            proof {
                assert forall|x: Seq<char>| #[trigger] str_printed_at(s@, i as int, x) implies
                    out@.len() < x.len() && esc_char(x[out@.len() as int])[0] == '\\' by {
                    lemma_str_state(s@, i as int, x, k);
                    assert(old_p == i + 1 + escape(x.take(k)).len());
                    if k == x.len() {
                        assert(s@[old_p] == '"');
                    }
                    lemma_esc_char(x[k]);
                    assert(s@[old_p] == esc_char(x[k])[0]);
                }
            }
            if p + 1 >= n_len {
                proof {
                    assert forall|x: Seq<char>| #[trigger] str_printed_at(s@, i as int, x)
                        implies false by {
                        lemma_str_state(s@, i as int, x, k);
                        lemma_esc_char(x[k]);
                        assert(escape(x.take(k)).len() + 2 <= escape(x).len());
                    }
                }
                return Err(DecodeError::Syntax);
            }
            let e = s[p + 1];
            proof {
                assert forall|x: Seq<char>| #[trigger] str_printed_at(s@, i as int, x) implies
                    esc_char(x[out@.len() as int])[1] == e by {
                    lemma_str_state(s@, i as int, x, k);
                    lemma_esc_char(x[k]);
                    assert(old_p == i + 1 + escape(x.take(k)).len());
                    assert(s@[old_p + 1] == esc_char(x[k])[1]);
                }
            }
            if e == '"' || e == '\\' || e == '/' || e == 'b' || e == 't' || e == 'n' || e == 'f'
                || e == 'r' {
                let dec: char = if e == '"' {
                    '"'
                } else if e == '\\' {
                    '\\'
                } else if e == '/' {
                    '/'
                } else if e == 'b' {
                    '\u{8}'
                } else if e == 't' {
                    '\t'
                } else if e == 'n' {
                    '\n'
                } else if e == 'f' {
                    '\u{c}'
                } else {
                    '\r'
                };
                out.push(dec);
                p = p + 2;
                proof {
                    assert forall|x: Seq<char>| #[trigger] str_printed_at(s@, i as int, x)
                        implies out@.len() <= x.len() && out@ == x.take(out@.len() as int) && p
                        == i + 1 + escape(x.take(out@.len() as int)).len() by {
                        lemma_str_state(s@, i as int, x, k);
                        lemma_esc_char(x[k]);
                        lemma_escape_snoc(x, k);
                        assert(x[k] == dec);
                        assert(esc_char(x[k]).len() == 2);
                        assert(old_out.push(dec) =~= x.take(k + 1));
                    }
                }
            } else if e == 'u' {
                if n_len - p < 6 {
                    proof {
                        assert forall|x: Seq<char>| #[trigger] str_printed_at(s@, i as int, x)
                            implies false by {
                            lemma_str_state(s@, i as int, x, k);
                            lemma_esc_char(x[k]);
                            assert(escape(x.take(k)).len() + 6 <= escape(x).len());
                        }
                    }
                    return Err(DecodeError::Syntax);
                }
                let h0 = hex_of(s[p + 2]);
                let h1 = hex_of(s[p + 3]);
                let h2 = hex_of(s[p + 4]);
                let h3 = hex_of(s[p + 5]);
                proof {
                    assert forall|x: Seq<char>| #[trigger] str_printed_at(s@, i as int, x)
                        implies s@[old_p + 2] == '0' && s@[old_p + 3] == '0' && s@[old_p + 4]
                        == hex_char((x[k] as u32) as int / 16) && s@[old_p + 5] == hex_char(
                        (x[k] as u32) as int % 16,
                    ) && (x[k] as u32) < 0x20 by {
                        lemma_str_state(s@, i as int, x, k);
                        lemma_esc_char(x[k]);
                        assert(old_p == i + 1 + escape(x.take(k)).len());
                    }
                }
                if h0 < 0 || h1 < 0 || h2 < 0 || h3 < 0 {
                    proof {
                        assert forall|x: Seq<char>| #[trigger] str_printed_at(s@, i as int, x)
                            implies false by {
                            lemma_hex_round((x[k] as u32) as int / 16);
                            lemma_hex_round((x[k] as u32) as int % 16);
                        }
                    }
                    return Err(DecodeError::Syntax);
                }
                let code: u32 = (h0 as u32) * 4096 + (h1 as u32) * 256 + (h2 as u32) * 16 + (
                h3 as u32);
                proof {
                    assert forall|x: Seq<char>| #[trigger] str_printed_at(s@, i as int, x)
                        implies code == x[k] as u32 by {
                        let cu = (x[k] as u32) as int;
                        lemma_hex_round(cu / 16);
                        lemma_hex_round(cu % 16);
                        assert(h2 as int == cu / 16 && h3 as int == cu % 16);
                        vstd::arithmetic::div_mod::lemma_fundamental_div_mod(cu, 16);
                    }
                }
                if 0xD800 <= code && code < 0xE000 {
                    proof {
                        assert forall|x: Seq<char>| #[trigger] str_printed_at(s@, i as int, x)
                            implies false by {
                            assert(code == x[k] as u32 && code < 0x20);
                        }
                    }
                    return Err(DecodeError::Syntax);
                }
                match char_from_u32(code) {
                    None => {
                        proof {
                            assert forall|x: Seq<char>| #[trigger] str_printed_at(
                                s@,
                                i as int,
                                x,
                            ) implies false by {
                                assert(code == x[k] as u32 && code < 0x20);
                            }
                        }
                        return Err(DecodeError::Syntax);
                    },
                    Some(dec) => {
                        out.push(dec);
                        p = p + 6;
                        proof {
                            assert forall|x: Seq<char>| #[trigger] str_printed_at(
                                s@,
                                i as int,
                                x,
                            ) implies out@.len() <= x.len() && out@ == x.take(
                                out@.len() as int,
                            ) && p == i + 1 + escape(x.take(out@.len() as int)).len() by {
                                lemma_str_state(s@, i as int, x, k);
                                lemma_esc_char(x[k]);
                                lemma_escape_snoc(x, k);
                                let cu = (x[k] as u32) as int;
                                assert(old_p == i + 1 + escape(x.take(k)).len());
                                assert(s@[old_p + 2] == '0' && s@[old_p + 3] == '0');
                                assert(s@[old_p + 4] == hex_char(cu / 16));
                                assert(s@[old_p + 5] == hex_char(cu % 16));
                                lemma_hex_round(cu / 16);
                                lemma_hex_round(cu % 16);
                                assert(h0 as int == 0 && h1 as int == 0);
                                assert(h2 as int == cu / 16 && h3 as int == cu % 16);
                                vstd::arithmetic::div_mod::lemma_fundamental_div_mod(cu, 16);
                                assert(code == x[k] as u32);
                                vstd::utf8::char_u32_cast(x[k], code);
                                vstd::utf8::char_u32_cast(dec, code);
                                assert(dec == x[k]);
                                assert(esc_char(x[k]).len() == 6);
                                assert(old_out.push(dec) =~= x.take(k + 1));
                            }
                        }
                    },
                }
            } else {
                proof {
                    assert forall|x: Seq<char>| #[trigger] str_printed_at(s@, i as int, x)
                        implies false by {
                        lemma_str_state(s@, i as int, x, k);
                        lemma_esc_char(x[k]);
                    }
                }
                return Err(DecodeError::Syntax);
            }
        } else if (c as u32) < 0x20 {
            proof {
                assert forall|x: Seq<char>| #[trigger] str_printed_at(s@, i as int, x) implies
                    false by {
                    lemma_str_state(s@, i as int, x, k);
                    if k == x.len() {
                        assert(s@[old_p] == '"');
                    } else {
                        lemma_esc_char(x[k]);
                        assert(s@[old_p] == esc_char(x[k])[0]);
                    }
                }
            }
            return Err(DecodeError::Syntax);
        } else {
            out.push(c);
            p = p + 1;
            proof {
                assert forall|x: Seq<char>| #[trigger] str_printed_at(s@, i as int, x) implies
                    out@.len() <= x.len() && out@ == x.take(out@.len() as int) && p == i + 1
                    + escape(x.take(out@.len() as int)).len() by {
                    lemma_str_state(s@, i as int, x, k);
                    if k == x.len() {
                        assert(s@[old_p] == '"');
                    }
                    lemma_esc_char(x[k]);
                    assert(s@[old_p] == esc_char(x[k])[0]);
                    assert(esc_char(x[k]) =~= seq![x[k]]);
                    assert(x[k] == c);
                    lemma_escape_snoc(x, k);
                    assert(old_out.push(c) =~= x.take(k + 1));
                }
            }
        }
    }
    proof {
        assert forall|x: Seq<char>| #[trigger] str_printed_at(s@, i as int, x) implies false by {
            let k = out@.len() as int;
            lemma_str_state(s@, i as int, x, k);
            if k < x.len() {
                lemma_esc_char(x[k]);
            }
        }
    }
    Err(DecodeError::Syntax)
}

/// `print_items(items, k)` is a suffix of `print_items(items, 0)`.
pub proof fn lemma_items_suffix(items: Seq<JsonV>, k: int)
    requires
        0 <= k <= items.len(),
    ensures
        print_items(items, k).len() <= print_items(items, 0).len(),
        forall|t: int|
            0 <= t < print_items(items, k).len() ==> #[trigger] print_items(items, 0)[print_items(
                items,
                0,
            ).len() - print_items(items, k).len() + t] == print_items(items, k)[t],
    decreases k,
{
    if k > 0 {
        lemma_items_suffix(items, k - 1);
        let p0 = print_items(items, 0);
        let pk1 = print_items(items, k - 1);
        let pk = print_items(items, k);
        if k == items.len() {
            assert(pk.len() == 0);
        } else {
            assert(pk1 == spec_print(items[k - 1]) + seq![','] + print_items(items, k));
            assert forall|t: int| 0 <= t < pk.len() implies #[trigger] p0[p0.len() - pk.len()
                + t] == pk[t] by {
                let off = pk1.len() - pk.len();
                assert(pk1[off + t] == ((spec_print(items[k - 1]) + seq![',']) + print_items(
                    items,
                    k,
                ))[off + t]);
                assert((spec_print(items[k - 1]) + seq![','] + print_items(items, k))[off + t]
                    == pk[t]);
                assert(p0[p0.len() - pk1.len() + (off + t)] == pk1[off + t]);
            }
        }
    }
}

/// `print_pairs(pairs, k)` is a suffix of `print_pairs(pairs, 0)`.
pub proof fn lemma_pairs_suffix(pairs: Seq<(Seq<char>, JsonV)>, k: int)
    requires
        0 <= k <= pairs.len(),
    ensures
        print_pairs(pairs, k).len() <= print_pairs(pairs, 0).len(),
        forall|t: int|
            0 <= t < print_pairs(pairs, k).len() ==> #[trigger] print_pairs(pairs, 0)[print_pairs(
                pairs,
                0,
            ).len() - print_pairs(pairs, k).len() + t] == print_pairs(pairs, k)[t],
    decreases k,
{
    if k > 0 {
        lemma_pairs_suffix(pairs, k - 1);
        let p0 = print_pairs(pairs, 0);
        let pk1 = print_pairs(pairs, k - 1);
        let pk = print_pairs(pairs, k);
        if k == pairs.len() {
            assert(pk.len() == 0);
        } else {
            assert(pk1 == print_pair(pairs[k - 1]) + seq![','] + print_pairs(pairs, k));
            assert forall|t: int| 0 <= t < pk.len() implies #[trigger] p0[p0.len() - pk.len()
                + t] == pk[t] by {
                let off = pk1.len() - pk.len();
                assert(pk1[off + t] == ((print_pair(pairs[k - 1]) + seq![',']) + print_pairs(
                    pairs,
                    k,
                ))[off + t]);
                assert((print_pair(pairs[k - 1]) + seq![','] + print_pairs(pairs, k))[off + t]
                    == pk[t]);
                assert(p0[p0.len() - pk1.len() + (off + t)] == pk1[off + t]);
            }
        }
    }
}

/// Where element `k` of a printed array stands in the text, and what
/// follows it: a comma before further elements, the closing bracket after
/// the last.
pub proof fn lemma_arr_element(s: Seq<char>, i: int, items: Seq<JsonV>, rest: Seq<char>, k: int)
    requires
        printed_at(s, i, JsonV::Arr(items), rest),
        0 <= k < items.len(),
    ensures
        ({
            let pos = i + 1 + print_items(items, 0).len() - print_items(items, k).len();
            let m = pos + spec_print(items[k]).len();
            &&& i < pos <= m < s.len()
            &&& printed_at(s, pos, items[k], s.skip(m))
            &&& (k + 1 < items.len() ==> s[m] == ',')
            &&& (k + 1 == items.len() ==> s[m] == ']' && m == i + 1 + print_items(
                items,
                0,
            ).len())
        }),
{
    let p0 = print_items(items, 0);
    let pk = print_items(items, k);
    let pr = spec_print(JsonV::Arr(items));
    lemma_items_suffix(items, k);
    let pos = i + 1 + p0.len() - pk.len();
    let m = pos + spec_print(items[k]).len();
    assert(s.skip(i) == pr + rest);
    assert(s.skip(i).len() == s.len() - i);
    assert(pr.len() == 2 + p0.len());
    assert forall|t: int| 0 <= t < p0.len() implies #[trigger] s[i + 1 + t] == p0[t] by {
        assert(s.skip(i)[1 + t] == s[i + (1 + t)]);
        assert((pr + rest)[1 + t] == pr[1 + t]);
        assert(pr[1 + t] == ((seq!['['] + p0) + seq![']'])[1 + t]);
        assert((seq!['['] + p0)[1 + t] == p0[t]);
    }
    let l0 = p0.len() as int;
    assert(s.skip(i)[1 + l0] == s[i + 1 + l0]);
    assert((pr + rest)[1 + l0] == pr[1 + l0]);
    assert(pr[1 + l0] == ((seq!['['] + p0) + seq![']'])[1 + l0]);
    assert(s[i + 1 + l0] == ']');
    if k + 1 < items.len() {
        assert(pk == spec_print(items[k]) + seq![','] + print_items(items, k + 1));
    } else {
        assert(pk == spec_print(items[k]));
    }
    // the element's own characters
    assert forall|t: int| 0 <= t < spec_print(items[k]).len() implies #[trigger] s[pos + t]
        == spec_print(items[k])[t] by {
        assert(p0[p0.len() - pk.len() + t] == pk[t]);
        assert(s[i + 1 + (p0.len() - pk.len() + t)] == p0[p0.len() - pk.len() + t]);
        if k + 1 < items.len() {
            assert(pk[t] == ((spec_print(items[k]) + seq![',']) + print_items(items, k + 1))[t]);
            assert((spec_print(items[k]) + seq![','])[t] == spec_print(items[k])[t]);
        }
    }
    lemma_print_shape(items[k]);
    // what follows the element
    if k + 1 < items.len() {
        let el = spec_print(items[k]).len() as int;
        assert(pk[el] == ((spec_print(items[k]) + seq![',']) + print_items(items, k + 1))[el]);
        assert(pk[el] == ',');
        assert(p0[p0.len() - pk.len() + el] == pk[el]);
        assert(s[i + 1 + (p0.len() - pk.len() + el)] == p0[p0.len() - pk.len() + el]);
        assert(s[m] == ',');
    } else {
        assert(m == i + 1 + p0.len());
        assert(s[m] == ']');
    }
    // the element is printed at `pos`
    assert(s.skip(pos) =~= s.subrange(pos, m) + s.skip(m));
    assert forall|t: int| 0 <= t < m - pos implies #[trigger] s.subrange(pos, m)[t]
        == spec_print(items[k])[t] by {
        assert(s.subrange(pos, m)[t] == s[pos + t]);
    }
    assert(s.subrange(pos, m) =~= spec_print(items[k]));
    assert(s.skip(pos) == spec_print(items[k]) + s.skip(m));
    assert(s.skip(m)[0] == s[m]);
    assert(!is_digit_c(s[m]));
}

/// Where pair `k` of a printed object stands in the text: its quoted key,
/// the colon, its value, and the comma or closing brace after it.
pub proof fn lemma_obj_element(
    s: Seq<char>,
    i: int,
    pairs: Seq<(Seq<char>, JsonV)>,
    rest: Seq<char>,
    k: int,
)
    requires
        printed_at(s, i, JsonV::Obj(pairs), rest),
        0 <= k < pairs.len(),
    ensures
        ({
            let pos = i + 1 + print_pairs(pairs, 0).len() - print_pairs(pairs, k).len();
            let m1 = pos + 2 + escape(pairs[k].0).len();
            let m2 = m1 + 1 + spec_print(pairs[k].1).len();
            &&& i < pos < m1 < m2 < s.len()
            &&& str_printed_at(s, pos, pairs[k].0)
            &&& s[m1] == ':'
            &&& printed_at(s, m1 + 1, pairs[k].1, s.skip(m2))
            &&& (k + 1 < pairs.len() ==> s[m2] == ',')
            &&& (k + 1 == pairs.len() ==> s[m2] == '}' && m2 == i + 1 + print_pairs(
                pairs,
                0,
            ).len())
        }),
{
    let p0 = print_pairs(pairs, 0);
    let pk = print_pairs(pairs, k);
    let pp = print_pair(pairs[k]);
    let pr = spec_print(JsonV::Obj(pairs));
    lemma_pairs_suffix(pairs, k);
    let pos = i + 1 + p0.len() - pk.len();
    let m1 = pos + 2 + escape(pairs[k].0).len();
    let m2 = m1 + 1 + spec_print(pairs[k].1).len();
    assert(s.skip(i) == pr + rest);
    assert(s.skip(i).len() == s.len() - i);
    assert(pr.len() == 2 + p0.len());
    assert forall|t: int| 0 <= t < p0.len() implies #[trigger] s[i + 1 + t] == p0[t] by {
        assert(s.skip(i)[1 + t] == s[i + (1 + t)]);
        assert((pr + rest)[1 + t] == pr[1 + t]);
        assert(pr[1 + t] == ((seq!['{'] + p0) + seq!['}'])[1 + t]);
        assert((seq!['{'] + p0)[1 + t] == p0[t]);
    }
    let l0 = p0.len() as int;
    assert(s.skip(i)[1 + l0] == s[i + 1 + l0]);
    assert((pr + rest)[1 + l0] == pr[1 + l0]);
    assert(pr[1 + l0] == ((seq!['{'] + p0) + seq!['}'])[1 + l0]);
    assert(s[i + 1 + l0] == '}');
    if k + 1 < pairs.len() {
        assert(pk == pp + seq![','] + print_pairs(pairs, k + 1));
    } else {
        assert(pk == pp);
    }
    assert(pp == seq!['"'] + escape(pairs[k].0) + seq!['"', ':'] + spec_print(pairs[k].1));
    assert(pp.len() == 3 + escape(pairs[k].0).len() + spec_print(pairs[k].1).len());
    // the pair's own characters
    assert forall|t: int| 0 <= t < pp.len() implies #[trigger] s[pos + t] == pp[t] by {
        assert(p0[p0.len() - pk.len() + t] == pk[t]);
        assert(s[i + 1 + (p0.len() - pk.len() + t)] == p0[p0.len() - pk.len() + t]);
        if k + 1 < pairs.len() {
            assert(pk[t] == ((pp + seq![',']) + print_pairs(pairs, k + 1))[t]);
            assert((pp + seq![','])[t] == pp[t]);
        }
    }
    // the quoted key
    let ql = 2 + escape(pairs[k].0).len() as int;
    assert(ql == 2 + escape(pairs[k].0).len());
    assert forall|t: int| 0 <= t < ql implies #[trigger] s.subrange(pos, pos + ql)[t] == quoted(
        pairs[k].0,
    )[t] by {
        assert(s.subrange(pos, pos + ql)[t] == s[pos + t]);
        assert(pp[t] == (((seq!['"'] + escape(pairs[k].0)) + seq!['"', ':']) + spec_print(
            pairs[k].1,
        ))[t]);
        if t < 1 + escape(pairs[k].0).len() {
            assert(((seq!['"'] + escape(pairs[k].0)) + seq!['"', ':'])[t] == (seq!['"'] + escape(
                pairs[k].0,
            ))[t]);
            assert(quoted(pairs[k].0)[t] == ((seq!['"'] + escape(pairs[k].0)) + seq!['"'])[t]);
            assert(((seq!['"'] + escape(pairs[k].0)) + seq!['"'])[t] == (seq!['"'] + escape(
                pairs[k].0,
            ))[t]);
        } else {
            assert(((seq!['"'] + escape(pairs[k].0)) + seq!['"', ':'])[t] == seq!['"', ':'][t - (
            1 + escape(pairs[k].0).len())]);
            assert(quoted(pairs[k].0)[t] == '"');
        }
    }
    assert(s.subrange(pos, pos + ql) =~= quoted(pairs[k].0));
    assert(str_printed_at(s, pos, pairs[k].0));
    // the colon
    assert(s[pos + (ql as int)] == pp[ql]);
    assert(pp[ql] == (((seq!['"'] + escape(pairs[k].0)) + seq!['"', ':']) + spec_print(
        pairs[k].1,
    ))[ql]);
    assert(s[m1] == ':');
    // the value's characters
    assert forall|t: int| 0 <= t < spec_print(pairs[k].1).len() implies #[trigger] s[m1 + 1 + t]
        == spec_print(pairs[k].1)[t] by {
        assert(s[pos + (ql + 1 + t)] == pp[ql + 1 + t]);
        assert(pp[ql + 1 + t] == (((seq!['"'] + escape(pairs[k].0)) + seq!['"', ':'])
            + spec_print(pairs[k].1))[ql + 1 + t]);
    }
    lemma_print_shape(pairs[k].1);
    // what follows the pair
    if k + 1 < pairs.len() {
        let pl = pp.len() as int;
        assert(pk[pl] == ((pp + seq![',']) + print_pairs(pairs, k + 1))[pl]);
        assert(pk[pl] == ',');
        assert(p0[p0.len() - pk.len() + pl] == pk[pl]);
        assert(s[i + 1 + (p0.len() - pk.len() + pl)] == p0[p0.len() - pk.len() + pl]);
        assert(s[m2] == ',');
    } else {
        assert(m2 == i + 1 + p0.len());
        assert(s[m2] == '}');
    }
    // the value is printed at `m1 + 1`
    assert(s.skip(m1 + 1) =~= s.subrange(m1 + 1, m2) + s.skip(m2));
    assert forall|t: int| 0 <= t < m2 - (m1 + 1) implies #[trigger] s.subrange(m1 + 1, m2)[t]
        == spec_print(pairs[k].1)[t] by {
        assert(s.subrange(m1 + 1, m2)[t] == s[m1 + 1 + t]);
    }
    assert(s.subrange(m1 + 1, m2) =~= spec_print(pairs[k].1));
    assert(s.skip(m1 + 1) == spec_print(pairs[k].1) + s.skip(m2));
    assert(s.skip(m2)[0] == s[m2]);
    assert(!is_digit_c(s[m2]));
}

/// The first character of a printed document stands at its position.
pub proof fn lemma_printed_at_first(s: Seq<char>, i: int, jv: JsonV, rest: Seq<char>)
    requires
        printed_at(s, i, jv, rest),
    ensures
        i < s.len(),
        s[i] == spec_print(jv)[0],
{
    lemma_print_shape(jv);
    assert(s.skip(i).len() == s.len() - i);
    assert(s.skip(i)[0] == s[i]);
    assert((spec_print(jv) + rest)[0] == spec_print(jv)[0]);
}

/// Read one JSON document starting exactly at `i` (no leading whitespace),
/// with insignificant whitespace allowed inside arrays and objects.
/// Wherever the text from `i` on is the canonical printing of a document
/// followed by a non-digit, exactly that document and its end come back.
#[verifier::loop_isolation(false)]
#[verifier::rlimit(100)]
pub fn parse_json_at(s: &Vec<char>, i: usize) -> (r: Result<(Json, usize), DecodeError>)
    requires
        i <= s@.len(),
    ensures
        (match r {
            Ok(p) => i < p.1 <= s@.len(),
            Err(_) => true,
        }),
        forall|jv: JsonV, rest: Seq<char>| #[trigger]
            printed_at(s@, i as int, jv, rest) ==> (match r {
                Ok(p) => p.0@ == jv && p.1 == i + spec_print(jv).len(),
                Err(_) => false,
            }),
    decreases s@.len() - i,
{
    let n_len = s.len();
    if i >= n_len {
        proof {
            assert forall|jv: JsonV, rest: Seq<char>| #[trigger]
                printed_at(s@, i as int, jv, rest) implies false by {
                lemma_print_shape(jv);
                assert(s@.skip(i as int).len() >= 1);
            }
        }
        return Err(DecodeError::Syntax);
    }
    let c = s[i];
    proof {
        assert forall|jv: JsonV, rest: Seq<char>| #[trigger]
            printed_at(s@, i as int, jv, rest) implies spec_print(jv)[0] == c && spec_print(
            jv,
        ).len() + rest.len() == s@.len() - i by {
            lemma_print_shape(jv);
            assert(s@.skip(i as int)[0] == s@[i as int]);
            assert((spec_print(jv) + rest)[0] == spec_print(jv)[0]);
            assert(s@.skip(i as int).len() == s@.len() - i);
            assert((spec_print(jv) + rest).len() == spec_print(jv).len() + rest.len());
        }
    }
    if c == 'n' {
        if n_len - i >= 4 && s[i + 1] == 'u' && s[i + 2] == 'l' && s[i + 3] == 'l' {
            proof {
                assert forall|jv: JsonV, rest: Seq<char>| #[trigger]
                    printed_at(s@, i as int, jv, rest) implies JsonV::Null == jv && i + 4 == i
                    + spec_print(jv).len() by {
                    lemma_print_shape(jv);
                }
            }
            return Ok((Json::Null, i + 4));
        } else {
            proof {
                assert forall|jv: JsonV, rest: Seq<char>| #[trigger]
                    printed_at(s@, i as int, jv, rest) implies false by {
                    lemma_print_shape(jv);
                    assert(jv is Null);
                    assert(spec_print(jv) == seq!['n', 'u', 'l', 'l']);
                    assert(s@.skip(i as int)[1] == s@[i + 1]);
                    assert(s@.skip(i as int)[2] == s@[i + 2]);
                    assert(s@.skip(i as int)[3] == s@[i + 3]);
                    assert((spec_print(jv) + rest)[1] == 'u');
                    assert((spec_print(jv) + rest)[2] == 'l');
                    assert((spec_print(jv) + rest)[3] == 'l');
                }
            }
            return Err(DecodeError::Syntax);
        }
    } else if c == 't' {
        if n_len - i >= 4 && s[i + 1] == 'r' && s[i + 2] == 'u' && s[i + 3] == 'e' {
            proof {
                assert forall|jv: JsonV, rest: Seq<char>| #[trigger]
                    printed_at(s@, i as int, jv, rest) implies JsonV::Bool(true) == jv && i + 4
                    == i + spec_print(jv).len() by {
                    lemma_print_shape(jv);
                }
            }
            return Ok((Json::Bool(true), i + 4));
        } else {
            proof {
                assert forall|jv: JsonV, rest: Seq<char>| #[trigger]
                    printed_at(s@, i as int, jv, rest) implies false by {
                    lemma_print_shape(jv);
                    assert(spec_print(jv) == seq!['t', 'r', 'u', 'e']);
                    assert(s@.skip(i as int)[1] == s@[i + 1]);
                    assert(s@.skip(i as int)[2] == s@[i + 2]);
                    assert(s@.skip(i as int)[3] == s@[i + 3]);
                    assert((spec_print(jv) + rest)[1] == 'r');
                    assert((spec_print(jv) + rest)[2] == 'u');
                    assert((spec_print(jv) + rest)[3] == 'e');
                }
            }
            return Err(DecodeError::Syntax);
        }
    } else if c == 'f' {
        if n_len - i >= 5 && s[i + 1] == 'a' && s[i + 2] == 'l' && s[i + 3] == 's' && s[i + 4]
            == 'e' {
            proof {
                assert forall|jv: JsonV, rest: Seq<char>| #[trigger]
                    printed_at(s@, i as int, jv, rest) implies JsonV::Bool(false) == jv && i + 5
                    == i + spec_print(jv).len() by {
                    lemma_print_shape(jv);
                }
            }
            return Ok((Json::Bool(false), i + 5));
        } else {
            proof {
                assert forall|jv: JsonV, rest: Seq<char>| #[trigger]
                    printed_at(s@, i as int, jv, rest) implies false by {
                    lemma_print_shape(jv);
                    assert(spec_print(jv) == seq!['f', 'a', 'l', 's', 'e']);
                    assert(s@.skip(i as int)[1] == s@[i + 1]);
                    assert(s@.skip(i as int)[2] == s@[i + 2]);
                    assert(s@.skip(i as int)[3] == s@[i + 3]);
                    assert(s@.skip(i as int)[4] == s@[i + 4]);
                    assert((spec_print(jv) + rest)[1] == 'a');
                    assert((spec_print(jv) + rest)[2] == 'l');
                    assert((spec_print(jv) + rest)[3] == 's');
                    assert((spec_print(jv) + rest)[4] == 'e');
                }
            }
            return Err(DecodeError::Syntax);
        }
    } else if digit_of(c) >= 0 {
        proof {
            assert(is_digit_c(s@[i as int]));
            assert forall|jv: JsonV, rest: Seq<char>| #[trigger]
                printed_at(s@, i as int, jv, rest) implies jv is Int && num_printed_at(
                s@,
                i as int,
                jv->Int_0,
                rest,
            ) by {
                lemma_print_shape(jv);
            }
        }
        match parse_number(s, i) {
            Ok((v, m)) => {
                proof {
                    assert forall|jv: JsonV, rest: Seq<char>| #[trigger]
                        printed_at(s@, i as int, jv, rest) implies JsonV::Int(v) == jv && m == i
                        + spec_print(jv).len() by {
                        assert(num_printed_at(s@, i as int, jv->Int_0, rest));
                    }
                }
                Ok((Json::Int(v), m))
            },
            Err(e) => {
                proof {
                    assert forall|jv: JsonV, rest: Seq<char>| #[trigger]
                        printed_at(s@, i as int, jv, rest) implies false by {
                        assert(num_printed_at(s@, i as int, jv->Int_0, rest));
                    }
                }
                Err(e)
            },
        }
    } else if c == '"' {
        proof {
            assert forall|jv: JsonV, rest: Seq<char>| #[trigger]
                printed_at(s@, i as int, jv, rest) implies jv is Str && str_printed_at(
                s@,
                i as int,
                jv->Str_0,
            ) by {
                lemma_print_shape(jv);
                let x = jv->Str_0;
                assert(spec_print(jv) == quoted(x));
                assert(s@.skip(i as int) == quoted(x) + rest);
                let ql = quoted(x).len() as int;
                assert forall|t: int| 0 <= t < ql implies #[trigger] s@.subrange(
                    i as int,
                    i + ql,
                )[t] == quoted(x)[t] by {
                    assert(s@.subrange(i as int, i + ql)[t] == s@[i + t]);
                    assert(s@.skip(i as int)[t] == s@[i + t]);
                    assert((quoted(x) + rest)[t] == quoted(x)[t]);
                }
                assert(s@.subrange(i as int, i + ql) =~= quoted(x));
            }
        }
        match parse_string(s, i) {
            Ok((st, m)) => {
                proof {
                    assert forall|jv: JsonV, rest: Seq<char>| #[trigger]
                        printed_at(s@, i as int, jv, rest) implies JsonV::Str(st@) == jv && m
                        == i + spec_print(jv).len() by {
                        assert(str_printed_at(s@, i as int, jv->Str_0));
                        assert(spec_print(jv) == quoted(jv->Str_0));
                    }
                }
                Ok((Json::Str(st), m))
            },
            Err(e) => {
                proof {
                    assert forall|jv: JsonV, rest: Seq<char>| #[trigger]
                        printed_at(s@, i as int, jv, rest) implies false by {
                        assert(str_printed_at(s@, i as int, jv->Str_0));
                    }
                }
                Err(e)
            },
        }
    } else if c == '[' {
        proof {
            assert forall|jv: JsonV, rest: Seq<char>| #[trigger]
                printed_at(s@, i as int, jv, rest) implies jv is Arr && printed_at(
                s@,
                i as int,
                JsonV::Arr(jv->Arr_0),
                rest,
            ) by {
                lemma_print_shape(jv);
            }
        }
        let p0 = skip_ws(s, i + 1);
        if p0 < n_len && s[p0] == ']' {
            proof {
                assert forall|items: Seq<JsonV>, rest: Seq<char>| #[trigger]
                    printed_at(s@, i as int, JsonV::Arr(items), rest) implies items.len() == 0
                    && p0 + 1 == i + spec_print(JsonV::Arr(items)).len() by {
                    if items.len() > 0 {
                        lemma_arr_element(s@, i as int, items, rest, 0);
                        lemma_print_shape(items[0]);
                        lemma_printed_at_first(
                            s@,
                            i + 1,
                            items[0],
                            s@.skip(i + 1 + spec_print(items[0]).len()),
                        );
                        assert(s@[i + 1] == spec_print(items[0])[0]);
                        assert(!is_ws(s@[i + 1]));
                        assert(p0 == i + 1);
                    }
                    assert(print_items(items, 0).len() == 0);
                    assert(s@.skip(i as int)[1] == s@[i + 1]);
                    assert((spec_print(JsonV::Arr(items)) + rest)[1] == ']');
                    assert(!is_ws(']'));
                    assert(p0 == i + 1);
                }
                assert forall|jv: JsonV, rest: Seq<char>| #[trigger]
                    printed_at(s@, i as int, jv, rest) implies arr_view(Seq::<Json>::empty())
                    =~= jv->Arr_0 && p0 + 1 == i + spec_print(jv).len() by {
                    assert(printed_at(s@, i as int, JsonV::Arr(jv->Arr_0), rest));
                    assert(jv->Arr_0.len() == 0);
                    assert(arr_view(Seq::<Json>::empty()) =~= jv->Arr_0);
                }
            }
            let out: Vec<Json> = Vec::new();
            proof {
                assert forall|jv: JsonV, rest: Seq<char>| #[trigger]
                    printed_at(s@, i as int, jv, rest) implies Json::Arr(out)@ == jv by {
                    assert(arr_view(out@) =~= jv->Arr_0);
                    assert(Json::Arr(out)@ =~~= jv);
                }
            }
            return Ok((Json::Arr(out), p0 + 1));
        }
        proof {
            assert forall|items: Seq<JsonV>, rest: Seq<char>| #[trigger]
                printed_at(s@, i as int, JsonV::Arr(items), rest) implies items.len() > 0 by {
                if items.len() == 0 {
                    assert(print_items(items, 0).len() == 0);
                    assert(s@.skip(i as int).len() == 2 + rest.len());
                    assert(s@.skip(i as int)[1] == s@[i + 1]);
                    assert((spec_print(JsonV::Arr(items)) + rest)[1] == ']');
                    assert(!is_ws(']'));
                    assert(p0 == i + 1);
                    assert(p0 < n_len);
                }
            }
        }
        let mut out: Vec<Json> = Vec::new();
        let ghost acc = Seq::<JsonV>::empty();
        let mut pos = p0;
        proof {
            assert forall|items: Seq<JsonV>, rest: Seq<char>| #[trigger]
                printed_at(s@, i as int, JsonV::Arr(items), rest) implies out@.len()
                < items.len() && acc =~= items.take(out@.len() as int) && pos == i + 1
                + print_items(items, 0).len() - print_items(items, out@.len() as int).len() by {
                lemma_arr_element(s@, i as int, items, rest, 0);
                lemma_print_shape(items[0]);
                lemma_printed_at_first(
                    s@,
                    i + 1,
                    items[0],
                    s@.skip(i + 1 + spec_print(items[0]).len()),
                );
                assert(s@[i + 1] == spec_print(items[0])[0]);
                assert(!is_ws(s@[i + 1]));
                assert(pos == i + 1);
            }
        }
        loop
            invariant
                n_len == s@.len(),
                i < pos <= s@.len(),
                acc.len() == out@.len(),
                forall|q: int| 0 <= q < out@.len() ==> acc[q] == json_view(#[trigger] out@[q]),
                forall|items: Seq<JsonV>, rest: Seq<char>| #[trigger]
                    printed_at(s@, i as int, JsonV::Arr(items), rest) ==> out@.len()
                        < items.len() && acc == items.take(out@.len() as int) && pos == i + 1
                        + print_items(items, 0).len() - print_items(
                        items,
                        out@.len() as int,
                    ).len(),
            decreases s@.len() - pos,
        {
            let ghost k = out@.len() as int;
            let ghost old_pos = pos as int;
            let ghost old_acc = acc;
            proof {
                assert forall|items: Seq<JsonV>, rest: Seq<char>| #[trigger]
                    printed_at(s@, i as int, JsonV::Arr(items), rest) implies printed_at(
                    s@,
                    old_pos,
                    items[k],
                    s@.skip(old_pos + spec_print(items[k]).len()),
                ) by {
                    lemma_arr_element(s@, i as int, items, rest, k);
                }
            }
            match parse_json_at(s, pos) {
                Err(e) => {
                    proof {
                        assert forall|jv: JsonV, rest: Seq<char>| #[trigger]
                            printed_at(s@, i as int, jv, rest) implies false by {
                            assert(printed_at(s@, i as int, JsonV::Arr(jv->Arr_0), rest));
                        }
                    }
                    return Err(e);
                },
                Ok((val, m1)) => {
                    proof {
                        assert forall|items: Seq<JsonV>, rest: Seq<char>| #[trigger]
                            printed_at(s@, i as int, JsonV::Arr(items), rest) implies val@
                            == items[k] && m1 == old_pos + spec_print(items[k]).len() by {
                            assert(printed_at(
                                s@,
                                old_pos,
                                items[k],
                                s@.skip(old_pos + spec_print(items[k]).len()),
                            ));
                        }
                    }
                    let q = skip_ws(s, m1);
                    proof {
                        assert forall|items: Seq<JsonV>, rest: Seq<char>| #[trigger]
                            printed_at(s@, i as int, JsonV::Arr(items), rest) implies q == m1
                            && m1 < n_len && (s@[m1 as int] == ',' || s@[m1 as int] == ']') by {
                            lemma_arr_element(s@, i as int, items, rest, k);
                            assert(!is_ws(s@[m1 as int]));
                        }
                    }
                    if q >= n_len {
                        proof {
                            assert forall|jv: JsonV, rest: Seq<char>| #[trigger]
                                printed_at(s@, i as int, jv, rest) implies false by {
                                assert(printed_at(s@, i as int, JsonV::Arr(jv->Arr_0), rest));
                            }
                        }
                        return Err(DecodeError::Syntax);
                    }
                    let ch = s[q];
                    if ch == ',' {
                        out.push(val);
                        proof {
                            acc = acc + seq![json_view(val)];
                        }
                        pos = skip_ws(s, q + 1);
                        proof {
                            assert forall|items: Seq<JsonV>, rest: Seq<char>| #[trigger]
                                printed_at(s@, i as int, JsonV::Arr(items), rest) implies out@.len()
                                < items.len() && acc == items.take(out@.len() as int) && pos
                                == i + 1 + print_items(items, 0).len() - print_items(
                                items,
                                out@.len() as int,
                            ).len() by {
                                lemma_arr_element(s@, i as int, items, rest, k);
                                assert(k + 1 < items.len()) by {
                                    if k + 1 == items.len() {
                                        assert(s@[m1 as int] == ']');
                                    }
                                }
                                lemma_arr_element(s@, i as int, items, rest, k + 1);
                                lemma_print_shape(items[k + 1]);
                                assert(print_items(items, k) == spec_print(items[k]) + seq![',']
                                    + print_items(items, k + 1));
                                lemma_printed_at_first(
                                    s@,
                                    m1 + 1,
                                    items[k + 1],
                                    s@.skip(m1 + 1 + spec_print(items[k + 1]).len()),
                                );
                                assert(s@[m1 + 1] == spec_print(items[k + 1])[0]);
                                assert(!is_ws(s@[m1 + 1]));
                                assert(pos == m1 + 1);
                                assert(old_acc + seq![json_view(val)] =~= items.take(k + 1));
                            }
                        }
                    } else if ch == ']' {
                        out.push(val);
                        proof {
                            acc = acc + seq![json_view(val)];
                            assert forall|jv: JsonV, rest: Seq<char>| #[trigger]
                                printed_at(s@, i as int, jv, rest) implies Json::Arr(out)@ == jv
                                && q + 1 == i + spec_print(jv).len() by {
                                let items = jv->Arr_0;
                                assert(printed_at(s@, i as int, JsonV::Arr(items), rest));
                                lemma_arr_element(s@, i as int, items, rest, k);
                                assert(k + 1 == items.len()) by {
                                    if k + 1 < items.len() {
                                        assert(s@[m1 as int] == ',');
                                    }
                                }
                                assert(print_items(items, k) == spec_print(items[k]));
                                assert(m1 == i + 1 + print_items(items, 0).len());
                                assert(old_acc + seq![json_view(val)] =~= items.take(k + 1));
                                assert(items.take(k + 1) =~= items);
                                assert(arr_view(out@) =~= acc);
                                assert(Json::Arr(out)@ =~~= jv);
                            }
                        }
                        return Ok((Json::Arr(out), q + 1));
                    } else {
                        proof {
                            assert forall|jv: JsonV, rest: Seq<char>| #[trigger]
                                printed_at(s@, i as int, jv, rest) implies false by {
                                assert(printed_at(s@, i as int, JsonV::Arr(jv->Arr_0), rest));
                            }
                        }
                        return Err(DecodeError::Syntax);
                    }
                },
            }
        }
    } else if c == '{' {
        proof {
            assert forall|jv: JsonV, rest: Seq<char>| #[trigger]
                printed_at(s@, i as int, jv, rest) implies jv is Obj && printed_at(
                s@,
                i as int,
                JsonV::Obj(jv->Obj_0),
                rest,
            ) by {
                lemma_print_shape(jv);
            }
        }
        let p0 = skip_ws(s, i + 1);
        if p0 < n_len && s[p0] == '}' {
            proof {
                assert forall|pairs: Seq<(Seq<char>, JsonV)>, rest: Seq<char>| #[trigger]
                    printed_at(s@, i as int, JsonV::Obj(pairs), rest) implies pairs.len() == 0
                    && p0 + 1 == i + spec_print(JsonV::Obj(pairs)).len() by {
                    if pairs.len() > 0 {
                        lemma_obj_element(s@, i as int, pairs, rest, 0);
                        lemma_str_at(s@, i + 1, pairs[0].0);
                        assert(s@[i + 1] == '"');
                        assert(!is_ws('"'));
                        assert(p0 == i + 1);
                    }
                    assert(print_pairs(pairs, 0).len() == 0);
                    assert(s@.skip(i as int)[1] == s@[i + 1]);
                    assert((spec_print(JsonV::Obj(pairs)) + rest)[1] == '}');
                    assert(!is_ws('}'));
                    assert(p0 == i + 1);
                }
                assert forall|jv: JsonV, rest: Seq<char>| #[trigger]
                    printed_at(s@, i as int, jv, rest) implies obj_view(
                    Seq::<(String, Json)>::empty(),
                ) =~= jv->Obj_0 && p0 + 1 == i + spec_print(jv).len() by {
                    assert(printed_at(s@, i as int, JsonV::Obj(jv->Obj_0), rest));
                    assert(jv->Obj_0.len() == 0);
                }
            }
            let out: Vec<(String, Json)> = Vec::new();
            proof {
                assert forall|jv: JsonV, rest: Seq<char>| #[trigger]
                    printed_at(s@, i as int, jv, rest) implies Json::Obj(out)@ == jv by {
                    assert(obj_view(out@) =~= jv->Obj_0);
                    assert(Json::Obj(out)@ =~~= jv);
                }
            }
            return Ok((Json::Obj(out), p0 + 1));
        }
        proof {
            assert forall|pairs: Seq<(Seq<char>, JsonV)>, rest: Seq<char>| #[trigger]
                printed_at(s@, i as int, JsonV::Obj(pairs), rest) implies pairs.len() > 0 by {
                if pairs.len() == 0 {
                    assert(print_pairs(pairs, 0).len() == 0);
                    assert(s@.skip(i as int).len() == 2 + rest.len());
                    assert(s@.skip(i as int)[1] == s@[i + 1]);
                    assert((spec_print(JsonV::Obj(pairs)) + rest)[1] == '}');
                    assert(!is_ws('}'));
                    assert(p0 == i + 1);
                    assert(p0 < n_len);
                }
            }
        }
        let mut out: Vec<(String, Json)> = Vec::new();
        let ghost acc = Seq::<(Seq<char>, JsonV)>::empty();
        let mut pos = p0;
        proof {
            assert forall|pairs: Seq<(Seq<char>, JsonV)>, rest: Seq<char>| #[trigger]
                printed_at(s@, i as int, JsonV::Obj(pairs), rest) implies out@.len()
                < pairs.len() && acc =~= pairs.take(out@.len() as int) && pos == i + 1
                + print_pairs(pairs, 0).len() - print_pairs(pairs, out@.len() as int).len() by {
                lemma_obj_element(s@, i as int, pairs, rest, 0);
                lemma_str_at(s@, i + 1, pairs[0].0);
                assert(s@[i + 1] == '"');
                assert(!is_ws('"'));
                assert(pos == i + 1);
            }
        }
        loop
            invariant
                n_len == s@.len(),
                i < pos <= s@.len(),
                acc.len() == out@.len(),
                forall|q: int|
                    0 <= q < out@.len() ==> acc[q] == (#[trigger] out@[q].0@, json_view(
                        out@[q].1,
                    )),
                forall|pairs: Seq<(Seq<char>, JsonV)>, rest: Seq<char>| #[trigger]
                    printed_at(s@, i as int, JsonV::Obj(pairs), rest) ==> out@.len()
                        < pairs.len() && acc == pairs.take(out@.len() as int) && pos == i + 1
                        + print_pairs(pairs, 0).len() - print_pairs(
                        pairs,
                        out@.len() as int,
                    ).len(),
            decreases s@.len() - pos,
        {
            let ghost k = out@.len() as int;
            let ghost old_pos = pos as int;
            let ghost old_acc = acc;
            proof {
                assert forall|pairs: Seq<(Seq<char>, JsonV)>, rest: Seq<char>| #[trigger]
                    printed_at(s@, i as int, JsonV::Obj(pairs), rest) implies str_printed_at(
                    s@,
                    old_pos,
                    pairs[k].0,
                ) && s@[old_pos] == '"' && old_pos < n_len by {
                    lemma_obj_element(s@, i as int, pairs, rest, k);
                    lemma_str_at(s@, old_pos, pairs[k].0);
                }
            }
            if !(pos < n_len) {
                proof {
                    assert forall|jv: JsonV, rest: Seq<char>| #[trigger]
                        printed_at(s@, i as int, jv, rest) implies false by {
                        assert(printed_at(s@, i as int, JsonV::Obj(jv->Obj_0), rest));
                    }
                }
                return Err(DecodeError::Syntax);
            }
            if !(s[pos] == '"') {
                proof {
                    assert forall|jv: JsonV, rest: Seq<char>| #[trigger]
                        printed_at(s@, i as int, jv, rest) implies false by {
                        assert(printed_at(s@, i as int, JsonV::Obj(jv->Obj_0), rest));
                    }
                }
                return Err(DecodeError::Syntax);
            }
            match parse_string(s, pos) {
                Err(e) => {
                    proof {
                        assert forall|jv: JsonV, rest: Seq<char>| #[trigger]
                            printed_at(s@, i as int, jv, rest) implies false by {
                            assert(printed_at(s@, i as int, JsonV::Obj(jv->Obj_0), rest));
                        }
                    }
                    return Err(e);
                },
                Ok((key, m1)) => {
                    proof {
                        assert forall|pairs: Seq<(Seq<char>, JsonV)>, rest: Seq<char>| #[trigger]
                            printed_at(s@, i as int, JsonV::Obj(pairs), rest) implies key@
                            == pairs[k].0 && m1 == old_pos + 2 + escape(pairs[k].0).len() && m1
                            < n_len && s@[m1 as int] == ':' by {
                            assert(str_printed_at(s@, old_pos, pairs[k].0));
                            lemma_obj_element(s@, i as int, pairs, rest, k);
                        }
                    }
                    let q1 = skip_ws(s, m1);
                    if !(q1 < n_len && s[q1] == ':') {
                        proof {
                            assert forall|jv: JsonV, rest: Seq<char>| #[trigger]
                                printed_at(s@, i as int, jv, rest) implies false by {
                                assert(printed_at(s@, i as int, JsonV::Obj(jv->Obj_0), rest));
                                assert(!is_ws(':'));
                            }
                        }
                        return Err(DecodeError::Syntax);
                    }
                    let pos2 = skip_ws(s, q1 + 1);
                    proof {
                        assert forall|pairs: Seq<(Seq<char>, JsonV)>, rest: Seq<char>| #[trigger]
                            printed_at(s@, i as int, JsonV::Obj(pairs), rest) implies q1 == m1
                            && pos2 == m1 + 1 && printed_at(
                            s@,
                            m1 + 1,
                            pairs[k].1,
                            s@.skip(m1 + 1 + spec_print(pairs[k].1).len()),
                        ) by {
                            lemma_obj_element(s@, i as int, pairs, rest, k);
                            assert(!is_ws(':'));
                            assert(q1 == m1);
                            lemma_print_shape(pairs[k].1);
                            lemma_printed_at_first(
                                s@,
                                m1 + 1,
                                pairs[k].1,
                                s@.skip(m1 + 1 + spec_print(pairs[k].1).len()),
                            );
                            assert(s@[m1 + 1] == spec_print(pairs[k].1)[0]);
                            assert(!is_ws(s@[m1 + 1]));
                        }
                    }
                    match parse_json_at(s, pos2) {
                        Err(e) => {
                            proof {
                                assert forall|jv: JsonV, rest: Seq<char>| #[trigger]
                                    printed_at(s@, i as int, jv, rest) implies false by {
                                    assert(printed_at(s@, i as int, JsonV::Obj(jv->Obj_0), rest));
                                }
                            }
                            return Err(e);
                        },
                        Ok((val, m2)) => {
                            proof {
                                assert forall|pairs: Seq<(Seq<char>, JsonV)>, rest: Seq<char>|
                                    #[trigger]
                                    printed_at(s@, i as int, JsonV::Obj(pairs), rest) implies val@
                                    == pairs[k].1 && m2 == m1 + 1 + spec_print(
                                    pairs[k].1,
                                ).len() && m2 < n_len && (s@[m2 as int] == ',' || s@[m2 as int]
                                    == '}') by {
                                    assert(printed_at(
                                        s@,
                                        m1 + 1,
                                        pairs[k].1,
                                        s@.skip(m1 + 1 + spec_print(pairs[k].1).len()),
                                    ));
                                    lemma_obj_element(s@, i as int, pairs, rest, k);
                                }
                            }
                            let q2 = skip_ws(s, m2);
                            proof {
                                assert forall|pairs: Seq<(Seq<char>, JsonV)>, rest: Seq<char>|
                                    #[trigger]
                                    printed_at(s@, i as int, JsonV::Obj(pairs), rest) implies q2
                                    == m2 by {
                                    assert(!is_ws(s@[m2 as int]));
                                }
                            }
                            if q2 >= n_len {
                                proof {
                                    assert forall|jv: JsonV, rest: Seq<char>| #[trigger]
                                        printed_at(s@, i as int, jv, rest) implies false by {
                                        assert(printed_at(
                                            s@,
                                            i as int,
                                            JsonV::Obj(jv->Obj_0),
                                            rest,
                                        ));
                                    }
                                }
                                return Err(DecodeError::Syntax);
                            }
                            let ch = s[q2];
                            if ch == ',' {
                                let ghost kv = (key@, json_view(val));
                                out.push((key, val));
                                proof {
                                    acc = acc + seq![kv];
                                }
                                pos = skip_ws(s, q2 + 1);
                                proof {
                                    assert forall|
                                        pairs: Seq<(Seq<char>, JsonV)>,
                                        rest: Seq<char>,
                                    |
                                        #[trigger]
                                        printed_at(s@, i as int, JsonV::Obj(pairs), rest) implies out@.len()
                                        < pairs.len() && acc == pairs.take(out@.len() as int)
                                        && pos == i + 1 + print_pairs(pairs, 0).len()
                                        - print_pairs(pairs, out@.len() as int).len() by {
                                        lemma_obj_element(s@, i as int, pairs, rest, k);
                                        assert(k + 1 < pairs.len()) by {
                                            if k + 1 == pairs.len() {
                                                assert(s@[m2 as int] == '}');
                                            }
                                        }
                                        assert(print_pairs(pairs, k) == print_pair(pairs[k])
                                            + seq![','] + print_pairs(pairs, k + 1));
                                        lemma_obj_element(s@, i as int, pairs, rest, k + 1);
                                        let posn = i + 1 + print_pairs(pairs, 0).len()
                                            - print_pairs(pairs, k + 1).len();
                                        assert(posn == m2 + 1);
                                        lemma_str_at(s@, posn, pairs[k + 1].0);
                                        assert(s@[m2 + 1] == '"');
                                        assert(!is_ws('"'));
                                        assert(pos == m2 + 1);
                                        assert(old_acc + seq![kv] =~= pairs.take(k + 1));
                                    }
                                }
                            } else if ch == '}' {
                                let ghost kv = (key@, json_view(val));
                                out.push((key, val));
                                proof {
                                    acc = acc + seq![kv];
                                    assert forall|jv: JsonV, rest: Seq<char>| #[trigger]
                                        printed_at(s@, i as int, jv, rest) implies Json::Obj(
                                        out,
                                    )@ == jv && q2 + 1 == i + spec_print(jv).len() by {
                                        let pairs = jv->Obj_0;
                                        assert(printed_at(
                                            s@,
                                            i as int,
                                            JsonV::Obj(pairs),
                                            rest,
                                        ));
                                        lemma_obj_element(s@, i as int, pairs, rest, k);
                                        assert(k + 1 == pairs.len()) by {
                                            if k + 1 < pairs.len() {
                                                assert(s@[m2 as int] == ',');
                                            }
                                        }
                                        assert(print_pairs(pairs, k) == print_pair(pairs[k]));
                                        assert(m2 == i + 1 + print_pairs(pairs, 0).len());
                                        assert(old_acc + seq![kv] =~= pairs.take(k + 1));
                                        assert(pairs.take(k + 1) =~= pairs);
                                        assert(obj_view(out@) =~= acc);
                                        assert(Json::Obj(out)@ =~~= jv);
                                    }
                                }
                                return Ok((Json::Obj(out), q2 + 1));
                            } else {
                                proof {
                                    assert forall|jv: JsonV, rest: Seq<char>| #[trigger]
                                        printed_at(s@, i as int, jv, rest) implies false by {
                                        assert(printed_at(
                                            s@,
                                            i as int,
                                            JsonV::Obj(jv->Obj_0),
                                            rest,
                                        ));
                                    }
                                }
                                return Err(DecodeError::Syntax);
                            }
                        },
                    }
                },
            }
        }
    } else {
        proof {
            assert forall|jv: JsonV, rest: Seq<char>| #[trigger]
                printed_at(s@, i as int, jv, rest) implies false by {
                lemma_print_shape(jv);
            }
        }
        Err(DecodeError::Syntax)
    }
}

} // verus!

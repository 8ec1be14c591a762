//! The tagged text form of an integer, `Number(<n>)`, and its lenient reader.

use vstd::prelude::*;
use vstd::string::*;

verus! {

/// The tag that opens an encoded integer.
pub open spec fn tag() -> Seq<char> {
    seq!['N', 'u', 'm', 'b', 'e', 'r', '(']
}

/// The decimal digits, in order of value.
pub open spec fn digit_chars() -> Seq<char> {
    seq!['0', '1', '2', '3', '4', '5', '6', '7', '8', '9']
}

/// The decimal digits of `n`, most significant first, without leading zeros.
pub open spec fn digits(n: nat) -> Seq<char>
    decreases n,
{
    if n < 10 {
        seq![digit_chars()[n as int]]
    } else {
        digits(n / 10).push(digit_chars()[(n % 10) as int])
    }
}

/// The decimal text of `n`, with a leading `-` when it is negative.
pub open spec fn decimal(n: int) -> Seq<char> {
    if n < 0 {
        seq!['-'] + digits((-n) as nat)
    } else {
        digits(n as nat)
    }
}

/// The text that stands for the integer `n`: `Number(<n>)`.
pub open spec fn encoded(n: i32) -> Seq<char> {
    tag() + decimal(n as int) + seq![')']
}

/// The tag stands in `s` at position `i`.
pub open spec fn tag_at(s: Seq<char>, i: int) -> bool {
    0 <= i && i + 7 <= s.len() && s.subrange(i, i + 7) == tag()
}

/// The position after every tag that follows from `i` on, one after another.
pub open spec fn after_tags(s: Seq<char>, i: int) -> int
    decreases s.len() - i,
{
    if tag_at(s, i) {
        after_tags(s, i + 7)
    } else {
        i
    }
}

/// The position before every `)` that closes `s[lo..j]`.
pub open spec fn before_closers(s: Seq<char>, lo: int, j: int) -> int
    decreases j - lo,
{
    if lo < j && s[j - 1] == ')' {
        before_closers(s, lo, j - 1)
    } else {
        j
    }
}

/// `c` is an ASCII decimal digit.
pub open spec fn is_digit(c: char) -> bool {
    '0' <= c && c <= '9'
}

/// The value of the decimal digit `c`.
pub open spec fn digit_value(c: char) -> int {
    c as int - '0' as int
}

/// The number that a run of decimal digits writes.
pub open spec fn digits_value(d: Seq<char>) -> int
    decreases d.len(),
{
    if d.len() == 0 {
        0
    } else {
        digits_value(d.drop_last()) * 10 + digit_value(d.last())
    }
}

/// Every character of `d` is a decimal digit.
pub open spec fn all_digits(d: Seq<char>) -> bool {
    forall|i: int| 0 <= i < d.len() ==> is_digit(#[trigger] d[i])
}

/// Reads `t` as a 32-bit integer: an optional `+` or `-`, then one or more
/// decimal digits, with a value that fits.
pub open spec fn parse_int(t: Seq<char>) -> Option<i32> {
    let neg = t.len() > 0 && t[0] == '-';
    let d = if t.len() > 0 && (t[0] == '-' || t[0] == '+') {
        t.drop_first()
    } else {
        t
    };
    let v = if neg {
        -digits_value(d)
    } else {
        digits_value(d)
    };
    if d.len() > 0 && all_digits(d) && i32::MIN <= v <= i32::MAX {
        Some(v as i32)
    } else {
        None
    }
}

/// The text between the leading tags and the trailing `)`s of `s`.
pub open spec fn core_of(s: Seq<char>) -> Seq<char> {
    let a = after_tags(s, 0);
    s.subrange(a, before_closers(s, a, s.len() as int))
}

/// The integer that `s` stands for, if it can be read.
pub open spec fn read_number(s: Seq<char>) -> Option<i32> {
    parse_int(core_of(s))
}

/// The integer that `s` stands for, or 0 when it cannot be read.
pub open spec fn decoded(s: Seq<char>) -> i32 {
    match read_number(s) {
        Some(n) => n,
        None => 0,
    }
}

/// The characters of `s`, in order.
fn chars_of(s: &String) -> (r: Vec<char>)
    ensures
        r@ == s@,
{
    let t = s.as_str();
    let n = t.unicode_len();
    let mut r: Vec<char> = Vec::new();
    let mut i: usize = 0;
    while i < n
        invariant
            t@ == s@,
            n == s@.len(),
            i <= n,
            r@ == s@.subrange(0, i as int),
        decreases n - i,
    {
        r.push(t.get_char(i));
        i = i + 1;
    }
    assert(r@ =~= s@);
    r
}

/// Whether the tag stands in `v` at position `i`.
fn has_tag_at(v: &Vec<char>, i: usize) -> (r: bool)
    ensures
        r == tag_at(v@, i as int),
{
    if i > v.len() || v.len() - i < 7 {
        return false;
    }
    let ok = v[i] == 'N' && v[i + 1] == 'u' && v[i + 2] == 'm' && v[i + 3] == 'b' && v[i + 4]
        == 'e' && v[i + 5] == 'r' && v[i + 6] == '(';
    assert(ok == (v@.subrange(i as int, i + 7) =~= tag()));
    ok
}

/// Bound above every value that fits in an `i32`, with room to spare.
const CAP: i64 = 2147483649;

proof fn lemma_digits_value_nonneg(d: Seq<char>)
    requires
        all_digits(d),
    ensures
        digits_value(d) >= 0,
    decreases d.len(),
{
    if d.len() > 0 {
        assert(is_digit(d[d.len() - 1]));
        lemma_digits_value_nonneg(d.drop_last());
    }
}

/// Reads the digits of `v[lo..hi]`, capping the value at `CAP`.
fn read_digits(v: &Vec<char>, lo: usize, hi: usize) -> (r: Option<i64>)
    requires
        lo <= hi <= v@.len(),
    ensures
        ({
            let d = v@.subrange(lo as int, hi as int);
            match r {
                Some(x) => all_digits(d) && (x == if digits_value(d) < CAP {
                    digits_value(d)
                } else {
                    CAP as int
                }),
                None => !all_digits(d),
            }
        }),
{
    let ghost d = v@.subrange(lo as int, hi as int);
    let mut acc: i64 = 0;
    let mut i: usize = lo;
    while i < hi
        invariant
            lo <= i <= hi <= v@.len(),
            d == v@.subrange(lo as int, hi as int),
            all_digits(d.subrange(0, i - lo)),
            0 <= acc <= CAP,
            acc == if digits_value(d.subrange(0, i - lo)) < CAP {
                digits_value(d.subrange(0, i - lo))
            } else {
                CAP as int
            },
        decreases hi - i,
    {
        let c = v[i];
        if !('0' <= c && c <= '9') {
            assert(d[i - lo] == c);
            return None;
        }
        let ghost p = d.subrange(0, i - lo);
        let ghost q = d.subrange(0, i + 1 - lo);
        assert(q.drop_last() =~= p);
        assert(q.last() == c);
        assert(all_digits(q));
        proof {
            lemma_digits_value_nonneg(p);
        }
        let dv = (c as u32 - '0' as u32) as i64;
        let next = acc * 10 + dv;
        assert(digits_value(q) == digits_value(p) * 10 + dv);
        proof {
            if digits_value(p) >= CAP {
                assert(digits_value(p) * 10 >= CAP) by (nonlinear_arith)
                    requires
                        digits_value(p) >= CAP,
                ;
            }
        }
        acc = if next < CAP {
            next
        } else {
            CAP
        };
        i = i + 1;
    }
    assert(d.subrange(0, hi - lo) =~= d);
    Some(acc)
}

/// Reads `v[lo..hi]` as a 32-bit integer.
fn parse_range(v: &Vec<char>, lo: usize, hi: usize) -> (r: Option<i32>)
    requires
        lo <= hi <= v@.len(),
    ensures
        r == parse_int(v@.subrange(lo as int, hi as int)),
{
    let ghost t = v@.subrange(lo as int, hi as int);
    let neg = lo < hi && v[lo] == '-';
    let start = if lo < hi && (v[lo] == '-' || v[lo] == '+') {
        lo + 1
    } else {
        lo
    };
    let ghost d = v@.subrange(start as int, hi as int);
    assert(d =~= (if t.len() > 0 && (t[0] == '-' || t[0] == '+') {
        t.drop_first()
    } else {
        t
    }));
    if start == hi {
        return None;
    }
    match read_digits(v, start, hi) {
        None => None,
        Some(x) => {
            proof {
                lemma_digits_value_nonneg(d);
            }
            if neg {
                if x <= 2147483648 {
                    Some((-x) as i32)
                } else {
                    None
                }
            } else {
                if x <= 2147483647 {
                    Some(x as i32)
                } else {
                    None
                }
            }
        },
    }
}

/// Reads the integer that `s` stands for: every leading `Number(` and every
/// trailing `)` is taken off, and what is left is read as an `i32`.
pub fn read_number_text(s: &String) -> (r: Option<i32>)
    ensures
        r == read_number(s@),
{
    let v = chars_of(s);
    let n = v.len();
    let mut a: usize = 0;
    while has_tag_at(&v, a)
        invariant
            v@ == s@,
            n == v@.len(),
            a <= n,
            after_tags(v@, 0) == after_tags(v@, a as int),
        decreases n - a,
    {
        a = a + 7;
    }
    let mut b: usize = n;
    while a < b && v[b - 1] == ')'
        invariant
            v@ == s@,
            n == v@.len(),
            a <= b <= n,
            a == after_tags(v@, 0),
            before_closers(v@, a as int, n as int) == before_closers(v@, a as int, b as int),
        decreases b,
    {
        b = b - 1;
    }
    parse_range(&v, a, b)
}

/// The integer that `s` stands for, with 0 for text that cannot be read.
pub fn decode_number(s: &String) -> (r: i32)
    ensures
        r == decoded(s@),
{
    match read_number_text(s) {
        Some(n) => n,
        None => 0,
    }
}

/// The one-character text of the digit `d`.
fn digit_text(d: u32) -> (r: &'static str)
    requires
        d < 10,
    ensures
        r@ == seq![digit_chars()[d as int]],
{
    proof {
        reveal_strlit("0");
        reveal_strlit("1");
        reveal_strlit("2");
        reveal_strlit("3");
        reveal_strlit("4");
        reveal_strlit("5");
        reveal_strlit("6");
        reveal_strlit("7");
        reveal_strlit("8");
        reveal_strlit("9");
    }
    let r = match d {
        0 => "0",
        1 => "1",
        2 => "2",
        3 => "3",
        4 => "4",
        5 => "5",
        6 => "6",
        7 => "7",
        8 => "8",
        _ => "9",
    };
    assert(r@ =~= seq![digit_chars()[d as int]]);
    r
}

/// Appends the decimal digits of `n` to `out`.
fn append_digits(out: &mut String, n: u32)
    ensures
        final(out)@ == old(out)@ + digits(n as nat),
    decreases n,
{
    if n >= 10 {
        append_digits(out, n / 10);
    }
    let t = digit_text(n % 10);
    out.append(t);
    proof {
        if n >= 10 {
            assert(digits(n as nat) == digits((n / 10) as nat).push(digit_chars()[(n % 10) as int]));
        }
    }
    assert(out@ =~= old(out)@ + digits(n as nat));
}

/// The text `Number(<n>)` that stands for `n`.
pub fn encode_number(n: i32) -> (r: String)
    ensures
        r@ == encoded(n),
{
    let mut out = String::new();
    out.append("Number(");
    proof {
        reveal_strlit("Number(");
        reveal_strlit("-");
        reveal_strlit(")");
    }
    assert(out@ =~= tag());
    if n < 0 {
        out.append("-");
        let m: u32 = if n == i32::MIN {
            2147483648u32
        } else {
            (-n) as u32
        };
        append_digits(&mut out, m);
        assert(out@ =~= tag() + decimal(n as int));
    } else {
        append_digits(&mut out, n as u32);
        assert(out@ =~= tag() + decimal(n as int));
    }
    out.append(")");
    assert(out@ =~= encoded(n));
    out
}

proof fn lemma_digits(m: nat)
    ensures
        digits(m).len() > 0,
        all_digits(digits(m)),
        digits_value(digits(m)) == m,
    decreases m,
{
    let dc = digit_chars();
    assert(forall|k: int| 0 <= k < 10 ==> is_digit(#[trigger] dc[k]) && digit_value(dc[k]) == k);
    if m >= 10 {
        lemma_digits(m / 10);
        let d = digits(m);
        assert(d.drop_last() =~= digits(m / 10));
        assert(d.last() == dc[(m % 10) as int]);
        assert(digits_value(d) == digits_value(digits(m / 10)) * 10 + (m % 10));
        assert((m / 10) * 10 + m % 10 == m) by (nonlinear_arith);
        assert(all_digits(d)) by {
            assert forall|i: int| 0 <= i < d.len() implies is_digit(#[trigger] d[i]) by {
                if i < d.len() - 1 {
                    assert(d[i] == digits(m / 10)[i]);
                }
            }
        }
    } else {
        let d = digits(m);
        assert(d.drop_last() =~= Seq::<char>::empty());
        assert(digits_value(d) == digits_value(d.drop_last()) * 10 + digit_value(dc[m as int]));
    }
}

/// Reading back the text of an integer gives that integer.
pub proof fn lemma_read_encoded(n: i32)
    ensures
        read_number(encoded(n)) == Some(n),
        decoded(encoded(n)) == n,
{
    let s = encoded(n);
    let dec = decimal(n as int);
    let m: nat = if n < 0 { (-n) as nat } else { n as nat };
    lemma_digits(m);
    let dg = digits(m);
    assert(dec.len() > 0);
    assert(is_digit(dec[dec.len() - 1]));
    assert(s.len() == 8 + dec.len());
    assert(s.subrange(0, 7) =~= tag());
    assert(s[7] == dec[0]);
    assert(s[7] != 'N');
    assert(!tag_at(s, 7));
    assert(after_tags(s, 7) == 7);
    assert(after_tags(s, 0) == 7);
    let e = s.len() as int;
    assert(s[e - 1] == ')');
    assert(s[e - 2] == dec[dec.len() - 1]);
    assert(before_closers(s, 7, e - 1) == e - 1);
    assert(before_closers(s, 7, e) == e - 1);
    assert(core_of(s) =~= dec);
    if n < 0 {
        assert(dec.drop_first() =~= dg);
    } else {
        assert(dec == dg);
        assert(is_digit(dg[0]));
    }
}

} // verus!

//! The number syntaxes that the device lines and the monitor's edit field
//! are read with: the documented grammar of `f32::from_str`, and unsigned
//! byte literals as `u8::from_str` reads them.

use vstd::prelude::*;
use crate::text::{decimal, digit_char};

verus! {

/// An ASCII decimal digit.
pub open spec fn is_digit(c: char) -> bool {
    '0' <= c && c <= '9'
}

/// `c` lowered if it is an ASCII capital letter.
pub open spec fn ascii_lower(c: char) -> char {
    if 'A' <= c && c <= 'Z' {
        ((c as u32) + 32) as char
    } else {
        c
    }
}

/// `s` with its ASCII capitals lowered.
pub open spec fn lowered(s: Seq<char>) -> Seq<char> {
    Seq::new(s.len(), |k: int| ascii_lower(s[k]))
}

/// The number of leading ASCII digits of `s`.
pub open spec fn leading_digits(s: Seq<char>) -> nat
    decreases s.len(),
{
    if s.len() > 0 && is_digit(s[0]) {
        1 + leading_digits(s.drop_first())
    } else {
        0
    }
}

/// `s` without one leading `+` or `-`, if it has one.
pub open spec fn without_sign(s: Seq<char>) -> Seq<char> {
    if s.len() > 0 && (s[0] == '+' || s[0] == '-') {
        s.drop_first()
    } else {
        s
    }
}

/// `Exp ::= 'e' Sign? Digit+`, with `e` in either case.
pub open spec fn is_exponent(s: Seq<char>) -> bool {
    s.len() > 0 && ascii_lower(s[0]) == 'e' && {
        let d = without_sign(s.drop_first());
        d.len() > 0 && leading_digits(d) == d.len()
    }
}

/// `Number ::= (Digit+ | Digit+ '.' Digit* | Digit* '.' Digit+) Exp?`.
pub open spec fn is_number(s: Seq<char>) -> bool {
    let a = leading_digits(s);
    let rest = s.skip(a as int);
    if rest.len() > 0 && rest[0] == '.' {
        let frac = rest.drop_first();
        let b = leading_digits(frac);
        let tail = frac.skip(b as int);
        a + b >= 1 && (tail.len() == 0 || is_exponent(tail))
    } else {
        a >= 1 && (rest.len() == 0 || is_exponent(rest))
    }
}

/// `Float ::= Sign? ('inf' | 'infinity' | 'nan' | Number)`, read without
/// regard to ASCII case: the strings that `f32::from_str` documents as
/// accepted.
pub open spec fn is_float_literal(s: Seq<char>) -> bool {
    let body = without_sign(s);
    let low = lowered(body);
    ||| low == seq!['i', 'n', 'f']
    ||| low == seq!['i', 'n', 'f', 'i', 'n', 'i', 't', 'y']
    ||| low == seq!['n', 'a', 'n']
    ||| is_number(body)
}

fn lower_char(c: char) -> (r: char)
    ensures
        r == ascii_lower(c),
{
    if 'A' <= c && c <= 'Z' {
        ((c as u32) + 32) as u8 as char
    } else {
        c
    }
}

proof fn lemma_leading_digits_step(s: Seq<char>, i: int)
    requires
        0 <= i < s.len(),
        is_digit(s[i]),
    ensures
        leading_digits(s.skip(i)) == 1 + leading_digits(s.skip(i + 1)),
{
    assert(s.skip(i).drop_first() =~= s.skip(i + 1));
}

/// The index of the first non-digit of `v` at or after `from`.
fn skip_digits(v: &Vec<char>, from: usize) -> (end: usize)
    requires
        from <= v.len(),
    ensures
        from <= end <= v.len(),
        end - from == leading_digits(v@.skip(from as int)),
{
    let mut i = from;
    while i < v.len() && '0' <= v[i] && v[i] <= '9'
        invariant
            from <= i <= v.len(),
            leading_digits(v@.skip(from as int)) == (i - from) + leading_digits(v@.skip(i as int)),
        decreases v.len() - i,
    {
        proof {
            lemma_leading_digits_step(v@, i as int);
        }
        i = i + 1;
    }
    proof {
        if i < v.len() {
            assert(v@.skip(i as int)[0] == v@[i as int]);
        }
    }
    i
}

fn matches_word(v: &Vec<char>, from: usize, word: &[char]) -> (r: bool)
    requires
        from <= v.len(),
    ensures
        r == (lowered(v@.skip(from as int)) == word@),
{
    let n = v.len() - from;
    if n != word.len() {
        proof {
            if lowered(v@.skip(from as int)) == word@ {
                assert(lowered(v@.skip(from as int)).len() == n);
            }
        }
        return false;
    }
    let mut k: usize = 0;
    while k < n
        invariant
            n == v.len() - from,
            n == word@.len(),
            k <= n,
            forall|j: int| 0 <= j < k ==> ascii_lower(#[trigger] v@[from + j]) == word@[j],
        decreases n - k,
    {
        if lower_char(v[from + k]) != word[k] {
            proof {
                assert(lowered(v@.skip(from as int))[k as int] != word@[k as int]);
            }
            return false;
        }
        k = k + 1;
    }
    assert forall|j: int| 0 <= j < n implies #[trigger] lowered(v@.skip(from as int))[j] == word@[j] by {
        assert(v@.skip(from as int)[j] == v@[from + j]);
    }
    assert(lowered(v@.skip(from as int)) =~= word@);
    true
}

fn exponent_at(v: &Vec<char>, from: usize) -> (r: bool)
    requires
        from <= v.len(),
    ensures
        r == is_exponent(v@.skip(from as int)),
{
    let ghost s = v@.skip(from as int);
    if from == v.len() {
        return false;
    }
    if lower_char(v[from]) != 'e' {
        return false;
    }
    let mut d = from + 1;
    proof {
        assert(s.drop_first() =~= v@.skip(from + 1));
    }
    if d < v.len() && (v[d] == '+' || v[d] == '-') {
        d = d + 1;
        proof {
            assert(v@.skip(from + 1).drop_first() =~= v@.skip(from + 2));
        }
    }
    assert(without_sign(s.drop_first()) =~= v@.skip(d as int));
    if d == v.len() {
        return false;
    }
    let end = skip_digits(v, d);
    end == v.len()
}

/// Whether `v` is a float literal of the documented grammar.
pub fn float_literal_chars(v: &Vec<char>) -> (r: bool)
    ensures
        r == is_float_literal(v@),
{
    let mut start: usize = 0;
    if v.len() > 0 && (v[0] == '+' || v[0] == '-') {
        start = 1;
    }
    let ghost body = without_sign(v@);
    assert(body =~= v@.skip(start as int));
    if matches_word(v, start, &['i', 'n', 'f']) || matches_word(
        v,
        start,
        &['i', 'n', 'f', 'i', 'n', 'i', 't', 'y'],
    ) || matches_word(v, start, &['n', 'a', 'n']) {
        return true;
    }
    let a_end = skip_digits(v, start);
    proof {
        assert(body.skip((a_end - start) as int) =~= v@.skip(a_end as int));
    }
    if a_end < v.len() && v[a_end] == '.' {
        let b_end = skip_digits(v, a_end + 1);
        proof {
            assert(body.skip((a_end - start) as int).drop_first() =~= v@.skip(a_end + 1));
            assert(v@.skip(a_end + 1).skip((b_end - a_end - 1) as int) =~= v@.skip(b_end as int));
        }
        if a_end - start + (b_end - a_end - 1) == 0 {
            return false;
        }
        b_end == v.len() || exponent_at(v, b_end)
    } else {
        if a_end == start {
            return false;
        }
        a_end == v.len() || exponent_at(v, a_end)
    }
}

/// The value of a string of ASCII digits.
pub open spec fn digits_value(s: Seq<char>) -> nat
    decreases s.len(),
{
    if s.len() == 0 {
        0
    } else {
        digits_value(s.drop_last()) * 10 + ((s.last() as nat) - 48) as nat
    }
}

/// `s` without one leading `+`, if it has one.
pub open spec fn without_plus(s: Seq<char>) -> Seq<char> {
    if s.len() > 0 && s[0] == '+' {
        s.drop_first()
    } else {
        s
    }
}

/// What `u8::from_str` reads from `s`: an optional `+` and then one or
/// more ASCII digits whose value is at most 255; anything else fails.
pub open spec fn u8_literal(s: Seq<char>) -> Option<u8> {
    let d = without_plus(s);
    if d.len() > 0 && (forall|k: int| 0 <= k < d.len() ==> is_digit(#[trigger] d[k]))
        && digits_value(d) <= 255 {
        Some(digits_value(d) as u8)
    } else {
        None
    }
}

/// Reads `v` as `u8::from_str` does.
pub fn parse_u8_chars(v: &Vec<char>) -> (r: Option<u8>)
    ensures
        r == u8_literal(v@),
{
    let mut start: usize = 0;
    if v.len() > 0 && v[0] == '+' {
        start = 1;
    }
    let ghost d = without_plus(v@);
    assert(d =~= v@.skip(start as int));
    if start == v.len() {
        return None;
    }
    let mut value: u32 = 0;
    let mut i = start;
    assert(d.take(0) =~= Seq::<char>::empty());
    while i < v.len()
        invariant
            start <= i <= v.len(),
            d == v@.skip(start as int),
            d == without_plus(v@),
            forall|k: int| 0 <= k < i - start ==> is_digit(#[trigger] d[k]),
            value <= 256,
            value == (if digits_value(d.take(i - start)) <= 255 {
                digits_value(d.take(i - start))
            } else {
                256
            }),
        decreases v.len() - i,
    {
        let c = v[i];
        if !('0' <= c && c <= '9') {
            proof {
                let k = (i - start) as int;
                assert(d[k] == c);
                assert(!is_digit(d[k]));
                assert(!(forall|k2: int| 0 <= k2 < d.len() ==> is_digit(#[trigger] d[k2])));
            }
            return None;
        }
        proof {
            assert(d.take(i - start + 1).drop_last() =~= d.take(i - start));
            assert(d.take(i - start + 1).last() == c);
        }
        let digit = (c as u32) - 48;
        let next = value * 10 + digit;
        value = if next > 255 { 256 } else { next };
        i = i + 1;
    }
    assert(d.take(i - start) =~= d);
    if value > 255 {
        None
    } else {
        Some(value as u8)
    }
}

/// A float literal written with ASCII digits, dots and signs only: how the
/// board writes its numbers.
pub open spec fn plain_number(s: Seq<char>) -> bool {
    &&& is_float_literal(s)
    &&& forall|k: int|
        0 <= k < s.len() ==> is_digit(#[trigger] s[k]) || s[k] == '.' || s[k] == '+' || s[k]
            == '-'
}

proof fn lemma_leading_digits_shape(s: Seq<char>)
    ensures
        leading_digits(s) <= s.len(),
        forall|k: int| 0 <= k < leading_digits(s) ==> is_digit(#[trigger] s[k]),
        leading_digits(s) < s.len() ==> !is_digit(s[leading_digits(s) as int]),
    decreases s.len(),
{
    if s.len() > 0 && is_digit(s[0]) {
        let t = s.drop_first();
        lemma_leading_digits_shape(t);
        assert forall|k: int| 0 <= k < leading_digits(s) implies is_digit(#[trigger] s[k]) by {
            if k > 0 {
                assert(s[k] == t[k - 1]);
            }
        }
        if leading_digits(s) < s.len() {
            assert(s[leading_digits(s) as int] == t[leading_digits(t) as int]);
        }
    }
}

/// A plain number is not empty and has no two dots in a row; its last
/// character is not a sign.
pub proof fn lemma_plain_number_shape(s: Seq<char>)
    requires
        plain_number(s),
    ensures
        s.len() > 0,
        forall|k: int| 0 <= k < s.len() - 1 ==> !(s[k] == '.' && #[trigger] s[k + 1] == '.'),
        s.last() != '+' && s.last() != '-',
{
    let body = without_sign(s);
    let off: int = if s.len() > 0 && (s[0] == '+' || s[0] == '-') { 1 } else { 0 };
    assert(body =~= s.skip(off));
    let low = lowered(body);
    if low == seq!['i', 'n', 'f'] || low == seq!['i', 'n', 'f', 'i', 'n', 'i', 't', 'y'] || low
        == seq!['n', 'a', 'n'] {
        assert(low.len() == body.len());
        assert(body.len() > 0);
        assert(low[0] == ascii_lower(body[0]));
        assert(s[off] == body[0]);
        assert(is_digit(s[off]) || s[off] == '.' || s[off] == '+' || s[off] == '-');
        assert(low[0] == 'i' || low[0] == 'n');
        assert(false);
    }
    assert(is_number(body));
    lemma_leading_digits_shape(body);
    let a = leading_digits(body);
    let rest = body.skip(a as int);
    if rest.len() > 0 && rest[0] == '.' {
        let frac = rest.drop_first();
        lemma_leading_digits_shape(frac);
        let b = leading_digits(frac);
        let tail = frac.skip(b as int);
        if tail.len() > 0 {
            assert(is_exponent(tail));
            assert(tail[0] == s[off + a + 1 + b]);
            assert(false);
        }
        assert(body.len() == a + 1 + b);
        assert forall|k: int| 0 <= k < s.len() - 1 implies !(s[k] == '.' && #[trigger] s[k + 1]
            == '.') by {
            if s[k] == '.' && s[k + 1] == '.' {
                if k < off {
                    assert(s[k] == '+' || s[k] == '-');
                } else if k - off < a {
                    assert(is_digit(body[k - off]));
                } else if k - off == a {
                    assert(s[k + 1] == frac[0]);
                    assert(is_digit(frac[0]));
                } else {
                    assert(s[k] == frac[k - off - a - 1]);
                    assert(is_digit(frac[k - off - a - 1]));
                }
            }
        }
        if b > 0 {
            assert(s.last() == frac[b - 1]);
        } else {
            assert(s.last() == rest[0]);
        }
    } else {
        if rest.len() > 0 {
            assert(is_exponent(rest));
            assert(rest[0] == s[off + a]);
            assert(false);
        }
        assert(body.len() == a);
        assert forall|k: int| 0 <= k < s.len() - 1 implies !(s[k] == '.' && #[trigger] s[k + 1]
            == '.') by {
            if k >= off {
                assert(s[k] == body[k - off]);
                assert(is_digit(body[k - off]));
            }
        }
        assert(s.last() == body[a - 1]);
    }
}

/// The characters a float literal is written with: ASCII digits and
/// letters, dots and signs.
pub open spec fn float_char(c: char) -> bool {
    is_digit(c) || ('a' <= c && c <= 'z') || ('A' <= c && c <= 'Z') || c == '.' || c == '+' || c
        == '-'
}

proof fn lemma_exponent_chars(t: Seq<char>)
    requires
        is_exponent(t),
    ensures
        forall|k: int| 0 <= k < t.len() ==> float_char(#[trigger] t[k]),
{
    let u = t.drop_first();
    let d = without_sign(u);
    let off: int = if u.len() > 0 && (u[0] == '+' || u[0] == '-') { 1 } else { 0 };
    assert(d =~= u.skip(off));
    lemma_leading_digits_shape(d);
    assert forall|k: int| 0 <= k < t.len() implies float_char(#[trigger] t[k]) by {
        if k == 0 {
            assert(ascii_lower(t[0]) == 'e');
        } else if k - 1 < off {
            assert(t[k] == u[0]);
        } else {
            assert(t[k] == d[k - 1 - off]);
            assert(is_digit(d[k - 1 - off]));
        }
    }
}

/// A float literal is not empty and is written with ASCII digits and
/// letters, dots and signs only: no white space, no `=`.
pub proof fn lemma_float_literal_chars(s: Seq<char>)
    requires
        is_float_literal(s),
    ensures
        s.len() > 0,
        forall|k: int| 0 <= k < s.len() ==> float_char(#[trigger] s[k]),
{
    let body = without_sign(s);
    let off: int = if s.len() > 0 && (s[0] == '+' || s[0] == '-') { 1 } else { 0 };
    assert(body =~= s.skip(off));
    let low = lowered(body);
    if low == seq!['i', 'n', 'f'] || low == seq!['i', 'n', 'f', 'i', 'n', 'i', 't', 'y'] || low
        == seq!['n', 'a', 'n'] {
        assert(low.len() == body.len());
        assert forall|k: int| 0 <= k < s.len() implies float_char(#[trigger] s[k]) by {
            if k >= off {
                assert(s[k] == body[k - off]);
                assert(low[k - off] == ascii_lower(body[k - off]));
                assert('a' <= low[k - off] && low[k - off] <= 'z');
            }
        }
    } else {
        assert(is_number(body));
        lemma_leading_digits_shape(body);
        let a = leading_digits(body);
        let rest = body.skip(a as int);
        if rest.len() > 0 && rest[0] == '.' {
            let frac = rest.drop_first();
            lemma_leading_digits_shape(frac);
            let b = leading_digits(frac);
            let tail = frac.skip(b as int);
            if tail.len() > 0 {
                lemma_exponent_chars(tail);
            }
            assert forall|k: int| 0 <= k < s.len() implies float_char(#[trigger] s[k]) by {
                if k >= off {
                    let j = k - off;
                    assert(s[k] == body[j]);
                    if j < a {
                        assert(is_digit(body[j]));
                    } else if j == a {
                        assert(body[j] == rest[0]);
                    } else if j < a + 1 + b {
                        assert(body[j] == frac[j - a - 1]);
                        assert(is_digit(frac[j - a - 1]));
                    } else {
                        assert(body[j] == tail[j - a - 1 - b]);
                    }
                }
            }
        } else {
            if rest.len() > 0 {
                lemma_exponent_chars(rest);
            }
            assert forall|k: int| 0 <= k < s.len() implies float_char(#[trigger] s[k]) by {
                if k >= off {
                    let j = k - off;
                    assert(s[k] == body[j]);
                    if j < a {
                        assert(is_digit(body[j]));
                    } else {
                        assert(body[j] == rest[j - a]);
                    }
                }
            }
        }
    }
}

/// The decimal rendering of `n` is a string of digits with no leading zero
/// (but for zero itself) whose value is `n`: reading it back gives `n`.
pub proof fn lemma_decimal_reads_back(n: nat)
    ensures
        decimal(n).len() > 0,
        forall|k: int| 0 <= k < decimal(n).len() ==> is_digit(#[trigger] decimal(n)[k]),
        decimal(n)[0] == '0' ==> n == 0,
        digits_value(decimal(n)) == n,
    decreases n,
{
    if n >= 10 {
        lemma_decimal_reads_back(n / 10);
        let d = decimal(n / 10);
        assert(decimal(n) == d.push(digit_char(n % 10)));
        assert(decimal(n).drop_last() =~= d);
        assert forall|k: int| 0 <= k < decimal(n).len() implies is_digit(#[trigger] decimal(n)[k]) by {
            if k < d.len() {
                assert(decimal(n)[k] == d[k]);
            }
        }
        assert(decimal(n)[0] == d[0]);
        assert((digit_char(n % 10) as nat) == 48 + n % 10);
        assert(decimal(n).last() == digit_char(n % 10));
        assert(n == (n / 10) * 10 + n % 10);
        assert(((decimal(n).last() as nat) - 48) as nat == n % 10);
        assert(digits_value(decimal(n)) == digits_value(d) * 10 + n % 10);
    } else {
        assert(decimal(n).drop_last() =~= Seq::<char>::empty());
        assert((digit_char(n) as nat) == 48 + n);
        assert(decimal(n).last() == digit_char(n));
        assert(((decimal(n).last() as nat) - 48) as nat == n);
        assert(digits_value(decimal(n)) == digits_value(decimal(n).drop_last()) * 10 + n);
    }
}

/// Whether `s` is made of ASCII digits only.
pub open spec fn all_digits(s: Seq<char>) -> bool {
    forall|k: int| 0 <= k < s.len() ==> is_digit(#[trigger] s[k])
}

proof fn lemma_leading_digits_concat(a: Seq<char>, t: Seq<char>)
    requires
        all_digits(a),
    ensures
        leading_digits(a + t) == a.len() + leading_digits(t),
    decreases a.len(),
{
    if a.len() == 0 {
        assert(a + t =~= t);
    } else {
        let r = a.drop_first();
        assert(all_digits(r)) by {
            assert forall|k: int| 0 <= k < r.len() implies is_digit(#[trigger] r[k]) by {
                assert(r[k] == a[k + 1]);
            }
        }
        lemma_leading_digits_concat(r, t);
        assert((a + t)[0] == a[0]);
        assert((a + t).drop_first() =~= r + t);
    }
}

/// Decimal numbers written with digits are float literals: digits alone,
/// digits with a fractional part (`0.5`, `20.`), a fractional part alone
/// (`.5`), each also with a leading `-` or `+`.
pub proof fn lemma_decimals_are_float_literals(a: Seq<char>, b: Seq<char>)
    requires
        a.len() >= 1,
        all_digits(a),
        all_digits(b),
    ensures
        is_float_literal(a),
        is_float_literal(a + seq!['.'] + b),
        is_float_literal(seq!['.'] + a),
        is_float_literal(seq!['-'] + a),
        is_float_literal(seq!['+'] + a),
        is_float_literal(seq!['-'] + a + seq!['.'] + b),
        is_float_literal(seq!['+'] + a + seq!['.'] + b),
{
    let empty = Seq::<char>::empty();
    // digits alone
    lemma_leading_digits_concat(a, empty);
    assert(a + empty =~= a);
    assert(a.skip(a.len() as int) =~= empty);
    assert(is_number(a));
    assert(without_sign(a) == a);
    // digits, a dot, digits
    let x = a + seq!['.'] + b;
    let dot_b = seq!['.'] + b;
    assert(x =~= a + dot_b);
    lemma_leading_digits_concat(a, dot_b);
    assert(leading_digits(dot_b) == 0);
    assert(x.skip(a.len() as int) =~= dot_b);
    assert(dot_b.drop_first() =~= b);
    lemma_leading_digits_concat(b, empty);
    assert(b + empty =~= b);
    assert(b.skip(b.len() as int) =~= empty);
    assert(is_number(x));
    assert(x[0] == a[0]);
    assert(without_sign(x) == x);
    // a dot, digits
    let y = seq!['.'] + a;
    assert(leading_digits(y) == 0);
    assert(y.skip(0) =~= y);
    assert(y.drop_first() =~= a);
    assert(is_number(y));
    assert(without_sign(y) == y);
    // signs
    assert((seq!['-'] + a).drop_first() =~= a);
    assert((seq!['+'] + a).drop_first() =~= a);
    assert((seq!['-'] + a + seq!['.'] + b).drop_first() =~= x);
    assert((seq!['+'] + a + seq!['.'] + b).drop_first() =~= x);
}

} // verus!

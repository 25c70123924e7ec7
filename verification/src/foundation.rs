//! `NSString` bridging coercions read by `UserDefaults`: `boolValue` and
//! `integerValue` of a stored string, as Apple documents them.
use vstd::prelude::*;
use crate::text::chars_of;

verus! {

/// Whether `c` has the Unicode `White_Space` property (what
/// `char::is_whitespace` tests).
pub open spec fn white_space(c: char) -> bool {
    let u = c as u32;
    (9 <= u <= 13) || u == 32 || u == 0x85 || u == 0xA0 || u == 0x1680 || (0x2000 <= u <= 0x200A) || u
        == 0x2028 || u == 0x2029 || u == 0x202F || u == 0x205F || u == 0x3000
}

/// Whether `c` is white space (see [`white_space`]).
pub fn is_white_space(c: char) -> (r: bool)
    ensures
        r == white_space(c),
{
    let u = c as u32;
    (9 <= u && u <= 13) || u == 32 || u == 0x85 || u == 0xA0 || u == 0x1680 || (0x2000 <= u && u <= 0x200A)
        || u == 0x2028 || u == 0x2029 || u == 0x202F || u == 0x205F || u == 0x3000
}

/// The number of leading white-space characters of `s`.
pub open spec fn white_prefix(s: Seq<char>) -> nat
    decreases s.len(),
{
    if s.len() > 0 && white_space(s[0]) {
        1 + white_prefix(s.drop_first())
    } else {
        0
    }
}

/// `s` without its leading white space (`str::trim_start`).
pub open spec fn trimmed(s: Seq<char>) -> Seq<char> {
    s.skip(white_prefix(s) as int)
}

/// Whether `c` is an ASCII decimal digit.
pub open spec fn ascii_digit(c: char) -> bool {
    '0' <= c <= '9'
}

/// The number of leading ASCII digits of `s`.
pub open spec fn digit_prefix(s: Seq<char>) -> nat
    decreases s.len(),
{
    if s.len() > 0 && ascii_digit(s[0]) {
        1 + digit_prefix(s.drop_first())
    } else {
        0
    }
}

/// The value of the decimal digits `d`.
pub open spec fn digits_value(d: Seq<char>) -> int
    decreases d.len(),
{
    if d.len() == 0 {
        0
    } else {
        digits_value(d.drop_last()) * 10 + (d.last() as int - '0' as int)
    }
}

/// `NSString.boolValue`: after leading white space, the string starts with
/// `Y`, `y`, `T`, `t` or a digit `1` to `9`.
pub open spec fn ns_bool(s: Seq<char>) -> bool {
    let t = trimmed(s);
    t.len() > 0 && (t[0] == 'Y' || t[0] == 'y' || t[0] == 'T' || t[0] == 't' || ('1' <= t[0] <= '9'))
}

/// Leading white space adds nothing to the white-space prefix count of
/// what follows it.
proof fn lemma_white_prefix_append(w: Seq<char>, x: Seq<char>)
    requires
        forall|i: int| 0 <= i < w.len() ==> white_space(w[i]),
    ensures
        white_prefix(w + x) == w.len() + white_prefix(x),
        trimmed(w + x) == trimmed(x),
    decreases w.len(),
{
    if w.len() > 0 {
        let w1 = w.drop_first();
        assert forall|i: int| 0 <= i < w1.len() implies white_space(w1[i]) by {
            assert(w1[i] == w[i + 1]);
        }
        lemma_white_prefix_append(w1, x);
        assert((w + x)[0] == w[0]);
        assert((w + x).drop_first() =~= w1 + x);
    } else {
        assert(w + x =~= x);
    }
    let p = white_prefix(x) as int;
    lemma_white_prefix_bound(x);
    assert forall|i: int| 0 <= i < x.len() - p implies (w + x).skip(w.len() + p)[i] == x.skip(p)[i] by {
        assert((w + x)[w.len() + p + i] == x[p + i]);
    }
    assert((w + x).skip(white_prefix(w + x) as int) =~= x.skip(white_prefix(x) as int));
}

/// The white-space prefix lies within the text.
proof fn lemma_white_prefix_bound(x: Seq<char>)
    ensures
        white_prefix(x) <= x.len(),
    decreases x.len(),
{
    if x.len() > 0 {
        lemma_white_prefix_bound(x.drop_first());
    }
}

/// `boolValue` ignores leading white space, and reads nothing but the first
/// character after it: the value is true exactly when that character is a
/// `T`, `t`, `Y`, `y` or a digit `1` to `9`, whatever follows.
pub proof fn lemma_bool_value_reads_the_first_character(w: Seq<char>, c: char, rest: Seq<char>)
    requires
        forall|i: int| 0 <= i < w.len() ==> white_space(w[i]),
        !white_space(c),
    ensures
        ns_bool(w + seq![c] + rest) == (c == 'T' || c == 't' || c == 'Y' || c == 'y' || ('1' <= c
            && c <= '9')),
        ns_bool(w + seq![c] + rest) == ns_bool(seq![c]),
{
    let x = seq![c] + rest;
    assert(w + seq![c] + rest =~= w + x);
    lemma_white_prefix_append(w, x);
    assert(white_prefix(x) == 0);
    assert(trimmed(x) =~= x);
    assert(white_prefix(seq![c]) == 0);
    assert(trimmed(seq![c]) =~= seq![c]);
}

/// `boolValue` reads a leading letter in either case: `T` as `t` and `Y`
/// as `y`, both true, after any white space and whatever follows.
pub proof fn lemma_bool_value_ignores_letter_case(w: Seq<char>, rest: Seq<char>)
    requires
        forall|i: int| 0 <= i < w.len() ==> white_space(w[i]),
    ensures
        ns_bool(w + seq!['T'] + rest) == ns_bool(w + seq!['t'] + rest),
        ns_bool(w + seq!['Y'] + rest) == ns_bool(w + seq!['y'] + rest),
        ns_bool(w + seq!['T'] + rest),
        ns_bool(w + seq!['Y'] + rest),
{
    lemma_bool_value_reads_the_first_character(w, 'T', rest);
    lemma_bool_value_reads_the_first_character(w, 't', rest);
    lemma_bool_value_reads_the_first_character(w, 'Y', rest);
    lemma_bool_value_reads_the_first_character(w, 'y', rest);
}

/// `NSString.integerValue`: the optionally signed run of decimal digits at
/// the start of the string after its leading white space; 0 when there is no
/// digit, or when the value does not fit in an `i64`.
pub open spec fn ns_integer(s: Seq<char>) -> int {
    let t = trimmed(s);
    let signed = t.len() > 0 && (t[0] == '+' || t[0] == '-');
    let body = if signed {
        t.drop_first()
    } else {
        t
    };
    let n = digit_prefix(body);
    let v = digits_value(body.take(n as int));
    let val = if signed && t[0] == '-' {
        -v
    } else {
        v
    };
    if n == 0 || val < i64::MIN || val > i64::MAX {
        0
    } else {
        val
    }
}

/// Leading white space changes neither `integerValue` nor `boolValue`.
pub proof fn lemma_values_ignore_leading_white_space(w: Seq<char>, s: Seq<char>)
    requires
        forall|i: int| 0 <= i < w.len() ==> white_space(w[i]),
    ensures
        ns_integer(w + s) == ns_integer(s),
        ns_bool(w + s) == ns_bool(s),
{
    lemma_white_prefix_append(w, s);
}

/// A run of digits counts whole into the digit prefix of what it starts.
proof fn lemma_digit_prefix_append(d: Seq<char>, y: Seq<char>)
    requires
        forall|i: int| 0 <= i < d.len() ==> ascii_digit(d[i]),
    ensures
        digit_prefix(d + y) == d.len() + digit_prefix(y),
    decreases d.len(),
{
    if d.len() > 0 {
        let d1 = d.drop_first();
        assert forall|i: int| 0 <= i < d1.len() implies ascii_digit(d1[i]) by {
            assert(d1[i] == d[i + 1]);
        }
        lemma_digit_prefix_append(d1, y);
        assert((d + y)[0] == d[0]);
        assert((d + y).drop_first() =~= d1 + y);
    } else {
        assert(d + y =~= y);
    }
}

/// `integerValue` of a text that starts with the digits `d`: their decimal
/// value when it fits in an `i64`, else 0.
proof fn lemma_integer_of_digits(d: Seq<char>, y: Seq<char>)
    requires
        d.len() > 0,
        forall|i: int| 0 <= i < d.len() ==> ascii_digit(d[i]),
        y.len() > 0 ==> !ascii_digit(y[0]),
    ensures
        ns_integer(d + y) == if digits_value(d) <= i64::MAX {
            digits_value(d)
        } else {
            0
        },
{
    let x = d + y;
    assert(x[0] == d[0]);
    assert(!white_space(x[0]));
    assert(white_prefix(x) == 0);
    assert(trimmed(x) =~= x);
    lemma_digit_prefix_append(d, y);
    if y.len() > 0 {
        assert(digit_prefix(y) == 0);
    }
    assert(x.take(d.len() as int) =~= d);
    lemma_digits_value_nonneg(d);
}

/// `integerValue` reads the leading digits and stops at the first other
/// character: whatever follows it is ignored.
pub proof fn lemma_integer_value_stops_at_a_non_digit(d: Seq<char>, c: char, rest: Seq<char>)
    requires
        d.len() > 0,
        forall|i: int| 0 <= i < d.len() ==> ascii_digit(d[i]),
        !ascii_digit(c),
    ensures
        ns_integer(d + seq![c] + rest) == ns_integer(d),
{
    assert(d + seq![c] + rest =~= d + (seq![c] + rest));
    lemma_integer_of_digits(d, seq![c] + rest);
    assert(d + Seq::<char>::empty() =~= d);
    lemma_integer_of_digits(d, Seq::<char>::empty());
}

/// `integerValue` is positional decimal: one more digit `k` after the digits
/// `d` gives ten times their value plus the digit's, while it fits in an
/// `i64`.
pub proof fn lemma_integer_value_is_decimal(d: Seq<char>, k: char)
    requires
        d.len() > 0,
        forall|i: int| 0 <= i < d.len() ==> ascii_digit(d[i]),
        ascii_digit(k),
        10 * digits_value(d) + (k as int - '0' as int) <= i64::MAX,
    ensures
        ns_integer(d.push(k)) == 10 * ns_integer(d) + (k as int - '0' as int),
{
    let e = d.push(k);
    assert forall|i: int| 0 <= i < e.len() implies ascii_digit(e[i]) by {
        if i < d.len() {
            assert(e[i] == d[i]);
        }
    }
    assert(e.drop_last() =~= d);
    assert(digits_value(e) == digits_value(d) * 10 + (k as int - '0' as int));
    lemma_digits_value_nonneg(d);
    assert(e + Seq::<char>::empty() =~= e);
    lemma_integer_of_digits(e, Seq::<char>::empty());
    assert(d + Seq::<char>::empty() =~= d);
    lemma_integer_of_digits(d, Seq::<char>::empty());
}

/// A leading `-` negates `integerValue` and a leading `+` keeps it, for a
/// text that starts with digits whose value fits in an `i64`.
pub proof fn lemma_integer_value_sign(d: Seq<char>, y: Seq<char>)
    requires
        d.len() > 0,
        forall|i: int| 0 <= i < d.len() ==> ascii_digit(d[i]),
        y.len() > 0 ==> !ascii_digit(y[0]),
        digits_value(d) <= i64::MAX,
    ensures
        ns_integer(seq!['-'] + d + y) == -ns_integer(d + y),
        ns_integer(seq!['+'] + d + y) == ns_integer(d + y),
{
    lemma_integer_of_digits(d, y);
    lemma_digits_value_nonneg(d);
    lemma_digit_prefix_append(d, y);
    if y.len() > 0 {
        assert(digit_prefix(y) == 0);
    }
    let x = d + y;
    assert(x.take(d.len() as int) =~= d);
    let m = seq!['-'] + d + y;
    let p = seq!['+'] + d + y;
    assert(white_prefix(m) == 0);
    assert(trimmed(m) =~= m);
    assert(m.drop_first() =~= x);
    assert(white_prefix(p) == 0);
    assert(trimmed(p) =~= p);
    assert(p.drop_first() =~= x);
}

/// Skipping a leading white-space character moves the trimmed text by none.
proof fn lemma_white_prefix_step(s: Seq<char>, k: int)
    requires
        0 <= k <= s.len(),
        forall|i: int| 0 <= i < k ==> white_space(#[trigger] s[i]),
    ensures
        white_prefix(s) == k + white_prefix(s.skip(k)),
    decreases k,
{
    if k > 0 {
        assert(white_space(s[0]));
        assert forall|i: int| 0 <= i < k - 1 implies white_space(#[trigger] s.drop_first()[i]) by {
            assert(s.drop_first()[i] == s[i + 1]);
        }
        lemma_white_prefix_step(s.drop_first(), k - 1);
        assert(s.drop_first().skip(k - 1) =~= s.skip(k));
    } else {
        assert(s.skip(0) =~= s);
    }
}

/// The number of leading white-space characters of `v`.
fn white_prefix_len(v: &Vec<char>) -> (r: usize)
    ensures
        r == white_prefix(v@),
        r <= v@.len(),
{
    let mut k: usize = 0;
    while k < v.len() && is_white_space(v[k])
        invariant
            k <= v@.len(),
            forall|i: int| 0 <= i < k ==> white_space(#[trigger] v@[i]),
        decreases v@.len() - k,
    {
        k += 1;
    }
    proof {
        lemma_white_prefix_step(v@, k as int);
        let rest = v@.skip(k as int);
        assert(white_prefix(rest) == 0) by {
            if rest.len() > 0 {
                assert(rest[0] == v@[k as int]);
            }
        }
    }
    k
}

/// `NSString.boolValue` of `s` (see [`ns_bool`]).
pub fn ns_string_bool_value(s: &str) -> (r: bool)
    ensures
        r == ns_bool(s@),
{
    let v = chars_of(s);
    let k = white_prefix_len(&v);
    if k < v.len() {
        let c = v[k];
        assert(trimmed(s@)[0] == c);
        c == 'Y' || c == 'y' || c == 'T' || c == 't' || ('1' <= c && c <= '9')
    } else {
        false
    }
}

/// Skipping leading digits counts them.
proof fn lemma_digit_prefix_step(s: Seq<char>, k: int)
    requires
        0 <= k <= s.len(),
        forall|i: int| 0 <= i < k ==> ascii_digit(#[trigger] s[i]),
    ensures
        digit_prefix(s) == k + digit_prefix(s.skip(k)),
    decreases k,
{
    if k > 0 {
        assert(ascii_digit(s[0]));
        assert forall|i: int| 0 <= i < k - 1 implies ascii_digit(#[trigger] s.drop_first()[i]) by {
            assert(s.drop_first()[i] == s[i + 1]);
        }
        lemma_digit_prefix_step(s.drop_first(), k - 1);
        assert(s.drop_first().skip(k - 1) =~= s.skip(k));
    } else {
        assert(s.skip(0) =~= s);
    }
}

/// The value of a run of digits never decreases as digits are appended.
proof fn lemma_digits_value_nonneg(d: Seq<char>)
    requires
        forall|i: int| 0 <= i < d.len() ==> ascii_digit(#[trigger] d[i]),
    ensures
        digits_value(d) >= 0,
    decreases d.len(),
{
    if d.len() > 0 {
        assert forall|i: int| 0 <= i < d.drop_last().len() implies ascii_digit(#[trigger] d.drop_last()[i]) by {
            assert(d.drop_last()[i] == d[i]);
        }
        lemma_digits_value_nonneg(d.drop_last());
        assert(ascii_digit(d[d.len() - 1]));
    }
}

/// The largest magnitude an `i64` can hold (that of `i64::MIN`).
const BOUND: u128 = 9223372036854775808;

/// `NSString.integerValue` of `s` (see [`ns_integer`]).
pub fn ns_string_integer_value(s: &str) -> (r: i64)
    ensures
        r == ns_integer(s@),
{
    let v = chars_of(s);
    let k = white_prefix_len(&v);
    let ghost t = trimmed(s@);
    assert(t =~= v@.skip(k as int));
    let mut i = k;
    let mut negative = false;
    let signed = i < v.len() && (v[i] == '+' || v[i] == '-');
    if signed {
        negative = v[i] == '-';
        i += 1;
    }
    let ghost body = if signed {
        t.drop_first()
    } else {
        t
    };
    assert(body =~= v@.skip(i as int));
    let start = i;
    let mut acc: u128 = 0;
    let mut big = false;
    assert(body.take(0) =~= Seq::<char>::empty());
    while i < v.len() && '0' <= v[i] && v[i] <= '9'
        invariant
            start <= i <= v@.len(),
            body == v@.skip(start as int),
            forall|j: int| start <= j < i ==> ascii_digit(#[trigger] v@[j]),
            big ==> digits_value(body.take(i - start)) > BOUND,
            !big ==> acc == digits_value(body.take(i - start)),
            acc <= BOUND,
        decreases v@.len() - i,
    {
        let d = (v[i] as u32 - '0' as u32) as u128;
        let ghost prev = body.take(i - start);
        assert(body.take(i - start + 1).drop_last() =~= prev);
        assert(body.take(i - start + 1).last() == v@[i as int]);
        proof {
            assert forall|j: int| 0 <= j < prev.len() implies ascii_digit(#[trigger] prev[j]) by {
                assert(prev[j] == v@[start + j]);
            }
            lemma_digits_value_nonneg(prev);
        }
        if !big {
            let next = acc * 10 + d;
            if next > BOUND {
                big = true;
            } else {
                acc = next;
            }
        }
        i += 1;
    }
    let n = i - start;
    proof {
        assert forall|j: int| 0 <= j < n implies ascii_digit(#[trigger] body[j]) by {
            assert(body[j] == v@[start + j]);
        }
        lemma_digit_prefix_step(body, n as int);
        let rest = body.skip(n as int);
        assert(digit_prefix(rest) == 0) by {
            if rest.len() > 0 {
                assert(rest[0] == v@[i as int]);
            }
        }
        if signed {
            assert(t[0] == v@[k as int]);
        }
    }
    if n == 0 || big {
        return 0;
    }
    if negative {
        if acc == BOUND {
            i64::MIN
        } else {
            -(acc as i64)
        }
    } else if acc > 9223372036854775807 {
        0
    } else {
        acc as i64
    }
}

/// Whether `c` is `+` or `-`.
pub open spec fn sign_char(c: char) -> bool {
    c == '+' || c == '-'
}

/// How many characters at the start of `t` form the number that
/// `NSString.doubleValue` reads: an optional sign, digits, an optional `.`
/// with digits (kept when any digit was seen), then an optional exponent
/// `e`/`E` with an optional sign, kept only when digits follow it; 0 when
/// neither the integer nor the fraction part has a digit.
pub open spec fn double_prefix_len(t: Seq<char>) -> int {
    let e0: int = if t.len() > 0 && sign_char(t[0]) {
        1
    } else {
        0
    };
    let d1 = digit_prefix(t.skip(e0));
    let a = e0 + d1;
    let f: int = if a < t.len() && t[a] == '.' {
        digit_prefix(t.skip(a + 1)) as int
    } else {
        0
    };
    let saw = d1 > 0 || f > 0;
    let b = if a < t.len() && t[a] == '.' && saw {
        a + 1 + f
    } else {
        a
    };
    if !saw {
        0
    } else if b < t.len() && (t[b] == 'e' || t[b] == 'E') {
        let x0: int = if b + 1 < t.len() && sign_char(t[b + 1]) {
            b + 2
        } else {
            b + 1
        };
        let ed = digit_prefix(t.skip(x0));
        if ed > 0 {
            x0 + ed
        } else {
            b
        }
    } else {
        b
    }
}

/// The number of ASCII digits of `v` from index `k` on.
fn digits_from(v: &Vec<char>, k: usize) -> (r: usize)
    requires
        k <= v@.len(),
    ensures
        r == digit_prefix(v@.skip(k as int)),
        k + r <= v@.len(),
{
    let mut j = k;
    while j < v.len() && '0' <= v[j] && v[j] <= '9'
        invariant
            k <= j <= v@.len(),
            forall|i: int| k <= i < j ==> ascii_digit(#[trigger] v@[i]),
        decreases v@.len() - j,
    {
        j += 1;
    }
    proof {
        let s = v@.skip(k as int);
        assert forall|i: int| 0 <= i < j - k implies ascii_digit(#[trigger] s[i]) by {
            assert(s[i] == v@[k + i]);
        }
        lemma_digit_prefix_step(s, j - k);
        let rest = s.skip(j - k);
        assert(digit_prefix(rest) == 0) by {
            if rest.len() > 0 {
                assert(rest[0] == v@[j as int]);
            }
        }
    }
    j - k
}

/// The text `NSString.doubleValue` converts: `s` without its leading white
/// space, cut to its numeric prefix (see [`double_prefix_len`]); empty when
/// there is none.
#[verifier::spinoff_prover]
#[verifier::rlimit(50)]
pub fn ns_double_prefix(s: &str) -> (r: String)
    ensures
        r@ == trimmed(s@).take(double_prefix_len(trimmed(s@))),
{
    let v = chars_of(s);
    let k = white_prefix_len(&v);
    let ghost t = trimmed(s@);
    assert(t =~= v@.skip(k as int));
    let n = v.len();
    assert(t.len() == n - k);
    assert(forall|i: int| 0 <= i < t.len() ==> #[trigger] t[i] == v@[k + i]);
    let e0: usize = if k < n && (v[k] == '+' || v[k] == '-') {
        1
    } else {
        0
    };
    assert(t.skip(e0 as int) =~= v@.skip(k + e0));
    let d1 = digits_from(&v, k + e0);
    assert(e0 == (if t.len() > 0 && sign_char(t[0]) {
        1int
    } else {
        0int
    }));
    let a = e0 + d1;
    let dot = k + a < n && v[k + a] == '.';
    let f: usize = if dot {
        assert(t.skip(a + 1) =~= v@.skip(k + a + 1));
        digits_from(&v, k + a + 1)
    } else {
        0
    };
    let saw = d1 > 0 || f > 0;
    let b = if dot && saw {
        a + 1 + f
    } else {
        a
    };
    let len: usize = if !saw {
        0
    } else if k + b < n && (v[k + b] == 'e' || v[k + b] == 'E') {
        let x0 = if k + b + 1 < n && (v[k + b + 1] == '+' || v[k + b + 1] == '-') {
            b + 2
        } else {
            b + 1
        };
        assert(t.skip(x0 as int) =~= v@.skip(k + x0));
        let ed = digits_from(&v, k + x0);
        if ed > 0 {
            x0 + ed
        } else {
            b
        }
    } else {
        b
    };
    assert(len == double_prefix_len(t));
    let r = crate::text::string_from_chars(&v, k, k + len);
    assert(v@.subrange(k as int, k + len) =~= t.take(len as int));
    r
}

} // verus!

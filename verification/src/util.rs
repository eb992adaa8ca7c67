//! Token heuristics shared by the resolution engine and the help renderer.

use crate::text::chars_of;
use vstd::prelude::*;
use vstd::string::*;

verus! {

/// The escape byte that opens an ANSI colour sequence.
pub open spec fn esc_byte() -> u8 {
    0x1Bu8
}

/// The byte that closes an ANSI colour sequence (`m`).
pub open spec fn end_byte() -> u8 {
    0x6Du8
}

/// Whether position `i` lies inside an escape sequence that an earlier escape
/// byte opened and no `m` has closed yet.
pub open spec fn escape_pending(b: Seq<u8>, i: int) -> bool {
    exists|j: int|
        0 <= j < i && #[trigger] b[j] == esc_byte() && forall|k: int|
            j < k < i ==> #[trigger] b[k] != end_byte()
}

/// Whether the byte at `i` is invisible: it is an escape byte, or it belongs
/// to a pending escape sequence (its closing `m` included).
pub open spec fn hidden_at(b: Seq<u8>, i: int) -> bool {
    b[i] == esc_byte() || escape_pending(b, i)
}

/// Number of visible bytes among the first `n` bytes of `b`.
pub open spec fn visible_len(b: Seq<u8>, n: int) -> nat
    decreases n,
{
    if n <= 0 {
        0
    } else {
        visible_len(b, n - 1) + if hidden_at(b, n - 1) {
            0nat
        } else {
            1nat
        }
    }
}

proof fn lemma_visible_bound(b: Seq<u8>, n: int)
    requires
        0 <= n,
    ensures
        visible_len(b, n) <= n,
    decreases n,
{
    if n > 0 {
        lemma_visible_bound(b, n - 1);
    }
}

proof fn lemma_pending_step(b: Seq<u8>, i: int)
    requires
        0 <= i < b.len(),
    ensures
        escape_pending(b, i + 1) == (b[i] == esc_byte() || (escape_pending(b, i) && b[i]
            != end_byte())),
{
    if b[i] == esc_byte() {
        assert(b[i] == esc_byte() && forall|k: int| i < k < i + 1 ==> #[trigger] b[k] != end_byte());
    } else if escape_pending(b, i) && b[i] != end_byte() {
        let j = choose|j: int|
            0 <= j < i && #[trigger] b[j] == esc_byte() && forall|k: int|
                j < k < i ==> #[trigger] b[k] != end_byte();
        assert(b[j] == esc_byte() && forall|k: int| j < k < i + 1 ==> #[trigger] b[k] != end_byte());
    } else {
        if escape_pending(b, i + 1) {
            let j = choose|j: int|
                0 <= j < i + 1 && #[trigger] b[j] == esc_byte() && forall|k: int|
                    j < k < i + 1 ==> #[trigger] b[k] != end_byte();
            assert(j < i);
            assert(b[j] == esc_byte() && forall|k: int| j < k < i ==> #[trigger] b[k] != end_byte());
            assert(b[i] != end_byte());
            assert(false);
        }
    }
}

/// Visible length of a string that may carry ANSI colour sequences: the
/// bytes from an escape byte up to and including the next `m` do not count.
pub fn strip_ansi_len(s: &str) -> (n: usize)
    ensures
        n == visible_len(s.spec_bytes(), s.spec_bytes().len() as int),
{
    let bytes = s.as_bytes();
    let mut n: usize = 0;
    let mut skip = false;
    let mut i: usize = 0;
    while i < bytes.len()
        invariant
            i <= bytes.len(),
            bytes@ == s.spec_bytes(),
            n == visible_len(bytes@, i as int),
            skip == escape_pending(bytes@, i as int),
        decreases bytes.len() - i,
    {
        proof {
            lemma_pending_step(bytes@, i as int);
            lemma_visible_bound(bytes@, i as int);
        }
        if bytes[i] == 0x1B {
            skip = true;
        } else if skip {
            if bytes[i] == 0x6D {
                skip = false;
            }
        } else {
            n += 1;
        }
        i += 1;
    }
    n
}

/// An ASCII decimal digit.
pub open spec fn is_digit(c: char) -> bool {
    '0' <= c <= '9'
}

/// A plus or minus sign.
pub open spec fn is_sign(c: char) -> bool {
    c == '-' || c == '+'
}

/// The letter that opens an exponent.
pub open spec fn is_exp_mark(c: char) -> bool {
    c == 'e' || c == 'E'
}

/// Every character is a digit.
pub open spec fn all_digits(s: Seq<char>) -> bool {
    forall|i: int| 0 <= i < s.len() ==> is_digit(#[trigger] s[i])
}

/// Digits with at most one decimal point among them, and at least one digit.
pub open spec fn is_mantissa(s: Seq<char>) -> bool {
    &&& exists|i: int| 0 <= i < s.len() && is_digit(#[trigger] s[i])
    &&& forall|i: int| 0 <= i < s.len() ==> is_digit(#[trigger] s[i]) || s[i] == '.'
    &&& forall|i: int, j: int|
        0 <= i < j < s.len() ==> !(#[trigger] s[i] == '.' && #[trigger] s[j] == '.')
}

/// What may follow the exponent letter: an optional sign, then one or more digits.
pub open spec fn is_exponent(s: Seq<char>) -> bool {
    let d = if s.len() > 0 && is_sign(s[0]) {
        s.skip(1)
    } else {
        s
    };
    d.len() > 0 && all_digits(d)
}

/// A mantissa, optionally followed by an exponent letter and an exponent.
pub open spec fn is_unsigned_number(s: Seq<char>) -> bool {
    is_mantissa(s) || exists|k: int|
        0 <= k < s.len() && is_exp_mark(#[trigger] s[k]) && is_mantissa(s.take(k)) && is_exponent(
            s.skip(k + 1),
        )
}

/// The numeric grammar of the engine: an optional sign, then digits with an
/// optional decimal point, then an optional exponent.
pub open spec fn looks_like_number(s: Seq<char>) -> bool {
    if s.len() > 0 && is_sign(s[0]) {
        is_unsigned_number(s.skip(1))
    } else {
        is_unsigned_number(s)
    }
}

fn digit(c: char) -> (r: bool)
    ensures
        r == is_digit(c),
{
    '0' <= c && c <= '9'
}

/// Whether `v[from..]` is one or more digits.
fn digits_to_end(v: &Vec<char>, from: usize) -> (r: bool)
    requires
        from <= v.len(),
    ensures
        r == (v@.skip(from as int).len() > 0 && all_digits(v@.skip(from as int))),
{
    let ghost d = v@.skip(from as int);
    if from == v.len() {
        return false;
    }
    let mut i: usize = from;
    while i < v.len()
        invariant
            from <= i <= v.len(),
            d == v@.skip(from as int),
            forall|j: int| 0 <= j < i - from ==> is_digit(#[trigger] d[j]),
        decreases v.len() - i,
    {
        if !digit(v[i]) {
            assert(!is_digit(d[i - from]));
            return false;
        }
        i += 1;
    }
    true
}

/// Whether `v[from..]` is an unsigned number.
fn unsigned_number_from(v: &Vec<char>, from: usize) -> (r: bool)
    requires
        from <= v.len(),
    ensures
        r == is_unsigned_number(v@.skip(from as int)),
{
    let ghost s = v@.skip(from as int);
    let mut seen_digit = false;
    let mut seen_dot = false;
    let mut i: usize = from;
    // The mantissa runs as far as digits and a first decimal point go.
    while i < v.len() && (digit(v[i]) || (v[i] == '.' && !seen_dot))
        invariant
            from <= i <= v.len(),
            s == v@.skip(from as int),
            seen_digit == exists|j: int| 0 <= j < i - from && is_digit(#[trigger] s[j]),
            seen_dot == exists|j: int| 0 <= j < i - from && #[trigger] s[j] == '.',
            forall|j: int| 0 <= j < i - from ==> is_digit(#[trigger] s[j]) || s[j] == '.',
            forall|a: int, b: int|
                0 <= a < b < i - from ==> !(#[trigger] s[a] == '.' && #[trigger] s[b] == '.'),
        decreases v.len() - i,
    {
        let ghost k = i - from;
        if digit(v[i]) {
            assert(is_digit(s[k]));
            seen_digit = true;
        } else {
            assert(s[k] == '.');
            seen_dot = true;
        }
        i += 1;
    }
    let ghost k = (i - from) as int;
    if i == v.len() {
        proof {
            assert(is_mantissa(s) == seen_digit);
            if !seen_digit {
                assert(!is_unsigned_number(s));
            }
        }
        return seen_digit;
    }
    // Position k is the first character that cannot belong to a mantissa.
    proof {
        assert(!(is_digit(s[k]) || (s[k] == '.' && !seen_dot)));
        if seen_dot && s[k] == '.' {
            let d = choose|j: int| 0 <= j < k && #[trigger] s[j] == '.';
            assert(s[d] == '.' && s[k] == '.');
        }
        assert(!is_mantissa(s)) by {
            if is_mantissa(s) {
                assert(is_digit(s[k]) || s[k] == '.');
            }
        }
        assert forall|e: int|
            0 <= e < s.len() && is_exp_mark(#[trigger] s[e]) && is_mantissa(s.take(e)) implies e
            == k by {
            if e < k {
                assert(is_digit(s[e]) || s[e] == '.');
            }
            if e > k {
                let t = s.take(e);
                assert(t[k] == s[k]);
                assert(is_digit(t[k]) || t[k] == '.');
                if seen_dot && s[k] == '.' {
                    let d = choose|j: int| 0 <= j < k && #[trigger] s[j] == '.';
                    assert(t[d] == '.' && t[k] == '.');
                }
            }
        }
        assert(is_mantissa(s.take(k)) == seen_digit) by {
            let t = s.take(k);
            assert(forall|j: int| 0 <= j < k ==> t[j] == s[j]);
            if seen_digit {
                let d = choose|j: int| 0 <= j < k && is_digit(#[trigger] s[j]);
                assert(is_digit(t[d]));
            }
            if is_mantissa(t) {
                let d = choose|j: int| 0 <= j < t.len() && is_digit(#[trigger] t[j]);
                assert(is_digit(s[d]));
            }
        }
    }
    if !(v[i] == 'e' || v[i] == 'E') || !seen_digit {
        return false;
    }
    let mut j: usize = i + 1;
    if j < v.len() && (v[j] == '-' || v[j] == '+') {
        j += 1;
    }
    let r = digits_to_end(v, j);
    proof {
        let tail = s.skip(k + 1);
        assert(tail =~= v@.skip(i + 1));
        if tail.len() > 0 && is_sign(tail[0]) {
            assert(tail.skip(1) =~= v@.skip(j as int));
        } else {
            assert(tail =~= v@.skip(j as int));
        }
        assert(is_exponent(tail) == r);
        if r {
            assert(is_exp_mark(s[k]) && is_mantissa(s.take(k)) && is_exponent(s.skip(k + 1)));
        }
    }
    r
}

/// Whether a token looks like a number: an optional sign, digits with an
/// optional decimal point, and an optional exponent with its own optional sign.
pub fn looks_like_number_token(s: &str) -> (r: bool)
    ensures
        r == looks_like_number(s@),
{
    let v = chars_of(s);
    looks_like_number_chars(&v)
}

/// The same test on a token already split into characters.
pub(crate) fn looks_like_number_chars(v: &Vec<char>) -> (r: bool)
    ensures
        r == looks_like_number(v@),
{
    if v.len() > 0 && (v[0] == '-' || v[0] == '+') {
        unsigned_number_from(v, 1)
    } else {
        assert(v@.skip(0) =~= v@);
        unsigned_number_from(v, 0)
    }
}

} // verus!

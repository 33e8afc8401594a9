//! Text utilities: the [`Append`] convenience trait, and the decimal reading
//! and writing of the interpreter's numbers.
//!
//! Numbers are exact 64-bit signed integers. A numeric literal is an optional
//! minus sign, a run of decimal digits, and optionally a point followed by
//! zeros (`12`, `-3`, `12.`, `12.00`); its value is the integer part. The
//! functions here relate the executable code to the spec-level decimal
//! notation [`dec_str`] and [`digits_val`].

use vstd::prelude::*;
use vstd::string::StringExecFns;

verus! {

/// Append another string to the end of this one, taking ownership.
pub trait Append {
    fn append(self, s: String) -> String;
}

impl Append for String {
    fn append(self, s: String) -> (r: String)
        ensures
            r@ == self@ + s@,
    {
        self.concat(s.as_str())
    }
}

/// Relies on `String::push`: appends the given character at the end.
#[verifier::external_body]
pub(crate) fn push_char(s: &mut String, c: char)
    ensures
        final(s)@ == old(s)@.push(c),
{
    s.push(c);
}

/// Whether `c` is a decimal digit.
pub open spec fn is_digit(c: char) -> bool {
    48 <= c as int <= 57
}

/// The digit character for a value in `0 ..= 9`.
pub open spec fn digit_char(d: int) -> char {
    ((d + 48) as u8) as char
}

/// The numeric value of a digit character.
pub open spec fn digit_val(c: char) -> int {
    c as int - 48
}

/// The decimal notation of a nonnegative number, most significant digit first.
pub open spec fn dec_str_u(m: nat) -> Seq<char>
    decreases m,
{
    if m < 10 {
        seq![digit_char(m as int)]
    } else {
        dec_str_u(m / 10).push(digit_char((m % 10) as int))
    }
}

/// The decimal notation of an integer, with a leading minus sign if negative.
pub open spec fn dec_str(v: int) -> Seq<char> {
    if v < 0 {
        seq!['-'] + dec_str_u((-v) as nat)
    } else {
        dec_str_u(v as nat)
    }
}

/// The value of a run of digit characters, most significant first.
pub open spec fn digits_val(s: Seq<char>) -> int
    decreases s.len(),
{
    if s.len() == 0 {
        0
    } else {
        digits_val(s.drop_last()) * 10 + digit_val(s.last())
    }
}

/// Every character of `s` is a decimal digit.
pub open spec fn all_digits(s: Seq<char>) -> bool {
    forall|i: int| 0 <= i < s.len() ==> is_digit(#[trigger] s[i])
}

/// Every character of `s` is the digit zero.
pub open spec fn all_zeros(s: Seq<char>) -> bool {
    forall|i: int| 0 <= i < s.len() ==> #[trigger] s[i] == '0'
}

/// The index of the first occurrence of `c` in `s`, if any.
pub open spec fn find_char(s: Seq<char>, c: char) -> Option<int>
    decreases s.len(),
{
    if s.len() == 0 {
        None
    } else if s[0] == c {
        Some(0)
    } else {
        match find_char(s.drop_first(), c) {
            None => None,
            Some(j) => Some(j + 1),
        }
    }
}

/// `find_char` returns the first index holding `c`, or reports that none does.
pub proof fn lemma_find_char(s: Seq<char>, c: char)
    ensures
        match find_char(s, c) {
            None => forall|k: int| 0 <= k < s.len() ==> #[trigger] s[k] != c,
            Some(j) => 0 <= j < s.len() && s[j] == c && forall|k: int| 0 <= k < j ==> #[trigger] s[k] != c,
        },
    decreases s.len(),
{
    if s.len() == 0 {
    } else if s[0] == c {
    } else {
        lemma_find_char(s.drop_first(), c);
        assert forall|k: int| 1 <= k < s.len() implies s.drop_first()[k - 1] == s[k] by {}
    }
}

/// Whether `w` is written as a numeric literal: an optional minus sign, at
/// least one digit, and optionally a point followed by zeros.
pub open spec fn num_shape(w: Seq<char>) -> bool {
    let body = if w.len() > 0 && w[0] == '-' {
        w.drop_first()
    } else {
        w
    };
    match find_char(body, '.') {
        None => body.len() >= 1 && all_digits(body),
        Some(j) => j >= 1 && all_digits(body.take(j)) && all_zeros(body.skip(j + 1)),
    }
}

/// The value of a numeric literal: its integer part, negated after a minus sign.
pub open spec fn num_val(w: Seq<char>) -> int {
    let neg = w.len() > 0 && w[0] == '-';
    let body = if neg {
        w.drop_first()
    } else {
        w
    };
    let ip = match find_char(body, '.') {
        None => body,
        Some(j) => body.take(j),
    };
    if neg {
        -digits_val(ip)
    } else {
        digits_val(ip)
    }
}

/// Whether a value is representable as a 64-bit signed integer.
pub open spec fn fits_i64(v: int) -> bool {
    i64::MIN <= v <= i64::MAX
}

/// Whether two strings hold the same characters.
pub(crate) fn str_eq(a: &str, b: &str) -> (r: bool)
    ensures
        r <==> a@ == b@,
{
    let la = a.unicode_len();
    let lb = b.unicode_len();
    if la != lb {
        proof {
            if a@ == b@ {
                assert(a@.len() == b@.len());
            }
        }
        return false;
    }
    let mut i: usize = 0;
    while i < la
        invariant
            0 <= i <= la,
            la == a@.len(),
            la == b@.len(),
            forall|k: int| 0 <= k < i ==> a@[k] == b@[k],
        decreases la - i,
    {
        if a.get_char(i) != b.get_char(i) {
            proof {
                if a@ == b@ {
                    assert(a@[i as int] == b@[i as int]);
                }
            }
            return false;
        }
        i += 1;
    }
    proof {
        assert(a@ =~= b@);
    }
    true
}

/// The first position at or after `from` holding `c`, if any.
pub(crate) fn find_from(w: &str, from: usize, c: char) -> (r: Option<usize>)
    requires
        from <= w@.len(),
    ensures
        match r {
            None => forall|k: int| from <= k < w@.len() ==> #[trigger] w@[k] != c,
            Some(j) => from <= j < w@.len() && w@[j as int] == c && forall|k: int|
                from <= k < j ==> #[trigger] w@[k] != c,
        },
{
    let len = w.unicode_len();
    let mut i: usize = from;
    while i < len
        invariant
            from <= i <= len,
            len == w@.len(),
            forall|k: int| from <= k < i ==> #[trigger] w@[k] != c,
        decreases len - i,
    {
        if w.get_char(i) == c {
            return Some(i);
        }
        i += 1;
    }
    None
}

/// Read `w` as a numeric literal, or report that it is none (either not of
/// the literal shape, or out of the representable range).
#[verifier::loop_isolation(false)]
pub(crate) fn parse_number(w: &str) -> (r: Option<i64>)
    ensures
        match r {
            Some(n) => num_shape(w@) && fits_i64(num_val(w@)) && n as int == num_val(w@),
            None => !(num_shape(w@) && fits_i64(num_val(w@))),
        },
{
    let len = w.unicode_len();
    let neg = len > 0 && w.get_char(0) == '-';
    let start: usize = if neg {
        1
    } else {
        0
    };
    let ghost body: Seq<char> = if neg {
        w@.drop_first()
    } else {
        w@
    };
    proof {
        assert(body =~= w@.skip(start as int));
        assert forall|k: int| 0 <= k < body.len() implies #[trigger] body[k] == w@[k
            + start] by {}
    }

    // Locate the point, if any.
    let found = find_from(w, start, '.');
    let dot: usize = match found {
        Some(j) => j,
        None => len,
    };
    proof {
        lemma_find_char(body, '.');
        if dot == len {
            assert(forall|k: int| 0 <= k < body.len() ==> #[trigger] body[k] != '.');
            assert(find_char(body, '.') is None);
        } else {
            assert(body[dot - start] == '.');
            assert(forall|k: int| 0 <= k < dot - start ==> #[trigger] body[k] != '.');
            if find_char(body, '.') is None {
                assert(body[dot - start] != '.');
            }
            let fj = find_char(body, '.')->Some_0;
            if fj < dot - start {
                assert(body[fj] != '.');
            }
            if fj > dot - start {
                assert(body[dot - start] != '.');
            }
            assert(find_char(body, '.') == Some(dot - start as int));
        }
    }
    let ghost spec_dot = find_char(body, '.');
    let ghost ip: Seq<char> = match spec_dot {
        None => body,
        Some(j) => body.take(j),
    };
    proof {
        assert(ip =~= w@.subrange(start as int, dot as int));
    }

    if dot == start {
        // An empty body, or a point with no digits before it.
        assert(!num_shape(w@));
        return None;
    }
    // Here the integer part `w[start .. dot]` is nonempty.

    // Everything after the point must be zeros.
    if dot < len {
        let zbreak = find_from_not_zero(w, dot + 1);
        if let Some(j) = zbreak {
            proof {
                let fp = body.skip(dot - start + 1);
                assert(fp[j - dot - 1] == w@[j as int]);
                assert(!all_zeros(fp));
            }
            return None;
        }
        proof {
            let fp = body.skip(dot - start + 1);
            assert forall|k: int| 0 <= k < fp.len() implies #[trigger] fp[k] == '0' by {
                assert(fp[k] == w@[dot + 1 + k]);
            }
        }
    }

    // Read the digits, tracking when the value can no longer be representable.
    let mut acc: u128 = 0;
    let mut over: bool = false;
    let mut k: usize = start;
    while k < dot
        invariant
            start <= k <= dot <= len,
            len == w@.len(),
            start <= 1,
            start < dot,
            ip == w@.subrange(start as int, dot as int),
            ip.len() == dot - start,
            forall|m: int| start <= m < k ==> is_digit(#[trigger] w@[m]),
            !over ==> acc <= 0x8000_0000_0000_0000u128 && acc as int == digits_val(
                w@.subrange(start as int, k as int),
            ),
            over ==> digits_val(w@.subrange(start as int, k as int)) > 0x8000_0000_0000_0000,
        decreases dot - k,
    {
        let c = w.get_char(k);
        let code = c as u32;
        if code < 48 || code > 57 {
            proof {
                assert(!is_digit(w@[k as int]));
                assert(ip[k - start] == w@[k as int]);
                assert(!all_digits(ip));
                assert(!num_shape(w@));
            }
            return None;
        }
        let d: u128 = (code - 48) as u128;
        let ghost pref = w@.subrange(start as int, k as int);
        let ghost next = w@.subrange(start as int, k as int + 1);
        proof {
            assert(next.drop_last() =~= pref);
            assert(next.last() == w@[k as int]);
        }
        if over {
            proof {
                vstd::arithmetic::mul::lemma_mul_inequality(
                    0x8000_0000_0000_0001,
                    digits_val(pref),
                    10,
                );
                assert(digits_val(next) == digits_val(pref) * 10 + digit_val(w@[k as int]));
            }
        } else {
            let grown: u128 = acc * 10 + d;
            proof {
                assert(digits_val(next) == digits_val(pref) * 10 + digit_val(w@[k as int]));
            }
            if grown > 0x8000_0000_0000_0000u128 {
                over = true;
            } else {
                acc = grown;
            }
        }
        k += 1;
    }
    proof {
        assert(w@.subrange(start as int, dot as int) =~= ip);
        assert(all_digits(ip));
        assert(num_shape(w@));
    }

    if over {
        assert(!fits_i64(num_val(w@)));
        return None;
    }
    if neg {
        if acc == 0x8000_0000_0000_0000u128 {
            Some(i64::MIN)
        } else {
            Some(-((acc as u64) as i64))
        }
    } else {
        if acc > 0x7fff_ffff_ffff_ffffu128 {
            assert(!fits_i64(num_val(w@)));
            None
        } else {
            Some(acc as i64)
        }
    }
}

/// The first position at or after `from` holding anything but a zero digit.
fn find_from_not_zero(w: &str, from: usize) -> (r: Option<usize>)
    requires
        from <= w@.len(),
    ensures
        match r {
            None => forall|k: int| from <= k < w@.len() ==> #[trigger] w@[k] == '0',
            Some(j) => from <= j < w@.len() && w@[j as int] != '0',
        },
{
    let len = w.unicode_len();
    let mut i: usize = from;
    while i < len
        invariant
            from <= i <= len,
            len == w@.len(),
            forall|k: int| from <= k < i ==> #[trigger] w@[k] == '0',
        decreases len - i,
    {
        if w.get_char(i) != '0' {
            return Some(i);
        }
        i += 1;
    }
    None
}

/// Write a nonnegative number in decimal.
pub(crate) fn render_u64(m: u64) -> (s: String)
    ensures
        s@ == dec_str_u(m as nat),
    decreases m,
{
    if m < 10 {
        let mut s = String::new();
        push_char(&mut s, (48 + m as u8) as char);
        assert(s@ =~= seq![digit_char(m as int)]);
        s
    } else {
        let mut s = render_u64(m / 10);
        push_char(&mut s, (48 + (m % 10) as u8) as char);
        s
    }
}

/// Write a signed number in decimal.
pub(crate) fn render_i64(n: i64) -> (s: String)
    ensures
        s@ == dec_str(n as int),
{
    if n >= 0 {
        render_u64(n as u64)
    } else {
        let mag: u64 = ((-(n + 1)) as u64) + 1;
        let mut minus = String::new();
        push_char(&mut minus, '-');
        let digits = render_u64(mag);
        let s = minus.append(digits);
        assert(s@ =~= seq!['-'] + dec_str_u(mag as nat));
        s
    }
}

} // verus!

use vstd::prelude::*;

verus! {

// ---------------------------------------------------------------------------
// Decimal digits
// ---------------------------------------------------------------------------

/// The character for one decimal digit value.
pub open spec fn digit_char(d: int) -> char {
    if d == 0 {
        '0'
    } else if d == 1 {
        '1'
    } else if d == 2 {
        '2'
    } else if d == 3 {
        '3'
    } else if d == 4 {
        '4'
    } else if d == 5 {
        '5'
    } else if d == 6 {
        '6'
    } else if d == 7 {
        '7'
    } else if d == 8 {
        '8'
    } else {
        '9'
    }
}

pub open spec fn is_digit(c: char) -> bool {
    48 <= c as int <= 57
}

/// The numeric value of one decimal digit character.
pub open spec fn digit_val(c: char) -> int {
    c as int - 48
}

pub open spec fn all_digits(s: Seq<char>) -> bool {
    forall|i: int| 0 <= i < s.len() ==> is_digit(#[trigger] s[i])
}

/// The number denoted by a sequence of decimal digit characters
/// (most significant first; the empty sequence denotes 0).
pub open spec fn digits_val(s: Seq<char>) -> int
    decreases s.len(),
{
    if s.len() == 0 {
        0
    } else {
        digits_val(s.drop_last()) * 10 + digit_val(s.last())
    }
}

// ---------------------------------------------------------------------------
// Canonical decimal text of an integer
// ---------------------------------------------------------------------------

/// Canonical decimal digit text of a nonnegative integer: no sign, no
/// leading zero except for 0 itself.
pub open spec fn udec(n: int) -> Seq<char>
    decreases n,
{
    if n < 10 {
        seq![digit_char(n)]
    } else {
        udec(n / 10).push(digit_char(n % 10))
    }
}

/// Canonical decimal text of an integer: a leading minus sign for negative
/// values, then the digits of the magnitude.
pub open spec fn int_dec(v: int) -> Seq<char> {
    if v < 0 {
        seq!['-'] + udec(-v)
    } else {
        udec(v)
    }
}

proof fn lemma_digit_char_val(d: int)
    requires
        0 <= d <= 9,
    ensures
        is_digit(digit_char(d)),
        digit_val(digit_char(d)) == d,
{
}

/// The digit text of a nonnegative integer consists of digits and denotes
/// that integer.
pub proof fn lemma_udec_val(n: int)
    requires
        n >= 0,
    ensures
        udec(n).len() >= 1,
        all_digits(udec(n)),
        digits_val(udec(n)) == n,
    decreases n,
{
    if n < 10 {
        lemma_digit_char_val(n);
        let s = udec(n);
        assert(s == seq![digit_char(n)]);
        assert(s.drop_last() =~= Seq::<char>::empty());
        assert(s.last() == digit_char(n));
        assert(digits_val(Seq::<char>::empty()) == 0);
        assert(digits_val(s) == digits_val(s.drop_last()) * 10 + digit_val(s.last()));
    } else {
        lemma_udec_val(n / 10);
        lemma_digit_char_val(n % 10);
        let s = udec(n);
        assert(s == udec(n / 10).push(digit_char(n % 10)));
        assert(s.drop_last() =~= udec(n / 10));
        assert(s.last() == digit_char(n % 10));
        assert(digits_val(s) == (n / 10) * 10 + n % 10);
        assert((n / 10) * 10 + n % 10 == n) by (nonlinear_arith);
        assert forall|i: int| 0 <= i < s.len() implies is_digit(#[trigger] s[i]) by {
            if i < s.len() - 1 {
                assert(s[i] == udec(n / 10)[i]);
            }
        }
    }
}

/// A single decimal digit as a one-character string slice.
fn digit_str(d: u64) -> (r: &'static str)
    requires
        d <= 9,
    ensures
        r@ == seq![digit_char(d as int)],
{
    proof {
        reveal_strlit("0");
        reveal_strlit("1");
        reveal_strlit("2");
        reveal_strlit("3");
        reveal_strlit("4");
        reveal_strlit("5");
        reveal_strlit("6");
        reveal_strlit("7");
        reveal_strlit("8");
        reveal_strlit("9");
    }
    let r = match d {
        0 => "0",
        1 => "1",
        2 => "2",
        3 => "3",
        4 => "4",
        5 => "5",
        6 => "6",
        7 => "7",
        8 => "8",
        _ => "9",
    };
    proof {
        assert(r@ =~= seq![digit_char(d as int)]);
    }
    r
}

/// The decimal digit text of a nonnegative integer.
fn udec_string(n: u64) -> (r: String)
    ensures
        r@ == udec(n as int),
    decreases n,
{
    if n < 10 {
        String::from_str(digit_str(n))
    } else {
        let r = udec_string(n / 10).concat(digit_str(n % 10));
        proof {
            assert(r@ =~= udec(n as int / 10).push(digit_char(n as int % 10)));
        }
        r
    }
}

/// The canonical decimal text of a signed integer.
pub fn i64_to_string(v: i64) -> (r: String)
    ensures
        r@ == int_dec(v as int),
{
    proof {
        reveal_strlit("-");
    }
    if v >= 0 {
        udec_string(v as u64)
    } else {
        let mag: u64 = if v == i64::MIN {
            9223372036854775808u64
        } else {
            (-v) as u64
        };
        let r = String::from_str("-").concat(udec_string(mag).as_str());
        proof {
            assert("-"@ =~= seq!['-']);
            assert(r@ =~= seq!['-'] + udec(-(v as int)));
        }
        r
    }
}

// ---------------------------------------------------------------------------
// Parsing integers
// ---------------------------------------------------------------------------

/// What integer, if any, a piece of text denotes: an optional sign, then one
/// or more decimal digits, the whole fitting in a 64-bit signed integer.
/// Anything else denotes nothing.
pub open spec fn parse_int_spec(s: Seq<char>) -> Option<int> {
    let signed = s.len() > 0 && (s[0] == '-' || s[0] == '+');
    let body = if signed {
        s.subrange(1, s.len() as int)
    } else {
        s
    };
    if body.len() > 0 && all_digits(body) {
        let v = if s.len() > 0 && s[0] == '-' {
            -digits_val(body)
        } else {
            digits_val(body)
        };
        if i64::MIN <= v <= i64::MAX {
            Some(v)
        } else {
            None
        }
    } else {
        None
    }
}

pub proof fn lemma_digits_val_nonneg(s: Seq<char>)
    requires
        all_digits(s),
    ensures
        digits_val(s) >= 0,
    decreases s.len(),
{
    if s.len() > 0 {
        assert(all_digits(s.drop_last())) by {
            assert(forall|i: int|
                0 <= i < s.len() - 1 ==> s.drop_last()[i] == #[trigger] s[i]);
        }
        lemma_digits_val_nonneg(s.drop_last());
        assert(is_digit(s.last()));
    }
}

/// Extending digit text to the right never shrinks the denoted number.
pub proof fn lemma_digits_val_prefix(s: Seq<char>, i: int)
    requires
        all_digits(s),
        0 <= i <= s.len(),
    ensures
        digits_val(s.subrange(0, i)) <= digits_val(s),
    decreases s.len() - i,
{
    if i == s.len() {
        assert(s.subrange(0, i) =~= s);
    } else {
        let p = s.subrange(0, i + 1);
        assert(all_digits(p)) by {
            assert(forall|j: int| 0 <= j < p.len() ==> p[j] == #[trigger] s[j]);
        }
        assert(p.drop_last() =~= s.subrange(0, i));
        assert(digits_val(p) == digits_val(s.subrange(0, i)) * 10 + digit_val(p.last()));
        lemma_digits_val_nonneg(s.subrange(0, i));
        assert(digits_val(s.subrange(0, i)) <= digits_val(p)) by (nonlinear_arith)
            requires
                digits_val(s.subrange(0, i)) >= 0,
                digits_val(p) == digits_val(s.subrange(0, i)) * 10 + digit_val(p.last()),
                digit_val(p.last()) >= 0,
        ;
        lemma_digits_val_prefix(s, i + 1);
        assert(s.subrange(0, i + 1) == p);
    }
}

/// Parses text as a 64-bit signed integer, exactly where the text denotes
/// one.
pub fn parse_i64(s: &str) -> (r: Option<i64>)
    ensures
        match r {
            Some(v) => parse_int_spec(s@) == Some(v as int),
            None => parse_int_spec(s@) is None,
        },
{
    let n = s.unicode_len();
    if n == 0 {
        return None;
    }
    let c0 = s.get_char(0);
    let neg: bool = c0 == '-';
    let start: usize = if c0 == '-' || c0 == '+' {
        1
    } else {
        0
    };
    if start >= n {
        // A sign with no digits after it.
        return None;
    }
    let ghost body = if start == 1 {
        s@.subrange(1, s@.len() as int)
    } else {
        s@
    };
    // The largest magnitude that still fits: one more for the negative side.
    let limit: u64 = if neg {
        9223372036854775808u64
    } else {
        9223372036854775807u64
    };
    let mut mag: u64 = 0;
    let mut i: usize = start;
    while i < n
        invariant
            start <= 1,
            start <= i <= n,
            n == s@.len(),
            start == 1 ==> s@.len() > 0 && (s@[0] == '-' || s@[0] == '+'),
            start == 0 ==> s@.len() > 0 && !(s@[0] == '-' || s@[0] == '+'),
            neg <==> (s@[0] == '-'),
            start < n,
            body == (if start == 1 {
                s@.subrange(1, s@.len() as int)
            } else {
                s@
            }),
            limit == (if neg {
                9223372036854775808u64
            } else {
                9223372036854775807u64
            }),
            all_digits(body.subrange(0, i - start)),
            mag == digits_val(body.subrange(0, i - start)),
            mag <= limit,
        decreases n - i,
    {
        let c = s.get_char(i);
        proof {
            if start == 1 {
                assert(body[i - 1] == s@[i as int]);
            }
            assert(body[i - start] == c);
        }
        let u = c as u32;
        if u < 48 || u > 57 {
            // Not a digit: the text denotes nothing.
            proof {
                assert(c as int == u as int);
                assert(!is_digit(body[i - start]));
            }
            return None;
        }
        let d = (u - 48) as u64;
        proof {
            assert(c as int == u as int);
            assert(is_digit(body[i - start]));
            assert(d == digit_val(c));
        }
        if mag > (limit - d) / 10 {
            // The magnitude would exceed the representable range; further
            // digits could only enlarge it.
            proof {
                let p = body.subrange(0, i - start + 1);
                assert(p.drop_last() =~= body.subrange(0, i - start));
                assert(all_digits(p)) by {
                    assert(forall|j: int|
                        0 <= j < p.len() ==> p[j] == #[trigger] body[j]);
                }
                assert(digits_val(p) == mag * 10 + d);
                assert(mag * 10 + d > limit) by (nonlinear_arith)
                    requires
                        mag > (limit - d) / 10,
                        0 <= d <= 9,
                        d <= limit,
                        mag >= 0,
                ;
                if all_digits(body) {
                    lemma_digits_val_prefix(body, i - start + 1);
                    assert(digits_val(body) >= digits_val(p));
                }
            }
            return None;
        }
        proof {
            assert(mag * 10 + d <= limit) by (nonlinear_arith)
                requires
                    mag <= (limit - d) / 10,
                    0 <= d <= 9,
                    d <= limit,
                    mag >= 0,
            ;
            let p = body.subrange(0, i - start + 1);
            assert(p.drop_last() =~= body.subrange(0, i - start));
            assert(p.last() == body[i - start]);
            assert(all_digits(p)) by {
                assert(forall|j: int| 0 <= j < p.len() ==> p[j] == #[trigger] body[j]);
            }
            assert(digits_val(p) == mag * 10 + d);
        }
        mag = mag * 10 + d;
        i = i + 1;
    }
    proof {
        assert(body.subrange(0, body.len() as int) =~= body);
        assert(all_digits(body));
        assert(digits_val(body) == mag);
    }
    if neg {
        if mag == 9223372036854775808u64 {
            Some(i64::MIN)
        } else {
            Some(-(mag as i64))
        }
    } else {
        Some(mag as i64)
    }
}

/// Parsing the canonical decimal text of a representable integer gives that
/// integer back.
pub proof fn lemma_parse_int_dec(v: int)
    requires
        i64::MIN <= v <= i64::MAX,
    ensures
        parse_int_spec(int_dec(v)) == Some(v),
{
    if v >= 0 {
        lemma_udec_val(v);
        let s = int_dec(v);
        assert(s == udec(v));
        assert(is_digit(s[0]));
        assert(s[0] != '-' && s[0] != '+');
        assert(parse_int_spec(s) == Some(v));
    } else {
        lemma_udec_val(-v);
        let s = int_dec(v);
        assert(s == seq!['-'] + udec(-v));
        assert(s[0] == '-');
        let body = s.subrange(1, s.len() as int);
        assert(body =~= udec(-v));
        assert(digits_val(body) == -v);
        assert(parse_int_spec(s) == Some(v));
    }
}

/// The canonical decimal text of an integer holds no backslash, so the
/// escaped-minus normalization leaves it unchanged.
pub proof fn lemma_int_dec_no_backslash(v: int)
    ensures
        unescape_minus(int_dec(v)) == int_dec(v),
{
    let s = int_dec(v);
    assert forall|i: int| 0 <= i < s.len() implies #[trigger] s[i] != '\\' by {
        if v < 0 {
            lemma_udec_val(-v);
            if i > 0 {
                assert(s[i] == udec(-v)[i - 1]);
                assert(is_digit(s[i]));
            }
        } else {
            lemma_udec_val(v);
            assert(is_digit(s[i]));
        }
    }
    lemma_unescape_id(s);
}

// ---------------------------------------------------------------------------
// Normalizing an escaped minus sign
// ---------------------------------------------------------------------------

/// The text with every backslash-minus pair replaced by a bare minus sign,
/// scanning left to right without overlap.
pub open spec fn unescape_minus(s: Seq<char>) -> Seq<char>
    decreases s.len(),
{
    if s.len() >= 2 && s[0] == '\\' && s[1] == '-' {
        seq!['-'] + unescape_minus(s.subrange(2, s.len() as int))
    } else if s.len() >= 1 {
        seq![s[0]] + unescape_minus(s.subrange(1, s.len() as int))
    } else {
        Seq::empty()
    }
}

/// Text without a backslash is left unchanged by the normalization.
pub proof fn lemma_unescape_id(s: Seq<char>)
    requires
        forall|i: int| 0 <= i < s.len() ==> #[trigger] s[i] != '\\',
    ensures
        unescape_minus(s) == s,
    decreases s.len(),
{
    if s.len() >= 1 {
        lemma_unescape_id(s.subrange(1, s.len() as int));
        assert(unescape_minus(s) =~= s);
    } else {
        assert(unescape_minus(s) =~= s);
    }
}

/// Replaces every escaped minus sign in the text by a literal one.
pub fn unescape(s: &str) -> (r: String)
    ensures
        r@ == unescape_minus(s@),
{
    let n = s.unicode_len();
    let mut out = String::new();
    let mut i: usize = 0;
    proof {
        reveal_strlit("-");
        assert(s@.subrange(0, s@.len() as int) =~= s@);
    }
    while i < n
        invariant
            0 <= i <= n,
            n == s@.len(),
            out@ + unescape_minus(s@.subrange(i as int, s@.len() as int)) == unescape_minus(s@),
            "-"@ == seq!['-'],
        decreases n - i,
    {
        let ghost rest = s@.subrange(i as int, s@.len() as int);
        let c = s.get_char(i);
        if c == '\\' && i + 1 < n && s.get_char(i + 1) == '-' {
            out.append("-");
            proof {
                assert(rest[0] == '\\' && rest[1] == '-');
                assert(rest.subrange(2, rest.len() as int)
                    =~= s@.subrange(i + 2, s@.len() as int));
                assert(unescape_minus(rest) == seq!['-'] + unescape_minus(
                    s@.subrange(i + 2, s@.len() as int)));
            }
            i = i + 2;
        } else {
            let cs = char_str(c);
            out.append(cs.as_str());
            proof {
                assert(rest[0] == c);
                if rest.len() >= 2 && rest[0] == '\\' && rest[1] == '-' {
                    assert(i + 1 < n && s@[i + 1] == '-');
                    assert(false);
                }
                assert(rest.subrange(1, rest.len() as int)
                    =~= s@.subrange(i + 1, s@.len() as int));
                assert(unescape_minus(rest) == seq![c] + unescape_minus(
                    s@.subrange(i + 1, s@.len() as int)));
            }
            i = i + 1;
        }
    }
    proof {
        assert(s@.subrange(n as int, s@.len() as int) =~= Seq::<char>::empty());
        assert(out@ =~= unescape_minus(s@));
    }
    out
}

/// Relies on `String::push` of std: it appends the given character to the
/// end of the string.
pub assume_specification[ std::string::String::push ](s: &mut std::string::String, ch: char)
    ensures
        final(s)@ == old(s)@.push(ch),
;

/// One character as an owned piece of text.
fn char_str(c: char) -> (r: String)
    ensures
        r@ == seq![c],
{
    let mut out = String::new();
    out.push(c);
    proof {
        assert(out@ =~= seq![c]);
    }
    out
}

} // verus!

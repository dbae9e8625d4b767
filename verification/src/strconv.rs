use vstd::prelude::*;

verus! {

// ---------------------------------------------------------------------------
// ASCII case folding
// ---------------------------------------------------------------------------

/// ASCII lower-casing of one character; everything outside `'A'..='Z'` is
/// left alone.  All type names this engine recognizes are ASCII, so ASCII
/// folding decides keyword matches exactly.
pub open spec fn lower_char(c: char) -> char {
    if 'A' <= c && c <= 'Z' {
        (((c as u8) + 32) as char)
    } else {
        c
    }
}

/// ASCII lower-casing of a character sequence.
pub open spec fn lower_seq(s: Seq<char>) -> Seq<char> {
    Seq::new(s.len(), |i: int| lower_char(s[i]))
}

/// Lower-cases one ASCII letter at execution time.
fn lower_char_exec(c: char) -> (r: char)
    ensures
        r == lower_char(c),
{
    if 'A' <= c && c <= 'Z' {
        ((c as u8) + 32) as char
    } else {
        c
    }
}

/// Compares `s` against an already-lower-case keyword, folding `s` to ASCII
/// lower case first.
pub fn eq_lower(s: &str, kw: &str) -> (r: bool)
    requires
        lower_seq(kw@) == kw@,
    ensures
        r == (lower_seq(s@) == kw@),
{
    let n = s.unicode_len();
    if n != kw.unicode_len() {
        assert(lower_seq(s@).len() == s@.len());
        return false;
    }
    let mut i: usize = 0;
    while i < n
        invariant
            n == s@.len(),
            n == kw@.len(),
            i <= n,
            forall|j: int| 0 <= j < i ==> lower_char(s@[j]) == kw@[j],
        decreases n - i,
    {
        let c = lower_char_exec(s.get_char(i));
        if c != kw.get_char(i) {
            assert(lower_seq(s@)[i as int] != kw@[i as int]);
            return false;
        }
        i = i + 1;
    }
    assert(lower_seq(s@) =~= kw@);
    true
}

/// The views of a vector of strings.
pub open spec fn strs_view(v: Seq<String>) -> Seq<Seq<char>> {
    v.map_values(|s: String| s@)
}

/// Plain string equality, stated over the views.
pub fn str_eq(a: &str, b: &str) -> (r: bool)
    ensures
        r == (a@ == b@),
{
    let sa = a.to_owned();
    let sb = b.to_owned();
    sa == sb
}

// ---------------------------------------------------------------------------
// Decimal integer literals
// ---------------------------------------------------------------------------

/// Is `c` a decimal digit?
pub open spec fn is_dec_digit(c: char) -> bool {
    '0' <= c && c <= '9'
}

/// The numeric value of one decimal digit.
pub open spec fn digit_val(c: char) -> int {
    (c as int) - 48
}

/// Are all characters of `s` decimal digits?
pub open spec fn all_digits(s: Seq<char>) -> bool {
    forall|i: int| 0 <= i < s.len() ==> is_dec_digit(#[trigger] s[i])
}

/// The value of a digit string, most significant digit first.
pub open spec fn digits_val(s: Seq<char>) -> int
    decreases s.len(),
{
    if s.len() == 0 {
        0
    } else {
        digits_val(s.drop_last()) * 10 + digit_val(s.last())
    }
}

/// Ten to the `n`.
pub open spec fn pow10(n: nat) -> int
    decreases n,
{
    if n == 0 {
        1
    } else {
        10 * pow10((n - 1) as nat)
    }
}

/// A digit string's value is bounded by ten to its length.
pub proof fn lemma_digits_val_bound(s: Seq<char>)
    requires
        all_digits(s),
    ensures
        0 <= digits_val(s) < pow10(s.len()),
    decreases s.len(),
{
    if s.len() > 0 {
        lemma_digits_val_bound(s.drop_last());
    }
}

/// Splitting a digit string splits its value.
pub proof fn lemma_digits_val_append(s: Seq<char>, t: Seq<char>)
    ensures
        digits_val(s + t) == digits_val(s) * pow10(t.len()) + digits_val(t),
    decreases t.len(),
{
    if t.len() == 0 {
        assert(s + t =~= s);
    } else {
        lemma_digits_val_append(s, t.drop_last());
        assert((s + t).drop_last() =~= s + t.drop_last());
        assert(digits_val(s + t) == digits_val(s + t.drop_last()) * 10 + digit_val(t.last()));
        assert((digits_val(s) * pow10((t.len() - 1) as nat) + digits_val(t.drop_last())) * 10
            == digits_val(s) * (10 * pow10((t.len() - 1) as nat)) + digits_val(t.drop_last()) * 10)
            by (nonlinear_arith);
    }
}

/// Does `s` have the shape of a Rust signed-integer literal: an optional
/// `+` or `-` sign followed by one or more decimal digits?
pub open spec fn is_int_literal(s: Seq<char>) -> bool {
    if s.len() == 0 {
        false
    } else if s[0] == '+' || s[0] == '-' {
        s.len() > 1 && all_digits(s.skip(1))
    } else {
        all_digits(s)
    }
}

/// The value denoted by an integer literal.
pub open spec fn int_literal_val(s: Seq<char>) -> int {
    if s.len() > 0 && s[0] == '-' {
        -digits_val(s.skip(1))
    } else if s.len() > 0 && s[0] == '+' {
        digits_val(s.skip(1))
    } else {
        digits_val(s)
    }
}

/// Does `s` parse as an `i64`, exactly as `str::parse::<i64>` accepts it?
pub open spec fn parses_as_i64(s: Seq<char>) -> bool {
    is_int_literal(s) && i64::MIN <= int_literal_val(s) <= i64::MAX
}

/// Does `s` parse as an `i32`, exactly as `str::parse::<i32>` accepts it?
pub open spec fn parses_as_i32(s: Seq<char>) -> bool {
    is_int_literal(s) && i32::MIN <= int_literal_val(s) <= i32::MAX
}

/// Reads the digit run of `s` starting at `start` (the position after any
/// sign) and returns its value if every remaining character is a digit,
/// there is at least one, and the value fits in a `u64`.
fn parse_digits(s: &str, start: usize) -> (r: Option<u64>)
    requires
        start <= s@.len(),
    ensures
        (r is Some <==> s@.len() - start > 0 && all_digits(s@.skip(start as int)) && digits_val(
            s@.skip(start as int),
        ) <= u64::MAX),
        r is Some ==> r->0 == digits_val(s@.skip(start as int)),
{
    let ghost digits = s@.skip(start as int);
    let n = s.unicode_len();
    if start == n {
        return None;
    }
    let mut acc: u64 = 0;
    let mut i: usize = start;
    while i < n
        invariant
            start <= i <= n,
            n == s@.len(),
            digits == s@.skip(start as int),
            all_digits(s@.subrange(start as int, i as int)),
            acc == digits_val(s@.subrange(start as int, i as int)),
        decreases n - i,
    {
        let c = s.get_char(i);
        if !('0' <= c && c <= '9') {
            assert(digits[i - start] == s@[i as int]);
            return None;
        }
        let d: u64 = (c as u8 - 48) as u64;
        let ghost pre = s@.subrange(start as int, i as int);
        let ghost pre1 = s@.subrange(start as int, i + 1 as int);
        assert(pre1.drop_last() =~= pre);
        match acc.checked_mul(10) {
            Some(m) => {
                match m.checked_add(d) {
                    Some(v) => {
                        acc = v;
                    },
                    None => {
                        proof {
                            grow_past_u64(s@, start as int, i as int);
                        }
                        return None;
                    },
                }
            },
            None => {
                proof {
                    grow_past_u64(s@, start as int, i as int);
                }
                return None;
            },
        }
        i = i + 1;
    }
    assert(s@.subrange(start as int, n as int) =~= digits);
    Some(acc)
}

/// If the value up to position `i` already overflows past `u64::MAX` after
/// one more digit, the whole digit run does too.
proof fn grow_past_u64(s: Seq<char>, start: int, i: int)
    requires
        0 <= start <= i < s.len(),
        all_digits(s.subrange(start, i)),
        is_dec_digit(s[i]),
        digits_val(s.subrange(start, i)) * 10 + digit_val(s[i]) > u64::MAX,
    ensures
        all_digits(s.skip(start)) ==> digits_val(s.skip(start)) > u64::MAX,
{
    if all_digits(s.skip(start)) {
        let pre1 = s.subrange(start, i + 1);
        let rest = s.subrange(i + 1, s.len() as int);
        assert(pre1.drop_last() =~= s.subrange(start, i));
        assert(s.skip(start) =~= pre1 + rest);
        assert(forall|j: int| 0 <= j < rest.len() ==> rest[j] == s.skip(start)[j + (i + 1
            - start)]);
        lemma_digits_val_append(pre1, rest);
        lemma_digits_val_bound(rest);
        pow10_positive(rest.len());
        assert(digits_val(pre1) >= 0) by {
            lemma_digits_val_bound(pre1);
        }
        assert(digits_val(pre1) * pow10(rest.len()) >= digits_val(pre1)) by (nonlinear_arith)
            requires
                digits_val(pre1) >= 0,
                pow10(rest.len()) >= 1,
        ;
    }
}

/// Ten to any power is at least one.
pub proof fn pow10_positive(n: nat)
    ensures
        pow10(n) >= 1,
    decreases n,
{
    if n > 0 {
        pow10_positive((n - 1) as nat);
    }
}

/// Parses `s` as an `i64`, accepting exactly what `str::parse::<i64>`
/// accepts: an optional sign followed by decimal digits, in range.
pub fn parse_i64(s: &str) -> (r: Option<i64>)
    ensures
        r is Some <==> parses_as_i64(s@),
        r is Some ==> r->0 == int_literal_val(s@),
{
    let n = s.unicode_len();
    if n == 0 {
        return None;
    }
    let c0 = s.get_char(0);
    let negative = c0 == '-';
    let start: usize = if c0 == '-' || c0 == '+' {
        1
    } else {
        0
    };
    match parse_digits(s, start) {
        None => {
            proof {
                if start == 0 && is_int_literal(s@) {
                    assert(s@.skip(0) =~= s@);
                    lemma_digits_val_bound(s@);
                }
                if start == 1 && is_int_literal(s@) {
                    lemma_digits_val_bound(s@.skip(1));
                }
            }
            None
        },
        Some(mag) => {
            proof {
                if start == 0 {
                    assert(s@.skip(0) =~= s@);
                }
            }
            if negative {
                if mag <= 9223372036854775807u64 {
                    Some(-(mag as i64))
                } else if mag == 9223372036854775808u64 {
                    Some(i64::MIN)
                } else {
                    None
                }
            } else {
                if mag <= 9223372036854775807u64 {
                    Some(mag as i64)
                } else {
                    None
                }
            }
        },
    }
}

/// Parses `s` as an `i32`, accepting exactly what `str::parse::<i32>`
/// accepts.
pub fn parse_i32(s: &str) -> (r: Option<i32>)
    ensures
        r is Some <==> parses_as_i32(s@),
        r is Some ==> r->0 == int_literal_val(s@),
{
    match parse_i64(s) {
        None => None,
        Some(v) => {
            if -2147483648i64 <= v && v <= 2147483647i64 {
                Some(v as i32)
            } else {
                None
            }
        },
    }
}

/// Does `s` parse as a `bool`?  `str::parse::<bool>` accepts exactly
/// `"true"` and `"false"`.
pub open spec fn parses_as_bool(s: Seq<char>) -> bool {
    s == "true"@ || s == "false"@
}

/// Parses `s` as a `bool`, accepting exactly `"true"` and `"false"`.
pub fn parse_bool(s: &str) -> (r: Option<bool>)
    ensures
        r is Some <==> parses_as_bool(s@),
        r is Some ==> r->0 == (s@ == "true"@),
{
    if str_eq(s, "true") {
        Some(true)
    } else if str_eq(s, "false") {
        Some(false)
    } else {
        None
    }
}

// ---------------------------------------------------------------------------
// Floating-point literals
//
// Real columns never compute with their values, so the engine only needs
// to know whether a text is a floating-point literal.  The grammar below
// is the one Rust's standard float parsing documents: an optional sign,
// then `inf`, `infinity` or `nan` (ASCII case-insensitive) or a mantissa
// of digits with at most one dot and at least one digit, optionally
// followed by an exponent marker, an optional sign and digits.
// ---------------------------------------------------------------------------

/// Is `c` an exponent marker?
pub open spec fn is_exp_char(c: char) -> bool {
    c == 'e' || c == 'E'
}

/// Digits with at most one dot and at least one digit.
pub open spec fn mantissa_ok(m: Seq<char>) -> bool {
    &&& m.len() > 0
    &&& forall|i: int| 0 <= i < m.len() ==> (is_dec_digit(#[trigger] m[i]) || m[i] == '.')
    &&& exists|i: int| 0 <= i < m.len() && is_dec_digit(#[trigger] m[i])
    &&& forall|i: int, j: int|
        0 <= i < j < m.len() && #[trigger] m[i] == '.' && #[trigger] m[j] == '.' ==> false
}

/// An optional sign followed by at least one digit.
pub open spec fn exp_ok(x: Seq<char>) -> bool {
    let u = if x.len() > 0 && (x[0] == '+' || x[0] == '-') {
        x.skip(1)
    } else {
        x
    };
    u.len() > 0 && all_digits(u)
}

/// The position of the first exponent marker, or the length when there is
/// none.
pub open spec fn first_exp_idx(b: Seq<char>) -> int
    decreases b.len(),
{
    if b.len() == 0 {
        0
    } else if is_exp_char(b[0]) {
        0
    } else {
        1 + first_exp_idx(b.drop_first())
    }
}

/// A mantissa, optionally followed by an exponent.
pub open spec fn number_ok(b: Seq<char>) -> bool {
    let p = first_exp_idx(b);
    if p == b.len() {
        mantissa_ok(b)
    } else {
        mantissa_ok(b.take(p)) && exp_ok(b.skip(p + 1))
    }
}

/// Does the text read as a floating-point literal?
pub open spec fn is_real_literal(s: Seq<char>) -> bool {
    let b = if s.len() > 0 && (s[0] == '+' || s[0] == '-') {
        s.skip(1)
    } else {
        s
    };
    lower_seq(b) == "inf"@ || lower_seq(b) == "infinity"@ || lower_seq(b) == "nan"@ || number_ok(
        b,
    )
}

/// If the first `p` characters are no exponent markers and the next one
/// is (or the sequence ends), the first marker sits at `p`.
proof fn lemma_first_exp_idx(b: Seq<char>, p: int)
    requires
        0 <= p <= b.len(),
        forall|k: int| 0 <= k < p ==> !is_exp_char(#[trigger] b[k]),
        p == b.len() || is_exp_char(b[p]),
    ensures
        first_exp_idx(b) == p,
    decreases p,
{
    if p > 0 {
        lemma_first_exp_idx(b.drop_first(), p - 1);
    }
}

/// Recognizes a floating-point literal.
pub fn real_accepts(s: &str) -> (r: bool)
    ensures
        r == is_real_literal(s@),
{
    proof {
        reveal_strlit("inf");
        reveal_strlit("infinity");
        reveal_strlit("nan");
        assert(lower_seq("inf"@) =~= "inf"@);
        assert(lower_seq("infinity"@) =~= "infinity"@);
        assert(lower_seq("nan"@) =~= "nan"@);
    }
    let n = s.unicode_len();
    let start: usize = if n > 0 && (s.get_char(0) == '+' || s.get_char(0) == '-') {
        1
    } else {
        0
    };
    let body = s.substring_char(start, n);
    let ghost b = s@.skip(start as int);
    proof {
        assert(body@ =~= b);
        if start == 0 {
            assert(b =~= s@);
        }
    }
    if eq_lower(body, "inf") || eq_lower(body, "infinity") || eq_lower(body, "nan") {
        return true;
    }
    let m = n - start;
    // Find the exponent marker, if any.
    let mut p: usize = 0;
    while p < m && !(body.get_char(p) == 'e' || body.get_char(p) == 'E')
        invariant
            0 <= p <= m,
            m == b.len(),
            body@ == b,
            forall|k: int| 0 <= k < p ==> !is_exp_char(#[trigger] b[k]),
        decreases m - p,
    {
        p = p + 1;
    }
    proof {
        lemma_first_exp_idx(b, p as int);
    }
    // Check the mantissa before the marker.
    if p == 0 {
        assert(!mantissa_ok(b.take(0)));
        assert(!mantissa_ok(b)) by {
            if b.len() > 0 {
                assert(!(is_dec_digit(b[0]) || b[0] == '.'));
            }
        }
        return false;
    }
    let mut has_digit = false;
    let mut has_dot = false;
    let mut dot_at: usize = 0;
    let mut k: usize = 0;
    let ghost mant = b.take(p as int);
    proof {
        if p == m {
            assert(b.take(p as int) =~= b);
        }
        assert(is_real_literal(s@) == number_ok(b));
    }
    while k < p
        invariant
            0 <= k <= p <= m,
            m == b.len(),
            body@ == b,
            is_real_literal(s@) == number_ok(b),
            first_exp_idx(b) == p,
            mant == b.take(p as int),
            p == m ==> mant == b,
            mant.len() == p,
            forall|i: int| 0 <= i < mant.len() ==> mant[i] == b[i],
            forall|i: int| 0 <= i < k ==> (is_dec_digit(#[trigger] mant[i]) || mant[i] == '.'),
            has_digit == exists|i: int| 0 <= i < k && is_dec_digit(#[trigger] mant[i]),
            has_dot ==> 0 <= dot_at < k && mant[dot_at as int] == '.',
            !has_dot ==> forall|i: int| 0 <= i < k ==> #[trigger] mant[i] != '.',
            forall|i: int, j: int|
                0 <= i < j < k && #[trigger] mant[i] == '.' && #[trigger] mant[j] == '.'
                    ==> false,
        decreases p - k,
    {
        let c = body.get_char(k);
        if '0' <= c && c <= '9' {
            has_digit = true;
        } else if c == '.' {
            if has_dot {
                assert(mant[dot_at as int] == '.' && mant[k as int] == '.');
                assert(!mantissa_ok(mant));
                return false;
            }
            has_dot = true;
            dot_at = k;
        } else {
            assert(!(is_dec_digit(mant[k as int]) || mant[k as int] == '.'));
            assert(!mantissa_ok(mant));
            return false;
        }
        k = k + 1;
    }
    if !has_digit {
        assert(!mantissa_ok(mant));
        return false;
    }
    assert(mantissa_ok(mant));
    if p == m {
        return true;
    }
    // Check the exponent after the marker.
    let ghost x = b.skip((p + 1) as int);
    let estart: usize = if p + 1 < m && (body.get_char(p + 1) == '+' || body.get_char(p + 1)
        == '-') {
        p + 2
    } else {
        p + 1
    };
    let ghost u = if x.len() > 0 && (x[0] == '+' || x[0] == '-') {
        x.skip(1)
    } else {
        x
    };
    proof {
        if x.len() > 0 {
            assert(x[0] == b[p + 1]);
        }
        assert(b.skip(estart as int) =~= u);
        assert(exp_ok(x) == (u.len() > 0 && all_digits(u)));
        assert(is_real_literal(s@) == exp_ok(x));
    }
    if estart == m {
        assert(!exp_ok(x));
        return false;
    }
    let mut q: usize = estart;
    while q < m
        invariant
            estart <= q <= m,
            m == b.len(),
            body@ == b,
            u == b.skip(estart as int),
            u.len() == m - estart,
            is_real_literal(s@) == exp_ok(x),
            exp_ok(x) == (u.len() > 0 && all_digits(u)),
            forall|i: int| 0 <= i < q - estart ==> is_dec_digit(#[trigger] u[i]),
        decreases m - q,
    {
        let c = body.get_char(q);
        if !('0' <= c && c <= '9') {
            assert(u[q - estart] == b[q as int]);
            assert(!exp_ok(x));
            return false;
        }
        q = q + 1;
    }
    assert(all_digits(u));
    assert(exp_ok(x));
    true
}

// ---------------------------------------------------------------------------
// Decimal rendering of integers
// ---------------------------------------------------------------------------

/// The decimal digit character for a value below ten.
pub open spec fn digit_char(d: int) -> char {
    ((48 + d) as u8) as char
}

/// The decimal rendering of a non-negative integer.
pub open spec fn dec_str(n: int) -> Seq<char>
    decreases n,
{
    if n < 10 {
        seq![digit_char(n)]
    } else {
        dec_str(n / 10) + seq![digit_char(n % 10)]
    }
}

/// The decimal rendering of a signed integer.
pub open spec fn int_str(n: int) -> Seq<char> {
    if n >= 0 {
        dec_str(n)
    } else {
        seq!['-'] + dec_str(-n)
    }
}

/// One decimal digit as a string slice.
fn digit_str(d: u64) -> (r: &'static str)
    requires
        d < 10,
    ensures
        r@ == seq![digit_char(d as int)],
{
    proof {
        reveal_strlit("0");
        reveal_strlit("1");
        reveal_strlit("2");
        reveal_strlit("3");
        reveal_strlit("4");
        reveal_strlit("5");
        reveal_strlit("6");
        reveal_strlit("7");
        reveal_strlit("8");
        reveal_strlit("9");
    }
    let r = if d == 0 {
        "0"
    } else if d == 1 {
        "1"
    } else if d == 2 {
        "2"
    } else if d == 3 {
        "3"
    } else if d == 4 {
        "4"
    } else if d == 5 {
        "5"
    } else if d == 6 {
        "6"
    } else if d == 7 {
        "7"
    } else {
        if d == 8 {
            "8"
        } else {
            "9"
        }
    };
    assert(r@ =~= seq![digit_char(d as int)]);
    r
}

/// Renders an unsigned integer in decimal.
pub fn u64_to_string(n: u64) -> (s: String)
    ensures
        s@ == dec_str(n as int),
    decreases n,
{
    if n < 10 {
        digit_str(n).to_owned()
    } else {
        assert(n / 10 < n) by (nonlinear_arith)
            requires
                n >= 10,
        ;
        let q = u64_to_string(n / 10);
        q.concat(digit_str(n % 10))
    }
}

/// Renders a signed integer in decimal, with a leading `-` when negative.
pub fn i64_to_string(n: i64) -> (s: String)
    ensures
        s@ == int_str(n as int),
{
    if n >= 0 {
        u64_to_string(n as u64)
    } else {
        let mag: u64 = ((-(n + 1)) as u64) + 1;
        let r = String::from_str("-").concat(u64_to_string(mag).as_str());
        proof {
            reveal_strlit("-");
            assert("-"@ =~= seq!['-']);
        }
        r
    }
}

/// Renders a `usize` in decimal.
pub fn usize_to_string(n: usize) -> (s: String)
    ensures
        s@ == dec_str(n as int),
{
    u64_to_string(n as u64)
}

} // verus!

//! Decimal numbers as the project files write them.
//!
//! The unified record holds tempo, marker positions and similar values without
//! floating point: either as the literal text a project file holds (read by
//! std's `f64` parser where a float is wanted), as a count of thousandths, or
//! as zero.
use vstd::prelude::*;

verus! {

/// A number of the unified record.
#[derive(Debug, Clone)]
pub enum Number {
    /// A literal in the syntax std's `f64::from_str` accepts, such as `"128"`
    /// or `"140.5"`; its value is the `f64` that this text parses to.
    Literal(String),
    /// An integer count of thousandths: the value is `n / 1000`.
    Thousandths(u32),
    /// The value zero.
    Zero,
}

pub enum NumberModel {
    Literal(Seq<char>),
    Thousandths(u32),
    Zero,
}

impl View for Number {
    type V = NumberModel;

    open spec fn view(&self) -> NumberModel {
        match self {
            Number::Literal(s) => NumberModel::Literal(s@),
            Number::Thousandths(n) => NumberModel::Thousandths(*n),
            Number::Zero => NumberModel::Zero,
        }
    }
}

impl Number {
    /// A copy of this number.
    pub fn duplicate(&self) -> (r: Number)
        ensures
            r@ == self@,
    {
        match self {
            Number::Literal(s) => Number::Literal(s.clone()),
            Number::Thousandths(n) => Number::Thousandths(*n),
            Number::Zero => Number::Zero,
        }
    }
}

impl DeepView for Number {
    type V = NumberModel;

    open spec fn deep_view(&self) -> NumberModel {
        self@
    }
}

} // verus!

verus! {

/// An ASCII digit.
pub open spec fn is_digit(c: char) -> bool {
    '0' <= c && c <= '9'
}

/// Every character of `s` is an ASCII digit.
pub open spec fn all_digits(s: Seq<char>) -> bool {
    forall|k: int| 0 <= k < s.len() ==> is_digit(#[trigger] s[k])
}

/// Index of the first `.` in `s`, or `s.len()`.
pub open spec fn dot_pos(s: Seq<char>) -> int
    decreases s.len(),
{
    if s.len() == 0 { 0 } else if s[0] == '.' { 0 } else { 1 + dot_pos(s.drop_first()) }
}

/// Index of the first `e` or `E` in `s`, or `s.len()`.
pub open spec fn exp_pos(s: Seq<char>) -> int
    decreases s.len(),
{
    if s.len() == 0 { 0 } else if s[0] == 'e' || s[0] == 'E' { 0 } else { 1 + exp_pos(s.drop_first()) }
}

/// `Digit+ | Digit+ '.' Digit* | Digit* '.' Digit+`
pub open spec fn is_mantissa(m: Seq<char>) -> bool {
    let d = dot_pos(m);
    all_digits(m.take(d)) && if d == m.len() {
        m.len() > 0
    } else {
        all_digits(m.skip(d + 1)) && m.len() >= 2
    }
}

/// `'e' Sign? Digit+`, the `e` in either case.
pub open spec fn is_exponent(x: Seq<char>) -> bool {
    x.len() >= 2 && (x[0] == 'e' || x[0] == 'E') && if x[1] == '+' || x[1] == '-' {
        x.len() >= 3 && all_digits(x.skip(2))
    } else {
        all_digits(x.skip(1))
    }
}

/// `Number ::= Mantissa Exp?`
pub open spec fn is_number(b: Seq<char>) -> bool {
    let p = exp_pos(b);
    is_mantissa(b.take(p)) && (p == b.len() || is_exponent(b.skip(p)))
}

/// `b` without one leading sign.
pub open spec fn unsigned_part(s: Seq<char>) -> Seq<char> {
    if s.len() > 0 && (s[0] == '+' || s[0] == '-') { s.drop_first() } else { s }
}

/// `inf`, `infinity` or `nan`, in any case.
pub open spec fn is_special(b: Seq<char>) -> bool {
    let l = crate::text::lower(b);
    l == "inf"@ || l == "infinity"@ || l == "nan"@
}

/// The strings std's `f64::from_str` accepts:
/// `Sign? ( 'inf' | 'infinity' | 'nan' | Number )`, case-insensitively.
pub open spec fn is_float_literal(s: Seq<char>) -> bool {
    is_special(unsigned_part(s)) || is_number(unsigned_part(s))
}

/// A value of the unified record that a consumer can turn into an `f64`.
pub open spec fn number_ok(n: NumberModel) -> bool {
    match n {
        NumberModel::Literal(s) => is_float_literal(s),
        _ => true,
    }
}

proof fn lemma_exp_pos(s: Seq<char>)
    ensures
        0 <= exp_pos(s) <= s.len(),
        exp_pos(s) < s.len() ==> (s[exp_pos(s)] == 'e' || s[exp_pos(s)] == 'E'),
    decreases s.len(),
{
    if s.len() > 0 && !(s[0] == 'e' || s[0] == 'E') {
        lemma_exp_pos(s.drop_first());
    }
}

fn dot_pos_exec(s: &[char], from: usize, to: usize) -> (r: usize)
    requires
        from <= to <= s@.len(),
    ensures
        from <= r <= to,
        r - from == dot_pos(s@.subrange(from as int, to as int)),
{
    let mut i = from;
    while i < to && s[i] != '.'
        invariant
            from <= i <= to <= s@.len(),
            dot_pos(s@.subrange(from as int, to as int)) == (i - from) + dot_pos(s@.subrange(i as int, to as int)),
        decreases to - i,
    {
        assert(s@.subrange(i as int, to as int).drop_first() =~= s@.subrange(i + 1, to as int));
        i = i + 1;
    }
    i
}

fn exp_pos_exec(s: &[char], from: usize) -> (r: usize)
    requires
        from <= s@.len(),
    ensures
        from <= r <= s@.len(),
        r - from == exp_pos(s@.skip(from as int)),
{
    let mut i = from;
    while i < s.len() && s[i] != 'e' && s[i] != 'E'
        invariant
            from <= i <= s@.len(),
            exp_pos(s@.skip(from as int)) == (i - from) + exp_pos(s@.skip(i as int)),
        decreases s.len() - i,
    {
        assert(s@.skip(i as int).drop_first() =~= s@.skip(i + 1));
        i = i + 1;
    }
    i
}

fn digits_between(s: &[char], from: usize, to: usize) -> (r: bool)
    requires
        from <= to <= s@.len(),
    ensures
        r == all_digits(s@.subrange(from as int, to as int)),
{
    let mut i = from;
    while i < to
        invariant
            from <= i <= to <= s@.len(),
            forall|k: int| from <= k < i ==> is_digit(#[trigger] s@[k]),
        decreases to - i,
    {
        if s[i] < '0' || s[i] > '9' {
            assert(s@.subrange(from as int, to as int)[i - from] == s@[i as int]);
            return false;
        }
        i = i + 1;
    }
    assert forall|k: int| 0 <= k < to - from implies is_digit(#[trigger] s@.subrange(from as int, to as int)[k]) by {
        assert(s@.subrange(from as int, to as int)[k] == s@[from + k]);
    }
    true
}

/// Whether std's `f64::from_str` accepts `s`.
pub fn is_float_literal_exec(s: &[char]) -> (r: bool)
    ensures
        r == is_float_literal(s@),
{
    let start: usize = if s.len() > 0 && (s[0] == '+' || s[0] == '-') { 1 } else { 0 };
    let ghost b = unsigned_part(s@);
    assert(b =~= s@.skip(start as int));
    let body = vstd::slice::slice_subrange(s, start, s.len());
    assert(body@ =~= b);
    let lowered = crate::text::lower_chars(body);
    if crate::text::equals_str(lowered.as_slice(), "inf") || crate::text::equals_str(lowered.as_slice(), "infinity")
        || crate::text::equals_str(lowered.as_slice(), "nan")
    {
        return true;
    }
    let p = exp_pos_exec(body, 0);
    assert(body@.skip(0) =~= body@);
    let d = dot_pos_exec(body, 0, p);
    assert(body@.subrange(0, p as int) =~= body@.take(p as int));
    let ghost m = body@.take(p as int);
    assert(m.take(d as int) =~= body@.subrange(0, d as int));
    let int_ok = digits_between(body, 0, d);
    let mant_ok = if d == p {
        int_ok && p > 0
    } else {
        assert(m.skip(d + 1) =~= body@.subrange(d + 1, p as int));
        int_ok && digits_between(body, d + 1, p) && p >= 2
    };
    if !mant_ok {
        return false;
    }
    if p == body.len() {
        return true;
    }
    let x = vstd::slice::slice_subrange(body, p, body.len());
    assert(x@ =~= body@.skip(p as int));
    proof {
        lemma_exp_pos(body@);
        assert(x@[0] == 'e' || x@[0] == 'E');
    }
    if x.len() < 2 {
        return false;
    }
    if x[1] == '+' || x[1] == '-' {
        assert(x@.skip(2) =~= x@.subrange(2, x@.len() as int));
        x.len() >= 3 && digits_between(x, 2, x.len())
    } else {
        assert(x@.skip(1) =~= x@.subrange(1, x@.len() as int));
        digits_between(x, 1, x.len())
    }
}

/// A number of the unified record from literal text: the text itself when std's
/// `f64` parser accepts it, else zero (`parse().unwrap_or(0.0)`).
pub fn literal_or_zero(s: &[char]) -> (r: Number)
    ensures
        r@ == (if is_float_literal(s@) { NumberModel::Literal(s@) } else { NumberModel::Zero }),
{
    if is_float_literal_exec(s) {
        Number::Literal(crate::text::string_from_chars(s))
    } else {
        Number::Zero
    }
}

} // verus!

verus! {

/// The mantissa's digits, integer part then fraction, without the point.
pub open spec fn mantissa_digits(m: Seq<char>) -> Seq<char> {
    let d = dot_pos(m);
    if d == m.len() { m } else { m.take(d) + m.skip(d + 1) }
}

/// The exponent of a number literal (0 when it has none).
pub open spec fn exp_value(b: Seq<char>) -> int {
    let p = exp_pos(b);
    if p == b.len() {
        0
    } else {
        let x = b.skip(p);
        if x[1] == '-' {
            -crate::project_data::digits_value(x.skip(2))
        } else if x[1] == '+' {
            crate::project_data::digits_value(x.skip(2)) as int
        } else {
            crate::project_data::digits_value(x.skip(1)) as int
        }
    }
}

/// Number of leading `0` characters.
pub open spec fn lead_zeros(d: Seq<char>) -> nat
    decreases d.len(),
{
    if d.len() > 0 && d[0] == '0' { 1 + lead_zeros(d.drop_first()) } else { 0 }
}

/// The significant digits of a number literal `b` (without sign): its mantissa
/// digits without leading zeros. Empty exactly when the value is zero.
pub open spec fn significand(b: Seq<char>) -> Seq<char> {
    let d = mantissa_digits(b.take(exp_pos(b)));
    d.skip(lead_zeros(d) as int)
}

/// Where the decimal point stands relative to the significand: the value of a
/// non-zero literal is `0.significand × 10^point`.
pub open spec fn point(b: Seq<char>) -> int {
    let m = b.take(exp_pos(b));
    dot_pos(m) + exp_value(b) - lead_zeros(mantissa_digits(m))
}

/// Compares `0.a` with `0.b` for digit sequences: -1, 0 or 1.
pub open spec fn digit_order(a: Seq<char>, b: Seq<char>) -> int
    decreases a.len() + b.len(),
{
    if a.len() == 0 && b.len() == 0 {
        0
    } else {
        let x = if a.len() > 0 { a[0] } else { '0' };
        let y = if b.len() > 0 { b[0] } else { '0' };
        if x < y {
            -1
        } else if x > y {
            1
        } else {
            digit_order(if a.len() > 0 { a.drop_first() } else { a }, if b.len() > 0 { b.drop_first() } else { b })
        }
    }
}

/// Significand of `30 - 2^-49`, the smallest value that rounds to an `f64` of at least 30.
pub open spec fn low_digits() -> Seq<char> {
    "299999999999999982236431605997495353221893310546875"@
}

/// Significand of `300 + 2^-45`, the largest value that rounds to an `f64` of at most 300.
pub open spec fn high_digits() -> Seq<char> {
    "300000000000000028421709430404007434844970703125"@
}

/// The literal parses to an `f64` within `30.0..=300.0`. With the value
/// `0.significand × 10^point`, that is: a positive finite literal whose value,
/// before rounding to `f64`, lies between `30 - 2^-49` and `300 + 2^-45` (both
/// round to the bounds, ties going to the even bound).
pub open spec fn in_tempo_range(s: Seq<char>) -> bool {
    let b = unsigned_part(s);
    &&& is_float_literal(s)
    &&& !is_special(b)
    &&& !(s.len() > 0 && s[0] == '-')
    &&& significand(b).len() > 0
    &&& ((point(b) == 2 && digit_order(significand(b), low_digits()) >= 0)
        || (point(b) == 3 && digit_order(significand(b), high_digits()) <= 0))
}

/// The saturation bound for exponents.
pub open spec fn big_exp() -> int {
    0x400000000000000000
}

fn exponent_sat(x: &[char], from: usize) -> (r: i128)
    requires
        from <= x@.len(),
        all_digits(x@.skip(from as int)),
    ensures
        r == (if crate::project_data::digits_value(x@.skip(from as int)) > big_exp() {
            big_exp() + 1
        } else {
            crate::project_data::digits_value(x@.skip(from as int)) as int
        }),
{
    let mut v: i128 = 0;
    let mut i = from;
    assert(x@.subrange(from as int, from as int) =~= Seq::<char>::empty());
    while i < x.len()
        invariant
            from <= i <= x@.len(),
            all_digits(x@.skip(from as int)),
            v == (if crate::project_data::digits_value(x@.subrange(from as int, i as int)) > big_exp() {
                big_exp() + 1
            } else {
                crate::project_data::digits_value(x@.subrange(from as int, i as int)) as int
            }),
        decreases x.len() - i,
    {
        assert(x@.subrange(from as int, i + 1).drop_last() =~= x@.subrange(from as int, i as int));
        assert(x@.skip(from as int)[i - from] == x@[i as int]);
        let dv = (x[i] as u32 - '0' as u32) as i128;
        if v <= 0x400000000000000000 {
            v = 10 * v + dv;
        }
        if v > 0x400000000000000000 {
            v = 0x400000000000000001;
        }
        i = i + 1;
    }
    assert(x@.subrange(from as int, x@.len() as int) =~= x@.skip(from as int));
    v
}

fn digit_order_exec(a: &[char], b: &[char]) -> (r: i8)
    ensures
        r as int == digit_order(a@, b@),
{
    let n = if a.len() > b.len() { a.len() } else { b.len() };
    let mut k: usize = 0;
    assert(a@.skip(0) =~= a@);
    assert(b@.skip(0) =~= b@);
    while k < n
        invariant
            0 <= k <= n,
            n == (if a.len() > b.len() { a.len() } else { b.len() }),
            digit_order(a@, b@) == digit_order(
                if k <= a.len() { a@.skip(k as int) } else { Seq::empty() },
                if k <= b.len() { b@.skip(k as int) } else { Seq::empty() },
            ),
        decreases n - k,
    {
        let x = if k < a.len() { a[k] } else { '0' };
        let y = if k < b.len() { b[k] } else { '0' };
        let ghost sa = if k <= a.len() { a@.skip(k as int) } else { Seq::empty() };
        let ghost sb = if k <= b.len() { b@.skip(k as int) } else { Seq::empty() };
        if x < y {
            return -1;
        }
        if x > y {
            return 1;
        }
        proof {
            let na = if k + 1 <= a.len() { a@.skip(k + 1) } else { Seq::<char>::empty() };
            let nb = if k + 1 <= b.len() { b@.skip(k + 1) } else { Seq::<char>::empty() };
            if k < a.len() {
                assert(sa[0] == a@[k as int]);
                assert(sa.drop_first() =~= na);
            } else {
                assert(sa =~= Seq::<char>::empty());
                assert(na =~= Seq::<char>::empty());
            }
            if k < b.len() {
                assert(sb[0] == b@[k as int]);
                assert(sb.drop_first() =~= nb);
            } else {
                assert(sb =~= Seq::<char>::empty());
                assert(nb =~= Seq::<char>::empty());
            }
            assert(sa.len() > 0 || sb.len() > 0);
            assert(digit_order(sa, sb) == digit_order(
                if sa.len() > 0 { sa.drop_first() } else { sa },
                if sb.len() > 0 { sb.drop_first() } else { sb },
            ));
        }
        k = k + 1;
    }
    proof {
        let sa = if k <= a.len() { a@.skip(k as int) } else { Seq::<char>::empty() };
        let sb = if k <= b.len() { b@.skip(k as int) } else { Seq::<char>::empty() };
        assert(sa.len() == 0 && sb.len() == 0);
    }
    0
}

proof fn lemma_dot_pos(s: Seq<char>)
    ensures
        0 <= dot_pos(s) <= s.len(),
        dot_pos(s) < s.len() ==> s[dot_pos(s)] == '.',
    decreases s.len(),
{
    if s.len() > 0 && s[0] != '.' {
        lemma_dot_pos(s.drop_first());
    }
}

fn mantissa_digits_exec(body: &[char], p: usize, d: usize) -> (digits: Vec<char>)
    requires
        d <= p <= body@.len(),
        d == dot_pos(body@.take(p as int)),
    ensures
        digits@ == mantissa_digits(body@.take(p as int)),
{
    let ghost m = body@.take(p as int);
    let mut digits: Vec<char> = Vec::new();
    let mut i: usize = 0;
    while i < p
        invariant
            0 <= i <= p <= body@.len(),
            d <= p,
            m == body@.take(p as int),
            digits@ == (if i <= d { m.take(i as int) } else { m.take(d as int) + m.subrange(d + 1, i as int) }),
        decreases p - i,
    {
        if i != d {
            digits.push(body[i]);
        }
        assert(body@[i as int] == m[i as int]);
        i = i + 1;
        proof {
            if i <= d {
                assert(digits@ =~= m.take(i as int));
            } else {
                assert(digits@ =~= m.take(d as int) + m.subrange(d + 1, i as int));
            }
        }
    }
    proof {
        lemma_dot_pos(m);
        if d == p {
            assert(digits@ =~= m);
        } else {
            assert(m.subrange(d + 1, p as int) =~= m.skip(d + 1));
        }
    }
    digits
}

fn lead_zeros_exec(digits: &[char]) -> (z: usize)
    ensures
        z as int == lead_zeros(digits@),
        z <= digits@.len(),
{
    let mut z: usize = 0;
    assert(digits@.skip(0) =~= digits@);
    while z < digits.len() && digits[z] == '0'
        invariant
            0 <= z <= digits.len(),
            lead_zeros(digits@) == z + lead_zeros(digits@.skip(z as int)),
        decreases digits.len() - z,
    {
        assert(digits@.skip(z as int).drop_first() =~= digits@.skip(z + 1));
        z = z + 1;
    }
    z
}

/// The exponent of an unsigned number literal, saturated at `big_exp() + 1` in
/// magnitude.
fn exponent_exec(b: &[char], p: usize) -> (e: i128)
    requires
        is_number(b@),
        p as int == exp_pos(b@),
    ensures
        e == (if exp_value(b@) > big_exp() {
            big_exp() + 1
        } else if exp_value(b@) < -big_exp() {
            -(big_exp() + 1)
        } else {
            exp_value(b@)
        }),
{
    if p == b.len() {
        0
    } else {
        proof {
            lemma_exp_pos(b@);
        }
        let x = vstd::slice::slice_subrange(b, p, b.len());
        assert(x@ =~= b@.skip(p as int));
        if x[1] == '-' {
            -exponent_sat(x, 2)
        } else if x[1] == '+' {
            exponent_sat(x, 2)
        } else {
            exponent_sat(x, 1)
        }
    }
}

/// Whether `s` parses to an `f64` within `30.0..=300.0` (the tempo range).
pub fn in_tempo_range_exec(s: &[char]) -> (r: bool)
    ensures
        r == in_tempo_range(s@),
{
    if !is_float_literal_exec(s) {
        return false;
    }
    if s.len() > 0 && s[0] == '-' {
        return false;
    }
    let start: usize = if s.len() > 0 && s[0] == '+' { 1 } else { 0 };
    let body = vstd::slice::slice_subrange(s, start, s.len());
    assert(body@ =~= unsigned_part(s@));
    let lowered = crate::text::lower_chars(body);
    if crate::text::equals_str(lowered.as_slice(), "inf") || crate::text::equals_str(lowered.as_slice(), "infinity")
        || crate::text::equals_str(lowered.as_slice(), "nan")
    {
        return false;
    }
    let ghost b = body@;
    let p = exp_pos_exec(body, 0);
    assert(body@.skip(0) =~= body@);
    let d = dot_pos_exec(body, 0, p);
    assert(b.subrange(0, p as int) =~= b.take(p as int));
    let digits = mantissa_digits_exec(body, p, d);
    let z = lead_zeros_exec(digits.as_slice());
    if z == digits.len() {
        assert(digits@.skip(z as int) =~= Seq::<char>::empty());
        return false;
    }
    let sig = vstd::slice::slice_subrange(digits.as_slice(), z, digits.len());
    assert(sig@ =~= significand(b));
    let e = exponent_exec(body, p);
    let pt: i128 = (d as i128) + e - (z as i128);
    proof {
        assert(body@.len() <= usize::MAX);
        if exp_value(b) > big_exp() || exp_value(b) < -big_exp() {
            assert(pt > 3 || pt < 2);
            assert(point(b) > 3 || point(b) < 2);
        } else {
            assert(pt == point(b));
        }
    }
    if pt == 2 {
        digit_order_exec(sig, chars_of_low().as_slice()) >= 0
    } else if pt == 3 {
        digit_order_exec(sig, chars_of_high().as_slice()) <= 0
    } else {
        false
    }
}

fn chars_of_low() -> (r: Vec<char>)
    ensures
        r@ == low_digits(),
{
    crate::text::chars_of("299999999999999982236431605997495353221893310546875")
}

fn chars_of_high() -> (r: Vec<char>)
    ensures
        r@ == high_digits(),
{
    crate::text::chars_of("300000000000000028421709430404007434844970703125")
}

} // verus!

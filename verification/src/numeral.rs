use vstd::prelude::*;

verus! {

pub open spec fn is_digit(c: char) -> bool {
    '0' <= c <= '9'
}

pub open spec fn digit_value(c: char) -> nat {
    (c as int - '0' as int) as nat
}

/// Length of the run of decimal digits at the start of `s`.
pub open spec fn digit_run(s: Seq<char>) -> nat
    decreases s.len(),
{
    if s.len() > 0 && is_digit(s[0]) {
        1 + digit_run(s.drop_first())
    } else {
        0
    }
}

/// The natural number written by the decimal digits `d` (most significant
/// first); 0 for the empty sequence.
pub open spec fn digits_value(d: Seq<char>) -> nat
    decreases d.len(),
{
    if d.len() == 0 {
        0
    } else {
        digits_value(d.drop_last()) * 10 + digit_value(d.last())
    }
}

pub open spec fn pow10(n: nat) -> nat
    decreases n,
{
    if n == 0 {
        1
    } else {
        10 * pow10((n - 1) as nat)
    }
}

/// Length of an optional leading `+` or `-`.
pub open spec fn sign_len(s: Seq<char>) -> nat {
    if s.len() > 0 && (s[0] == '+' || s[0] == '-') {
        1
    } else {
        0
    }
}

/// What a numeral stands for: a finite number, an infinity, or "not a
/// number" (`inf`, `infinity` and `nan` in the text).
#[derive(Clone, Copy, PartialEq, Eq, Debug, Structural)]
pub enum NumberKind {
    Finite,
    Infinite,
    NotANumber,
}

/// A number read from text. When `kind` is `Finite` it is
/// `(-1)^negative * mantissa * 10^exponent`, exactly as it was written (a
/// negative zero keeps its sign); otherwise it is an infinity or a NaN of
/// the written sign, and `mantissa` and `exponent` are 0.
#[derive(Clone, Copy, PartialEq, Eq, Debug, Structural)]
pub struct Decimal {
    pub kind: NumberKind,
    pub negative: bool,
    pub mantissa: u64,
    pub exponent: i64,
}

/// `s` spells the word whose lower-case letters are `lower` and upper-case
/// letters are `upper`, each letter in either case.
pub open spec fn spells(s: Seq<char>, lower: Seq<char>, upper: Seq<char>) -> bool {
    &&& s.len() == lower.len()
    &&& forall|i: int| 0 <= i < s.len() ==> s[i] == lower[i] || s[i] == upper[i]
}

/// The non-finite values that Rust's `f64::from_str` reads, in any case and
/// after an optional sign: `inf` and `infinity`, then `nan`.
pub open spec fn special_kind(s: Seq<char>) -> Option<NumberKind> {
    let w = s.skip(sign_len(s) as int);
    if spells(w, seq!['i', 'n', 'f'], seq!['I', 'N', 'F']) || spells(
        w,
        seq!['i', 'n', 'f', 'i', 'n', 'i', 't', 'y'],
        seq!['I', 'N', 'F', 'I', 'N', 'I', 'T', 'Y'],
    ) {
        Some(NumberKind::Infinite)
    } else if spells(w, seq!['n', 'a', 'n'], seq!['N', 'A', 'N']) {
        Some(NumberKind::NotANumber)
    } else {
        None
    }
}

/// Position just past the run of digits that starts at `i`.
pub open spec fn digits_end(s: Seq<char>, i: int) -> int {
    i + digit_run(s.skip(i))
}

/// Where the integer digits of a numeral start (after an optional sign).
pub open spec fn int_start(s: Seq<char>) -> int {
    sign_len(s) as int
}

pub open spec fn int_end(s: Seq<char>) -> int {
    digits_end(s, int_start(s))
}

pub open spec fn has_point(s: Seq<char>) -> bool {
    int_end(s) < s.len() && s[int_end(s)] == '.'
}

pub open spec fn frac_start(s: Seq<char>) -> int {
    if has_point(s) {
        int_end(s) + 1
    } else {
        int_end(s)
    }
}

pub open spec fn frac_end(s: Seq<char>) -> int {
    if has_point(s) {
        digits_end(s, frac_start(s))
    } else {
        int_end(s)
    }
}

/// The significant digits: integer digits followed by fraction digits.
pub open spec fn significand(s: Seq<char>) -> Seq<char> {
    s.subrange(int_start(s), int_end(s)) + s.subrange(frac_start(s), frac_end(s))
}

/// Where the exponent digits start, after the marker and an optional sign.
pub open spec fn exp_start(s: Seq<char>) -> int {
    let m = frac_end(s) + 1;
    if m < s.len() && (s[m] == '+' || s[m] == '-') {
        m + 1
    } else {
        m
    }
}

pub open spec fn exp_negative(s: Seq<char>) -> bool {
    frac_end(s) + 1 < s.len() && s[frac_end(s) + 1] == '-'
}

/// The number written by `s` in the grammar of Rust's `f64::from_str`:
/// `[+-]? (inf | infinity | nan | D+ | D+ '.' D* | D* '.' D+) ([eE] [+-]? D+)?`
/// (the exponent only after digits, the words in any case), as
/// `(kind, negative, mantissa, exponent)`; a finite value is
/// `(-1)^negative * mantissa * 10^exponent`, and the other two have mantissa
/// and exponent 0. `None` when `s` is not such a numeral.
pub open spec fn spec_parse_decimal(s: Seq<char>) -> Option<(NumberKind, bool, nat, int)> {
    let negative = s.len() > 0 && s[0] == '-';
    let nf = frac_end(s) - frac_start(s);
    let mantissa = digits_value(significand(s));
    if special_kind(s) is Some {
        Some((special_kind(s)->0, negative, 0, 0))
    } else if significand(s).len() == 0 {
        None
    } else if frac_end(s) == s.len() {
        Some((NumberKind::Finite, negative, mantissa, -nf))
    } else if s[frac_end(s)] == 'e' || s[frac_end(s)] == 'E' {
        if exp_start(s) < s.len() && digits_end(s, exp_start(s)) == s.len() {
            let e = digits_value(s.skip(exp_start(s))) as int;
            Some(
                (
                    NumberKind::Finite,
                    negative,
                    mantissa,
                    (if exp_negative(s) { -e } else { e }) - nf,
                ),
            )
        } else {
            None
        }
    } else {
        None
    }
}

/// Whether the exec `Decimal` is the spec quadruple.
pub open spec fn decimal_is(d: Decimal, t: (NumberKind, bool, nat, int)) -> bool {
    d.kind == t.0 && d.negative == t.1 && d.mantissa == t.2 && d.exponent == t.3
}

/// The integer written by `s` in the grammar of Rust's integer `from_str`:
/// an optional sign (only `+` when `signed` is false) then one or more
/// digits; `None` when `s` is not such a numeral.
pub open spec fn spec_parse_integer(s: Seq<char>, signed: bool) -> Option<int> {
    if s.len() > 0 && s[0] == '-' && !signed {
        None
    } else if int_start(s) < s.len() && int_end(s) == s.len() {
        let v = digits_value(s.skip(int_start(s))) as int;
        Some(if s[0] == '-' { -v } else { v })
    } else {
        None
    }
}

pub proof fn lemma_pow10_monotone(a: nat, b: nat)
    requires
        a <= b,
    ensures
        pow10(a) <= pow10(b),
    decreases b,
{
    if a < b {
        lemma_pow10_monotone(a, (b - 1) as nat);
    }
}

pub proof fn lemma_digits_value_bound(d: Seq<char>)
    requires
        forall|k: int| 0 <= k < d.len() ==> is_digit(#[trigger] d[k]),
    ensures
        digits_value(d) < pow10(d.len()),
    decreases d.len(),
{
    if d.len() > 0 {
        lemma_digits_value_bound(d.drop_last());
    }
}

/// A run of digits from `i` that stops at `j` (at a non-digit or the end)
/// is exactly the digit run of the suffix at `i`.
pub proof fn lemma_digit_run_is(s: Seq<char>, i: int, j: int)
    requires
        0 <= i <= j <= s.len(),
        forall|k: int| i <= k < j ==> is_digit(#[trigger] s[k]),
        j < s.len() ==> !is_digit(s[j]),
    ensures
        digit_run(s.skip(i)) == j - i,
    decreases j - i,
{
    let t = s.skip(i);
    if i < j {
        assert(t[0] == s[i]);
        assert(t.drop_first() =~= s.skip(i + 1));
        lemma_digit_run_is(s, i + 1, j);
    } else if j < s.len() {
        assert(t[0] == s[j]);
    }
}

/// Digit value of the prefix grows by one digit at a time.
pub proof fn lemma_digits_value_push(d: Seq<char>, c: char)
    ensures
        digits_value(d.push(c)) == digits_value(d) * 10 + digit_value(c),
{
    assert(d.push(c).drop_last() =~= d);
}

fn char_is_digit(c: char) -> (r: bool)
    ensures
        r == is_digit(c),
{
    '0' <= c && c <= '9'
}

fn char_digit(c: char) -> (r: u64)
    requires
        is_digit(c),
    ensures
        r == digit_value(c),
        r < 10,
{
    (c as u32 - '0' as u32) as u64
}

/// Scans the digits of `s` from `i` on; returns the end of the run.
fn scan_digits(s: &str, n: usize, i: usize) -> (j: usize)
    requires
        n == s@.len(),
        i <= n,
    ensures
        i <= j <= n,
        forall|k: int| i <= k < j ==> is_digit(#[trigger] s@[k]),
        j < n ==> !is_digit(s@[j as int]),
        digit_run(s@.skip(i as int)) == j - i,
{
    let mut j = i;
    while j < n && char_is_digit(s.get_char(j))
        invariant
            n == s@.len(),
            i <= j <= n,
            forall|k: int| i <= k < j ==> is_digit(#[trigger] s@[k]),
        decreases n - j,
    {
        j = j + 1;
    }
    proof {
        lemma_digit_run_is(s@, i as int, j as int);
    }
    j
}

/// Folds the digits `s[from..to]` into `acc`, the value of `prefix`.
fn accumulate_digits(
    s: &str,
    n: usize,
    from: usize,
    to: usize,
    acc: u64,
    Ghost(prefix): Ghost<Seq<char>>,
) -> (r: u64)
    requires
        n == s@.len(),
        from <= to <= n,
        forall|k: int| from <= k < to ==> is_digit(#[trigger] s@[k]),
        forall|k: int| 0 <= k < prefix.len() ==> is_digit(#[trigger] prefix[k]),
        acc == digits_value(prefix),
        prefix.len() + (to - from) <= 19,
    ensures
        r == digits_value(prefix + s@.subrange(from as int, to as int)),
{
    let mut k = from;
    let mut acc = acc;
    proof {
        assert(prefix + s@.subrange(from as int, from as int) =~= prefix);
    }
    while k < to
        invariant
            n == s@.len(),
            from <= k <= to <= n,
            forall|j: int| from <= j < to ==> is_digit(#[trigger] s@[j]),
            forall|j: int| 0 <= j < prefix.len() ==> is_digit(#[trigger] prefix[j]),
            prefix.len() + (to - from) <= 19,
            acc == digits_value(prefix + s@.subrange(from as int, k as int)),
        decreases to - k,
    {
        let c = s.get_char(k);
        let d = char_digit(c);
        let ghost done = prefix + s@.subrange(from as int, k as int);
        proof {
            assert forall|j: int| 0 <= j < done.len() implies is_digit(#[trigger] done[j]) by {
                if j >= prefix.len() {
                    assert(done[j] == s@[from + j - prefix.len()]);
                }
            }
            lemma_digits_value_bound(done);
            lemma_pow10_monotone(done.len(), 18);
            reveal_with_fuel(pow10, 20);
            assert(done.push(c) =~= prefix + s@.subrange(from as int, k + 1));
            lemma_digits_value_push(done, c);
        }
        acc = acc * 10 + d;
        k = k + 1;
    }
    acc
}

fn is_char(s: &str, n: usize, i: usize, c: char) -> (r: bool)
    requires
        n == s@.len(),
    ensures
        r == (i < n && s@[i as int] == c),
{
    i < n && s.get_char(i) == c
}

/// Locates the parts of a numeral: `(int_start, int_end, frac_start, frac_end)`.
fn numeral_layout(s: &str, n: usize) -> (r: (usize, usize, usize, usize))
    requires
        n == s@.len(),
    ensures
        r.0 == int_start(s@),
        r.1 == int_end(s@),
        r.2 == frac_start(s@),
        r.3 == frac_end(s@),
        r.0 <= r.1 <= r.2 <= r.3 <= n,
        r.2 <= r.1 + 1,
        forall|k: int| r.0 <= k < r.1 ==> is_digit(#[trigger] s@[k]),
        forall|k: int| r.2 <= k < r.3 ==> is_digit(#[trigger] s@[k]),
{
    let int_start: usize = if is_char(s, n, 0, '+') || is_char(s, n, 0, '-') {
        1
    } else {
        0
    };
    let int_end = scan_digits(s, n, int_start);
    let has_point = is_char(s, n, int_end, '.');
    if has_point {
        let frac_end = scan_digits(s, n, int_end + 1);
        (int_start, int_end, int_end + 1, frac_end)
    } else {
        (int_start, int_end, int_end, int_end)
    }
}

/// The value of the significant digits of a numeral laid out as `layout`.
fn significand_value(s: &str, n: usize, layout: (usize, usize, usize, usize)) -> (r: u64)
    requires
        n == s@.len(),
        n <= 19,
        layout.0 == int_start(s@),
        layout.1 == int_end(s@),
        layout.2 == frac_start(s@),
        layout.3 == frac_end(s@),
        layout.0 <= layout.1 <= layout.2 <= layout.3 <= n,
        layout.2 <= layout.1 + 1,
        forall|k: int| layout.0 <= k < layout.1 ==> is_digit(#[trigger] s@[k]),
        forall|k: int| layout.2 <= k < layout.3 ==> is_digit(#[trigger] s@[k]),
    ensures
        r == digits_value(significand(s@)),
{
    let (int_start, int_end, frac_start, frac_end) = layout;
    let ghost int_digits = s@.subrange(int_start as int, int_end as int);
    let int_value = accumulate_digits(s, n, int_start, int_end, 0, Ghost(Seq::empty()));
    assert(Seq::<char>::empty() + int_digits =~= int_digits);
    accumulate_digits(s, n, frac_start, frac_end, int_value, Ghost(int_digits))
}

/// The exponent part of a numeral whose significand ends at `frac_end`
/// and is followed by an exponent marker.
fn exponent_value(s: &str, n: usize, sig_end: usize) -> (r: Option<i64>)
    requires
        n == s@.len(),
        n <= 19,
        sig_end == frac_end(s@),
        sig_end < n,
    ensures
        match r {
            Some(e) => -1_000_000_000_000_000_000 < e < 1_000_000_000_000_000_000 && exp_start(s@) < n && digits_end(s@, exp_start(s@)) == n && e == (if exp_negative(s@) {
                -(digits_value(s@.skip(exp_start(s@))) as int)
            } else {
                digits_value(s@.skip(exp_start(s@))) as int
            }),
            None => !(exp_start(s@) < n && digits_end(s@, exp_start(s@)) == n),
        },
{
    let exp_negative = is_char(s, n, sig_end + 1, '-');
    let exp_start: usize = if is_char(s, n, sig_end + 1, '+') || exp_negative {
        sig_end + 2
    } else {
        sig_end + 1
    };
    if exp_start >= n {
        return None;
    }
    let exp_end = scan_digits(s, n, exp_start);
    if exp_end != n {
        return None;
    }
    let e = accumulate_digits(s, n, exp_start, n, 0, Ghost(Seq::empty()));
    assert(Seq::<char>::empty() + s@.subrange(exp_start as int, n as int) =~= s@.skip(
        exp_start as int,
    ));
    proof {
        lemma_digits_value_bound(s@.skip(exp_start as int));
        lemma_pow10_monotone((n - exp_start) as nat, 18);
        reveal_with_fuel(pow10, 19);
    }
    let e = e as i64;
    if exp_negative {
        Some(-e)
    } else {
        Some(e)
    }
}

/// Whether `s[start..]` spells the word `lower` / `upper`, each letter in
/// either case.
fn spells_from(s: &str, n: usize, start: usize, lower: &str, upper: &str) -> (r: bool)
    requires
        n == s@.len(),
        start <= n,
        lower@.len() == upper@.len(),
    ensures
        r == spells(s@.skip(start as int), lower@, upper@),
{
    let len = lower.unicode_len();
    if n - start != len {
        return false;
    }
    let mut i: usize = 0;
    while i < len
        invariant
            n == s@.len(),
            start <= n,
            n - start == len,
            len == lower@.len(),
            lower@.len() == upper@.len(),
            i <= len,
            forall|j: int|
                0 <= j < i ==> s@.skip(start as int)[j] == lower@[j] || s@.skip(start as int)[j]
                    == upper@[j],
        decreases len - i,
    {
        let c = s.get_char(start + i);
        if c != lower.get_char(i) && c != upper.get_char(i) {
            assert(s@.skip(start as int)[i as int] == c);
            return false;
        }
        i = i + 1;
    }
    true
}

/// The non-finite value, if any, that `s` spells after a sign of length
/// `start`.
fn special_kind_of(s: &str, n: usize, start: usize) -> (r: Option<NumberKind>)
    requires
        n == s@.len(),
        start == sign_len(s@),
    ensures
        r == special_kind(s@),
{
    proof {
        reveal_strlit("inf");
        reveal_strlit("INF");
        reveal_strlit("infinity");
        reveal_strlit("INFINITY");
        reveal_strlit("nan");
        reveal_strlit("NAN");
        assert("inf"@ =~= seq!['i', 'n', 'f']);
        assert("INF"@ =~= seq!['I', 'N', 'F']);
        assert("infinity"@ =~= seq!['i', 'n', 'f', 'i', 'n', 'i', 't', 'y']);
        assert("INFINITY"@ =~= seq!['I', 'N', 'F', 'I', 'N', 'I', 'T', 'Y']);
        assert("nan"@ =~= seq!['n', 'a', 'n']);
        assert("NAN"@ =~= seq!['N', 'A', 'N']);
    }
    if spells_from(s, n, start, "inf", "INF") || spells_from(s, n, start, "infinity", "INFINITY") {
        Some(NumberKind::Infinite)
    } else if spells_from(s, n, start, "nan", "NAN") {
        Some(NumberKind::NotANumber)
    } else {
        None
    }
}

/// Reads a number written as Rust's `f64::from_str` accepts it, exactly,
/// without rounding: a finite numeral as its decimal digits and exponent,
/// `inf`, `infinity` and `nan` (in any case, after an optional sign) as an
/// infinity or a NaN. Fixed-width fields are at most 19 characters long,
/// which is what lets the mantissa fit in 64 bits.
pub fn parse_decimal(s: &str) -> (r: Option<Decimal>)
    requires
        s@.len() <= 19,
    ensures
        match r {
            Some(d) => spec_parse_decimal(s@) matches Some(t) && decimal_is(d, t),
            None => spec_parse_decimal(s@) is None,
        },
{
    let n = s.unicode_len();
    let negative = is_char(s, n, 0, '-');
    let sign: usize = if is_char(s, n, 0, '+') || negative {
        1
    } else {
        0
    };
    match special_kind_of(s, n, sign) {
        Some(kind) => {
            return Some(Decimal { kind, negative, mantissa: 0, exponent: 0 });
        },
        None => {},
    }
    let layout = numeral_layout(s, n);
    let (int_start, int_end, frac_start, frac_end) = layout;
    if int_end - int_start + (frac_end - frac_start) == 0 {
        return None;
    }
    let mantissa = significand_value(s, n, layout);
    let frac_len = (frac_end - frac_start) as i64;
    if frac_end == n {
        return Some(Decimal { kind: NumberKind::Finite, negative, mantissa, exponent: -frac_len });
    }
    if !(is_char(s, n, frac_end, 'e') || is_char(s, n, frac_end, 'E')) {
        return None;
    }
    match exponent_value(s, n, frac_end) {
        Some(e) => Some(
            Decimal { kind: NumberKind::Finite, negative, mantissa, exponent: e - frac_len },
        ),
        None => None,
    }
}

/// Reads an integer as Rust's `usize::from_str` (`signed == false`) or
/// `i32::from_str` (`signed == true`) does. Fields are at most 9 characters
/// long, so every value fits both types.
pub fn parse_integer(s: &str, signed: bool) -> (r: Option<i32>)
    requires
        s@.len() <= 9,
    ensures
        match r {
            Some(v) => spec_parse_integer(s@, signed) == Some(v as int),
            None => spec_parse_integer(s@, signed) is None,
        },
        !signed ==> (r matches Some(v) ==> v >= 0),
        r matches Some(v) ==> -(pow10(s@.len()) as int) < v < pow10(s@.len()),
{
    let n = s.unicode_len();
    let negative = is_char(s, n, 0, '-');
    if negative && !signed {
        return None;
    }
    let start: usize = if is_char(s, n, 0, '+') || negative {
        1
    } else {
        0
    };
    if start >= n {
        return None;
    }
    let end = scan_digits(s, n, start);
    if end != n {
        return None;
    }
    let v = accumulate_digits(s, n, start, n, 0, Ghost(Seq::empty()));
    assert(Seq::<char>::empty() + s@.subrange(start as int, n as int) =~= s@.skip(start as int));
    proof {
        lemma_digits_value_bound(s@.skip(start as int));
        lemma_pow10_monotone((n - start) as nat, 9);
        lemma_pow10_monotone((n - start) as nat, n as nat);
        reveal_with_fuel(pow10, 10);
    }
    let v = v as i32;
    if negative {
        Some(-v)
    } else {
        Some(v)
    }
}

} // verus!

use vstd::prelude::*;

verus! {

/// One `%` directive of a format string: flags, field width, precision (-1 when absent),
/// length modifiers and the conversion byte.
#[derive(Debug, Clone, Copy, PartialEq, Eq, Structural)]
pub struct Directive {
    pub zero_pad: bool,
    pub width: usize,
    pub precision: i32,
    pub long_cnt: usize,
    pub size_t: bool,
    pub spec: u8,
}

/// Byte `b` is an ASCII decimal digit.
pub open spec fn is_digit_byte(b: u8) -> bool {
    48 <= b <= 57
}

/// Byte `b` is a length modifier: `l`, `z` or `h`.
pub open spec fn is_modifier(b: u8) -> bool {
    b == 108 || b == 122 || b == 104
}

/// The end of the run of `0` flags from `p`.
pub open spec fn zeros_end(f: Seq<u8>, p: int) -> int
    decreases f.len() - p,
{
    if 0 <= p < f.len() && f[p] == 48 {
        zeros_end(f, p + 1)
    } else {
        p
    }
}

/// The end of the run of decimal digits from `p`.
pub open spec fn digits_end(f: Seq<u8>, p: int) -> int
    decreases f.len() - p,
{
    if 0 <= p < f.len() && is_digit_byte(f[p]) {
        digits_end(f, p + 1)
    } else {
        p
    }
}

/// The end of the run of length modifiers from `p`.
pub open spec fn mods_end(f: Seq<u8>, p: int) -> int
    decreases f.len() - p,
{
    if 0 <= p < f.len() && is_modifier(f[p]) {
        mods_end(f, p + 1)
    } else {
        p
    }
}

/// The decimal value of the digits `f[p..q]`.
pub open spec fn digits_value(f: Seq<u8>, p: int, q: int) -> int
    decreases q - p,
{
    if q <= p {
        0
    } else {
        digits_value(f, p, q - 1) * 10 + (f[q - 1] - 48)
    }
}

/// How many `l` modifiers `f[p..q]` holds.
pub open spec fn count_l(f: Seq<u8>, p: int, q: int) -> int
    decreases q - p,
{
    if q <= p {
        0
    } else {
        count_l(f, p, q - 1) + if f[q - 1] == 108 { 1int } else { 0 }
    }
}

/// Whether `f[p..q]` holds a `z` modifier.
pub open spec fn has_z(f: Seq<u8>, p: int, q: int) -> bool
    decreases q - p,
{
    if q <= p {
        false
    } else {
        has_z(f, p, q - 1) || f[q - 1] == 122
    }
}

/// Where the width digits of the directive whose text starts at `p` begin.
pub open spec fn width_start(f: Seq<u8>, p: int) -> int {
    zeros_end(f, p)
}

/// Where the width digits end.
pub open spec fn width_end(f: Seq<u8>, p: int) -> int {
    digits_end(f, width_start(f, p))
}

/// The directive has a precision: a `.` follows the width.
pub open spec fn has_precision(f: Seq<u8>, p: int) -> bool {
    let w = width_end(f, p);
    0 <= w < f.len() && f[w] == 46
}

/// Where the precision digits end (the width's end when there is no precision).
pub open spec fn precision_end(f: Seq<u8>, p: int) -> int {
    if has_precision(f, p) {
        digits_end(f, width_end(f, p) + 1)
    } else {
        width_end(f, p)
    }
}

/// The width the directive names.
pub open spec fn width_value(f: Seq<u8>, p: int) -> int {
    digits_value(f, width_start(f, p), width_end(f, p))
}

/// The precision the directive names, -1 when it names none.
pub open spec fn precision_value(f: Seq<u8>, p: int) -> int {
    if has_precision(f, p) {
        digits_value(f, width_end(f, p) + 1, precision_end(f, p))
    } else {
        -1
    }
}

/// Position of the conversion byte of the directive whose text starts at `p`.
pub open spec fn spec_pos(f: Seq<u8>, p: int) -> int {
    mods_end(f, precision_end(f, p))
}

/// The directive whose text starts at `p` (just after its `%`).
pub open spec fn directive_at(f: Seq<u8>, p: int) -> Directive {
    let pe = precision_end(f, p);
    let m = spec_pos(f, p);
    Directive {
        zero_pad: zeros_end(f, p) > p,
        width: width_value(f, p) as usize,
        precision: precision_value(f, p) as i32,
        long_cnt: count_l(f, pe, m) as usize,
        size_t: has_z(f, pe, m),
        spec: f[m],
    }
}

/// The directive at `p` can be read: its numbers fit their types and its conversion byte
/// lies before the end of the string.
pub open spec fn directive_ok(f: Seq<u8>, p: int) -> bool {
    let m = spec_pos(f, p);
    &&& 0 <= p
    &&& width_value(f, p) <= usize::MAX
    &&& precision_value(f, p) <= i32::MAX
    &&& m < f.len()
    &&& f[m] != 0
}

proof fn lemma_zeros_end(f: Seq<u8>, p: int)
    requires
        0 <= p,
    ensures
        p <= zeros_end(f, p),
        zeros_end(f, p) <= f.len() || zeros_end(f, p) == p,
        forall|i: int| p <= i < zeros_end(f, p) ==> #[trigger] f[i] == 48,
    decreases f.len() - p,
{
    if 0 <= p < f.len() && f[p] == 48 {
        lemma_zeros_end(f, p + 1);
    }
}

proof fn lemma_digits_end(f: Seq<u8>, p: int)
    requires
        0 <= p,
    ensures
        p <= digits_end(f, p),
        digits_end(f, p) <= f.len() || digits_end(f, p) == p,
        forall|i: int| p <= i < digits_end(f, p) ==> #[trigger] is_digit_byte(f[i]),
    decreases f.len() - p,
{
    if 0 <= p < f.len() && is_digit_byte(f[p]) {
        lemma_digits_end(f, p + 1);
    }
}

proof fn lemma_mods_end(f: Seq<u8>, p: int)
    requires
        0 <= p,
    ensures
        p <= mods_end(f, p),
        mods_end(f, p) <= f.len() || mods_end(f, p) == p,
    decreases f.len() - p,
{
    if 0 <= p < f.len() && is_modifier(f[p]) {
        lemma_mods_end(f, p + 1);
    }
}

/// The conversion byte comes at or after the start of the directive.
pub proof fn lemma_spec_pos(f: Seq<u8>, p: int)
    requires
        0 <= p,
    ensures
        p <= spec_pos(f, p),
{
    lemma_zeros_end(f, p);
    lemma_digits_end(f, zeros_end(f, p));
    if has_precision(f, p) {
        lemma_digits_end(f, width_end(f, p) + 1);
    }
    lemma_mods_end(f, precision_end(f, p));
}

/// A prefix of a run of digits has no greater value than the whole run.
proof fn lemma_digits_prefix(f: Seq<u8>, p: int, q: int, r: int)
    requires
        p <= q <= r,
        forall|i: int| p <= i < r ==> #[trigger] is_digit_byte(f[i]),
    ensures
        0 <= digits_value(f, p, q) <= digits_value(f, p, r),
    decreases r - p,
{
    if r > p {
        let q2 = if q < r { q } else { r - 1 };
        lemma_digits_prefix(f, p, q2, r - 1);
        assert(is_digit_byte(f[r - 1]));
    }
}

/// Skips the `0` flags from `p`.
fn skip_zeros(f: &[u8], p: usize) -> (r: usize)
    ensures
        r == zeros_end(f@, p as int),
{
    let n = f.len();
    let mut q = p;
    while q < n && f[q] == 48
        invariant
            n == f@.len(),
            p <= q,
            zeros_end(f@, p as int) == zeros_end(f@, q as int),
        decreases n - q,
    {
        q += 1;
    }
    q
}

/// Reads the decimal number from `p`: its value and where its digits end.
fn read_number(f: &[u8], p: usize, bound: usize) -> (r: (usize, usize))
    requires
        digits_value(f@, p as int, digits_end(f@, p as int)) <= bound,
    ensures
        r.1 == digits_end(f@, p as int),
        r.0 == digits_value(f@, p as int, r.1 as int),
{
    let n = f.len();
    let mut q = p;
    let mut v: usize = 0;
    proof {
        lemma_digits_end(f@, p as int);
    }
    while q < n && 48 <= f[q] && f[q] <= 57
        invariant
            n == f@.len(),
            p <= q,
            digits_end(f@, p as int) == digits_end(f@, q as int),
            q <= digits_end(f@, p as int),
            forall|i: int| p <= i < digits_end(f@, p as int) ==> #[trigger] is_digit_byte(f@[i]),
            v == digits_value(f@, p as int, q as int),
            digits_value(f@, p as int, digits_end(f@, p as int)) <= bound,
        decreases n - q,
    {
        proof {
            lemma_digits_end(f@, q as int + 1);
            lemma_digits_end(f@, q as int);
            lemma_digits_prefix(f@, p as int, q as int + 1, digits_end(f@, p as int));
        }
        v = v * 10 + (f[q] - 48) as usize;
        q += 1;
    }
    (v, q)
}

/// Skips the length modifiers from `p`, counting the `l`s and noting a `z`.
fn read_modifiers(f: &[u8], p: usize) -> (r: (usize, usize, bool))
    requires
        p <= f@.len(),
    ensures
        r.0 == mods_end(f@, p as int),
        r.1 == count_l(f@, p as int, r.0 as int),
        r.2 == has_z(f@, p as int, r.0 as int),
{
    let n = f.len();
    let mut q = p;
    let mut longs: usize = 0;
    let mut z = false;
    while q < n && (f[q] == 108 || f[q] == 122 || f[q] == 104)
        invariant
            n == f@.len(),
            p <= q <= n,
            mods_end(f@, p as int) == mods_end(f@, q as int),
            longs == count_l(f@, p as int, q as int),
            longs <= q - p,
            z == has_z(f@, p as int, q as int),
        decreases n - q,
    {
        if f[q] == 108 {
            longs += 1;
        } else if f[q] == 122 {
            z = true;
        }
        q += 1;
    }
    (q, longs, z)
}

/// Reads the directive whose text starts at `p`, just after its `%`. Returns it with the
/// position after its conversion byte.
pub fn parse_directive(f: &[u8], p: usize) -> (r: (Directive, usize))
    requires
        directive_ok(f@, p as int),
    ensures
        r.0 == directive_at(f@, p as int),
        r.1 == spec_pos(f@, p as int) + 1,
{
    let n = f.len();
    let z = skip_zeros(f, p);
    proof {
        lemma_zeros_end(f@, p as int);
        lemma_digits_end(f@, z as int);
    }
    let (width, w) = read_number(f, z, usize::MAX);
    let mut precision: i32 = -1;
    let mut pe = w;
    if w < n && f[w] == 46 {
        let (pv, q) = read_number(f, w + 1, 0x7fff_ffff);
        precision = pv as i32;
        pe = q;
    }
    proof {
        lemma_spec_pos(f@, p as int);
    }
    let (m, longs, size_t) = read_modifiers(f, pe);
    let d = Directive { zero_pad: z > p, width, precision, long_cnt: longs, size_t, spec: f[m] };
    (d, m + 1)
}


/// The ASCII digit for value `d`: `0`-`9`, then letters, upper or lower case.
pub open spec fn digit_char(d: int, upper: bool) -> u8 {
    if d < 10 {
        (d + 48) as u8
    } else if upper {
        (d - 10 + 65) as u8
    } else {
        (d - 10 + 97) as u8
    }
}

/// The digits of `n` in base `base`, most significant first, without leading zeros
/// (`0` for zero).
pub open spec fn digits(n: nat, base: nat, upper: bool) -> Seq<u8>
    decreases n,
{
    if base < 2 || n < base {
        seq![digit_char(n as int, upper)]
    } else {
        proof {
            vstd::arithmetic::div_mod::lemma_div_decreases(n as int, base as int);
        }
        digits(n / base, base, upper).push(digit_char((n % base) as int, upper))
    }
}

/// `n` zero digits.
pub open spec fn zeros(n: int) -> Seq<u8> {
    Seq::new(n as nat, |i: int| 48u8)
}

/// Digits `t` left-padded with zeros up to `precision` digits.
pub open spec fn with_precision(t: Seq<u8>, precision: int) -> Seq<u8> {
    if precision >= 0 && t.len() < precision {
        zeros(precision - t.len()) + t
    } else {
        t
    }
}

/// The decimal text of `v`, with a leading `-` when negative.
pub open spec fn signed_text(v: i64) -> Seq<u8> {
    if v < 0 {
        seq![45u8] + digits((-v) as nat, 10, false)
    } else {
        digits(v as nat, 10, false)
    }
}

/// The decimal text of `v` padded with zeros after the sign until the whole text is
/// `precision` bytes long.
pub open spec fn signed_with_precision(v: i64, precision: int) -> Seq<u8> {
    let t = signed_text(v);
    if precision >= 0 && t.len() < precision {
        if v < 0 {
            seq![45u8] + zeros(precision - t.len()) + digits((-v) as nat, 10, false)
        } else {
            zeros(precision - t.len()) + t
        }
    } else {
        t
    }
}

/// `s` right-aligned in a field of `width` bytes, padded with zeros or spaces.
pub open spec fn padded(s: Seq<u8>, width: int, zero: bool) -> Seq<u8> {
    if s.len() < width {
        Seq::new((width - s.len()) as nat, |i: int| if zero { 48u8 } else { 32u8 }) + s
    } else {
        s
    }
}

/// What a `%s` argument prints: `(null)` for a null pointer, otherwise the string cut to
/// `precision` bytes when one is given.
pub open spec fn text_arg(s: Option<Seq<u8>>, precision: int) -> Seq<u8> {
    match s {
        None => seq![40u8, 110u8, 117u8, 108u8, 108u8, 41u8],
        Some(t) => if precision >= 0 && t.len() > precision {
            t.subrange(0, precision)
        } else {
            t
        },
    }
}

/// `digits(n)` has at most 64 digits for a 64-bit `n`.
pub proof fn lemma_digits_len(n: nat, base: nat, upper: bool)
    requires
        n < 0x1_0000_0000_0000_0000,
        base >= 2,
    ensures
        1 <= digits(n, base, upper).len() <= 64,
{
    lemma_digits_pow(n, base, upper);
    let k = digits(n, base, upper).len();
    if k > 64 {
        vstd::arithmetic::power2::lemma2_to64();
        vstd::arithmetic::power2::lemma_pow2_strictly_increases(64, (k - 1) as nat);
    }
}

/// `n` has at least `2^(k-1)` for `k` digits when it is not zero.
proof fn lemma_digits_pow(n: nat, base: nat, upper: bool)
    requires
        base >= 2,
    ensures
        digits(n, base, upper).len() >= 1,
        n >= 1 ==> vstd::arithmetic::power2::pow2((digits(n, base, upper).len() - 1) as nat) <= n,
    decreases n,
{
    if n >= base {
        vstd::arithmetic::div_mod::lemma_div_decreases(n as int, base as int);
        lemma_digits_pow(n / base, base, upper);
        let k = digits(n, base, upper).len();
        assert(k == digits(n / base, base, upper).len() + 1);
        vstd::arithmetic::power2::lemma_pow2_unfold((k - 1) as nat);
        vstd::arithmetic::div_mod::lemma_fundamental_div_mod(n as int, base as int);
        assert(n / base >= 1) by (nonlinear_arith)
            requires
                n >= base,
                base >= 2,
        {
            vstd::arithmetic::div_mod::lemma_div_is_ordered(base as int, n as int, base as int);
        }
        assert(2 * (n / base) <= n) by (nonlinear_arith)
            requires
                n == base * (n / base) + n % base,
                n % base >= 0,
                base >= 2,
                n / base >= 0,
        ;
    } else {
        vstd::arithmetic::power2::lemma2_to64();
    }
}

/// A quotient by a divisor no greater than the dividend is at least one.
proof fn lemma_quotient_pos(x: int, d: int)
    requires
        0 < d <= x,
    ensures
        x / d >= 1,
{
    vstd::arithmetic::div_mod::lemma_div_is_ordered(d, x, d);
    vstd::arithmetic::div_mod::lemma_div_basics(d);
}

/// How many digits `n` has in base `base`.
fn digit_count(n: u64, base: u64) -> (r: usize)
    requires
        2 <= base <= 36,
    ensures
        r == digits(n as nat, base as nat, false).len(),
        1 <= r <= 64,
{
    proof {
        lemma_digits_len(n as nat, base as nat, false);
    }
    if n == 0 {
        return 1;
    }
    let mut len: usize = 0;
    let mut temp = n;
    while temp > 0
        invariant
            2 <= base <= 36,
            temp <= n,
            temp > 0 ==> digits(n as nat, base as nat, false).len() == len + digits(temp as nat, base as nat, false).len(),
            temp == 0 ==> digits(n as nat, base as nat, false).len() == len,
            digits(n as nat, base as nat, false).len() <= 64,
        decreases temp,
    {
        proof {
            lemma_digits_len(temp as nat, base as nat, false);
            vstd::arithmetic::div_mod::lemma_div_decreases(temp as int, base as int);
            if temp >= base {
                lemma_quotient_pos(temp as int, base as int);
                assert(digits(temp as nat, base as nat, false).len() == digits((temp / base) as nat, base as nat, false).len() + 1);
            } else {
                vstd::arithmetic::div_mod::lemma_basic_div(temp as int, base as int);
                assert(digits(temp as nat, base as nat, false).len() == 1);
            }
        }
        temp = temp / base;
        len += 1;
    }
    len
}

/// The digit count does not depend on the letter case.
proof fn lemma_digits_case(n: nat, base: nat)
    ensures
        digits(n, base, true).len() == digits(n, base, false).len(),
    decreases n,
{
    if base >= 2 && n >= base {
        vstd::arithmetic::div_mod::lemma_div_decreases(n as int, base as int);
        lemma_digits_case(n / base, base);
    }
}

/// The ASCII digit for `d`.
fn digit_byte(d: u64, uppercase: bool) -> (r: u8)
    requires
        d < 36,
    ensures
        r == digit_char(d as int, uppercase),
{
    if d < 10 {
        d as u8 + 48
    } else if uppercase {
        d as u8 - 10 + 65
    } else {
        d as u8 - 10 + 97
    }
}

/// Writes the digits of `n` in base `base` into `buf` from `at`; returns how many.
fn itoa(n: u64, buf: &mut [u8], at: usize, base: u64, uppercase: bool) -> (len: usize)
    requires
        2 <= base <= 36,
        at + digits(n as nat, base as nat, uppercase).len() <= old(buf)@.len(),
    ensures
        len == digits(n as nat, base as nat, uppercase).len(),
        final(buf)@.len() == old(buf)@.len(),
        final(buf)@.subrange(at as int, at + len) == digits(n as nat, base as nat, uppercase),
        forall|i: int| 0 <= i < old(buf)@.len() && !(at <= i < at + len) ==> #[trigger] final(buf)@[i] == old(buf)@[i],
{
    proof {
        lemma_digits_case(n as nat, base as nat);
    }
    let ghost whole = digits(n as nat, base as nat, uppercase);
    if n == 0 {
        buf[at] = 48;
        assert(buf@.subrange(at as int, at + 1) =~= whole);
        return 1;
    }
    let len = digit_count(n, base);
    let blen = buf.len();
    let mut i = len;
    let mut m = n;
    let ghost b0 = buf@;
    while m > 0
        invariant
            2 <= base <= 36,
            buf@.len() == b0.len(),
            blen == buf@.len(),
            at + len <= buf@.len(),
            whole == digits(n as nat, base as nat, uppercase),
            len == whole.len(),
            i <= len,
            m > 0 ==> i == digits(m as nat, base as nat, uppercase).len(),
            m > 0 ==> whole == digits(m as nat, base as nat, uppercase) + buf@.subrange(at + i, at + len),
            m == 0 ==> i == 0 && whole == buf@.subrange(at as int, at + len),
            forall|j: int| 0 <= j < b0.len() && !(at + i <= j < at + len) ==> #[trigger] buf@[j] == b0[j],
        decreases m,
    {
        proof {
            lemma_digits_case(m as nat, base as nat);
            lemma_digits_pow(m as nat, base as nat, uppercase);
            vstd::arithmetic::div_mod::lemma_div_decreases(m as int, base as int);
        }
        let d = m % base;
        let ghost tail = buf@.subrange(at + i, at + len);
        i -= 1;
        buf[at + i] = digit_byte(d, uppercase);
        proof {
            assert(buf@.subrange(at + i, at + len) =~= seq![digit_char(d as int, uppercase)] + tail);
            if m >= base {
                lemma_quotient_pos(m as int, base as int);
                assert(digits(m as nat, base as nat, uppercase) == digits((m / base) as nat, base as nat, uppercase).push(
                    digit_char(d as int, uppercase),
                ));
                assert(whole =~= digits((m / base) as nat, base as nat, uppercase) + buf@.subrange(at + i, at + len));
            } else {
                vstd::arithmetic::div_mod::lemma_basic_div(m as int, base as int);
                vstd::arithmetic::div_mod::lemma_small_mod(m as nat, base as nat);
                assert(digits(m as nat, base as nat, uppercase) == seq![digit_char(m as int, uppercase)]);
                assert(i == 0);
                assert(whole =~= buf@.subrange(at as int, at + len));
            }
        }
        m = m / base;
    }
    len
}


/// Writes the decimal text of `n` into `buf`, a `-` first when negative; returns its length.
fn itoa_signed(n: i64, buf: &mut [u8]) -> (len: usize)
    requires
        signed_text(n).len() <= old(buf)@.len(),
    ensures
        len == signed_text(n).len(),
        final(buf)@.len() == old(buf)@.len(),
        final(buf)@.subrange(0, len as int) == signed_text(n),
{
    if n < 0 {
        let mag: u64 = if n == i64::MIN { 0x8000_0000_0000_0000u64 } else { (-n) as u64 };
        buf[0] = 45;
        let ghost b1 = buf@;
        let l = itoa(mag, buf, 1, 10, false);
        assert(buf@.subrange(0, 1 + l) =~= seq![45u8] + buf@.subrange(1, 1 + l));
        1 + l
    } else {
        itoa(n as u64, buf, 0, 10, false)
    }
}

/// A value handed to a directive, as the caller fetched it for the directive's kind.
#[derive(Debug)]
pub enum ArgValue {
    Signed(i64),
    Unsigned(u64),
    Text(Option<Vec<u8>>),
    Char(i32),
    Real,
}

/// The C type of the argument a directive consumes.
#[derive(Debug, Clone, Copy, PartialEq, Eq, Structural)]
pub enum ArgKind {
    Int,
    Long,
    Size,
    UInt,
    ULong,
    USize,
    Str,
    Chr,
    Double,
    Nothing,
}

/// The conversion prints a signed decimal: `d` or `i`.
pub open spec fn is_signed_conv(c: u8) -> bool {
    c == 100 || c == 105
}

/// The conversion prints an unsigned number: `u`, `x`, `X` or `p`.
pub open spec fn is_unsigned_conv(c: u8) -> bool {
    c == 117 || c == 120 || c == 88 || c == 112
}

/// The argument directive `d` consumes.
pub open spec fn kind_of(d: Directive) -> ArgKind {
    if is_signed_conv(d.spec) {
        if d.size_t { ArgKind::Size } else if d.long_cnt > 0 { ArgKind::Long } else { ArgKind::Int }
    } else if d.spec == 112 {
        ArgKind::USize
    } else if is_unsigned_conv(d.spec) {
        if d.size_t { ArgKind::USize } else if d.long_cnt > 0 { ArgKind::ULong } else { ArgKind::UInt }
    } else if d.spec == 115 {
        ArgKind::Str
    } else if d.spec == 99 {
        ArgKind::Chr
    } else if d.spec == 102 {
        ArgKind::Double
    } else {
        ArgKind::Nothing
    }
}

/// `a` is a value of the kind `k` asks for.
pub open spec fn arg_matches(k: ArgKind, a: ArgValue) -> bool {
    match k {
        ArgKind::Int | ArgKind::Long | ArgKind::Size => a is Signed,
        ArgKind::UInt | ArgKind::ULong | ArgKind::USize => a is Unsigned,
        ArgKind::Str => a is Text,
        ArgKind::Chr => a is Char,
        ArgKind::Double => a is Real,
        ArgKind::Nothing => true,
    }
}

/// The bytes of a `%s` argument, if it is not null.
pub open spec fn text_view(t: Option<Vec<u8>>) -> Option<Seq<u8>> {
    match t {
        Some(v) => Some(v@),
        None => None,
    }
}

/// What directive `d` prints for argument `a`.
pub open spec fn directive_text(d: Directive, a: ArgValue) -> Seq<u8> {
    let c = d.spec;
    if is_signed_conv(c) {
        match a {
            ArgValue::Signed(v) => padded(signed_with_precision(v, d.precision as int), d.width as int, d.zero_pad),
            _ => Seq::empty(),
        }
    } else if is_unsigned_conv(c) {
        match a {
            ArgValue::Unsigned(v) => padded(
                with_precision(
                    digits(v as nat, if c == 117 { 10nat } else { 16nat }, c == 88),
                    d.precision as int,
                ),
                d.width as int,
                d.zero_pad,
            ),
            _ => Seq::empty(),
        }
    } else if c == 115 {
        match a {
            ArgValue::Text(t) => padded(text_arg(text_view(t), d.precision as int), d.width as int, false),
            _ => Seq::empty(),
        }
    } else if c == 99 {
        match a {
            ArgValue::Char(ch) => seq![ch as u8],
            _ => Seq::empty(),
        }
    } else if c == 102 {
        padded(seq![70u8, 76u8, 79u8, 65u8, 84u8], d.width as int, false)
    } else if c == 37 {
        seq![37u8]
    } else {
        seq![37u8, c]
    }
}

/// The argument directive `d` consumes.
pub fn arg_kind(d: &Directive) -> (k: ArgKind)
    ensures
        k == kind_of(*d),
{
    let c = d.spec;
    if c == 100 || c == 105 {
        if d.size_t { ArgKind::Size } else if d.long_cnt > 0 { ArgKind::Long } else { ArgKind::Int }
    } else if c == 112 {
        ArgKind::USize
    } else if c == 117 || c == 120 || c == 88 {
        if d.size_t { ArgKind::USize } else if d.long_cnt > 0 { ArgKind::ULong } else { ArgKind::UInt }
    } else if c == 115 {
        ArgKind::Str
    } else if c == 99 {
        ArgKind::Chr
    } else if c == 102 {
        ArgKind::Double
    } else {
        ArgKind::Nothing
    }
}

/// Appends `s[from..to]` to `out`.
fn push_range(out: &mut Vec<u8>, s: &[u8], from: usize, to: usize)
    requires
        from <= to <= s@.len(),
    ensures
        final(out)@ == old(out)@ + s@.subrange(from as int, to as int),
{
    let mut k = from;
    while k < to
        invariant
            from <= k <= to,
            to <= s@.len(),
            out@ == old(out)@ + s@.subrange(from as int, k as int),
        decreases to - k,
    {
        out.push(s[k]);
        k += 1;
        assert(out@ =~= old(out)@ + s@.subrange(from as int, k as int));
    }
}

/// Appends `n` copies of `b` to `out`.
fn push_fill(out: &mut Vec<u8>, b: u8, n: usize)
    ensures
        final(out)@ == old(out)@ + Seq::new(n as nat, |i: int| b),
{
    let mut k: usize = 0;
    while k < n
        invariant
            k <= n,
            out@ == old(out)@ + Seq::new(k as nat, |i: int| b),
        decreases n - k,
    {
        out.push(b);
        k += 1;
        assert(out@ =~= old(out)@ + Seq::new(k as nat, |i: int| b));
    }
}

/// Appends `s` right-aligned in a field of `width` bytes, padded with zeros or spaces.
fn write_padded(out: &mut Vec<u8>, s: &[u8], width: usize, zero_pad: bool)
    ensures
        final(out)@ == old(out)@ + padded(s@, width as int, zero_pad),
{
    let len = s.len();
    let ghost o0 = out@;
    if len < width {
        let pad_char: u8 = if zero_pad { 48 } else { 32 };
        push_fill(out, pad_char, width - len);
        let ghost o1 = out@;
        push_range(out, s, 0, len);
        assert(Seq::new((width - len) as nat, |i: int| pad_char) =~= Seq::new(
            (width - len) as nat,
            |i: int| if zero_pad { 48u8 } else { 32u8 },
        ));
        assert(s@.subrange(0, len as int) =~= s@);
        assert(out@ =~= o0 + padded(s@, width as int, zero_pad));
    } else {
        push_range(out, s, 0, len);
        assert(s@.subrange(0, len as int) =~= s@);
    }
}

/// The text of signed `v` under `precision`.
fn signed_field(v: i64, precision: i32) -> (t: Vec<u8>)
    ensures
        t@ == signed_with_precision(v, precision as int),
{
    let mut buf: Vec<u8> = vec![0u8; 66];
    proof {
        let mag: nat = if v < 0 { (-v) as nat } else { v as nat };
        lemma_digits_len(mag, 10, false);
    }
    let len = itoa_signed(v, buf.as_mut_slice());
    let ghost t0 = signed_text(v);
    let mut tmp: Vec<u8> = Vec::new();
    if precision >= 0 && len < precision as usize {
        let pad_count = precision as usize - len;
        if buf[0] == 45 {
            assert(v < 0) by {
                if v >= 0 {
                    lemma_digits_first(v as nat);
                    assert(buf@[0] == t0[0]);
                }
            }
            tmp.push(45);
            push_fill(&mut tmp, 48, pad_count);
            push_range(&mut tmp, buf.as_slice(), 1, len);
            proof {
                assert(Seq::new(pad_count as nat, |i: int| 48u8) =~= zeros(pad_count as int));
                assert(buf@.subrange(1, len as int) =~= t0.subrange(1, len as int));
                assert(t0.subrange(1, len as int) =~= digits((-v) as nat, 10, false));
                assert(tmp@ =~= seq![45u8] + zeros(precision - t0.len()) + digits((-v) as nat, 10, false));
            }
        } else {
            assert(v >= 0) by {
                if v < 0 {
                    assert(buf@[0] == t0[0]);
                }
            }
            push_fill(&mut tmp, 48, pad_count);
            push_range(&mut tmp, buf.as_slice(), 0, len);
            proof {
                assert(Seq::new(pad_count as nat, |i: int| 48u8) =~= zeros(pad_count as int));
                assert(tmp@ =~= zeros(precision - t0.len()) + t0);
            }
        }
    } else {
        push_range(&mut tmp, buf.as_slice(), 0, len);
    }
    tmp
}

/// The first digit of a number is never a `-`.
proof fn lemma_digits_first(n: nat)
    ensures
        digits(n, 10, false)[0] != 45u8,
        digits(n, 10, false).len() >= 1,
    decreases n,
{
    if n >= 10 {
        vstd::arithmetic::div_mod::lemma_div_decreases(n as int, 10);
        lemma_digits_first(n / 10);
    }
}

/// The digits of unsigned `v` in base `base` under `precision`.
fn unsigned_field(v: u64, base: u64, upper: bool, precision: i32) -> (t: Vec<u8>)
    requires
        base == 10 || base == 16,
    ensures
        t@ == with_precision(digits(v as nat, base as nat, upper), precision as int),
{
    let mut buf: Vec<u8> = vec![0u8; 64];
    proof {
        lemma_digits_len(v as nat, base as nat, upper);
    }
    let len = itoa(v, buf.as_mut_slice(), 0, base, upper);
    let mut tmp: Vec<u8> = Vec::new();
    if precision >= 0 && len < precision as usize {
        push_fill(&mut tmp, 48, precision as usize - len);
        push_range(&mut tmp, buf.as_slice(), 0, len);
        assert(Seq::new((precision as usize - len) as nat, |i: int| 48u8) =~= zeros(precision - len));
    } else {
        push_range(&mut tmp, buf.as_slice(), 0, len);
    }
    tmp
}

/// Appends what directive `d` prints for argument `a`.
pub fn render(d: &Directive, a: &ArgValue, out: &mut Vec<u8>)
    requires
        arg_matches(kind_of(*d), *a),
    ensures
        final(out)@ == old(out)@ + directive_text(*d, *a),
{
    let c = d.spec;
    if c == 100 || c == 105 {
        match a {
            ArgValue::Signed(v) => {
                let t = signed_field(*v, d.precision);
                write_padded(out, t.as_slice(), d.width, d.zero_pad);
            },
            _ => {},
        }
    } else if c == 117 || c == 120 || c == 88 || c == 112 {
        match a {
            ArgValue::Unsigned(v) => {
                let base: u64 = if c == 117 { 10 } else { 16 };
                let t = unsigned_field(*v, base, c == 88, d.precision);
                write_padded(out, t.as_slice(), d.width, d.zero_pad);
            },
            _ => {},
        }
    } else if c == 115 {
        match a {
            ArgValue::Text(t) => {
                match t {
                    None => {
                        let null_text: [u8; 6] = [40, 110, 117, 108, 108, 41];
                        write_padded(out, &null_text, d.width, false);
                        assert(null_text@ =~= seq![40u8, 110u8, 117u8, 108u8, 108u8, 41u8]);
                    },
                    Some(bytes) => {
                        let len = bytes.len();
                        let actual_len = if d.precision >= 0 && len > d.precision as usize { d.precision as usize } else { len };
                        let mut cut: Vec<u8> = Vec::new();
                        push_range(&mut cut, bytes.as_slice(), 0, actual_len);
                        assert(cut@ =~= text_arg(text_view(*t), d.precision as int));
                        write_padded(out, cut.as_slice(), d.width, false);
                    },
                }
            },
            _ => {},
        }
    } else if c == 99 {
        match a {
            ArgValue::Char(ch) => {
                out.push(*ch as u8);
            },
            _ => {},
        }
    } else if c == 102 {
        let float_text: [u8; 5] = [70, 76, 79, 65, 84];
        write_padded(out, &float_text, d.width, false);
        assert(float_text@ =~= seq![70u8, 76u8, 79u8, 65u8, 84u8]);
    } else if c == 37 {
        out.push(37);
    } else {
        out.push(37);
        out.push(c);
    }
}


/// How many arguments directive `d` consumes.
pub open spec fn arg_count(d: Directive) -> int {
    if kind_of(d) == ArgKind::Nothing { 0 } else { 1 }
}

/// The format `f` from byte `p` can be printed with `args` from index `ai`: every
/// directive is well formed, numeric precisions stay within 64 digits, and each directive
/// that consumes an argument finds one of its kind.
pub open spec fn printf_ok(f: Seq<u8>, p: int, args: Seq<ArgValue>, ai: int) -> bool
    decreases f.len() - p,
{
    if p < 0 || p >= f.len() || f[p] == 0 {
        true
    } else if f[p] != 37 {
        printf_ok(f, p + 1, args, ai)
    } else {
        let d = directive_at(f, p + 1);
        let next = spec_pos(f, p + 1) + 1;
        &&& directive_ok(f, p + 1)
        &&& (is_signed_conv(d.spec) || is_unsigned_conv(d.spec) ==> d.precision <= 64)
        &&& (arg_count(d) == 1 ==> 0 <= ai < args.len() && arg_matches(kind_of(d), args[ai]))
        &&& next > p
        &&& printf_ok(f, next, args, ai + arg_count(d))
    }
}

/// What printing format `f` from byte `p` with `args` from index `ai` outputs: bytes
/// other than `%` as they are, each directive as `directive_text` says, up to the
/// terminating zero.
pub open spec fn printf_out(f: Seq<u8>, p: int, args: Seq<ArgValue>, ai: int) -> Seq<u8>
    decreases f.len() - p,
{
    if p < 0 || p >= f.len() || f[p] == 0 {
        Seq::empty()
    } else if f[p] != 37 {
        seq![f[p]] + printf_out(f, p + 1, args, ai)
    } else {
        let d = directive_at(f, p + 1);
        let next = spec_pos(f, p + 1) + 1;
        if next <= p || next > f.len() {
            Seq::empty()
        } else {
            directive_text(d, args[ai]) + printf_out(f, next, args, ai + arg_count(d))
        }
    }
}

/// The argument kinds format `f` consumes from byte `p`, in order.
pub open spec fn kinds_from(f: Seq<u8>, p: int) -> Seq<ArgKind>
    decreases f.len() - p,
{
    if p < 0 || p >= f.len() || f[p] == 0 {
        Seq::empty()
    } else if f[p] != 37 {
        kinds_from(f, p + 1)
    } else {
        let d = directive_at(f, p + 1);
        let next = spec_pos(f, p + 1) + 1;
        if next <= p || next > f.len() {
            Seq::empty()
        } else if arg_count(d) == 1 {
            seq![kind_of(d)] + kinds_from(f, next)
        } else {
            kinds_from(f, next)
        }
    }
}

/// The format `f` is well formed from byte `p`: every directive can be read and numeric
/// precisions stay within 64 digits.
pub open spec fn format_ok(f: Seq<u8>, p: int) -> bool
    decreases f.len() - p,
{
    if p < 0 || p >= f.len() || f[p] == 0 {
        true
    } else if f[p] != 37 {
        format_ok(f, p + 1)
    } else {
        let d = directive_at(f, p + 1);
        let next = spec_pos(f, p + 1) + 1;
        &&& directive_ok(f, p + 1)
        &&& (is_signed_conv(d.spec) || is_unsigned_conv(d.spec) ==> d.precision <= 64)
        &&& next > p
        &&& format_ok(f, next)
    }
}

/// The kinds of argument a well-formed format consumes, in order: what a caller fetches
/// before printing.
pub fn arg_kinds(f: &[u8]) -> (r: Vec<ArgKind>)
    requires
        format_ok(f@, 0),
    ensures
        r@ == kinds_from(f@, 0),
{
    let n = f.len();
    let mut p: usize = 0;
    let mut r: Vec<ArgKind> = Vec::new();
    while p < n && f[p] != 0
        invariant
            n == f@.len(),
            p <= n,
            format_ok(f@, p as int),
            r@ + kinds_from(f@, p as int) == kinds_from(f@, 0),
        decreases n - p,
    {
        if f[p] != 37 {
            p += 1;
        } else {
            let (d, next) = parse_directive(f, p + 1);
            proof {
                lemma_spec_pos(f@, p + 1);
            }
            let k = arg_kind(&d);
            let ghost r0 = r@;
            if k != ArgKind::Nothing {
                r.push(k);
                assert(r0 + kinds_from(f@, p as int) =~= r@ + kinds_from(f@, next as int));
            }
            p = next;
        }
    }
    r
}

/// Prints format `f` with `args`: the bytes `printf_out` describes.
pub fn printf_core(f: &[u8], args: &[ArgValue]) -> (out: Vec<u8>)
    requires
        printf_ok(f@, 0, args@, 0),
    ensures
        out@ == printf_out(f@, 0, args@, 0),
{
    let n = f.len();
    let mut p: usize = 0;
    let mut ai: usize = 0;
    let mut out: Vec<u8> = Vec::new();
    while p < n && f[p] != 0
        invariant
            n == f@.len(),
            p <= n,
            ai <= args@.len(),
            printf_ok(f@, p as int, args@, ai as int),
            out@ + printf_out(f@, p as int, args@, ai as int) == printf_out(f@, 0, args@, 0),
        decreases n - p,
    {
        let ghost o0 = out@;
        if f[p] != 37 {
            out.push(f[p]);
            assert(o0 + printf_out(f@, p as int, args@, ai as int) =~= out@ + printf_out(f@, p + 1, args@, ai as int));
            p += 1;
        } else {
            let (d, next) = parse_directive(f, p + 1);
            proof {
                lemma_spec_pos(f@, p + 1);
            }
            let k = arg_kind(&d);
            if k != ArgKind::Nothing {
                render(&d, &args[ai], &mut out);
                assert(o0 + printf_out(f@, p as int, args@, ai as int) =~= out@ + printf_out(f@, next as int, args@, ai + 1));
                ai += 1;
            } else {
                let none = ArgValue::Real;
                render(&d, &none, &mut out);
                assert(directive_text(d, none) == directive_text(d, args@[ai as int]));
                assert(o0 + printf_out(f@, p as int, args@, ai as int) =~= out@ + printf_out(f@, next as int, args@, ai as int));
            }
            p = next;
        }
    }
    out
}

/// Prints format `f` with `args` into `buf`, keeping at most `size - 1` bytes and a
/// terminating zero when `size` is not zero; returns how many bytes the whole output has.
pub fn vsnprintf(buf: &mut [u8], size: usize, f: &[u8], args: &[ArgValue]) -> (written: i32)
    requires
        size <= old(buf)@.len(),
        printf_ok(f@, 0, args@, 0),
        printf_out(f@, 0, args@, 0).len() <= i32::MAX,
    ensures
        written == printf_out(f@, 0, args@, 0).len(),
        final(buf)@.len() == old(buf)@.len(),
        ({
            let out = printf_out(f@, 0, args@, 0);
            let kept = if size == 0 { 0 } else if out.len() < size - 1 { out.len() as int } else { size - 1 };
            &&& forall|i: int| 0 <= i < kept ==> #[trigger] final(buf)@[i] == out[i]
            &&& size > 0 ==> final(buf)@[kept] == 0
            &&& forall|i: int| kept + (if size > 0 { 1int } else { 0 }) <= i < old(buf)@.len() ==> #[trigger] final(buf)@[i] == old(buf)@[i]
        }),
{
    let out = printf_core(f, args);
    let total = out.len();
    let limit = if size == 0 { 0 } else { size - 1 };
    let kept = if total < limit { total } else { limit };
    let mut k: usize = 0;
    while k < kept
        invariant
            kept <= limit,
            limit <= size,
            size <= buf@.len(),
            kept <= out@.len(),
            buf@.len() == old(buf)@.len(),
            k <= kept,
            forall|i: int| 0 <= i < k ==> #[trigger] buf@[i] == out@[i],
            forall|i: int| k <= i < buf@.len() ==> #[trigger] buf@[i] == old(buf)@[i],
        decreases kept - k,
    {
        buf[k] = out[k];
        k += 1;
    }
    if size > 0 {
        buf[kept] = 0;
    }
    total as i32
}


/// The value of digit byte `c`: `0`-`9`, then `a`-`f` or `A`-`F` for ten to fifteen; 16 for
/// any other byte.
pub open spec fn digit_value(c: u8) -> int {
    if 48 <= c <= 57 {
        c - 48
    } else if 97 <= c <= 102 {
        c - 87
    } else if 65 <= c <= 70 {
        c - 55
    } else {
        16
    }
}

/// The number the digit bytes `s` spell in base `base`, most significant first.
pub open spec fn value_in(s: Seq<u8>, base: int) -> int
    decreases s.len(),
{
    if s.len() == 0 {
        0
    } else {
        value_in(s.drop_last(), base) * base + digit_value(s.last())
    }
}

/// Whether `c` is a digit of base `base` written in the case `upper` asks for.
pub open spec fn is_digit_of(c: u8, base: int, upper: bool) -> bool {
    &&& digit_value(c) < base
    &&& (65 <= c <= 70 ==> upper)
    &&& (97 <= c <= 102 ==> !upper)
}

/// The digits of a number in a base from 2 to 16 spell that number, are digits of the base
/// in the case asked for, are at least one, and have no leading zero.
pub proof fn lemma_digits_spell(n: nat, base: nat, upper: bool)
    requires
        2 <= base <= 16,
    ensures
        value_in(digits(n, base, upper), base as int) == n,
        digits(n, base, upper).len() >= 1,
        forall|i: int| 0 <= i < digits(n, base, upper).len() ==> is_digit_of(#[trigger] digits(n, base, upper)[i], base as int, upper),
        n > 0 ==> digits(n, base, upper)[0] != 48,
        n == 0 ==> digits(n, base, upper) == seq![48u8],
    decreases n,
{
    let d = digits(n, base, upper);
    if n < base {
        assert(d == seq![digit_char(n as int, upper)]);
        assert(d.drop_last() =~= Seq::<u8>::empty());
        assert(digit_value(digit_char(n as int, upper)) == n);
        assert(d.last() == digit_char(n as int, upper));
        assert(value_in(d.drop_last(), base as int) == 0);
        assert(0 * (base as int) == 0);
    } else {
        let q = n / base;
        let r = n % base;
        vstd::arithmetic::div_mod::lemma_fundamental_div_mod(n as int, base as int);
        assert(q > 0) by (nonlinear_arith)
            requires
                n == base * q + r,
                0 <= r < base,
                n >= base,
        ;
        assert(q < n) by {
            vstd::arithmetic::div_mod::lemma_div_decreases(n as int, base as int);
        }
        lemma_digits_spell(q, base, upper);
        let pre = digits(q, base, upper);
        assert(d == pre.push(digit_char(r as int, upper)));
        assert(d.drop_last() =~= pre);
        assert(d[0] == pre[0]);
        assert forall|i: int| 0 <= i < d.len() implies is_digit_of(#[trigger] d[i], base as int, upper) by {
            if i < pre.len() {
                assert(d[i] == pre[i]);
            }
        }
        assert(r < base);
        assert(digit_value(digit_char(r as int, upper)) == r);
        assert(d.last() == digit_char(r as int, upper));
        assert(q * base == base * q) by (nonlinear_arith);
        assert(value_in(d, base as int) == q * base + r);
    }
}

/// The byte `%d` and friends pad with: `0` when zero padding was asked for, else a space.
pub open spec fn pad_byte(zero: bool) -> u8 {
    if zero { 48u8 } else { 32u8 }
}

/// A field of at least `width` bytes ending in `t`: exactly `max(width, t.len())` bytes,
/// `t` as its suffix and pad bytes before it.
pub open spec fn field_of(out: Seq<u8>, t: Seq<u8>, width: int, zero: bool) -> bool {
    &&& out.len() == if width > t.len() { width } else { t.len() as int }
    &&& out.subrange(out.len() - t.len(), out.len() as int) == t
    &&& forall|i: int| 0 <= i < out.len() - t.len() ==> #[trigger] out[i] == pad_byte(zero)
}

proof fn lemma_padded_field(t: Seq<u8>, width: int, zero: bool)
    ensures
        field_of(padded(t, width, zero), t, width, zero),
{
    let out = padded(t, width, zero);
    if t.len() < width {
        let k = width - t.len();
        assert(out.subrange(k, out.len() as int) =~= t);
    } else {
        assert(out.subrange(0, out.len() as int) =~= t);
    }
}

/// The parts of a field that ends in text `t` whose last `dg.len()` bytes are `dg`: `dg` ends
/// the field, the bytes of `t` before `dg` are where they were in `t`, and the pad bytes
/// come first.
proof fn lemma_field_parts(out: Seq<u8>, t: Seq<u8>, dg: Seq<u8>, width: int, zero: bool)
    requires
        field_of(out, t, width, zero),
        dg.len() <= t.len(),
        t.subrange(t.len() - dg.len(), t.len() as int) == dg,
    ensures
        out.subrange(out.len() - dg.len(), out.len() as int) == dg,
        forall|i: int| out.len() - t.len() <= i < out.len() ==> #[trigger] out[i] == t[i - (out.len() - t.len())],
{
    let k = out.len() - t.len();
    assert forall|i: int| k <= i < out.len() implies #[trigger] out[i] == t[i - k] by {
        assert(out.subrange(k, out.len() as int)[i - k] == out[i]);
    }
    assert(out.subrange(out.len() - dg.len(), out.len() as int) =~= dg) by {
        assert forall|j: int| 0 <= j < dg.len() implies out.subrange(out.len() - dg.len(), out.len() as int)[j] == dg[j] by {
            assert(out[out.len() - dg.len() + j] == t[t.len() - dg.len() + j]);
            assert(t.subrange(t.len() - dg.len(), t.len() as int)[j] == t[t.len() - dg.len() + j]);
        }
    }
}

/// `%d` and `%i` print a signed number right-aligned in a field of the requested width: the
/// field is exactly `max(width, t.len())` bytes and ends in the number's text `t`, the sign
/// counting toward the width like any other byte, with pad bytes before it. The text is a
/// `-` for a negative number, then zeros up to the precision (the sign counted), then the
/// decimal digits of the magnitude.
pub proof fn lemma_signed_directive(d: Directive, v: i64)
    requires
        is_signed_conv(d.spec),
    ensures
        ({
            let out = directive_text(d, ArgValue::Signed(v));
            let mag: nat = if v < 0 { (-v) as nat } else { v as nat };
            let dg = digits(mag, 10, false);
            let sign: int = if v < 0 { 1 } else { 0 };
            let tl: int = if d.precision >= 0 && d.precision > sign + dg.len() { d.precision as int } else { sign + dg.len() };
            &&& out.len() == if d.width > tl { d.width as int } else { tl }
            &&& out.subrange(out.len() - dg.len(), out.len() as int) == dg
            &&& v < 0 ==> out[out.len() - tl] == 45u8
            &&& forall|i: int| out.len() - tl + sign <= i < out.len() - dg.len() ==> #[trigger] out[i] == 48u8
            &&& forall|i: int| 0 <= i < out.len() - tl ==> #[trigger] out[i] == pad_byte(d.zero_pad)
        }),
{
    let t = signed_with_precision(v, d.precision as int);
    let out = directive_text(d, ArgValue::Signed(v));
    assert(out == padded(t, d.width as int, d.zero_pad));
    lemma_padded_field(t, d.width as int, d.zero_pad);
    let mag: nat = if v < 0 { (-v) as nat } else { v as nat };
    let dg = digits(mag, 10, false);
    let sign: int = if v < 0 { 1 } else { 0 };
    let tl: int = if d.precision >= 0 && d.precision > sign + dg.len() { d.precision as int } else { sign + dg.len() };
    assert(t.len() == tl);
    assert(t.subrange(tl - dg.len(), tl) =~= dg);
    lemma_field_parts(out, t, dg, d.width as int, d.zero_pad);
    let k = out.len() - tl;
    assert forall|i: int| k + sign <= i < out.len() - dg.len() implies #[trigger] out[i] == 48u8 by {
        assert(out[i] == t[i - k]);
    }
    if v < 0 {
        assert(out[k] == t[0]);
    }
}

/// `%u`, `%x`, `%X` and `%p` print an unsigned number right-aligned in a field of the
/// requested width: the digits of the number in base 10 (`u`) or 16 (lowercase, uppercase
/// for `X`), zeros before them up to the precision, pad bytes before that, the field being
/// exactly `max(width, t.len())` bytes for the zero-extended digits `t`.
pub proof fn lemma_unsigned_directive(d: Directive, v: u64)
    requires
        is_unsigned_conv(d.spec),
    ensures
        ({
            let out = directive_text(d, ArgValue::Unsigned(v));
            let base: nat = if d.spec == 117 { 10 } else { 16 };
            let dg = digits(v as nat, base, d.spec == 88);
            let tl: int = if d.precision >= 0 && d.precision > dg.len() { d.precision as int } else { dg.len() as int };
            &&& out.len() == if d.width > tl { d.width as int } else { tl }
            &&& out.subrange(out.len() - dg.len(), out.len() as int) == dg
            &&& forall|i: int| out.len() - tl <= i < out.len() - dg.len() ==> #[trigger] out[i] == 48u8
            &&& forall|i: int| 0 <= i < out.len() - tl ==> #[trigger] out[i] == pad_byte(d.zero_pad)
        }),
{
    let base: nat = if d.spec == 117 { 10 } else { 16 };
    let dg = digits(v as nat, base, d.spec == 88);
    let t = with_precision(dg, d.precision as int);
    let out = directive_text(d, ArgValue::Unsigned(v));
    assert(out == padded(t, d.width as int, d.zero_pad));
    lemma_padded_field(t, d.width as int, d.zero_pad);
    assert(t.subrange(t.len() - dg.len(), t.len() as int) =~= dg);
    lemma_field_parts(out, t, dg, d.width as int, d.zero_pad);
}

/// `%s` prints the string (or `(null)` for a null pointer) cut to the precision when one is
/// given, right-aligned with spaces in a field of the requested width; `%c` prints the
/// character's low byte; `%%` prints one `%`; an unknown conversion prints itself after a
/// `%`.
pub proof fn lemma_text_directives(d: Directive, t: Option<Vec<u8>>, ch: i32)
    ensures
        d.spec == 115 ==> ({
            let out = directive_text(d, ArgValue::Text(t));
            let full: Seq<u8> = match t {
                Some(v) => v@,
                None => seq![40u8, 110u8, 117u8, 108u8, 108u8, 41u8],
            };
            let shown: int = if t is Some && d.precision >= 0 && full.len() > d.precision { d.precision as int } else { full.len() as int };
            &&& out.len() == if d.width > shown { d.width as int } else { shown }
            &&& out.subrange(out.len() - shown, out.len() as int) == full.subrange(0, shown)
            &&& forall|i: int| 0 <= i < out.len() - shown ==> #[trigger] out[i] == 32u8
        }),
        d.spec == 99 ==> directive_text(d, ArgValue::Char(ch)) == seq![ch as u8],
        d.spec == 37 ==> directive_text(d, ArgValue::Real) == seq![37u8],
{
    if d.spec == 115 {
        let tv = text_arg(text_view(t), d.precision as int);
        lemma_padded_field(tv, d.width as int, false);
        let full: Seq<u8> = match t {
            Some(v) => v@,
            None => seq![40u8, 110u8, 117u8, 108u8, 108u8, 41u8],
        };
        let shown: int = if t is Some && d.precision >= 0 && full.len() > d.precision { d.precision as int } else { full.len() as int };
        assert(tv =~= full.subrange(0, shown));
    }
}

proof fn lemma_digit_run_end(f: Seq<u8>, p: int, n: int)
    requires
        0 <= p,
        0 <= n,
        p + n <= f.len(),
        forall|i: int| p <= i < p + n ==> is_digit_byte(#[trigger] f[i]),
        p + n >= f.len() || !is_digit_byte(f[p + n]),
    ensures
        digits_end(f, p) == p + n,
    decreases n,
{
    if n > 0 {
        lemma_digit_run_end(f, p + 1, n - 1);
    }
}

proof fn lemma_digit_run_value(f: Seq<u8>, p: int, n: int)
    requires
        0 <= p,
        0 <= n,
        p + n <= f.len(),
        forall|i: int| p <= i < p + n ==> is_digit_byte(#[trigger] f[i]),
    ensures
        digits_value(f, p, p + n) == value_in(f.subrange(p, p + n), 10),
    decreases n,
{
    if n > 0 {
        lemma_digit_run_value(f, p, n - 1);
        assert(f.subrange(p, p + n).drop_last() =~= f.subrange(p, p + n - 1));
        assert(f.subrange(p, p + n).last() == f[p + n - 1]);
        assert(is_digit_byte(f[p + n - 1]));
    }
}

/// The text of a directive: an optional `0` flag, the width in decimal (a width of zero is
/// written as no digits), an optional `.` and precision, and the conversion byte.
pub open spec fn directive_text_of(zero: bool, w: nat, pr: Option<nat>, c: u8) -> Seq<u8> {
    (if zero { seq![48u8] } else { Seq::<u8>::empty() }) + (if w > 0 { digits(w, 10, false) } else { Seq::<u8>::empty() })
        + (match pr {
        Some(x) => seq![46u8] + digits(x, 10, false),
        None => Seq::<u8>::empty(),
    }) + seq![c]
}

/// Reading a directive gives back what was written: the zero flag, the width, the precision
/// (-1 when none is written) and the conversion byte, whatever follows the directive.
pub proof fn lemma_directive_read_back(zero: bool, w: nat, pr: Option<nat>, c: u8, rest: Seq<u8>)
    requires
        w <= usize::MAX,
        pr matches Some(x) ==> x <= i32::MAX,
        !is_digit_byte(c),
        c != 46,
        !is_modifier(c),
    ensures
        ({
            let d = directive_at(directive_text_of(zero, w, pr, c) + rest, 0);
            &&& d.zero_pad == zero
            &&& d.width == w
            &&& d.precision == match pr {
                Some(x) => x as int,
                None => -1,
            }
            &&& d.spec == c
        }),
{
    let zs: Seq<u8> = if zero { seq![48u8] } else { Seq::<u8>::empty() };
    let ws: Seq<u8> = if w > 0 { digits(w, 10, false) } else { Seq::<u8>::empty() };
    let ps: Seq<u8> = match pr {
        Some(x) => seq![46u8] + digits(x, 10, false),
        None => Seq::<u8>::empty(),
    };
    let f = directive_text_of(zero, w, pr, c) + rest;
    assert(f == zs + ws + ps + seq![c] + rest);
    let a = zs.len() as int;
    let wl = ws.len() as int;
    let pl = ps.len() as int;
    lemma_digits_spell(w, 10, false);
    if let Some(x) = pr {
        lemma_digits_spell(x, 10, false);
    }
    assert forall|i: int| a <= i < a + wl implies is_digit_byte(#[trigger] f[i]) by {
        assert(f[i] == ws[i - a]);
        assert(is_digit_of(ws[i - a], 10, false));
    }
    assert(f[a + wl + pl] == c);
    // the zero flag run
    if zero {
        assert(f[0] == 48u8);
        if w > 0 {
            assert(f[1] == ws[0]);
            assert(f[1] != 48u8);
        } else {
            assert(f[1] == (ps + seq![c] + rest)[0]);
        }
        assert(zeros_end(f, 1) == 1);
        assert(zeros_end(f, 0) == 1);
    } else {
        if w > 0 {
            assert(f[0] == ws[0]);
        }
        assert(zeros_end(f, 0) == 0);
    }
    assert(width_start(f, 0) == a);
    // the width run
    if pr is Some {
        assert(f[a + wl] == 46u8);
    } else {
        assert(f[a + wl] == c);
    }
    lemma_digit_run_end(f, a, wl);
    assert(width_end(f, 0) == a + wl);
    lemma_digit_run_value(f, a, wl);
    assert(f.subrange(a, a + wl) =~= ws);
    if w == 0 {
        assert(ws.len() == 0);
    }
    assert(width_value(f, 0) == w);
    match pr {
        Some(x) => {
            let xs = digits(x, 10, false);
            let xl = xs.len() as int;
            assert(has_precision(f, 0));
            assert forall|i: int| a + wl + 1 <= i < a + wl + 1 + xl implies is_digit_byte(#[trigger] f[i]) by {
                assert(f[i] == xs[i - a - wl - 1]);
                assert(is_digit_of(xs[i - a - wl - 1], 10, false));
            }
            lemma_digit_run_end(f, a + wl + 1, xl);
            lemma_digit_run_value(f, a + wl + 1, xl);
            assert(f.subrange(a + wl + 1, a + wl + 1 + xl) =~= xs);
            assert(precision_end(f, 0) == a + wl + pl);
            assert(precision_value(f, 0) == x);
        },
        None => {
            assert(!has_precision(f, 0));
            assert(precision_end(f, 0) == a + wl);
        },
    }
    assert(mods_end(f, a + wl + pl) == a + wl + pl);
    assert(spec_pos(f, 0) == a + wl + pl);
}

/// Text without `%` is printed as it stands, up to a NUL byte, which ends the output.
pub proof fn lemma_plain_text_copied(f: Seq<u8>, p: int, q: int, args: Seq<ArgValue>, ai: int)
    requires
        0 <= p <= q <= f.len(),
        forall|i: int| p <= i < q ==> #[trigger] f[i] != 37u8 && f[i] != 0u8,
    ensures
        printf_out(f, p, args, ai) == f.subrange(p, q) + printf_out(f, q, args, ai),
        q < f.len() && f[q] == 0 ==> printf_out(f, p, args, ai) == f.subrange(p, q),
    decreases q - p,
{
    if p < q {
        lemma_plain_text_copied(f, p + 1, q, args, ai);
        assert(f.subrange(p, q) =~= seq![f[p]] + f.subrange(p + 1, q));
    } else {
        assert(f.subrange(p, q) =~= Seq::<u8>::empty());
    }
}

} // verus!

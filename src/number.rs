//! Numeric tokens: unsigned and signed integers, and exact decimals.
//!
//! Token text is decoded by verified code against the digit-string
//! semantics below, so a coordinate never passes through a lossy
//! conversion on its way into a command.
use vstd::prelude::*;
use vstd::string::*;

verus! {

pub open spec fn is_digit(c: char) -> bool {
    '0' <= c && c <= '9'
}

pub open spec fn all_digits(s: Seq<char>) -> bool {
    forall|i: int| 0 <= i < s.len() ==> is_digit(#[trigger] s[i])
}

pub open spec fn digit_value(c: char) -> int {
    c as int - '0' as int
}

/// The value of a string of decimal digits, most significant first.
pub open spec fn digits_value(s: Seq<char>) -> int
    decreases s.len(),
{
    if s.len() == 0 {
        0
    } else {
        10 * digits_value(s.drop_last()) + digit_value(s.last())
    }
}

/// `s` with any leading `+` removed.
pub open spec fn unsigned_body(s: Seq<char>) -> Seq<char> {
    if s.len() > 0 && s[0] == '+' {
        s.drop_first()
    } else {
        s
    }
}

/// The value of an unsigned integer token (`+`? digit+), if it is one and
/// does not exceed `max`.
pub open spec fn uint_in(s: Seq<char>, max: int) -> Option<int> {
    let body = unsigned_body(s);
    if body.len() > 0 && all_digits(body) && digits_value(body) <= max {
        Some(digits_value(body))
    } else {
        None
    }
}

pub open spec fn is_negative_text(s: Seq<char>) -> bool {
    s.len() > 0 && s[0] == '-'
}

/// `s` with one leading sign removed.
pub open spec fn signed_body(s: Seq<char>) -> Seq<char> {
    if s.len() > 0 && (s[0] == '+' || s[0] == '-') {
        s.drop_first()
    } else {
        s
    }
}

/// The value of a signed integer token (`+`/`-`? digit+), if it is one and
/// lies in `min ..= max`.
pub open spec fn int_in(s: Seq<char>, min: int, max: int) -> Option<int> {
    let body = signed_body(s);
    let v = if is_negative_text(s) {
        -digits_value(body)
    } else {
        digits_value(body)
    };
    if body.len() > 0 && all_digits(body) && min <= v <= max {
        Some(v)
    } else {
        None
    }
}

pub open spec fn uint_in_u32(s: Seq<char>) -> Option<u32> {
    match uint_in(s, u32::MAX as int) {
        Some(v) => Some(v as u32),
        None => None,
    }
}

pub open spec fn uint_in_u8(s: Seq<char>) -> Option<u8> {
    match uint_in(s, u8::MAX as int) {
        Some(v) => Some(v as u8),
        None => None,
    }
}

pub open spec fn int_in_i32(s: Seq<char>) -> Option<i32> {
    match int_in(s, i32::MIN as int, i32::MAX as int) {
        Some(v) => Some(v as i32),
        None => None,
    }
}

/// An exact decimal number: `mantissa / 10^scale`.
///
/// Values decoded from text are canonical (`scale == 0` or the mantissa is
/// not a multiple of ten), so two decoded decimals are equal exactly when
/// they denote the same number.
#[derive(Clone, Copy, Debug, PartialEq, Eq, Structural)]
pub struct Decimal {
    pub mantissa: i64,
    pub scale: u32,
}

/// Index of the first `.` in `s`, or its length when there is none.
pub open spec fn dot_index(s: Seq<char>) -> int
    decreases s.len(),
{
    if s.len() == 0 || s[0] == '.' {
        0
    } else {
        1 + dot_index(s.drop_first())
    }
}

pub open spec fn integer_part(b: Seq<char>) -> Seq<char> {
    b.subrange(0, dot_index(b))
}

pub open spec fn fraction_part(b: Seq<char>) -> Seq<char> {
    if dot_index(b) < b.len() {
        b.subrange(dot_index(b) + 1, b.len() as int)
    } else {
        Seq::empty()
    }
}

/// `s` without its trailing `0` characters.
pub open spec fn trim_zeros(s: Seq<char>) -> Seq<char>
    decreases s.len(),
{
    if s.len() > 0 && s.last() == '0' {
        trim_zeros(s.drop_last())
    } else {
        s
    }
}

/// The decimal a token denotes (`+`/`-`? digit* (`.` digit*)?, with at
/// least one digit), if its canonical mantissa and scale fit their types.
pub open spec fn decimal_in(s: Seq<char>) -> Option<Decimal> {
    let b = signed_body(s);
    let ip = integer_part(b);
    let fp = fraction_part(b);
    let t = trim_zeros(fp);
    let m = digits_value(ip + t);
    if all_digits(ip) && all_digits(fp) && ip.len() + fp.len() > 0 && m <= i64::MAX && t.len()
        <= u32::MAX {
        Some(
            Decimal {
                mantissa: (if is_negative_text(s) {
                    -m
                } else {
                    m
                }) as i64,
                scale: t.len() as u32,
            },
        )
    } else {
        None
    }
}

pub proof fn lemma_dot_index(s: Seq<char>, k: int)
    requires
        0 <= k <= s.len(),
        forall|j: int| 0 <= j < k ==> s[j] != '.',
        k == s.len() || s[k] == '.',
    ensures
        dot_index(s) == k,
    decreases k,
{
    if k > 0 {
        lemma_dot_index(s.drop_first(), k - 1);
    }
}

/// What `trim_zeros` removes is a run of `0` at the end.
pub proof fn lemma_trim_zeros(s: Seq<char>)
    ensures
        trim_zeros(s).len() <= s.len(),
        trim_zeros(s) == s.subrange(0, trim_zeros(s).len() as int),
        forall|j: int| trim_zeros(s).len() <= j < s.len() ==> s[j] == '0',
    decreases s.len(),
{
    if s.len() > 0 && s.last() == '0' {
        lemma_trim_zeros(s.drop_last());
        assert(s.drop_last().subrange(0, trim_zeros(s).len() as int) =~= s.subrange(
            0,
            trim_zeros(s).len() as int,
        ));
        assert forall|j: int| trim_zeros(s).len() <= j < s.len() implies s[j] == '0' by {
            if j < s.len() - 1 {
                assert(s.drop_last()[j] == s[j]);
            }
        }
    } else {
        assert(s.subrange(0, s.len() as int) =~= s);
    }
}

pub proof fn lemma_digits_value_nonneg(s: Seq<char>)
    requires
        all_digits(s),
    ensures
        digits_value(s) >= 0,
    decreases s.len(),
{
    if s.len() > 0 {
        lemma_digits_value_nonneg(s.drop_last());
    }
}

/// Extending a digit string never lowers its value.
pub proof fn lemma_digits_prefix_le(s: Seq<char>, j: int, k: int)
    requires
        all_digits(s),
        0 <= j <= k <= s.len(),
    ensures
        digits_value(s.subrange(0, j)) <= digits_value(s.subrange(0, k)),
    decreases k - j,
{
    if j < k {
        lemma_digits_prefix_le(s, j, k - 1);
        assert(s.subrange(0, k).drop_last() =~= s.subrange(0, k - 1));
        lemma_digits_value_nonneg(s.subrange(0, k - 1));
    }
}

/// The characters of `s`, one by one.
pub fn text_chars(s: &str) -> (r: Vec<char>)
    ensures
        r@ == s@,
{
    let n = s.unicode_len();
    let mut r: Vec<char> = Vec::new();
    let mut i: usize = 0;
    while i < n
        invariant
            n == s@.len(),
            i <= n,
            r@ == s@.subrange(0, i as int),
        decreases n - i,
    {
        r.push(s.get_char(i));
        i = i + 1;
        assert(r@ =~= s@.subrange(0, i as int));
    }
    assert(r@ =~= s@);
    r
}

/// The value of `cs[start..end]` read as decimal digits, if every character
/// there is a digit and the value does not exceed `bound`.
fn digits_in(cs: &Vec<char>, start: usize, end: usize, bound: u64) -> (r: Option<u64>)
    requires
        start <= end <= cs@.len(),
        9 <= bound <= i64::MAX as u64,
    ensures
        ({
            let s = cs@.subrange(start as int, end as int);
            match r {
                Some(v) => all_digits(s) && v == digits_value(s) && v <= bound,
                None => !(all_digits(s) && digits_value(s) <= bound),
            }
        }),
{
    let ghost s = cs@.subrange(start as int, end as int);
    let mut v: u64 = 0;
    let mut i: usize = start;
    while i < end
        invariant
            start <= i <= end <= cs@.len(),
            9 <= bound <= i64::MAX as u64,
            s == cs@.subrange(start as int, end as int),
            all_digits(s.subrange(0, i - start)),
            v == digits_value(s.subrange(0, i - start)),
            v <= bound,
        decreases end - i,
    {
        let c = cs[i];
        if !('0' <= c && c <= '9') {
            assert(s[i - start] == c);
            return None;
        }
        let d: u64 = (c as u64) - ('0' as u64);
        let ghost k = i - start;
        assert(s.subrange(0, k + 1).drop_last() =~= s.subrange(0, k));
        assert(s.subrange(0, k + 1).last() == c);
        if v > (bound - d) / 10 {
            proof {
                assert(10 * v + d > bound) by (nonlinear_arith)
                    requires
                        v > (bound - d) / 10,
                        d <= 9,
                        9 <= bound,
                ;
                if all_digits(s) {
                    lemma_digits_prefix_le(s, k + 1, s.len() as int);
                    assert(s.subrange(0, s.len() as int) =~= s);
                }
            }
            return None;
        }
        assert(10 * v + d <= bound) by (nonlinear_arith)
            requires
                v <= (bound - d) / 10,
                d <= bound,
        ;
        v = 10 * v + d;
        i = i + 1;
        assert forall|j: int| 0 <= j < i - start implies is_digit(
            #[trigger] s.subrange(0, i - start)[j],
        ) by {
            if j < k {
                assert(s.subrange(0, k)[j] == s.subrange(0, i - start)[j]);
            }
        }
    }
    assert(s.subrange(0, end - start) =~= s);
    Some(v)
}

/// The value of an unsigned token, if it is one and does not exceed `max`.
pub(crate) fn uint_text(cs: &Vec<char>, max: u64) -> (r: Option<u64>)
    requires
        9 <= max <= i64::MAX as u64,
    ensures
        match uint_in(cs@, max as int) {
            Some(v) => r is Some && r->0 == v,
            None => r is None,
        },
        r matches Some(v) ==> v <= max,
{
    let n = cs.len();
    let start: usize = if n > 0 && cs[0] == '+' {
        1
    } else {
        0
    };
    assert(unsigned_body(cs@) =~= cs@.subrange(start as int, n as int));
    if start == n {
        return None;
    }
    digits_in(cs, start, n, max)
}

/// The value of a signed token, if it is one and lies in
/// `-neg_max ..= pos_max`.
pub(crate) fn int_text(cs: &Vec<char>, neg_max: u64, pos_max: u64) -> (r: Option<i64>)
    requires
        9 <= neg_max <= i64::MAX as u64,
        9 <= pos_max <= i64::MAX as u64,
    ensures
        match int_in(cs@, -(neg_max as int), pos_max as int) {
            Some(v) => r is Some && r->0 == v,
            None => r is None,
        },
        r matches Some(v) ==> -(neg_max as int) <= v <= pos_max,
{
    let n = cs.len();
    let negative = n > 0 && cs[0] == '-';
    let start: usize = if n > 0 && (cs[0] == '+' || cs[0] == '-') {
        1
    } else {
        0
    };
    assert(signed_body(cs@) =~= cs@.subrange(start as int, n as int));
    if start == n {
        return None;
    }
    let bound = if negative {
        neg_max
    } else {
        pos_max
    };
    proof {
        let b = signed_body(cs@);
        if all_digits(b) {
            lemma_digits_value_nonneg(b);
        }
    }
    match digits_in(cs, start, n, bound) {
        Some(m) => {
            if negative {
                Some(-(m as i64))
            } else {
                Some(m as i64)
            }
        },
        None => None,
    }
}

/// Decodes an unsigned 32-bit integer token.
pub fn parse_u32(s: &str) -> (r: Option<u32>)
    ensures
        r == uint_in_u32(s@),
{
    let cs = text_chars(s);
    match uint_text(&cs, 0xffff_ffff) {
        Some(v) => {
            assert(v <= 0xffff_ffff);
            Some(v as u32)
        },
        None => None,
    }
}

/// Decodes an unsigned 8-bit integer token.
pub fn parse_u8(s: &str) -> (r: Option<u8>)
    ensures
        r == uint_in_u8(s@),
{
    let cs = text_chars(s);
    match uint_text(&cs, 0xff) {
        Some(v) => {
            assert(v <= 0xff);
            Some(v as u8)
        },
        None => None,
    }
}

/// Decodes a signed 32-bit integer token.
pub fn parse_i32(s: &str) -> (r: Option<i32>)
    ensures
        r == int_in_i32(s@),
{
    let cs = text_chars(s);
    match int_text(&cs, 0x8000_0000, 0x7fff_ffff) {
        Some(v) => Some(v as i32),
        None => None,
    }
}

/// Appends `cs[a..b]` to `dst`.
pub(crate) fn push_range(dst: &mut Vec<char>, cs: &Vec<char>, a: usize, b: usize)
    requires
        a <= b <= cs@.len(),
    ensures
        final(dst)@ == old(dst)@ + cs@.subrange(a as int, b as int),
{
    let mut i: usize = a;
    while i < b
        invariant
            a <= i <= b <= cs@.len(),
            dst@ == old(dst)@ + cs@.subrange(a as int, i as int),
        decreases b - i,
    {
        dst.push(cs[i]);
        i = i + 1;
        assert(dst@ =~= old(dst)@ + cs@.subrange(a as int, i as int));
    }
}

/// Decodes a decimal token exactly.
pub fn parse_decimal(s: &str) -> (r: Option<Decimal>)
    ensures
        r == decimal_in(s@),
{
    let cs = text_chars(s);
    let n = cs.len();
    let negative = n > 0 && cs[0] == '-';
    let start: usize = if n > 0 && (cs[0] == '+' || cs[0] == '-') {
        1
    } else {
        0
    };
    let ghost b = signed_body(s@);
    assert(b =~= cs@.subrange(start as int, n as int));
    let mut p: usize = start;
    while p < n && cs[p] != '.'
        invariant
            start <= p <= n == cs@.len(),
            forall|j: int| start <= j < p ==> cs@[j] != '.',
        decreases n - p,
    {
        p = p + 1;
    }
    proof {
        lemma_dot_index(b, p - start);
    }
    let frac_start: usize = if p < n {
        p + 1
    } else {
        n
    };
    let ghost ip = integer_part(b);
    let ghost fp = fraction_part(b);
    assert(ip =~= cs@.subrange(start as int, p as int));
    assert(fp =~= cs@.subrange(frac_start as int, n as int));
    let mut e: usize = n;
    while e > frac_start && cs[e - 1] == '0'
        invariant
            frac_start <= e <= n == cs@.len(),
            fp == cs@.subrange(frac_start as int, n as int),
            trim_zeros(fp) == trim_zeros(cs@.subrange(frac_start as int, e as int)),
        decreases e,
    {
        assert(cs@.subrange(frac_start as int, e as int).drop_last() =~= cs@.subrange(
            frac_start as int,
            e - 1,
        ));
        e = e - 1;
    }
    let ghost t = trim_zeros(fp);
    assert(t == cs@.subrange(frac_start as int, e as int));
    if p == start && frac_start == n {
        return None;
    }
    let mut digits: Vec<char> = Vec::new();
    push_range(&mut digits, &cs, start, p);
    push_range(&mut digits, &cs, frac_start, e);
    assert(digits@ =~= ip + t);
    assert(digits@.subrange(0, digits@.len() as int) =~= digits@);
    proof {
        lemma_digits_concat(ip, fp);
    }
    let frac_len = e - frac_start;
    match digits_in(&digits, 0, digits.len(), 0x7fff_ffff_ffff_ffff) {
        Some(m) => {
            if frac_len > 0xffff_ffff {
                return None;
            }
            let mantissa: i64 = if negative {
                -(m as i64)
            } else {
                m as i64
            };
            Some(Decimal { mantissa, scale: frac_len as u32 })
        },
        None => None,
    }
}

/// The digits kept by a decimal are all digits exactly when both of its
/// parts are.
pub proof fn lemma_digits_concat(ip: Seq<char>, fp: Seq<char>)
    ensures
        all_digits(ip + trim_zeros(fp)) <==> (all_digits(ip) && all_digits(fp)),
        all_digits(ip + trim_zeros(fp)) ==> digits_value(ip + trim_zeros(fp)) >= 0,
{
    let t = trim_zeros(fp);
    let d = ip + t;
    lemma_trim_zeros(fp);
    if all_digits(d) {
        lemma_digits_value_nonneg(d);
        assert forall|j: int| 0 <= j < ip.len() implies is_digit(#[trigger] ip[j]) by {
            assert(d[j] == ip[j]);
        }
        assert forall|j: int| 0 <= j < fp.len() implies is_digit(#[trigger] fp[j]) by {
            if j < t.len() {
                assert(d[ip.len() + j] == t[j]);
                assert(t[j] == fp[j]);
            }
        }
    }
    if all_digits(ip) && all_digits(fp) {
        assert forall|j: int| 0 <= j < d.len() implies is_digit(#[trigger] d[j]) by {
            if j >= ip.len() {
                assert(d[j] == t[j - ip.len()]);
                assert(t[j - ip.len()] == fp[j - ip.len()]);
            }
        }
    }
}

} // verus!

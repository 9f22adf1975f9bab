//! Decimal numbers written out as text.
use vstd::prelude::*;
use crate::decimal::MAX_SCALE;

verus! {

pub open spec fn digit_char(d: int) -> char {
    if d == 0 {
        '0'
    } else if d == 1 {
        '1'
    } else if d == 2 {
        '2'
    } else if d == 3 {
        '3'
    } else if d == 4 {
        '4'
    } else if d == 5 {
        '5'
    } else if d == 6 {
        '6'
    } else if d == 7 {
        '7'
    } else if d == 8 {
        '8'
    } else {
        '9'
    }
}

pub open spec fn is_digit(c: char) -> bool {
    '0' <= c <= '9'
}

pub open spec fn digit_value(c: char) -> int {
    c as int - '0' as int
}

/// The number that a string of decimal digits spells.
pub open spec fn digits_value(s: Seq<char>) -> int
    decreases s.len(),
{
    if s.len() == 0 {
        0
    } else {
        digits_value(s.drop_last()) * 10 + digit_value(s.last())
    }
}

pub open spec fn all_digits(s: Seq<char>) -> bool {
    forall|i: int| 0 <= i < s.len() ==> is_digit(#[trigger] s[i])
}

pub proof fn lemma_digits_value_nonneg(s: Seq<char>)
    requires
        all_digits(s),
    ensures
        digits_value(s) >= 0,
    decreases s.len(),
{
    if s.len() > 0 {
        assert(is_digit(s[s.len() - 1]));
        lemma_digits_value_nonneg(s.drop_last());
    }
}

/// The decimal digits of `n`, most significant first, without leading zeros.
pub open spec fn digits(n: nat) -> Seq<char>
    decreases n,
{
    if n < 10 {
        seq![digit_char(n as int)]
    } else {
        digits(n / 10) + seq![digit_char((n % 10) as int)]
    }
}

pub open spec fn zeros(n: nat) -> Seq<char> {
    Seq::new(n, |_i: int| '0')
}

/// `s` with zeros put in front until it is at least `n` long.
pub open spec fn padded(s: Seq<char>, n: nat) -> Seq<char> {
    if s.len() >= n {
        s
    } else {
        zeros((n - s.len()) as nat) + s
    }
}

pub open spec fn magnitude(m: int) -> nat {
    if m < 0 {
        (-m) as nat
    } else {
        m as nat
    }
}

/// The text of `m * 10^(-scale)`: a minus sign where it is negative, and
/// exactly `scale` digits after the point (no point where `scale` is 0).
pub open spec fn dec_text(m: int, scale: nat) -> Seq<char> {
    let ds = padded(digits(magnitude(m)), scale + 1);
    let body = if scale == 0 {
        ds
    } else {
        ds.subrange(0, ds.len() - scale) + seq!['.'] + ds.subrange(ds.len() - scale, ds.len() as int)
    };
    if m < 0 {
        seq!['-'] + body
    } else {
        body
    }
}

/// `s` is digits, a point at `i`, and digits again, with at least one
/// digit on each side.
pub open spec fn point_at(s: Seq<char>, i: int) -> bool {
    &&& 0 < i < s.len() - 1
    &&& s[i] == '.'
    &&& all_digits(s.subrange(0, i))
    &&& all_digits(s.subrange(i + 1, s.len() as int))
}

/// The mantissa and scale that an unsigned decimal text spells.
pub open spec fn unsigned_value(s: Seq<char>) -> Option<(int, nat)> {
    if 0 < s.len() && all_digits(s) {
        Some((digits_value(s), 0))
    } else if exists|i: int| point_at(s, i) {
        let i = choose|i: int| point_at(s, i);
        Some((digits_value(s.subrange(0, i) + s.subrange(i + 1, s.len() as int)), (s.len() - i - 1) as nat))
    } else {
        None
    }
}

/// The mantissa and scale that a decimal text spells: an optional minus
/// sign, digits, and optionally a point followed by more digits.
pub open spec fn text_value(s: Seq<char>) -> Option<(int, nat)> {
    if s.len() > 0 && s[0] == '-' {
        match unsigned_value(s.drop_first()) {
            Some((v, k)) => Some((-v, k)),
            None => None,
        }
    } else {
        unsigned_value(s)
    }
}

proof fn lemma_point_unique(s: Seq<char>, i: int, j: int)
    requires
        point_at(s, i),
        point_at(s, j),
    ensures
        i == j,
{
    if i < j {
        assert(s.subrange(i + 1, s.len() as int)[j - i - 1] == s[j]);
    } else if j < i {
        assert(s.subrange(j + 1, s.len() as int)[i - j - 1] == s[i]);
    }
}

proof fn lemma_digit_char_value(d: int)
    requires
        0 <= d < 10,
    ensures
        is_digit(digit_char(d)),
        digit_value(digit_char(d)) == d,
{
}

proof fn lemma_digits_spelled(n: nat)
    ensures
        all_digits(digits(n)),
        digits_value(digits(n)) == n,
        digits(n).len() > 0,
    decreases n,
{
    if n < 10 {
        lemma_digit_char_value(n as int);
        let s = digits(n);
        assert(s.drop_last() =~= Seq::<char>::empty());
        assert(digits_value(Seq::<char>::empty()) == 0);
        assert(s.last() == digit_char(n as int));
        assert(digits_value(s) == digits_value(s.drop_last()) * 10 + digit_value(s.last()));
    } else {
        lemma_digits_spelled(n / 10);
        lemma_digit_char_value((n % 10) as int);
        let d = digits(n / 10);
        let s = digits(n);
        assert(s.drop_last() =~= d);
        assert(s.last() == digit_char((n % 10) as int));
        assert(digits_value(s) == digits_value(d) * 10 + digit_value(s.last()));
        assert(n == (n / 10) * 10 + n % 10);
        assert forall|k: int| 0 <= k < s.len() implies is_digit(#[trigger] s[k]) by {
            if k < d.len() {
                assert(s[k] == d[k]);
            }
        }
    }
}

proof fn lemma_zeros_value(z: nat, x: Seq<char>)
    ensures
        digits_value(zeros(z) + x) == digits_value(x),
    decreases x.len(), z,
{
    if x.len() == 0 {
        assert(zeros(z) + x =~= zeros(z));
        if z > 0 {
            assert(zeros(z).drop_last() =~= zeros((z - 1) as nat));
            lemma_zeros_value((z - 1) as nat, x);
            assert(zeros((z - 1) as nat) + x =~= zeros((z - 1) as nat));
        }
    } else {
        assert((zeros(z) + x).drop_last() =~= zeros(z) + x.drop_last());
        lemma_zeros_value(z, x.drop_last());
    }
}

proof fn lemma_padded_digits(n: nat, scale: nat)
    ensures
        all_digits(padded(digits(n), scale + 1)),
        digits_value(padded(digits(n), scale + 1)) == n,
        padded(digits(n), scale + 1).len() >= scale + 1,
{
    let d = digits(n);
    lemma_digits_spelled(n);
    let ds = padded(d, scale + 1);
    if d.len() < scale + 1 {
        let z = zeros((scale + 1 - d.len()) as nat);
        lemma_zeros_value((scale + 1 - d.len()) as nat, d);
        assert forall|k: int| 0 <= k < ds.len() implies is_digit(#[trigger] ds[k]) by {
            if k < z.len() {
                assert(ds[k] == z[k]);
            } else {
                assert(ds[k] == d[k - z.len()]);
            }
        }
    }
}

proof fn lemma_point_body(ds: Seq<char>, scale: nat)
    requires
        all_digits(ds),
        ds.len() >= scale + 1,
        scale > 0,
    ensures
        unsigned_value(
            ds.subrange(0, ds.len() - scale) + seq!['.'] + ds.subrange(ds.len() - scale, ds.len() as int),
        ) == Some((digits_value(ds), scale)),
{
    let body = ds.subrange(0, ds.len() - scale) + seq!['.'] + ds.subrange(ds.len() - scale, ds.len() as int);
    let i = ds.len() - scale;
    assert(body[i] == '.');
    assert(!all_digits(body));
    assert(body.subrange(0, i) =~= ds.subrange(0, i));
    assert(body.subrange(i + 1, body.len() as int) =~= ds.subrange(i, ds.len() as int));
    assert forall|k: int| 0 <= k < i implies is_digit(#[trigger] ds.subrange(0, i)[k]) by {
        assert(ds.subrange(0, i)[k] == ds[k]);
    }
    assert forall|k: int| 0 <= k < scale implies is_digit(#[trigger] ds.subrange(i, ds.len() as int)[k]) by {
        assert(ds.subrange(i, ds.len() as int)[k] == ds[i + k]);
    }
    assert(point_at(body, i));
    let j = choose|j: int| point_at(body, j);
    lemma_point_unique(body, i, j);
    assert(body.subrange(0, i) + body.subrange(i + 1, body.len() as int) =~= ds);
}

/// The text written for `mantissa * 10^(-scale)` reads back as that
/// mantissa and scale.
pub proof fn lemma_dec_text_value(m: int, scale: nat)
    ensures
        text_value(dec_text(m, scale)) == Some((m, scale)),
{
    let ds = padded(digits(magnitude(m)), scale + 1);
    lemma_padded_digits(magnitude(m), scale);
    let body = if scale == 0 {
        ds
    } else {
        ds.subrange(0, ds.len() - scale) + seq!['.'] + ds.subrange(ds.len() - scale, ds.len() as int)
    };
    if scale > 0 {
        lemma_point_body(ds, scale);
    }
    assert(unsigned_value(body) == Some((magnitude(m) as int, scale)));
    if m < 0 {
        assert((seq!['-'] + body).drop_first() =~= body);
    } else {
        assert(is_digit(body[0]));
    }
}

pub(crate) fn chars_of(s: &str) -> (r: Vec<char>)
    ensures
        r@ == s@,
{
    let n = s.unicode_len();
    let mut out: Vec<char> = Vec::new();
    let mut i: usize = 0;
    while i < n
        invariant
            n == s@.len(),
            i <= n,
            out@ == s@.take(i as int),
        decreases n - i,
    {
        out.push(s.get_char(i));
        assert(out@ =~= s@.take(i + 1));
        i = i + 1;
    }
    assert(s@.take(n as int) =~= s@);
    out
}

fn digit_char_of(d: u128) -> (r: char)
    requires
        d < 10,
    ensures
        r == digit_char(d as int),
{
    if d == 0 {
        '0'
    } else if d == 1 {
        '1'
    } else if d == 2 {
        '2'
    } else if d == 3 {
        '3'
    } else if d == 4 {
        '4'
    } else if d == 5 {
        '5'
    } else if d == 6 {
        '6'
    } else if d == 7 {
        '7'
    } else if d == 8 {
        '8'
    } else {
        '9'
    }
}

/// Writes out the digits of `n`.
pub fn digit_chars(n: u128) -> (r: Vec<char>)
    ensures
        r@ == digits(n as nat),
{
    let mut out: Vec<char> = Vec::new();
    let mut k: u128 = n;
    while k >= 10
        invariant
            digits(n as nat) == digits(k as nat) + out@,
        decreases k,
    {
        let c = digit_char_of(k % 10);
        let ghost before = out@;
        out.insert(0, c);
        proof {
            assert(digits(k as nat) == digits((k / 10) as nat) + seq![c]);
            assert(out@ =~= seq![c] + before);
            assert(digits(k as nat) + before =~= digits((k / 10) as nat) + out@);
        }
        k = k / 10;
    }
    let c = digit_char_of(k);
    let ghost before = out@;
    out.insert(0, c);
    assert(out@ =~= digits(k as nat) + before);
    out
}

pub(crate) fn copy_range(v: &Vec<char>, from: usize, to: usize) -> (r: Vec<char>)
    requires
        from <= to <= v@.len(),
    ensures
        r@ == v@.subrange(from as int, to as int),
{
    let mut out: Vec<char> = Vec::new();
    let mut i: usize = from;
    while i < to
        invariant
            from <= i <= to <= v@.len(),
            out@ == v@.subrange(from as int, i as int),
        decreases to - i,
    {
        out.push(v[i]);
        assert(out@ =~= v@.subrange(from as int, i + 1));
        i = i + 1;
    }
    out
}

/// Writes out `mantissa * 10^(-scale)`.
pub fn decimal_chars(mantissa: i128, scale: u32) -> (r: Vec<char>)
    requires
        mantissa > i128::MIN,
        scale <= MAX_SCALE,
    ensures
        r@ == dec_text(mantissa as int, scale as nat),
{
    let mag: u128 = if mantissa < 0 { (-mantissa) as u128 } else { mantissa as u128 };
    let ds0 = digit_chars(mag);
    let want: usize = scale as usize + 1;
    let ds = if ds0.len() >= want {
        ds0
    } else {
        let mut z: Vec<char> = Vec::new();
        let fill: usize = want - ds0.len();
        while z.len() < fill
            invariant
                z.len() <= fill,
                z@ == zeros(z.len() as nat),
            decreases fill - z.len(),
        {
            z.push('0');
            assert(z@ =~= zeros(z.len() as nat));
        }
        let mut tail = ds0;
        z.append(&mut tail);
        z
    };
    assert(ds@ =~= padded(digits(magnitude(mantissa as int)), scale as nat + 1));
    let mut body = if scale == 0 {
        ds
    } else {
        let cut: usize = ds.len() - scale as usize;
        let mut head = copy_range(&ds, 0, cut);
        head.push('.');
        let mut rest = copy_range(&ds, cut, ds.len());
        head.append(&mut rest);
        head
    };
    if mantissa < 0 {
        let mut signed: Vec<char> = Vec::new();
        signed.push('-');
        signed.append(&mut body);
        assert(signed@ =~= dec_text(mantissa as int, scale as nat));
        signed
    } else {
        assert(body@ =~= dec_text(mantissa as int, scale as nat));
        body
    }
}

/// Relies on `String: FromIterator<&char>`, which joins the characters in
/// order.
#[verifier::external_body]
pub(crate) fn string_of(cs: &Vec<char>) -> (r: String)
    ensures
        r@ == cs@,
{
    cs.iter().collect()
}

} // verus!

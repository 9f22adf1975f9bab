//! Reading an upstream query URL back into its parts.
use vstd::prelude::*;
use crate::decimal::{Dec, MAX_SCALE, pow10, lemma_pow10_add, lemma_pow10_monotone, lemma_pow10_28};
use crate::query::{WINDOW, upstream_url, window_end};
use crate::text::{chars_of, copy_range, lemma_dec_text_value, text_value, dec_text, digits, padded, zeros, magnitude, string_of};

verus! {

/// `s` without its prefix `p`, where it starts with `p`.
pub open spec fn stripped(s: Seq<char>, p: Seq<char>) -> Option<Seq<char>> {
    if p.len() <= s.len() && s.subrange(0, p.len() as int) == p {
        Some(s.subrange(p.len() as int, s.len() as int))
    } else {
        None
    }
}

/// `i` is the position of the first `c` in `s`.
pub open spec fn is_first(s: Seq<char>, c: char, i: int) -> bool {
    &&& 0 <= i < s.len()
    &&& s[i] == c
    &&& forall|j: int| 0 <= j < i ==> s[j] != c
}

/// `s` cut before its first `c`, where it holds one.
pub open spec fn split_before(s: Seq<char>, c: char) -> Option<(Seq<char>, Seq<char>)> {
    if exists|i: int| is_first(s, c, i) {
        let i = choose|i: int| is_first(s, c, i);
        Some((s.subrange(0, i), s.subrange(i, s.len() as int)))
    } else {
        None
    }
}

/// The chain, the token address and the texts of the window's two ends that
/// an upstream query URL names.
pub open spec fn url_parts(u: Seq<char>) -> Option<(Seq<char>, Seq<char>, Seq<char>, Seq<char>)> {
    match stripped(u, "https://api.coingecko.com/api/v3/coins/"@) {
        None => None,
        Some(r1) => match split_before(r1, '/') {
            None => None,
            Some((chain, r2)) => match stripped(r2, "/contract/"@) {
                None => None,
                Some(r3) => match split_before(r3, '/') {
                    None => None,
                    Some((addr, r4)) => match stripped(r4, "/market_chart/range?vs_currency=usd&chain_id="@) {
                        None => None,
                        Some(r5) => match split_before(r5, '&') {
                            None => None,
                            Some((chain2, r6)) => if chain2 != chain {
                                None
                            } else {
                                match stripped(r6, "&from="@) {
                                    None => None,
                                    Some(r7) => match split_before(r7, '&') {
                                        None => None,
                                        Some((from, r8)) => match stripped(r8, "&to="@) {
                                            None => None,
                                            Some(to) => Some((chain, addr, from, to)),
                                        },
                                    },
                                }
                            },
                        },
                    },
                },
            },
        },
    }
}

/// The parts of an upstream query URL.
#[derive(Debug)]
pub struct UrlParts {
    pub chain_id: String,
    pub token_address: String,
    pub from: String,
    pub to: String,
}

impl UrlParts {
    pub open spec fn model(self) -> (Seq<char>, Seq<char>, Seq<char>, Seq<char>) {
        (self.chain_id@, self.token_address@, self.from@, self.to@)
    }
}

fn strip(s: &Vec<char>, p: &str) -> (r: Option<Vec<char>>)
    ensures
        match r {
            Some(v) => stripped(s@, p@) == Some(v@),
            None => stripped(s@, p@) is None,
        },
{
    let pc = chars_of(p);
    if pc.len() > s.len() {
        return None;
    }
    let mut i: usize = 0;
    while i < pc.len()
        invariant
            pc@ == p@,
            pc@.len() <= s@.len(),
            i <= pc@.len(),
            forall|k: int| 0 <= k < i ==> s@[k] == pc@[k],
        decreases pc.len() - i,
    {
        if s[i] != pc[i] {
            assert(s@.subrange(0, pc@.len() as int)[i as int] != p@[i as int]);
            return None;
        }
        i = i + 1;
    }
    assert(s@.subrange(0, pc@.len() as int) =~= p@);
    Some(copy_range(s, pc.len(), s.len()))
}

proof fn lemma_first_unique(s: Seq<char>, c: char, i: int, j: int)
    requires
        is_first(s, c, i),
        is_first(s, c, j),
    ensures
        i == j,
{
    if i < j {
        assert(s[i] != c);
    } else if j < i {
        assert(s[j] != c);
    }
}

fn split(s: &Vec<char>, c: char) -> (r: Option<(Vec<char>, Vec<char>)>)
    ensures
        match r {
            Some((a, b)) => split_before(s@, c) == Some((a@, b@)),
            None => split_before(s@, c) is None,
        },
{
    let mut i: usize = 0;
    while i < s.len()
        invariant
            i <= s@.len(),
            forall|j: int| 0 <= j < i ==> s@[j] != c,
        decreases s.len() - i,
    {
        if s[i] == c {
            proof {
                assert(is_first(s@, c, i as int));
                lemma_first_unique(s@, c, i as int, choose|k: int| is_first(s@, c, k));
            }
            return Some((copy_range(s, 0, i), copy_range(s, i, s.len())));
        }
        i = i + 1;
    }
    assert(!exists|k: int| is_first(s@, c, k));
    None
}

fn same_chars(a: &Vec<char>, b: &Vec<char>) -> (r: bool)
    ensures
        r == (a@ == b@),
{
    if a.len() != b.len() {
        return false;
    }
    let mut i: usize = 0;
    while i < a.len()
        invariant
            a@.len() == b@.len(),
            i <= a@.len(),
            forall|k: int| 0 <= k < i ==> a@[k] == b@[k],
        decreases a.len() - i,
    {
        if a[i] != b[i] {
            return false;
        }
        i = i + 1;
    }
    assert(a@ =~= b@);
    true
}

/// Reads an upstream query URL back into the chain, the token address and
/// the texts of the window's ends.
pub fn parse_upstream_url(url: &str) -> (r: Option<UrlParts>)
    ensures
        match r {
            Some(p) => url_parts(url@) == Some(p.model()),
            None => url_parts(url@) is None,
        },
{
    let u = chars_of(url);
    let r1 = match strip(&u, "https://api.coingecko.com/api/v3/coins/") {
        Some(v) => v,
        None => return None,
    };
    let (chain, r2) = match split(&r1, '/') {
        Some(p) => p,
        None => return None,
    };
    let r3 = match strip(&r2, "/contract/") {
        Some(v) => v,
        None => return None,
    };
    let (addr, r4) = match split(&r3, '/') {
        Some(p) => p,
        None => return None,
    };
    let r5 = match strip(&r4, "/market_chart/range?vs_currency=usd&chain_id=") {
        Some(v) => v,
        None => return None,
    };
    let (chain2, r6) = match split(&r5, '&') {
        Some(p) => p,
        None => return None,
    };
    if !same_chars(&chain, &chain2) {
        return None;
    }
    let r7 = match strip(&r6, "&from=") {
        Some(v) => v,
        None => return None,
    };
    let (from, r8) = match split(&r7, '&') {
        Some(p) => p,
        None => return None,
    };
    let to = match strip(&r8, "&to=") {
        Some(v) => v,
        None => return None,
    };
    Some(
        UrlParts {
            chain_id: string_of(&chain),
            token_address: string_of(&addr),
            from: string_of(&from),
            to: string_of(&to),
        },
    )
}

proof fn lemma_stripped_concat(p: Seq<char>, rest: Seq<char>)
    ensures
        stripped(p + rest, p) == Some(rest),
{
    assert((p + rest).subrange(0, p.len() as int) =~= p);
    assert((p + rest).subrange(p.len() as int, (p + rest).len() as int) =~= rest);
}

proof fn lemma_split_concat(x: Seq<char>, y: Seq<char>, c: char)
    requires
        forall|k: int| 0 <= k < x.len() ==> x[k] != c,
        y.len() > 0,
        y[0] == c,
    ensures
        split_before(x + y, c) == Some((x, y)),
{
    let s = x + y;
    assert(is_first(s, c, x.len() as int));
    let i = choose|i: int| is_first(s, c, i);
    lemma_first_unique(s, c, i, x.len() as int);
    assert(s.subrange(0, x.len() as int) =~= x);
    assert(s.subrange(x.len() as int, s.len() as int) =~= y);
}

/// A character that can stand in the text of a decimal.
pub open spec fn number_char(c: char) -> bool {
    ('0' <= c <= '9') || c == '.' || c == '-'
}

proof fn lemma_digits_chars(n: nat)
    ensures
        forall|k: int| 0 <= k < digits(n).len() ==> number_char(#[trigger] digits(n)[k]),
    decreases n,
{
    if n >= 10 {
        lemma_digits_chars(n / 10);
        let d = digits(n / 10);
        assert forall|k: int| 0 <= k < digits(n).len() implies number_char(#[trigger] digits(n)[k]) by {
            if k < d.len() {
                assert(digits(n)[k] == d[k]);
            }
        }
    }
}

proof fn lemma_dec_text_chars(m: int, scale: nat)
    ensures
        forall|k: int| 0 <= k < dec_text(m, scale).len() ==> number_char(#[trigger] dec_text(m, scale)[k]),
{
    let d = digits(magnitude(m));
    lemma_digits_chars(magnitude(m));
    let ds = padded(d, scale + 1);
    assert forall|k: int| 0 <= k < ds.len() implies number_char(#[trigger] ds[k]) by {
        if d.len() < scale + 1 {
            let z = zeros((scale + 1 - d.len()) as nat);
            if k < z.len() {
                assert(ds[k] == z[k]);
            } else {
                assert(ds[k] == d[k - z.len()]);
            }
        }
    }
}

proof fn lemma_window_end_value(t: Dec)
    requires
        t.wf(),
    ensures
        (Dec { mantissa: window_end(t) as i128, scale: t.scale }).fixed() == t.fixed() + WINDOW * pow10(
            MAX_SCALE as nat,
        ),
{
    let sh = (MAX_SCALE - t.scale) as nat;
    lemma_pow10_add(t.scale as nat, sh);
    lemma_pow10_monotone(t.scale as nat, MAX_SCALE as nat);
    lemma_pow10_28();
    assert(window_end(t) * pow10(sh) == t.mantissa * pow10(sh) + WINDOW * (pow10(t.scale as nat) * pow10(sh)))
        by (nonlinear_arith)
        requires
            window_end(t) == t.mantissa + WINDOW * pow10(t.scale as nat),
    ;
    assert(-100_000_000_000_000_000_000_000_000_000_000 < window_end(t)
        < 100_000_000_000_000_000_000_000_000_000_000) by (nonlinear_arith)
        requires
            window_end(t) == t.mantissa + 1000 * pow10(t.scale as nat),
            pow10(t.scale as nat) <= 10_000_000_000_000_000_000_000_000_000,
            -79_228_162_514_264_337_593_543_950_336 < t.mantissa < 79_228_162_514_264_337_593_543_950_336,
    ;
}

#[verifier::spinoff_prover]
#[verifier::rlimit(40)]
proof fn lemma_url_parts(chain: Seq<char>, addr: Seq<char>, t: Dec)
    requires
        forall|k: int| 0 <= k < chain.len() ==> chain[k] != '/' && chain[k] != '&',
        forall|k: int| 0 <= k < addr.len() ==> addr[k] != '/',
    ensures
        url_parts(upstream_url(chain, addr, t)) == Some(
            (chain, addr, dec_text(t.mantissa as int, t.scale as nat), dec_text(window_end(t), t.scale as nat)),
        ),
{
    reveal_strlit("https://api.coingecko.com/api/v3/coins/");
    reveal_strlit("/contract/");
    reveal_strlit("/market_chart/range?vs_currency=usd&chain_id=");
    reveal_strlit("&from=");
    reveal_strlit("&to=");
    let base = "https://api.coingecko.com/api/v3/coins/"@;
    let contract = "/contract/"@;
    let mid = "/market_chart/range?vs_currency=usd&chain_id="@;
    let from_key = "&from="@;
    let to_key = "&to="@;
    let from = dec_text(t.mantissa as int, t.scale as nat);
    let to = dec_text(window_end(t), t.scale as nat);
    lemma_dec_text_chars(t.mantissa as int, t.scale as nat);
    let r8 = to_key + to;
    let r7 = from + r8;
    let r6 = from_key + r7;
    let r5 = chain + r6;
    let r4 = mid + r5;
    let r3 = addr + r4;
    let r2 = contract + r3;
    let r1 = chain + r2;
    assert(upstream_url(chain, addr, t) =~= base + r1);
    lemma_stripped_concat(base, r1);
    lemma_split_concat(chain, r2, '/');
    lemma_stripped_concat(contract, r3);
    lemma_split_concat(addr, r4, '/');
    lemma_stripped_concat(mid, r5);
    lemma_split_concat(chain, r6, '&');
    lemma_stripped_concat(from_key, r7);
    assert forall|k: int| 0 <= k < from.len() implies from[k] != '&' by {
        assert(number_char(from[k]));
    }
    lemma_split_concat(from, r8, '&');
    lemma_stripped_concat(to_key, to);
}

/// Reading back the URL built for a chain, a token address and a time
/// gives the chain, the address and the texts of `t` and of `t + WINDOW`,
/// where the chain holds no `/` or `&` and the address no `/`. The two texts
/// read back as `t` and as a number at the same scale exactly `WINDOW`
/// above it.
pub proof fn lemma_url_round_trip(chain: Seq<char>, addr: Seq<char>, t: Dec)
    requires
        t.wf(),
        forall|k: int| 0 <= k < chain.len() ==> chain[k] != '/' && chain[k] != '&',
        forall|k: int| 0 <= k < addr.len() ==> addr[k] != '/',
    ensures
        url_parts(upstream_url(chain, addr, t)) == Some(
            (chain, addr, dec_text(t.mantissa as int, t.scale as nat), dec_text(window_end(t), t.scale as nat)),
        ),
        text_value(dec_text(t.mantissa as int, t.scale as nat)) == Some((t.mantissa as int, t.scale as nat)),
        text_value(dec_text(window_end(t), t.scale as nat)) == Some((window_end(t), t.scale as nat)),
        (Dec { mantissa: window_end(t) as i128, scale: t.scale }).fixed() == t.fixed() + WINDOW * pow10(
            MAX_SCALE as nat,
        ),
{
    lemma_dec_text_value(t.mantissa as int, t.scale as nat);
    lemma_dec_text_value(window_end(t), t.scale as nat);
    lemma_url_parts(chain, addr, t);
    lemma_window_end_value(t);
}

} // verus!

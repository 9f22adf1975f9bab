//! The validated request and the upstream market-chart query built from it.
use vstd::prelude::*;
use crate::decimal::{Dec, MAX_SCALE, pow10, pow10_of};
use crate::error::TokenError;
use crate::text::{dec_text, decimal_chars, string_of};

verus! {

/// Width of the time window that the upstream is asked about, in the unit of
/// the timestamp.
pub const WINDOW: i128 = 1000;

/// Code of a request that lacks one of its fields.
pub const MISSING_FIELD_CODE: u16 = 404;

/// A request that has all its fields.
#[derive(Debug)]
pub struct PriceQuery {
    pub token_address: String,
    pub chain_id: String,
    pub timestamp: Dec,
}

impl PriceQuery {
    pub open spec fn wf(self) -> bool {
        &&& self.token_address@.len() > 0
        &&& self.chain_id@.len() > 0
        &&& self.timestamp.wf()
    }
}

pub open spec fn present(s: Option<String>) -> bool {
    s matches Some(v) && v@.len() > 0
}

pub open spec fn valid_time(t: Option<Dec>) -> bool {
    t matches Some(v) && v.wf()
}

/// Checks that a request has a token address, a chain and a usable
/// timestamp, in that order, and reports the first that is missing.
pub fn validate_request(
    token_address: Option<String>,
    chain_id: Option<String>,
    timestamp: Option<Dec>,
) -> (r: Result<PriceQuery, TokenError>)
    ensures
        match r {
            Ok(q) => present(token_address) && present(chain_id) && valid_time(timestamp)
                && q.wf() && Some(q.token_address) == token_address
                && Some(q.chain_id) == chain_id && Some(q.timestamp) == timestamp,
            Err(e) => e.error_code == MISSING_FIELD_CODE && if !present(token_address) {
                e.error_message@ == "Token address is missing"@
            } else if !present(chain_id) {
                e.error_message@ == "Chain ID is missing"@
            } else {
                !valid_time(timestamp) && e.error_message@ == "Timestamp is missing or invalid"@
            },
        },
{
    let token_address = match token_address {
        Some(a) if a.as_str().unicode_len() > 0 => a,
        _ => return Err(
            TokenError {
                error_code: MISSING_FIELD_CODE,
                error_message: String::from_str("Token address is missing"),
            },
        ),
    };
    let chain_id = match chain_id {
        Some(c) if c.as_str().unicode_len() > 0 => c,
        _ => return Err(
            TokenError {
                error_code: MISSING_FIELD_CODE,
                error_message: String::from_str("Chain ID is missing"),
            },
        ),
    };
    let timestamp = match timestamp {
        Some(t) if -crate::decimal::MANTISSA_LIMIT < t.mantissa && t.mantissa
            < crate::decimal::MANTISSA_LIMIT && t.scale <= MAX_SCALE => t,
        _ => return Err(
            TokenError {
                error_code: MISSING_FIELD_CODE,
                error_message: String::from_str("Timestamp is missing or invalid"),
            },
        ),
    };
    Ok(PriceQuery { token_address, chain_id, timestamp })
}

/// The mantissa of `t + WINDOW`, at the scale of `t`.
pub open spec fn window_end(t: Dec) -> int {
    t.mantissa + WINDOW * pow10(t.scale as nat)
}

/// The market-chart range query for `addr` on `chain`, priced in USD, over
/// `[t, t + WINDOW]`.
pub open spec fn upstream_url(chain: Seq<char>, addr: Seq<char>, t: Dec) -> Seq<char> {
    "https://api.coingecko.com/api/v3/coins/"@ + chain + "/contract/"@ + addr
        + "/market_chart/range?vs_currency=usd&chain_id="@ + chain + "&from="@
        + dec_text(t.mantissa as int, t.scale as nat) + "&to="@
        + dec_text(window_end(t), t.scale as nat)
}

/// Builds the upstream query URL for `query`.
pub fn build_upstream_url(query: &PriceQuery) -> (r: String)
    requires
        query.timestamp.wf(),
    ensures
        r@ == upstream_url(query.chain_id@, query.token_address@, query.timestamp),
{
    let t = query.timestamp;
    let p = pow10_of(t.scale);
    let end: i128 = t.mantissa + WINDOW * p;
    let from = string_of(&decimal_chars(t.mantissa, t.scale));
    let to = string_of(&decimal_chars(end, t.scale));
    let mut url = String::from_str("https://api.coingecko.com/api/v3/coins/");
    url.append(query.chain_id.as_str());
    url.append("/contract/");
    url.append(query.token_address.as_str());
    url.append("/market_chart/range?vs_currency=usd&chain_id=");
    url.append(query.chain_id.as_str());
    url.append("&from=");
    url.append(from.as_str());
    url.append("&to=");
    url.append(to.as_str());
    url
}

} // verus!

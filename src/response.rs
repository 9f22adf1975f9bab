//! The outward answer: the chosen sample together with the request it
//! answers.
use vstd::prelude::*;
use crate::decimal::Dec;
use crate::error::{TokenError, UNKNOWN_ERROR_CODE, unknown_error_message};
use crate::json::parsed_json;
use crate::normalize::normalized;
use crate::query::PriceQuery;
use crate::series::{PricePoint, reduced, select_price};
use crate::upstream::{decode_failure, decoded_body, interpret_response};

verus! {

#[derive(Debug)]
pub struct ServiceResponse {
    pub timestamp: Dec,
    pub chain_id: String,
    pub token_address: String,
    pub token_price: Dec,
}

/// `resp` reports `point` for the chain and token of `query`.
pub open spec fn answers(resp: ServiceResponse, query: PriceQuery, point: PricePoint) -> bool {
    &&& resp.timestamp == point.timestamp
    &&& resp.token_price == point.price
    &&& resp.chain_id@ == query.chain_id@
    &&& resp.token_address@ == query.token_address@
}

/// Combines a chosen sample with the request it answers.
pub fn assemble(query: &PriceQuery, point: PricePoint) -> (r: ServiceResponse)
    ensures
        answers(r, *query, point),
{
    ServiceResponse {
        timestamp: point.timestamp,
        chain_id: query.chain_id.clone(),
        token_address: query.token_address.clone(),
        token_price: point.price,
    }
}

/// The whole answer to `query`, given whether the upstream reported success
/// and the body it sent.
pub fn respond(query: &PriceQuery, success: bool, body: &str) -> (r: Result<ServiceResponse, TokenError>)
    requires
        query.wf(),
    ensures
        success ==> match decoded_body(body@) {
            Some(m) => match reduced(m.0, query.timestamp) {
                Some(p) => (r matches Ok(resp) && answers(resp, *query, p)),
                None => (r matches Err(e) && e.model() == (UNKNOWN_ERROR_CODE, unknown_error_message())),
            },
            None => (r matches Err(e) && e.model() == decode_failure()),
        },
        !success ==> (r matches Err(e) && e.model() == normalized(parsed_json(body@))),
{
    let series = match interpret_response(success, body) {
        Ok(ts) => ts,
        Err(e) => return Err(e),
    };
    match select_price(&series, &query.timestamp) {
        Ok(p) => Ok(assemble(query, p)),
        Err(e) => Err(e),
    }
}

} // verus!

//! Reading the upstream's answer: a price series on success, the canonical
//! error otherwise.
use vstd::prelude::*;
use crate::decimal::{Dec, MANTISSA_LIMIT, MAX_SCALE};
use crate::error::{TokenError, handle_error, TRANSPORT_ERROR_CODE};
use crate::json::{Json, get_field, parse_json, parsed_json, field};
use crate::normalize::{normalize_error, normalized};
use crate::series::{TimeSeries, rows_view};

verus! {

/// The mantissa and scale of the decimal number that `text` spells, where it
/// spells one.
pub uninterp spec fn decimal_parts(text: Seq<char>) -> Option<(i128, u32)>;

/// Relies on `rust_decimal::Decimal::from_scientific`, which reads a text with
/// an exponent exactly and refuses one without, and otherwise on
/// `Decimal::from_str`; the result is read back through `Decimal::mantissa`
/// and `Decimal::scale`. The outcome depends on the text alone.
#[verifier::external_body]
fn parse_decimal(text: &str) -> (r: Option<(i128, u32)>)
    ensures
        r == decimal_parts(text@),
{
    rust_decimal::Decimal::from_scientific(text)
        .or(<rust_decimal::Decimal as core::str::FromStr>::from_str(text))
        .ok()
        .map(|d| (d.mantissa(), d.scale()))
}

/// The decimal that a JSON number (or a string holding one) denotes, where it
/// lies in the supported range.
pub open spec fn dec_of_json(j: Json) -> Option<Dec> {
    let parts = match j {
        Json::Number(t) => decimal_parts(t@),
        Json::Str(t) => decimal_parts(t@),
        _ => None,
    };
    match parts {
        Some((m, s)) => if -MANTISSA_LIMIT < m < MANTISSA_LIMIT && s <= MAX_SCALE {
            Some(Dec { mantissa: m, scale: s })
        } else {
            None
        },
        None => None,
    }
}

/// A JSON array of decimals.
pub open spec fn row_of(j: Json) -> Option<Seq<Dec>> {
    match j {
        Json::Array(items) => if forall|i: int|
            0 <= i < items@.len() ==> #[trigger] dec_of_json(items@[i]) is Some {
            Some(Seq::new(items@.len(), |i: int| dec_of_json(items@[i])->0))
        } else {
            None
        },
        _ => None,
    }
}

/// A JSON array of arrays of decimals.
pub open spec fn rows_of(j: Json) -> Option<Seq<Seq<Dec>>> {
    match j {
        Json::Array(items) => if forall|i: int|
            0 <= i < items@.len() ==> #[trigger] row_of(items@[i]) is Some {
            Some(Seq::new(items@.len(), |i: int| row_of(items@[i])->0))
        } else {
            None
        },
        _ => None,
    }
}

pub open spec fn member_rows(doc: Json, key: Seq<char>) -> Option<Seq<Seq<Dec>>> {
    match field(doc, key) {
        Some(j) => rows_of(j),
        None => None,
    }
}

/// The prices, market caps and total volumes that a success body holds.
pub open spec fn decoded(doc: Json) -> Option<(Seq<Seq<Dec>>, Seq<Seq<Dec>>, Seq<Seq<Dec>>)> {
    match (
        member_rows(doc, "prices"@),
        member_rows(doc, "market_caps"@),
        member_rows(doc, "total_volumes"@),
    ) {
        (Some(p), Some(m), Some(v)) => Some((p, m, v)),
        _ => None,
    }
}

impl TimeSeries {
    pub open spec fn model(self) -> (Seq<Seq<Dec>>, Seq<Seq<Dec>>, Seq<Seq<Dec>>) {
        (rows_view(self.prices@), rows_view(self.market_caps@), rows_view(self.total_volumes@))
    }
}

fn read_decimal(j: &Json) -> (r: Option<Dec>)
    ensures
        r == dec_of_json(*j),
{
    let parts = match j {
        Json::Number(t) => parse_decimal(t.as_str()),
        Json::Str(t) => parse_decimal(t.as_str()),
        _ => None,
    };
    match parts {
        Some((m, s)) => Dec::new(m, s),
        None => None,
    }
}

fn read_row(j: &Json) -> (r: Option<Vec<Dec>>)
    ensures
        match r {
            Some(v) => row_of(*j) == Some(v@),
            None => row_of(*j) is None,
        },
{
    let items = match j {
        Json::Array(items) => items,
        _ => return None,
    };
    let mut out: Vec<Dec> = Vec::new();
    let mut i: usize = 0;
    while i < items.len()
        invariant
            *j == Json::Array(*items),
            i <= items@.len(),
            forall|k: int| 0 <= k < i ==> #[trigger] dec_of_json(items@[k]) is Some,
            out@ == Seq::new(i as nat, |k: int| dec_of_json(items@[k])->0),
        decreases items.len() - i,
    {
        match read_decimal(&items[i]) {
            Some(d) => out.push(d),
            None => return None,
        }
        assert(out@ =~= Seq::new((i + 1) as nat, |k: int| dec_of_json(items@[k])->0));
        i = i + 1;
    }
    assert(out@ =~= Seq::new(items@.len(), |k: int| dec_of_json(items@[k])->0));
    Some(out)
}

fn read_rows(j: &Json) -> (r: Option<Vec<Vec<Dec>>>)
    ensures
        match r {
            Some(v) => rows_of(*j) == Some(rows_view(v@)),
            None => rows_of(*j) is None,
        },
{
    let items = match j {
        Json::Array(items) => items,
        _ => return None,
    };
    let mut out: Vec<Vec<Dec>> = Vec::new();
    let mut i: usize = 0;
    while i < items.len()
        invariant
            *j == Json::Array(*items),
            i <= items@.len(),
            forall|k: int| 0 <= k < i ==> #[trigger] row_of(items@[k]) is Some,
            out@.len() == i,
            rows_view(out@) == Seq::new(i as nat, |k: int| row_of(items@[k])->0),
        decreases items.len() - i,
    {
        let ghost before = out@;
        match read_row(&items[i]) {
            Some(row) => out.push(row),
            None => return None,
        }
        assert forall|k: int| 0 <= k < i + 1 implies #[trigger] rows_view(out@)[k] == row_of(items@[k])->0 by {
            if k < i {
                assert(out@[k] == before[k]);
                assert(rows_view(before)[k] == row_of(items@[k])->0);
            }
        }
        assert(rows_view(out@) =~= Seq::new((i + 1) as nat, |k: int| row_of(items@[k])->0));
        i = i + 1;
    }
    assert(rows_view(out@) =~= Seq::new(items@.len(), |k: int| row_of(items@[k])->0));
    Some(out)
}

fn read_member(doc: &Json, key: &str) -> (r: Option<Vec<Vec<Dec>>>)
    ensures
        match r {
            Some(v) => member_rows(*doc, key@) == Some(rows_view(v@)),
            None => member_rows(*doc, key@) is None,
        },
{
    match get_field(doc, key) {
        Some(j) => read_rows(j),
        None => None,
    }
}

/// Reads the three series of a success body.
pub fn decode_series(doc: &Json) -> (r: Option<TimeSeries>)
    ensures
        match r {
            Some(ts) => decoded(*doc) == Some(ts.model()) && ts.wf(),
            None => decoded(*doc) is None,
        },
{
    let prices = match read_member(doc, "prices") {
        Some(v) => v,
        None => return None,
    };
    let market_caps = match read_member(doc, "market_caps") {
        Some(v) => v,
        None => return None,
    };
    let total_volumes = match read_member(doc, "total_volumes") {
        Some(v) => v,
        None => return None,
    };
    let ts = TimeSeries { prices, market_caps, total_volumes };
    assert(ts.wf());
    Some(ts)
}

pub open spec fn decode_failure() -> (u16, Seq<char>) {
    (TRANSPORT_ERROR_CODE, "Failed to decode JSON"@ + ": "@ + "JSON decode error"@)
}

/// Interprets an upstream answer: the series of a success body, or the
/// canonical error of any other body.
pub fn interpret_response(success: bool, body: &str) -> (r: Result<TimeSeries, TokenError>)
    ensures
        success ==> match decoded_body(body@) {
            Some(m) => (r matches Ok(ts) && ts.model() == m && ts.wf()),
            None => (r matches Err(e) && e.model() == decode_failure()),
        },
        !success ==> (r matches Err(e) && e.model() == normalized(parsed_json(body@))),
{
    let doc = parse_json(body);
    if success {
        let series = match &doc {
            Some(d) => decode_series(d),
            None => None,
        };
        match series {
            Some(ts) => Ok(ts),
            None => Err(handle_error("JSON decode error", TRANSPORT_ERROR_CODE, "Failed to decode JSON")),
        }
    } else {
        Err(normalize_error(&doc))
    }
}

/// The series that a success body holds, where it holds them all.
pub open spec fn decoded_body(body: Seq<char>) -> Option<(Seq<Seq<Dec>>, Seq<Seq<Dec>>, Seq<Seq<Dec>>)> {
    match parsed_json(body) {
        Some(d) => decoded(d),
        None => None,
    }
}

} // verus!

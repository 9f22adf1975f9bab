use token_price::decimal::Dec;
use token_price::error::{handle_error, http_status_for, unknown_error};
use token_price::json::parse_json;
use token_price::normalize::{normalize_error, normalize_error_body, parse_code};
use token_price::query::{build_upstream_url, validate_request, PriceQuery};
use token_price::response::respond;
use token_price::series::{closest_index, closest_point, select_price, PricePoint, TimeSeries};
use token_price::text::decimal_chars;
use token_price::upstream::{decode_series, interpret_response};
use token_price::url::parse_upstream_url;

const USDT_ADDRESS: &str = "0xdac17f958d2ee523a2206206994597c13d831ec7";
const ETHEREUM_NETWORK: &str = "ethereum";

fn dec(mantissa: i128, scale: u32) -> Dec {
    Dec::new(mantissa, scale).unwrap()
}

fn query(addr: &str, chain: &str, t: Dec) -> PriceQuery {
    validate_request(Some(addr.to_string()), Some(chain.to_string()), Some(t)).unwrap()
}

fn sample(t: i128, v: Dec) -> Vec<Dec> {
    vec![dec(t, 0), v]
}

#[test]
fn test_too_old_fail_fetch_token_price() {
    let message = [
        "Your request exceeds the allowed time range. ",
        "Public API users are limited to querying historical data within the past 365 days. ",
        "Upgrade to a paid plan to enjoy full historical data access: https://www.coingecko.com/en/api/pricing. ",
    ]
    .concat();
    let body = format!(
        "{{\"error\":{{\"status\":{{\"timestamp\":\"2024-12-15T10:00:00Z\",\"error_code\":10012,\"error_message\":\"{}\"}}}}}}",
        message
    );
    let q = query(USDT_ADDRESS, ETHEREUM_NETWORK, dec(1643723400, 0));
    match respond(&q, false, &body) {
        Err(e) => {
            assert_eq!(e.error_code, 10012);
            assert_eq!(e.error_message, message);
        }
        _ => panic!("Expected an error, but got a valid response"),
    }
}

#[test]
fn test_wrong_contract_fail_fetch_token_price() {
    let q = query("0x111", ETHEREUM_NETWORK, dec(1734260400, 0));
    match respond(&q, false, "{\"error\":\"coin not found\"}") {
        Err(e) => {
            assert_eq!(e.error_code, 404);
            assert_eq!(e.error_message, "coin not found");
        }
        _ => panic!("Expected an error, but got a valid response"),
    }
}

#[test]
fn test_exceed_limit_fail_fetch_token_price() {
    let message = [
        "You've exceeded the Rate Limit. ",
        "Please visit https://www.coingecko.com/en/api/pricing to subscribe ",
        "to our API plans for higher rate limits.",
    ]
    .concat();
    let body = format!("{{\"status\":{{\"error_code\":429,\"error_message\":\"{}\"}}}}", message);
    let q = query(USDT_ADDRESS, ETHEREUM_NETWORK, dec(1734260400, 0));
    match respond(&q, false, &body) {
        Err(e) => {
            assert_eq!(e.error_code, 429);
            assert_eq!(e.error_message, message);
        }
        _ => panic!("Expected an error, but got a valid response"),
    }
}

#[test]
fn test_fetch_token_price() {
    let q = query(USDT_ADDRESS, ETHEREUM_NETWORK, dec(1734260400, 0));
    let body = "{\"prices\":[[1734260500,0.9991],[1734261300,1.0002]],\
                \"market_caps\":[[1734260500,138000000000.5]],\
                \"total_volumes\":[]}";
    let r = respond(&q, true, body);
    assert!(r.is_ok());
    let resp = r.unwrap();
    assert_eq!(resp.timestamp, dec(1734260500, 0));
    assert_eq!(resp.token_price, dec(9991, 4));
    assert_eq!(resp.chain_id, ETHEREUM_NETWORK);
    assert_eq!(resp.token_address, USDT_ADDRESS);
}

#[test]
fn reducer_picks_nearest_sample() {
    let prices = vec![sample(1700000500, dec(1000, 1)), sample(1700000100, dec(1015, 1))];
    let p = closest_point(&prices, &dec(1700000000, 0)).unwrap();
    assert_eq!(p, PricePoint { timestamp: dec(1700000100, 0), price: dec(1015, 1) });
    assert_eq!(closest_index(&prices, &dec(1700000000, 0)), Some(1));
}

#[test]
fn reducer_scenario_from_upstream_body() {
    let q = query("0xdead", "ethereum", dec(1700000000, 0));
    let body = "{\"prices\":[[1700000500,100.0],[1700000100,101.5]],\"market_caps\":[],\"total_volumes\":[]}";
    let resp = respond(&q, true, body).unwrap();
    assert_eq!(resp.timestamp, dec(1700000100, 0));
    assert_eq!(resp.token_price, dec(1015, 1));
}

#[test]
fn reducer_tie_goes_to_earliest() {
    let prices = vec![
        sample(1700000300, dec(1, 0)),
        sample(1699999900, dec(2, 0)),
        sample(1700000100, dec(3, 0)),
    ];
    assert_eq!(closest_index(&prices, &dec(1700000000, 0)), Some(1));
    let tied = vec![sample(1700000100, dec(1, 0)), sample(1699999900, dec(2, 0))];
    assert_eq!(closest_index(&tied, &dec(1700000000, 0)), Some(0));
}

#[test]
fn reducer_compares_across_scales() {
    let prices = vec![vec![dec(17000000005, 1), dec(1, 0)], vec![dec(1700000000, 0), dec(2, 0)]];
    assert_eq!(closest_index(&prices, &dec(170000000049, 2)), Some(0));
}

#[test]
fn reducer_single_and_empty() {
    let one = vec![sample(5, dec(7, 0))];
    assert_eq!(
        closest_point(&one, &dec(1700000000, 0)),
        Some(PricePoint { timestamp: dec(5, 0), price: dec(7, 0) })
    );
    let none: Vec<Vec<Dec>> = Vec::new();
    assert_eq!(closest_point(&none, &dec(1, 0)), None);
    let short = vec![Vec::new()];
    assert_eq!(
        closest_point(&short, &dec(1, 0)),
        Some(PricePoint { timestamp: dec(0, 0), price: dec(0, 0) })
    );
}

#[test]
fn empty_series_gives_unknown_error() {
    let ts = TimeSeries { prices: Vec::new(), market_caps: Vec::new(), total_volumes: Vec::new() };
    let e = select_price(&ts, &dec(1700000000, 0)).unwrap_err();
    assert_eq!(e.error_code, 600);
    assert_eq!(e.error_message, "Unknown error occurred");
    let q = query("0xdead", "ethereum", dec(1700000000, 0));
    let e = respond(&q, true, "{\"prices\":[],\"market_caps\":[],\"total_volumes\":[]}").unwrap_err();
    assert_eq!(e.error_code, 600);
}

#[test]
fn rate_limit_scenario() {
    let e = normalize_error_body("{\"status\":{\"error_code\":429,\"error_message\":\"rate limited\"}}");
    assert_eq!(e.error_code, 429);
    assert_eq!(e.error_message, "rate limited");
    assert_eq!(http_status_for(e.error_code), 429);
}

#[test]
fn not_found_scenario() {
    let e = normalize_error_body("{\"error\":\"coin not found\"}");
    assert_eq!(e.error_code, 404);
    assert_eq!(e.error_message, "coin not found");
    assert_eq!(http_status_for(e.error_code), 404);
}

#[test]
fn nested_shape_wins_over_the_others() {
    let body = "{\"status\":{\"error_code\":1,\"error_message\":\"bare\"},\
                \"error\":{\"status\":{\"error_code\":10012,\"error_message\":\"nested\"}}}";
    let e = normalize_error_body(body);
    assert_eq!(e.error_code, 10012);
    assert_eq!(e.error_message, "nested");
    assert_eq!(http_status_for(e.error_code), 401);
}

#[test]
fn flat_shape_wins_over_bare_status() {
    let body = "{\"status\":{\"error_code\":1,\"error_message\":\"bare\"},\"error\":\"gone\"}";
    let e = normalize_error_body(body);
    assert_eq!(e.error_code, 404);
    assert_eq!(e.error_message, "gone");
}

#[test]
fn unmatched_bodies_give_unknown_error() {
    for body in [
        "not json at all",
        "{\"message\":\"nope\"}",
        "{\"status\":{\"error_code\":-1,\"error_message\":\"negative\"}}",
        "{\"status\":{\"error_code\":70000,\"error_message\":\"too big\"}}",
        "{\"status\":{\"error_code\":429.0,\"error_message\":\"float\"}}",
        "{\"error\":{\"status\":{\"error_code\":429}}}",
        "[]",
    ] {
        let e = normalize_error_body(body);
        assert_eq!(e.error_code, 600, "{}", body);
        assert_eq!(e.error_message, "Unknown error occurred");
        assert_eq!(http_status_for(e.error_code), 500);
    }
    let e = normalize_error(&None);
    assert_eq!(e.error_code, unknown_error().error_code);
}

#[test]
fn error_code_text() {
    assert_eq!(parse_code("0"), Some(0));
    assert_eq!(parse_code("65535"), Some(65535));
    assert_eq!(parse_code("65536"), None);
    assert_eq!(parse_code("12a"), None);
    assert_eq!(parse_code(""), None);
    assert_eq!(parse_code("4290000000000000000000"), None);
}

#[test]
fn json_documents() {
    let doc = parse_json("{\"a\":[1,\"x\",null,true]}").unwrap();
    let e = normalize_error(&Some(doc));
    assert_eq!(e.error_code, 600);
    assert!(parse_json("{").is_none());
}

#[test]
fn success_body_that_does_not_decode() {
    for body in [
        "{\"prices\":[[1,2]]}",
        "{\"prices\":[[1,\"x\"]],\"market_caps\":[],\"total_volumes\":[]}",
        "garbage",
    ] {
        let e = interpret_response(true, body).unwrap_err();
        assert_eq!(e.error_code, 0);
        assert_eq!(e.error_message, "Failed to decode JSON: JSON decode error");
    }
}

#[test]
fn success_body_decodes_all_series() {
    let doc = parse_json(
        "{\"prices\":[[1,2.50]],\"market_caps\":[[3,\"4.5\"]],\"total_volumes\":[[6,-7]],\"extra\":1}",
    )
    .unwrap();
    let ts = decode_series(&doc).unwrap();
    assert_eq!(ts.prices, vec![vec![dec(1, 0), dec(25, 1)]]);
    assert_eq!(ts.market_caps, vec![vec![dec(3, 0), dec(45, 1)]]);
    assert_eq!(ts.total_volumes, vec![vec![dec(6, 0), dec(-7, 0)]]);
}

#[test]
fn handle_error_joins_message_and_cause() {
    let e = handle_error("connection refused", 0, "Request error");
    assert_eq!(e.error_code, 0);
    assert_eq!(e.error_message, "Request error: connection refused");
}

#[test]
fn validation_reports_first_missing_field() {
    let e = validate_request(None, Some("ethereum".to_string()), Some(dec(1, 0))).unwrap_err();
    assert_eq!((e.error_code, e.error_message.as_str()), (404, "Token address is missing"));
    let e = validate_request(Some("0x1".to_string()), None, None).unwrap_err();
    assert_eq!((e.error_code, e.error_message.as_str()), (404, "Chain ID is missing"));
    let e = validate_request(Some("0x1".to_string()), Some("ethereum".to_string()), None).unwrap_err();
    assert_eq!((e.error_code, e.error_message.as_str()), (404, "Timestamp is missing or invalid"));
    let bad = Dec { mantissa: 1, scale: 30 };
    assert!(validate_request(Some("0x1".to_string()), Some("e".to_string()), Some(dec(1, 28))).is_ok());
    let e = validate_request(Some("0x1".to_string()), Some("ethereum".to_string()), Some(bad)).unwrap_err();
    assert_eq!(e.error_message, "Timestamp is missing or invalid");
    let e = validate_request(Some(String::new()), Some("ethereum".to_string()), Some(dec(1, 0))).unwrap_err();
    assert_eq!(e.error_message, "Token address is missing");
}

#[test]
fn decimal_range() {
    assert!(Dec::new(79_228_162_514_264_337_593_543_950_335, 28).is_some());
    assert!(Dec::new(-79_228_162_514_264_337_593_543_950_335, 0).is_some());
    assert!(Dec::new(79_228_162_514_264_337_593_543_950_336, 0).is_none());
    assert!(Dec::new(1, 29).is_none());
    let (whole, part) = dec(-15, 1).split();
    assert_eq!((whole, part), (-2, 5_000_000_000_000_000_000_000_000_000));
}

fn text(m: i128, s: u32) -> String {
    decimal_chars(m, s).into_iter().collect()
}

#[test]
fn decimal_text_forms() {
    assert_eq!(text(1700000000, 0), "1700000000");
    assert_eq!(text(5, 2), "0.05");
    assert_eq!(text(-1015, 1), "-101.5");
    assert_eq!(text(250, 2), "2.50");
    assert_eq!(text(0, 0), "0");
}

#[test]
fn upstream_url_is_exact() {
    let q = query("0xdead", "ethereum", dec(1700000000, 0));
    assert_eq!(
        build_upstream_url(&q),
        "https://api.coingecko.com/api/v3/coins/ethereum/contract/0xdead/market_chart/range?vs_currency=usd&chain_id=ethereum&from=1700000000&to=1700001000"
    );
    let q = query("0xdead", "base", dec(17000000005, 1));
    assert!(build_upstream_url(&q).ends_with("&from=1700000000.5&to=1700001000.5"));
}

#[test]
fn upstream_url_round_trip() {
    let q = query(USDT_ADDRESS, "polygon-pos", dec(17342604001, 1));
    let parts = parse_upstream_url(&build_upstream_url(&q)).unwrap();
    assert_eq!(parts.chain_id, "polygon-pos");
    assert_eq!(parts.token_address, USDT_ADDRESS);
    assert_eq!(parts.from, "1734260400.1");
    assert_eq!(parts.to, "1734261400.1");
    assert_eq!(read_back(&parts.from), (17342604001, 1));
    assert_eq!(read_back(&parts.to), (17342614001, 1));
    assert!(parse_upstream_url("https://example.com/").is_none());
    assert!(parse_upstream_url(
        "https://api.coingecko.com/api/v3/coins/a/contract/b/market_chart/range?vs_currency=usd&chain_id=c&from=1&to=2"
    )
    .is_none());
}

fn read_back(text: &str) -> (i128, u32) {
    let d = rust_decimal::Decimal::from_str_exact(text).unwrap();
    (d.mantissa(), d.scale())
}

#[test]
fn decimal_text_reads_back() {
    for (m, s) in [
        (0i128, 0u32),
        (7, 3),
        (-123456789, 4),
        (9_999_999_999_999_999_999, 18),
        (79_228_162_514_264_337_593_543_950_335, 28),
        (-79_228_162_514_264_337_593_543_950_335, 0),
    ] {
        assert_eq!(read_back(&text(m, s)), (m, s));
    }
}

#[test]
fn full_precision_prices_decode() {
    let q = query("0xdead", "ethereum", dec(1700000000, 0));
    let body = "{\"prices\":[[1700000500,2.4123456789012345e-05],[1700000010,0.0000000000000000000000000123]],\
                \"market_caps\":[[1700000500,12345678901234567890123]],\"total_volumes\":[]}";
    let resp = respond(&q, true, body).unwrap();
    assert_eq!(resp.timestamp, dec(1700000010, 0));
    assert_eq!(resp.token_price, dec(123, 28));
    let ts = interpret_response(true, body).unwrap();
    let price: f64 = serde_json::from_str("2.4123456789012345e-05").unwrap();
    let expected = read_back(&price.to_string());
    assert_eq!(expected.1, 21);
    assert_eq!(ts.prices[0][1], dec(expected.0, expected.1));
    let cap = ts.market_caps[0][1];
    assert_eq!(
        rust_decimal::Decimal::from_i128_with_scale(cap.mantissa, cap.scale),
        rust_decimal::Decimal::from_str_exact("12345678901234568000000").unwrap()
    );
}

#[test]
fn reducer_far_apart_values() {
    let big = 79_228_162_514_264_337_593_543_950_335i128;
    let prices = vec![
        vec![dec(-big, 0), dec(1, 0)],
        vec![dec(big, 28), dec(2, 0)],
        vec![dec(big, 0), dec(3, 0)],
    ];
    assert_eq!(closest_index(&prices, &dec(-big, 0)), Some(0));
    assert_eq!(closest_index(&prices, &dec(big, 0)), Some(2));
    assert_eq!(closest_index(&prices, &dec(79228162514, 18)), Some(1));
    assert_eq!(closest_index(&prices, &dec(-1, 28)), Some(1));
    let near = vec![vec![dec(1, 28)], vec![dec(-1, 28)]];
    assert_eq!(closest_index(&near, &dec(0, 0)), Some(0));
    let t = dec(big, 0);
    let url = build_upstream_url(&query("0xdead", "ethereum", t));
    let parts = parse_upstream_url(&url).unwrap();
    assert_eq!(parts.from, "79228162514264337593543950335");
    assert_eq!(parts.to, "79228162514264337593543951335");
}

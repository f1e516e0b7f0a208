use quota_tray::pricing::{
    build_table, cost_per_hour, parse_rate, read_price_reply, ModelPricing, PriceReply,
    PriceTable, WireModelEntry, WirePricing,
};
use quota_tray::ratio::Ratio;
use serde_json::Value;

fn ratio(x: f64) -> Option<Ratio> {
    Ratio::from_double_bits(x.to_bits())
}

fn equals(r: &Ratio, x: f64) -> bool {
    let other = ratio(x).unwrap();
    !r.less_than(&other) && !other.less_than(r)
}

fn parsed(text: &str) -> Option<u64> {
    text.parse::<f64>().ok().map(|x| x.to_bits())
}

fn wire_entries(body: &str) -> Vec<WireModelEntry> {
    let v: Value = serde_json::from_str(body).unwrap();
    let field = |e: &Value, name: &str| e["pricing"][name].as_str().and_then(parsed);
    v["data"]
        .as_array()
        .unwrap()
        .iter()
        .map(|e| WireModelEntry {
            id: e["id"].as_str().unwrap_or_default().to_string(),
            pricing: WirePricing {
                prompt: field(e, "prompt"),
                completion: field(e, "completion"),
                input_cache_read: field(e, "input_cache_read"),
            },
        })
        .collect()
}

fn empty_table() -> PriceTable {
    PriceTable::new()
}

fn table_with(id: &str, prompt: f64, completion: f64) -> PriceTable {
    PriceTable::new().insert(id.to_string(), ModelPricing {
        prompt_per_token: ratio(prompt).unwrap(),
        completion_per_token: ratio(completion).unwrap(),
        input_cache_read_per_token: None,
    })
}

#[test]
fn parse_rate_handles_strings() {
    assert!(equals(&parse_rate(parsed("0.000005")), 0.000005));
    assert!(equals(&parse_rate(parsed("0")), 0.0));
    assert!(equals(&parse_rate(parsed("")), 0.0));
    assert!(equals(&parse_rate(parsed("nan")), 0.0));
    assert!(equals(&parse_rate(parsed("not-a-number")), 0.0));
    assert!(equals(&parse_rate(parsed("-1.0")), 0.0));
    assert!(equals(&parse_rate(parsed("inf")), 0.0));
}

#[test]
fn cost_per_hour_50_50_split() {
    let t = table_with("openai/gpt-4o", 5e-6, 15e-6);
    let c = cost_per_hour(&t, Some("openai/gpt-4o"), ratio(1_000_000.0).as_ref(), ratio(0.5).as_ref());
    assert_eq!(c, Some("$10/h".to_string()));
}

#[test]
fn cost_per_hour_all_completion() {
    let t = table_with("model", 0.0, 1e-6);
    let c = cost_per_hour(&t, Some("model"), ratio(100_000.0).as_ref(), ratio(0.0).as_ref());
    assert_eq!(c, Some("$0.1/h".to_string()));
}

#[test]
fn cost_per_hour_hides_below_one_tenth_cent() {
    let t = table_with("cheap", 2e-7, 6e-7);
    let c = cost_per_hour(&t, Some("cheap"), ratio(100.0).as_ref(), ratio(0.5).as_ref());
    assert!(c.is_none(),
            "sub-tenth-cent should be hidden, got {c:?}");
}

#[test]
fn cost_per_hour_hides_when_model_unknown() {
    let t = table_with("foo", 1e-6, 1e-6);
    let c = cost_per_hour(&t, Some("bar"), ratio(1000.0).as_ref(), ratio(0.5).as_ref());
    assert!(c.is_none());
}

#[test]
fn cost_per_hour_hides_when_model_missing() {
    let t = table_with("foo", 1e-6, 1e-6);
    let c = cost_per_hour(&t, None, ratio(1000.0).as_ref(), ratio(0.5).as_ref());
    assert!(c.is_none());
}

#[test]
fn cost_per_hour_empty_table() {
    let c = cost_per_hour(&empty_table(), Some("anything"), ratio(1000.0).as_ref(), ratio(0.5).as_ref());
    assert!(c.is_none());
}

#[test]
fn cost_per_hour_clamps_prompt_share() {
    let t = table_with("m", 1e-6, 1e-6);
    let c = cost_per_hour(&t, Some("m"), ratio(100_000.0).as_ref(), ratio(2.0).as_ref());
    assert_eq!(c, Some("$0.1/h".to_string()));
}

#[test]
fn cost_per_hour_clamps_negative_prompt_share() {
    let t = table_with("m", 1e-6, 1e-6);
    let c = cost_per_hour(&t, Some("m"), ratio(100_000.0).as_ref(), ratio(-0.5).as_ref());
    assert_eq!(c, Some("$0.1/h".to_string()));
}

#[test]
fn cost_per_hour_handles_nonfinite_rate() {
    let t = table_with("m", 1e-6, 1e-6);
    assert!(cost_per_hour(&t, Some("m"), ratio(f64::NAN).as_ref(), ratio(0.5).as_ref()).is_none());
    assert!(cost_per_hour(&t, Some("m"), ratio(f64::INFINITY).as_ref(), ratio(0.5).as_ref()).is_none());
}

#[test]
fn parses_openrouter_wire_shape() {
    let body = r#"{
        "data": [
            {
                "id": "openai/gpt-4o",
                "name": "OpenAI: GPT-4o",
                "context_length": 128000,
                "pricing": {
                    "prompt": "0.0000025",
                    "completion": "0.00001",
                    "input_cache_read": "0.00000125"
                }
            },
            {
                "id": "free/model",
                "pricing": {
                    "prompt": "0",
                    "completion": "0"
                }
            }
        ]
    }"#;
    let entries = wire_entries(body);
    assert_eq!(entries.len(), 2);
    let table = build_table(&entries);

    let gpt = table.get("openai/gpt-4o").unwrap();
    assert!(equals(&gpt.prompt_per_token, 0.0000025));
    assert!(equals(&gpt.completion_per_token, 0.00001));
    assert!(equals(gpt.input_cache_read_per_token.as_ref().unwrap(), 0.00000125));

    let free = table.get("free/model").unwrap();
    assert!(equals(&free.prompt_per_token, 0.0));
    assert!(equals(&free.completion_per_token, 0.0));
    assert!(free.input_cache_read_per_token.is_none());
}

#[test]
fn parses_empty_data_array() {
    let body = r#"{"data": []}"#;
    assert!(wire_entries(body).is_empty());
}

#[test]
fn skips_empty_id_entries() {
    let body = r#"{"data": [{"id": "", "pricing": {"prompt": "0", "completion": "0"}}]}"#;
    assert!(build_table(&wire_entries(body)).is_empty());
}

#[test]
fn later_entries_replace_earlier_ones() {
    let body = r#"{"data": [
        {"id": "m", "pricing": {"prompt": "1", "completion": "1"}},
        {"id": "m", "pricing": {"prompt": "2", "completion": "3"}}
    ]}"#;
    let table = build_table(&wire_entries(body));
    assert!(equals(&table.get("m").unwrap().prompt_per_token, 2.0));
    assert!(equals(&table.get("m").unwrap().completion_per_token, 3.0));
    assert!(table.get("other").is_none());
}

#[test]
fn price_replies_become_tables_or_errors() {
    let url = "https://p/models";
    let err = |r: PriceReply| match read_price_reply(url, &r) {
        Ok(_) => panic!("expected an error"),
        Err(e) => e.message(),
    };
    assert_eq!(err(PriceReply::Unreachable), "GET https://p/models");
    assert_eq!(
        err(PriceReply::Refused { status: "503 Service Unavailable".to_string() }),
        "pricing endpoint returned HTTP 503 Service Unavailable"
    );
    assert_eq!(err(PriceReply::Malformed), "decoding pricing JSON from https://p/models");
    let listed = PriceReply::Listed { entries: wire_entries(r#"{"data": []}"#) };
    assert!(read_price_reply(url, &listed).ok().unwrap().is_empty());
}

#[test]
fn costs_follow_double_arithmetic() {
    let prices = [0.0, 1.25e-6, 5e-6, 2e-7, 0.00033, 7.5];
    let rates = [1.0, 37.5, 1000.0, 12_345.675, 1_000_000.0, 3.3e9];
    let shares = [-0.5, 0.0, 0.1, 0.3, 0.5, 1.0, 2.0];
    for (i, prompt) in prices.iter().enumerate() {
        let completion = prices[(i + 2) % prices.len()];
        let table = table_with("m", *prompt, completion);
        for rate in rates {
            for share in shares {
                let ps: f64 = if share < 0.0 { 0.0 } else if share > 1.0 { 1.0 } else { share };
                let usd = rate * ps * prompt + rate * (1.0 - ps) * completion;
                let expected = if usd < 0.001 {
                    None
                } else {
                    let text = format!("{usd:.4}");
                    Some(format!("${}/h", text.trim_end_matches('0').trim_end_matches('.')))
                };
                let got = cost_per_hour(&table, Some("m"), ratio(rate).as_ref(), ratio(share).as_ref());
                assert_eq!(got, expected, "{prompt} {completion} {rate} {share}");
            }
        }
    }
}

#[test]
fn large_costs_keep_all_their_digits() {
    let table = table_with("m", 1e30, 0.0);
    assert_eq!(
        cost_per_hour(&table, Some("m"), ratio(1.0).as_ref(), ratio(1.0).as_ref()),
        Some("$1000000000000000019884624838656/h".to_string())
    );
    let huge = table_with("m", 1e300, 0.0);
    assert!(cost_per_hour(&huge, Some("m"), ratio(1e10).as_ref(), ratio(1.0).as_ref()).is_none());
}

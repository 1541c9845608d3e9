use serde_json::Value;
use skim::{DnsAnswer, DnsData, DnsLine};

fn text(v: &Value, key: &str) -> Option<String> {
    v.get(key)?.as_str().map(|s| s.to_string())
}

fn optional<'a>(v: &'a Value, key: &str) -> Option<&'a Value> {
    match v.get(key) {
        None | Some(Value::Null) => None,
        Some(x) => Some(x),
    }
}

/// Reads the JSON of one massdns line into the library's `DnsLine`, with
/// the shape the app's serde types give it: `None` when a required field
/// is missing or has the wrong type.
fn dns_line(json: &str) -> Option<DnsLine> {
    let v: Value = serde_json::from_str(json).ok()?;
    let status = text(&v, "status")?;
    let data = match optional(&v, "data") {
        None => None,
        Some(d) => {
            let answers = match optional(d, "answers") {
                None => None,
                Some(list) => {
                    let mut out = Vec::new();
                    for a in list.as_array()? {
                        out.push(DnsAnswer {
                            type_: text(a, "type")?,
                            name: text(a, "name")?,
                            data: text(a, "data")?,
                        });
                    }
                    Some(out)
                }
            };
            Some(DnsData { answers })
        }
    };
    Some(DnsLine { status, data })
}

fn a_record(line: &str) -> Option<(String, String)> {
    dns_line(line)?.first_a_record()
}

#[test]
fn json_line_gives_first_a_record() {
    let line = r#"{"name":"example.com.","type":"A","class":"IN","status":"NOERROR","data":{"answers":[{"ttl":300,"type":"A","class":"IN","name":"example.com.","data":"1.2.3.4"}]}}"#;
    assert_eq!(a_record(line), Some(("example.com".to_string(), "1.2.3.4".to_string())));
}

#[test]
fn json_line_nxdomain_has_no_record() {
    let line = r#"{"name":"nope.example.","type":"A","status":"NXDOMAIN","data":{}}"#;
    assert_eq!(a_record(line), None);
}

#[test]
fn json_line_without_answers_has_no_record() {
    let line = r#"{"name":"x.com.","type":"A","status":"NOERROR","data":{"authorities":[{"type":"SOA"}]}}"#;
    assert_eq!(a_record(line), None);
}

#[test]
fn address_text_is_handed_on_unchecked() {
    // Whether the text is an IP address is decided where it is parsed.
    let line = r#"{"name":"x.com.","type":"A","status":"NOERROR","data":{"answers":[{"type":"A","name":"x.com.","data":"not-an-ip"}]}}"#;
    assert_eq!(a_record(line), Some(("x.com".to_string(), "not-an-ip".to_string())));
}

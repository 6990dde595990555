use rvp::document::{match_text, CssPath, Document};
use rvp::extract::{
    extract_fetched, first_invalid_selector, grab, grab_one, type_value, ExtractionError, FieldValue,
    ResourceError,
};
use rvp::numeric::{normalize, numeral_from_lowercase, Numeral};
use rvp::structure::{Selector, SelectorType};
use rvp::text::join_text_nodes;

fn to_number(s: &str) -> f64 {
    match normalize(s) {
        Some(n) => numeral_value(&n),
        None => f64::NAN,
    }
}

fn numeral_value(n: &Numeral) -> f64 {
    n.digits.parse::<f64>().unwrap() * 10f64.powi(n.magnitude as i32)
}

#[test]
fn test_parse_value() {
    let document = Document::parse("<html><body><h1>Example</h1></body></html>".to_string());
    let selector = CssPath::parse("h1").unwrap();
    let value = match_text(&document, &selector);
    assert_eq!(value, "Example");
}

#[test]
fn test_parse_value_with_invalid_selector() {
    let document = Document::parse("<html><body><h1>Example</h1></body></html>".to_string());
    let selector = CssPath::parse("h2").unwrap();
    let value = match_text(&document, &selector);
    assert_eq!(value, "");
}

#[test]
fn test_any_string_to_number() {
    let value = to_number("1.234,56");
    assert_eq!(value, 1234.56);

    let value = to_number("100_000,5");
    assert_eq!(value, 100_000.5);

    let value = to_number("100 000 $");
    assert_eq!(value, 100_000.0);

    let value = to_number("1.5k$");
    assert_eq!(value, 1500.0);

    let value = to_number("1.5m ¢");
    assert_eq!(value, 1_500_000.0);

    let value = to_number("1.5b CAD$");
    assert_eq!(value, 1_500_000_000.0);

    let value = to_number("Not a Number");
    assert!(value.is_nan());
}

#[test]
fn normalizer_required_behaviours() {
    assert_eq!(to_number("100 000,5"), 100000.5);
    let n = normalize("1.234,56").unwrap();
    assert_eq!(n.digits, "1234.56");
    assert_eq!(n.magnitude, 0);
    let k = normalize("1.5k$").unwrap();
    assert_eq!((k.digits.as_str(), k.magnitude), ("1.5", 3));
    let m = normalize("1.5m ¢").unwrap();
    assert_eq!((m.digits.as_str(), m.magnitude), ("1.5", 6));
    let b = normalize("1.5b CAD$").unwrap();
    assert_eq!((b.digits.as_str(), b.magnitude), ("1.5", 9));
    assert!(normalize("Not a Number").is_none());
}

#[test]
fn normalizer_lowercases_before_reading_the_suffix() {
    let n = normalize("2.5K").unwrap();
    assert_eq!((n.digits.as_str(), n.magnitude), ("2.5", 3));
    assert_eq!(to_number("2.5K"), 2500.0);
    // without the lowercasing step the capital letter would be dropped
    let raw = numeral_from_lowercase("2.5K").unwrap();
    assert_eq!(raw.magnitude, 0);
}

#[test]
fn normalizer_edge_cases() {
    // without a comma the dot is always decimal
    assert_eq!(to_number("1.234"), 1.234);
    // two dots and no comma read as no number
    assert!(normalize("1.2.3").is_none());
    // only a comma
    assert_eq!(to_number("3,5"), 3.5);
    // several commas leave several dots
    assert!(normalize("1,2,3").is_none());
    assert!(normalize("").is_none());
    assert!(normalize(".").is_none());
    assert_eq!(to_number("5."), 5.0);
    assert_eq!(to_number(".5"), 0.5);
    // a magnitude letter counts only at the end
    assert_eq!(to_number("k12"), 12.0);
    // other letters go before the suffix is read
    assert_eq!(to_number("12 kg"), 12000.0);
}

fn selector(path: &str, name: &str, ty: SelectorType) -> Selector {
    Selector::new(path.to_string(), name.to_string(), ty)
}

const PAGE: &str = "<html><body><div><h1>  Example   Domain </h1><p>Price: <b>1.234,50</b> EUR</p>\
                    <span class=\"n\">n/a</span><h1>Second</h1></div></body></html>";

#[test]
fn grab_keeps_selector_order_and_names() {
    let document = Document::parse(PAGE.to_string());
    let selectors = vec![
        selector("p > b", "price", SelectorType::Number),
        selector("h1", "title", SelectorType::String),
        selector("h1", "title", SelectorType::String),
        selector("h3", "missing", SelectorType::String),
    ];
    let values = grab(&document, &selectors).unwrap();
    assert_eq!(values.len(), 4);
    let names: Vec<&str> = values.iter().map(|v| v.name.as_str()).collect();
    assert_eq!(names, vec!["price", "title", "title", "missing"]);
    match &values[0].value {
        FieldValue::Number(n) => assert_eq!((n.digits.as_str(), n.magnitude), ("1234.50", 0)),
        _ => panic!("price should be a number"),
    }
    match &values[1].value {
        FieldValue::Text(t) => assert_eq!(t, "Example   Domain"),
        _ => panic!("title should be text"),
    }
    match &values[3].value {
        FieldValue::Text(t) => assert_eq!(t, ""),
        _ => panic!("missing should be text"),
    }
}

#[test]
fn text_nodes_are_trimmed_and_joined() {
    let document = Document::parse(PAGE.to_string());
    let css = CssPath::parse("p").unwrap();
    assert_eq!(match_text(&document, &css), "Price: 1.234,50 EUR");
    let nodes = vec!["  a ".to_string(), "\n".to_string(), "b\t".to_string(), "".to_string()];
    // every node is kept, each trimmed, with one space between nodes
    assert_eq!(join_text_nodes(&nodes), "a  b ");
    let three = vec!["a".to_string(), " ".to_string(), "b".to_string()];
    assert_eq!(join_text_nodes(&three), "a  b");
    assert_eq!(join_text_nodes(&vec![]), "");
}

#[test]
fn whitespace_only_nodes_are_kept() {
    let document = Document::parse("<p>a<b> </b>b</p>".to_string());
    let css = CssPath::parse("p").unwrap();
    assert_eq!(match_text(&document, &css), "a  b");
}

#[test]
fn match_of_nothing_is_empty() {
    let document = Document::parse("<p>x</p>".to_string());
    for path in ["h1", "div > p", ".none", "#id"] {
        let css = CssPath::parse(path).unwrap();
        assert_eq!(match_text(&document, &css), "");
    }
}

#[test]
fn malformed_html_still_parses() {
    let document = Document::parse("<div><h1>Broken<p>text".to_string());
    assert_eq!(grab_one(&document, "h1"), Some("Broken text".to_string()));
}

#[test]
fn invalid_selectors_are_refused() {
    assert!(CssPath::parse("h1[").is_none());
    assert!(CssPath::parse("").is_none());
    let document = Document::parse(PAGE.to_string());
    assert_eq!(grab_one(&document, "h1["), None);
    let selectors = vec![
        selector("h1", "a", SelectorType::String),
        selector("p >", "b", SelectorType::String),
        selector("::", "c", SelectorType::String),
    ];
    assert_eq!(first_invalid_selector(&selectors), Some(1));
    assert_eq!(first_invalid_selector(&selectors[..1].to_vec()), None);
    match grab(&document, &selectors) {
        Err(ExtractionError::InvalidSelector { name, path }) => {
            assert_eq!(name, "b");
            assert_eq!(path, "p >");
        }
        _ => panic!("an invalid selector should fail the extraction"),
    }
}

#[test]
fn number_field_without_number_fails_the_resource() {
    let document = Document::parse(PAGE.to_string());
    let selectors = vec![
        selector("h1", "title", SelectorType::String),
        selector("span.n", "count", SelectorType::Number),
    ];
    match grab(&document, &selectors) {
        Err(ExtractionError::NotANumber { name, raw }) => {
            assert_eq!(name, "count");
            assert_eq!(raw, "n/a");
        }
        _ => panic!("text without a number should fail a number field"),
    }
}

#[test]
fn typing_follows_the_declared_type() {
    match type_value("f", "1,5k".to_string(), SelectorType::Number) {
        Ok(FieldValue::Number(n)) => assert_eq!(numeral_value(&n), 1500.0),
        _ => panic!("should be a number"),
    }
    match type_value("f", "1,5k".to_string(), SelectorType::String) {
        Ok(FieldValue::Text(t)) => assert_eq!(t, "1,5k"),
        _ => panic!("should be text"),
    }
    assert!(matches!(
        type_value("f", "".to_string(), SelectorType::Number),
        Err(ExtractionError::NotANumber { .. })
    ));
}

#[test]
fn fetched_outcomes_are_extracted_or_reported() {
    let selectors = vec![selector("h1", "title", SelectorType::String)];
    match extract_fetched(&selectors, Err("connection refused".to_string())) {
        Err(ResourceError::Fetch(m)) => assert_eq!(m, "connection refused"),
        _ => panic!("a failed fetch should fail the resource"),
    }
    let ok = extract_fetched(&selectors, Ok("<h1>Hi</h1>".to_string())).unwrap();
    assert_eq!(ok.len(), 1);
    assert_eq!(ok[0].name, "title");
    let bad = vec![selector("h1", "n", SelectorType::Number)];
    assert!(matches!(
        extract_fetched(&bad, Ok("<h1>Hi</h1>".to_string())),
        Err(ResourceError::Extraction(ExtractionError::NotANumber { .. }))
    ));
}

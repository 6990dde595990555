use rvp::structure::{Config, ConfigFormat, Position, Resource, Selector, SelectorType, URL_PARAM_PLACEHOLDER};

#[test]
fn test_selector() {
    let s0 = Selector::new("test".to_string(), "test".to_string(), SelectorType::String);
    let s1 = Selector::new(
        "test2".to_string(),
        "test2".to_string(),
        SelectorType::Number,
    );

    let selectors = vec![s0.clone(), s1.clone()];

    assert_eq!(selectors[0].name, "test");
    assert_eq!(selectors[1].path, "test2");

    // Test position
    assert_eq!(selectors.position(&s1), 1);

    // Test the Index trait
    assert_eq!(selectors[&s0].name, selectors[0].name);
    assert_eq!(selectors[&s1].path, selectors[1].path);

    // Mutable access goes through the position
    let mut selectors = vec![s0.clone(), s1.clone()];
    let i0 = selectors.position(&s0);
    selectors[i0].name = "test".to_string();
    let i1 = selectors.position(&s1);
    selectors[i1].path = "test2".to_string();
}

#[test]
fn test_resource() {
    let s0 = Selector::new("test".to_string(), "test".to_string(), SelectorType::String);
    let s1 = Selector::new(
        "test2".to_string(),
        "test2".to_string(),
        SelectorType::Number,
    );

    let selectors = vec![s0, s1];

    let r0 = Resource::new("https://test.com/?id=%%".to_string(), selectors.clone());
    let r1 = Resource::new("https://test2.com".to_string(), selectors);

    let resources = vec![r0.clone(), r1.clone()];

    assert_eq!(resources[0].url, "https://test.com/?id=%%");
    assert_eq!(resources[1].selectors[0].name, "test");

    // Test position
    assert_eq!(resources.position(&r1), 1);

    // Test the Index trait
    assert_eq!(resources[&r0].url, resources[0].url);
    assert_eq!(
        resources[&r1].selectors[0].name,
        resources[1].selectors[0].name
    );

    // Mutable access goes through the position
    let mut resources = vec![r0.clone(), r1.clone()];
    let i0 = resources.position(&r0);
    resources[i0].url = "https://test.com/?id=%%".to_string();
    let i1 = resources.position(&r1);
    resources[i1].selectors[0].name = "test".to_string();

    // Test mut_url_with_param
    let mut r2 = r0.clone();
    r2.mut_url_with_param("test");
    assert_eq!(r2.url, "https://test.com/?id=test");

    // Test needs_parameter
    assert!(r0.needs_parameter());
    assert!(!r1.needs_parameter());
}

#[test]
fn test_config() {
    let s0 = Selector::new("test".to_string(), "test".to_string(), SelectorType::String);
    let s1 = Selector::new(
        "test2".to_string(),
        "test2".to_string(),
        SelectorType::Number,
    );

    let selectors = vec![s0, s1];

    let r0 = Resource::new("https://test.com/?id=%%".to_string(), selectors.clone());
    let r1 = Resource::new("https://test2.com".to_string(), selectors);

    let resources = vec![r0, r1];

    let config = Config::new("test".to_string(), "".to_string(), resources);

    assert_eq!(config.name, "test");
    assert_eq!(config.resources[0].url, "https://test.com/?id=%%");

    // Test needs_parameters
    assert!(config.needs_parameters());
}

fn sample_selector(path: &str, name: &str) -> Selector {
    Selector::new(path.to_string(), name.to_string(), SelectorType::String)
}

#[test]
fn config_without_placeholder_needs_no_parameters() {
    let r = Resource::new("https://a.test/".to_string(), vec![sample_selector("h1", "t")]);
    let config = Config::new("c".to_string(), "d".to_string(), vec![r]);
    assert!(!config.needs_parameters());
    let empty = Config::new("c".to_string(), "d".to_string(), vec![]);
    assert!(!empty.needs_parameters());
}

#[test]
fn placeholder_replaced_everywhere_and_literally() {
    let mut r = Resource::new("http://x.test/%%/?id=%%&q=%".to_string(), vec![]);
    r.mut_url_with_param("a.*");
    assert_eq!(r.url, "http://x.test/a.*/?id=a.*&q=%");
    let mut odd = Resource::new("http://x.test/?id=%%%".to_string(), vec![]);
    odd.mut_url_with_param("7");
    assert_eq!(odd.url, "http://x.test/?id=7%");
    assert_eq!(URL_PARAM_PLACEHOLDER, "%%");
}

#[test]
fn url_without_placeholder_is_unchanged() {
    let mut r = Resource::new("https://test2.com".to_string(), vec![]);
    r.mut_url_with_param("x");
    assert_eq!(r.url, "https://test2.com");
}

#[test]
fn position_finds_the_first_equal_element() {
    let a = sample_selector("h1", "title");
    let b = sample_selector("h2", "sub");
    let v = vec![a.clone(), b.clone(), a.clone()];
    assert_eq!(v.position(&a), 0);
    assert_eq!(v.position(&b), 1);
    assert!(a.same_as(&v[2]));
    assert!(!a.same_as(&b));
}

#[test]
fn selector_types_and_names() {
    let all = SelectorType::to_vec();
    assert_eq!(all, vec![SelectorType::String, SelectorType::Number]);
    assert_eq!(SelectorType::String.as_str(), "String");
    assert_eq!(SelectorType::Number.as_str(), "Number");
    assert_eq!(sample_selector("h1", "title").label(), "title");
}

#[test]
fn resource_summary_counts_selectors() {
    let r = Resource::new(
        "https://a.test".to_string(),
        vec![sample_selector("h1", "a"), sample_selector("h2", "b")],
    );
    assert_eq!(r.summary(), "\"https://a.test\" with 2 selectors");
    let many: Vec<Selector> = (0..120).map(|i| sample_selector("p", &format!("n{}", i))).collect();
    let big = Resource::new("u".to_string(), many);
    assert_eq!(big.summary(), "\"u\" with 120 selectors");
    let none = Resource::new("u".to_string(), vec![]);
    assert_eq!(none.summary(), "\"u\" with 0 selectors");
}

#[test]
fn config_file_names_follow_format() {
    let config = Config::new("prices".to_string(), "daily".to_string(), vec![]);
    assert_eq!(config.file_name(ConfigFormat::Toml), "prices.toml");
    assert_eq!(config.file_name(ConfigFormat::Json), "prices.json");
    assert_eq!(config.description(), "daily");
}

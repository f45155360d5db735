//! The extraction engine over whole documents.

use rust_parser::content::{extract_links, extract_path};
use rust_parser::extract::{
    build_index, extract_all, extract_value, js_var_lookup, value_to_string, ExtractSpec,
    ExtractionRequest,
};
use rust_parser::json::JsonValue;
use rust_parser::pathlang::{navigate, SegStyle};

fn chars(s: &str) -> Vec<char> {
    s.chars().collect()
}

fn spec(source: &str, path: &[&str], selector: Option<&str>, accessor: Option<&str>) -> ExtractSpec {
    ExtractSpec {
        source: source.to_string(),
        path: path.iter().map(|s| s.to_string()).collect(),
        selector: selector.map(|s| s.to_string()),
        accessor: accessor.map(|s| s.to_string()),
        return_text: true,
        alias: "out".to_string(),
        alternatives: Vec::new(),
        is_json_cast: false,
        expand_array: false,
        array_field: None,
        json_path: None,
    }
}

fn value_of(r: &rust_parser::extract::ExtractionResult, key: &str) -> Option<Option<String>> {
    r.values.iter().find(|(k, _)| k == key).map(|(_, v)| v.clone())
}

#[test]
fn test_jsonld_extraction() {
    let html = r#"
    <html>
    <head>
        <script type="application/ld+json">
        {
            "@context": "https://schema.org",
            "@type": "Product",
            "name": "Test Product",
            "offers": {
                "@type": "Offer",
                "price": "19.99"
            }
        }
        </script>
    </head>
    </html>
    "#;

    let jsonld = rust_parser::jsonld::extract_jsonld_objects(html);
    let products = jsonld.get(&chars("Product")).expect("Product indexed");
    assert!(products.len() >= 1);
    let product = &products[0];
    let name = product.get_key(&chars("name")).unwrap();
    assert!(matches!(name, JsonValue::Str(s) if s == "Test Product"));
    let offers = product.get_key(&chars("offers")).unwrap();
    let price = offers.get_key(&chars("price")).unwrap();
    assert!(matches!(price, JsonValue::Str(s) if s == "19.99"));
}

#[test]
fn test_css_extraction() {
    let html = r#"
    <html>
    <body>
        <div class="price">$19.99</div>
        <a class="link" href="/product/123">View</a>
    </body>
    </html>
    "#;

    let doc = build_index(html);
    let price = extract_value(&doc, &spec("css", &[], Some("div.price"), Some("text")));
    assert_eq!(price, Some("$19.99".to_string()));

    let href = extract_value(&doc, &spec("css", &[], Some("a.link"), Some("attr:href")));
    assert_eq!(href, Some("/product/123".to_string()));
}

#[test]
fn test_full_extraction() {
    let html = r#"
    <html>
    <head>
        <title>Test Product</title>
        <script type="application/ld+json">
        {
            "@context": "https://schema.org",
            "@type": "Product",
            "name": "Test Product",
            "offers": {
                "@type": "Offer",
                "price": "19.99"
            }
        }
        </script>
    </head>
    <body>
        <h1 class="product-name">Test Product</h1>
    </body>
    </html>
    "#;

    let mut s1 = spec("jsonld", &["Product", "name"], None, None);
    s1.alias = "name".to_string();
    let mut s2 = spec("jsonld", &["Product", "offers", "price"], None, None);
    s2.alias = "price".to_string();
    let mut s3 = spec("css", &[], Some("title"), Some("text"));
    s3.alias = "page_title".to_string();

    let result = extract_all(html, &ExtractionRequest { specs: vec![s1, s2, s3] });

    assert_eq!(value_of(&result, "name"), Some(Some("Test Product".to_string())));
    assert_eq!(value_of(&result, "price"), Some(Some("19.99".to_string())));
    assert_eq!(value_of(&result, "page_title"), Some(Some("Test Product".to_string())));
}

#[test]
fn test_parent_accessor() {
    let html = r#"
    <html>
    <body>
        <div class="product-card" data-id="123">
            <span class="price">$29.99</span>
        </div>
        <a href="/category/tools" class="category-link">
            <span class="category-name">Tools</span>
        </a>
    </body>
    </html>
    "#;

    let doc = build_index(html);

    let parent_attr = extract_value(
        &doc,
        &spec("css", &[], Some("span.price"), Some("parent.attr:data-id")),
    );
    assert_eq!(parent_attr, Some("123".to_string()));

    let parent_href = extract_value(
        &doc,
        &spec("css", &[], Some("span.category-name"), Some("parent.attr:href")),
    );
    assert_eq!(parent_href, Some("/category/tools".to_string()));

    let parent_text = extract_value(&doc, &spec("css", &[], Some("span.price"), Some("parent.text")));
    assert_eq!(parent_text, Some("$29.99".to_string()));
}

#[test]
fn test_children_accessor() {
    let html = r#"
    <html>
    <body>
        <ul class="menu">
            <li class="item"><a href="/home">Home</a></li>
            <li class="item"><a href="/about">About</a></li>
            <li class="item"><a href="/contact">Contact</a></li>
        </ul>
        <div class="container">
            <span class="first">First</span>
            <span class="second">Second</span>
        </div>
    </body>
    </html>
    "#;

    let doc = build_index(html);

    let first_item = extract_value(&doc, &spec("css", &[], Some("ul.menu"), Some("children.0.text")));
    assert_eq!(first_item, Some("Home".to_string()));

    let second_item = extract_value(&doc, &spec("css", &[], Some("ul.menu"), Some("children.1.text")));
    assert_eq!(second_item, Some("About".to_string()));

    let first_html = extract_value(
        &doc,
        &spec("css", &[], Some("div.container"), Some("children.0.html")),
    );
    assert!(first_html.unwrap().contains("First"));

    let first_li = extract_value(
        &doc,
        &spec("css", &[], Some("ul.menu li:first-child a"), Some("attr:href")),
    );
    assert_eq!(first_li, Some("/home".to_string()));
}

#[test]
fn test_attribute_selectors() {
    let html = r#"
    <html>
    <body>
        <ul>
            <li data-id="1">Item 1</li>
            <li data-id="2">Item 2</li>
            <li data-id="3">Item 3</li>
        </ul>
        <a href="/test" class="link primary">Link</a>
    </body>
    </html>
    "#;

    let doc = build_index(html);

    let attr_exists = extract_value(&doc, &spec("css", &[], Some("li[data-id]"), Some("text")));
    assert_eq!(attr_exists, Some("Item 1".to_string()));

    let attr_eq = extract_value(&doc, &spec("css", &[], Some(r#"li[data-id="2"]"#), Some("text")));
    assert_eq!(attr_eq, Some("Item 2".to_string()));

    let multi_class = extract_value(&doc, &spec("css", &[], Some("a.link.primary"), Some("text")));
    assert_eq!(multi_class, Some("Link".to_string()));

    let complex = extract_value(&doc, &spec("css", &[], Some(r#"ul li[data-id="3"]"#), Some("text")));
    assert_eq!(complex, Some("Item 3".to_string()));
}

#[test]
fn test_js_extraction_json_parse() {
    let html = r#"
    <html>
    <head>
        <script>
        var jobs = JSON.parse('[{"id":"123","title":"Developer"}]');
        var page_id = '900000000022233';
        var meta = {"org_info":{"company_name":"Test Corp","id":"12345"},"page_id":"abc"};
        </script>
    </head>
    </html>
    "#;

    let js_vars = rust_parser::jsvars::extract_js_variables(html);

    let jobs = js_var_lookup(&js_vars, &chars("jobs")).expect("jobs bound");
    assert!(matches!(jobs, JsonValue::Arr(_)));
    let first = jobs.get_index(0).unwrap();
    let id = first.get_key(&chars("id")).unwrap();
    assert!(matches!(id, JsonValue::Str(s) if s == "123"));
    let title = first.get_key(&chars("title")).unwrap();
    assert!(matches!(title, JsonValue::Str(s) if s == "Developer"));

    let page_id = js_var_lookup(&js_vars, &chars("page_id")).expect("page_id bound");
    assert!(matches!(page_id, JsonValue::Str(s) if s == "900000000022233"));

    let meta = js_var_lookup(&js_vars, &chars("meta")).expect("meta bound");
    let org = meta.get_key(&chars("org_info")).unwrap();
    let company = org.get_key(&chars("company_name")).unwrap();
    assert!(matches!(company, JsonValue::Str(s) if s == "Test Corp"));
    let pid = meta.get_key(&chars("page_id")).unwrap();
    assert!(matches!(pid, JsonValue::Str(s) if s == "abc"));
}

#[test]
fn test_js_extraction_escaped_strings() {
    let html = r#"
    <html>
    <head>
        <script>
        var data = JSON.parse('[{\x22name\x22:\x22Test\x22}]');
        </script>
    </head>
    </html>
    "#;

    let js_vars = rust_parser::jsvars::extract_js_variables(html);

    let data = js_var_lookup(&js_vars, &chars("data")).expect("data bound");
    let first = data.get_index(0).unwrap();
    let name = first.get_key(&chars("name")).unwrap();
    assert!(matches!(name, JsonValue::Str(s) if s == "Test"));
}

#[test]
fn test_extract_from_js() {
    let mut js_data: Vec<(String, JsonValue)> = Vec::new();
    js_data.push((
        "meta".to_string(),
        JsonValue::Obj(vec![(
            "org_info".to_string(),
            JsonValue::Obj(vec![(
                "company_name".to_string(),
                JsonValue::Str("Test Corp".to_string()),
            )]),
        )]),
    ));
    js_data.push((
        "jobs".to_string(),
        JsonValue::Arr(vec![
            JsonValue::Obj(vec![
                ("id".to_string(), JsonValue::Str("1".to_string())),
                ("title".to_string(), JsonValue::Str("Dev".to_string())),
            ]),
            JsonValue::Obj(vec![
                ("id".to_string(), JsonValue::Str("2".to_string())),
                ("title".to_string(), JsonValue::Str("Designer".to_string())),
            ]),
        ]),
    ));

    let meta = js_var_lookup(&js_data, &chars("meta")).unwrap();
    let path = vec![chars("org_info"), chars("company_name")];
    let hit = navigate(meta, &path, 0, &SegStyle::KeyFirst).unwrap();
    assert_eq!(value_to_string(hit, true), Some("Test Corp".to_string()));

    let jobs = js_var_lookup(&js_data, &chars("jobs")).unwrap();
    let path = vec![chars("0"), chars("title")];
    let hit = navigate(jobs, &path, 0, &SegStyle::KeyFirst).unwrap();
    assert_eq!(value_to_string(hit, true), Some("Dev".to_string()));

    let path = vec![chars("org_info")];
    let hit = navigate(meta, &path, 0, &SegStyle::KeyFirst).unwrap();
    let whole = value_to_string(hit, false).unwrap();
    assert!(whole.contains("company_name"));
}

#[test]
fn test_extract_links() {
    let html = r##"<!DOCTYPE html>
    <html>
    <body>
        <a href="/page1">Page 1</a>
        <a href="https://example.com/page2">Page 2</a>
        <a href="relative/path">Relative</a>
        <a href="javascript:void(0)">JS</a>
        <a href="mailto:test@test.com">Email</a>
        <a href="#anchor">Anchor</a>
    </body>
    </html>"##;

    let links = extract_links(html, "a[href]", "https://base.com/dir/");

    assert!(links.contains(&"https://base.com/page1".to_string()));
    assert!(links.contains(&"https://example.com/page2".to_string()));
    assert!(links.contains(&"https://base.com/dir/relative/path".to_string()));
    assert!(!links.iter().any(|l| l.contains("javascript:")));
    assert!(!links.iter().any(|l| l.contains("mailto:")));
    assert!(!links.iter().any(|l| l.contains("#anchor")));
}

#[test]
fn jsonld_product_offer_path() {
    let html = r#"
    <html><head><script type="application/ld+json">
    {"@type": "Product", "name": "Widget", "offers": {"@type": "Offer", "price": "19.99"}}
    </script></head></html>
    "#;
    let doc = build_index(html);
    let price = extract_value(&doc, &spec("jsonld", &["Product", "offers", "price"], None, None));
    assert_eq!(price, Some("19.99".to_string()));
}

#[test]
fn microdata_first_name_and_full_list() {
    let html = r#"
    <div itemscope itemtype="https://schema.org/Product">
        <span itemprop="name">First Name</span>
        <span itemprop="name">Second Name</span>
        <div itemprop="offers" itemscope itemtype="https://schema.org/Offer">
            <span itemprop="price">5.00</span>
        </div>
    </div>
    "#;
    let doc = build_index(html);
    let name = extract_value(&doc, &spec("microdata", &["Product", "name"], None, None));
    assert_eq!(name, Some("First Name".to_string()));

    let idx = rust_parser::microdata::extract_microdata(html);
    let items = idx.get(&chars("Product")).unwrap();
    let names = items[0].get_key(&chars("name")).unwrap();
    match names {
        JsonValue::Arr(list) => {
            assert_eq!(list.len(), 2);
            assert!(matches!(&list[0], JsonValue::Str(s) if s == "First Name"));
            assert!(matches!(&list[1], JsonValue::Str(s) if s == "Second Name"));
        }
        other => panic!("expected a list of names, got {:?}", other),
    }
}

#[test]
fn js_variable_array_expansion_path() {
    let html = r#"
    <html><head><script>
    var jobs = JSON.parse('[{"id":"123"}]');
    </script></head></html>
    "#;
    let value = extract_path(html, "script@$jobs[*].id").expect("path resolves");
    match value {
        JsonValue::Arr(items) => {
            assert_eq!(items.len(), 1);
            assert!(matches!(&items[0], JsonValue::Str(s) if s == "123"));
        }
        other => panic!("expected an array, got {:?}", other),
    }
}

#[test]
fn alternatives_only_fill_in_for_nothing() {
    let html = r#"
    <html><head><title>Fallback Title</title>
    <script type="application/ld+json">{"@type": "Product", "name": "Primary"}</script>
    </head></html>
    "#;
    let doc = build_index(html);

    let mut with_alt = spec("jsonld", &["Product", "name"], None, None);
    with_alt.alternatives = vec![spec("css", &[], Some("title"), Some("text"))];
    assert_eq!(extract_value(&doc, &with_alt), Some("Primary".to_string()));

    let mut missing = spec("jsonld", &["Product", "missing"], None, None);
    missing.alternatives = vec![spec("css", &[], Some("title"), Some("text"))];
    assert_eq!(extract_value(&doc, &missing), Some("Fallback Title".to_string()));
}

#[test]
fn json_cast_expansion_and_arrow_path() {
    let html = r#"
    <html><body>
    <input id="jobs" value='{"items":[{"id":"a"},{"id":"b"}]}'>
    </body></html>
    "#;
    let mut s = spec("css", &[], Some("input#jobs"), Some("attr:value"));
    s.is_json_cast = true;
    s.expand_array = true;
    s.array_field = Some("id".to_string());
    s.json_path = Some("->'items'".to_string());
    s.alias = "ids".to_string();
    let result = extract_all(html, &ExtractionRequest { specs: vec![s] });
    let expanded = result
        .expanded_values
        .iter()
        .find(|(k, _)| k == "ids")
        .map(|(_, v)| v.clone())
        .expect("expansion fired");
    assert_eq!(expanded, vec!["a".to_string(), "b".to_string()]);
    assert_eq!(value_of(&result, "ids"), Some(None));
}

#[test]
fn unknown_source_yields_nothing() {
    let html = "<html><body><p>x</p></body></html>";
    let doc = build_index(html);
    assert_eq!(extract_value(&doc, &spec("nonsense", &["a"], None, None)), None);
    assert_eq!(extract_value(&doc, &spec("jsonld", &[], None, None)), None);
}

#[test]
fn failed_json_cast_hands_the_raw_value_through() {
    let html = r#"<html><body><div id="raw">not json</div></body></html>"#;
    let mut s = spec("css", &[], Some("div#raw"), Some("text"));
    s.is_json_cast = true;
    s.alias = "v".to_string();
    let result = extract_all(html, &ExtractionRequest { specs: vec![s] });
    assert_eq!(value_of(&result, "v"), Some(Some("not json".to_string())));
}

#[test]
fn malformed_selector_spec_yields_nothing() {
    let html = "<html><body><p>x</p></body></html>";
    let doc = build_index(html);
    assert_eq!(extract_value(&doc, &spec("css", &[], Some("p[bad"), Some("text"))), None);
    assert_eq!(extract_links(html, "p[bad", "https://example.com/"), Vec::<String>::new());
}

#[test]
fn og_and_meta_sources_read_their_groups() {
    let html = r#"
    <html><head>
        <meta property="og:title" content="A Title">
        <meta name="description" content="A description">
        <meta name="unlisted" content="ignored">
    </head></html>
    "#;
    let doc = build_index(html);
    assert_eq!(
        extract_value(&doc, &spec("og", &["title"], None, None)),
        Some("A Title".to_string())
    );
    assert_eq!(
        extract_value(&doc, &spec("meta", &["description"], None, None)),
        Some("A description".to_string())
    );
    // Only allow-listed names reach the meta group.
    assert_eq!(extract_value(&doc, &spec("meta", &["unlisted"], None, None)), None);
}

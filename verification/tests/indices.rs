//! The per-format indices and the path languages.

use rust_parser::content::{
    extract_css, extract_css_attr, extract_css_first_attr, extract_css_first_text,
    extract_css_text, extract_element, extract_readability,
};
use rust_parser::json::JsonValue;
use rust_parser::jsonld::{extract_jsonld_objects, normalise_type};
use rust_parser::jsontext::json_text_string;
use rust_parser::jsvars::extract_js_variables;
use rust_parser::microdata::extract_microdata;
use rust_parser::opengraph::extract_opengraph;
use rust_parser::pathlang::{arrow_navigate, parse_path};

fn chars(s: &str) -> Vec<char> {
    s.chars().collect()
}

fn group_value<'a>(group: &'a [(String, JsonValue)], key: &str) -> Option<&'a JsonValue> {
    group.iter().find(|(k, _)| k == key).map(|(_, v)| v)
}

#[test]
fn test_extract_simple_jsonld() {
    let html = r#"
    <html>
    <head>
        <script type="application/ld+json">
        {
            "@context": "https://schema.org",
            "@type": "Product",
            "name": "Test Product",
            "price": "19.99"
        }
        </script>
    </head>
    </html>
    "#;

    let result = extract_jsonld_objects(html);
    let products = result.get(&chars("Product")).expect("Product present");
    let name = products[0].get_key(&chars("name")).unwrap();
    assert!(matches!(name, JsonValue::Str(s) if s == "Test Product"));
}

#[test]
fn test_extract_graph_jsonld() {
    let html = r#"
    <script type="application/ld+json">
    {
        "@context": "https://schema.org",
        "@graph": [
            {"@type": "Product", "name": "Product 1"},
            {"@type": "Organization", "name": "Org 1"}
        ]
    }
    </script>
    "#;

    let result = extract_jsonld_objects(html);
    assert!(result.get(&chars("Product")).is_some());
    assert!(result.get(&chars("Organization")).is_some());
}

#[test]
fn test_extract_simple_microdata() {
    let html = r#"
    <div itemscope itemtype="https://schema.org/Product">
        <span itemprop="name">Test Product</span>
        <meta itemprop="gtin13" content="1234567890123">
        <span itemprop="price">19.99</span>
    </div>
    "#;

    let result = extract_microdata(html);
    let products = result.get(&chars("Product")).expect("Product present");
    let name = products[0].get_key(&chars("name")).unwrap();
    assert!(matches!(name, JsonValue::Str(s) if s == "Test Product"));
    let gtin = products[0].get_key(&chars("gtin13")).unwrap();
    assert!(matches!(gtin, JsonValue::Str(s) if s == "1234567890123"));
}

#[test]
fn test_nested_microdata() {
    let html = r#"
    <div itemscope itemtype="https://schema.org/Product">
        <span itemprop="name">Product</span>
        <div itemprop="offers" itemscope itemtype="https://schema.org/Offer">
            <span itemprop="price">19.99</span>
        </div>
    </div>
    "#;

    let result = extract_microdata(html);
    let products = result.get(&chars("Product")).expect("Product present");
    let offers = products[0].get_key(&chars("offers")).expect("offers nested");
    let price = offers.get_key(&chars("price")).unwrap();
    assert!(matches!(price, JsonValue::Str(s) if s == "19.99"));
}

#[test]
fn test_extract_opengraph() {
    let html = r#"
    <html>
    <head>
        <meta property="og:title" content="Test Page">
        <meta property="og:description" content="A test description">
        <meta property="og:image" content="https://example.com/image.jpg">
        <meta property="og:image:width" content="1200">
        <meta name="twitter:card" content="summary_large_image">
        <meta name="description" content="Page description">
    </head>
    </html>
    "#;

    let groups = extract_opengraph(html);

    let title = group_value(&groups.og, "title").expect("og title");
    assert!(matches!(title, JsonValue::Str(s) if s == "Test Page"));

    let card = group_value(&groups.twitter, "card").expect("twitter card");
    assert!(matches!(card, JsonValue::Str(s) if s == "summary_large_image"));

    let description = group_value(&groups.meta, "description").expect("meta description");
    assert!(matches!(description, JsonValue::Str(s) if s == "Page description"));

    // og:image and og:image:width coalesce into a nested object keeping
    // the scalar under `_value`.
    let image = group_value(&groups.og, "image").expect("og image");
    let scalar = image.get_key(&chars("_value")).unwrap();
    assert!(matches!(scalar, JsonValue::Str(s) if s == "https://example.com/image.jpg"));
    let width = image.get_key(&chars("width")).unwrap();
    assert!(matches!(width, JsonValue::Str(s) if s == "1200"));
}

#[test]
fn repeated_og_keys_collapse_to_list() {
    let html = r#"
    <html><head>
        <meta property="og:image" content="A">
        <meta property="og:image" content="B">
    </head></html>
    "#;
    let groups = extract_opengraph(html);
    let image = group_value(&groups.og, "image").expect("og image");
    match image {
        JsonValue::Arr(items) => {
            assert_eq!(items.len(), 2);
            assert!(matches!(&items[0], JsonValue::Str(s) if s == "A"));
            assert!(matches!(&items[1], JsonValue::Str(s) if s == "B"));
        }
        other => panic!("expected a list, got {:?}", other),
    }
}

#[test]
fn test_css_extract() {
    let html = r#"
    <html>
    <body>
        <div class="price">$19.99</div>
        <div class="price">$29.99</div>
        <a href="/product/123" class="link">Product</a>
    </body>
    </html>
    "#;

    let prices = extract_css_text(html, ".price");
    assert_eq!(prices.len(), 2);
    assert_eq!(prices[0], "$19.99");

    let first_price = extract_css_first_text(html, ".price");
    assert_eq!(first_price.unwrap(), "$19.99");

    let href = extract_css_first_attr(html, ".link", "href");
    assert_eq!(href.unwrap(), "/product/123");
}

#[test]
fn test_complex_selectors() {
    let html = r#"
    <div class="product">
        <span class="name">Product A</span>
        <span class="unit-price">€1.50/kg</span>
    </div>
    "#;

    let unit_price = extract_css_first_text(html, "div.product .unit-price");
    assert_eq!(unit_price.unwrap(), "€1.50/kg");
}

#[test]
fn css_outer_markup_and_attr_lists() {
    let html = r#"<html><body><p id="a">one</p><p>two</p></body></html>"#;
    let outer = extract_css(html, "p");
    assert_eq!(outer.len(), 2);
    assert!(outer[0].contains("one"));
    let ids = extract_css_attr(html, "p", "id");
    assert_eq!(ids, vec!["a".to_string()]);
}

#[test]
fn type_normalisation_strips_schema_prefixes() {
    assert_eq!(normalise_type(&chars("http://schema.org/Product")), chars("Product"));
    assert_eq!(normalise_type(&chars("https://schema.org/Product")), chars("Product"));
    assert_eq!(normalise_type(&chars("Product")), chars("Product"));
    assert_eq!(normalise_type(&chars("https://example.org/Thing")), chars("https://example.org/Thing"));
}

#[test]
fn arrow_path_navigation() {
    let value = JsonValue::Obj(vec![(
        "items".to_string(),
        JsonValue::Arr(vec![
            JsonValue::Obj(vec![("id".to_string(), JsonValue::Str("x".to_string()))]),
            JsonValue::Obj(vec![("id".to_string(), JsonValue::Str("y".to_string()))]),
        ]),
    )]);

    let hit = arrow_navigate(&value, &chars("->'items'->[1]->>'id'")).expect("path lands");
    assert!(matches!(hit, JsonValue::Str(s) if s == "y"));

    assert!(arrow_navigate(&value, &chars("->'missing'")).is_none());

    // Text that does not continue with an arrow ends the walk.
    let whole = arrow_navigate(&value, &chars("")).expect("empty path is the value");
    assert_eq!(json_text_string(whole), json_text_string(&value));
}

#[test]
fn unified_path_parsing() {
    let parsed = parse_path(&chars("input#jobs@value[*].id")).expect("parses");
    assert_eq!(parsed.selector, chars("input#jobs"));
    assert_eq!(parsed.accessor, chars("value"));
    assert!(parsed.expand);
    assert_eq!(parsed.segs, vec![chars("id")]);

    let parsed = parse_path(&chars("a@b[0].c.d")).expect("parses");
    assert!(!parsed.expand);
    assert_eq!(parsed.segs, vec![chars("0"), chars("c"), chars("d")]);

    assert!(parse_path(&chars("no-at-sign")).is_none());
    assert!(parse_path(&chars("sel@")).is_none());
}

#[test]
fn element_extraction_modes() {
    let html = r#"<html><body><input id="jobs" value="[1,2]"><div id="d" class="c">text <b>here</b></div></body></html>"#;

    let attr_only = extract_element(html, "input#jobs @value").expect("attribute mode");
    assert!(matches!(&attr_only, JsonValue::Str(s) if s == "[1,2]"));

    let full = extract_element(html, "div#d").expect("struct mode");
    let text = full.get_key(&chars("text")).unwrap();
    assert!(matches!(text, JsonValue::Str(s) if s == "text here"));
    let attrs = full.get_key(&chars("attr")).unwrap();
    let class = attrs.get_key(&chars("class")).unwrap();
    assert!(matches!(class, JsonValue::Str(s) if s == "c"));

    assert!(extract_element(html, "nothing.matches").is_none());
}

#[test]
fn canonical_json_text() {
    let value = JsonValue::Obj(vec![
        ("a".to_string(), JsonValue::Int(-3)),
        ("b".to_string(), JsonValue::Arr(vec![JsonValue::Null, JsonValue::Bool(true)])),
        ("c".to_string(), JsonValue::Str("q\"\\\n".to_string())),
    ]);
    assert_eq!(
        json_text_string(&value),
        "{\"a\":-3,\"b\":[null,true],\"c\":\"q\\\"\\\\\\n\"}"
    );
}

#[test]
fn script_bindings_follow_statement_order() {
    let html = r#"
    <html><head><script>
    var x = 1;
    var x = {"k": [10, 20]};
    window.y = `template`;
    let skipped = somewhere();
    </script></head></html>
    "#;
    let vars = extract_js_variables(html);
    let x = vars.iter().find(|(k, _)| k == "x").map(|(_, v)| v).unwrap();
    let k = x.get_key(&chars("k")).unwrap();
    let second = k.get_index(1).unwrap();
    assert!(matches!(second, JsonValue::Int(20)));
    let y = vars.iter().find(|(k2, _)| k2 == "y").map(|(_, v)| v).unwrap();
    assert!(matches!(y, JsonValue::Str(s) if s == "template"));
    assert!(vars.iter().all(|(k2, _)| k2 != "skipped"));
}

#[test]
fn negative_and_large_numbers_reduce() {
    let html = r#"
    <html><head><script>
    var a = -5;
    var b = 900000000022233;
    var c = 1.5;
    </script></head></html>
    "#;
    let vars = extract_js_variables(html);
    let a = vars.iter().find(|(k, _)| k == "a").map(|(_, v)| v).unwrap();
    assert!(matches!(a, JsonValue::Int(-5)));
    let b = vars.iter().find(|(k, _)| k == "b").map(|(_, v)| v).unwrap();
    assert!(matches!(b, JsonValue::Int(900000000022233)));
    let c = vars.iter().find(|(k, _)| k == "c").map(|(_, v)| v).unwrap();
    assert!(matches!(c, JsonValue::Num(s) if s == "1.5"));
}

#[test]
fn readability_reports_consistent_lengths() {
    let html = r#"<html><head><title>Headline</title></head><body>
    <article><h1>Headline</h1>
    <p>The quick brown fox jumps over the lazy dog, again and again, in a
    paragraph long enough for the reader to keep.</p></article>
    </body></html>"#;
    let r = extract_readability(html, "https://example.com/story");
    assert_eq!(r.title, "Headline");
    assert!(r.text_content.contains("quick brown fox"));
    assert_eq!(r.length, r.text_content.len());
    assert!(r.excerpt.chars().count() <= 203);
}

#[test]
fn malformed_selector_matches_nothing() {
    let html = "<html><body><p>x</p></body></html>";
    assert!(extract_css_text(html, "p[unclosed").is_empty());
    assert!(extract_css_first_text(html, "p[unclosed").is_none());
    assert!(extract_element(html, "p[unclosed").is_none());
}

#[test]
fn test_extract_js_variables() {
    let html = r#"
    <html>
    <head>
        <script>
            var siteConfig = {
                price: 19.99,
                currency: "EUR"
            };
            window.productData = {
                name: "Test Product",
                sku: "ABC123"
            };
        </script>
    </head>
    </html>
    "#;

    let result = extract_js_variables(html);

    // Whatever the script yields, the result is a variable map whose
    // bindings all come from this script.
    assert!(result.iter().all(|(k, _)| k == "siteConfig" || k == "productData"));
}

#[test]
fn jsonld_type_url_scheme_is_immaterial() {
    let html_a = r#"<script type="application/ld+json">
    {"@type": "http://schema.org/Product", "name": "X"}
    </script>"#;
    let html_b = r#"<script type="application/ld+json">
    {"@type": "https://schema.org/Product", "name": "X"}
    </script>"#;
    let a = extract_jsonld_objects(html_a);
    let b = extract_jsonld_objects(html_b);
    // Either spelling files the object under the bare type name.
    assert!(a.get(&chars("Product")).is_some());
    assert!(b.get(&chars("Product")).is_some());
    let name_a = a.get(&chars("Product")).unwrap()[0].get_key(&chars("name")).unwrap();
    let name_b = b.get(&chars("Product")).unwrap()[0].get_key(&chars("name")).unwrap();
    assert!(matches!(name_a, JsonValue::Str(s) if s == "X"));
    assert!(matches!(name_b, JsonValue::Str(s) if s == "X"));
}

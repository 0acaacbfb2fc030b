use product_table::page::ExtractError;
use product_table::scrape::{LinkSchema, PageSchema};
use product_table::default_header;

const PRODUCT_PAGE: &str = "<html><body>\
<h1 class=\"product-title\"> Acme Monitor 27 </h1>\
<div class=\"price-current\">$199.99</div>\
<div id=\"product-details\"><table>\
<tr><th> Refresh  Rate \n</th><td>144\nHz</td></tr>\
<tr><th>Brand</th><td>Acme</td></tr>\
<tr><th>Panel</th><td>IPS</td></tr>\
<tr><td>row without a label cell</td></tr>\
</table></div>\
</body></html>";

#[test]
fn test_read_data() {
    let schema = PageSchema::new().expect("selector set must compile");
    let header = default_header();
    let allow = Some(header);
    let rec = schema
        .read_body(PRODUCT_PAGE, &allow)
        .expect("complete page must yield a record");
    assert_eq!(rec.get("Name").unwrap().as_str(), "Acme Monitor 27");
    assert_eq!(rec.get("Price").unwrap().as_str(), "$199.99");
    assert_eq!(rec.get("Refresh Rate").unwrap().as_str(), "144 Hz");
    assert_eq!(rec.get("Brand").unwrap().as_str(), "Acme");
    assert_eq!(rec.get("Panel").unwrap().as_str(), "IPS");
    assert_eq!(rec.len(), 5);
}

#[test]
fn read_body_without_title_fails() {
    let body = "<html><body><div class=\"price-current\">$1</div>\
<div id=\"product-details\"><table></table></div></body></html>";
    let schema = PageSchema::new().unwrap();
    assert!(matches!(
        schema.read_body(body, &None),
        Err(ExtractError::TitleNotFound)
    ));
}

#[test]
fn read_body_without_details_fails() {
    let body = "<html><body><h1 class=\"product-title\">X</h1>\
<div class=\"price-current\">$1</div></body></html>";
    let schema = PageSchema::new().unwrap();
    assert!(matches!(
        schema.read_body(body, &None),
        Err(ExtractError::DetailsNotFound)
    ));
}

#[test]
fn collect_hrefs_reads_anchor_destinations() {
    let body = "<html><body>\
<a class=\"item-title\" href=\"http://example/p1\">one</a>\
<a class=\"other\" href=\"http://example/ignored\">two</a>\
<a class=\"item-title\">no destination</a>\
<a class=\"item-title\" href=\"http://example/p2\">three</a>\
</body></html>";
    let schema = LinkSchema::new().expect("selector must compile");
    let links = schema.collect_hrefs_body(body);
    let links: Vec<&str> = links.iter().map(|l| l.as_str()).collect();
    assert_eq!(links, vec!["http://example/p1", "http://example/p2"]);
}

use product_table::collect::{collect_records, FetchOutcome};
use product_table::extract::extract;
use product_table::page::{DetailRow, ExtractError, Page};
use product_table::reconcile::reconcile;
use product_table::table::render_table;
use product_table::{default_header, prepare_url};

fn row(label: &str, value: &str) -> DetailRow {
    DetailRow { label: Some(String::from(label)), value: Some(String::from(value)) }
}

fn page(title: &str, price: &str, rows: Vec<DetailRow>) -> Page {
    Page { title: Some(String::from(title)), price: Some(String::from(price)), rows: Some(rows) }
}

#[test]
fn two_records_reconcile_and_render() {
    // One page carries a Brand attribute, the other does not; the union
    // schema backfills the gap with the sentinel.
    let p1 = page("Monitor A", "$199", vec![row("Brand", "Acme")]);
    let p2 = page("Monitor B", "$249", vec![]);
    let r1 = extract(&p1, &None).unwrap();
    let r2 = extract(&p2, &None).unwrap();
    let (columns, records) = reconcile(vec![r1, r2], "NaN");
    let names: Vec<&str> = columns.iter().map(|c| c.as_str()).collect();
    assert_eq!(names, vec!["Name", "Price", "Brand"]);
    let lines = render_table(&columns, &records, "NaN");
    assert_eq!(lines.len(), 3);
    assert_eq!(lines[0].as_str(), "Name\tPrice\tBrand");
    assert_eq!(lines[1].as_str(), "Monitor A\t$199\tAcme");
    assert_eq!(lines[2].as_str(), "Monitor B\t$249\tNaN");
}

#[test]
fn backfill_is_non_destructive() {
    let p1 = page("Monitor A", "$199", vec![row("Panel", "IPS")]);
    let p2 = page("Monitor B", "$249", vec![row("Brand", "Acme")]);
    let r1 = extract(&p1, &None).unwrap();
    let r2 = extract(&p2, &None).unwrap();
    let (columns, records) = reconcile(vec![r1, r2], "NaN");
    // Every record now has every column, and no present value changed.
    assert_eq!(records[0].len(), columns.len());
    assert_eq!(records[1].len(), columns.len());
    assert_eq!(records[0].get("Panel").unwrap().as_str(), "IPS");
    assert_eq!(records[0].get("Brand").unwrap().as_str(), "NaN");
    assert_eq!(records[1].get("Brand").unwrap().as_str(), "Acme");
    assert_eq!(records[1].get("Panel").unwrap().as_str(), "NaN");
}

#[test]
fn missing_required_fields_fail_extraction() {
    let no_title = Page {
        title: None,
        price: Some(String::from("$1")),
        rows: Some(vec![]),
    };
    assert!(matches!(extract(&no_title, &None), Err(ExtractError::TitleNotFound)));
    let no_price = Page { title: Some(String::from("X")), price: None, rows: Some(vec![]) };
    assert!(matches!(extract(&no_price, &None), Err(ExtractError::PriceNotFound)));
    let no_details = Page { title: Some(String::from("X")), price: Some(String::from("$1")), rows: None };
    assert!(matches!(extract(&no_details, &None), Err(ExtractError::DetailsNotFound)));
}

#[test]
fn missing_title_yields_one_fewer_record() {
    let with_title = page("Monitor A", "$199", vec![]);
    let without_title = Page { title: None, price: Some(String::from("$199")), rows: Some(vec![]) };
    let batch1 = vec![FetchOutcome {
        url: String::from("http://example/p1"),
        result: Ok(with_title),
    }];
    let batch2 = vec![FetchOutcome {
        url: String::from("http://example/p1"),
        result: Ok(without_title),
    }];
    let (recs1, errs1) = collect_records(&batch1, &None);
    let (recs2, errs2) = collect_records(&batch2, &None);
    assert_eq!(recs1.len(), recs2.len() + 1);
    assert_eq!(errs1.len(), 0);
    assert_eq!(errs2.len(), 1);
    assert_eq!(errs2[0].as_str(), "http://example/p1: title not found");
}

#[test]
fn rows_missing_a_cell_are_skipped() {
    let p = page(
        "Monitor C",
        "$99",
        vec![
            DetailRow { label: Some(String::from("Brand")), value: None },
            DetailRow { label: None, value: Some(String::from("orphan")) },
            row("Panel", "VA"),
        ],
    );
    let rec = extract(&p, &None).unwrap();
    assert_eq!(rec.len(), 3);
    assert!(rec.get("Brand").is_none());
    assert_eq!(rec.get("Panel").unwrap().as_str(), "VA");
}

#[test]
fn allow_list_filters_unknown_labels() {
    let p = page("Monitor D", "$149", vec![row("Brand", "Acme"), row("Bezel Color", "black")]);
    let allow = Some(default_header());
    let rec = extract(&p, &allow).unwrap();
    assert_eq!(rec.get("Brand").unwrap().as_str(), "Acme");
    assert!(rec.get("Bezel Color").is_none());
    // Without an allow-list every discovered label becomes an attribute.
    let p2 = page("Monitor D", "$149", vec![row("Bezel Color", "black")]);
    let rec2 = extract(&p2, &None).unwrap();
    assert_eq!(rec2.get("Bezel Color").unwrap().as_str(), "black");
}

#[test]
fn labels_and_values_are_normalized_and_last_write_wins() {
    let p = page(
        "  Monitor E ",
        " $299\n",
        vec![row(" Refresh  Rate \n", "144\nHz"), row("Refresh Rate", "165 Hz")],
    );
    let rec = extract(&p, &None).unwrap();
    // Fixed fields are trimmed; row labels and values are fully normalized.
    assert_eq!(rec.get("Name").unwrap().as_str(), "Monitor E");
    assert_eq!(rec.get("Price").unwrap().as_str(), "$299");
    assert_eq!(rec.get("Refresh Rate").unwrap().as_str(), "165 Hz");
    assert_eq!(rec.len(), 3);
}

#[test]
fn one_timeout_in_a_batch_of_three() {
    let p1 = page("Monitor A", "$199", vec![]);
    let p3 = page("Monitor C", "$299", vec![]);
    let batch = vec![
        FetchOutcome { url: String::from("http://example/p1"), result: Ok(p1) },
        FetchOutcome {
            url: String::from("http://example/p2"),
            result: Err(String::from("timed out")),
        },
        FetchOutcome { url: String::from("http://example/p3"), result: Ok(p3) },
    ];
    let (records, errors) = collect_records(&batch, &None);
    assert_eq!(records.len(), 2);
    assert_eq!(errors.len(), 1);
    assert!(errors[0].contains("http://example/p2"));
    assert_eq!(errors[0].as_str(), "http://example/p2: timed out");
    let (columns, records) = reconcile(records, "NaN");
    let lines = render_table(&columns, &records, "NaN");
    // Exactly the header and two data rows.
    assert_eq!(lines.len(), 3);
}

#[test]
fn prepare_url_appends_suffix() {
    assert_eq!(
        prepare_url("http://example/p1").as_str(),
        "http://example/p1?recaptcha=pass"
    );
}

#[test]
fn default_header_names() {
    let header = default_header();
    let names: Vec<&str> = header.iter().map(|c| c.as_str()).collect();
    assert_eq!(
        names,
        vec!["Name", "Price", "Brand", "Response Time", "Refresh Rate", "Resolution", "Panel"]
    );
}

use pickup_geo::geo;
use pickup_geo::output::{Format, UnsupportedExtension};
use pickup_geo::render;
use pickup_geo::scrape::{Pickup, Query};

#[test]
fn query_from_option_trims_text() {
    let q = Query::from(Some("123".to_string()), "  Adlerstraße \n").unwrap();
    assert_eq!(q.street, "Adlerstraße");
    assert_eq!(q.value, "123");
}

#[test]
fn query_from_option_without_value() {
    assert!(Query::from(None, "Adlerstraße").is_none());
}

#[test]
fn csv_line_joins_with_semicolon() {
    let p = Pickup { street: "Adlerstraße".to_string(), date: "03.01.2022".to_string() };
    assert_eq!(p.csv_line(), "Adlerstraße;03.01.2022\n");
}

#[test]
fn format_from_extension() {
    assert_eq!(Format::from_extension("json"), Ok(Format::Json));
    assert_eq!(Format::from_extension("csv"), Ok(Format::Csv));
    assert_eq!(Format::from_extension("CSV"), Err(UnsupportedExtension));
    assert_eq!(Format::from_extension("txt"), Err(UnsupportedExtension));
}

#[test]
fn render_record_parses_date() {
    let g = geo::Pickup {
        street: "Adlerstraße".to_string(),
        date: "01.02.2022".to_string(),
        segments: vec![vec![geo::Point { lat: 1, lon: 2 }]],
    };
    let r = render::Pickup::from(g).unwrap();
    assert_eq!(r.street, "Adlerstraße");
    assert_eq!(r.date, 1_643_673_600_000);
    assert_eq!(r.segments, vec![vec![geo::Point { lat: 1, lon: 2 }]]);
}

#[test]
fn render_record_rejects_bad_date() {
    let g = geo::Pickup { street: "X".to_string(), date: "2022-02-01".to_string(), segments: vec![] };
    assert_eq!(render::Pickup::from(g).err(), Some(render::InvalidDate));
}

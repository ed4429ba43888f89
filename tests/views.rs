use stock_view::error::DataError;
use stock_view::record::Record;
use stock_view::session::Session;
use stock_view::view::{Filter, ViewState};

const TWO_ROWS: &str = "A1,Filter,BrandX,Car,1200,PC1,2024-01-01,5\n\
B2,Pump,BrandY,Car,300,PC2,2024-02-01,50\n";

const FOUR_ROWS: &str = "C3,Belt,Gates,Truck,\"1,500\",PC3,2024-03-01,7\n\
A1,Filter,BrandX,Car,1200,PC1,2024-01-01,5\n\
D4,Hose,gates,Van,90,PC4,2023-12-31,\"2,000\"\n\
B2,Pump,BrandY,Car,300,PC2,2024-02-01,50\n";

fn no_filter() -> Filter {
    Filter::none()
}

fn view(column: &str, direction: &str, filters: Filter) -> ViewState {
    ViewState::from_names(column, direction, filters)
}

fn loaded(text: &str) -> Session {
    let mut s = Session::new();
    s.import(text.as_bytes()).unwrap();
    s
}

fn codes(rs: &[Record]) -> Vec<String> {
    rs.iter().map(|r| r.code.clone()).collect()
}

fn ids(rs: &[Record]) -> Vec<i64> {
    rs.iter().map(|r| r.id).collect()
}

#[test]
fn price_sort_both_directions_and_brand_filter() {
    let mut s = loaded(TWO_ROWS);
    let up = s.set_view(view("price", "asc", no_filter()));
    assert_eq!(codes(&up), vec!["B2", "A1"]);
    assert_eq!(ids(&up), vec![0, 1]);
    let down = s.set_view(view("price", "desc", no_filter()));
    assert_eq!(codes(&down), vec!["A1", "B2"]);
    assert_eq!(ids(&down), vec![0, 1]);
    // "BX" is not a contiguous run of "BRANDX": a substring filter finds nothing.
    let mut f = no_filter();
    f.brand = "bx".to_string();
    assert!(s.set_view(view("price", "asc", f)).is_empty());
    let mut f = no_filter();
    f.brand = "ndx".to_string();
    let only = s.set_view(view("price", "asc", f));
    assert_eq!(codes(&only), vec!["A1"]);
    assert_eq!(ids(&only), vec![0]);
    assert_eq!(only[0].brand, "BrandX");
}

#[test]
fn unknown_column_ascending_keeps_import_order() {
    let mut s = loaded(FOUR_ROWS);
    let r = s.set_view(view("colour", "asc", no_filter()));
    assert_eq!(codes(&r), vec!["C3", "A1", "D4", "B2"]);
    assert_eq!(ids(&r), vec![0, 1, 2, 3]);
}

#[test]
fn unknown_column_descending_reverses_import_order() {
    let mut s = loaded(FOUR_ROWS);
    let r = s.set_view(view("colour", "desc", no_filter()));
    assert_eq!(codes(&r), vec!["B2", "D4", "A1", "C3"]);
    assert_eq!(ids(&r), vec![0, 1, 2, 3]);
}

#[test]
fn any_direction_but_asc_is_descending() {
    let mut s = loaded(FOUR_ROWS);
    let r = s.set_view(view("code", "ASC", no_filter()));
    assert_eq!(codes(&r), vec!["D4", "C3", "B2", "A1"]);
    let e = s.set_view(view("code", "", no_filter()));
    assert_eq!(codes(&e), vec!["D4", "C3", "B2", "A1"]);
}

#[test]
fn default_view_shows_import_order() {
    let s = loaded(FOUR_ROWS);
    let r = s.current();
    assert_eq!(codes(&r), vec!["C3", "A1", "D4", "B2"]);
    assert_eq!(ids(&r), vec![0, 1, 2, 3]);
    assert_eq!(r, s.records());
}

#[test]
fn import_returns_the_current_view() {
    let mut s = Session::new();
    s.set_view(view("code", "asc", no_filter()));
    let r = s.import(FOUR_ROWS.as_bytes()).unwrap();
    assert_eq!(codes(&r), vec!["A1", "B2", "C3", "D4"]);
    assert_eq!(s.count(), 4);
}

#[test]
fn filters_are_case_insensitive_and_anded() {
    let mut s = loaded(FOUR_ROWS);
    let mut f = no_filter();
    f.brand = "GATES".to_string();
    let r = s.set_view(view("id", "asc", f.clone()));
    assert_eq!(codes(&r), vec!["C3", "D4"]);
    f.car_type = "van".to_string();
    let r = s.set_view(view("id", "asc", f));
    assert_eq!(codes(&r), vec!["D4"]);
    assert_eq!(ids(&r), vec![0]);
}

#[test]
fn integer_filters_match_decimal_text() {
    let mut s = loaded(FOUR_ROWS);
    let mut f = no_filter();
    f.price = "50".to_string();
    let r = s.set_view(view("id", "asc", f));
    assert_eq!(codes(&r), vec!["C3"]);
    let mut f = no_filter();
    f.quantity = "0".to_string();
    let r = s.set_view(view("id", "asc", f));
    assert_eq!(codes(&r), vec!["D4", "B2"]);
}

#[test]
fn filter_that_matches_nothing_gives_empty_view() {
    let mut s = loaded(FOUR_ROWS);
    let mut f = no_filter();
    f.name = "zzz".to_string();
    assert!(s.set_view(view("id", "asc", f)).is_empty());
}

#[test]
fn text_columns_sort_lexicographically() {
    let mut s = loaded(FOUR_ROWS);
    let r = s.set_view(view("brand", "asc", no_filter()));
    let brands: Vec<String> = r.iter().map(|x| x.brand.clone()).collect();
    assert_eq!(brands, vec!["BrandX", "BrandY", "Gates", "gates"]);
    let d = s.set_view(view("brand", "desc", no_filter()));
    let rev: Vec<String> = d.iter().map(|x| x.brand.clone()).collect();
    assert_eq!(rev, vec!["gates", "Gates", "BrandY", "BrandX"]);
}

#[test]
fn descending_is_reverse_of_ascending_with_ties() {
    let mut s = loaded(FOUR_ROWS);
    let up = s.set_view(view("car_type", "asc", no_filter()));
    assert_eq!(codes(&up), vec!["A1", "B2", "C3", "D4"]);
    let down = s.set_view(view("car_type", "desc", no_filter()));
    assert_eq!(codes(&down), vec!["D4", "C3", "B2", "A1"]);
    let mut up_rev = codes(&up);
    up_rev.reverse();
    assert_eq!(codes(&down), up_rev);
}

#[test]
fn numeric_columns_sort_by_value() {
    let mut s = loaded(FOUR_ROWS);
    let r = s.set_view(view("quantity", "asc", no_filter()));
    let q: Vec<i64> = r.iter().map(|x| x.quantity).collect();
    assert_eq!(q, vec![5, 7, 50, 2000]);
    let p = s.set_view(view("price", "asc", no_filter()));
    let v: Vec<i64> = p.iter().map(|x| x.price).collect();
    assert_eq!(v, vec![90, 300, 1200, 1500]);
}

#[test]
fn ids_are_positions_of_the_view() {
    let mut s = loaded(FOUR_ROWS);
    let mut f = no_filter();
    f.code = "2".to_string();
    let r = s.set_view(view("date", "desc", f));
    assert_eq!(codes(&r), vec!["B2"]);
    assert_eq!(ids(&r), vec![0]);
    let all = s.set_view(view("date", "asc", no_filter()));
    assert_eq!(codes(&all), vec!["D4", "A1", "B2", "C3"]);
    assert_eq!(ids(&all), vec![0, 1, 2, 3]);
}

#[test]
fn set_view_twice_gives_the_same_result() {
    let mut s = loaded(FOUR_ROWS);
    let a = s.set_view(view("name", "desc", no_filter()));
    let b = s.set_view(view("name", "desc", no_filter()));
    assert_eq!(a, b);
}

#[test]
fn persisted_records_restore_to_the_same_dataset() {
    let mut s = loaded(FOUR_ROWS);
    s.set_view(view("price", "asc", no_filter()));
    let saved = s.records();
    let mut other = loaded(TWO_ROWS);
    other.restore(saved.clone()).unwrap();
    assert_eq!(other.records(), saved);
}

#[test]
fn restore_of_no_rows_is_empty_result() {
    let mut s = loaded(TWO_ROWS);
    assert_eq!(s.restore(Vec::new()).unwrap_err(), DataError::EmptyResult);
    assert_eq!(s.count(), 2);
}

#[test]
fn failed_import_keeps_the_dataset() {
    let mut s = loaded(TWO_ROWS);
    let e = s.import(b"X,Y,Z,W,abc,P,D,1\n").unwrap_err();
    assert_eq!(e, DataError::Format);
    assert_eq!(codes(&s.records()), vec!["A1", "B2"]);
}

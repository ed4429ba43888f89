use stock_view::error::DataError;
use stock_view::import::{parse_records, read_number};
use stock_view::record::{field_text, Column, Record};
use stock_view::text::{chars_of, compare_chars, contains_chars, parse_int, same_text};
use stock_view::view::{parse_column, parse_direction, Direction};
use std::cmp::Ordering;

fn chars(s: &str) -> Vec<char> {
    s.chars().collect()
}

#[test]
fn rows_become_records_numbered_by_row() {
    let r = parse_records(b"A1,Filter,BrandX,Car,\"1,200\",PC1,2024-01-01,\"12,345\"\nB2,Pump,BrandY,Car,300,PC2,2024-02-01,50\n").unwrap();
    assert_eq!(r.len(), 2);
    assert_eq!(r[0].id, 0);
    assert_eq!(r[0].code, "A1");
    assert_eq!(r[0].name, "Filter");
    assert_eq!(r[0].brand, "BrandX");
    assert_eq!(r[0].car_type, "Car");
    assert_eq!(r[0].price, 1200);
    assert_eq!(r[0].price_code, "PC1");
    assert_eq!(r[0].date, "2024-01-01");
    assert_eq!(r[0].quantity, 12345);
    assert_eq!(r[1].id, 1);
    assert_eq!(r[1].quantity, 50);
}

#[test]
fn empty_text_has_no_records() {
    assert!(parse_records(b"").unwrap().is_empty());
}

#[test]
fn short_row_is_format_error() {
    assert_eq!(parse_records(b"A1,Filter,BrandX,Car,1200,PC1,2024-01-01\n").unwrap_err(), DataError::Format);
}

#[test]
fn bad_price_is_format_error() {
    assert_eq!(parse_records(b"A1,Filter,BrandX,Car,12x,PC1,2024-01-01,5\n").unwrap_err(), DataError::Format);
}

#[test]
fn bad_quantity_is_format_error() {
    assert_eq!(parse_records(b"A1,Filter,BrandX,Car,12,PC1,2024-01-01,\n").unwrap_err(), DataError::Format);
}

#[test]
fn rows_of_unequal_length_are_format_error() {
    let text = b"A1,Filter,BrandX,Car,1200,PC1,2024-01-01,5\nB2,Pump,BrandY,Car,300,PC2,2024-02-01,50,extra\n";
    assert_eq!(parse_records(text).unwrap_err(), DataError::Format);
}

#[test]
fn numbers_take_signs_and_separators() {
    assert_eq!(read_number(&"-1,000".to_string()), Some(-1000));
    assert_eq!(read_number(&"+7".to_string()), Some(7));
    assert_eq!(read_number(&",,3,".to_string()), Some(3));
    assert_eq!(read_number(&"".to_string()), None);
    assert_eq!(read_number(&",".to_string()), None);
    assert_eq!(read_number(&" 5".to_string()), None);
}

#[test]
fn parse_int_edges() {
    assert_eq!(parse_int(&chars("9223372036854775807")), Some(i64::MAX));
    assert_eq!(parse_int(&chars("-9223372036854775808")), Some(i64::MIN));
    assert_eq!(parse_int(&chars("9223372036854775808")), None);
    assert_eq!(parse_int(&chars("-9223372036854775809")), None);
    assert_eq!(parse_int(&chars("123456789012345678901234567890")), None);
    assert_eq!(parse_int(&chars("-")), None);
    assert_eq!(parse_int(&chars("+")), None);
    assert_eq!(parse_int(&chars("007")), Some(7));
    assert_eq!(parse_int(&chars("1-2")), None);
}

#[test]
fn field_text_renders_integers_in_decimal() {
    let r = Record {
        id: 3,
        code: "K".to_string(),
        name: "N".to_string(),
        brand: "B".to_string(),
        car_type: "T".to_string(),
        price: -1250,
        price_code: "P".to_string(),
        date: "D".to_string(),
        quantity: 0,
    };
    assert_eq!(field_text(&r, Column::Price), "-1250");
    assert_eq!(field_text(&r, Column::Quantity), "0");
    assert_eq!(field_text(&r, Column::Id), "3");
    assert_eq!(field_text(&r, Column::Brand), "B");
}

#[test]
fn texts_compare_lexicographically() {
    assert_eq!(compare_chars(&chars("abc"), &chars("abd")), Ordering::Less);
    assert_eq!(compare_chars(&chars("ab"), &chars("abc")), Ordering::Less);
    assert_eq!(compare_chars(&chars("b"), &chars("abc")), Ordering::Greater);
    assert_eq!(compare_chars(&chars("Z"), &chars("a")), Ordering::Less);
    assert_eq!(compare_chars(&chars(""), &chars("")), Ordering::Equal);
    assert_eq!(compare_chars(&chars("é"), &chars("z")), Ordering::Greater);
}

#[test]
fn substring_search() {
    assert!(contains_chars(&chars("BRANDX"), &chars("BX")) == false);
    assert!(contains_chars(&chars("BRANDX"), &chars("DX")));
    assert!(contains_chars(&chars("BRANDX"), &chars("")));
    assert!(contains_chars(&chars("BRANDX"), &chars("BRANDX")));
    assert!(!contains_chars(&chars("BRAND"), &chars("BRANDX")));
    assert!(contains_chars(&chars("aaab"), &chars("aab")));
}

#[test]
fn chars_of_keeps_every_character() {
    assert_eq!(chars_of("añb"), vec!['a', 'ñ', 'b']);
    assert!(same_text("code", "code"));
    assert!(!same_text("code", "Code"));
}

#[test]
fn column_and_direction_names() {
    assert_eq!(parse_column("code"), Column::Code);
    assert_eq!(parse_column("name"), Column::Name);
    assert_eq!(parse_column("brand"), Column::Brand);
    assert_eq!(parse_column("car_type"), Column::CarType);
    assert_eq!(parse_column("price"), Column::Price);
    assert_eq!(parse_column("price_code"), Column::PriceCode);
    assert_eq!(parse_column("date"), Column::Date);
    assert_eq!(parse_column("quantity"), Column::Quantity);
    assert_eq!(parse_column("id"), Column::Id);
    assert_eq!(parse_column("Price"), Column::Id);
    assert_eq!(parse_direction("asc"), Direction::Ascending);
    assert_eq!(parse_direction("desc"), Direction::Descending);
    assert_eq!(parse_direction("up"), Direction::Descending);
}

#[test]
fn error_messages_differ() {
    let all = [
        DataError::Io,
        DataError::Format,
        DataError::NotFound,
        DataError::EmptyResult,
        DataError::Storage,
        DataError::FontResolution,
    ];
    for (i, a) in all.iter().enumerate() {
        for b in all[i + 1..].iter() {
            assert_ne!(a.message(), b.message());
        }
    }
}

use stock_view::record::{field_text, Column, COLUMN_COUNT};
use stock_view::session::Session;
use stock_view::widths::widest_position;

fn measure(s: &str) -> i64 {
    s.chars().map(|c| if c.is_ascii_uppercase() || c == 'W' { 3 } else { 2 }).sum()
}

fn widths_of(s: &Session) -> Vec<Vec<i64>> {
    let rs = s.records();
    let mut w = Vec::new();
    for i in 0..COLUMN_COUNT {
        let c = stock_view::record::column_at_index(i);
        w.push(rs.iter().map(|r| measure(&field_text(r, c))).collect());
    }
    w
}

#[test]
fn widest_position_takes_the_first_on_a_tie() {
    assert_eq!(widest_position(&vec![1, 5, 3, 5]), Some(1));
    assert_eq!(widest_position(&vec![-4]), Some(0));
    assert_eq!(widest_position(&vec![]), None);
    assert_eq!(widest_position(&vec![2, 2, 2]), Some(0));
}

#[test]
fn hints_of_an_empty_session_are_blank() {
    let s = Session::new();
    let h = s.width_hints();
    assert_eq!(h.id, 0);
    assert_eq!(h.code, "");
    assert_eq!(h.price, 0);
    assert_eq!(h.date, "");
}

#[test]
fn hints_pick_the_widest_value_of_each_column() {
    let mut s = Session::new();
    s.import(b"ab,WIDE,x,Car,5,P,2024,100\nABC,wide,yy,Van,12345,PP,2024-01,7\nabc,ok,zz,Truck,99,Q,2023,1000\n").unwrap();
    let w = widths_of(&s);
    s.update_widths(&w);
    let h = s.width_hints();
    assert_eq!(h.code, "ABC");
    assert_eq!(h.name, "WIDE");
    assert_eq!(h.brand, "yy");
    assert_eq!(h.car_type, "Truck");
    assert_eq!(h.price, 12345);
    assert_eq!(h.price_code, "PP");
    assert_eq!(h.date, "2024-01");
    assert_eq!(h.quantity, 1000);
    assert_eq!(h.id, 0);
}

#[test]
fn hints_do_not_change_with_the_view() {
    let mut s = Session::new();
    s.import(b"a,bb,c,d,1,e,f,2\naa,b,cc,dd,22,ee,ff,3\n").unwrap();
    let w = widths_of(&s);
    s.update_widths(&w);
    let before = s.width_hints();
    s.set_view(stock_view::view::ViewState::from_names("code", "desc", stock_view::view::Filter::none()));
    assert_eq!(s.width_hints(), before);
    assert_eq!(before.code, "aa");
    assert_eq!(before.name, "bb");
    assert_eq!(before.price, 22);
}

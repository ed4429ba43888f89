use crate::record::{column_text, Column, Record};
use crate::text::{contains_text, same_text, upper_of};
use vstd::prelude::*;

verus! {

/// One filter text per column that can be filtered; an empty text puts no
/// constraint on its column.
#[derive(Clone, Debug)]
pub struct Filter {
    pub code: String,
    pub name: String,
    pub brand: String,
    pub car_type: String,
    pub price: String,
    pub price_code: String,
    pub date: String,
    pub quantity: String,
}

/// The direction of a sorted view.
#[derive(Clone, Copy, Debug, PartialEq, Eq, Structural)]
pub enum Direction {
    Ascending,
    Descending,
}

/// What a view shows: the column it is sorted by, the direction, and the
/// filters.
#[derive(Clone, Debug)]
pub struct ViewState {
    pub sort: Column,
    pub direction: Direction,
    pub filters: Filter,
}

/// The filter text of a column; the display ordinal has none.
pub open spec fn filter_text(f: Filter, c: Column) -> Seq<char> {
    match c {
        Column::Id => Seq::empty(),
        Column::Code => f.code@,
        Column::Name => f.name@,
        Column::Brand => f.brand@,
        Column::CarType => f.car_type@,
        Column::Price => f.price@,
        Column::PriceCode => f.price_code@,
        Column::Date => f.date@,
        Column::Quantity => f.quantity@,
    }
}

/// A record meets the filter of one column: the filter is empty, or the
/// field's text holds it, both in upper case.
pub open spec fn field_passes(r: Record, f: Filter, c: Column) -> bool {
    filter_text(f, c).len() == 0 || contains_text(
        upper_of(column_text(r, c)),
        upper_of(filter_text(f, c)),
    )
}

/// A record meets the filter of every column.
pub open spec fn passes(r: Record, f: Filter) -> bool {
    forall|c: Column| #[trigger] field_passes(r, f, c)
}

/// The column that a name selects for sorting; any name but a column's own
/// sorts by the display ordinal.
pub open spec fn column_named(s: Seq<char>) -> Column {
    if s == "code"@ {
        Column::Code
    } else if s == "name"@ {
        Column::Name
    } else if s == "brand"@ {
        Column::Brand
    } else if s == "car_type"@ {
        Column::CarType
    } else if s == "price"@ {
        Column::Price
    } else if s == "price_code"@ {
        Column::PriceCode
    } else if s == "date"@ {
        Column::Date
    } else if s == "quantity"@ {
        Column::Quantity
    } else {
        Column::Id
    }
}

/// `asc` sorts ascending; any other text sorts descending.
pub open spec fn direction_named(s: Seq<char>) -> Direction {
    if s == "asc"@ {
        Direction::Ascending
    } else {
        Direction::Descending
    }
}

/// The column that a name selects for sorting.
pub fn parse_column(name: &str) -> (c: Column)
    ensures
        c == column_named(name@),
{
    if same_text(name, "code") {
        Column::Code
    } else if same_text(name, "name") {
        Column::Name
    } else if same_text(name, "brand") {
        Column::Brand
    } else if same_text(name, "car_type") {
        Column::CarType
    } else if same_text(name, "price") {
        Column::Price
    } else if same_text(name, "price_code") {
        Column::PriceCode
    } else if same_text(name, "date") {
        Column::Date
    } else if same_text(name, "quantity") {
        Column::Quantity
    } else {
        Column::Id
    }
}

/// The direction that a name selects.
pub fn parse_direction(name: &str) -> (d: Direction)
    ensures
        d == direction_named(name@),
{
    if same_text(name, "asc") {
        Direction::Ascending
    } else {
        Direction::Descending
    }
}

impl Filter {
    /// A filter that lets every record through.
    pub fn none() -> (f: Filter)
        ensures
            forall|c: Column| #[trigger] filter_text(f, c).len() == 0,
    {
        Filter {
            code: String::new(),
            name: String::new(),
            brand: String::new(),
            car_type: String::new(),
            price: String::new(),
            price_code: String::new(),
            date: String::new(),
            quantity: String::new(),
        }
    }
}

impl ViewState {
    /// The view a session starts with: by display ordinal, ascending, no filter.
    pub fn new() -> (v: ViewState)
        ensures
            v.sort == Column::Id,
            v.direction == Direction::Ascending,
            forall|c: Column| #[trigger] filter_text(v.filters, c).len() == 0,
    {
        ViewState { sort: Column::Id, direction: Direction::Ascending, filters: Filter::none() }
    }

    /// A view from the names of its sort column and direction.
    pub fn from_names(column: &str, direction: &str, filters: Filter) -> (v: ViewState)
        ensures
            v.sort == column_named(column@),
            v.direction == direction_named(direction@),
            v.filters == filters,
    {
        ViewState { sort: parse_column(column), direction: parse_direction(direction), filters }
    }
}

} // verus!

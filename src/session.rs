use crate::error::DataError;
use crate::import::{all_rows_valid, csv_rows_of, decodes_all, parse_records};
use crate::query::{is_view_of, query};
use crate::record::{column_text, is_numeric, numeric_value, Column, Record, COLUMN_COUNT};
use crate::view::{filter_text, Direction, ViewState};
use crate::widths::{is_width_hint, width_hints};
use vstd::prelude::*;

verus! {

/// The store a restore leaves: the rows read back, unless there were none,
/// in which case the store is kept.
pub open spec fn after_restore(old_store: Seq<Record>, rows: Seq<Record>) -> Seq<Record> {
    if rows.len() == 0 {
        old_store
    } else {
        rows
    }
}

/// The dataset of one session, the view it is shown through, and the width
/// hint of its columns. Callers get copies, never the store itself.
pub struct Session {
    records: Vec<Record>,
    view: ViewState,
    hint: Record,
}

impl Session {
    /// The records of the dataset, in import order.
    pub closed spec fn store(&self) -> Seq<Record> {
        self.records@
    }

    /// The view the session shows.
    pub closed spec fn view_state(&self) -> ViewState {
        self.view
    }

    /// The width hint last computed.
    pub closed spec fn hint(&self) -> Record {
        self.hint
    }

    /// The store is small enough for every record to be numbered.
    pub closed spec fn wf(&self) -> bool {
        self.records.len() <= i64::MAX
    }

    /// An empty session: no records, the default view, a blank width hint.
    pub fn new() -> (s: Session)
        ensures
            s.wf(),
            s.store().len() == 0,
            s.view_state().sort == Column::Id,
            s.view_state().direction == Direction::Ascending,
            forall|c: Column| #[trigger] filter_text(s.view_state().filters, c).len() == 0,
            forall|c: Column|
                if is_numeric(c) {
                    numeric_value(s.hint(), c) == 0
                } else {
                    #[trigger] column_text(s.hint(), c).len() == 0
                },
    {
        Session { records: Vec::new(), view: ViewState::new(), hint: Record::blank() }
    }

    /// The number of records in the dataset.
    pub fn count(&self) -> (n: usize)
        ensures
            n == self.store().len(),
    {
        self.records.len()
    }

    /// A copy of the dataset, in import order.
    pub fn records(&self) -> (r: Vec<Record>)
        ensures
            r@ == self.store(),
    {
        let mut r: Vec<Record> = Vec::new();
        for i in 0..self.records.len()
            invariant
                r@ == self.records@.subrange(0, i as int),
        {
            r.push(self.records[i].duplicate());
            proof {
                assert(r@ =~= self.records@.subrange(0, i + 1));
            }
        }
        proof {
            assert(r@ =~= self.records@);
        }
        r
    }

    /// A copy of the width hint.
    pub fn width_hints(&self) -> (h: Record)
        ensures
            h == self.hint(),
    {
        self.hint.duplicate()
    }

    /// What the current view shows of the dataset.
    pub fn current(&self) -> (r: Vec<Record>)
        requires
            self.wf(),
        ensures
            is_view_of(self.store(), self.view_state(), r@),
    {
        query(&self.records, &self.view)
    }

    /// Replaces the view and returns what it shows of the dataset.
    pub fn set_view(&mut self, view: ViewState) -> (r: Vec<Record>)
        requires
            old(self).wf(),
        ensures
            final(self).wf(),
            final(self).view_state() == view,
            final(self).store() == old(self).store(),
            final(self).hint() == old(self).hint(),
            is_view_of(final(self).store(), view, r@),
    {
        self.view = view;
        query(&self.records, &self.view)
    }

    /// Replaces the dataset with the records of a delimited text and returns
    /// what the current view shows of them. On failure nothing changes.
    pub fn import(&mut self, data: &[u8]) -> (r: Result<Vec<Record>, DataError>)
        requires
            old(self).wf(),
        ensures
            final(self).wf(),
            final(self).view_state() == old(self).view_state(),
            final(self).hint() == old(self).hint(),
            r is Ok <==> (csv_rows_of(data@) matches Some(rows) && all_rows_valid(rows)
                && rows.len() <= i64::MAX),
            match r {
                Ok(v) => {
                    &&& decodes_all(csv_rows_of(data@)->0, final(self).store())
                    &&& is_view_of(final(self).store(), final(self).view_state(), v@)
                },
                Err(e) => e == DataError::Format && final(self).store() == old(self).store(),
            },
    {
        match parse_records(data) {
            Ok(recs) => {
                self.records = recs;
                Ok(query(&self.records, &self.view))
            },
            Err(e) => Err(e),
        }
    }

    /// Replaces the dataset with rows read back from the persisted store and
    /// returns what the current view shows of them. With no rows the dataset
    /// stays as it was and the result is `EmptyResult`.
    pub fn restore(&mut self, rows: Vec<Record>) -> (r: Result<Vec<Record>, DataError>)
        requires
            old(self).wf(),
            rows.len() <= i64::MAX,
        ensures
            final(self).wf(),
            final(self).store() == after_restore(old(self).store(), rows@),
            final(self).view_state() == old(self).view_state(),
            final(self).hint() == old(self).hint(),
            match r {
                Ok(v) => rows.len() > 0 && is_view_of(
                    final(self).store(),
                    final(self).view_state(),
                    v@,
                ),
                Err(e) => e == DataError::EmptyResult && rows.len() == 0,
            },
    {
        if rows.len() == 0 {
            return Err(DataError::EmptyResult);
        }
        self.records = rows;
        Ok(query(&self.records, &self.view))
    }

    /// Recomputes the width hint from the measured width of every field:
    /// `widths[i][k]` is the width of column `i` of record `k`.
    pub fn update_widths(&mut self, widths: &Vec<Vec<i64>>)
        requires
            widths.len() == COLUMN_COUNT,
            forall|i: int|
                0 <= i < COLUMN_COUNT ==> #[trigger] widths[i].len() == old(self).store().len(),
        ensures
            is_width_hint(old(self).store(), widths@, final(self).hint()),
            final(self).store() == old(self).store(),
            final(self).view_state() == old(self).view_state(),
            final(self).wf() == old(self).wf(),
    {
        self.hint = width_hints(&self.records, widths);
    }
}

} // verus!

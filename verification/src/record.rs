//! A ready-made row type: a flat record of named fields.
//!
//! A [`Record`] carries, per field name, a sort key and a display text,
//! plus a rank that fixes its place in the records' natural order. It
//! implements the full [`crate::table::TableData`] capability contract,
//! so a host can fill a table with records without writing a row type of
//! its own.

use vstd::prelude::*;

use crate::error::Error;
use crate::keys::{KeyValue, KeyView};
use crate::table::{needle_view, TableData};
use crate::text::{contains_sub, str_contains, str_eq};

verus! {

/// A row made of named fields: per field a sort key and a display text.
pub struct Record {
    /// The record's place in the natural order of records.
    pub rank: u64,
    /// The sort key of each field, by field name; the first entry of a
    /// name wins.
    pub values: Vec<(String, KeyValue)>,
    /// The display text of each field, by field name; the first entry of
    /// a name wins.
    pub cells: Vec<(String, String)>,
}

/// The sort key stored for the field `f`: that of the first entry named
/// `f`, if any.
pub open spec fn lookup_value(s: Seq<(String, KeyValue)>, f: Seq<char>) -> Option<KeyView>
    decreases s.len(),
{
    if s.len() == 0 {
        None
    } else if s[0].0@ == f {
        Some(s[0].1@)
    } else {
        lookup_value(s.drop_first(), f)
    }
}

/// The display text stored for the field `f`: that of the first entry
/// named `f`, if any.
pub open spec fn lookup_cell(s: Seq<(String, String)>, f: Seq<char>) -> Option<Seq<char>>
    decreases s.len(),
{
    if s.len() == 0 {
        None
    } else if s[0].0@ == f {
        Some(s[0].1@)
    } else {
        lookup_cell(s.drop_first(), f)
    }
}

/// Some field's display text holds `nd` as a substring.
pub open spec fn any_cell_matches(s: Seq<(String, String)>, nd: Seq<char>) -> bool {
    exists|i: int| 0 <= i < s.len() && contains_sub((#[trigger] s[i]).1@, nd)
}

/// The position of the first sort-key entry named `f`.
fn find_value(values: &Vec<(String, KeyValue)>, f: &str) -> (r: Option<usize>)
    ensures
        match r {
            Some(i) => i < values@.len() && lookup_value(values@, f@) == Some(
                values@[i as int].1@,
            ),
            None => lookup_value(values@, f@) is None,
        },
{
    let mut i: usize = 0;
    proof {
        assert(values@.skip(0) =~= values@);
    }
    while i < values.len()
        invariant
            i <= values@.len(),
            lookup_value(values@, f@) == lookup_value(values@.skip(i as int), f@),
        decreases values@.len() - i,
    {
        if str_eq(values[i].0.as_str(), f) {
            proof {
                assert(values@.skip(i as int)[0] == values@[i as int]);
            }
            return Some(i);
        }
        i = i + 1;
        proof {
            assert(values@.skip(i - 1)[0] == values@[i - 1]);
            assert(values@.skip(i - 1).drop_first() =~= values@.skip(i as int));
        }
    }
    None
}

/// The position of the first display-text entry named `f`.
fn find_cell(cells: &Vec<(String, String)>, f: &str) -> (r: Option<usize>)
    ensures
        match r {
            Some(i) => i < cells@.len() && lookup_cell(cells@, f@) == Some(cells@[i as int].1@),
            None => lookup_cell(cells@, f@) is None,
        },
{
    let mut i: usize = 0;
    proof {
        assert(cells@.skip(0) =~= cells@);
    }
    while i < cells.len()
        invariant
            i <= cells@.len(),
            lookup_cell(cells@, f@) == lookup_cell(cells@.skip(i as int), f@),
        decreases cells@.len() - i,
    {
        if str_eq(cells[i].0.as_str(), f) {
            proof {
                assert(cells@.skip(i as int)[0] == cells@[i as int]);
            }
            return Some(i);
        }
        i = i + 1;
        proof {
            assert(cells@.skip(i - 1)[0] == cells@[i - 1]);
            assert(cells@.skip(i - 1).drop_first() =~= cells@.skip(i as int));
        }
    }
    None
}

impl Record {
    /// A record of the given rank, without fields yet.
    pub fn new(rank: u64) -> (r: Record)
        ensures
            r.rank == rank,
            r.values@.len() == 0,
            r.cells@.len() == 0,
    {
        Record { rank, values: Vec::new(), cells: Vec::new() }
    }

    /// The record with the sort key of one more field appended.
    pub fn with_value(self, name: &str, value: KeyValue) -> (r: Record)
        ensures
            r.rank == self.rank,
            r.cells == self.cells,
            r.values@.len() == self.values@.len() + 1,
            forall|i: int| 0 <= i < self.values@.len() ==> r.values@[i] == self.values@[i],
            r.values@.last().0@ == name@,
            r.values@.last().1 == value,
    {
        let mut values = self.values;
        values.push((name.to_owned(), value));
        Record { rank: self.rank, values, cells: self.cells }
    }

    /// The record with the display text of one more field appended.
    pub fn with_cell(self, name: &str, text: &str) -> (r: Record)
        ensures
            r.rank == self.rank,
            r.values == self.values,
            r.cells@.len() == self.cells@.len() + 1,
            forall|i: int| 0 <= i < self.cells@.len() ==> r.cells@[i] == self.cells@[i],
            r.cells@.last().0@ == name@,
            r.cells@.last().1@ == text@,
    {
        let mut cells = self.cells;
        cells.push((name.to_owned(), text.to_owned()));
        Record { rank: self.rank, values: self.values, cells }
    }
}

impl TableData for Record {
    /// Records order naturally by rank.
    open spec fn nat_le(self, other: Self) -> bool {
        self.rank <= other.rank
    }

    open spec fn field_value(self, field: Seq<char>) -> Option<KeyView> {
        lookup_value(self.values@, field)
    }

    open spec fn field_html(self, field: Seq<char>) -> Option<Seq<char>> {
        lookup_cell(self.cells@, field)
    }

    open spec fn spec_matches(self, needle: Option<Seq<char>>) -> bool {
        match needle {
            None => true,
            Some(nd) => any_cell_matches(self.cells@, nd),
        }
    }

    proof fn nat_le_total(a: Self, b: Self) {
    }

    proof fn nat_le_trans(a: Self, b: Self, c: Self) {
    }

    proof fn matches_none(self) {
    }

    fn le(&self, other: &Self) -> (r: bool) {
        self.rank <= other.rank
    }

    fn get_field_as_html(&self, field_name: &str) -> (r: Result<String, Error>) {
        match find_cell(&self.cells, field_name) {
            Some(i) => Ok(self.cells[i].1.clone()),
            None => Err(Error::NonRenderableField(field_name.to_owned())),
        }
    }

    fn get_field_as_value(&self, field_name: &str) -> (r: Result<KeyValue, Error>) {
        match find_value(&self.values, field_name) {
            Some(i) => Ok(self.values[i].1.clone_key()),
            None => Err(Error::InvalidFieldName(field_name.to_owned())),
        }
    }

    fn matches_search(&self, needle: Option<String>) -> (r: bool) {
        match needle {
            None => true,
            Some(nd) => {
                let mut i: usize = 0;
                while i < self.cells.len()
                    invariant
                        needle == Some(nd),
                        i <= self.cells@.len(),
                        forall|i2: int|
                            0 <= i2 < i ==> !contains_sub((#[trigger] self.cells@[i2]).1@, nd@),
                    decreases self.cells@.len() - i,
                {
                    if str_contains(self.cells[i].1.as_str(), nd.as_str()) {
                        proof {
                            assert(contains_sub((self.cells@[i as int]).1@, nd@));
                            assert(any_cell_matches(self.cells@, nd@));
                        }
                        return true;
                    }
                    i = i + 1;
                }
                false
            },
        }
    }
}

} // verus!

//! The table engine: rows behind the [`TableData`] capability contract,
//! the per-column order state, the sort toggle, and the render traversal.

use vstd::prelude::*;

use crate::error::Error;
use crate::keys::{KeyValue, KeyView};
use crate::sort::{
    identity_seq, key_idx_leq, key_insert_pos, key_sort_perm, key_views, lemma_insert_stable_split,
    permute, stable_sort,
};
use crate::types::{Column, TableOptions, TableOrder, TableState};

verus! {

/// The capability contract a row type offers the table: a display
/// representation and a sort key per field, a search predicate, and a
/// natural total order for the unordered fallback sort.
///
/// The four spec functions fix what the executable methods return, so the
/// engine's contracts speak of row values alone.
pub trait TableData: Sized {
    /// The natural total order of the row type, used when a column's order
    /// falls back to Unordered.
    spec fn nat_le(self, other: Self) -> bool;

    /// The sort key the row exposes for a field, when the field has one.
    spec fn field_value(self, field: Seq<char>) -> Option<KeyView>;

    /// The display representation the row exposes for a field, when the
    /// field has one.
    spec fn field_html(self, field: Seq<char>) -> Option<Seq<char>>;

    /// Whether the row matches a search needle.
    spec fn spec_matches(self, needle: Option<Seq<char>>) -> bool;

    /// The natural order is total.
    proof fn nat_le_total(a: Self, b: Self)
        ensures
            a.nat_le(b) || b.nat_le(a),
    ;

    /// The natural order is transitive.
    proof fn nat_le_trans(a: Self, b: Self, c: Self)
        requires
            a.nat_le(b),
            b.nat_le(c),
        ensures
            a.nat_le(c),
    ;

    /// An absent search matches every row.
    proof fn matches_none(self)
        ensures
            self.spec_matches(None::<Seq<char>>),
    ;

    /// Whether `self` orders at or before `other` in the natural order.
    fn le(&self, other: &Self) -> (r: bool)
        ensures
            r == self.nat_le(*other),
    ;

    /// The display representation of a field. An `Err` means the field is
    /// not rendered.
    fn get_field_as_html(&self, field_name: &str) -> (r: Result<String, Error>)
        ensures
            match r {
                Ok(h) => self.field_html(field_name@) == Some(h@),
                Err(e) => self.field_html(field_name@) is None && (e matches
                Error::NonRenderableField(f) && f@ == field_name@),
            },
    ;

    /// The sort key of a field, used to order the rows of the field's
    /// column.
    fn get_field_as_value(&self, field_name: &str) -> (r: Result<KeyValue, Error>)
        ensures
            match r {
                Ok(v) => self.field_value(field_name@) == Some(v@),
                Err(e) => self.field_value(field_name@) is None && (e matches
                Error::InvalidFieldName(f) && f@ == field_name@),
            },
    ;

    /// Whether the row matches the search needle; an absent needle always
    /// matches.
    fn matches_search(&self, needle: Option<String>) -> (r: bool)
        ensures
            r == self.spec_matches(needle_view(needle)),
    ;
}

/// The view of an optional search string.
pub open spec fn needle_view(needle: Option<String>) -> Option<Seq<char>> {
    match needle {
        Some(s) => Some(s@),
        None => None,
    }
}

/// A table: columns, rows, the per-column order state, and options.
pub struct Table<T: TableData> {
    /// The columns, in display order.
    pub columns: Vec<Column>,
    /// The rows. Sort toggles reorder this list in place; filtering never
    /// changes it.
    pub data: Vec<T>,
    /// The per-column order, index-aligned with `columns`.
    pub state: TableState,
    /// Styling and behaviour options, when the host supplied any.
    pub options: Option<TableOptions>,
}

/// The order state after a click on column `i`: column `i` rotates one
/// step, every other column resets to Unordered.
pub open spec fn toggled_state(s: Seq<TableOrder>, i: int) -> Seq<TableOrder> {
    Seq::new(
        s.len(),
        |j: int|
            if j == i {
                s[i].spec_rotate()
            } else {
                TableOrder::Unordered
            },
    )
}

/// After any toggle on column `i`, every other column's order is
/// Unordered: only one column is ever in an active sort state.
pub proof fn lemma_toggle_resets_others(s: Seq<TableOrder>, i: int, j: int)
    requires
        0 <= j < s.len(),
        j != i,
    ensures
        toggled_state(s, i)[j] == TableOrder::Unordered,
{
}

/// The sort keys the rows expose for the field `f`, assuming every row
/// has one.
pub open spec fn field_keys<T: TableData>(rows: Seq<T>, f: Seq<char>) -> Seq<KeyView> {
    Seq::new(rows.len(), |k: int| rows[k].field_value(f)->Some_0)
}

/// Every row exposes a sort key for the field `f`.
pub open spec fn all_keys_present<T: TableData>(rows: Seq<T>, f: Seq<char>) -> bool {
    forall|k: int| 0 <= k < rows.len() ==> (#[trigger] rows[k].field_value(f)) is Some
}

/// Toggling a column from Ascending straight to Descending yields the
/// exact reverse of the ascending row order, provided no two rows' keys
/// for the column's field are tied: the second toggle sorts the rows the
/// first one left behind, and ends with them reversed.
pub proof fn lemma_toggle_asc_then_desc<T: TableData>(rows: Seq<T>, f: Seq<char>)
    requires
        rows.len() <= usize::MAX,
        all_keys_present(rows, f),
        forall|i: int, j: int|
            0 <= i < j < rows.len() ==> !crate::keys::key_tied(
                #[trigger] field_keys(rows, f)[i],
                #[trigger] field_keys(rows, f)[j],
            ),
    ensures
        ({
            let rows1 = permute(rows, key_sort_perm(field_keys(rows, f), true));
            permute(rows1, key_sort_perm(field_keys(rows1, f), false)) == rows1.reverse()
        }),
{
    let keys = field_keys(rows, f);
    let p = key_sort_perm(keys, true);
    crate::sort::lemma_sort_perm_sorted(keys, true);
    let rows1 = permute(rows, p);
    assert(field_keys(rows1, f) =~= permute(keys, p));
    crate::sort::lemma_descending_reverses_ascending(rows, keys);
}

impl<T: TableData> Table<T> {
    /// The order state is index-aligned with the column list.
    pub open spec fn wf(self) -> bool {
        self.state.order@.len() == self.columns@.len()
    }

    /// A click on column `i` takes effect: the column exists and is
    /// orderable.
    pub open spec fn click_effective(self, i: usize) -> bool {
        i < self.columns@.len() && self.columns@[i as int].orderable
    }

    /// Build a table from columns and rows; every column starts out
    /// Unordered, and no options are set.
    pub fn new(columns: Vec<Column>, data: Vec<T>) -> (r: Table<T>)
        ensures
            r.wf(),
            r.columns == columns,
            r.data == data,
            r.state.order@ =~= all_unordered(columns@.len() as nat),
            r.options is None,
    {
        let n = columns.len();
        let state = TableState { order: unordered_vec(n) };
        Table { columns, data, state, options: None }
    }

    /// Replace the column list wholesale; the order state resets to all
    /// Unordered, sized to the new column count.
    pub fn set_columns(&mut self, columns: Vec<Column>)
        ensures
            final(self).wf(),
            final(self).columns == columns,
            final(self).data == old(self).data,
            final(self).options == old(self).options,
            final(self).state.order@ =~= all_unordered(columns@.len() as nat),
    {
        let n = columns.len();
        self.columns = columns;
        self.state = TableState { order: unordered_vec(n) };
    }

    /// Replace the row list wholesale; the order state resets to all
    /// Unordered.
    pub fn set_data(&mut self, data: Vec<T>)
        requires
            old(self).wf(),
        ensures
            final(self).wf(),
            final(self).columns == old(self).columns,
            final(self).data == data,
            final(self).options == old(self).options,
            final(self).state.order@ =~= all_unordered(old(self).columns@.len() as nat),
    {
        let n = self.columns.len();
        self.data = data;
        self.state = TableState { order: unordered_vec(n) };
    }

    /// Set the table options.
    pub fn set_options(&mut self, options: TableOptions)
        ensures
            final(self).columns == old(self).columns,
            final(self).data == old(self).data,
            final(self).state == old(self).state,
            final(self).options == Some(options),
    {
        self.options = Some(options);
    }

    /// Set column `i`'s order to `ord` and every other column's to
    /// Unordered.
    fn reset_state(&mut self, i: usize, ord: TableOrder)
        requires
            i < old(self).state.order@.len(),
        ensures
            final(self).columns == old(self).columns,
            final(self).data == old(self).data,
            final(self).options == old(self).options,
            final(self).state.order@ == Seq::new(
                old(self).state.order@.len(),
                |j: int|
                    if j == i {
                        ord
                    } else {
                        TableOrder::Unordered
                    },
            ),
    {
        let ghost target = Seq::new(
            self.state.order@.len(),
            |j: int|
                if j == i {
                    ord
                } else {
                    TableOrder::Unordered
                },
        );
        let n = self.state.order.len();
        let mut order: Vec<TableOrder> = Vec::new();
        let mut j: usize = 0;
        while j < n
            invariant
                j <= n,
                i < n,
                target == Seq::new(
                    n as nat,
                    |j2: int|
                        if j2 == i {
                            ord
                        } else {
                            TableOrder::Unordered
                        },
                ),
                order@ =~= target.take(j as int),
            decreases n - j,
        {
            if j == i {
                order.push(ord);
            } else {
                order.push(TableOrder::Unordered);
            }
            j = j + 1;
            proof {
                assert(order@ =~= target.take(j as int));
            }
        }
        proof {
            assert(target.take(n as int) =~= target);
        }
        self.state = TableState { order };
    }

    /// Process a click on the header of column `i`.
    ///
    /// A click on a missing or non-orderable column is a no-op and returns
    /// `Ok(false)`. Otherwise column `i`'s order rotates one step, every
    /// other column resets to Unordered, and — when the column has a field
    /// key — the rows are re-sorted stably in place: by the field's keys
    /// for Ascending and Descending, by the rows' natural order for
    /// Unordered. Every row's key is computed once per toggle; when some
    /// row has no key for the field, the toggle fails with that row's
    /// `InvalidFieldName` error and the table is left entirely unchanged.
    pub fn toggle_sort(&mut self, i: usize) -> (r: Result<bool, Error>)
        requires
            old(self).wf(),
        ensures
            final(self).wf(),
            final(self).columns == old(self).columns,
            final(self).options == old(self).options,
            !old(self).click_effective(i) ==> *final(self) == *old(self) && r == Ok::<
                bool,
                Error,
            >(false),
            old(self).click_effective(i) ==> ({
                let ord = old(self).state.order@[i as int].spec_rotate();
                let toggled = toggled_state(old(self).state.order@, i as int);
                match old(self).columns@[i as int].data_property {
                    None => r == Ok::<bool, Error>(true) && final(self).state.order@ == toggled
                        && final(self).data == old(self).data,
                    Some(f) => match ord {
                        TableOrder::Unordered => r == Ok::<bool, Error>(true) && final(
                            self).state.order@ == toggled && final(self).data@ == permute(
                            old(self).data@,
                            natural_sort_perm(old(self).data@),
                        ),
                        _ => {
                            if all_keys_present(old(self).data@, f@) {
                                r == Ok::<bool, Error>(true) && final(self).state.order@ == toggled
                                    && final(self).data@ == permute(
                                    old(self).data@,
                                    key_sort_perm(
                                        field_keys(old(self).data@, f@),
                                        ord is Ascending,
                                    ),
                                )
                            } else {
                                *final(self) == *old(self) && (r matches Err(e) && e matches
                                Error::InvalidFieldName(g) && g@ == f@)
                            }
                        },
                    },
                }
            }),
    {
        if i >= self.columns.len() {
            return Ok(false);
        }
        if !self.columns[i].orderable {
            return Ok(false);
        }
        let new_order = self.state.order[i].rotate();
        let field: Option<String> = match &self.columns[i].data_property {
            Some(f) => Some(f.clone()),
            None => None,
        };
        match field {
            None => {
                self.reset_state(i, new_order);
                proof {
                    assert(final(self).state.order@ =~= toggled_state(
                        old(self).state.order@,
                        i as int,
                    ));
                }
                Ok(true)
            },
            Some(f) => {
                match new_order {
                    TableOrder::Unordered => {
                        self.reset_state(i, new_order);
                        sort_rows_natural(&mut self.data);
                        proof {
                            assert(final(self).state.order@ =~= toggled_state(
                                old(self).state.order@,
                                i as int,
                            ));
                        }
                        Ok(true)
                    },
                    _ => {
                        let ascending = match new_order {
                            TableOrder::Ascending => true,
                            _ => false,
                        };
                        match extract_keys(&self.data, f.as_str()) {
                            Err(e) => Err(e),
                            Ok(keys) => {
                                self.reset_state(i, new_order);
                                sort_rows_by_keys(&mut self.data, &keys, ascending);
                                proof {
                                    assert(final(self).state.order@ =~= toggled_state(
                                        old(self).state.order@,
                                        i as int,
                                    ));
                                }
                                Ok(true)
                            },
                        }
                    },
                }
            },
        }
    }

    /// Whether ordering is enabled for the table as a whole: options were
    /// supplied and they enable it.
    pub fn is_orderable(&self) -> (r: bool)
        ensures
            r == match self.options {
                Some(o) => o.orderable,
                None => false,
            },
    {
        if let Some(options) = &self.options {
            options.orderable
        } else {
            false
        }
    }
}

/// The order that the natural row order puts on row indices.
pub open spec fn nat_idx_leq<T: TableData>(rows: Seq<T>) -> spec_fn(usize, usize) -> bool {
    |a: usize, b: usize| rows[a as int].nat_le(rows[b as int])
}

/// The permutation that stably sorts rows by their natural order.
pub open spec fn natural_sort_perm<T: TableData>(rows: Seq<T>) -> Seq<usize> {
    stable_sort(identity_seq(rows.len()), nat_idx_leq(rows))
}

/// The position at which a stable insertion of the row at position `i`
/// lands in the sorted prefix before it, under the natural row order.
/// `p` records which original row stands at each prefix position, `orig`
/// the rows as they stood before the sort began.
fn natural_insert_pos<T: TableData>(
    rows: &Vec<T>,
    p: &Vec<usize>,
    i: usize,
    Ghost(orig): Ghost<Seq<T>>,
) -> (j: usize)
    requires
        rows@.len() == orig.len(),
        p@.len() == i,
        i < rows@.len(),
        forall|k: int| 0 <= k < p@.len() ==> (#[trigger] p@[k]) < orig.len(),
        forall|k: int| 0 <= k < i ==> rows@[k] == orig[(#[trigger] p@[k]) as int],
        rows@[i as int] == orig[i as int],
    ensures
        j <= i,
        forall|k: int| j <= k < i ==> !(nat_idx_leq(orig)(#[trigger] p@[k], i)),
        j > 0 ==> nat_idx_leq(orig)(p@[j - 1], i),
{
    let ghost leq = nat_idx_leq(orig);
    let mut j: usize = i;
    loop
        invariant
            leq == nat_idx_leq(orig),
            j <= i,
            i < rows@.len(),
            rows@.len() == orig.len(),
            p@.len() == i,
            forall|k: int| 0 <= k < p@.len() ==> (#[trigger] p@[k]) < orig.len(),
            forall|k: int| 0 <= k < i ==> rows@[k] == orig[(#[trigger] p@[k]) as int],
            rows@[i as int] == orig[i as int],
            forall|k: int| j <= k < i ==> !(leq(#[trigger] p@[k], i)),
        decreases j,
    {
        if j == 0 {
            return j;
        }
        let le = rows[j - 1].le(&rows[i]);
        proof {
            assert(rows@[j - 1] == orig[p@[j - 1] as int]);
            assert(le == leq(p@[j - 1], i));
        }
        if le {
            return j;
        }
        j = j - 1;
    }
}

/// Stably sort the rows in place by their natural order: each row moves
/// to its rank, equal rows keeping their original relative order.
fn sort_rows_natural<T: TableData>(rows: &mut Vec<T>)
    ensures
        final(rows)@ == permute(old(rows)@, natural_sort_perm(old(rows)@)),
{
    let ghost orig = rows@;
    let ghost leq = nat_idx_leq(orig);
    let n = rows.len();
    let mut p: Vec<usize> = Vec::new();
    let mut i: usize = 0;
    proof {
        assert(identity_seq(0) =~= Seq::<usize>::empty());
        assert(rows@ =~= permute(orig, p@) + orig.skip(0));
    }
    while i < n
        invariant
            orig == old(rows)@,
            leq == nat_idx_leq(orig),
            i <= n,
            n == orig.len(),
            rows@.len() == n,
            p@ == stable_sort(identity_seq(i as nat), leq),
            p@.len() == i,
            forall|k: int| 0 <= k < p@.len() ==> (#[trigger] p@[k]) < i,
            rows@ == permute(orig, p@) + orig.skip(i as int),
        decreases n - i,
    {
        proof {
            assert forall|k: int| 0 <= k < i implies rows@[k] == orig[(#[trigger] p@[k]) as int] by {
                assert(rows@[k] == permute(orig, p@)[k]);
            }
            assert(rows@[i as int] == orig.skip(i as int)[0]);
        }
        let j = natural_insert_pos(rows, &p, i, Ghost(orig));
        let ghost p0 = p@;
        proof {
            lemma_insert_stable_split(p@, i, leq, j as int);
            assert(identity_seq((i + 1) as nat).drop_last() =~= identity_seq(i as nat));
            assert(identity_seq((i + 1) as nat).last() == i);
        }
        p.insert(j, i);
        let x = rows.remove(i);
        rows.insert(j, x);
        i = i + 1;
        proof {
            let a = permute(orig, p0);
            assert(x == orig[i - 1]);
            assert(rows@ =~= a.insert(j as int, x) + orig.skip(i as int));
            assert(a.insert(j as int, x) =~= permute(orig, p@));
        }
    }
    proof {
        assert(orig.skip(n as int) =~= Seq::<T>::empty());
        assert(rows@ =~= permute(orig, p@));
    }
}

/// Stably sort the rows in place by their keys: the key of each row was
/// extracted once, `keys[k]` belonging to the row that began at position
/// `k`. Ascending runs put smaller keys first, descending larger, tied
/// keys keeping their rows' relative order in both directions.
fn sort_rows_by_keys<T: TableData>(rows: &mut Vec<T>, keys: &Vec<KeyValue>, ascending: bool)
    requires
        keys@.len() == old(rows)@.len(),
    ensures
        final(rows)@ == permute(
            old(rows)@,
            key_sort_perm(key_views(keys@), ascending),
        ),
{
    let ghost orig = rows@;
    let ghost kv = key_views(keys@);
    let ghost leq = key_idx_leq(kv, ascending);
    let n = rows.len();
    let mut p: Vec<usize> = Vec::new();
    let mut i: usize = 0;
    proof {
        assert(identity_seq(0) =~= Seq::<usize>::empty());
        assert(rows@ =~= permute(orig, p@) + orig.skip(0));
    }
    while i < n
        invariant
            orig == old(rows)@,
            kv == key_views(keys@),
            leq == key_idx_leq(kv, ascending),
            i <= n,
            n == orig.len(),
            n == keys@.len(),
            rows@.len() == n,
            p@ == stable_sort(identity_seq(i as nat), leq),
            p@.len() == i,
            forall|k: int| 0 <= k < p@.len() ==> (#[trigger] p@[k]) < i,
            rows@ == permute(orig, p@) + orig.skip(i as int),
        decreases n - i,
    {
        let j = key_insert_pos(&p, keys, i, ascending);
        let ghost p0 = p@;
        proof {
            lemma_insert_stable_split(p@, i, leq, j as int);
            assert(identity_seq((i + 1) as nat).drop_last() =~= identity_seq(i as nat));
            assert(identity_seq((i + 1) as nat).last() == i);
        }
        p.insert(j, i);
        let x = rows.remove(i);
        rows.insert(j, x);
        i = i + 1;
        proof {
            let a = permute(orig, p0);
            assert(x == orig[i - 1]);
            assert(rows@ =~= a.insert(j as int, x) + orig.skip(i as int));
            assert(a.insert(j as int, x) =~= permute(orig, p@));
        }
    }
    proof {
        assert(orig.skip(n as int) =~= Seq::<T>::empty());
        assert(rows@ =~= permute(orig, p@));
    }
}

/// The sort key of each row for the field `field`, each computed once.
/// Fails with the row's own lookup error when some row has no key for the
/// field, in which case nothing is sorted.
fn extract_keys<T: TableData>(rows: &Vec<T>, field: &str) -> (r: Result<Vec<KeyValue>, Error>)
    ensures
        match r {
            Ok(keys) => all_keys_present(rows@, field@) && keys@.len() == rows@.len()
                && key_views(keys@) == field_keys(rows@, field@),
            Err(e) => !all_keys_present(rows@, field@) && (e matches Error::InvalidFieldName(f)
                && f@ == field@),
        },
{
    let mut keys: Vec<KeyValue> = Vec::new();
    let mut k: usize = 0;
    while k < rows.len()
        invariant
            k <= rows@.len(),
            keys@.len() == k,
            forall|k2: int| 0 <= k2 < k ==> (#[trigger] rows@[k2].field_value(field@)) is Some,
            forall|k2: int|
                0 <= k2 < k ==> (#[trigger] keys@[k2]@) == rows@[k2].field_value(field@)->Some_0,
        decreases rows@.len() - k,
    {
        match rows[k].get_field_as_value(field) {
            Ok(v) => {
                keys.push(v);
            },
            Err(e) => {
                return Err(e);
            },
        }
        k = k + 1;
    }
    proof {
        assert(key_views(keys@) =~= field_keys(rows@, field@));
    }
    Ok(keys)
}

/// One rendered header cell: display text, whether a click sorts the
/// column, the column's current order, the column's own header classes,
/// and the classes of the order marker.
pub struct HeaderCell {
    /// The display text: the column's short name when set, else its name.
    pub text: String,
    /// Whether a click on the cell toggles the column's sort order.
    pub orderable: bool,
    /// The column's current order, for a visual marker.
    pub order: TableOrder,
    /// The column's header style classes.
    pub header_classes: Vec<String>,
    /// The style classes of the order marker: the configured classes for
    /// every marker plus the one for the current order, on an orderable
    /// column when options are set; empty otherwise.
    pub marker_classes: Vec<String>,
}

/// The order marker classes of a header cell.
pub open spec fn spec_marker_classes(
    options: Option<TableOptions>,
    orderable: bool,
    order: TableOrder,
) -> Seq<String> {
    match options {
        None => Seq::empty(),
        Some(o) => if orderable {
            o.orderable_classes@ + match o.spec_class_for(order) {
                Some(c) => seq![c],
                None => Seq::<String>::empty(),
            }
        } else {
            Seq::empty()
        },
    }
}

/// The cells of one row, column by column: each column's field key
/// resolved through the row's display representation, fields without one
/// skipped.
pub open spec fn spec_row_cells<T: TableData>(row: T, cols: Seq<Column>) -> Seq<Seq<char>>
    decreases cols.len(),
{
    if cols.len() == 0 {
        Seq::empty()
    } else {
        let front = spec_row_cells(row, cols.drop_last());
        match row.field_html(cols.last().spec_field_key()) {
            Some(h) => front.push(h),
            None => front,
        }
    }
}

/// The rendered body: the cells of every row that matches the search,
/// in row order; rows that fail the filter are omitted from the view but
/// never removed from the row list.
pub open spec fn spec_body_rows<T: TableData>(
    rows: Seq<T>,
    cols: Seq<Column>,
    needle: Option<Seq<char>>,
) -> Seq<Seq<Seq<char>>>
    decreases rows.len(),
{
    if rows.len() == 0 {
        Seq::empty()
    } else {
        let front = spec_body_rows(rows.drop_last(), cols, needle);
        if rows.last().spec_matches(needle) {
            front.push(spec_row_cells(rows.last(), cols))
        } else {
            front
        }
    }
}

/// With no search active every row passes the filter: the rendered body
/// holds exactly one entry per row, in row order.
pub proof fn lemma_no_search_keeps_all<T: TableData>(rows: Seq<T>, cols: Seq<Column>)
    ensures
        spec_body_rows(rows, cols, None::<Seq<char>>).len() == rows.len(),
        forall|k: int|
            0 <= k < rows.len() ==> spec_body_rows(rows, cols, None::<Seq<char>>)[k]
                == spec_row_cells(#[trigger] rows[k], cols),
    decreases rows.len(),
{
    if rows.len() > 0 {
        rows.last().matches_none();
        lemma_no_search_keeps_all(rows.drop_last(), cols);
        assert forall|k: int|
            0 <= k < rows.len() implies spec_body_rows(rows, cols, None::<Seq<char>>)[k]
            == spec_row_cells(#[trigger] rows[k], cols) by {
            if k < rows.len() - 1 {
                assert(rows.drop_last()[k] == rows[k]);
            }
        }
    }
}

impl<T: TableData> Table<T> {
    /// The header cell of column `i`.
    pub fn header_cell(&self, i: usize) -> (r: HeaderCell)
        requires
            self.wf(),
            i < self.columns@.len(),
        ensures
            r.text@ == self.columns@[i as int].spec_display_name(),
            r.orderable == self.columns@[i as int].orderable,
            r.order == self.state.order@[i as int],
            r.header_classes@ == self.columns@[i as int].header_classes@,
            r.marker_classes@ == spec_marker_classes(self.options, r.orderable, r.order),
    {
        let col = &self.columns[i];
        let text = col.display_name().clone();
        let order = self.state.order[i];
        let header_classes = clone_strings(&col.header_classes);
        let marker_classes: Vec<String> = match &self.options {
            None => Vec::new(),
            Some(o) => {
                if col.orderable {
                    let mut m = clone_strings(&o.orderable_classes);
                    match o.class_for(order) {
                        Some(c) => {
                            m.push(c.clone());
                            proof {
                                assert(m@ =~= spec_marker_classes(self.options, true, order));
                            }
                        },
                        None => {
                            proof {
                                assert(m@ =~= spec_marker_classes(self.options, true, order));
                            }
                        },
                    }
                    m
                } else {
                    Vec::new()
                }
            },
        };
        HeaderCell { text, orderable: col.orderable, order, header_classes, marker_classes }
    }

    /// The header cells of all columns, in column order.
    pub fn header_cells(&self) -> (r: Vec<HeaderCell>)
        requires
            self.wf(),
        ensures
            r@.len() == self.columns@.len(),
            forall|i: int|
                0 <= i < r@.len() ==> {
                    let c = #[trigger] r@[i];
                    &&& c.text@ == self.columns@[i].spec_display_name()
                    &&& c.orderable == self.columns@[i].orderable
                    &&& c.order == self.state.order@[i]
                    &&& c.header_classes@ == self.columns@[i].header_classes@
                    &&& c.marker_classes@ == spec_marker_classes(self.options, c.orderable, c.order)
                },
    {
        let mut r: Vec<HeaderCell> = Vec::new();
        let mut i: usize = 0;
        while i < self.columns.len()
            invariant
                self.wf(),
                i <= self.columns@.len(),
                r@.len() == i,
                forall|k: int|
                    0 <= k < i ==> {
                        let c = #[trigger] r@[k];
                        &&& c.text@ == self.columns@[k].spec_display_name()
                        &&& c.orderable == self.columns@[k].orderable
                        &&& c.order == self.state.order@[k]
                        &&& c.header_classes@ == self.columns@[k].header_classes@
                        &&& c.marker_classes@ == spec_marker_classes(
                            self.options,
                            c.orderable,
                            c.order,
                        )
                    },
            decreases self.columns@.len() - i,
        {
            let cell = self.header_cell(i);
            r.push(cell);
            i = i + 1;
        }
        r
    }

    /// The cells of one row, column by column: each column's field key
    /// resolved through `get_field_as_html`, fields without a display
    /// representation skipped.
    pub fn row_cells(&self, row: &T) -> (r: Vec<String>)
        ensures
            r.deep_view() == spec_row_cells(*row, self.columns@),
    {
        let mut cells: Vec<String> = Vec::new();
        let mut j: usize = 0;
        proof {
            assert(self.columns@.take(0) =~= Seq::<Column>::empty());
            assert(cells.deep_view() =~= spec_row_cells(*row, self.columns@.take(0)));
        }
        while j < self.columns.len()
            invariant
                j <= self.columns@.len(),
                cells.deep_view() == spec_row_cells(*row, self.columns@.take(j as int)),
            decreases self.columns@.len() - j,
        {
            let ghost cells0 = cells.deep_view();
            let key = self.columns[j].field_key();
            match row.get_field_as_html(key.as_str()) {
                Ok(h) => {
                    let ghost hv = h@;
                    cells.push(h);
                    proof {
                        assert(cells.deep_view() =~= cells0.push(hv));
                    }
                },
                Err(_) => {},
            }
            j = j + 1;
            proof {
                assert(self.columns@.take(j as int).drop_last() =~= self.columns@.take(j - 1));
                assert(self.columns@.take(j as int).last() == self.columns@[j - 1]);
            }
        }
        proof {
            assert(self.columns@.take(self.columns@.len() as int) =~= self.columns@);
        }
        cells
    }

    /// The rendered body: the cells of every row that matches the search,
    /// in the rows' current order. Filtering is view-time only: the row
    /// list itself is untouched.
    pub fn body_rows(&self, search: &Option<String>) -> (r: Vec<Vec<String>>)
        ensures
            r.deep_view() == spec_body_rows(self.data@, self.columns@, needle_view(*search)),
    {
        let mut body: Vec<Vec<String>> = Vec::new();
        let mut k: usize = 0;
        proof {
            assert(self.data@.take(0) =~= Seq::<T>::empty());
            assert(body.deep_view() =~= spec_body_rows(
                self.data@.take(0),
                self.columns@,
                needle_view(*search),
            ));
        }
        while k < self.data.len()
            invariant
                k <= self.data@.len(),
                body.deep_view() == spec_body_rows(
                    self.data@.take(k as int),
                    self.columns@,
                    needle_view(*search),
                ),
            decreases self.data@.len() - k,
        {
            let ghost body0 = body.deep_view();
            let needle: Option<String> = match search {
                Some(s) => Some(s.clone()),
                None => None,
            };
            proof {
                assert(needle_view(needle) == needle_view(*search));
            }
            let row = &self.data[k];
            if row.matches_search(needle) {
                let cells = self.row_cells(row);
                let ghost cv = cells.deep_view();
                body.push(cells);
                proof {
                    assert(body.deep_view() =~= body0.push(cv));
                }
            }
            k = k + 1;
            proof {
                assert(self.data@.take(k as int).drop_last() =~= self.data@.take(k - 1));
                assert(self.data@.take(k as int).last() == self.data@[k - 1]);
            }
        }
        proof {
            assert(self.data@.take(self.data@.len() as int) =~= self.data@);
        }
        body
    }
}

/// Copy a list of strings exactly.
fn clone_strings(v: &Vec<String>) -> (r: Vec<String>)
    ensures
        r@ == v@,
{
    let mut r: Vec<String> = Vec::new();
    let mut j: usize = 0;
    while j < v.len()
        invariant
            j <= v@.len(),
            r@ =~= v@.take(j as int),
        decreases v@.len() - j,
    {
        r.push(v[j].clone());
        j = j + 1;
        proof {
            assert(r@ =~= v@.take(j as int));
        }
    }
    proof {
        assert(v@.take(v@.len() as int) =~= v@);
    }
    r
}

/// An all-Unordered order state of length `n`.
pub open spec fn all_unordered(n: nat) -> Seq<TableOrder> {
    Seq::new(n, |j: int| TableOrder::Unordered)
}

/// Build an all-Unordered order state of length `n`.
fn unordered_vec(n: usize) -> (r: Vec<TableOrder>)
    ensures
        r@ =~= all_unordered(n as nat),
{
    let mut r: Vec<TableOrder> = Vec::new();
    let mut j: usize = 0;
    while j < n
        invariant
            j <= n,
            r@ =~= all_unordered(j as nat),
        decreases n - j,
    {
        r.push(TableOrder::Unordered);
        j = j + 1;
        proof {
            assert(r@ =~= all_unordered(j as nat));
        }
    }
    r
}

} // verus!



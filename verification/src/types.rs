//! Column descriptors, the tri-state column order, and the table state.

use vstd::prelude::*;

verus! {

/// The sort order attached to one column.
///
/// Every column is in exactly one of these three states; a header click
/// rotates the clicked column through the cycle
/// Unordered -> Ascending -> Descending -> Unordered.
#[derive(Clone, Copy, PartialEq, Eq, Structural, Debug)]
pub enum TableOrder {
    Unordered,
    Ascending,
    Descending,
}

impl TableOrder {
    /// The successor of an order in the three-state cycle.
    pub open spec fn spec_rotate(self) -> TableOrder {
        match self {
            TableOrder::Unordered => TableOrder::Ascending,
            TableOrder::Ascending => TableOrder::Descending,
            TableOrder::Descending => TableOrder::Unordered,
        }
    }

    /// Rotate the column order one step through the cycle.
    #[verifier::when_used_as_spec(spec_rotate)]
    pub fn rotate(self) -> (r: Self)
        ensures
            r == self.spec_rotate(),
    {
        match self {
            TableOrder::Unordered => TableOrder::Ascending,
            TableOrder::Ascending => TableOrder::Descending,
            TableOrder::Descending => TableOrder::Unordered,
        }
    }
}

impl Default for TableOrder {
    /// A column starts out unordered.
    fn default() -> (r: Self)
        ensures
            r == TableOrder::Unordered,
    {
        TableOrder::Unordered
    }
}

/// Rotation is cyclic with period three: three clicks on the same column
/// bring its order back to where it started.
pub proof fn lemma_rotate_period_three(o: TableOrder)
    ensures
        o.spec_rotate().spec_rotate().spec_rotate() == o,
{
}

/// A table column descriptor.
///
/// Immutable once constructed; a caller replaces columns wholesale.
#[derive(Clone, Debug)]
pub struct Column {
    /// Column name, used for display when `short_name` is not set.
    pub name: String,
    /// A value displayed in the table header in place of `name`.
    pub short_name: Option<String>,
    /// The field key used to look rows' values up; defaults to `name`.
    pub data_property: Option<String>,
    /// Whether a header click may sort the table by this column.
    pub orderable: bool,
    /// Additional style classes for the column header.
    pub header_classes: Vec<String>,
}

impl Column {
    /// The header display text: the short name when one is set, otherwise
    /// the column name.
    pub open spec fn spec_display_name(self) -> Seq<char> {
        match self.short_name {
            Some(s) => s@,
            None => self.name@,
        }
    }

    /// The text shown in the header: the short name when one is set,
    /// otherwise the column name.
    pub fn display_name(&self) -> (r: &String)
        ensures
            r == match self.short_name {
                Some(s) => s,
                None => self.name,
            },
            r@ == self.spec_display_name(),
    {
        match &self.short_name {
            Some(s) => s,
            None => &self.name,
        }
    }

    /// The field key this column resolves rows through: `data_property`
    /// when set, otherwise the column name.
    pub open spec fn spec_field_key(self) -> Seq<char> {
        match self.data_property {
            Some(p) => p@,
            None => self.name@,
        }
    }

    /// The field key this column resolves rows through.
    pub fn field_key(&self) -> (r: &String)
        ensures
            r@ == self.spec_field_key(),
    {
        match &self.data_property {
            Some(p) => p,
            None => &self.name,
        }
    }
}

/// Builder for [`Column`].
///
/// The fields mirror the column under construction.
pub struct ColumnBuilder {
    /// Column name.
    pub name: String,
    /// Short display name of the column, if any.
    pub short_name: Option<String>,
    /// Field key the column resolves rows through, if any.
    pub data_property: Option<String>,
    /// Whether the column is orderable.
    pub orderable: bool,
    /// Header style classes gathered so far.
    pub header_classes: Vec<String>,
}

impl ColumnBuilder {
    /// Start a builder for a column of the given name; the column starts
    /// out non-orderable, without a short name, a data property or header
    /// classes.
    pub fn new(name: &str) -> (r: ColumnBuilder)
        ensures
            r.name@ == name@,
            r.short_name is None,
            r.data_property is None,
            !r.orderable,
            r.header_classes@.len() == 0,
    {
        ColumnBuilder {
            name: name.to_owned(),
            short_name: None,
            data_property: None,
            orderable: false,
            header_classes: Vec::new(),
        }
    }

    /// Build the column the builder describes.
    pub fn build(self) -> (r: Column)
        ensures
            r.name == self.name,
            r.short_name == self.short_name,
            r.data_property == self.data_property,
            r.orderable == self.orderable,
            r.header_classes == self.header_classes,
    {
        Column {
            name: self.name,
            short_name: self.short_name,
            data_property: self.data_property,
            orderable: self.orderable,
            header_classes: self.header_classes,
        }
    }

    /// Set whether the column is orderable.
    pub fn orderable(self, orderable: bool) -> (r: ColumnBuilder)
        ensures
            r.orderable == orderable,
            r.name == self.name,
            r.short_name == self.short_name,
            r.data_property == self.data_property,
            r.header_classes == self.header_classes,
    {
        ColumnBuilder { orderable, ..self }
    }

    /// Set the field key the column resolves rows through.
    pub fn data_property(self, data_property: &str) -> (r: ColumnBuilder)
        ensures
            r.data_property matches Some(p) && p@ == data_property@,
            r.name == self.name,
            r.short_name == self.short_name,
            r.orderable == self.orderable,
            r.header_classes == self.header_classes,
    {
        ColumnBuilder { data_property: Some(data_property.to_owned()), ..self }
    }

    /// Set the short display name of the column.
    pub fn short_name(self, short_name: &str) -> (r: ColumnBuilder)
        ensures
            r.short_name matches Some(s) && s@ == short_name@,
            r.name == self.name,
            r.data_property == self.data_property,
            r.orderable == self.orderable,
            r.header_classes == self.header_classes,
    {
        ColumnBuilder { short_name: Some(short_name.to_owned()), ..self }
    }

    /// Add one header style class.
    pub fn header_class(self, class: &str) -> (r: ColumnBuilder)
        ensures
            r.header_classes@.len() == self.header_classes@.len() + 1,
            forall|i: int|
                0 <= i < self.header_classes@.len() ==> r.header_classes@[i]
                    == self.header_classes@[i],
            r.header_classes@.last()@ == class@,
            r.name == self.name,
            r.short_name == self.short_name,
            r.data_property == self.data_property,
            r.orderable == self.orderable,
    {
        let mut header_classes = self.header_classes;
        header_classes.push(class.to_owned());
        ColumnBuilder { header_classes, ..self }
    }
}

/// The per-column order state of a table: one [`TableOrder`] per column,
/// index-aligned with the column list.
pub struct TableState {
    /// The order of each column.
    pub order: Vec<TableOrder>,
}

/// Styling and behaviour options for a table.
pub struct TableOptions {
    /// Style class for the order marker of an unordered column.
    pub unordered_class: Option<String>,
    /// Style class for the order marker of an ascending column.
    pub ascending_class: Option<String>,
    /// Style class for the order marker of a descending column.
    pub descending_class: Option<String>,
    /// Additional style classes for every order marker.
    pub orderable_classes: Vec<String>,
    /// Whether ordering is enabled for the table as a whole.
    pub orderable: bool,
}

impl TableOptions {
    /// The marker class configured for the given order, if any.
    pub open spec fn spec_class_for(self, order: TableOrder) -> Option<String> {
        match order {
            TableOrder::Unordered => self.unordered_class,
            TableOrder::Ascending => self.ascending_class,
            TableOrder::Descending => self.descending_class,
        }
    }

    /// The marker class configured for the given order, if any.
    pub fn class_for(&self, order: TableOrder) -> (r: &Option<String>)
        ensures
            r == self.spec_class_for(order),
    {
        match order {
            TableOrder::Unordered => &self.unordered_class,
            TableOrder::Ascending => &self.ascending_class,
            TableOrder::Descending => &self.descending_class,
        }
    }
}

impl Default for TableOptions {
    /// No marker classes, and ordering disabled for the table as a whole.
    fn default() -> (r: Self)
        ensures
            r.unordered_class is None,
            r.ascending_class is None,
            r.descending_class is None,
            r.orderable_classes@.len() == 0,
            !r.orderable,
    {
        TableOptions {
            unordered_class: None,
            ascending_class: None,
            descending_class: None,
            orderable_classes: Vec::new(),
            orderable: false,
        }
    }
}

} // verus!

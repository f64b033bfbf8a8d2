//! Rows as they leave the parser: the ordered cell values of a record, and the same
//! record with its cells filed under column labels.

use vstd::prelude::*;

use crate::text::{decimal_text, digit_char, lemma_decimal_text_injective, lemma_decimal_text_shape};

verus! {

/// The views of a sequence of strings.
pub open spec fn texts(strings: Seq<String>) -> Seq<Seq<char>> {
    Seq::new(strings.len(), |i: int| strings[i]@)
}

/// A labeled row as a value: its entries, label first, in the order in which the
/// labels first came up.
pub type Entries = Seq<(Seq<char>, Seq<char>)>;

/// The position of the first entry with this label.
pub open spec fn label_index(entries: Entries, label: Seq<char>) -> Option<int>
    decreases entries.len(),
{
    if entries.len() == 0 {
        None
    } else {
        match label_index(entries.drop_last(), label) {
            Some(i) => Some(i),
            None => if entries.last().0 == label {
                Some(entries.len() - 1)
            } else {
                None
            },
        }
    }
}

/// The value filed under a label, if the label occurs.
pub open spec fn lookup(entries: Entries, label: Seq<char>) -> Option<Seq<char>> {
    match label_index(entries, label) {
        Some(i) => Some(entries[i].1),
        None => None,
    }
}

/// Files a value under a label: a label already present keeps its place and takes
/// the new value, a new label goes to the end.
pub open spec fn row_insert(entries: Entries, label: Seq<char>, value: Seq<char>) -> Entries {
    match label_index(entries, label) {
        Some(i) => entries.update(i, (label, value)),
        None => entries.push((label, value)),
    }
}

/// No label occurs twice.
pub open spec fn distinct_labels(entries: Entries) -> bool {
    forall|i: int, j: int|
        0 <= i < j < entries.len() ==> (#[trigger] entries[i]).0 != (#[trigger] entries[j]).0
}

/// The label under which the cell at position `i` is filed, `None` if the cell is
/// dropped. Within the header list an empty label and the label `_` drop the cell;
/// past its end the label is `_` followed by the position in decimal.
pub open spec fn label_for(headers: Seq<Seq<char>>, i: int) -> Option<Seq<char>> {
    if 0 <= i < headers.len() {
        if headers[i].len() == 0 || headers[i] == seq!['_'] {
            None
        } else {
            Some(headers[i])
        }
    } else {
        Some(seq!['_'] + decimal_text(i as nat))
    }
}

/// The row built from the first `n` cells.
pub open spec fn assemble_prefix(headers: Seq<Seq<char>>, cells: Seq<Seq<char>>, n: int) -> Entries
    decreases n,
{
    if n <= 0 {
        Seq::empty()
    } else {
        let before = assemble_prefix(headers, cells, n - 1);
        match label_for(headers, n - 1) {
            None => before,
            Some(label) => row_insert(before, label, cells[n - 1]),
        }
    }
}

/// The labeled row of a cell list: cells are filed in order, so of two cells with
/// one label the later one decides the value.
pub open spec fn assemble(headers: Seq<Seq<char>>, cells: Seq<Seq<char>>) -> Entries {
    assemble_prefix(headers, cells, cells.len() as int)
}

/// The labels `0`, `1`, ... for `n` columns.
pub open spec fn numeric_labels(n: nat) -> Seq<Seq<char>> {
    Seq::new(n, |i: int| decimal_text(i as nat))
}

/// `label_index` finds an index at which the label stands, and no earlier one.
pub proof fn lemma_label_index(entries: Entries, label: Seq<char>)
    ensures
        match label_index(entries, label) {
            Some(i) => {
                &&& 0 <= i < entries.len()
                &&& entries[i].0 == label
                &&& forall|k: int| 0 <= k < i ==> (#[trigger] entries[k]).0 != label
            },
            None => forall|k: int| 0 <= k < entries.len() ==> (#[trigger] entries[k]).0 != label,
        },
    decreases entries.len(),
{
    if entries.len() > 0 {
        lemma_label_index(entries.drop_last(), label);
        assert(forall|k: int| 0 <= k < entries.len() - 1 ==> entries.drop_last()[k] == entries[k]);
    }
}

/// Filing a value keeps the labels distinct.
pub proof fn lemma_row_insert_distinct(entries: Entries, label: Seq<char>, value: Seq<char>)
    requires
        distinct_labels(entries),
    ensures
        distinct_labels(row_insert(entries, label, value)),
{
    lemma_label_index(entries, label);
}

/// After filing a value, the label that was filed has that value, and every other
/// label has what it had.
pub proof fn lemma_lookup_after_insert(
    entries: Entries,
    label: Seq<char>,
    value: Seq<char>,
    other: Seq<char>,
)
    ensures
        lookup(row_insert(entries, label, value), other) == if other == label {
            Some(value)
        } else {
            lookup(entries, other)
        },
{
    let after = row_insert(entries, label, value);
    lemma_label_index(entries, label);
    lemma_label_index(entries, other);
    lemma_label_index(after, other);
    if let Some(j) = label_index(entries, other) {
        // The entry that held `other` before still stands at its place.
        if label_index(entries, label) is Some {
            assert(after[j].0 == entries[j].0);
        } else {
            assert(after[j] == entries[j]);
        }
    }
}

/// Every one of the first `n` cells is kept, and no two of them share a label.
pub open spec fn labels_are_faithful(headers: Seq<Seq<char>>, n: int) -> bool {
    &&& forall|i: int| 0 <= i < n ==> (#[trigger] label_for(headers, i)) is Some
    &&& forall|i: int, j: int|
        0 <= i < j < n ==> (#[trigger] label_for(headers, i)) != (#[trigger] label_for(headers, j))
}

/// The first `n` cells, each under its own label, in order.
pub open spec fn listed(headers: Seq<Seq<char>>, cells: Seq<Seq<char>>, n: int) -> Entries {
    Seq::new(n as nat, |i: int| (label_for(headers, i).unwrap(), cells[i]))
}

/// Under faithful labels a row lists its cells one by one, in order.
pub proof fn lemma_assemble_faithful(headers: Seq<Seq<char>>, cells: Seq<Seq<char>>, n: int)
    requires
        0 <= n,
        labels_are_faithful(headers, n),
    ensures
        assemble_prefix(headers, cells, n) == listed(headers, cells, n),
    decreases n,
{
    if n > 0 {
        lemma_assemble_faithful(headers, cells, n - 1);
        let before = assemble_prefix(headers, cells, n - 1);
        let label = label_for(headers, n - 1).unwrap();
        lemma_label_index(before, label);
    }
}

/// Numbered columns are faithful: the cell at position `i` goes under the decimal
/// numeral of `i`.
pub proof fn lemma_numeric_labels_faithful(m: nat)
    ensures
        labels_are_faithful(numeric_labels(m), m as int),
        forall|i: int|
            0 <= i < m ==> (#[trigger] label_for(numeric_labels(m), i)) == Some(
                decimal_text(i as nat),
            ),
{
    let labels = numeric_labels(m);
    assert forall|i: int| 0 <= i < m implies (#[trigger] label_for(labels, i)) == Some(
        decimal_text(i as nat),
    ) by {
        lemma_decimal_text_shape(i as nat);
    }
    assert forall|i: int, j: int| 0 <= i < j < m implies (#[trigger] label_for(labels, i)) != (
    #[trigger] label_for(labels, j)) by {
        if decimal_text(i as nat) == decimal_text(j as nat) {
            lemma_decimal_text_injective(i as nat, j as nat);
        }
    }
}

/// The ordered cell values of one record.
pub struct ParsedRow {
    pub values: Vec<String>,
}

impl View for ParsedRow {
    type V = Seq<Seq<char>>;

    open spec fn view(&self) -> Seq<Seq<char>> {
        texts(self.values@)
    }
}

/// One record with its cells filed under column labels. The entries keep the order
/// in which their labels first came up, and no label occurs twice in a row that the
/// parser built.
#[derive(Debug)]
pub struct LabeledRow {
    entries: Vec<(String, String)>,
}

impl View for LabeledRow {
    type V = Entries;

    closed spec fn view(&self) -> Entries {
        Seq::new(self.entries@.len(), |i: int| (self.entries@[i].0@, self.entries@[i].1@))
    }
}

impl LabeledRow {
    /// A row without entries.
    pub fn new() -> (row: LabeledRow)
        ensures
            row@ == Seq::<(Seq<char>, Seq<char>)>::empty(),
    {
        LabeledRow { entries: Vec::new() }
    }

    /// The number of entries.
    pub fn len(&self) -> (n: usize)
        ensures
            n == self@.len(),
    {
        self.entries.len()
    }

    /// The label of the entry at position `i`.
    pub fn label(&self, i: usize) -> (label: &String)
        requires
            i < self@.len(),
        ensures
            label@ == self@[i as int].0,
    {
        &self.entries[i].0
    }

    /// The value of the entry at position `i`.
    pub fn value(&self, i: usize) -> (value: &String)
        requires
            i < self@.len(),
        ensures
            value@ == self@[i as int].1,
    {
        &self.entries[i].1
    }

    /// The value filed under `label`, if the row has that label.
    pub fn get(&self, label: &String) -> (value: Option<&String>)
        ensures
            match value {
                Some(v) => lookup(self@, label@) == Some(v@),
                None => lookup(self@, label@) is None,
            },
    {
        let mut j: usize = 0;
        while j < self.entries.len()
            invariant
                j <= self.entries@.len(),
                forall|k: int| 0 <= k < j ==> (#[trigger] self@[k]).0 != label@,
            decreases self.entries@.len() - j,
        {
            if self.entries[j].0 == *label {
                proof {
                    lemma_label_index(self@, label@);
                    assert(self@[j as int].0 == label@);
                }
                return Some(&self.entries[j].1);
            }
            j += 1;
        }
        proof {
            lemma_label_index(self@, label@);
        }
        None
    }

    /// Files `value` under `label`: a label already present keeps its place and
    /// takes the new value, a new label goes to the end.
    pub fn insert(&mut self, label: String, value: String)
        ensures
            final(self)@ == row_insert(old(self)@, label@, value@),
    {
        let mut j: usize = 0;
        while j < self.entries.len()
            invariant
                j <= self.entries@.len(),
                *self == *old(self),
                forall|k: int| 0 <= k < j ==> (#[trigger] self@[k]).0 != label@,
            decreases self.entries@.len() - j,
        {
            if self.entries[j].0 == label {
                proof {
                    lemma_label_index(self@, label@);
                    assert(self@[j as int].0 == label@);
                }
                self.entries[j] = (label, value);
                return;
            }
            j += 1;
        }
        proof {
            lemma_label_index(self@, label@);
        }
        self.entries.push((label, value));
    }
}

} // verus!

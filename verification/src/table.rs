//! Tables of texts, as they are built before they are drawn: a header and
//! rows of cells, each cell with its text, its alignment and its tone.

use vstd::prelude::*;
use vstd::string::*;
use crate::display::{Tone, tone, tone_of};
use crate::double::Double;

verus! {

/// Where the text of a cell stands in its column.
#[derive(Clone, Copy, Debug, PartialEq, Eq, Structural)]
pub enum CellAlignment {
    Left,
    Right,
    Center,
}

/// One cell of a table.
#[derive(Debug)]
pub struct Cell {
    pub content: String,
    /// none where the cell stands as its column does
    pub alignment: Option<CellAlignment>,
    /// none where the cell is shown without colour
    pub tone: Option<Tone>,
}

/// A `Cell` as contracts see it.
pub ghost struct CellView {
    pub content: Seq<char>,
    pub alignment: Option<CellAlignment>,
    pub tone: Option<Tone>,
}

impl View for Cell {
    type V = CellView;

    open spec fn view(&self) -> CellView {
        CellView { content: self.content@, alignment: self.alignment, tone: self.tone }
    }
}

/// A table: the cells of its header, and the cells of each of its rows.
#[derive(Debug)]
pub struct Table {
    pub header: Vec<Cell>,
    pub rows: Vec<Vec<Cell>>,
}

/// A `Table` as contracts see it.
pub ghost struct TableView {
    pub header: Seq<CellView>,
    pub rows: Seq<Seq<CellView>>,
}

/// The cells of a row as contracts see them.
pub open spec fn row_view(row: Vec<Cell>) -> Seq<CellView> {
    row@.map_values(|cell: Cell| cell@)
}

impl View for Table {
    type V = TableView;

    open spec fn view(&self) -> TableView {
        TableView {
            header: row_view(self.header),
            rows: self.rows@.map_values(|row: Vec<Cell>| row_view(row)),
        }
    }
}

/// The cell that holds a text and nothing else.
pub open spec fn plain(content: Seq<char>) -> CellView {
    CellView { content, alignment: None, tone: None }
}

/// The cell that holds a text with an alignment.
pub open spec fn aligned(content: Seq<char>, alignment: CellAlignment) -> CellView {
    CellView { content, alignment: Some(alignment), tone: None }
}

/// The header of a table from its titles: one plain cell for each.
pub open spec fn titles(headers: Seq<&str>) -> Seq<CellView> {
    Seq::new(headers.len(), |i: int| plain(headers[i]@))
}

/// A row from texts and alignments: one aligned cell for each.
pub open spec fn aligned_row(cols: Seq<(&str, CellAlignment)>) -> Seq<CellView> {
    Seq::new(cols.len(), |i: int| aligned(cols[i].0@, cols[i].1))
}

/// A row from owned texts and alignments: one aligned cell for each.
pub open spec fn aligned_text_row(cols: Seq<(String, CellAlignment)>) -> Seq<CellView> {
    Seq::new(cols.len(), |i: int| aligned(cols[i].0@, cols[i].1))
}

/// The rows of a summary: for each item its label and its value, in two
/// plain cells.
pub open spec fn summary_rows(items: Seq<(&str, String)>) -> Seq<Seq<CellView>> {
    Seq::new(items.len(), |i: int| seq![plain(items[i].0@), plain(items[i].1@)])
}

/// A cell that holds a text and nothing else.
pub fn plain_cell(content: &str) -> (cell: Cell)
    ensures
        cell@ == plain(content@),
{
    Cell { content: String::from_str(content), alignment: None, tone: None }
}

/// A table with the given headers and no rows.
pub fn create_table(headers: Vec<&str>) -> (table: Table)
    ensures
        table@.header == titles(headers@),
        table@.rows == Seq::<Seq<CellView>>::empty(),
{
    let mut header: Vec<Cell> = Vec::new();
    let mut i: usize = 0;
    while i < headers.len()
        invariant
            0 <= i <= headers@.len(),
            header@.len() == i,
            forall|k: int| 0 <= k < i ==> (#[trigger] header@[k])@ == plain(headers@[k]@),
        decreases headers@.len() - i,
    {
        header.push(plain_cell(headers[i]));
        i += 1;
    }
    let table = Table { header, rows: Vec::new() };
    table
}

/// Adds a row of texts, each with its alignment.
pub fn add_row(table: &mut Table, cols: &[(&str, CellAlignment)])
    ensures
        final(table)@.header == old(table)@.header,
        final(table)@.rows == old(table)@.rows.push(aligned_row(cols@)),
{
    let mut cells: Vec<Cell> = Vec::new();
    let mut i: usize = 0;
    while i < cols.len()
        invariant
            0 <= i <= cols@.len(),
            cells@.len() == i,
            forall|k: int|
                0 <= k < i ==> (#[trigger] cells@[k])@ == aligned(cols@[k].0@, cols@[k].1),
        decreases cols@.len() - i,
    {
        let (text, alignment) = cols[i];
        cells.push(
            Cell { content: String::from_str(text), alignment: Some(alignment), tone: None },
        );
        i += 1;
    }
    assert(row_view(cells) =~= aligned_row(cols@));
    table.rows.push(cells);
}

/// Adds a row of owned texts, each with its alignment.
pub fn add_row_string(table: &mut Table, cols: &[(String, CellAlignment)])
    ensures
        final(table)@.header == old(table)@.header,
        final(table)@.rows == old(table)@.rows.push(aligned_text_row(cols@)),
{
    let mut cells: Vec<Cell> = Vec::new();
    let mut i: usize = 0;
    while i < cols.len()
        invariant
            0 <= i <= cols@.len(),
            cells@.len() == i,
            forall|k: int|
                0 <= k < i ==> (#[trigger] cells@[k])@ == aligned(cols@[k].0@, cols@[k].1),
        decreases cols@.len() - i,
    {
        cells.push(
            Cell { content: cols[i].0.clone(), alignment: Some(cols[i].1), tone: None },
        );
        i += 1;
    }
    assert(row_view(cells) =~= aligned_text_row(cols@));
    table.rows.push(cells);
}

/// The table of a summary: the title and `Value` as its headers, and one
/// row of label and value for each item.
pub fn create_summary_table(title: &str, items: Vec<(&str, String)>) -> (table: Table)
    ensures
        table@.header == seq![plain(title@), plain("Value"@)],
        table@.rows == summary_rows(items@),
{
    let mut header: Vec<Cell> = Vec::new();
    header.push(plain_cell(title));
    header.push(plain_cell("Value"));
    let mut rows: Vec<Vec<Cell>> = Vec::new();
    let mut i: usize = 0;
    while i < items.len()
        invariant
            0 <= i <= items@.len(),
            rows@.len() == i,
            forall|k: int|
                0 <= k < i ==> row_view(#[trigger] rows@[k]) == seq![
                    plain(items@[k].0@),
                    plain(items@[k].1@),
                ],
        decreases items@.len() - i,
    {
        let mut row: Vec<Cell> = Vec::new();
        row.push(plain_cell(items[i].0));
        row.push(plain_cell(items[i].1.as_str()));
        rows.push(row);
        i += 1;
    }
    let table = Table { header, rows };
    table
}

/// A cell in the tone of a figure: gain above zero, loss below, else flat.
pub fn create_colored_cell(value: &str, numeric_value: Double) -> (cell: Cell)
    ensures
        cell@ == (CellView { content: value@, alignment: None, tone: Some(tone(numeric_value)) }),
{
    Cell { content: String::from_str(value), alignment: None, tone: Some(tone_of(numeric_value)) }
}

} // verus!

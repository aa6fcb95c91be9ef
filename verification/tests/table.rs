use hearth_text::document::{ParsedHtmlTableCell, ParsedHtmlTableRow};
use hearth_text::renderer::{CellAlign, ParsedTextBlock, TextBlockKind};
use hearth_text::table::{html_table_column_count, MAX_TABLE_COLUMNS};

fn cell(col_span: usize, row_span: usize) -> ParsedHtmlTableCell {
    ParsedHtmlTableCell {
        content: ParsedTextBlock {
            kind: TextBlockKind::Paragraph,
            source: 0..0,
            segments: Vec::new(),
            links: Vec::new(),
            images: Vec::new(),
        },
        col_span,
        row_span,
        is_header: false,
        alignment: CellAlign::Left,
    }
}

fn row(cells: Vec<ParsedHtmlTableCell>) -> ParsedHtmlTableRow {
    ParsedHtmlTableRow { cells }
}

#[test]
fn table_column_count_accounts_for_rowspan_occupancy() {
    let rows = vec![row(vec![cell(1, 2), cell(1, 1)]), row(vec![cell(1, 1), cell(1, 1)])];
    assert_eq!(html_table_column_count(&rows), 3);
}

#[test]
fn column_spans_widen_the_table_and_zero_spans_count_as_one() {
    let rows = vec![row(vec![cell(2, 1), cell(0, 0)]), row(vec![cell(1, 1)])];
    assert_eq!(html_table_column_count(&rows), 3);
    assert_eq!(html_table_column_count(&Vec::new()), 0);
}

#[test]
fn row_spans_are_clamped_to_the_table() {
    let rows = vec![row(vec![cell(1, 9)]), row(vec![cell(1, 1)])];
    assert_eq!(html_table_column_count(&rows), 2);
}

#[test]
fn column_count_is_capped() {
    let rows = vec![row(vec![cell(600, 1), cell(600, 1), cell(1, 1)])];
    assert_eq!(html_table_column_count(&rows), MAX_TABLE_COLUMNS);
}

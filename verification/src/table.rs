use vstd::prelude::*;
use crate::code_block::{border_style, spans_view};
use crate::events::CellAlignment;
use crate::markdown::MarkdownRenderer;
use crate::style::{
    Color, Line, LineView, Modifier, Span, SpanView, TextStyle, lemma_spans_text_concat,
    lemma_spans_text_single, lemma_spans_width_concat, lines_view, plain_style, push_char,
    repeat_view, spaces, spaces_view, spans_text, spans_width,
};

verus! {

/// The view of a row of cells.
pub open spec fn cells_view(cells: Seq<String>) -> Seq<Seq<char>> {
    cells.map_values(|s: String| s@)
}

/// The view of table body rows.
pub open spec fn rows_view(rows: Seq<Vec<String>>) -> Seq<Seq<Seq<char>>> {
    rows.map_values(|r: Vec<String>| cells_view(r@))
}

/// The text of cell `i` of a row, empty where the row has no such cell.
pub open spec fn cell_text(cells: Seq<Seq<char>>, i: int) -> Seq<char> {
    if 0 <= i < cells.len() {
        cells[i]
    } else {
        Seq::empty()
    }
}

pub open spec fn nat_max(a: nat, b: nat) -> nat {
    if a >= b {
        a
    } else {
        b
    }
}

/// The widest cell `i` of the body rows (0 without rows).
pub open spec fn column_body_width(rows: Seq<Seq<Seq<char>>>, i: int) -> nat
    decreases rows.len(),
{
    if rows.len() == 0 {
        0
    } else {
        nat_max(column_body_width(rows.drop_last(), i), cell_text(rows.last(), i).len())
    }
}

/// The width of column `i`: its widest cell, header included, and at least 1.
pub open spec fn column_width(header: Seq<Seq<char>>, rows: Seq<Seq<Seq<char>>>, i: int) -> nat {
    nat_max(nat_max(cell_text(header, i).len(), column_body_width(rows, i)), 1)
}

/// A border line: `left`, then for each column `fill` repeated width + 2 times, the columns
/// separated by `mid`, then `right`.
pub open spec fn border_body(widths: Seq<nat>, mid: char, fill: char) -> Seq<char>
    decreases widths.len(),
{
    if widths.len() == 0 {
        Seq::empty()
    } else {
        let prev = border_body(widths.drop_last(), mid, fill);
        let sep = if widths.len() > 1 { seq![mid] } else { Seq::empty() };
        prev + sep + repeat_view(fill, (widths.last() + 2) as nat)
    }
}

pub open spec fn border_text(widths: Seq<nat>, left: char, mid: char, right: char, fill: char) -> Seq<char> {
    seq![left] + border_body(widths, mid, fill) + seq![right]
}

/// The padding left and right of a cell of `len` characters in a column of width `w`.
pub open spec fn cell_padding(len: nat, w: nat, a: CellAlignment) -> (nat, nat) {
    let p: nat = if len <= w { (w - len) as nat } else { 0 };
    match a {
        CellAlignment::Right => (p, 0),
        CellAlignment::Center => (p / 2, (p - p / 2) as nat),
        _ => (0, p),
    }
}

/// The alignment of column `i`; unaligned where none is given.
pub open spec fn alignment_at(aligns: Seq<CellAlignment>, i: int) -> CellAlignment {
    if 0 <= i < aligns.len() {
        aligns[i]
    } else {
        CellAlignment::Unaligned
    }
}

/// The spans of one cell: a space, left padding, the content, right padding, a space, `"│"`.
pub open spec fn cell_spans(content: Seq<char>, w: nat, a: CellAlignment, cell_style: TextStyle, bs: TextStyle) -> LineView {
    let (lp, rp) = cell_padding(content.len(), w, a);
    let left = if lp > 0 { seq![(spaces_view(lp), plain_style())] } else { Seq::empty() };
    let right = if rp > 0 { seq![(spaces_view(rp), plain_style())] } else { Seq::empty() };
    seq![(seq![' '], bs)] + left + seq![(content, cell_style)] + right + seq![(seq![' '], bs), (seq!['│'], bs)]
}

/// The characters of spans with no span is nothing; of one padding span, its spaces.
proof fn lemma_padding_text(n: nat)
    ensures
        spans_text(if n > 0 { seq![(spaces_view(n), plain_style())] } else { Seq::<SpanView>::empty() })
            == spaces_view(n),
{
    if n > 0 {
        lemma_spans_text_single((spaces_view(n), plain_style()));
    } else {
        assert(spaces_view(0) =~= Seq::<char>::empty());
    }
}

/// Law: a cell that fits its column shows, between a space and `" │"`, its content padded to
/// the column's width: the padding after the content in a left-aligned column and in one with
/// no alignment marker, before it in a right-aligned column, and split around it (the smaller
/// half first) in a centered one.
pub proof fn lemma_cell_text_by_alignment(
    content: Seq<char>,
    w: nat,
    a: CellAlignment,
    cell_style: TextStyle,
    bs: TextStyle,
)
    requires
        content.len() <= w,
    ensures
        ({
            let text = spans_text(cell_spans(content, w, a, cell_style, bs));
            let p = (w - content.len()) as nat;
            &&& (a == CellAlignment::Left || a == CellAlignment::Unaligned) ==> text == seq![' ']
                + content + spaces_view(p) + seq![' ', '│']
            &&& a == CellAlignment::Right ==> text == seq![' '] + spaces_view(p) + content + seq![' ', '│']
            &&& a == CellAlignment::Center ==> text == seq![' '] + spaces_view(p / 2) + content
                + spaces_view((p - p / 2) as nat) + seq![' ', '│']
        }),
{
    let (lp, rp) = cell_padding(content.len(), w, a);
    let left = if lp > 0 { seq![(spaces_view(lp), plain_style())] } else { Seq::<SpanView>::empty() };
    let right = if rp > 0 { seq![(spaces_view(rp), plain_style())] } else { Seq::<SpanView>::empty() };
    let first = seq![(seq![' '], bs)];
    let mid = seq![(content, cell_style)];
    let last = seq![(seq![' '], bs), (seq!['│'], bs)];
    assert(cell_spans(content, w, a, cell_style, bs) == first + left + mid + right + last);
    lemma_spans_text_concat(first + left + mid + right, last);
    lemma_spans_text_concat(first + left + mid, right);
    lemma_spans_text_concat(first + left, mid);
    lemma_spans_text_concat(first, left);
    lemma_spans_text_single(first[0]);
    lemma_spans_text_single(mid[0]);
    lemma_padding_text(lp);
    lemma_padding_text(rp);
    assert(last =~= seq![last[0]] + seq![last[1]]);
    lemma_spans_text_concat(seq![last[0]], seq![last[1]]);
    lemma_spans_text_single(last[0]);
    lemma_spans_text_single(last[1]);
    assert(spans_text(last) =~= seq![' ', '│']);
    assert(spaces_view(0) =~= Seq::<char>::empty());
    let p = (w - content.len()) as nat;
    let text = spans_text(cell_spans(content, w, a, cell_style, bs));
    assert(text == seq![' '] + spaces_view(lp) + content + spaces_view(rp) + seq![' ', '│']);
    if a == CellAlignment::Left || a == CellAlignment::Unaligned {
        assert(text =~= seq![' '] + content + spaces_view(p) + seq![' ', '│']);
    } else if a == CellAlignment::Right {
        assert(text =~= seq![' '] + spaces_view(p) + content + seq![' ', '│']);
    }
}

/// The spans of a table row: `"│"`, then the spans of each column's cell.
pub open spec fn data_line_spans(
    cells: Seq<Seq<char>>,
    widths: Seq<nat>,
    aligns: Seq<CellAlignment>,
    cell_style: TextStyle,
    bs: TextStyle,
) -> LineView
    decreases widths.len(),
{
    if widths.len() == 0 {
        seq![(seq!['│'], bs)]
    } else {
        let i = widths.len() - 1;
        data_line_spans(cells, widths.drop_last(), aligns, cell_style, bs) + cell_spans(
            cell_text(cells, i),
            widths[i],
            alignment_at(aligns, i),
            cell_style,
            bs,
        )
    }
}

/// The style of header cells.
pub open spec fn header_style() -> TextStyle {
    TextStyle { fg: Some(Color::Cyan), bold: true, ..plain_style() }
}

/// The rendered lines of body rows.
pub open spec fn body_lines(rows: Seq<Seq<Seq<char>>>, widths: Seq<nat>, aligns: Seq<CellAlignment>) -> Seq<LineView> {
    rows.map_values(|r: Seq<Seq<char>>| data_line_spans(r, widths, aligns, plain_style(), border_style()))
}

/// The column widths of a table.
pub open spec fn column_widths_of(header: Seq<Seq<char>>, rows: Seq<Seq<Seq<char>>>) -> Seq<nat> {
    Seq::new(header.len(), |i: int| column_width(header, rows, i))
}

/// Widths as the specification counts them.
pub open spec fn widths_view(widths: Seq<usize>) -> Seq<nat> {
    widths.map_values(|w: usize| w as nat)
}

/// The lines of a rendered table: top border, header row, separator, body rows, bottom
/// border; no line for a table without columns.
pub open spec fn table_lines(
    header: Seq<Seq<char>>,
    rows: Seq<Seq<Seq<char>>>,
    aligns: Seq<CellAlignment>,
) -> Seq<LineView> {
    let widths = column_widths_of(header, rows);
    if header.len() == 0 {
        Seq::empty()
    } else {
        seq![
            seq![(border_text(widths, '┌', '┬', '┐', '─'), border_style())],
            data_line_spans(header, widths, aligns, header_style(), border_style()),
            seq![(border_text(widths, '├', '┼', '┤', '─'), border_style())],
        ] + body_lines(rows, widths, aligns) + seq![
            seq![(border_text(widths, '└', '┴', '┘', '─'), border_style())],
        ]
    }
}

impl MarkdownRenderer {
    /// Renders a table with box borders; each column is as wide as its widest cell.
    pub fn render_table(&self, header: &[String], rows: &[Vec<String>], alignments: &[CellAlignment]) -> (lines: Vec<Line>)
        ensures
            lines_view(lines@) == table_lines(cells_view(header@), rows_view(rows@), alignments@),
    {
        let ghost hv = cells_view(header@);
        let ghost rv = rows_view(rows@);
        let col_count = header.len();
        if col_count == 0 {
            let lines: Vec<Line> = Vec::new();
            assert(lines_view(lines@) =~= table_lines(hv, rv, alignments@));
            return lines;
        }
        let col_widths = column_widths(header, rows);
        let border = TextStyle::default().fg(Color::DarkGray);
        let head_style = TextStyle::default().fg(Color::Cyan).add_modifier(Modifier::Bold);
        let top_border = Self::table_border_line(&col_widths, '┌', '┬', '┐', '─', border);
        let head_sep = Self::table_border_line(&col_widths, '├', '┼', '┤', '─', border);
        let bot_border = Self::table_border_line(&col_widths, '└', '┴', '┘', '─', border);
        let ghost wv = widths_view(col_widths@);
        assert(wv =~= column_widths_of(hv, rv));
        let mut lines: Vec<Line> = Vec::new();
        lines.push(top_border);
        lines.push(Self::table_data_line(header, &col_widths, alignments, head_style, border));
        lines.push(head_sep);
        let ghost head_lines = lines_view(lines@);
        assert(head_lines =~= seq![
            seq![(border_text(wv, '┌', '┬', '┐', '─'), border_style())],
            data_line_spans(hv, wv, alignments@, header_style(), border_style()),
            seq![(border_text(wv, '├', '┼', '┤', '─'), border_style())],
        ]);
        let mut r: usize = 0;
        while r < rows.len()
            invariant
                0 <= r <= rows.len(),
                rv == rows_view(rows@),
                wv == widths_view(col_widths@),
                border == border_style(),
                lines_view(lines@) == head_lines + body_lines(rv.take(r as int), wv, alignments@),
            decreases rows.len() - r,
        {
            let line = Self::table_data_line(rows[r].as_slice(), &col_widths, alignments, TextStyle::default(), border);
            let ghost before = lines@;
            lines.push(line);
            assert(lines_view(lines@) =~= lines_view(before).push(line@));
            assert(rv[r as int] == cells_view(rows@[r as int]@));
            assert(body_lines(rv.take(r as int + 1), wv, alignments@) =~= body_lines(rv.take(r as int), wv, alignments@).push(line@));
            r = r + 1;
        }
        let ghost before = lines@;
        lines.push(bot_border);
        assert(rv.take(rows.len() as int) =~= rv);
        assert(lines_view(lines@) =~= lines_view(before).push(bot_border@));
        assert(lines_view(lines@) =~= table_lines(hv, rv, alignments@));
        lines
    }

    /// A border line of a table with the given column widths.
    pub fn table_border_line(col_widths: &[usize], left: char, mid: char, right: char, fill: char, style: TextStyle) -> (line: Line)
        ensures
            line@ == seq![(border_text(widths_view(col_widths@), left, mid, right, fill), style)],
    {
        let ghost wv = widths_view(col_widths@);
        let mut s = String::new();
        push_char(&mut s, left);
        let mut i: usize = 0;
        while i < col_widths.len()
            invariant
                0 <= i <= col_widths.len(),
                wv == widths_view(col_widths@),
                s@ == seq![left] + border_body(wv.take(i as int), mid, fill),
            decreases col_widths.len() - i,
        {
            let ghost start = s@;
            assert(wv.take(i as int + 1).drop_last() =~= wv.take(i as int));
            if i > 0 {
                push_char(&mut s, mid);
            }
            let ghost with_sep = s@;
            let w = col_widths[i];
            push_char(&mut s, fill);
            push_char(&mut s, fill);
            let mut k: usize = 0;
            while k < w
                invariant
                    0 <= k <= w,
                    s@ == with_sep + repeat_view(fill, (k + 2) as nat),
                decreases w - k,
            {
                push_char(&mut s, fill);
                assert(s@ =~= with_sep + repeat_view(fill, (k + 3) as nat));
                k = k + 1;
            }
            assert(s@ =~= seq![left] + border_body(wv.take(i as int + 1), mid, fill));
            i = i + 1;
        }
        assert(wv.take(col_widths.len() as int) =~= wv);
        push_char(&mut s, right);
        assert(s@ =~= border_text(wv, left, mid, right, fill));
        let span = Span::styled(s, style);
        let line = Line::from_spans(vec![span]);
        assert(line@ =~= seq![span@]);
        assert(line@ =~= seq![(border_text(wv, left, mid, right, fill), style)]);
        line
    }

    /// A row of a table: each column's cell, padded to the column width by its alignment.
    pub fn table_data_line(
        cells: &[String],
        col_widths: &[usize],
        alignments: &[CellAlignment],
        cell_style: TextStyle,
        border_style: TextStyle,
    ) -> (line: Line)
        ensures
            line@ == data_line_spans(cells_view(cells@), widths_view(col_widths@), alignments@, cell_style, border_style),
    {
        proof {
            reveal_strlit("│");
            reveal_strlit(" ");
            reveal_strlit("");
        }
        let ghost cv = cells_view(cells@);
        let ghost wv = widths_view(col_widths@);
        let mut spans: Vec<Span> = Vec::new();
        let first = Span::styled(String::from_str("│"), border_style);
        assert(first.content@ == "│"@);
        assert(first@ == (seq!['│'], border_style));
        spans.push(first);
        assert(spans@ =~= seq![first]);
        assert(wv.take(0).len() == 0);
        assert(spans_view(spans@) =~= seq![(seq!['│'], border_style)]);
        assert(spans_view(spans@) =~= data_line_spans(cv, wv.take(0), alignments@, cell_style, border_style));
        let mut i: usize = 0;
        while i < col_widths.len()
            invariant
                0 <= i <= col_widths.len(),
                cv == cells_view(cells@),
                wv == widths_view(col_widths@),
                "│"@ == seq!['│'],
                " "@ == seq![' '],
                ""@ == Seq::<char>::empty(),
                spans_view(spans@) == data_line_spans(cv, wv.take(i as int), alignments@, cell_style, border_style),
            decreases col_widths.len() - i,
        {
            let ghost start = spans_view(spans@);
            assert(wv.take(i as int + 1).drop_last() =~= wv.take(i as int));
            let w = col_widths[i];
            let content = if i < cells.len() { cells[i].clone() } else { String::from_str("") };
            assert(content@ == cell_text(cv, i as int));
            let content_len = content.as_str().unicode_len();
            let padding = if content_len <= w { w - content_len } else { 0 };
            let alignment = if i < alignments.len() { alignments[i] } else { CellAlignment::Unaligned };
            let (left_pad, right_pad) = match alignment {
                CellAlignment::Right => (padding, 0),
                CellAlignment::Center => (padding / 2, padding - padding / 2),
                _ => (0, padding),
            };
            let ghost expected = cell_spans(content@, w as nat, alignment, cell_style, border_style);
            let mut cell: Vec<Span> = Vec::new();
            cell.push(Span::styled(String::from_str(" "), border_style));
            if left_pad > 0 {
                cell.push(Span::styled(spaces(left_pad), TextStyle::default()));
            }
            cell.push(Span::styled(content, cell_style));
            if right_pad > 0 {
                cell.push(Span::styled(spaces(right_pad), TextStyle::default()));
            }
            cell.push(Span::styled(String::from_str(" "), border_style));
            cell.push(Span::styled(String::from_str("│"), border_style));
            assert(spans_view(cell@) =~= expected);
            let mut j: usize = 0;
            while j < cell.len()
                invariant
                    0 <= j <= cell.len(),
                    spans_view(spans@) == start + spans_view(cell@).take(j as int),
                decreases cell.len() - j,
            {
                let ghost before = spans@;
                let next = cell[j].clone();
                spans.push(next);
                assert(spans_view(spans@) =~= spans_view(before).push(spans_view(cell@)[j as int]));
                assert(spans_view(spans@) =~= start + spans_view(cell@).take(j as int + 1));
                j = j + 1;
            }
            assert(spans_view(cell@).take(cell.len() as int) =~= spans_view(cell@));
            assert(spans_view(spans@) =~= data_line_spans(cv, wv.take(i as int + 1), alignments@, cell_style, border_style));
            i = i + 1;
        }
        assert(wv.take(col_widths.len() as int) =~= wv);
        let line = Line::from_spans(spans);
        line
    }
}

/// The width of each column of a table with at least one column.
fn column_widths(header: &[String], rows: &[Vec<String>]) -> (widths: Vec<usize>)
    ensures
        widths_view(widths@) == column_widths_of(cells_view(header@), rows_view(rows@)),
{
    let ghost hv = cells_view(header@);
    let ghost rv = rows_view(rows@);
    let mut widths: Vec<usize> = Vec::new();
    let mut i: usize = 0;
    while i < header.len()
        invariant
            0 <= i <= header.len(),
            hv == cells_view(header@),
            rv == rows_view(rows@),
            widths@.len() == i,
            forall|j: int| 0 <= j < i ==> widths@[j] as nat == #[trigger] column_width(hv, rv, j),
        decreases header.len() - i,
    {
        let header_w = header[i].as_str().unicode_len();
        let mut body_w: usize = 0;
        let mut r: usize = 0;
        while r < rows.len()
            invariant
                0 <= r <= rows.len(),
                0 <= i < header.len(),
                rv == rows_view(rows@),
                body_w as nat == column_body_width(rv.take(r as int), i as int),
            decreases rows.len() - r,
        {
            assert(rv.take(r as int + 1).drop_last() =~= rv.take(r as int));
            assert(rv[r as int] == cells_view(rows@[r as int]@));
            let row = &rows[r];
            let w = if i < row.len() { row[i].as_str().unicode_len() } else { 0 };
            assert(w as nat == cell_text(rv[r as int], i as int).len());
            if w > body_w {
                body_w = w;
            }
            r = r + 1;
        }
        assert(rv.take(rows.len() as int) =~= rv);
        let mut width = if header_w >= body_w { header_w } else { body_w };
        if width < 1 {
            width = 1;
        }
        widths.push(width);
        i = i + 1;
    }
    assert(widths_view(widths@) =~= column_widths_of(hv, rv));
    widths
}

/// How wide every line of a table with these column widths is.
pub open spec fn table_width(widths: Seq<nat>) -> nat
    decreases widths.len(),
{
    if widths.len() == 0 {
        1
    } else {
        table_width(widths.drop_last()) + widths.last() + 3
    }
}

/// A border line is as wide as the table.
pub proof fn lemma_border_width(widths: Seq<nat>, left: char, mid: char, right: char, fill: char)
    requires
        widths.len() > 0,
    ensures
        border_text(widths, left, mid, right, fill).len() == table_width(widths),
{
    lemma_border_body_len(widths, mid, fill);
}

proof fn lemma_border_body_len(widths: Seq<nat>, mid: char, fill: char)
    requires
        widths.len() > 0,
    ensures
        border_body(widths, mid, fill).len() + 2 == table_width(widths),
    decreases widths.len(),
{
    if widths.len() > 1 {
        lemma_border_body_len(widths.drop_last(), mid, fill);
    } else {
        assert(widths.drop_last().len() == 0);
        assert(border_body(widths.drop_last(), mid, fill).len() == 0);
        assert(table_width(widths.drop_last()) == 1);
    }
}

/// A cell's spans take the column width plus three characters when the content fits.
proof fn lemma_cell_spans_width(content: Seq<char>, w: nat, a: CellAlignment, cs: TextStyle, bs: TextStyle)
    requires
        content.len() <= w,
    ensures
        spans_width(cell_spans(content, w, a, cs, bs)) == w + 3,
{
    let (lp, rp) = cell_padding(content.len(), w, a);
    let left = if lp > 0 { seq![(spaces_view(lp), plain_style())] } else { Seq::<SpanView>::empty() };
    let right = if rp > 0 { seq![(spaces_view(rp), plain_style())] } else { Seq::<SpanView>::empty() };
    let a1 = seq![(seq![' '], bs)];
    let a3 = seq![(content, cs)];
    let a5 = seq![(seq![' '], bs), (seq!['│'], bs)];
    lemma_spans_width_concat(a1, left);
    lemma_spans_width_concat(a1 + left, a3);
    lemma_spans_width_concat(a1 + left + a3, right);
    lemma_spans_width_concat(a1 + left + a3 + right, a5);
    lemma_spans_text_single(a1[0]);
    lemma_spans_text_single(a3[0]);
    assert(a5 =~= seq![a5[0]] + seq![a5[1]]);
    lemma_spans_width_concat(seq![a5[0]], seq![a5[1]]);
    lemma_spans_text_single(a5[0]);
    lemma_spans_text_single(a5[1]);
    if lp > 0 {
        lemma_spans_text_single(left[0]);
    } else {
        assert(crate::style::spans_text(left) =~= Seq::<char>::empty());
    }
    if rp > 0 {
        lemma_spans_text_single(right[0]);
    } else {
        assert(crate::style::spans_text(right) =~= Seq::<char>::empty());
    }
}

/// A row whose cells fit their columns is as wide as the table.
pub proof fn lemma_data_line_width(
    cells: Seq<Seq<char>>,
    widths: Seq<nat>,
    aligns: Seq<CellAlignment>,
    cs: TextStyle,
    bs: TextStyle,
)
    requires
        forall|i: int| 0 <= i < widths.len() ==> cell_text(cells, i).len() <= #[trigger] widths[i],
    ensures
        spans_width(data_line_spans(cells, widths, aligns, cs, bs)) == table_width(widths),
    decreases widths.len(),
{
    if widths.len() == 0 {
        lemma_spans_text_single((seq!['│'], bs));
    } else {
        let i = widths.len() - 1;
        assert forall|j: int| 0 <= j < widths.drop_last().len() implies cell_text(cells, j).len() <= #[trigger] widths.drop_last()[j] by {
            assert(widths.drop_last()[j] == widths[j]);
        }
        lemma_data_line_width(cells, widths.drop_last(), aligns, cs, bs);
        lemma_cell_spans_width(cell_text(cells, i), widths[i], alignment_at(aligns, i), cs, bs);
        lemma_spans_width_concat(
            data_line_spans(cells, widths.drop_last(), aligns, cs, bs),
            cell_spans(cell_text(cells, i), widths[i], alignment_at(aligns, i), cs, bs),
        );
    }
}

/// Every cell of the header and of the body fits its column.
proof fn lemma_cells_fit(header: Seq<Seq<char>>, rows: Seq<Seq<Seq<char>>>, i: int, r: int)
    requires
        0 <= r < rows.len(),
    ensures
        cell_text(header, i).len() <= column_width(header, rows, i),
        cell_text(rows[r], i).len() <= column_width(header, rows, i),
{
    lemma_body_width_bound(rows, i, r);
}

proof fn lemma_body_width_bound(rows: Seq<Seq<Seq<char>>>, i: int, r: int)
    requires
        0 <= r < rows.len(),
    ensures
        cell_text(rows[r], i).len() <= column_body_width(rows, i),
    decreases rows.len(),
{
    if r < rows.len() - 1 {
        lemma_body_width_bound(rows.drop_last(), i, r);
    }
}

/// Law: every line of a rendered table is equally wide.
pub proof fn lemma_table_lines_equal_width(
    header: Seq<Seq<char>>,
    rows: Seq<Seq<Seq<char>>>,
    aligns: Seq<CellAlignment>,
)
    ensures
        forall|k: int| 0 <= k < table_lines(header, rows, aligns).len()
            ==> spans_width(#[trigger] table_lines(header, rows, aligns)[k]) == table_width(column_widths_of(header, rows)),
{
    let lines = table_lines(header, rows, aligns);
    let widths = column_widths_of(header, rows);
    if header.len() > 0 {
        assert forall|k: int| 0 <= k < lines.len() implies spans_width(#[trigger] lines[k]) == table_width(widths) by {
            let n = rows.len() as int;
            if k == 0 || k == 2 || k == n + 3 {
                let (l, m, r) = if k == 0 {
                    ('┌', '┬', '┐')
                } else if k == 2 {
                    ('├', '┼', '┤')
                } else {
                    ('└', '┴', '┘')
                };
                lemma_border_width(widths, l, m, r, '─');
                lemma_spans_text_single((border_text(widths, l, m, r, '─'), border_style()));
            } else if k == 1 {
                assert forall|i: int| 0 <= i < widths.len() implies cell_text(header, i).len() <= #[trigger] widths[i] by {
                    assert(widths[i] == column_width(header, rows, i));
                }
                lemma_data_line_width(header, widths, aligns, header_style(), border_style());
            } else {
                let r = k - 3;
                assert(lines[k] == data_line_spans(rows[r], widths, aligns, plain_style(), border_style()));
                assert forall|i: int| 0 <= i < widths.len() implies cell_text(rows[r], i).len() <= #[trigger] widths[i] by {
                    assert(widths[i] == column_width(header, rows, i));
                    lemma_cells_fit(header, rows, i, r);
                }
                lemma_data_line_width(rows[r], widths, aligns, plain_style(), border_style());
            }
        }
    }
}

} // verus!

use vstd::prelude::*;
use crate::code_block::{
    lemma_code_line_width, code_line,
    BOX_WIDTH, INNER_WIDTH, border_style, box_padding, chosen_highlight, code_box_lines,
    empty_code_line, spans_view,
};
use crate::events::{
    CellAlignment, MdEvent, MdEventView, MdTag, MdTagEnd, MdTagView, events_view,
    markdown_events, parse_markdown,
};
use crate::style::{
    Color, Line, LineView, Modifier, Span, SpanView, Text, TextStyle, lines_view, plain_style,
    literal, push_char, repeat_view, spaces, spaces_view, spans_width, lemma_spans_width_concat,
    lemma_spans_text_single, spans_text,
};
use crate::table::{cells_view, rows_view, table_lines};

verus! {

#[verifier::external_type_specification]
#[verifier::external_body]
pub struct ExSyntaxSet(syntect::parsing::SyntaxSet);

#[verifier::external_type_specification]
#[verifier::external_body]
pub struct ExThemeSet(syntect::highlighting::ThemeSet);

/// syntect's default syntaxes and themes. Its fields are the crate's own and only
/// `MarkdownRenderer::new` builds one, so every value of it holds the default sets: the sets
/// that the highlighting names of `code_block` stand for.
pub struct SyntectDefaults {
    pub(crate) syntax_set: syntect::parsing::SyntaxSet,
    pub(crate) theme_set: syntect::highlighting::ThemeSet,
}

/// Renders a markdown document into styled lines for the terminal.
pub struct MarkdownRenderer {
    /// The markdown text to render.
    pub content: String,
    /// The syntaxes and themes code blocks are highlighted with.
    pub highlighting: SyntectDefaults,
}

/// Calls `syntect::parsing::SyntaxSet::load_defaults_newlines`; nothing is claimed of the set.
#[verifier::external_body]
fn load_default_syntaxes() -> syntect::parsing::SyntaxSet {
    syntect::parsing::SyntaxSet::load_defaults_newlines()
}

/// Calls `syntect::highlighting::ThemeSet::load_defaults`; nothing is claimed of the set.
#[verifier::external_body]
fn load_default_themes() -> syntect::highlighting::ThemeSet {
    syntect::highlighting::ThemeSet::load_defaults()
}

impl View for MarkdownRenderer {
    type V = Seq<char>;

    /// The markdown text the renderer holds.
    open spec fn view(&self) -> Seq<char> {
        self.content@
    }
}

impl MarkdownRenderer {
    /// Replaces the markdown text.
    pub fn set_content(&mut self, content: String)
        ensures
            final(self)@ == content@,
    {
        self.content = content;
    }

    /// A renderer with no content, holding syntect's default syntaxes and themes.
    pub fn new() -> (r: Self)
        ensures
            r@ == Seq::<char>::empty(),
    {
        MarkdownRenderer {
            content: String::new(),
            highlighting: SyntectDefaults {
                syntax_set: load_default_syntaxes(),
                theme_set: load_default_themes(),
            },
        }
    }
}

/// The state of the line builder as the specification sees it.
#[verifier::ext_equal]
pub struct BuilderState {
    pub lines: Seq<LineView>,
    pub current_line: LineView,
    pub in_code_block: bool,
    pub code_block_language: Seq<char>,
    pub code_block_content: Seq<char>,
    pub in_heading: bool,
    pub heading_level: u8,
    pub in_emphasis: bool,
    pub in_strong: bool,
    pub last_was_empty_line: bool,
    pub in_table_head: bool,
    pub in_table_cell: bool,
    pub table_alignments: Seq<CellAlignment>,
    pub table_header: Seq<Seq<char>>,
    pub table_rows: Seq<Seq<Seq<char>>>,
    pub table_current_row: Seq<Seq<char>>,
    pub table_current_cell: Seq<char>,
}

/// The state before the first event.
pub open spec fn initial_state() -> BuilderState {
    BuilderState {
        lines: Seq::empty(),
        current_line: Seq::empty(),
        in_code_block: false,
        code_block_language: Seq::empty(),
        code_block_content: Seq::empty(),
        in_heading: false,
        heading_level: 0,
        in_emphasis: false,
        in_strong: false,
        last_was_empty_line: true,
        in_table_head: false,
        in_table_cell: false,
        table_alignments: Seq::empty(),
        table_header: Seq::empty(),
        table_rows: Seq::empty(),
        table_current_row: Seq::empty(),
        table_current_cell: Seq::empty(),
    }
}

/// Moves the line being built, if it has a span, to the finished lines.
pub open spec fn flush(s: BuilderState) -> BuilderState {
    if s.current_line.len() > 0 {
        BuilderState { lines: s.lines.push(s.current_line), current_line: Seq::empty(), ..s }
    } else {
        s
    }
}

/// Adds an empty line.
pub open spec fn push_empty(s: BuilderState) -> BuilderState {
    BuilderState { lines: s.lines.push(Seq::empty()), ..s }
}

/// The style of text at a given place: a heading's color by level (all bold), green on dark
/// gray in code, italic in emphasis, bold in strong text.
pub open spec fn text_style(in_heading: bool, heading_level: u8, in_code_block: bool, in_emphasis: bool, in_strong: bool) -> TextStyle {
    let base = plain_style();
    let h = if in_heading {
        let c = if heading_level == 1 {
            Color::Red
        } else if heading_level == 2 {
            Color::Yellow
        } else if heading_level == 3 {
            Color::Green
        } else if heading_level == 4 {
            Color::Cyan
        } else if heading_level == 5 {
            Color::Blue
        } else {
            Color::Magenta
        };
        TextStyle { fg: Some(c), bold: true, ..base }
    } else {
        base
    };
    let c = if in_code_block { TextStyle { fg: Some(Color::Green), bg: Some(Color::DarkGray), ..h } } else { h };
    let e = if in_emphasis { TextStyle { italic: true, ..c } } else { c };
    if in_strong { TextStyle { bold: true, ..e } } else { e }
}

/// The style of a list bullet.
pub open spec fn bullet_style() -> TextStyle {
    TextStyle { fg: Some(Color::Yellow), bold: true, ..plain_style() }
}

/// The style of inline code.
pub open spec fn inline_code_style() -> TextStyle {
    TextStyle { fg: Some(Color::Yellow), bg: Some(Color::Rgb(40, 40, 40)), bold: true, ..plain_style() }
}

/// The style of a code block's language label.
pub open spec fn label_style() -> TextStyle {
    TextStyle { fg: Some(Color::Cyan), bold: true, ..plain_style() }
}

/// The characters `char::is_whitespace` holds for: the Unicode White_Space property.
pub open spec fn is_whitespace(c: char) -> bool {
    let n = c as u32;
    ||| n == 0x20
    ||| 0x09 <= n <= 0x0d
    ||| n == 0x85
    ||| n == 0xa0
    ||| n == 0x1680
    ||| 0x2000 <= n <= 0x200a
    ||| n == 0x2028
    ||| n == 0x2029
    ||| n == 0x202f
    ||| n == 0x205f
    ||| n == 0x3000
}

/// Whether a text holds a character that is not whitespace.
pub open spec fn has_visible(t: Seq<char>) -> bool {
    exists|i: int| 0 <= i < t.len() && !is_whitespace(#[trigger] t[i])
}

/// A horizontal box rule: a corner, 77 `'─'`, a corner.
pub open spec fn box_rule(left: char, right: char) -> Seq<char> {
    seq![left] + repeat_view('─', (BOX_WIDTH - 2) as nat) + seq![right]
}

/// The label line of a code block: the language between the box borders.
pub open spec fn language_line(language: Seq<char>) -> LineView {
    seq![
        (seq!['│', ' '], border_style()),
        (language, label_style()),
        (spaces_view(box_padding(3 + language.len())), plain_style()),
        (seq!['│'], border_style()),
    ]
}

/// The lines of a code block: top rule, label and separator when there is a language, the
/// boxed highlighted lines, bottom rule.
pub open spec fn code_block_lines(language: Seq<char>, content: Seq<char>) -> Seq<LineView> {
    let top = seq![seq![(box_rule('┌', '┐'), border_style())]];
    let label = if language.len() > 0 {
        seq![language_line(language), seq![(box_rule('├', '┤'), border_style())]]
    } else {
        Seq::empty()
    };
    top + label + code_box_lines(chosen_highlight(content, language)) + seq![
        seq![(box_rule('└', '┘'), border_style())],
    ]
}

/// Law: a code block whose language name has at most 76 characters is drawn as a box 79
/// characters wide: every one of its lines has that width.
pub proof fn lemma_code_block_box_width(language: Seq<char>, content: Seq<char>)
    requires
        language.len() <= INNER_WIDTH,
    ensures
        forall|k: int|
            0 <= k < code_block_lines(language, content).len() ==> spans_width(
                #[trigger] code_block_lines(language, content)[k],
            ) == BOX_WIDTH,
{
    let lines = code_block_lines(language, content);
    let hl = chosen_highlight(content, language);
    let boxed = code_box_lines(hl);
    let top = seq![seq![(box_rule('┌', '┐'), border_style())]];
    let label = if language.len() > 0 {
        seq![language_line(language), seq![(box_rule('├', '┤'), border_style())]]
    } else {
        Seq::<LineView>::empty()
    };
    let bottom = seq![seq![(box_rule('└', '┘'), border_style())]];
    assert(lines == top + label + boxed + bottom);
    lemma_rule_width('┌', '┐');
    lemma_rule_width('├', '┤');
    lemma_rule_width('└', '┘');
    lemma_language_line_width(language);
    lemma_empty_code_line_width();
    assert forall|k: int| 0 <= k < lines.len() implies spans_width(#[trigger] lines[k])
        == BOX_WIDTH by {
        let n0 = top.len() as int;
        let n1 = n0 + label.len();
        let n2 = n1 + boxed.len();
        if k < n0 {
            assert(lines[k] == top[k]);
        } else if k < n1 {
            assert(lines[k] == label[k - n0]);
        } else if k < n2 {
            assert(lines[k] == boxed[k - n1]);
            if hl.len() > 0 {
                assert(boxed[k - n1] == code_line(hl[k - n1]));
                lemma_code_line_width(hl[k - n1]);
            } else {
                assert(boxed[k - n1] == empty_code_line());
            }
        } else {
            assert(lines[k] == bottom[k - n2]);
        }
    }
}

/// A box rule is as wide as the box.
proof fn lemma_rule_width(left: char, right: char)
    ensures
        spans_width(seq![(box_rule(left, right), border_style())]) == BOX_WIDTH,
{
    lemma_spans_text_single((box_rule(left, right), border_style()));
}

/// A code block's label line is as wide as the box when the language fits.
proof fn lemma_language_line_width(language: Seq<char>)
    requires
        language.len() <= INNER_WIDTH,
    ensures
        spans_width(language_line(language)) == BOX_WIDTH,
{
    let l = language_line(language);
    assert(l =~= seq![l[0]] + seq![l[1]] + seq![l[2]] + seq![l[3]]);
    lemma_spans_width_concat(seq![l[0]], seq![l[1]]);
    lemma_spans_width_concat(seq![l[0]] + seq![l[1]], seq![l[2]]);
    lemma_spans_width_concat(seq![l[0]] + seq![l[1]] + seq![l[2]], seq![l[3]]);
    lemma_spans_text_single(l[0]);
    lemma_spans_text_single(l[1]);
    lemma_spans_text_single(l[2]);
    lemma_spans_text_single(l[3]);
}

/// The line of an empty code block is as wide as the box.
proof fn lemma_empty_code_line_width()
    ensures
        spans_width(empty_code_line()) == BOX_WIDTH,
{
    let l = empty_code_line();
    assert(l =~= seq![l[0]] + seq![l[1]] + seq![l[2]]);
    lemma_spans_width_concat(seq![l[0]], seq![l[1]]);
    lemma_spans_width_concat(seq![l[0]] + seq![l[1]], seq![l[2]]);
    lemma_spans_text_single(l[0]);
    lemma_spans_text_single(l[1]);
    lemma_spans_text_single(l[2]);
}

/// What an opening tag does.
pub open spec fn start_tag(s: BuilderState, tag: MdTagView) -> BuilderState {
    match tag {
        MdTagView::Heading(level) => {
            let f = flush(s);
            let g = if !f.last_was_empty_line && f.lines.len() > 0 { push_empty(f) } else { f };
            BuilderState { in_heading: true, heading_level: level, ..g }
        },
        MdTagView::CodeBlockIndented => code_block_start(s, Seq::empty()),
        MdTagView::CodeBlockFenced(info) => code_block_start(s, info),
        MdTagView::Emphasis => BuilderState { in_emphasis: true, ..s },
        MdTagView::Strong => BuilderState { in_strong: true, ..s },
        MdTagView::List => if s.current_line.len() > 0 { flush(s) } else { s },
        MdTagView::Item => {
            let f = flush(s);
            BuilderState { current_line: f.current_line.push((seq!['•', ' '], bullet_style())), ..f }
        },
        MdTagView::Table(alignments) => {
            let t = BuilderState { table_alignments: alignments, table_header: Seq::empty(), table_rows: Seq::empty(), ..s };
            if !t.last_was_empty_line { push_empty(t) } else { t }
        },
        MdTagView::TableHead => BuilderState { in_table_head: true, table_current_row: Seq::empty(), ..s },
        MdTagView::TableRow => BuilderState { table_current_row: Seq::empty(), ..s },
        MdTagView::TableCell => BuilderState { in_table_cell: true, table_current_cell: Seq::empty(), ..s },
        _ => s,
    }
}

/// What the start of a code block in `language` does.
pub open spec fn code_block_start(s: BuilderState, language: Seq<char>) -> BuilderState {
    let t = BuilderState { in_code_block: true, code_block_language: language, code_block_content: Seq::empty(), ..s };
    let f = flush(t);
    if !f.last_was_empty_line { push_empty(f) } else { f }
}

/// Ends a block: flush the line, add an empty line, remember it.
pub open spec fn close_block(s: BuilderState) -> BuilderState {
    BuilderState { last_was_empty_line: true, ..push_empty(flush(s)) }
}

/// What a closing tag does.
pub open spec fn end_tag(s: BuilderState, tag: MdTagEnd) -> BuilderState {
    match tag {
        MdTagEnd::Heading => close_block(BuilderState { in_heading: false, ..s }),
        MdTagEnd::CodeBlock => BuilderState {
            in_code_block: false,
            lines: s.lines + code_block_lines(s.code_block_language, s.code_block_content) + seq![Seq::<SpanView>::empty()],
            last_was_empty_line: true,
            code_block_content: Seq::empty(),
            code_block_language: Seq::empty(),
            ..s
        },
        MdTagEnd::Emphasis => BuilderState { in_emphasis: false, ..s },
        MdTagEnd::Strong => BuilderState { in_strong: false, ..s },
        MdTagEnd::Paragraph => close_block(s),
        MdTagEnd::List => close_block(s),
        MdTagEnd::Item => BuilderState { last_was_empty_line: false, ..flush(s) },
        MdTagEnd::TableCell => BuilderState {
            in_table_cell: false,
            table_current_row: s.table_current_row.push(s.table_current_cell),
            table_current_cell: Seq::empty(),
            ..s
        },
        MdTagEnd::TableHead => BuilderState {
            in_table_head: false,
            table_header: s.table_current_row,
            table_current_row: Seq::empty(),
            ..s
        },
        MdTagEnd::TableRow => if !s.in_table_head {
            BuilderState { table_rows: s.table_rows.push(s.table_current_row), table_current_row: Seq::empty(), ..s }
        } else {
            s
        },
        MdTagEnd::Table => BuilderState {
            lines: s.lines + table_lines(s.table_header, s.table_rows, s.table_alignments) + seq![Seq::<SpanView>::empty()],
            last_was_empty_line: true,
            ..s
        },
        _ => s,
    }
}

/// What a text event does: it goes into the table cell, the code block, or the current line.
pub open spec fn on_text(s: BuilderState, t: Seq<char>) -> BuilderState {
    if s.in_table_cell {
        BuilderState { table_current_cell: s.table_current_cell + t, ..s }
    } else if s.in_code_block {
        BuilderState { code_block_content: s.code_block_content + t, ..s }
    } else {
        let style = text_style(s.in_heading, s.heading_level, s.in_code_block, s.in_emphasis, s.in_strong);
        let u = BuilderState { current_line: s.current_line.push((t, style)), ..s };
        if has_visible(t) { BuilderState { last_was_empty_line: false, ..u } } else { u }
    }
}

/// What an inline code event does.
pub open spec fn on_code(s: BuilderState, code: Seq<char>) -> BuilderState {
    BuilderState {
        current_line: s.current_line.push((seq![' '] + code + seq![' '], inline_code_style())),
        last_was_empty_line: false,
        ..s
    }
}

/// What one event does to the builder.
pub open spec fn step(s: BuilderState, event: MdEventView) -> BuilderState {
    match event {
        MdEventView::Start(tag) => start_tag(s, tag),
        MdEventView::End(tag) => end_tag(s, tag),
        MdEventView::Text(t) => on_text(s, t),
        MdEventView::Code(c) => on_code(s, c),
        MdEventView::SoftBreak | MdEventView::HardBreak => if s.current_line.len() > 0 {
            BuilderState { last_was_empty_line: false, ..flush(s) }
        } else {
            s
        },
        MdEventView::Other => s,
    }
}

/// The builder after a sequence of events.
pub open spec fn run_events(s: BuilderState, events: Seq<MdEventView>) -> BuilderState
    decreases events.len(),
{
    if events.len() == 0 {
        s
    } else {
        step(run_events(s, events.drop_last()), events.last())
    }
}

/// The finished lines: the builder's lines, and the line being built if it has a span.
pub open spec fn finish_lines(s: BuilderState) -> Seq<LineView> {
    if s.current_line.len() > 0 {
        s.lines.push(s.current_line)
    } else {
        s.lines
    }
}

/// The lines a sequence of markdown events renders to.
pub open spec fn render_event_lines(events: Seq<MdEventView>) -> Seq<LineView> {
    finish_lines(run_events(initial_state(), events))
}

/// Running two event sequences one after the other is running them laid end to end.
pub proof fn lemma_run_events_concat(s: BuilderState, a: Seq<MdEventView>, b: Seq<MdEventView>)
    ensures
        run_events(s, a + b) == run_events(run_events(s, a), b),
    decreases b.len(),
{
    if b.len() == 0 {
        assert(a + b =~= a);
    } else {
        assert((a + b).drop_last() =~= a + b.drop_last());
        assert((a + b).last() == b.last());
        lemma_run_events_concat(s, a, b.drop_last());
    }
}

/// The events of one table cell holding the text `t`.
pub open spec fn cell_events(t: Seq<char>) -> Seq<MdEventView> {
    seq![
        MdEventView::Start(MdTagView::TableCell),
        MdEventView::Text(t),
        MdEventView::End(MdTagEnd::TableCell),
    ]
}

/// The events of a sequence of table cells, one after the other.
pub open spec fn cells_events(cells: Seq<Seq<char>>) -> Seq<MdEventView>
    decreases cells.len(),
{
    if cells.len() == 0 {
        Seq::empty()
    } else {
        cells_events(cells.drop_last()) + cell_events(cells.last())
    }
}

/// The events of one table body row.
pub open spec fn row_events(cells: Seq<Seq<char>>) -> Seq<MdEventView> {
    seq![MdEventView::Start(MdTagView::TableRow)] + cells_events(cells) + seq![
        MdEventView::End(MdTagEnd::TableRow),
    ]
}

/// The events of a sequence of table body rows, one after the other.
pub open spec fn rows_events(rows: Seq<Seq<Seq<char>>>) -> Seq<MdEventView>
    decreases rows.len(),
{
    if rows.len() == 0 {
        Seq::empty()
    } else {
        rows_events(rows.drop_last()) + row_events(rows.last())
    }
}

/// The events of a table up to its end: its start, the head with the header cells, the
/// body rows.
pub open spec fn table_open_events(
    alignments: Seq<CellAlignment>,
    header: Seq<Seq<char>>,
    rows: Seq<Seq<Seq<char>>>,
) -> Seq<MdEventView> {
    seq![
        MdEventView::Start(MdTagView::Table(alignments)),
        MdEventView::Start(MdTagView::TableHead),
    ] + cells_events(header) + seq![MdEventView::End(MdTagEnd::TableHead)] + rows_events(rows)
}

/// The events of a whole table: its start, the head with the header cells, the body rows,
/// its end.
pub open spec fn table_events(
    alignments: Seq<CellAlignment>,
    header: Seq<Seq<char>>,
    rows: Seq<Seq<Seq<char>>>,
) -> Seq<MdEventView> {
    table_open_events(alignments, header, rows) + seq![MdEventView::End(MdTagEnd::Table)]
}

/// `b` has the finished lines and the table layout of `a`.
pub open spec fn table_fields_kept(a: BuilderState, b: BuilderState) -> bool {
    &&& b.lines == a.lines
    &&& b.last_was_empty_line == a.last_was_empty_line
    &&& b.in_table_head == a.in_table_head
    &&& b.table_alignments == a.table_alignments
    &&& b.table_header == a.table_header
    &&& b.table_rows == a.table_rows
}

/// Law: the events of a sequence of table cells add the cells, in order, to the row being
/// built, and change nothing else that a table is drawn from.
pub proof fn lemma_cells_events(s: BuilderState, cells: Seq<Seq<char>>)
    ensures
        table_fields_kept(s, run_events(s, cells_events(cells))),
        run_events(s, cells_events(cells)).table_current_row == s.table_current_row + cells,
    decreases cells.len(),
{
    if cells.len() == 0 {
        assert(s.table_current_row + cells =~= s.table_current_row);
    } else {
        let prev = cells_events(cells.drop_last());
        let one = cell_events(cells.last());
        lemma_cells_events(s, cells.drop_last());
        lemma_run_events_concat(s, prev, one);
        let t = run_events(s, prev);
        assert(one.drop_last().drop_last().drop_last() =~= Seq::<MdEventView>::empty());
        assert(one.drop_last().drop_last() =~= seq![one[0]]);
        assert(one.drop_last() =~= seq![one[0], one[1]]);
        assert(run_events(t, one) == step(step(step(t, one[0]), one[1]), one[2])) by {
            reveal_with_fuel(run_events, 4);
        }
        assert(s.table_current_row + cells =~= (s.table_current_row + cells.drop_last()).push(cells.last()));
        assert(seq![cells.last()].len() == 1);
        assert(Seq::<char>::empty() + cells.last() =~= cells.last());
    }
}

/// Law: outside a table head, the events of a sequence of body rows add the rows, in order,
/// to the table's body, and change nothing else that a table is drawn from.
pub proof fn lemma_rows_events(s: BuilderState, rows: Seq<Seq<Seq<char>>>)
    requires
        !s.in_table_head,
    ensures
        table_fields_kept(
            BuilderState { table_rows: s.table_rows + rows, ..s },
            run_events(s, rows_events(rows)),
        ),
    decreases rows.len(),
{
    if rows.len() == 0 {
        assert(s.table_rows + rows =~= s.table_rows);
    } else {
        let prev = rows_events(rows.drop_last());
        let cells = rows.last();
        lemma_rows_events(s, rows.drop_last());
        lemma_run_events_concat(s, prev, row_events(cells));
        let t = run_events(s, prev);
        let open_row = seq![MdEventView::Start(MdTagView::TableRow)];
        let close_row = seq![MdEventView::End(MdTagEnd::TableRow)];
        lemma_run_events_concat(t, open_row + cells_events(cells), close_row);
        lemma_run_events_concat(t, open_row, cells_events(cells));
        let u = run_events(t, open_row);
        assert(open_row.drop_last() =~= Seq::<MdEventView>::empty());
        assert(u == step(t, open_row[0])) by {
            reveal_with_fuel(run_events, 4);
        }
        lemma_cells_events(u, cells);
        let v = run_events(u, cells_events(cells));
        assert(close_row.drop_last() =~= Seq::<MdEventView>::empty());
        assert(run_events(v, close_row) == step(v, close_row[0])) by {
            reveal_with_fuel(run_events, 4);
        }
        assert(Seq::<Seq<char>>::empty() + cells =~= cells);
        assert(s.table_rows + rows =~= (s.table_rows + rows.drop_last()).push(cells));
    }
}

/// Law: after the events of a table up to its end, the builder holds the table's alignments,
/// its header cells and its body rows (the header is not also taken as a body row), and its
/// finished lines are those from before the table, followed by an empty line when the last
/// line was not one.
pub proof fn lemma_table_open_events(
    s: BuilderState,
    alignments: Seq<CellAlignment>,
    header: Seq<Seq<char>>,
    rows: Seq<Seq<Seq<char>>>,
)
    ensures
        run_events(s, table_open_events(alignments, header, rows)).table_alignments == alignments,
        run_events(s, table_open_events(alignments, header, rows)).table_header == header,
        run_events(s, table_open_events(alignments, header, rows)).table_rows == rows,
        run_events(s, table_open_events(alignments, header, rows)).lines == (if s.last_was_empty_line {
            s.lines
        } else {
            s.lines.push(Seq::empty())
        }),
{
    let start = seq![
        MdEventView::Start(MdTagView::Table(alignments)),
        MdEventView::Start(MdTagView::TableHead),
    ];
    let head_end = seq![MdEventView::End(MdTagEnd::TableHead)];
    let e1 = start;
    let e2 = e1 + cells_events(header);
    let e3 = e2 + head_end;
    let e4 = e3 + rows_events(rows);
    assert(table_open_events(alignments, header, rows) == e4);
    assert(start.drop_last().drop_last() =~= Seq::<MdEventView>::empty());
    assert(start.drop_last() =~= seq![start[0]]);
    let a = run_events(s, e1);
    assert(a == step(step(s, start[0]), start[1])) by {
        reveal_with_fuel(run_events, 4);
    }
    lemma_run_events_concat(s, e1, cells_events(header));
    lemma_cells_events(a, header);
    let b = run_events(s, e2);
    assert(Seq::<Seq<char>>::empty() + header =~= header);
    lemma_run_events_concat(s, e2, head_end);
    assert(head_end.drop_last() =~= Seq::<MdEventView>::empty());
    let c = run_events(s, e3);
    assert(c == step(b, head_end[0])) by {
        reveal_with_fuel(run_events, 4);
    }
    lemma_run_events_concat(s, e3, rows_events(rows));
    lemma_rows_events(c, rows);
    assert(Seq::<Seq<Seq<char>>>::empty() + rows =~= rows);
}

/// Law: when a table ends after its head and body rows were fed, the lines gain the table
/// drawn from those header cells, rows and alignments, then an empty line, and the last line
/// is known to be empty.
pub proof fn lemma_table_end_renders_fed_table(
    s: BuilderState,
    alignments: Seq<CellAlignment>,
    header: Seq<Seq<char>>,
    rows: Seq<Seq<Seq<char>>>,
)
    ensures
        ({
            let fed = run_events(s, table_open_events(alignments, header, rows));
            let ended = step(fed, MdEventView::End(MdTagEnd::Table));
            &&& ended.lines == fed.lines + table_lines(header, rows, alignments) + seq![Seq::<SpanView>::empty()]
            &&& ended.last_was_empty_line
        }),
{
    lemma_table_open_events(s, alignments, header, rows);
}

/// Law: the events of a whole table (its head with the header cells, then its body rows)
/// add, after an empty line when the last line was not one, the drawn table and an empty
/// line; the header is not also taken as a body row.
pub proof fn lemma_table_events_render_table(
    s: BuilderState,
    alignments: Seq<CellAlignment>,
    header: Seq<Seq<char>>,
    rows: Seq<Seq<Seq<char>>>,
)
    ensures
        run_events(s, table_events(alignments, header, rows)).lines == (if s.last_was_empty_line {
            s.lines
        } else {
            s.lines.push(Seq::empty())
        }) + table_lines(header, rows, alignments) + seq![Seq::<SpanView>::empty()],
        run_events(s, table_events(alignments, header, rows)).last_was_empty_line,
{
    let open = table_open_events(alignments, header, rows);
    let table_end = seq![MdEventView::End(MdTagEnd::Table)];
    lemma_table_end_renders_fed_table(s, alignments, header, rows);
    lemma_table_open_events(s, alignments, header, rows);
    lemma_run_events_concat(s, open, table_end);
    assert(table_end.drop_last() =~= Seq::<MdEventView>::empty());
    assert(run_events(run_events(s, open), table_end) == step(run_events(s, open), table_end[0])) by {
        reveal_with_fuel(run_events, 4);
    }
}

/// Running one more event is one more step.
proof fn lemma_run_events_push(s: BuilderState, events: Seq<MdEventView>, e: MdEventView)
    ensures
        run_events(s, events.push(e)) == step(run_events(s, events), e),
{
    assert(events.push(e).drop_last() =~= events);
}

/// Law: a line break, hard or soft, ends the line. A paragraph `a`, break, `b` puts `a` and `b`
/// on two lines of their own, followed by the empty line that ends the paragraph.
pub proof fn lemma_line_break_ends_line(s: BuilderState, a: Seq<char>, b: Seq<char>, hard: bool)
    requires
        !s.in_table_cell,
        !s.in_code_block,
        s.current_line.len() == 0,
    ensures
        ({
            let brk = if hard { MdEventView::HardBreak } else { MdEventView::SoftBreak };
            let r = run_events(
                s,
                seq![
                    MdEventView::Start(MdTagView::Paragraph),
                    MdEventView::Text(a),
                    brk,
                    MdEventView::Text(b),
                    MdEventView::End(MdTagEnd::Paragraph),
                ],
            );
            &&& r.lines.len() == s.lines.len() + 3
            &&& r.lines.take(s.lines.len() as int) == s.lines
            &&& spans_text(r.lines[s.lines.len() as int]) == a
            &&& spans_text(r.lines[s.lines.len() as int + 1]) == b
            &&& r.lines[s.lines.len() as int + 2] == Seq::<SpanView>::empty()
            &&& r.current_line.len() == 0
        }),
{
    let brk = if hard { MdEventView::HardBreak } else { MdEventView::SoftBreak };
    let e0 = Seq::<MdEventView>::empty();
    let e1 = e0.push(MdEventView::Start(MdTagView::Paragraph));
    let e2 = e1.push(MdEventView::Text(a));
    let e3 = e2.push(brk);
    let e4 = e3.push(MdEventView::Text(b));
    let e5 = e4.push(MdEventView::End(MdTagEnd::Paragraph));
    assert(e5 =~= seq![
        MdEventView::Start(MdTagView::Paragraph),
        MdEventView::Text(a),
        brk,
        MdEventView::Text(b),
        MdEventView::End(MdTagEnd::Paragraph),
    ]);
    lemma_run_events_push(s, e0, e1.last());
    lemma_run_events_push(s, e1, e2.last());
    lemma_run_events_push(s, e2, e3.last());
    lemma_run_events_push(s, e3, e4.last());
    lemma_run_events_push(s, e4, e5.last());
    let r1 = run_events(s, e1);
    let r2 = run_events(s, e2);
    let r3 = run_events(s, e3);
    let r4 = run_events(s, e4);
    let r5 = run_events(s, e5);
    assert(r1 == s);
    assert(r2.current_line.len() == 1);
    assert(r3.lines == s.lines.push(r2.current_line));
    assert(r3.current_line.len() == 0);
    assert(r4.current_line.len() == 1);
    assert(r4.lines == r3.lines);
    assert(r5.lines == r4.lines.push(r4.current_line).push(Seq::<SpanView>::empty()));
    lemma_spans_text_single(r2.current_line[0]);
    lemma_spans_text_single(r4.current_line[0]);
    assert(r2.current_line =~= seq![r2.current_line[0]]);
    assert(r4.current_line =~= seq![r4.current_line[0]]);
    assert(r5.lines.take(s.lines.len() as int) =~= s.lines);
}

/// Law: a heading's style ends with the heading. After a heading `h` and then a paragraph `t`
/// (outside emphasis, strong text, code and tables), `t` is a line of its own in the plain
/// style, followed by the paragraph's empty line, and the builder is no longer in a heading.
pub proof fn lemma_text_after_heading_is_plain(s: BuilderState, level: u8, h: Seq<char>, t: Seq<char>)
    requires
        !s.in_table_cell,
        !s.in_code_block,
        !s.in_emphasis,
        !s.in_strong,
    ensures
        ({
            let r = run_events(
                s,
                seq![
                    MdEventView::Start(MdTagView::Heading(level)),
                    MdEventView::Text(h),
                    MdEventView::End(MdTagEnd::Heading),
                    MdEventView::Start(MdTagView::Paragraph),
                    MdEventView::Text(t),
                    MdEventView::End(MdTagEnd::Paragraph),
                ],
            );
            &&& r.lines.len() >= 2
            &&& r.lines[r.lines.len() - 2] == seq![(t, plain_style())]
            &&& r.lines[r.lines.len() - 1] == Seq::<SpanView>::empty()
            &&& !r.in_heading
        }),
{
    let e0 = Seq::<MdEventView>::empty();
    let e1 = e0.push(MdEventView::Start(MdTagView::Heading(level)));
    let e2 = e1.push(MdEventView::Text(h));
    let e3 = e2.push(MdEventView::End(MdTagEnd::Heading));
    let e4 = e3.push(MdEventView::Start(MdTagView::Paragraph));
    let e5 = e4.push(MdEventView::Text(t));
    let e6 = e5.push(MdEventView::End(MdTagEnd::Paragraph));
    assert(e6 =~= seq![
        MdEventView::Start(MdTagView::Heading(level)),
        MdEventView::Text(h),
        MdEventView::End(MdTagEnd::Heading),
        MdEventView::Start(MdTagView::Paragraph),
        MdEventView::Text(t),
        MdEventView::End(MdTagEnd::Paragraph),
    ]);
    lemma_run_events_push(s, e0, e1.last());
    lemma_run_events_push(s, e1, e2.last());
    lemma_run_events_push(s, e2, e3.last());
    lemma_run_events_push(s, e3, e4.last());
    lemma_run_events_push(s, e4, e5.last());
    lemma_run_events_push(s, e5, e6.last());
    let r3 = run_events(s, e3);
    let r4 = run_events(s, e4);
    let r5 = run_events(s, e5);
    assert(!r3.in_heading);
    assert(r3.current_line.len() == 0);
    assert(r4 == r3);
    assert(r5.current_line =~= seq![(t, plain_style())]);
}

/// Consumes markdown events and builds the rendered lines.
pub struct MarkdownLineBuilder<'a> {
    renderer: &'a MarkdownRenderer,
    lines: Vec<Line>,
    current_line: Vec<Span>,
    in_code_block: bool,
    code_block_language: String,
    code_block_content: String,
    in_heading: bool,
    heading_level: u8,
    in_emphasis: bool,
    in_strong: bool,
    last_was_empty_line: bool,
    in_table_head: bool,
    in_table_cell: bool,
    table_alignments: Vec<CellAlignment>,
    table_header: Vec<String>,
    table_rows: Vec<Vec<String>>,
    table_current_row: Vec<String>,
    table_current_cell: String,
}

impl<'a> View for MarkdownLineBuilder<'a> {
    type V = BuilderState;

    closed spec fn view(&self) -> BuilderState {
        BuilderState {
            lines: lines_view(self.lines@),
            current_line: spans_view(self.current_line@),
            in_code_block: self.in_code_block,
            code_block_language: self.code_block_language@,
            code_block_content: self.code_block_content@,
            in_heading: self.in_heading,
            heading_level: self.heading_level,
            in_emphasis: self.in_emphasis,
            in_strong: self.in_strong,
            last_was_empty_line: self.last_was_empty_line,
            in_table_head: self.in_table_head,
            in_table_cell: self.in_table_cell,
            table_alignments: self.table_alignments@,
            table_header: cells_view(self.table_header@),
            table_rows: rows_view(self.table_rows@),
            table_current_row: cells_view(self.table_current_row@),
            table_current_cell: self.table_current_cell@,
        }
    }
}

/// Whether `t` holds a character that is not whitespace, which is when `t.trim()` is not empty.
fn has_visible_char(t: &str) -> (b: bool)
    ensures
        b == has_visible(t@),
{
    let n = t.unicode_len();
    let mut i: usize = 0;
    while i < n
        invariant
            0 <= i <= n,
            n == t@.len(),
            forall|j: int| 0 <= j < i ==> is_whitespace(#[trigger] t@[j]),
        decreases n - i,
    {
        let c = t.get_char(i);
        let k = c as u32;
        let ws = k == 0x20 || (0x09 <= k && k <= 0x0d) || k == 0x85 || k == 0xa0 || k == 0x1680
            || (0x2000 <= k && k <= 0x200a) || k == 0x2028 || k == 0x2029 || k == 0x202f
            || k == 0x205f || k == 0x3000;
        if !ws {
            return true;
        }
        i = i + 1;
    }
    false
}

/// A horizontal box rule between two corners.
fn box_rule_line(left: char, right: char) -> (line: Line)
    ensures
        line@ == seq![(box_rule(left, right), border_style())],
{
    let mut s = String::new();
    push_char(&mut s, left);
    let mut k: usize = 0;
    while k < BOX_WIDTH - 2
        invariant
            0 <= k <= BOX_WIDTH - 2,
            s@ == seq![left] + repeat_view('─', k as nat),
        decreases BOX_WIDTH - 2 - k,
    {
        push_char(&mut s, '─');
        assert(s@ =~= seq![left] + repeat_view('─', (k + 1) as nat));
        k = k + 1;
    }
    push_char(&mut s, right);
    assert(s@ =~= box_rule(left, right));
    let span = Span::styled(s, TextStyle::default().fg(Color::DarkGray));
    let line = Line::from_spans(vec![span]);
    assert(line@ =~= seq![span@]);
    line
}

impl<'a> MarkdownLineBuilder<'a> {
    fn new(renderer: &'a MarkdownRenderer) -> (b: Self)
        ensures
            b@ == initial_state(),
    {
        let b = MarkdownLineBuilder {
            renderer,
            lines: Vec::new(),
            current_line: Vec::new(),
            in_code_block: false,
            code_block_language: String::new(),
            code_block_content: String::new(),
            in_heading: false,
            heading_level: 0,
            in_emphasis: false,
            in_strong: false,
            last_was_empty_line: true,
            in_table_head: false,
            in_table_cell: false,
            table_alignments: Vec::new(),
            table_header: Vec::new(),
            table_rows: Vec::new(),
            table_current_row: Vec::new(),
            table_current_cell: String::new(),
        };
        assert(b@ =~= initial_state());
        b
    }

    fn handle_event(&mut self, event: &MdEvent)
        ensures
            final(self)@ == step(old(self)@, event@),
    {
        match event {
            MdEvent::Start(tag) => self.handle_start_tag(tag),
            MdEvent::End(tag) => self.handle_end_tag(*tag),
            MdEvent::Text(text) => self.handle_text(text.as_str()),
            MdEvent::Code(code) => self.handle_code(code.as_str()),
            MdEvent::SoftBreak | MdEvent::HardBreak => {
                if self.current_line.len() > 0 {
                    self.handle_break();
                }
            },
            MdEvent::Other => {},
        }
    }

    fn push_empty_line(&mut self)
        ensures
            final(self)@ == push_empty(old(self)@),
    {
        let ghost before = self.lines@;
        self.lines.push(Line::empty());
        assert(lines_view(self.lines@) =~= lines_view(before).push(Seq::<SpanView>::empty()));
        assert(self@ =~= push_empty(old(self)@));
    }

    fn handle_start_tag(&mut self, tag: &MdTag)
        ensures
            final(self)@ == start_tag(old(self)@, tag@),
    {
        match tag {
            MdTag::Heading(level) => {
                self.flush_current_line();
                if !self.last_was_empty_line && self.lines.len() > 0 {
                    self.push_empty_line();
                }
                self.in_heading = true;
                self.heading_level = *level;
                assert(self@ =~= start_tag(old(self)@, tag@));
            },
            MdTag::CodeBlockIndented => {
                self.start_code_block(String::new());
            },
            MdTag::CodeBlockFenced(info) => {
                self.start_code_block(info.clone());
            },
            MdTag::Emphasis => {
                self.in_emphasis = true;
                assert(self@ =~= start_tag(old(self)@, tag@));
            },
            MdTag::Strong => {
                self.in_strong = true;
                assert(self@ =~= start_tag(old(self)@, tag@));
            },
            MdTag::Paragraph => {},
            MdTag::List => {
                if self.current_line.len() > 0 {
                    self.flush_current_line();
                }
            },
            MdTag::Item => {
                self.flush_current_line();
                let ghost before = self.current_line@;
                proof {
                    reveal_strlit("• ");
                }
                let bullet = Span::styled(literal("• "), TextStyle::default().fg(Color::Yellow).add_modifier(Modifier::Bold));
                assert(bullet@ == (seq!['•', ' '], bullet_style()));
                self.current_line.push(bullet);
                assert(spans_view(self.current_line@) =~= spans_view(before).push(bullet@));
                assert(self@ =~= start_tag(old(self)@, tag@));
            },
            MdTag::Table(alignments) => {
                self.table_alignments = alignments.clone();
                self.table_header.clear();
                self.table_rows.clear();
                assert(cells_view(self.table_header@) =~= Seq::<Seq<char>>::empty());
                assert(rows_view(self.table_rows@) =~= Seq::<Seq<Seq<char>>>::empty());
                assert(self.table_alignments@ =~= alignments@);
                if !self.last_was_empty_line {
                    self.push_empty_line();
                }
                assert(self@ =~= start_tag(old(self)@, tag@));
            },
            MdTag::TableHead => {
                self.in_table_head = true;
                self.table_current_row.clear();
                assert(self@ =~= start_tag(old(self)@, tag@));
            },
            MdTag::TableRow => {
                self.table_current_row.clear();
                assert(self@ =~= start_tag(old(self)@, tag@));
            },
            MdTag::TableCell => {
                self.in_table_cell = true;
                self.table_current_cell = String::new();
                assert(self@ =~= start_tag(old(self)@, tag@));
            },
            MdTag::Other => {},
        }
    }

    fn start_code_block(&mut self, language: String)
        ensures
            final(self)@ == code_block_start(old(self)@, language@),
    {
        self.in_code_block = true;
        self.code_block_language = language;
        self.code_block_content = String::new();
        self.flush_current_line();
        if !self.last_was_empty_line {
            self.push_empty_line();
        }
        assert(self@ =~= code_block_start(old(self)@, language@));
    }

    fn handle_end_tag(&mut self, tag: MdTagEnd)
        ensures
            final(self)@ == end_tag(old(self)@, tag),
    {
        match tag {
            MdTagEnd::Heading => {
                self.in_heading = false;
                self.close_block();
            },
            MdTagEnd::CodeBlock => self.end_code_block(),
            MdTagEnd::Emphasis => {
                self.in_emphasis = false;
                assert(self@ =~= end_tag(old(self)@, tag));
            },
            MdTagEnd::Strong => {
                self.in_strong = false;
                assert(self@ =~= end_tag(old(self)@, tag));
            },
            MdTagEnd::Paragraph => self.close_block(),
            MdTagEnd::List => self.close_block(),
            MdTagEnd::Item => {
                self.flush_current_line();
                self.last_was_empty_line = false;
                assert(self@ =~= end_tag(old(self)@, tag));
            },
            MdTagEnd::TableCell => self.end_table_cell(),
            MdTagEnd::TableHead => self.end_table_head(),
            MdTagEnd::TableRow => {
                if !self.in_table_head {
                    self.end_table_row();
                }
            },
            MdTagEnd::Table => self.end_table(),
            MdTagEnd::Other => {},
        }
    }

    fn end_code_block(&mut self)
        ensures
            final(self)@ == end_tag(old(self)@, MdTagEnd::CodeBlock),
    {
        self.in_code_block = false;
        self.render_code_block();
        self.push_empty_line();
        self.last_was_empty_line = true;
        self.code_block_content = String::new();
        self.code_block_language = String::new();
        assert(self@ =~= end_tag(old(self)@, MdTagEnd::CodeBlock));
    }

    fn end_table_cell(&mut self)
        ensures
            final(self)@ == end_tag(old(self)@, MdTagEnd::TableCell),
    {
        self.in_table_cell = false;
        let mut cell = String::new();
        std::mem::swap(&mut cell, &mut self.table_current_cell);
        let ghost before = self.table_current_row@;
        self.table_current_row.push(cell);
        assert(cells_view(self.table_current_row@) =~= cells_view(before).push(cell@));
        assert(self@ =~= end_tag(old(self)@, MdTagEnd::TableCell));
    }

    fn end_table_head(&mut self)
        ensures
            final(self)@ == end_tag(old(self)@, MdTagEnd::TableHead),
    {
        self.in_table_head = false;
        let mut row: Vec<String> = Vec::new();
        std::mem::swap(&mut row, &mut self.table_current_row);
        self.table_header = row;
        assert(cells_view(self.table_current_row@) =~= Seq::<Seq<char>>::empty());
        assert(self@ =~= end_tag(old(self)@, MdTagEnd::TableHead));
    }

    fn end_table_row(&mut self)
        requires
            !old(self)@.in_table_head,
        ensures
            final(self)@ == end_tag(old(self)@, MdTagEnd::TableRow),
    {
        let mut row: Vec<String> = Vec::new();
        std::mem::swap(&mut row, &mut self.table_current_row);
        let ghost before = self.table_rows@;
        self.table_rows.push(row);
        assert(rows_view(self.table_rows@) =~= rows_view(before).push(cells_view(row@)));
        assert(cells_view(self.table_current_row@) =~= Seq::<Seq<char>>::empty());
        assert(self@ =~= end_tag(old(self)@, MdTagEnd::TableRow));
    }

    fn end_table(&mut self)
        ensures
            final(self)@ == end_tag(old(self)@, MdTagEnd::Table),
    {
        let mut table = self.renderer.render_table(
            self.table_header.as_slice(),
            self.table_rows.as_slice(),
            self.table_alignments.as_slice(),
        );
        let ghost before = self.lines@;
        let ghost added = table@;
        self.lines.append(&mut table);
        assert(lines_view(self.lines@) =~= lines_view(before) + lines_view(added));
        self.push_empty_line();
        self.last_was_empty_line = true;
        assert(self@ =~= end_tag(old(self)@, MdTagEnd::Table));
    }

    fn close_block(&mut self)
        ensures
            final(self)@ == close_block(old(self)@),
    {
        self.flush_current_line();
        self.push_empty_line();
        self.last_was_empty_line = true;
        assert(self@ =~= close_block(old(self)@));
    }

    fn handle_text(&mut self, text: &str)
        ensures
            final(self)@ == on_text(old(self)@, text@),
    {
        if self.in_table_cell {
            self.table_current_cell.append(text);
            assert(self@ =~= on_text(old(self)@, text@));
        } else if self.in_code_block {
            self.code_block_content.append(text);
            assert(self@ =~= on_text(old(self)@, text@));
        } else {
            let style = self.renderer.get_text_style(
                self.in_heading,
                self.heading_level,
                self.in_code_block,
                self.in_emphasis,
                self.in_strong,
            );
            let ghost before = self.current_line@;
            let span = Span::styled(String::from_str(text), style);
            self.current_line.push(span);
            assert(spans_view(self.current_line@) =~= spans_view(before).push(span@));
            if has_visible_char(text) {
                self.last_was_empty_line = false;
            }
            assert(self@ =~= on_text(old(self)@, text@));
        }
    }

    fn handle_code(&mut self, code: &str)
        ensures
            final(self)@ == on_code(old(self)@, code@),
    {
        proof {
            reveal_strlit(" ");
        }
        let mut content = String::from_str(" ");
        content.append(code);
        content.append(" ");
        let style = TextStyle::default().fg(Color::Yellow).bg(Color::Rgb(40, 40, 40)).add_modifier(Modifier::Bold);
        let ghost before = self.current_line@;
        let span = Span::styled(content, style);
        assert(span@ == (seq![' '] + code@ + seq![' '], inline_code_style()));
        self.current_line.push(span);
        assert(spans_view(self.current_line@) =~= spans_view(before).push(span@));
        self.last_was_empty_line = false;
        assert(self@ =~= on_code(old(self)@, code@));
    }

    fn handle_break(&mut self)
        requires
            old(self)@.current_line.len() > 0,
        ensures
            final(self)@ == (BuilderState { last_was_empty_line: false, ..flush(old(self)@) }),
    {
        self.flush_current_line();
        self.last_was_empty_line = false;
        assert(self@ =~= (BuilderState { last_was_empty_line: false, ..flush(old(self)@) }));
    }

    /// Moves the line being built into the finished lines, if it has a span.
    fn flush_current_line(&mut self)
        ensures
            final(self)@ == flush(old(self)@),
    {
        if self.current_line.len() > 0 {
            let mut spans: Vec<Span> = Vec::new();
            std::mem::swap(&mut spans, &mut self.current_line);
            let line = Line::from_spans(spans);
            let ghost before = self.lines@;
            self.lines.push(line);
            assert(lines_view(self.lines@) =~= lines_view(before).push(line@));
            assert(spans_view(self.current_line@) =~= Seq::<SpanView>::empty());
            assert(self@ =~= flush(old(self)@));
        }
    }

    /// Renders the collected code block with borders and syntax highlighting.
    fn render_code_block(&mut self)
        ensures
            final(self)@ == (BuilderState {
                lines: old(self)@.lines + code_block_lines(old(self)@.code_block_language, old(self)@.code_block_content),
                ..old(self)@
            }),
    {
        let ghost start = self.lines@;
        let mut added: Vec<Line> = Vec::new();
        added.push(box_rule_line('┌', '┐'));
        let language_width = self.code_block_language.as_str().unicode_len();
        if language_width > 0 {
            proof {
                reveal_strlit("│ ");
                reveal_strlit("│");
            }
            let padding = if language_width <= INNER_WIDTH { INNER_WIDTH - language_width } else { 0 };
            let a = Span::styled(literal("│ "), TextStyle::default().fg(Color::DarkGray));
            let b = Span::styled(self.code_block_language.clone(), TextStyle::default().fg(Color::Cyan).add_modifier(Modifier::Bold));
            let c = Span::styled(spaces(padding), TextStyle::default());
            let d = Span::styled(literal("│"), TextStyle::default().fg(Color::DarkGray));
            let ghost expected = language_line(self.code_block_language@);
            assert(a@ == expected[0] && b@ == expected[1] && c@ == expected[2] && d@ == expected[3]);
            let label = Line::from_spans(vec![a, b, c, d]);
            assert(label@ =~= expected);
            added.push(label);
            added.push(box_rule_line('├', '┤'));
        }
        let mut code = self.renderer.highlight_code_block(self.code_block_content.as_str(), self.code_block_language.as_str());
        let ghost before_code = added@;
        let ghost code_lines = code@;
        added.append(&mut code);
        added.push(box_rule_line('└', '┘'));
        assert(lines_view(added@) =~= code_block_lines(self.code_block_language@, self.code_block_content@));
        self.lines.append(&mut added);
        assert(lines_view(self.lines@) =~= lines_view(start) + code_block_lines(self.code_block_language@, self.code_block_content@));
        assert(self@ =~= (BuilderState {
            lines: old(self)@.lines + code_block_lines(old(self)@.code_block_language, old(self)@.code_block_content),
            ..old(self)@
        }));
    }

    /// The finished lines.
    fn finish(self) -> (text: Text)
        ensures
            text@ == finish_lines(self@),
    {
        let mut lines = self.lines;
        let ghost before = lines@;
        if self.current_line.len() > 0 {
            let line = Line::from_spans(self.current_line);
            lines.push(line);
            assert(lines_view(lines@) =~= lines_view(before).push(line@));
        }
        Text { lines }
    }
}

impl MarkdownRenderer {
    /// Renders the markdown text the renderer holds.
    pub fn render_to_text(&self) -> (text: Text)
        ensures
            text@ == render_event_lines(markdown_events(self@)),
    {
        let events = parse_markdown(self.content.as_str());
        self.render_events(&events)
    }

    /// Renders a sequence of markdown events.
    pub fn render_events(&self, events: &Vec<MdEvent>) -> (text: Text)
        ensures
            text@ == render_event_lines(events_view(events@)),
    {
        let ghost ev = events_view(events@);
        let mut builder = MarkdownLineBuilder::new(self);
        let mut i: usize = 0;
        while i < events.len()
            invariant
                0 <= i <= events.len(),
                ev == events_view(events@),
                builder@ == run_events(initial_state(), ev.take(i as int)),
            decreases events.len() - i,
        {
            assert(ev.take(i as int + 1).drop_last() =~= ev.take(i as int));
            builder.handle_event(&events[i]);
            i = i + 1;
        }
        assert(ev.take(events.len() as int) =~= ev);
        builder.finish()
    }

    /// The style of text inside the given markdown elements.
    pub fn get_text_style(
        &self,
        in_heading: bool,
        heading_level: u8,
        in_code_block: bool,
        in_emphasis: bool,
        in_strong: bool,
    ) -> (style: TextStyle)
        ensures
            style == text_style(in_heading, heading_level, in_code_block, in_emphasis, in_strong),
    {
        let mut style = TextStyle::default();
        if in_heading {
            style = match heading_level {
                1 => style.fg(Color::Red).add_modifier(Modifier::Bold),
                2 => style.fg(Color::Yellow).add_modifier(Modifier::Bold),
                3 => style.fg(Color::Green).add_modifier(Modifier::Bold),
                4 => style.fg(Color::Cyan).add_modifier(Modifier::Bold),
                5 => style.fg(Color::Blue).add_modifier(Modifier::Bold),
                _ => style.fg(Color::Magenta).add_modifier(Modifier::Bold),
            };
        }
        if in_code_block {
            style = style.fg(Color::Green).bg(Color::DarkGray);
        }
        if in_emphasis {
            style = style.add_modifier(Modifier::Italic);
        }
        if in_strong {
            style = style.add_modifier(Modifier::Bold);
        }
        style
    }
}

} // verus!

use vstd::prelude::*;
use crate::markdown::MarkdownRenderer;
use crate::style::{
    Color, Line, LineView, Modifier, Span, SpanView, TextStyle, lemma_spans_text_concat,
    lemma_spans_text_single, lemma_spans_width_concat, lines_view, literal, plain_style, spaces,
    spaces_view, spans_text, spans_width,
};

verus! {

/// The width of a boxed code block line, borders included.
pub const BOX_WIDTH: usize = 79;

/// The characters a code line may show between `"│ "` and the right border.
pub const INNER_WIDTH: usize = 76;

/// The style syntect gives a piece of code: a foreground color and font style bits
/// (1 bold, 2 underline, 4 italic).
#[derive(Clone, Copy, Debug, PartialEq, Eq, Structural)]
pub struct TokenStyle {
    pub red: u8,
    pub green: u8,
    pub blue: u8,
    pub font_style: u8,
}

/// A piece of a highlighted code line: its style and its characters.
#[derive(Debug)]
pub struct HighlightSegment {
    pub style: TokenStyle,
    pub text: String,
}

pub type SegmentView = (TokenStyle, Seq<char>);

impl View for HighlightSegment {
    type V = SegmentView;

    open spec fn view(&self) -> SegmentView {
        (self.style, self.text@)
    }
}

/// The view of the highlighted lines of a code block.
pub open spec fn highlight_view(lines: Seq<Vec<HighlightSegment>>) -> Seq<Seq<SegmentView>> {
    lines.map_values(|l: Vec<HighlightSegment>| l@.map_values(|s: HighlightSegment| s@))
}

/// The lines of `s` as `syntect::util::LinesWithEndings` yields them: each up to and including
/// a `'\n'`, and a last one without it when `s` does not end with one. Built up a character at
/// a time: a character joins the last line, unless there is none or it ends with a newline.
pub open spec fn lines_with_endings(s: Seq<char>) -> Seq<Seq<char>>
    decreases s.len(),
{
    if s.len() == 0 {
        Seq::empty()
    } else {
        let prev = lines_with_endings(s.drop_last());
        if prev.len() > 0 && prev.last().len() > 0 && prev.last().last() != '\n' {
            prev.drop_last().push(prev.last().push(s.last()))
        } else {
            prev.push(seq![s.last()])
        }
    }
}

/// The characters of a line's segments, one after the other.
pub open spec fn segments_text(segs: Seq<SegmentView>) -> Seq<char>
    decreases segs.len(),
{
    if segs.len() == 0 {
        Seq::empty()
    } else {
        segments_text(segs.drop_last()) + segs.last().1
    }
}

/// Highlighted lines that are `code`'s lines, each split into segments: one segment list per
/// line of `code`, whose texts joined give that line.
pub open spec fn highlights_lines_of(hl: Seq<Seq<SegmentView>>, code: Seq<char>) -> bool {
    &&& hl.len() == lines_with_endings(code).len()
    &&& forall|i: int| 0 <= i < hl.len() ==> segments_text(#[trigger] hl[i]) == lines_with_endings(code)[i]
}

/// Whether syntect's default syntax set finds a syntax for `token` by `find_syntax_by_token`.
pub uninterp spec fn syntax_known_by_token(token: Seq<char>) -> bool;

/// Whether syntect's default syntax set finds a syntax for `ext` by `find_syntax_by_extension`.
pub uninterp spec fn syntax_known_by_extension(ext: Seq<char>) -> bool;

/// The lines of `code` (split after each newline) highlighted by syntect with the syntax found
/// by token `token` and the theme "base16-ocean.dark", each line as its styled segments.
pub uninterp spec fn token_highlight(code: Seq<char>, token: Seq<char>) -> Seq<Seq<SegmentView>>;

/// As [`token_highlight`], with the syntax found by extension `ext`.
pub uninterp spec fn extension_highlight(code: Seq<char>, ext: Seq<char>) -> Seq<Seq<SegmentView>>;

/// As [`token_highlight`], with the plain text syntax.
pub uninterp spec fn plain_highlight(code: Seq<char>) -> Seq<Seq<SegmentView>>;

#[verifier::external_type_specification]
#[verifier::external_body]
pub struct ExSyntaxReference(syntect::parsing::SyntaxReference);

#[verifier::external_type_specification]
#[verifier::external_body]
pub struct ExSyntectStyle(syntect::highlighting::Style);

impl MarkdownRenderer {
    /// Calls `SyntaxSet::find_syntax_by_token` on the renderer's syntax set (syntect's defaults,
    /// which `new` loads); claimed: the answer is whether it finds a syntax.
    #[verifier::external_body]
    fn has_token_syntax(&self, token: &str) -> (known: bool)
        ensures
            known == syntax_known_by_token(token@),
    {
        self.highlighting.syntax_set.find_syntax_by_token(token).is_some()
    }

    /// Calls `SyntaxSet::find_syntax_by_extension` on the renderer's default syntax set;
    /// claimed: the answer is whether it finds a syntax.
    #[verifier::external_body]
    fn has_extension_syntax(&self, ext: &str) -> (known: bool)
        ensures
            known == syntax_known_by_extension(ext@),
    {
        self.highlighting.syntax_set.find_syntax_by_extension(ext).is_some()
    }

    /// Highlights `code` with the syntax that `SyntaxSet::find_syntax_by_token` finds for
    /// `token`; claimed: the result is what [`token_highlight`] names, with one segment list
    /// per line that `LinesWithEndings` yields, whose texts join to the line (syntect documents
    /// that a line's tokens join to the line; a line it fails on is one segment of the line).
    #[verifier::external_body]
    fn highlight_by_token(&self, code: &str, token: &str) -> (lines: Vec<Vec<HighlightSegment>>)
        requires
            syntax_known_by_token(token@),
        ensures
            highlight_view(lines@) == token_highlight(code@, token@),
            highlights_lines_of(highlight_view(lines@), code@),
    {
        self.highlight_with(self.highlighting.syntax_set.find_syntax_by_token(token).unwrap(), code)
    }

    /// Highlights `code` with the syntax that `SyntaxSet::find_syntax_by_extension` finds for
    /// `ext`; claimed: the result is what [`extension_highlight`] names, split by lines as for
    /// `highlight_by_token`.
    #[verifier::external_body]
    fn highlight_by_extension(&self, code: &str, ext: &str) -> (lines: Vec<Vec<HighlightSegment>>)
        requires
            syntax_known_by_extension(ext@),
        ensures
            highlight_view(lines@) == extension_highlight(code@, ext@),
            highlights_lines_of(highlight_view(lines@), code@),
    {
        self.highlight_with(self.highlighting.syntax_set.find_syntax_by_extension(ext).unwrap(), code)
    }

    /// Highlights `code` with `SyntaxSet::find_syntax_plain_text`; claimed: the result is what
    /// [`plain_highlight`] names, split by lines as for `highlight_by_token`.
    #[verifier::external_body]
    fn highlight_as_plain_text(&self, code: &str) -> (lines: Vec<Vec<HighlightSegment>>)
        ensures
            highlight_view(lines@) == plain_highlight(code@),
            highlights_lines_of(highlight_view(lines@), code@),
    {
        self.highlight_with(self.highlighting.syntax_set.find_syntax_plain_text(), code)
    }

    /// Runs `syntect::easy::HighlightLines::highlight_line` over the lines of `code` (from
    /// `LinesWithEndings`) with theme "base16-ocean.dark"; a line it fails on becomes one
    /// segment in syntect's default style. Nothing is claimed here: the callers above state what is claimed.
    #[verifier::external_body]
    fn highlight_with(&self, syntax: &syntect::parsing::SyntaxReference, code: &str) -> Vec<Vec<HighlightSegment>> {
        let theme = &self.highlighting.theme_set.themes["base16-ocean.dark"];
        let mut highlighter = syntect::easy::HighlightLines::new(syntax, theme);
        let mut lines = Vec::new();
        for line in syntect::util::LinesWithEndings::from(code) {
            let segments = highlighter
                .highlight_line(line, &self.highlighting.syntax_set)
                .unwrap_or_else(|_| vec![(syntect::highlighting::Style::default(), line)]);
            lines.push(segments.into_iter().map(|(s, t)| segment_from_syntect(s, t)).collect());
        }
        lines
    }
}

/// Turns a syntect `TextStyle` and text into a [`HighlightSegment`], field for field.
#[verifier::external_body]
fn segment_from_syntect(style: syntect::highlighting::Style, text: &str) -> HighlightSegment {
    let c = style.foreground;
    let token = TokenStyle { red: c.r, green: c.g, blue: c.b, font_style: style.font_style.bits() };
    HighlightSegment { style: token, text: text.to_string() }
}

/// The highlighting chosen for a code block in `language`: the plain text syntax for no
/// language, else the syntax found by token, else by extension, else plain text.
pub open spec fn chosen_highlight(code: Seq<char>, language: Seq<char>) -> Seq<Seq<SegmentView>> {
    if language.len() == 0 {
        plain_highlight(code)
    } else if syntax_known_by_token(language) {
        token_highlight(code, language)
    } else if syntax_known_by_extension(language) {
        extension_highlight(code, language)
    } else {
        plain_highlight(code)
    }
}

/// The terminal style of a syntect token style: its foreground as an RGB color and its bold,
/// italic and underline bits; no background.
pub open spec fn token_style_to_style(t: TokenStyle) -> TextStyle {
    TextStyle {
        fg: Some(Color::Rgb(t.red, t.green, t.blue)),
        bg: None,
        bold: t.font_style & 1u8 != 0,
        italic: t.font_style & 4u8 != 0,
        underlined: t.font_style & 2u8 != 0,
    }
}

/// The style of box borders.
pub open spec fn border_style() -> TextStyle {
    TextStyle { fg: Some(Color::DarkGray), ..plain_style() }
}

/// `s` without its trailing newline characters.
pub open spec fn trim_trailing_newlines(s: Seq<char>) -> Seq<char>
    decreases s.len(),
{
    if s.len() > 0 && s.last() == '\n' {
        trim_trailing_newlines(s.drop_last())
    } else {
        s
    }
}

/// The spans of a highlighted line: each segment without trailing newlines, in its terminal
/// style, leaving out segments that become empty.
pub open spec fn segment_spans(segs: Seq<SegmentView>) -> LineView
    decreases segs.len(),
{
    if segs.len() == 0 {
        Seq::empty()
    } else {
        let prev = segment_spans(segs.drop_last());
        let t = trim_trailing_newlines(segs.last().1);
        if t.len() > 0 {
            prev.push((t, token_style_to_style(segs.last().0)))
        } else {
            prev
        }
    }
}

/// The first `k` characters of a span sequence, spans kept whole while they fit and the
/// first one that does not fit cut short.
pub open spec fn truncate_spans(spans: LineView, k: nat) -> LineView
    decreases spans.len(),
{
    if k == 0 || spans.len() == 0 {
        Seq::empty()
    } else if spans[0].0.len() <= k {
        seq![spans[0]] + truncate_spans(spans.drop_first(), (k - spans[0].0.len()) as nat)
    } else {
        seq![(spans[0].0.take(k as int), spans[0].1)]
    }
}

/// The content of a code line: its spans, or when they are wider than the box's inside, their
/// first 75 characters and an ellipsis.
pub open spec fn code_line_body(segs: Seq<SegmentView>) -> LineView {
    let spans = segment_spans(segs);
    if spans_width(spans) > INNER_WIDTH {
        truncate_spans(spans, (INNER_WIDTH - 1) as nat).push((seq!['…'], border_style()))
    } else {
        spans
    }
}

/// The padding that brings a line of `used` characters to the box width.
pub open spec fn box_padding(used: nat) -> nat {
    if used <= BOX_WIDTH {
        (BOX_WIDTH - used) as nat
    } else {
        0
    }
}

/// One boxed line of a code block: `"│ "`, the content, padding, `"│"`.
pub open spec fn code_line(segs: Seq<SegmentView>) -> LineView {
    let body = code_line_body(segs);
    seq![(seq!['│', ' '], border_style())] + body + seq![
        (spaces_view(box_padding(3 + spans_width(body))), plain_style()),
        (seq!['│'], border_style()),
    ]
}

/// The line a code block with no line shows: `"│ "`, 76 spaces, `"│"`, as wide as the box.
pub open spec fn empty_code_line() -> LineView {
    seq![
        (seq!['│', ' '], border_style()),
        (spaces_view(INNER_WIDTH as nat), plain_style()),
        (seq!['│'], border_style()),
    ]
}

/// The boxed lines of a highlighted code block.
pub open spec fn code_box_lines(lines: Seq<Seq<SegmentView>>) -> Seq<LineView> {
    if lines.len() == 0 {
        seq![empty_code_line()]
    } else {
        lines.map_values(|l: Seq<SegmentView>| code_line(l))
    }
}

impl MarkdownRenderer {
    /// The terminal style of a syntect token style.
    pub fn syntect_style_to_ratatui(&self, syntect_style: TokenStyle) -> (style: TextStyle)
        ensures
            style == token_style_to_style(syntect_style),
    {
        let mut style = TextStyle::default();
        style = style.fg(Color::Rgb(syntect_style.red, syntect_style.green, syntect_style.blue));
        if syntect_style.font_style & 1u8 != 0 {
            style = style.add_modifier(Modifier::Bold);
        }
        if syntect_style.font_style & 4u8 != 0 {
            style = style.add_modifier(Modifier::Italic);
        }
        if syntect_style.font_style & 2u8 != 0 {
            style = style.add_modifier(Modifier::Underlined);
        }
        style
    }

    /// Highlights a code block and boxes each of its lines.
    pub fn highlight_code_block(&self, code: &str, language: &str) -> (lines: Vec<Line>)
        ensures
            lines_view(lines@) == code_box_lines(chosen_highlight(code@, language@)),
            highlights_lines_of(chosen_highlight(code@, language@), code@),
    {
        let highlighted = if language.is_empty() {
            self.highlight_as_plain_text(code)
        } else if self.has_token_syntax(language) {
            self.highlight_by_token(code, language)
        } else if self.has_extension_syntax(language) {
            self.highlight_by_extension(code, language)
        } else {
            self.highlight_as_plain_text(code)
        };
        let ghost hv = highlight_view(highlighted@);
        let mut lines: Vec<Line> = Vec::new();
        let mut i: usize = 0;
        while i < highlighted.len()
            invariant
                0 <= i <= highlighted.len(),
                hv == highlight_view(highlighted@),
                lines_view(lines@) == hv.take(i as int).map_values(|l: Seq<SegmentView>| code_line(l)),
            decreases highlighted.len() - i,
        {
            let line = self.code_line(&highlighted[i]);
            let ghost before = lines@;
            lines.push(line);
            assert(lines@ =~= before.push(line));
            assert(lines_view(lines@) =~= lines_view(before).push(line@));
            assert(highlighted@[i as int]@.map_values(|s: HighlightSegment| s@) == hv[i as int]);
            assert(lines_view(lines@) =~= hv.take(i as int + 1).map_values(
                |l: Seq<SegmentView>| code_line(l),
            ));
            i = i + 1;
        }
        if lines.len() == 0 {
            proof {
                reveal_strlit("│ ");
                reveal_strlit("│");
            }
            let left = Span::styled(literal("│ "), TextStyle::default().fg(Color::DarkGray));
            let pad = Span::styled(spaces(INNER_WIDTH), TextStyle::default());
            let right = Span::styled(literal("│"), TextStyle::default().fg(Color::DarkGray));
            let ghost expected = empty_code_line();
            assert(left@ == expected[0] && pad@ == expected[1] && right@ == expected[2]);
            let spans = vec![left, pad, right];
            let line = Line::from_spans(spans);
            assert(line@ =~= empty_code_line());
            lines.push(line);
            assert(lines_view(lines@) =~= seq![empty_code_line()]);
        } else {
            assert(hv.take(highlighted.len() as int) =~= hv);
            assert(lines_view(lines@) =~= code_box_lines(hv));
        }
        lines
    }

    /// One boxed code line from its highlighted segments.
    fn code_line(&self, segments: &Vec<HighlightSegment>) -> (line: Line)
        ensures
            line@ == code_line(segments@.map_values(|s: HighlightSegment| s@)),
    {
        let ghost sv = segments@.map_values(|s: HighlightSegment| s@);
        proof {
            reveal_strlit("…");
            reveal_strlit("│ ");
            reveal_strlit("│");
        }
        let spans = self.segment_spans(segments);
        let body = if width_exceeds(&spans, INNER_WIDTH) {
            let mut cut = truncate_spans_to(&spans, INNER_WIDTH - 1);
            let ghost before = cut@;
            let ellipsis = Span::styled(literal("…"), TextStyle::default().fg(Color::DarkGray));
            assert(ellipsis@ == (seq!['…'], border_style()));
            cut.push(ellipsis);
            assert(cut@ =~= before.push(ellipsis));
            assert(spans_view(cut@) =~= spans_view(before).push(ellipsis@));
            cut
        } else {
            spans
        };
        assert(spans_view(body@) == code_line_body(sv));
        proof {
            lemma_code_line_body_width(sv);
        }
        let used = spans_width_exec(&body);
        let mut out: Vec<Span> = Vec::new();
        let head = Span::styled(literal("│ "), TextStyle::default().fg(Color::DarkGray));
        assert(head@ == (seq!['│', ' '], border_style()));
        out.push(head);
        assert(spans_view(out@) =~= seq![(seq!['│', ' '], border_style())] + spans_view(
            body@,
        ).take(0));
        let mut j: usize = 0;
        while j < body.len()
            invariant
                0 <= j <= body.len(),
                spans_view(out@) == seq![(seq!['│', ' '], border_style())] + spans_view(
                    body@,
                ).take(j as int),
            decreases body.len() - j,
        {
            let ghost before = out@;
            let next = body[j].clone();
            out.push(next);
            assert(out@ =~= before.push(next));
            assert(spans_view(out@) =~= spans_view(before).push(spans_view(body@)[j as int]));
            assert(spans_view(out@) =~= seq![(seq!['│', ' '], border_style())] + spans_view(
                body@,
            ).take(j as int + 1));
            j = j + 1;
        }
        let ghost before = out@;
        let pad = Span::styled(spaces(INNER_WIDTH - used), TextStyle::default());
        let right = Span::styled(literal("│"), TextStyle::default().fg(Color::DarkGray));
        assert(pad@ == (spaces_view(box_padding(3 + spans_width(spans_view(body@)))), plain_style()));
        assert(right@ == (seq!['│'], border_style()));
        out.push(pad);
        out.push(right);
        assert(out@ =~= before.push(pad).push(right));
        let line = Line::from_spans(out);
        assert(spans_view(body@).take(body.len() as int) =~= spans_view(body@));
        assert(line@ =~= code_line(sv));
        line
    }

    /// The spans of a highlighted line, as [`segment_spans`] states.
    fn segment_spans(&self, segments: &Vec<HighlightSegment>) -> (spans: Vec<Span>)
        ensures
            spans_view(spans@) == segment_spans(segments@.map_values(|s: HighlightSegment| s@)),
    {
        let ghost sv = segments@.map_values(|s: HighlightSegment| s@);
        let mut spans: Vec<Span> = Vec::new();
        let mut i: usize = 0;
        while i < segments.len()
            invariant
                0 <= i <= segments.len(),
                sv == segments@.map_values(|s: HighlightSegment| s@),
                spans_view(spans@) == segment_spans(sv.take(i as int)),
            decreases segments.len() - i,
        {
            assert(sv.take(i as int + 1).drop_last() =~= sv.take(i as int));
            let text = trim_newlines(segments[i].text.as_str());
            if !text.as_str().is_empty() {
                let style = self.syntect_style_to_ratatui(segments[i].style);
                spans.push(Span::styled(text, style));
            }
            assert(spans_view(spans@) =~= segment_spans(sv.take(i as int + 1)));
            i = i + 1;
        }
        assert(sv.take(segments.len() as int) =~= sv);
        spans
    }
}

/// The view of a vector of spans.
pub open spec fn spans_view(spans: Seq<Span>) -> LineView {
    spans.map_values(|s: Span| s@)
}

/// `s` without its trailing newline characters.
fn trim_newlines(s: &str) -> (r: String)
    ensures
        r@ == trim_trailing_newlines(s@),
{
    let mut end = s.unicode_len();
    assert(s@.take(end as int) =~= s@);
    while end > 0 && s.get_char(end - 1) == '\n'
        invariant
            0 <= end <= s@.len(),
            trim_trailing_newlines(s@) == trim_trailing_newlines(s@.take(end as int)),
        decreases end,
    {
        assert(s@.take(end as int).drop_last() =~= s@.take(end as int - 1));
        end = end - 1;
    }
    proof {
        if end == s@.len() {
            assert(s@.take(end as int) =~= s@);
        }
    }
    String::from_str(s.substring_char(0, end))
}

/// How many characters the spans show, when that is known to be at most the box's inside.
fn spans_width_exec(spans: &Vec<Span>) -> (w: usize)
    requires
        spans_width(spans_view(spans@)) <= INNER_WIDTH,
    ensures
        w == spans_width(spans_view(spans@)),
{
    let ghost v = spans_view(spans@);
    let mut w: usize = 0;
    let mut i: usize = 0;
    while i < spans.len()
        invariant
            0 <= i <= spans.len(),
            v == spans_view(spans@),
            spans_width(v) <= INNER_WIDTH,
            w == spans_width(v.take(i as int)),
        decreases spans.len() - i,
    {
        proof {
            lemma_width_prefix_step(v, i as int);
            lemma_width_prefix_le(v, i as int + 1);
        }
        w = w + spans[i].content.as_str().unicode_len();
        i = i + 1;
    }
    assert(v.take(spans.len() as int) =~= v);
    w
}

/// Whether the spans show more than `limit` characters.
fn width_exceeds(spans: &Vec<Span>, limit: usize) -> (b: bool)
    ensures
        b == (spans_width(spans_view(spans@)) > limit),
{
    let ghost v = spans_view(spans@);
    let mut w: usize = 0;
    let mut i: usize = 0;
    while i < spans.len()
        invariant
            0 <= i <= spans.len(),
            v == spans_view(spans@),
            w == spans_width(v.take(i as int)),
            w <= limit,
        decreases spans.len() - i,
    {
        proof {
            lemma_width_prefix_step(v, i as int);
        }
        let n = spans[i].content.as_str().unicode_len();
        if n > limit - w {
            proof {
                lemma_width_prefix_le(v, i as int + 1);
            }
            return true;
        }
        w = w + n;
        i = i + 1;
    }
    assert(v.take(spans.len() as int) =~= v);
    false
}

/// The first `k` characters of the spans, as [`truncate_spans`] states.
fn truncate_spans_to(spans: &Vec<Span>, k: usize) -> (out: Vec<Span>)
    ensures
        spans_view(out@) == truncate_spans(spans_view(spans@), k as nat),
{
    let ghost v = spans_view(spans@);
    let mut out: Vec<Span> = Vec::new();
    let mut left = k;
    let mut i: usize = 0;
    assert(v.skip(0) =~= v);
    assert(spans_view(out@) + v =~= v);
    while i < spans.len() && left > 0
        invariant
            0 <= i <= spans.len(),
            v == spans_view(spans@),
            truncate_spans(v, k as nat) == spans_view(out@) + truncate_spans(v.skip(i as int), left as nat),
        decreases spans.len() - i,
    {
        let n = spans[i].content.as_str().unicode_len();
        assert(v.skip(i as int).drop_first() =~= v.skip(i as int + 1));
        if n <= left {
            out.push(spans[i].clone());
            left = left - n;
            assert(spans_view(out@) =~= spans_view(out@).drop_last().push(v[i as int]));
            assert(truncate_spans(v, k as nat) =~= spans_view(out@) + truncate_spans(
                v.skip(i as int + 1),
                left as nat,
            ));
            i = i + 1;
        } else {
            let part = String::from_str(spans[i].content.as_str().substring_char(0, left));
            out.push(Span::styled(part, spans[i].style));
            assert(truncate_spans(v.skip(i as int), left as nat) =~= seq![
                (v[i as int].0.take(left as int), v[i as int].1),
            ]);
            assert(truncate_spans(v, k as nat) =~= spans_view(out@));
            return out;
        }
    }
    assert(truncate_spans(v.skip(i as int), left as nat) =~= Seq::<SpanView>::empty());
    assert(spans_view(out@) + Seq::<SpanView>::empty() =~= spans_view(out@));
    out
}

/// Adding one more span to a prefix adds its width.
proof fn lemma_width_prefix_step(v: LineView, i: int)
    requires
        0 <= i < v.len(),
    ensures
        spans_width(v.take(i + 1)) == spans_width(v.take(i)) + v[i].0.len(),
{
    assert(v.take(i + 1) =~= v.take(i) + seq![v[i]]);
    lemma_spans_width_concat(v.take(i), seq![v[i]]);
    lemma_spans_text_single(v[i]);
}

/// A prefix of a span sequence is no wider than the sequence.
proof fn lemma_width_prefix_le(v: LineView, i: int)
    requires
        0 <= i <= v.len(),
    ensures
        spans_width(v.take(i)) <= spans_width(v),
{
    assert(v =~= v.take(i) + v.skip(i));
    lemma_spans_width_concat(v.take(i), v.skip(i));
}

/// Truncating to `k` characters leaves at most `k`, and exactly `k` when there were more.
pub proof fn lemma_truncate_width(spans: LineView, k: nat)
    ensures
        spans_width(truncate_spans(spans, k)) <= k,
        spans_width(spans) >= k ==> spans_width(truncate_spans(spans, k)) == k,
    decreases spans.len(),
{
    if spans.len() > 0 {
        assert(spans =~= seq![spans[0]] + spans.drop_first());
        lemma_spans_width_concat(seq![spans[0]], spans.drop_first());
        lemma_spans_text_single(spans[0]);
    }
    if k == 0 || spans.len() == 0 {
        assert(spans_width(Seq::<SpanView>::empty()) == 0) by {
            assert(crate::style::spans_text(Seq::<SpanView>::empty()) =~= Seq::<char>::empty());
        }
    } else if spans[0].0.len() <= k {
        let rest = (k - spans[0].0.len()) as nat;
        lemma_truncate_width(spans.drop_first(), rest);
        lemma_spans_width_concat(seq![spans[0]], truncate_spans(spans.drop_first(), rest));
    } else {
        lemma_spans_text_single((spans[0].0.take(k as int), spans[0].1));
    }
}

/// The content of a code line is never wider than the box's inside.
pub proof fn lemma_code_line_body_width(segs: Seq<SegmentView>)
    ensures
        spans_width(code_line_body(segs)) <= INNER_WIDTH,
{
    let spans = segment_spans(segs);
    if spans_width(spans) > INNER_WIDTH {
        let cut = truncate_spans(spans, (INNER_WIDTH - 1) as nat);
        lemma_truncate_width(spans, (INNER_WIDTH - 1) as nat);
        assert(cut.push((seq!['…'], border_style())) =~= cut + seq![(seq!['…'], border_style())]);
        lemma_spans_width_concat(cut, seq![(seq!['…'], border_style())]);
        lemma_spans_text_single((seq!['…'], border_style()));
    }
}

/// Every boxed code line with content is exactly as wide as the box: 79 characters.
pub proof fn lemma_code_line_width(segs: Seq<SegmentView>)
    ensures
        spans_width(code_line(segs)) == BOX_WIDTH,
{
    let body = code_line_body(segs);
    lemma_code_line_body_width(segs);
    let head = seq![(seq!['│', ' '], border_style())];
    let tail = seq![
        (spaces_view(box_padding(3 + spans_width(body))), plain_style()),
        (seq!['│'], border_style()),
    ];
    lemma_spans_width_concat(head, body);
    lemma_spans_width_concat(head + body, tail);
    lemma_spans_text_single(head[0]);
    assert(tail =~= seq![tail[0]] + seq![tail[1]]);
    lemma_spans_width_concat(seq![tail[0]], seq![tail[1]]);
    lemma_spans_text_single(tail[0]);
    lemma_spans_text_single(tail[1]);
}

/// The source line `t` without its line ending: its final `'\n'`, if it has one.
pub open spec fn without_line_ending(t: Seq<char>) -> Seq<char> {
    if t.len() > 0 && t.last() == '\n' {
        t.drop_last()
    } else {
        t
    }
}

/// Whether `t` holds a `'\n'` only as its last character, if at all: one line of source.
pub open spec fn is_one_line(t: Seq<char>) -> bool {
    forall|i: int| 0 <= i < t.len() - 1 ==> t[i] != '\n'
}

/// Trimming the trailing newlines of a single line removes just its line ending.
proof fn lemma_trim_one_line(x: Seq<char>)
    requires
        is_one_line(x),
    ensures
        trim_trailing_newlines(x) == without_line_ending(x),
{
    if x.len() > 0 && x.last() == '\n' {
        let y = x.drop_last();
        assert(trim_trailing_newlines(x) == trim_trailing_newlines(y));
        if y.len() > 0 {
            assert(y.last() == x[x.len() - 2]);
        }
        assert(trim_trailing_newlines(y) == y);
    }
}

/// The spans of a highlighted source line show the line without its line ending.
proof fn lemma_segment_spans_text(segs: Seq<SegmentView>)
    requires
        is_one_line(segments_text(segs)),
    ensures
        spans_text(segment_spans(segs)) == without_line_ending(segments_text(segs)),
    decreases segs.len(),
{
    if segs.len() == 0 {
        assert(spans_text(Seq::<SpanView>::empty()) =~= Seq::<char>::empty());
    } else {
        let prev = segs.drop_last();
        let tp = segments_text(prev);
        let x = segs.last().1;
        let t = segments_text(segs);
        assert(t == tp + x);
        assert forall|i: int| 0 <= i < tp.len() - 1 implies tp[i] != '\n' by {
            assert(t[i] == tp[i]);
        }
        lemma_segment_spans_text(prev);
        if x.len() == 0 {
            assert(t =~= tp);
            lemma_trim_one_line(x);
        } else {
            assert forall|i: int| 0 <= i < x.len() - 1 implies x[i] != '\n' by {
                assert(t[tp.len() + i] == x[i]);
            }
            lemma_trim_one_line(x);
            if tp.len() > 0 {
                assert(t[tp.len() - 1] == tp.last());
            }
            assert(without_line_ending(tp) == tp);
            let sp = segment_spans(prev);
            let tr = trim_trailing_newlines(x);
            if tr.len() > 0 {
                let pushed = (tr, token_style_to_style(segs.last().0));
                assert(segment_spans(segs) == sp.push(pushed));
                assert(sp.push(pushed).drop_last() =~= sp);
                assert(spans_text(sp.push(pushed)) == spans_text(sp) + tr);
                assert(t.last() == x.last());
                if x.last() == '\n' {
                    assert(t.drop_last() =~= tp + x.drop_last());
                } else {
                    assert(without_line_ending(t) == t);
                }
            } else {
                assert(x =~= seq!['\n']);
                assert(t.drop_last() =~= tp);
            }
        }
    }
}

/// Law: a source line that fits the box is shown whole, indentation and spaces included:
/// its boxed line is `"│ "`, the line without its line ending, padding to 79 characters, and
/// `"│"`.
pub proof fn lemma_code_line_shows_source(segs: Seq<SegmentView>)
    requires
        is_one_line(segments_text(segs)),
        without_line_ending(segments_text(segs)).len() <= INNER_WIDTH,
    ensures
        ({
            let line = without_line_ending(segments_text(segs));
            spans_text(code_line(segs)) == seq!['│', ' '] + line + spaces_view(
                (INNER_WIDTH - line.len()) as nat,
            ) + seq!['│']
        }),
{
    let line = without_line_ending(segments_text(segs));
    lemma_segment_spans_text(segs);
    let body = code_line_body(segs);
    assert(body == segment_spans(segs));
    let head = seq![(seq!['│', ' '], border_style())];
    let tail = seq![
        (spaces_view(box_padding(3 + spans_width(body))), plain_style()),
        (seq!['│'], border_style()),
    ];
    assert(code_line(segs) == head + body + tail);
    lemma_spans_text_concat(head, body);
    lemma_spans_text_concat(head + body, tail);
    lemma_spans_text_single(head[0]);
    assert(tail =~= seq![tail[0]] + seq![tail[1]]);
    lemma_spans_text_concat(seq![tail[0]], seq![tail[1]]);
    lemma_spans_text_single(tail[0]);
    lemma_spans_text_single(tail[1]);
    assert(box_padding(3 + spans_width(body)) == (INNER_WIDTH - line.len()) as nat);
}

/// Each line that `LinesWithEndings` yields holds a `'\n'` only at its end.
proof fn lemma_lines_with_endings_one_line(s: Seq<char>)
    ensures
        forall|k: int| 0 <= k < lines_with_endings(s).len() ==> is_one_line(#[trigger] lines_with_endings(s)[k]),
    decreases s.len(),
{
    if s.len() > 0 {
        let prev = lines_with_endings(s.drop_last());
        lemma_lines_with_endings_one_line(s.drop_last());
        let ls = lines_with_endings(s);
        if prev.len() > 0 && prev.last().len() > 0 && prev.last().last() != '\n' {
            let l = prev.last();
            assert(is_one_line(prev[prev.len() - 1]));
            assert forall|k: int| 0 <= k < ls.len() implies is_one_line(#[trigger] ls[k]) by {
                if k < prev.len() - 1 {
                    assert(ls[k] == prev[k]);
                } else {
                    assert(ls[k] == l.push(s.last()));
                    assert forall|j: int| 0 <= j < l.push(s.last()).len() - 1 implies l.push(s.last())[j] != '\n' by {
                        assert(l.push(s.last())[j] == l[j]);
                    }
                }
            }
        } else {
            assert forall|k: int| 0 <= k < ls.len() implies is_one_line(#[trigger] ls[k]) by {
                if k < prev.len() {
                    assert(ls[k] == prev[k]);
                }
            }
        }
    }
}

/// Law: when every line of a code block fits the box, its highlighted, boxed lines show the
/// block's source lines in order, each whole (indentation and spaces included) without its
/// line ending, between `"│ "` and padding to 79 characters and `"│"`.
pub proof fn lemma_code_box_shows_source(hl: Seq<Seq<SegmentView>>, code: Seq<char>)
    requires
        highlights_lines_of(hl, code),
        hl.len() > 0,
        forall|k: int| 0 <= k < lines_with_endings(code).len()
            ==> without_line_ending(#[trigger] lines_with_endings(code)[k]).len() <= INNER_WIDTH,
    ensures
        code_box_lines(hl).len() == lines_with_endings(code).len(),
        forall|k: int| 0 <= k < code_box_lines(hl).len() ==> {
            let line = without_line_ending(lines_with_endings(code)[k]);
            spans_text(#[trigger] code_box_lines(hl)[k]) == seq!['│', ' '] + line + spaces_view(
                (INNER_WIDTH - line.len()) as nat,
            ) + seq!['│']
        },
{
    lemma_lines_with_endings_one_line(code);
    assert forall|k: int| 0 <= k < code_box_lines(hl).len() implies {
        let line = without_line_ending(lines_with_endings(code)[k]);
        spans_text(#[trigger] code_box_lines(hl)[k]) == seq!['│', ' '] + line + spaces_view(
            (INNER_WIDTH - line.len()) as nat,
        ) + seq!['│']
    } by {
        assert(segments_text(hl[k]) == lines_with_endings(code)[k]);
        assert(is_one_line(lines_with_endings(code)[k]));
        lemma_code_line_shows_source(hl[k]);
        assert(code_box_lines(hl)[k] == code_line(hl[k]));
    }
}

} // verus!

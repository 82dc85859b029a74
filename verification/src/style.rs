use vstd::prelude::*;

verus! {

/// A terminal color.
#[derive(Clone, Copy, Debug, PartialEq, Eq, Hash, Structural)]
pub enum Color {
    Reset,
    Black,
    Red,
    Green,
    Yellow,
    Blue,
    Magenta,
    Cyan,
    Gray,
    DarkGray,
    LightRed,
    LightGreen,
    LightYellow,
    LightBlue,
    LightMagenta,
    LightCyan,
    White,
    Rgb(u8, u8, u8),
    Indexed(u8),
}

/// A text attribute that can be switched on in a [`TextStyle`].
#[derive(Clone, Copy, Debug, PartialEq, Eq, Hash, Structural)]
pub enum Modifier {
    Bold,
    Italic,
    Underlined,
}

/// The style of a piece of text: colors and attributes.
#[derive(Clone, Copy, Debug, PartialEq, Eq, Hash, Structural)]
pub struct TextStyle {
    pub fg: Option<Color>,
    pub bg: Option<Color>,
    pub bold: bool,
    pub italic: bool,
    pub underlined: bool,
}

/// The style with no color and no attribute.
pub open spec fn plain_style() -> TextStyle {
    TextStyle { fg: None, bg: None, bold: false, italic: false, underlined: false }
}

impl Default for TextStyle {
    fn default() -> (s: TextStyle)
        ensures
            s == plain_style(),
    {
        TextStyle { fg: None, bg: None, bold: false, italic: false, underlined: false }
    }
}

impl TextStyle {
    /// The same style with the foreground color `c`.
    pub fn fg(self, c: Color) -> (s: TextStyle)
        ensures
            s == (TextStyle { fg: Some(c), ..self }),
    {
        TextStyle { fg: Some(c), ..self }
    }

    /// The same style with the background color `c`.
    pub fn bg(self, c: Color) -> (s: TextStyle)
        ensures
            s == (TextStyle { bg: Some(c), ..self }),
    {
        TextStyle { bg: Some(c), ..self }
    }

    /// The same style with the attribute `m` switched on.
    pub fn add_modifier(self, m: Modifier) -> (s: TextStyle)
        ensures
            s == self.with_modifier(m),
    {
        match m {
            Modifier::Bold => TextStyle { bold: true, ..self },
            Modifier::Italic => TextStyle { italic: true, ..self },
            Modifier::Underlined => TextStyle { underlined: true, ..self },
        }
    }

    pub open spec fn with_modifier(self, m: Modifier) -> TextStyle {
        match m {
            Modifier::Bold => TextStyle { bold: true, ..self },
            Modifier::Italic => TextStyle { italic: true, ..self },
            Modifier::Underlined => TextStyle { underlined: true, ..self },
        }
    }
}

/// A piece of text in one style.
#[derive(Debug)]
pub struct Span {
    pub content: String,
    pub style: TextStyle,
}

/// A span as the specification sees it: its characters and its style.
pub type SpanView = (Seq<char>, TextStyle);

/// A line as the specification sees it: its spans in order.
pub type LineView = Seq<SpanView>;

impl View for Span {
    type V = SpanView;

    open spec fn view(&self) -> SpanView {
        (self.content@, self.style)
    }
}

impl Clone for Span {
    fn clone(&self) -> (s: Span)
        ensures
            s@ == self@,
    {
        Span { content: self.content.clone(), style: self.style }
    }
}

impl Span {
    pub fn styled(content: String, style: TextStyle) -> (s: Span)
        ensures
            s@ == (content@, style),
    {
        Span { content, style }
    }
}

/// One line of rendered text: a sequence of styled spans.
#[derive(Debug)]
pub struct Line {
    pub spans: Vec<Span>,
}

impl View for Line {
    type V = LineView;

    open spec fn view(&self) -> LineView {
        self.spans@.map_values(|s: Span| s@)
    }
}

impl Line {
    pub fn from_spans(spans: Vec<Span>) -> (l: Line)
        ensures
            l@ == spans@.map_values(|s: Span| s@),
    {
        Line { spans }
    }

    /// The line with no span.
    pub fn empty() -> (l: Line)
        ensures
            l@ == Seq::<SpanView>::empty(),
    {
        let l = Line { spans: Vec::new() };
        assert(l@ =~= Seq::<SpanView>::empty());
        l
    }

    /// The characters of the line: the contents of its spans, joined.
    pub fn text(&self) -> (t: String)
        ensures
            t@ == spans_text(self@),
    {
        let mut t = String::new();
        let mut i: usize = 0;
        while i < self.spans.len()
            invariant
                0 <= i <= self.spans.len(),
                t@ == spans_text(self@.take(i as int)),
            decreases self.spans.len() - i,
        {
            t.append(self.spans[i].content.as_str());
            assert(self@.take(i as int + 1).drop_last() =~= self@.take(i as int));
            i = i + 1;
        }
        assert(self@.take(self.spans.len() as int) =~= self@);
        t
    }
}

/// The characters of a sequence of spans, joined in order.
pub open spec fn spans_text(spans: LineView) -> Seq<char>
    decreases spans.len(),
{
    if spans.len() == 0 {
        Seq::empty()
    } else {
        spans_text(spans.drop_last()) + spans.last().0
    }
}

/// The view of a sequence of lines.
pub open spec fn lines_view(lines: Seq<Line>) -> Seq<LineView> {
    lines.map_values(|l: Line| l@)
}

/// Rendered text: a sequence of lines.
#[derive(Debug)]
pub struct Text {
    pub lines: Vec<Line>,
}

impl View for Text {
    type V = Seq<LineView>;

    open spec fn view(&self) -> Seq<LineView> {
        lines_view(self.lines@)
    }
}

/// The text of two span sequences laid side by side is the two texts joined.
pub proof fn lemma_spans_text_concat(a: LineView, b: LineView)
    ensures
        spans_text(a + b) == spans_text(a) + spans_text(b),
    decreases b.len(),
{
    if b.len() == 0 {
        assert(a + b =~= a);
        assert(spans_text(b) =~= Seq::<char>::empty());
        assert(spans_text(a) + spans_text(b) =~= spans_text(a));
    } else {
        lemma_spans_text_concat(a, b.drop_last());
        assert((a + b).drop_last() =~= a + b.drop_last());
        assert((a + b).last() == b.last());
    }
}

/// `n` space characters.
pub open spec fn spaces_view(n: nat) -> Seq<char> {
    Seq::new(n, |i: int| ' ')
}

/// A string of `n` spaces.
pub fn spaces(n: usize) -> (s: String)
    ensures
        s@ == spaces_view(n as nat),
{
    let mut s = String::new();
    let mut i: usize = 0;
    proof {
        reveal_strlit(" ");
    }
    while i < n
        invariant
            0 <= i <= n,
            s@ == spaces_view(i as nat),
            " "@ == seq![' '],
        decreases n - i,
    {
        s.append(" ");
        assert(s@ =~= spaces_view((i + 1) as nat));
        i = i + 1;
    }
    s
}

/// `n` copies of the character `c`.
pub open spec fn repeat_view(c: char, n: nat) -> Seq<char> {
    Seq::new(n, |i: int| c)
}

} // verus!

verus! {

/// A string of the characters of a string slice, such as a literal.
pub fn literal(s: &str) -> (r: String)
    ensures
        r@ == s@,
{
    String::from_str(s)
}

/// `String::push` appends one character.
#[verifier::external_body]
pub fn push_char(s: &mut String, c: char)
    ensures
        final(s)@ == old(s)@.push(c),
{
    s.push(c);
}

/// How many characters a span sequence shows.
pub open spec fn spans_width(spans: LineView) -> nat {
    spans_text(spans).len()
}

/// The width of spans laid side by side is the sum of their widths.
pub proof fn lemma_spans_width_concat(a: LineView, b: LineView)
    ensures
        spans_width(a + b) == spans_width(a) + spans_width(b),
{
    lemma_spans_text_concat(a, b);
}

/// A single span shows exactly its own characters.
pub proof fn lemma_spans_text_single(s: SpanView)
    ensures
        spans_text(seq![s]) == s.0,
{
    assert(seq![s].drop_last() =~= Seq::<SpanView>::empty());
    assert(spans_text(Seq::<SpanView>::empty()) =~= Seq::<char>::empty());
    assert(Seq::<char>::empty() + s.0 =~= s.0);
}

} // verus!

use vstd::prelude::*;
use crate::markdown::{MarkdownRenderer, render_event_lines};
use crate::events::markdown_events;
use crate::style::{LineView, Text, spans_text};
use vstd::utf8::{encode_scalar, encode_utf8};

verus! {

/// Whether keys move through the document or edit the search query.
#[derive(Clone, Copy, Debug, PartialEq, Eq, Structural)]
pub enum AppMode {
    Normal,
    Search,
}

/// Where a search query was found: the line, and the byte offsets in the line's lowercased
/// text (UTF-8) where the finding starts and ends.
#[derive(Clone, Copy, Debug, PartialEq, Eq, Structural)]
pub struct SearchResult {
    pub line_index: usize,
    pub char_start: usize,
    pub char_end: usize,
}

/// The search in progress: its query, where it was found, and which finding is current.
#[derive(Clone, Debug)]
pub struct SearchState {
    pub query: String,
    pub results: Vec<SearchResult>,
    pub current_result_index: Option<usize>,
    pub is_active: bool,
}

impl Default for SearchState {
    fn default() -> (s: SearchState)
        ensures
            s.is_cleared(),
    {
        SearchState { query: String::new(), results: Vec::new(), current_result_index: None, is_active: false }
    }
}

impl SearchState {
    /// No query, no result, no current result, not active.
    pub open spec fn is_cleared(&self) -> bool {
        &&& self.query@ == Seq::<char>::empty()
        &&& self.results@ == Seq::<SearchResult>::empty()
        &&& self.current_result_index is None
        &&& !self.is_active
    }

    /// There is a current result exactly when there are results, and it is one of them.
    pub open spec fn wf(&self) -> bool {
        &&& (self.current_result_index is Some <==> self.results@.len() > 0)
        &&& (self.current_result_index matches Some(i) ==> i < self.results@.len())
    }
}

/// A key press, as far as the viewer tells keys apart.
#[derive(Clone, Copy, Debug, PartialEq, Eq, Structural)]
pub enum Key {
    Char(char),
    Up,
    Down,
    PageUp,
    PageDown,
    Home,
    End,
    Backspace,
    Enter,
    Esc,
    Other,
}

/// What the caller is to do after a key or a watcher report was handled.
#[derive(Clone, Copy, Debug, PartialEq, Eq, Structural)]
pub enum KeyOutcome {
    /// Nothing more.
    Done,
    /// Read the file again and hand its text to [`App::reload_content`].
    ReloadRequested,
}

/// What the file watcher reports: the file changed, or watching it failed (with the error's
/// text).
#[derive(Clone, Debug, PartialEq, Eq)]
pub enum WatchEvent {
    Changed,
    Failed(String),
}

/// The state of the viewer.
pub struct App {
    pub file_name: String,
    pub renderer: MarkdownRenderer,
    pub rendered_content: Text,
    pub scroll_offset: usize,
    pub content_length: usize,
    pub viewport_height: usize,
    pub watching: bool,
    pub should_quit: bool,
    pub mode: AppMode,
    pub search_state: SearchState,
    pub status_message: Option<String>,
}

/// `a - b`, or 0 when `b` is larger.
pub open spec fn sat_sub(a: int, b: int) -> int {
    if a >= b {
        a - b
    } else {
        0
    }
}

pub open spec fn min(a: int, b: int) -> int {
    if a <= b {
        a
    } else {
        b
    }
}

pub open spec fn max(a: int, b: int) -> int {
    if a >= b {
        a
    } else {
        b
    }
}

/// The last line the view may start at.
pub open spec fn last_line(content_length: int) -> int {
    sat_sub(content_length, 1)
}

/// Half a page, at least one line.
pub open spec fn half_page(viewport_height: int) -> int {
    max(viewport_height / 2, 1)
}

/// A page, at least one line.
pub open spec fn full_page(viewport_height: int) -> int {
    max(viewport_height, 1)
}

/// Moving down by `n` lines: the offset grows by `n` but stops at the last line.
pub open spec fn scrolled_down(offset: int, n: int, content_length: int) -> int {
    min(offset + n, last_line(content_length))
}

/// The offset that shows line `target` about half a page from the top, without scrolling
/// past the last full page.
pub open spec fn offset_for_line(target: int, viewport_height: int, content_length: int) -> int {
    min(sat_sub(target, half_page(viewport_height)), sat_sub(content_length, full_page(viewport_height)))
}

/// The lowercase form of a string, as `str::to_lowercase` computes it.
pub uninterp spec fn lowercase(s: Seq<char>) -> Seq<char>;

/// Calls `str::to_lowercase`; claimed: the result is what [`lowercase`] names, and it is
/// empty exactly when `s` is (each character lowers to one or more characters).
#[verifier::external_body]
fn to_lowercase(s: &str) -> (r: String)
    ensures
        r@ == lowercase(s@),
        (r@.len() == 0) == (s@.len() == 0),
{
    s.to_lowercase()
}

/// Whether `q` occurs in `text` at position `p`.
pub open spec fn occurs_at(text: Seq<char>, q: Seq<char>, p: int) -> bool {
    &&& 0 <= p
    &&& p + q.len() <= text.len()
    &&& text.subrange(p, p + q.len()) == q
}

/// How many bytes the UTF-8 encoding of the first `p` characters of `text` takes.
pub open spec fn byte_offset(text: Seq<char>, p: int) -> nat {
    encode_utf8(text.take(p)).len()
}

/// The occurrences of `q` in `text` that start before position `upto`, in order, each as its
/// line and its start and end byte offsets.
pub open spec fn line_occurrences(line_index: nat, text: Seq<char>, q: Seq<char>, upto: nat) -> Seq<(nat, nat, nat)>
    decreases upto,
{
    if upto == 0 {
        Seq::empty()
    } else {
        let p = (upto - 1) as nat;
        let prev = line_occurrences(line_index, text, q, p);
        if occurs_at(text, q, p as int) {
            prev.push(match_at(text, q, line_index, p as int))
        } else {
            prev
        }
    }
}

/// Every occurrence of `q` in the lowercased text of the lines, line by line, left to right.
pub open spec fn search_matches(lines: Seq<LineView>, q: Seq<char>) -> Seq<(nat, nat, nat)>
    decreases lines.len(),
{
    if lines.len() == 0 {
        Seq::empty()
    } else {
        let i = lines.len() - 1;
        let text = lowercase(spans_text(lines[i]));
        search_matches(lines.drop_last(), q) + line_occurrences(i as nat, text, q, text.len())
    }
}

/// The view of search results.
pub open spec fn results_view(results: Seq<SearchResult>) -> Seq<(nat, nat, nat)> {
    results.map_values(|r: SearchResult| (r.line_index as nat, r.char_start as nat, r.char_end as nat))
}

/// The characters of a string, one by one.
fn chars_of(s: &str) -> (v: Vec<char>)
    ensures
        v@ == s@,
{
    let n = s.unicode_len();
    let mut v: Vec<char> = Vec::new();
    let mut i: usize = 0;
    while i < n
        invariant
            0 <= i <= n,
            n == s@.len(),
            v@ == s@.take(i as int),
        decreases n - i,
    {
        v.push(s.get_char(i));
        assert(v@ =~= s@.take(i as int + 1));
        i = i + 1;
    }
    assert(s@.take(n as int) =~= s@);
    v
}

/// Whether `q` occurs in `text` at position `p`.
fn occurs_at_exec(text: &Vec<char>, q: &Vec<char>, p: usize) -> (b: bool)
    ensures
        b == occurs_at(text@, q@, p as int),
{
    if q.len() > text.len() || p > text.len() - q.len() {
        return false;
    }
    let mut j: usize = 0;
    while j < q.len()
        invariant
            0 <= j <= q.len(),
            p + q.len() <= text.len(),
            forall|k: int| 0 <= k < j ==> text@[p + k] == q@[k],
        decreases q.len() - j,
    {
        if text[p + j] != q[j] {
            assert(text@.subrange(p as int, p + q.len())[j as int] != q@[j as int]);
            return false;
        }
        j = j + 1;
    }
    assert(text@.subrange(p as int, p + q.len()) =~= q@);
    true
}

/// How many bytes the UTF-8 encoding of `c` takes.
fn utf8_width(c: char) -> (w: usize)
    ensures
        w == encode_scalar(c as u32).len(),
        1 <= w <= 4,
{
    proof {
        vstd::utf8::char_is_scalar(c);
    }
    let v = c as u32;
    if v <= 0x7f {
        1
    } else if v <= 0x7ff {
        2
    } else if v <= 0xffff {
        3
    } else {
        4
    }
}

/// The encoding of two character sequences laid end to end is their encodings laid end to end.
proof fn lemma_encode_concat(a: Seq<char>, b: Seq<char>)
    ensures
        encode_utf8(a + b) == encode_utf8(a) + encode_utf8(b),
    decreases a.len(),
{
    if a.len() == 0 {
        assert(a + b =~= b);
        assert(encode_utf8(a) =~= Seq::<u8>::empty());
        assert(encode_utf8(a) + encode_utf8(b) =~= encode_utf8(b));
    } else {
        lemma_encode_concat(a.drop_first(), b);
        assert((a + b).drop_first() =~= a.drop_first() + b);
        assert((a + b)[0] == a[0]);
        assert(encode_utf8(a + b) =~= encode_scalar(a[0] as u32) + encode_utf8(a.drop_first() + b));
    }
}

/// One more character adds its width to the byte offset.
proof fn lemma_byte_offset_step(text: Seq<char>, p: int)
    requires
        0 <= p < text.len(),
    ensures
        byte_offset(text, p + 1) == byte_offset(text, p) + encode_scalar(text[p] as u32).len(),
{
    assert(text.take(p + 1) =~= text.take(p) + seq![text[p]]);
    lemma_encode_concat(text.take(p), seq![text[p]]);
    assert(seq![text[p]].drop_first() =~= Seq::<char>::empty());
    assert(encode_utf8(Seq::<char>::empty()) =~= Seq::<u8>::empty());
    assert(encode_utf8(seq![text[p]]) =~= encode_scalar(text[p] as u32));
}

/// An occurrence ends within the text's encoding.
proof fn lemma_occurrence_bytes(text: Seq<char>, q: Seq<char>, p: int)
    requires
        occurs_at(text, q, p),
    ensures
        byte_offset(text, p) + encode_utf8(q).len() <= encode_utf8(text).len(),
{
    let end = p + q.len();
    assert(text =~= text.take(p) + q + text.skip(end));
    lemma_encode_concat(text.take(p) + q, text.skip(end));
    lemma_encode_concat(text.take(p), q);
}

/// Adds the occurrences of `q` in `text` to `out`; `total` and `q_bytes` are the lengths of
/// the UTF-8 encodings of `text` and `q`.
fn push_line_matches(
    line_index: usize,
    text: &Vec<char>,
    total: usize,
    q: &Vec<char>,
    q_bytes: usize,
    out: &mut Vec<SearchResult>,
)
    requires
        total == encode_utf8(text@).len(),
        q_bytes == encode_utf8(q@).len(),
    ensures
        results_view(final(out)@) == results_view(old(out)@) + line_occurrences(
            line_index as nat,
            text@,
            q@,
            text@.len(),
        ),
{
    let ghost start = results_view(out@);
    let mut p: usize = 0;
    let mut byte_pos: usize = 0;
    assert(text@.take(0) =~= Seq::<char>::empty());
    assert(encode_utf8(Seq::<char>::empty()) =~= Seq::<u8>::empty());
    while p < text.len()
        invariant
            0 <= p <= text.len(),
            total == encode_utf8(text@).len(),
            q_bytes == encode_utf8(q@).len(),
            byte_pos == byte_offset(text@, p as int),
            results_view(out@) == start + line_occurrences(line_index as nat, text@, q@, p as nat),
        decreases text.len() - p,
    {
        if occurs_at_exec(text, q, p) {
            proof {
                lemma_occurrence_bytes(text@, q@, p as int);
            }
            let ghost before = out@;
            out.push(SearchResult { line_index, char_start: byte_pos, char_end: byte_pos + q_bytes });
            assert(results_view(out@) =~= results_view(before).push(
                (line_index as nat, byte_pos as nat, (byte_pos + q_bytes) as nat),
            ));
        }
        assert(results_view(out@) =~= start + line_occurrences(line_index as nat, text@, q@, (p + 1) as nat));
        proof {
            lemma_byte_offset_step(text@, p as int);
            assert(text@ =~= text@.take(p as int + 1) + text@.skip(p as int + 1));
            lemma_encode_concat(text@.take(p as int + 1), text@.skip(p as int + 1));
        }
        byte_pos = byte_pos + utf8_width(text[p]);
        p = p + 1;
    }
}

impl App {
    /// Whether the state is consistent: the content length is the number of rendered lines,
    /// the view starts at a line of the document, and the search state is consistent.
    pub open spec fn wf(&self) -> bool {
        &&& self.content_length == self.rendered_content.lines@.len()
        &&& self.scroll_offset <= last_line(self.content_length as int)
        &&& self.search_state.wf()
    }

    /// A viewer of the renderer's document, at the top, in normal mode.
    pub fn new(file_name: String, renderer: MarkdownRenderer, watch: bool) -> (app: App)
        ensures
            app.wf(),
            app.file_name@ == file_name@,
            app.rendered_content@ == render_event_lines(markdown_events(renderer@)),
            app.renderer@ == renderer@,
            app.scroll_offset == 0,
            app.content_length == app.rendered_content.lines@.len(),
            app.viewport_height == 24,
            app.watching == watch,
            !app.should_quit,
            app.mode == AppMode::Normal,
            app.search_state.is_cleared(),
            app.status_message is None,
    {
        let rendered_content = renderer.render_to_text();
        let content_length = rendered_content.lines.len();
        App {
            file_name,
            renderer,
            rendered_content,
            scroll_offset: 0,
            content_length,
            viewport_height: 24,
            watching: watch,
            should_quit: false,
            mode: AppMode::Normal,
            search_state: SearchState::default(),
            status_message: None,
        }
    }

    /// Handles a key press in the current mode, after clearing the status message.
    pub fn handle_key_event(&mut self, key: Key) -> (outcome: KeyOutcome)
        ensures
            old(self).wf() ==> final(self).wf(),
            old(self).mode == AppMode::Normal ==> normal_key_effect(
                &App { status_message: None, ..*old(self) },
                key,
                final(self),
                outcome,
            ),
            old(self).mode == AppMode::Search ==> search_key_effect(
                &App { status_message: None, ..*old(self) },
                key,
                final(self),
            ) && outcome == KeyOutcome::Done,
    {
        self.status_message = None;
        match self.mode {
            AppMode::Normal => self.handle_normal_mode_key(key),
            AppMode::Search => {
                self.handle_search_mode_key(key);
                KeyOutcome::Done
            },
        }
    }

    /// Handles a key in normal mode: quit, search, movement; `r` asks for a reload.
    pub fn handle_normal_mode_key(&mut self, key: Key) -> (outcome: KeyOutcome)
        ensures
            old(self).wf() ==> final(self).wf(),
            normal_key_effect(old(self), key, final(self), outcome),
    {
        match key {
            Key::Char('q') => {
                self.should_quit = true;
            },
            Key::Char('/') => {
                self.start_search();
            },
            Key::Char('n') => {
                self.next_search_result();
            },
            Key::Char('N') => {
                self.previous_search_result();
            },
            Key::Char('r') => {
                return KeyOutcome::ReloadRequested;
            },
            Key::Up | Key::Char('k') => {
                self.scroll_up();
            },
            Key::Down | Key::Char('j') => {
                self.scroll_down();
            },
            Key::Char('u') => {
                self.scroll_half_page_up();
            },
            Key::Char('d') => {
                self.scroll_half_page_down();
            },
            Key::PageUp | Key::Char('b') => {
                self.scroll_page_up();
            },
            Key::PageDown | Key::Char('f') => {
                self.scroll_page_down();
            },
            Key::Home | Key::Char('g') => {
                self.scroll_to_top();
            },
            Key::End | Key::Char('G') => {
                self.scroll_to_bottom();
            },
            Key::Char('K') => {
                self.scroll_offset = self.scroll_offset.saturating_sub(5);
            },
            Key::Char('J') => {
                self.scroll_offset = min_usize(self.scroll_offset.saturating_add(5), self.content_length.saturating_sub(1));
            },
            Key::Char('M') => {
                self.scroll_to_middle();
            },
            Key::Char('U') => {
                self.scroll_offset = self.scroll_offset.saturating_sub(10);
            },
            Key::Char('D') => {
                self.scroll_offset = min_usize(self.scroll_offset.saturating_add(10), self.content_length.saturating_sub(1));
            },
            _ => {},
        }
        KeyOutcome::Done
    }

    /// Handles a key in search mode: typing edits the query and searches again, Enter keeps
    /// the results and leaves search mode, Esc clears the search and leaves it.
    pub fn handle_search_mode_key(&mut self, key: Key)
        ensures
            old(self).wf() ==> final(self).wf(),
            search_key_effect(old(self), key, final(self)),
    {
        match key {
            Key::Char(c) => {
                crate::style::push_char(&mut self.search_state.query, c);
                self.perform_search();
            },
            Key::Backspace => {
                pop_char(&mut self.search_state.query);
                if self.search_state.query.as_str().unicode_len() == 0 {
                    self.clear_search();
                } else {
                    self.perform_search();
                }
            },
            Key::Enter => {
                self.exit_search_mode();
            },
            Key::Esc => {
                self.cancel_search();
            },
            _ => {},
        }
    }

    /// One line up, not above the top.
    pub fn scroll_up(&mut self)
        ensures
            old(self).wf() ==> final(self).wf(),
            *final(self) == scroll_up_effect(old(self)),
    {
        self.scroll_offset = self.scroll_offset.saturating_sub(1);
    }

    /// One line down, not below the last line.
    pub fn scroll_down(&mut self)
        ensures
            old(self).wf() ==> final(self).wf(),
            *final(self) == scroll_down_effect(old(self)),
    {
        if self.scroll_offset < self.content_length.saturating_sub(1) {
            self.scroll_offset = self.scroll_offset + 1;
        }
    }

    /// Half a page up, not above the top.
    pub fn scroll_half_page_up(&mut self)
        ensures
            old(self).wf() ==> final(self).wf(),
            *final(self) == scroll_half_page_up_effect(old(self)),
    {
        let half = max_usize(self.viewport_height / 2, 1);
        self.scroll_offset = self.scroll_offset.saturating_sub(half);
    }

    /// Half a page down, not below the last line.
    pub fn scroll_half_page_down(&mut self)
        ensures
            old(self).wf() ==> final(self).wf(),
            *final(self) == scroll_half_page_down_effect(old(self)),
    {
        let half = max_usize(self.viewport_height / 2, 1);
        let new_offset = self.scroll_offset.saturating_add(half);
        self.scroll_offset = min_usize(new_offset, self.content_length.saturating_sub(1));
    }

    /// A page up, not above the top.
    pub fn scroll_page_up(&mut self)
        ensures
            old(self).wf() ==> final(self).wf(),
            *final(self) == scroll_page_up_effect(old(self)),
    {
        let page = max_usize(self.viewport_height, 1);
        self.scroll_offset = self.scroll_offset.saturating_sub(page);
    }

    /// A page down, not below the last line.
    pub fn scroll_page_down(&mut self)
        ensures
            old(self).wf() ==> final(self).wf(),
            *final(self) == scroll_page_down_effect(old(self)),
    {
        let page = max_usize(self.viewport_height, 1);
        let new_offset = self.scroll_offset.saturating_add(page);
        self.scroll_offset = min_usize(new_offset, self.content_length.saturating_sub(1));
    }

    /// To the first line.
    pub fn scroll_to_top(&mut self)
        ensures
            old(self).wf() ==> final(self).wf(),
            *final(self) == scroll_to_top_effect(old(self)),
    {
        self.scroll_offset = 0;
    }

    /// To the last line.
    pub fn scroll_to_bottom(&mut self)
        ensures
            old(self).wf() ==> final(self).wf(),
            *final(self) == scroll_to_bottom_effect(old(self)),
    {
        self.scroll_offset = self.content_length.saturating_sub(1);
    }

    /// To the middle line.
    pub fn scroll_to_middle(&mut self)
        ensures
            old(self).wf() ==> final(self).wf(),
            *final(self) == scroll_to_middle_effect(old(self)),
    {
        self.scroll_offset = self.content_length / 2;
    }

    /// Renders new document text: the view stays where it was unless the document became
    /// shorter, and the search is cleared.
    pub fn reload_content(&mut self, content: String)
        ensures
            final(self).renderer@ == content@,
            final(self).rendered_content@ == render_event_lines(markdown_events(content@)),
            final(self).content_length == final(self).rendered_content.lines@.len(),
            final(self).scroll_offset == (if old(self).scroll_offset >= final(self).content_length {
                last_line(final(self).content_length as int) as usize
            } else {
                old(self).scroll_offset
            }),
            final(self).search_state.is_cleared(),
            final(self).file_name == old(self).file_name,
            final(self).viewport_height == old(self).viewport_height,
            final(self).watching == old(self).watching,
            final(self).should_quit == old(self).should_quit,
            final(self).mode == old(self).mode,
            final(self).status_message == old(self).status_message,
            final(self).wf(),
    {
        self.renderer.set_content(content);
        self.rendered_content = self.renderer.render_to_text();
        self.content_length = self.rendered_content.lines.len();
        if self.scroll_offset >= self.content_length {
            self.scroll_offset = self.content_length.saturating_sub(1);
        }
        self.clear_search();
    }

    /// Enters search mode with an empty query.
    pub fn start_search(&mut self)
        ensures
            old(self).wf() ==> final(self).wf(),
            start_search_effect(old(self), final(self)),
    {
        self.mode = AppMode::Search;
        self.search_state.query = String::new();
        self.search_state.results.clear();
        self.search_state.current_result_index = None;
        self.search_state.is_active = true;
    }

    /// Finds every occurrence of the query, ignoring case, and moves to the first one.
    pub fn perform_search(&mut self)
        ensures
            old(self).wf() ==> final(self).wf(),
            search_effect(old(self), final(self)),
    {
        let lowered_query = to_lowercase(self.search_state.query.as_str());
        if self.search_state.query.as_str().unicode_len() == 0 {
            self.search_state.results.clear();
            self.search_state.current_result_index = None;
            return;
        }
        let query = chars_of(lowered_query.as_str());
        let query_bytes = lowered_query.as_str().as_bytes().len();
        let ghost lines = self.rendered_content@;
        let mut results: Vec<SearchResult> = Vec::new();
        let mut i: usize = 0;
        while i < self.rendered_content.lines.len()
            invariant
                0 <= i <= self.rendered_content.lines@.len(),
                lines == self.rendered_content@,
                query@ == lowercase(self.search_state.query@),
                query_bytes == encode_utf8(query@).len(),
                results_view(results@) == search_matches(lines.take(i as int), query@),
            decreases self.rendered_content.lines@.len() - i,
        {
            let text = self.rendered_content.lines[i].text();
            let lowered_text = to_lowercase(text.as_str());
            let lowered = chars_of(lowered_text.as_str());
            let total = lowered_text.as_str().as_bytes().len();
            assert(lines.take(i as int + 1).drop_last() =~= lines.take(i as int));
            assert(lines.take(i as int + 1)[i as int] == self.rendered_content.lines@[i as int]@);
            push_line_matches(i, &lowered, total, &query, query_bytes, &mut results);
            i = i + 1;
        }
        assert(lines.take(self.rendered_content.lines@.len() as int) =~= lines);
        self.search_state.results = results;
        if self.search_state.results.len() > 0 {
            self.search_state.current_result_index = Some(0);
            self.scroll_to_search_result(0);
        } else {
            self.search_state.current_result_index = None;
        }
    }

    /// Moves to the next search result, from the last back to the first.
    pub fn next_search_result(&mut self)
        ensures
            old(self).wf() ==> final(self).wf(),
            next_result_effect(old(self), final(self)),
    {
        if self.search_state.results.len() == 0 {
            return;
        }
        let len = self.search_state.results.len();
        let current = match self.search_state.current_result_index {
            Some(i) => i,
            None => 0,
        };
        let r = current % len;
        let next = if r + 1 == len { 0 } else { r + 1 };
        proof {
            lemma_next_index(current as int, len as int);
        }
        self.search_state.current_result_index = Some(next);
        self.scroll_to_search_result(next);
    }

    /// Moves to the previous search result, from the first back to the last.
    pub fn previous_search_result(&mut self)
        ensures
            old(self).wf() ==> final(self).wf(),
            previous_result_effect(old(self), final(self)),
    {
        if self.search_state.results.len() == 0 {
            return;
        }
        let current = match self.search_state.current_result_index {
            Some(i) => i,
            None => 0,
        };
        let prev = if current == 0 { self.search_state.results.len() - 1 } else { current - 1 };
        self.search_state.current_result_index = Some(prev);
        self.scroll_to_search_result(prev);
    }

    /// Scrolls so that search result `result_index`, if there is one, shows near the middle.
    pub fn scroll_to_search_result(&mut self, result_index: usize)
        ensures
            old(self).wf() ==> final(self).wf(),
            *final(self) == (App { scroll_offset: scroll_for_result(old(self), result_index as int), ..*old(self) }),
    {
        if result_index < self.search_state.results.len() {
            let target_line = self.search_state.results[result_index].line_index;
            let center_offset = max_usize(self.viewport_height / 2, 1);
            self.scroll_offset = target_line.saturating_sub(center_offset);
            let max_scroll = self.content_length.saturating_sub(max_usize(self.viewport_height, 1));
            if self.scroll_offset > max_scroll {
                self.scroll_offset = max_scroll;
            }
        }
    }

    /// Sets the viewport from the terminal height, two rows less.
    pub fn set_viewport_height(&mut self, height: u16)
        ensures
            old(self).wf() ==> final(self).wf(),
            *final(self) == (App { viewport_height: sat_sub(height as int, 2) as usize, ..*old(self) }),
    {
        self.viewport_height = height.saturating_sub(2) as usize;
    }

    /// Leaves search mode, keeping the results for `n` and `N`.
    pub fn exit_search_mode(&mut self)
        ensures
            old(self).wf() ==> final(self).wf(),
            *final(self) == (App { mode: AppMode::Normal, ..*old(self) }),
    {
        self.mode = AppMode::Normal;
    }

    /// Leaves search mode and clears the search.
    pub fn cancel_search(&mut self)
        ensures
            old(self).wf() ==> final(self).wf(),
            *final(self) == (App { mode: AppMode::Normal, search_state: final(self).search_state, ..*old(self) }),
            final(self).search_state.is_cleared(),
    {
        self.mode = AppMode::Normal;
        self.clear_search();
    }

    /// Clears the search.
    pub fn clear_search(&mut self)
        ensures
            old(self).wf() ==> final(self).wf(),
            *final(self) == (App { search_state: final(self).search_state, ..*old(self) }),
            final(self).search_state.is_cleared(),
    {
        self.search_state = SearchState::default();
    }

    /// Handles a report from the file watcher: a change asks the caller for a reload; a failure
    /// is shown in the status line as `"Watch error: "` and the error's text.
    pub fn handle_watch_event(&mut self, event: WatchEvent) -> (outcome: KeyOutcome)
        ensures
            old(self).wf() ==> final(self).wf(),
            match event {
                WatchEvent::Changed => *final(self) == *old(self) && outcome == KeyOutcome::ReloadRequested,
                WatchEvent::Failed(error) => {
                    &&& outcome == KeyOutcome::Done
                    &&& final(self).status_message matches Some(m) && m@ == "Watch error: "@ + error@
                    &&& *final(self) == (App { status_message: final(self).status_message, ..*old(self) })
                },
            },
    {
        match event {
            WatchEvent::Changed => KeyOutcome::ReloadRequested,
            WatchEvent::Failed(error) => {
                let mut message = String::from_str("Watch error: ");
                message.append(error.as_str());
                self.set_status_message(message);
                KeyOutcome::Done
            },
        }
    }

    /// Shows a message in the status line until the next key.
    pub fn set_status_message(&mut self, message: String)
        ensures
            old(self).wf() ==> final(self).wf(),
            *final(self) == (App { status_message: Some(message), ..*old(self) }),
    {
        self.status_message = Some(message);
    }

    /// The name of the file shown.
    pub fn get_file_name(&self) -> (name: &str)
        ensures
            name@ == self.file_name@,
    {
        self.file_name.as_str()
    }

    /// The rendered document.
    pub fn get_rendered_content(&self) -> (text: &Text)
        ensures
            text == &self.rendered_content,
    {
        &self.rendered_content
    }

    /// The first line in view.
    pub fn get_scroll_offset(&self) -> (offset: usize)
        ensures
            offset == self.scroll_offset,
    {
        self.scroll_offset
    }

    /// How many lines the rendered document has.
    pub fn get_content_length(&self) -> (len: usize)
        ensures
            len == self.content_length,
    {
        self.content_length
    }

    /// Whether the file is watched for changes.
    pub fn is_watching(&self) -> (w: bool)
        ensures
            w == self.watching,
    {
        self.watching
    }

    /// The current mode.
    pub fn get_mode(&self) -> (mode: &AppMode)
        ensures
            *mode == self.mode,
    {
        &self.mode
    }

    /// The search state.
    pub fn get_search_state(&self) -> (state: &SearchState)
        ensures
            state == &self.search_state,
    {
        &self.search_state
    }

    /// The status message, if any.
    pub fn get_status_message(&self) -> (message: Option<&str>)
        ensures
            match message {
                Some(m) => self.status_message matches Some(s) && m@ == s@,
                None => self.status_message is None,
            },
    {
        match &self.status_message {
            Some(s) => Some(s.as_str()),
            None => None,
        }
    }
}

/// The offset that [`App::scroll_to_search_result`] moves to: the offset that shows the
/// result's line, or the current offset when there is no such result.
pub open spec fn scroll_for_result(app: &App, index: int) -> usize {
    if 0 <= index < app.search_state.results@.len() {
        offset_for_line(
            app.search_state.results@[index].line_index as int,
            app.viewport_height as int,
            app.content_length as int,
        ) as usize
    } else {
        app.scroll_offset
    }
}

/// The current result's index, 0 when there is none.
pub open spec fn current_index(app: &App) -> int {
    match app.search_state.current_result_index {
        Some(i) => i as int,
        None => 0,
    }
}

/// The result that `n` moves to: the one after the current one, the first after the last.
pub open spec fn next_result_index(app: &App) -> int {
    (current_index(app) + 1) % (app.search_state.results@.len() as int)
}

/// The result that `N` moves to: the one before the current one, the last before the first.
pub open spec fn previous_result_index(app: &App) -> int {
    if current_index(app) == 0 {
        app.search_state.results@.len() - 1
    } else {
        current_index(app) - 1
    }
}

/// Law: moving to the next search result and then to the previous one comes back to the
/// result that was current.
pub proof fn lemma_previous_undoes_next(a: &App, b: &App, c: &App)
    requires
        a.wf(),
        a.search_state.results@.len() > 0,
        a.search_state.results@.len() <= usize::MAX,
        moved_to_result(a, b, next_result_index(a)),
        moved_to_result(b, c, previous_result_index(b)),
    ensures
        c.search_state.current_result_index == a.search_state.current_result_index,
        c.search_state.results == a.search_state.results,
{
    let n = a.search_state.results@.len() as int;
    let i = current_index(a);
    lemma_next_index(i, n);
    vstd::arithmetic::div_mod::lemma_small_mod(i as nat, n as nat);
    assert(b.search_state.results@.len() == n);
    assert(current_index(b) == next_result_index(a));
}

/// Law: moving to the previous search result and then to the next one comes back to the
/// result that was current.
pub proof fn lemma_next_undoes_previous(a: &App, b: &App, c: &App)
    requires
        a.wf(),
        a.search_state.results@.len() > 0,
        a.search_state.results@.len() <= usize::MAX,
        moved_to_result(a, b, previous_result_index(a)),
        moved_to_result(b, c, next_result_index(b)),
    ensures
        c.search_state.current_result_index == a.search_state.current_result_index,
        c.search_state.results == a.search_state.results,
{
    let n = a.search_state.results@.len() as int;
    let p = previous_result_index(a);
    lemma_next_index(p, n);
    vstd::arithmetic::div_mod::lemma_small_mod(p as nat, n as nat);
    assert(b.search_state.results@.len() == n);
    assert(current_index(b) == p);
}

/// The result that marks an occurrence of `q` at character `p` of line `l`'s text.
pub open spec fn match_at(text: Seq<char>, q: Seq<char>, l: nat, p: int) -> (nat, nat, nat) {
    (l, byte_offset(text, p), byte_offset(text, p) + encode_utf8(q).len())
}

/// Law: every search result marks an occurrence of the query in its line, and every
/// occurrence is a result.
pub proof fn lemma_search_matches_are_occurrences(lines: Seq<LineView>, q: Seq<char>)
    requires
        q.len() > 0,
    ensures
        forall|k: int| 0 <= k < search_matches(lines, q).len() ==> {
            let (l, s, e) = #[trigger] search_matches(lines, q)[k];
            &&& l < lines.len()
            &&& exists|p: int| {
                &&& occurs_at(lowercase(spans_text(lines[l as int])), q, p)
                &&& s == #[trigger] byte_offset(lowercase(spans_text(lines[l as int])), p)
                &&& e == s + encode_utf8(q).len()
            }
        },
        forall|l: int, p: int| 0 <= l < lines.len() && #[trigger] occurs_at(lowercase(spans_text(lines[l])), q, p)
            ==> search_matches(lines, q).contains(
                match_at(lowercase(spans_text(lines[l])), q, l as nat, p),
            ),
    decreases lines.len(),
{
    if lines.len() > 0 {
        let i = lines.len() - 1;
        let text = lowercase(spans_text(lines[i]));
        lemma_search_matches_are_occurrences(lines.drop_last(), q);
        lemma_line_occurrences(i as nat, text, q, text.len());
        let prev = search_matches(lines.drop_last(), q);
        let cur = line_occurrences(i as nat, text, q, text.len());
        assert forall|k: int| 0 <= k < search_matches(lines, q).len() implies {
            let (l, s, e) = #[trigger] search_matches(lines, q)[k];
            &&& l < lines.len()
            &&& exists|p: int| {
                &&& occurs_at(lowercase(spans_text(lines[l as int])), q, p)
                &&& s == #[trigger] byte_offset(lowercase(spans_text(lines[l as int])), p)
                &&& e == s + encode_utf8(q).len()
            }
        } by {
            if k < prev.len() {
                assert(search_matches(lines, q)[k] == prev[k]);
                let (l, s, e) = prev[k];
                assert(lines.drop_last()[l as int] == lines[l as int]);
            } else {
                assert(search_matches(lines, q)[k] == cur[k - prev.len()]);
            }
        }
        assert forall|l: int, p: int| 0 <= l < lines.len() && #[trigger] occurs_at(lowercase(spans_text(lines[l])), q, p)
            implies search_matches(lines, q).contains(
                match_at(lowercase(spans_text(lines[l])), q, l as nat, p),
            ) by {
            let t = match_at(lowercase(spans_text(lines[l])), q, l as nat, p);
            if l < i {
                assert(lines.drop_last()[l] == lines[l]);
                let k = choose|k: int| 0 <= k < prev.len() && prev[k] == t;
                assert(search_matches(lines, q)[k] == t);
            } else {
                assert(l == i);
                assert(p < text.len());
                let k = choose|k: int| 0 <= k < cur.len() && cur[k] == t;
                assert(search_matches(lines, q)[prev.len() + k] == t);
            }
        }
    }
}

/// The occurrences listed for one line are exactly the line's occurrences before `upto`.
proof fn lemma_line_occurrences(line_index: nat, text: Seq<char>, q: Seq<char>, upto: nat)
    ensures
        forall|k: int| 0 <= k < line_occurrences(line_index, text, q, upto).len() ==> {
            let (l, s, e) = #[trigger] line_occurrences(line_index, text, q, upto)[k];
            &&& l == line_index
            &&& exists|p: int| {
                &&& 0 <= p < upto
                &&& occurs_at(text, q, p)
                &&& s == #[trigger] byte_offset(text, p)
                &&& e == s + encode_utf8(q).len()
            }
        },
        forall|p: int| 0 <= p < upto && #[trigger] occurs_at(text, q, p)
            ==> line_occurrences(line_index, text, q, upto).contains(match_at(text, q, line_index, p)),
    decreases upto,
{
    if upto > 0 {
        let p0 = (upto - 1) as nat;
        lemma_line_occurrences(line_index, text, q, p0);
        let prev = line_occurrences(line_index, text, q, p0);
        assert forall|k: int| 0 <= k < line_occurrences(line_index, text, q, upto).len() implies {
            let (l, s, e) = #[trigger] line_occurrences(line_index, text, q, upto)[k];
            &&& l == line_index
            &&& exists|p: int| {
                &&& 0 <= p < upto
                &&& occurs_at(text, q, p)
                &&& s == #[trigger] byte_offset(text, p)
                &&& e == s + encode_utf8(q).len()
            }
        } by {
            if k < prev.len() {
                assert(line_occurrences(line_index, text, q, upto)[k] == prev[k]);
            } else {
                assert(byte_offset(text, p0 as int) == byte_offset(text, p0 as int));
            }
        }
        assert forall|p: int| 0 <= p < upto && #[trigger] occurs_at(text, q, p)
            implies line_occurrences(line_index, text, q, upto).contains(match_at(text, q, line_index, p)) by {
            let t = match_at(text, q, line_index, p);
            if p < p0 {
                let k = choose|k: int| 0 <= k < prev.len() && prev[k] == t;
                assert(line_occurrences(line_index, text, q, upto)[k] == t);
            } else {
                assert(line_occurrences(line_index, text, q, upto)[prev.len() as int] == t);
            }
        }
    }
}

/// `after` is `before` with result `index` current and the view moved to it.
pub open spec fn moved_to_result(before: &App, after: &App, index: int) -> bool {
    &&& after.search_state.current_result_index == Some(index as usize)
    &&& after.search_state.results == before.search_state.results
    &&& after.search_state.query == before.search_state.query
    &&& after.search_state.is_active == before.search_state.is_active
    &&& *after == (App {
        scroll_offset: scroll_for_result(before, index),
        search_state: after.search_state,
        ..*before
    })
}

/// What a search does: with an empty query, no results; otherwise every occurrence of the
/// lowercased query in the lowercased lines, the first one current and in view. (The query
/// is empty exactly when its lowercase form is, so the search goes by that form alone.)
pub open spec fn search_effect(before: &App, after: &App) -> bool {
    &&& (lowercase(before.search_state.query@).len() == 0) == (before.search_state.query@.len() == 0)
    &&& after.search_state.query == before.search_state.query
    &&& after.search_state.is_active == before.search_state.is_active
    &&& if lowercase(before.search_state.query@).len() == 0 {
        &&& after.search_state.results@.len() == 0
        &&& after.search_state.current_result_index is None
        &&& *after == (App { search_state: after.search_state, ..*before })
    } else {
        let found = search_matches(before.rendered_content@, lowercase(before.search_state.query@));
        &&& results_view(after.search_state.results@) == found
        &&& if found.len() > 0 {
            &&& after.search_state.current_result_index == Some(0usize)
            &&& *after == (App {
                search_state: after.search_state,
                scroll_offset: offset_for_line(found[0].0 as int, before.viewport_height as int, before.content_length as int) as usize,
                ..*before
            })
        } else {
            &&& after.search_state.current_result_index is None
            &&& *after == (App { search_state: after.search_state, ..*before })
        }
    }
}

/// What a key does in search mode.
pub open spec fn search_key_effect(before: &App, key: Key, after: &App) -> bool {
    match key {
        Key::Char(c) => exists|typed: App| {
            &&& typed == (App {
                search_state: SearchState { query: typed.search_state.query, ..before.search_state },
                ..*before
            })
            &&& typed.search_state.query@ == before.search_state.query@.push(c)
            &&& search_effect(&typed, after)
        },
        Key::Backspace => {
            let q = if before.search_state.query@.len() > 0 {
                before.search_state.query@.drop_last()
            } else {
                before.search_state.query@
            };
            if q.len() == 0 {
                &&& after.search_state.is_cleared()
                &&& *after == (App { search_state: after.search_state, ..*before })
            } else {
                exists|erased: App| {
                    &&& erased == (App {
                        search_state: SearchState { query: erased.search_state.query, ..before.search_state },
                        ..*before
                    })
                    &&& erased.search_state.query@ == q
                    &&& search_effect(&erased, after)
                }
            }
        },
        Key::Enter => *after == (App { mode: AppMode::Normal, ..*before }),
        Key::Esc => {
            &&& after.search_state.is_cleared()
            &&& *after == (App { mode: AppMode::Normal, search_state: after.search_state, ..*before })
        },
        _ => *after == *before,
    }
}

/// The state after [`App::scroll_up`]: one line up, not above the top.
pub open spec fn scroll_up_effect(a: &App) -> App {
    App { scroll_offset: sat_sub(a.scroll_offset as int, 1) as usize, ..*a }
}

/// The state after [`App::scroll_down`]: one line down, not below the last line.
pub open spec fn scroll_down_effect(a: &App) -> App {
    App {
        scroll_offset: if a.scroll_offset < last_line(a.content_length as int) {
            (a.scroll_offset + 1) as usize
        } else {
            a.scroll_offset
        },
        ..*a
    }
}

/// The state after [`App::scroll_half_page_up`].
pub open spec fn scroll_half_page_up_effect(a: &App) -> App {
    App { scroll_offset: sat_sub(a.scroll_offset as int, half_page(a.viewport_height as int)) as usize, ..*a }
}

/// The state after [`App::scroll_half_page_down`].
pub open spec fn scroll_half_page_down_effect(a: &App) -> App {
    App {
        scroll_offset: scrolled_down(a.scroll_offset as int, half_page(a.viewport_height as int), a.content_length as int) as usize,
        ..*a
    }
}

/// The state after [`App::scroll_page_up`].
pub open spec fn scroll_page_up_effect(a: &App) -> App {
    App { scroll_offset: sat_sub(a.scroll_offset as int, full_page(a.viewport_height as int)) as usize, ..*a }
}

/// The state after [`App::scroll_page_down`].
pub open spec fn scroll_page_down_effect(a: &App) -> App {
    App {
        scroll_offset: scrolled_down(a.scroll_offset as int, full_page(a.viewport_height as int), a.content_length as int) as usize,
        ..*a
    }
}

/// The state after [`App::scroll_to_top`].
pub open spec fn scroll_to_top_effect(a: &App) -> App {
    App { scroll_offset: 0, ..*a }
}

/// The state after [`App::scroll_to_bottom`].
pub open spec fn scroll_to_bottom_effect(a: &App) -> App {
    App { scroll_offset: last_line(a.content_length as int) as usize, ..*a }
}

/// The state after [`App::scroll_to_middle`].
pub open spec fn scroll_to_middle_effect(a: &App) -> App {
    App { scroll_offset: a.content_length / 2, ..*a }
}

/// What [`App::start_search`] does: search mode, with an empty, active search.
pub open spec fn start_search_effect(before: &App, after: &App) -> bool {
    &&& *after == (App { mode: AppMode::Search, search_state: after.search_state, ..*before })
    &&& after.search_state.query@ == Seq::<char>::empty()
    &&& after.search_state.results@ == Seq::<SearchResult>::empty()
    &&& after.search_state.current_result_index is None
    &&& after.search_state.is_active
}

/// What [`App::next_search_result`] does.
pub open spec fn next_result_effect(before: &App, after: &App) -> bool {
    if before.search_state.results@.len() == 0 {
        *after == *before
    } else {
        moved_to_result(before, after, next_result_index(before))
    }
}

/// What [`App::previous_search_result`] does.
pub open spec fn previous_result_effect(before: &App, after: &App) -> bool {
    if before.search_state.results@.len() == 0 {
        *after == *before
    } else {
        moved_to_result(before, after, previous_result_index(before))
    }
}

/// Law: in normal mode, each movement and search key does exactly what one call of its
/// method does, and says no more is to be done; `r` changes nothing and asks the caller for a
/// reload, which [`App::reload_content`] then performs with the file's new text.
pub proof fn lemma_normal_key_is_one_call(before: &App, key: Key, after: &App, outcome: KeyOutcome)
    ensures
        (key == Key::Up || key == Key::Char('k')) ==> (normal_key_effect(before, key, after, outcome)
            <==> *after == scroll_up_effect(before) && outcome == KeyOutcome::Done),
        (key == Key::Down || key == Key::Char('j')) ==> (normal_key_effect(before, key, after, outcome)
            <==> *after == scroll_down_effect(before) && outcome == KeyOutcome::Done),
        key == Key::Char('u') ==> (normal_key_effect(before, key, after, outcome)
            <==> *after == scroll_half_page_up_effect(before) && outcome == KeyOutcome::Done),
        key == Key::Char('d') ==> (normal_key_effect(before, key, after, outcome)
            <==> *after == scroll_half_page_down_effect(before) && outcome == KeyOutcome::Done),
        (key == Key::PageUp || key == Key::Char('b')) ==> (normal_key_effect(before, key, after, outcome)
            <==> *after == scroll_page_up_effect(before) && outcome == KeyOutcome::Done),
        (key == Key::PageDown || key == Key::Char('f')) ==> (normal_key_effect(before, key, after, outcome)
            <==> *after == scroll_page_down_effect(before) && outcome == KeyOutcome::Done),
        (key == Key::Home || key == Key::Char('g')) ==> (normal_key_effect(before, key, after, outcome)
            <==> *after == scroll_to_top_effect(before) && outcome == KeyOutcome::Done),
        (key == Key::End || key == Key::Char('G')) ==> (normal_key_effect(before, key, after, outcome)
            <==> *after == scroll_to_bottom_effect(before) && outcome == KeyOutcome::Done),
        key == Key::Char('M') ==> (normal_key_effect(before, key, after, outcome)
            <==> *after == scroll_to_middle_effect(before) && outcome == KeyOutcome::Done),
        key == Key::Char('/') ==> (normal_key_effect(before, key, after, outcome)
            <==> start_search_effect(before, after) && outcome == KeyOutcome::Done),
        key == Key::Char('n') ==> (normal_key_effect(before, key, after, outcome)
            <==> next_result_effect(before, after) && outcome == KeyOutcome::Done),
        key == Key::Char('N') ==> (normal_key_effect(before, key, after, outcome)
            <==> previous_result_effect(before, after) && outcome == KeyOutcome::Done),
        key == Key::Char('r') ==> (normal_key_effect(before, key, after, outcome)
            <==> *after == *before && outcome == KeyOutcome::ReloadRequested),
{
}

/// Law: searching for two queries whose lowercase forms are the same, from the same state,
/// finds the same results, makes the same one current and scrolls to the same place.
pub proof fn lemma_search_ignores_case(a1: &App, a2: &App, b1: &App, b2: &App)
    requires
        *a2 == (App { search_state: SearchState { query: a2.search_state.query, ..a1.search_state }, ..*a1 }),
        lowercase(a1.search_state.query@) == lowercase(a2.search_state.query@),
        search_effect(a1, b1),
        search_effect(a2, b2),
    ensures
        b1.search_state.results@ == b2.search_state.results@,
        b1.search_state.current_result_index == b2.search_state.current_result_index,
        b1.scroll_offset == b2.scroll_offset,
        b1.mode == b2.mode,
{
    let r1 = b1.search_state.results@;
    let r2 = b2.search_state.results@;
    assert(results_view(r1) == results_view(r2));
    assert(r1.len() == results_view(r1).len());
    assert forall|k: int| 0 <= k < r1.len() implies r1[k] == r2[k] by {
        assert(results_view(r1)[k] == results_view(r2)[k]);
    }
    assert(r1 =~= r2);
}

/// Law: Backspace in search mode drops the query's last character and searches again for
/// what is left: the results are then the occurrences of the shortened query, ignoring case,
/// in the document's lines, the first one current; a query left empty clears the search.
pub proof fn lemma_backspace_searches_again(before: &App, after: &App)
    requires
        search_key_effect(before, Key::Backspace, after),
    ensures
        ({
            let q = before.search_state.query@.drop_last();
            let found = search_matches(before.rendered_content@, lowercase(q));
            &&& before.search_state.query@.len() <= 1 ==> after.search_state.is_cleared()
            &&& before.search_state.query@.len() > 1 ==> {
                &&& after.search_state.query@ == q
                &&& after.rendered_content == before.rendered_content
                &&& after.mode == before.mode
                &&& results_view(after.search_state.results@) == found
                &&& after.search_state.current_result_index == (if found.len() > 0 {
                    Some(0usize)
                } else {
                    None
                })
            }
        }),
{
    if before.search_state.query@.len() > 1 {
        let erased = choose|erased: App| {
            &&& erased == (App {
                search_state: SearchState { query: erased.search_state.query, ..before.search_state },
                ..*before
            })
            &&& erased.search_state.query@ == before.search_state.query@.drop_last()
            &&& search_effect(&erased, after)
        };
        assert(search_effect(&erased, after));
    }
}

/// Law: typing a character in search mode adds it to the query and searches again: the
/// results are then the occurrences of the longer query, ignoring case, in the document's
/// lines, the first one current.
pub proof fn lemma_typing_searches_again(before: &App, c: char, after: &App)
    requires
        search_key_effect(before, Key::Char(c), after),
    ensures
        ({
            let q = before.search_state.query@.push(c);
            let found = search_matches(before.rendered_content@, lowercase(q));
            &&& after.search_state.query@ == q
            &&& after.rendered_content == before.rendered_content
            &&& results_view(after.search_state.results@) == found
            &&& after.search_state.current_result_index == (if found.len() > 0 {
                Some(0usize)
            } else {
                None
            })
        }),
{
    let typed = choose|typed: App| {
        &&& typed == (App {
            search_state: SearchState { query: typed.search_state.query, ..before.search_state },
            ..*before
        })
        &&& typed.search_state.query@ == before.search_state.query@.push(c)
        &&& search_effect(&typed, after)
    };
    assert(search_effect(&typed, after));
}

/// What a key does in normal mode.
pub open spec fn normal_key_effect(before: &App, key: Key, after: &App, outcome: KeyOutcome) -> bool {
    let offset = before.scroll_offset as int;
    let len = before.content_length as int;
    let vh = before.viewport_height as int;
    let moved = |o: int| *after == (App { scroll_offset: o as usize, ..*before });
    let nothing = *after == *before;
    &&& outcome == (if key == Key::Char('r') { KeyOutcome::ReloadRequested } else { KeyOutcome::Done })
    &&& match key {
        Key::Char('q') => *after == (App { should_quit: true, ..*before }),
        Key::Char('/') => {
            &&& *after == (App { mode: AppMode::Search, search_state: after.search_state, ..*before })
            &&& after.search_state.query@ == Seq::<char>::empty()
            &&& after.search_state.results@ == Seq::<SearchResult>::empty()
            &&& after.search_state.current_result_index is None
            &&& after.search_state.is_active
        },
        Key::Char('n') => if before.search_state.results@.len() == 0 {
            nothing
        } else {
            moved_to_result(before, after, next_result_index(before))
        },
        Key::Char('N') => if before.search_state.results@.len() == 0 {
            nothing
        } else {
            moved_to_result(before, after, previous_result_index(before))
        },
        Key::Char('r') => nothing,
        Key::Up | Key::Char('k') => moved(sat_sub(offset, 1)),
        Key::Down | Key::Char('j') => moved(if offset < last_line(len) { offset + 1 } else { offset }),
        Key::Char('u') => moved(sat_sub(offset, half_page(vh))),
        Key::Char('d') => moved(scrolled_down(offset, half_page(vh), len)),
        Key::PageUp | Key::Char('b') => moved(sat_sub(offset, full_page(vh))),
        Key::PageDown | Key::Char('f') => moved(scrolled_down(offset, full_page(vh), len)),
        Key::Home | Key::Char('g') => moved(0),
        Key::End | Key::Char('G') => moved(last_line(len)),
        Key::Char('K') => moved(sat_sub(offset, 5)),
        Key::Char('J') => moved(scrolled_down(offset, 5, len)),
        Key::Char('M') => moved(len / 2),
        Key::Char('U') => moved(sat_sub(offset, 10)),
        Key::Char('D') => moved(scrolled_down(offset, 10, len)),
        _ => nothing,
    }
}

/// Stepping forward cyclically: `(c + 1) % n` is the successor of `c % n`, wrapping to 0.
proof fn lemma_next_index(c: int, n: int)
    requires
        0 <= c,
        0 < n,
    ensures
        (c + 1) % n == (if c % n + 1 == n { 0 } else { c % n + 1 }),
{
    vstd::arithmetic::div_mod::lemma_add_mod_noop(c, 1, n);
    vstd::arithmetic::div_mod::lemma_mod_bound(c, n);
    if n == 1 {
        vstd::arithmetic::div_mod::lemma_mod_self_0(1);
        assert(c % 1 == 0);
        assert((c + 1) % 1 == 0);
    } else {
        vstd::arithmetic::div_mod::lemma_small_mod(1, n as nat);
        if c % n + 1 == n {
            vstd::arithmetic::div_mod::lemma_mod_self_0(n);
        } else {
            vstd::arithmetic::div_mod::lemma_small_mod((c % n + 1) as nat, n as nat);
        }
    }
}

fn min_usize(a: usize, b: usize) -> (m: usize)
    ensures
        m == min(a as int, b as int),
{
    if a <= b {
        a
    } else {
        b
    }
}

fn max_usize(a: usize, b: usize) -> (m: usize)
    ensures
        m == max(a as int, b as int),
{
    if a >= b {
        a
    } else {
        b
    }
}

/// Removes the last character of `s`, if it has one.
fn pop_char(s: &mut String)
    ensures
        old(s)@.len() > 0 ==> final(s)@ == old(s)@.drop_last(),
        old(s)@.len() == 0 ==> final(s)@ == old(s)@,
{
    let n = s.as_str().unicode_len();
    if n > 0 {
        let shorter = String::from_str(s.as_str().substring_char(0, n - 1));
        assert(shorter@ =~= old(s)@.drop_last());
        *s = shorter;
    }
}

} // verus!

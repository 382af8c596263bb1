use vstd::prelude::*;
use crate::identity::{chars_of, string_of};
use crate::parser::{excluded_prefix_exec, has_excluded_prefix, namespace_prefixes};
use crate::text::{
    ends_with, extend, find_char_from, find_char_from_exec, lemma_find_char_bounds, occurs_at_exec,
    slice, starts_with, starts_with_exec,
};

verus! {

/// Where the scan of the corpus stands between two lines.
pub enum ScanState {
    /// Looking for the next title line.
    SeekTitle,
    /// A title was read; looking for the line that opens its text.
    SeekText { title: Vec<char> },
    /// Inside the text of a record, with the body read so far.
    InBody { title: Vec<char>, body: Vec<char> },
}

/// The abstract scan state, over character sequences.
pub enum ScanView {
    SeekTitle,
    SeekText(Seq<char>),
    InBody(Seq<char>, Seq<char>),
}

impl View for ScanState {
    type V = ScanView;

    open spec fn view(&self) -> ScanView {
        match self {
            ScanState::SeekTitle => ScanView::SeekTitle,
            ScanState::SeekText { title } => ScanView::SeekText(title@),
            ScanState::InBody { title, body } => ScanView::InBody(title@, body@),
        }
    }
}

pub open spec fn title_open() -> Seq<char> {
    "    <title>"@
}

pub open spec fn title_close() -> Seq<char> {
    "</title>"@
}

pub open spec fn text_open() -> Seq<char> {
    "      <text"@
}

pub open spec fn text_close() -> Seq<char> {
    "</text>"@
}

/// The title that a title line holds between its markers.
pub open spec fn title_of_line(line: Seq<char>) -> Option<Seq<char>> {
    if line.len() >= title_open().len() + title_close().len() && starts_with(line, title_open()) {
        Some(line.subrange(title_open().len() as int, line.len() - title_close().len()))
    } else {
        None
    }
}

/// The text after the `>` of a line that opens a record's text.
pub open spec fn text_of_open_line(line: Seq<char>) -> Option<Seq<char>> {
    if starts_with(line, text_open()) {
        match find_char_from(line, '>', 0) {
            Some(k) => Some(line.subrange(k + 1, line.len() as int)),
            None => None,
        }
    } else {
        None
    }
}

/// One body line appended to the body so far: the scan ends the record when
/// the line ends with the text-close marker, else it adds a newline and goes on.
pub open spec fn body_step(title: Seq<char>, body: Seq<char>, line: Seq<char>) -> (
    ScanView,
    Option<(Seq<char>, Seq<char>)>,
) {
    if ends_with(line, text_close()) {
        (
            ScanView::SeekTitle,
            Some((title, body + line.take(line.len() - text_close().len()))),
        )
    } else {
        (ScanView::InBody(title, body + line.push('\n')), None)
    }
}

/// One line of the corpus: the next state, and the `(title, body)` record
/// that the line completes, if any. A title that begins with an excluded
/// namespace prefix sends the scan back to looking for a title before its
/// body is read.
pub open spec fn scan_step(st: ScanView, line: Seq<char>) -> (
    ScanView,
    Option<(Seq<char>, Seq<char>)>,
) {
    match st {
        ScanView::SeekTitle => match title_of_line(line) {
            Some(t) => if has_excluded_prefix(t) {
                (ScanView::SeekTitle, None)
            } else {
                (ScanView::SeekText(t), None)
            },
            None => (ScanView::SeekTitle, None),
        },
        ScanView::SeekText(t) => match text_of_open_line(line) {
            Some(c) => body_step(t, Seq::empty(), c),
            None => (ScanView::SeekText(t), None),
        },
        ScanView::InBody(t, b) => body_step(t, b, line),
    }
}

/// Reads a corpus line by line and hands out one record per article.
pub struct RecordScanner {
    pub state: ScanState,
}

impl View for RecordScanner {
    type V = ScanView;

    open spec fn view(&self) -> ScanView {
        self.state@
    }
}

/// The view of a record handed out as strings.
pub open spec fn record_view(r: Option<(String, String)>) -> Option<(Seq<char>, Seq<char>)> {
    match r {
        Some((t, b)) => Some((t@, b@)),
        None => None,
    }
}

/// Ends a record at `line` or adds `line` to its body.
fn take_body_line(title: Vec<char>, body: Vec<char>, line: &Vec<char>) -> (r: (
    ScanState,
    Option<(String, String)>,
))
    ensures
        (r.0@, record_view(r.1)) == body_step(title@, body@, line@),
{
    let close = chars_of("</text>");
    let mut body = body;
    if line.len() >= close.len() && occurs_at_exec(line, &close, line.len() - close.len()) {
        extend(&mut body, &slice(line, 0, line.len() - close.len()));
        (ScanState::SeekTitle, Some((string_of(&title), string_of(&body))))
    } else {
        proof {
            if line.len() < close.len() {
                assert(!ends_with(line@, text_close()));
            }
        }
        extend(&mut body, line);
        body.push('\n');
        (ScanState::InBody { title, body }, None)
    }
}

impl RecordScanner {
    /// A scanner at the start of a corpus.
    pub fn new() -> (r: RecordScanner)
        ensures
            r@ == ScanView::SeekTitle,
    {
        RecordScanner { state: ScanState::SeekTitle }
    }

    /// Feeds the next line of the corpus; returns the `(title, body)` record
    /// that this line completes, if any.
    pub fn feed_line(&mut self, line: &str) -> (r: Option<(String, String)>)
        ensures
            (final(self)@, record_view(r)) == scan_step(old(self)@, line@),
    {
        let l = chars_of(line);
        let mut st = ScanState::SeekTitle;
        std::mem::swap(&mut st, &mut self.state);
        match st {
            ScanState::SeekTitle => {
                let open = chars_of("    <title>");
                let close = chars_of("</title>");
                if l.len() >= open.len() && l.len() - open.len() >= close.len()
                    && starts_with_exec(&l, &open) {
                    let t = slice(&l, open.len(), l.len() - close.len());
                    let prefixes = namespace_prefixes();
                    if !excluded_prefix_exec(&t, &prefixes) {
                        self.state = ScanState::SeekText { title: t };
                    }
                }
                None
            },
            ScanState::SeekText { title } => {
                let open = chars_of("      <text");
                if starts_with_exec(&l, &open) {
                    match find_char_from_exec(&l, '>', 0) {
                        Some(k) => {
                            proof { lemma_find_char_bounds(l@, '>', 0); }
                            let content = slice(&l, k + 1, l.len());
                            let (next, rec) = take_body_line(title, Vec::new(), &content);
                            self.state = next;
                            rec
                        },
                        None => {
                            self.state = ScanState::SeekText { title };
                            None
                        },
                    }
                } else {
                    self.state = ScanState::SeekText { title };
                    None
                }
            },
            ScanState::InBody { title, body } => {
                let (next, rec) = take_body_line(title, body, &l);
                self.state = next;
                rec
            },
        }
    }
}

} // verus!

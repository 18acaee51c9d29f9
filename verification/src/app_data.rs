//! State of the model viewer that is independent of the windowing toolkit.
use std::collections::VecDeque;
use vstd::prelude::*;

verus! {

/// How many lines the log keeps.
pub const LOG_CAPACITY: usize = 100;

/// The viewer's log: the most recent lines, oldest first.
#[derive(Debug)]
pub struct Logger {
    lines: VecDeque<String>,
}

impl View for Logger {
    type V = Seq<String>;

    closed spec fn view(&self) -> Seq<String> {
        self.lines@
    }
}

impl Default for Logger {
    fn default() -> (r: Self)
        ensures
            r@ == Seq::<String>::empty(),
    {
        Logger { lines: VecDeque::new() }
    }
}

/// The two halves of the ring buffer of `v`, from
/// `std::collections::VecDeque::as_slices`.
///
/// Trusted: the standard library documents that `as_slices` returns a pair of
/// slices which contain, in order, the contents of the deque.
#[verifier::external_body]
fn deque_slices(v: &VecDeque<String>) -> (r: (&[String], &[String]))
    ensures
        r.0@ + r.1@ == v@,
{
    v.as_slices()
}

/// What the log holds after `text` is added to `lines`: the oldest lines are
/// dropped so that at most `LOG_CAPACITY` remain.
pub open spec fn logged(lines: Seq<String>, text: String) -> Seq<String> {
    if lines.len() >= LOG_CAPACITY {
        lines.skip(lines.len() - (LOG_CAPACITY - 1)).push(text)
    } else {
        lines.push(text)
    }
}

impl Logger {
    /// Appends `text` as the newest line, dropping the oldest lines beyond
    /// the capacity.
    pub fn log(&mut self, text: String)
        ensures
            final(self)@ == logged(old(self)@, text),
            final(self)@.len() <= LOG_CAPACITY,
            final(self)@.last() == text,
    {
        let ghost start = self.lines@;
        while self.lines.len() > LOG_CAPACITY - 1
            invariant
                start == old(self)@,
                start.len() >= self.lines@.len(),
                self.lines@ == start.skip(start.len() - self.lines@.len()),
                start.len() >= LOG_CAPACITY ==> self.lines@.len() >= LOG_CAPACITY - 1,
                start.len() < LOG_CAPACITY ==> self.lines@ == start,
            decreases self.lines@.len(),
        {
            let ghost before = self.lines@;
            self.lines.pop_front();
            assert(self.lines@ =~= start.skip(start.len() - self.lines@.len())) by {
                assert(self.lines@ =~= before.subrange(1, before.len() as int));
            }
        }
        self.lines.push_back(text);
        assert(self.lines@ =~= logged(start, text));
    }

    /// The lines in order, in two parts.
    pub fn lines(&self) -> (r: (&[String], &[String]))
        ensures
            r.0@ + r.1@ == self@,
    {
        deque_slices(&self.lines)
    }
}

/// The tabs of the viewer's window.
#[derive(Debug, Clone, Copy, PartialEq, Eq)]
pub enum AppTab {
    View,
    Log,
}

impl Default for AppTab {
    fn default() -> (r: Self)
        ensures
            r == AppTab::View,
    {
        AppTab::View
    }
}

impl AppTab {
    /// The tab's title.
    pub fn to_string(&self) -> (r: String)
        ensures
            r@ == (match self {
                AppTab::View => "View"@,
                AppTab::Log => "Log"@,
            }),
    {
        match self {
            AppTab::View => String::from_str("View"),
            AppTab::Log => String::from_str("Log"),
        }
    }
}

/// What the viewer's window shows: the log and the current tab.
pub struct AppState {
    pub log: VecDeque<String>,
    pub tab: AppTab,
}

impl Default for AppState {
    fn default() -> (r: Self)
        ensures
            r.log@ == Seq::<String>::empty(),
            r.tab == AppTab::View,
    {
        AppState { log: VecDeque::new(), tab: AppTab::default() }
    }
}

} // verus!

//! The sliding-window strategy, kept as an alternative to chunked
//! summarization: fixed-size windows over the text that overlap by half, with
//! the summaries so far carried as context.

use crate::summary::{SummaryCall, SummaryRequest};
use crate::text::texts;
use vstd::prelude::*;
use vstd::string::StrSliceExecFns;

verus! {

/// Characters in a window.
pub const WINDOW_SIZE: usize = 2000;

/// Characters by which the window moves.
pub const SLIDE_SIZE: usize = 1000;

/// A window over a text, with the context gathered so far.
#[derive(Debug)]
pub struct SlidingWindow {
    pub text: String,
    /// Character index where the window starts.
    pub start: usize,
    /// Character index just past the window.
    pub end: usize,
    /// The summaries so far, joined with newlines.
    pub context: Option<String>,
}

/// The end of the window that starts at `start` in a text of `len` characters.
pub open spec fn window_end(start: nat, len: nat) -> nat {
    if start + WINDOW_SIZE < len {
        (start + WINDOW_SIZE) as nat
    } else {
        len
    }
}

/// An optional text.
pub open spec fn opt_view(o: Option<String>) -> Option<Seq<char>> {
    match o {
        Some(s) => Some(s@),
        None => None,
    }
}

impl SlidingWindow {
    /// The window lies inside the text and is as long as the text allows.
    pub open spec fn wf(&self) -> bool {
        &&& self.start <= self.end <= self.text@.len()
        &&& self.end == window_end(self.start as nat, self.text@.len())
    }

    /// The first window over `text`, with no context.
    pub fn new(text: &str) -> (r: SlidingWindow)
        ensures
            r.wf(),
            r.text@ == text@,
            r.start == 0,
            r.context is None,
    {
        let len = text.unicode_len();
        let end = if WINDOW_SIZE < len {
            WINDOW_SIZE
        } else {
            len
        };
        SlidingWindow { text: text.to_owned(), start: 0, end, context: None }
    }

    /// Moves the window on by [`SLIDE_SIZE`]; false, with nothing changed, when
    /// the window already reaches the end of the text.
    pub fn slide(&mut self) -> (r: bool)
        requires
            old(self).wf(),
        ensures
            final(self).wf(),
            final(self).text == old(self).text,
            final(self).context == old(self).context,
            r == (old(self).end < old(self).text@.len()),
            r ==> final(self).start == old(self).start + SLIDE_SIZE,
            !r ==> final(self).start == old(self).start,
    {
        let len = self.text.as_str().unicode_len();
        if self.end >= len {
            return false;
        }
        self.start = self.start + SLIDE_SIZE;
        self.end = if len - self.start > WINDOW_SIZE {
            self.start + WINDOW_SIZE
        } else {
            len
        };
        true
    }

    /// The text of the current window.
    pub fn current_window(&self) -> (r: &str)
        requires
            self.wf(),
        ensures
            r@ == self.text@.subrange(self.start as int, self.end as int),
    {
        self.text.as_str().substring_char(self.start, self.end)
    }

    /// Adds a summary to the context.
    pub fn update_context(&mut self, new_summary: &str)
        ensures
            final(self).text == old(self).text,
            final(self).start == old(self).start,
            final(self).end == old(self).end,
            opt_view(final(self).context) == Some(
                match old(self).context {
                    Some(c) => c@ + seq!['\n'] + new_summary@,
                    None => new_summary@,
                },
            ),
    {
        let next = match &self.context {
            Some(c) => {
                let mut n = c.clone();
                n.append("\n");
                n.append(new_summary);
                n
            },
            None => new_summary.to_owned(),
        };
        proof {
            reveal_strlit("\n");
        }
        self.context = Some(next);
    }

    /// The context so far.
    pub fn get_context(&self) -> (r: Option<String>)
        ensures
            opt_view(r) == opt_view(self.context),
    {
        match &self.context {
            Some(c) => Some(c.clone()),
            None => None,
        }
    }
}

/// A summarization run over sliding windows: each window is summarized with
/// the summaries so far as context, then one request combines them.
#[derive(Debug)]
pub struct SlidingRun {
    pub window: SlidingWindow,
    pub summaries: Vec<String>,
    /// The last window has been summarized.
    pub windows_done: bool,
    pub result: Option<String>,
}

impl SlidingRun {
    /// The window is well formed.
    pub open spec fn wf(&self) -> bool {
        self.window.wf()
    }

    /// The request that the run sends next, none once it has its summary.
    pub open spec fn next_call(&self) -> Option<SummaryCall> {
        if self.result is Some {
            None
        } else if !self.windows_done {
            Some(
                SummaryCall::Chunk(
                    self.window.text@.subrange(self.window.start as int, self.window.end as int),
                    opt_view(self.window.context),
                ),
            )
        } else {
            Some(SummaryCall::Combine(texts(self.summaries@)))
        }
    }

    /// A run over `text`, starting with its first window.
    pub fn new(text: &str) -> (r: SlidingRun)
        ensures
            r.wf(),
            r.window.text@ == text@,
            r.window.start == 0,
            r.window.context is None,
            r.summaries@.len() == 0,
            !r.windows_done,
            r.result is None,
    {
        SlidingRun {
            window: SlidingWindow::new(text),
            summaries: Vec::new(),
            windows_done: false,
            result: None,
        }
    }

    /// The request to send next.
    pub fn next_request(&self) -> (r: Option<SummaryRequest>)
        requires
            self.wf(),
        ensures
            match r {
                Some(q) => self.next_call() == Some(q@),
                None => self.next_call() is None,
            },
    {
        if self.result.is_some() {
            None
        } else if !self.windows_done {
            Some(
                SummaryRequest::SummarizeChunk {
                    chunk: self.window.current_window().to_owned(),
                    context: self.window.get_context(),
                },
            )
        } else {
            let mut all: Vec<String> = Vec::new();
            let mut i: usize = 0;
            while i < self.summaries.len()
                invariant
                    i <= self.summaries.len(),
                    all@ == self.summaries@.take(i as int),
                decreases self.summaries.len() - i,
            {
                all.push(self.summaries[i].clone());
                assert(all@ =~= self.summaries@.take(i + 1));
                i = i + 1;
            }
            assert(all@ =~= self.summaries@);
            Some(SummaryRequest::Combine { summaries: all })
        }
    }

    /// Records the reply to the pending request: a window's summary joins the
    /// context and the list, and the window moves on; the reply to the combine
    /// request is the result.
    pub fn record_reply(&mut self, text: String)
        requires
            old(self).wf(),
        ensures
            final(self).wf(),
            old(self).result is Some ==> *final(self) == *old(self),
            old(self).result is None && old(self).windows_done ==> opt_view(final(self).result)
                == Some(text@) && final(self).summaries == old(self).summaries,
            old(self).result is None && !old(self).windows_done ==> ({
                &&& final(self).result is None
                &&& texts(final(self).summaries@) == texts(old(self).summaries@).push(text@)
                &&& opt_view(final(self).window.context) == Some(
                    match old(self).window.context {
                        Some(c) => c@ + seq!['\n'] + text@,
                        None => text@,
                    },
                )
                &&& final(self).window.text == old(self).window.text
                &&& final(self).windows_done == (old(self).window.end >= old(self).window.text@.len())
                &&& !final(self).windows_done ==> final(self).window.start == old(self).window.start
                    + SLIDE_SIZE
            }),
    {
        if self.result.is_some() {
            return;
        }
        if self.windows_done {
            self.result = Some(text);
            return;
        }
        self.window.update_context(text.as_str());
        let ghost before = self.summaries@;
        self.summaries.push(text);
        assert(texts(self.summaries@) =~= texts(before).push(self.summaries@.last()@));
        if !self.window.slide() {
            self.windows_done = true;
        }
    }
}

} // verus!

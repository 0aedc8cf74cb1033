//! Remembering the last clipboard text so that each new text is reported once.
use vstd::prelude::*;

use crate::text::opt_view;

verus! {

/// Tracks the last clipboard text seen or written.
pub struct ClipboardMonitor {
    last_content: String,
}

/// What observing the clipboard gives, and the text remembered afterwards:
/// a text that is readable, not empty and not the remembered one is reported
/// and remembered; anything else is not reported and changes nothing.
pub open spec fn spec_observe(last: Seq<char>, current: Option<Seq<char>>) -> (
    Option<Seq<char>>,
    Seq<char>,
) {
    match current {
        Some(text) => if text.len() > 0 && text != last {
            (Some(text), text)
        } else {
            (None, last)
        },
        None => (None, last),
    }
}

impl View for ClipboardMonitor {
    type V = Seq<char>;

    /// The remembered text.
    closed spec fn view(&self) -> Seq<char> {
        self.last_content@
    }
}

impl ClipboardMonitor {
    /// A monitor that remembers no text yet. The polling interval is the
    /// caller's concern.
    pub fn new(_poll_interval_ms: u64) -> (r: Self)
        ensures
            r@ == Seq::<char>::empty(),
    {
        Self { last_content: String::new() }
    }

    /// Remembers a text written to the clipboard, so that reading it back is
    /// not reported as new.
    pub fn update_last_content(&mut self, content: &str)
        ensures
            final(self)@ == content@,
    {
        self.last_content = String::from_str(content);
    }

    /// The remembered text.
    pub fn last_content(&self) -> (r: String)
        ensures
            r@ == self@,
    {
        self.last_content.clone()
    }

    /// Takes the clipboard text just read (`None` when it could not be read)
    /// and reports it when it is new.
    pub fn observe_clipboard_text(&mut self, current: Option<String>) -> (r: Option<String>)
        ensures
            opt_view(r) == spec_observe(old(self)@, opt_view(current)).0,
            final(self)@ == spec_observe(old(self)@, opt_view(current)).1,
            match current {
                Some(text) => if text@.len() > 0 && text@ != old(self)@ {
                    r matches Some(t) && t@ == text@ && final(self)@ == text@
                } else {
                    r is None && final(self)@ == old(self)@
                },
                None => r is None && final(self)@ == old(self)@,
            },
    {
        match current {
            Some(text) => {
                if text.as_str().is_empty() {
                    return None;
                }
                if text != self.last_content {
                    self.last_content = text.clone();
                    Some(text)
                } else {
                    None
                }
            },
            None => None,
        }
    }
}

/// A readable text that is not empty and differs from the remembered one is
/// reported and remembered; the remembered text, an empty text or no text is
/// not reported and changes nothing.
pub proof fn lemma_new_text_is_reported(last: Seq<char>, text: Seq<char>)
    ensures
        text.len() > 0 && text != last ==> spec_observe(last, Some(text)) == (Some(text), text),
        text.len() == 0 || text == last ==> spec_observe(last, Some(text)) == (
            None::<Seq<char>>,
            last,
        ),
        spec_observe(last, None) == (None::<Seq<char>>, last),
{
}

/// A text is reported at most once in a row: after it was reported or
/// written, reading it again reports nothing.
pub proof fn lemma_same_text_not_reported_twice(last: Seq<char>, text: Seq<char>)
    ensures
        spec_observe(spec_observe(last, Some(text)).1, Some(text)).0 is None,
        spec_observe(text, Some(text)).0 is None,
{
}

} // verus!

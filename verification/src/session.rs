use vstd::prelude::*;

verus! {

use vstd::string::StringSliceAdditionalSpecFns;
use vstd::utf8::encode_utf8;
use crate::chars::{string_push, string_pop};
use crate::command::{
    Command,
    get_command,
    split_slash,
    wants_write,
    wants_substitute,
    wants_remove,
    wants_highlight,
};
use crate::fmt::{append_usize, append_delta, dec_chars, delta_chars};
use crate::highlight::{HighlightTable, advance_count};
use crate::line_table::{LineTable, line_starts};
use crate::rx::{rx_ok, rx_found, rx_replaced, rx_find, rx_replace_all, rx_error_message};

/// One abstract key event, as the platform layer hands it to the session.
#[derive(PartialEq, Eq, Structural, Clone, Copy, Debug)]
pub enum Key {
    Char(char),
    Enter,
    Backspace,
    Up,
    Down,
    Left,
    Right,
    Other,
}

/// What the platform layer must perform after a key was handled: nothing,
/// or saving the buffer to the backing store.
#[derive(PartialEq, Eq, Structural, Clone, Copy, Debug)]
pub enum Action {
    Nothing,
    Save,
}

/// The status line reports an error: it begins with `Error: `.
pub open spec fn is_error_status(s: Seq<char>) -> bool {
    s.len() >= 7 && s.subrange(0, 7) == "Error: "@
}

/// The line-advance counter of the highlight fan-out, clamped to the
/// machine limit.
pub open spec fn clamped_advances(t: LineTable, ms: Seq<(usize, usize)>) -> int {
    if advance_count(t, ms) <= usize::MAX as int {
        advance_count(t, ms)
    } else {
        usize::MAX as int
    }
}

/// One editing session: the buffer together with every piece of state the
/// commands and the renderer read.
pub struct Session {
    buffer: String,
    line_table: LineTable,
    highlight: HighlightTable,
    prompt: String,
    status: String,
    scroll_y: usize,
    scroll_x: usize,
}

/// Neither the buffer, nor the line table, nor the highlight table
/// differs between the two sessions.
pub open spec fn same_content(a: Session, b: Session) -> bool {
    &&& a.spec_buffer() == b.spec_buffer()
    &&& a.spec_table() == b.spec_table()
    &&& a.spec_highlight() == b.spec_highlight()
}

/// A failed command: the status reports an error and every other piece of
/// state, the prompt included, is left untouched.
pub open spec fn error_no_change(pre: Session, post: Session) -> bool {
    &&& same_content(pre, post)
    &&& post.spec_prompt() == pre.spec_prompt()
    &&& post.spec_scroll() == pre.spec_scroll()
    &&& is_error_status(post.spec_status())
}

/// The transition that pressing Enter performs, per the command grammar.
pub open spec fn enter_step(pre: Session, post: Session, act: Action) -> bool {
    let p = pre.spec_prompt();
    let bytes = pre.spec_buffer_bytes();
    if wants_write(p) {
        // The platform layer performs the store write and then reports
        // back through `save_done`.
        act is Save && post == pre
    } else if wants_substitute(p) || wants_remove(p) {
        let pat = split_slash(p)[1];
        let rep = if wants_substitute(p) {
            split_slash(p)[2]
        } else {
            Seq::<char>::empty()
        };
        let new = rx_replaced(pat, bytes, rep);
        &&& act is Nothing
        &&& if rx_ok(pat) {
            &&& post.spec_buffer_bytes() == new
            // When the pattern no longer matches, nothing is rewritten;
            // so a substitution whose replacement cannot match its own
            // pattern is idempotent.
            &&& rx_found(pat, bytes).len() == 0 ==> post.spec_buffer_bytes() == bytes
            &&& post.spec_highlight().wf_for(post.spec_table(), Seq::empty())
            &&& post.spec_status() == "difference: "@ + delta_chars(
                new.len() as int,
                bytes.len() as int,
            ) + " characters"@
            &&& post.spec_prompt() == Seq::<char>::empty()
            &&& post.spec_scroll() == pre.spec_scroll()
        } else {
            error_no_change(pre, post)
        }
    } else if wants_highlight(p) {
        let pat = split_slash(p)[1];
        let found = rx_found(pat, bytes);
        &&& act is Nothing
        &&& if rx_ok(pat) {
            &&& post.spec_buffer() == pre.spec_buffer()
            &&& post.spec_table() == pre.spec_table()
            &&& post.spec_highlight().wf_for(post.spec_table(), found)
            &&& post.spec_status() == dec_chars(found.len()) + " matches, "@ + dec_chars(
                clamped_advances(pre.spec_table(), found) as nat,
            ) + " lines"@
            &&& post.spec_prompt() == pre.spec_prompt()
            &&& post.spec_scroll() == pre.spec_scroll()
        } else {
            error_no_change(pre, post)
        }
    } else {
        // Unrecognized prompts are a silent no-op: nothing changes, not
        // even the status.
        act is Nothing && post == pre
    }
}

/// The transition that one key event performs.
pub open spec fn key_step(pre: Session, k: Key, post: Session, act: Action) -> bool {
    match k {
        Key::Char(c) => {
            &&& act is Nothing
            &&& post.spec_prompt() == pre.spec_prompt().push(c)
            &&& same_content(pre, post)
            &&& post.spec_status() == pre.spec_status()
            &&& post.spec_scroll() == pre.spec_scroll()
        },
        Key::Backspace => {
            &&& act is Nothing
            &&& post.spec_prompt() == if pre.spec_prompt().len() > 0 {
                pre.spec_prompt().drop_last()
            } else {
                pre.spec_prompt()
            }
            &&& same_content(pre, post)
            &&& post.spec_status() == pre.spec_status()
            &&& post.spec_scroll() == pre.spec_scroll()
        },
        Key::Up => {
            &&& act is Nothing
            &&& post.spec_scroll() == (
                if pre.spec_scroll().0 > 0 {
                    pre.spec_scroll().0 - 1
                } else {
                    0
                },
                pre.spec_scroll().1,
            )
            &&& same_but_scroll(pre, post)
        },
        Key::Down => {
            &&& act is Nothing
            &&& post.spec_scroll() == (
                if pre.spec_scroll().0 < usize::MAX as int {
                    pre.spec_scroll().0 + 1
                } else {
                    pre.spec_scroll().0
                },
                pre.spec_scroll().1,
            )
            &&& same_but_scroll(pre, post)
        },
        Key::Left => {
            &&& act is Nothing
            &&& post.spec_scroll() == (
                pre.spec_scroll().0,
                if pre.spec_scroll().1 > 0 {
                    pre.spec_scroll().1 - 1
                } else {
                    0
                },
            )
            &&& same_but_scroll(pre, post)
        },
        Key::Right => {
            &&& act is Nothing
            &&& post.spec_scroll() == (
                pre.spec_scroll().0,
                if pre.spec_scroll().1 < usize::MAX as int {
                    pre.spec_scroll().1 + 1
                } else {
                    pre.spec_scroll().1
                },
            )
            &&& same_but_scroll(pre, post)
        },
        Key::Enter => enter_step(pre, post, act),
        Key::Other => act is Nothing && post == pre,
    }
}

/// Only the scroll position may differ.
pub open spec fn same_but_scroll(pre: Session, post: Session) -> bool {
    &&& same_content(pre, post)
    &&& post.spec_prompt() == pre.spec_prompt()
    &&& post.spec_status() == pre.spec_status()
}

impl Session {
    /// The buffer's characters.
    pub closed spec fn spec_buffer(&self) -> Seq<char> {
        self.buffer@
    }

    /// The buffer's UTF-8 bytes; every stored offset refers to these.
    pub open spec fn spec_buffer_bytes(&self) -> Seq<u8> {
        encode_utf8(self.spec_buffer())
    }

    pub closed spec fn spec_table(&self) -> LineTable {
        self.line_table
    }

    pub closed spec fn spec_highlight(&self) -> HighlightTable {
        self.highlight
    }

    pub closed spec fn spec_prompt(&self) -> Seq<char> {
        self.prompt@
    }

    pub closed spec fn spec_status(&self) -> Seq<char> {
        self.status@
    }

    /// The scroll position, `(vertical line offset, horizontal byte
    /// offset)`.
    pub closed spec fn spec_scroll(&self) -> (int, int) {
        (self.scroll_y as int, self.scroll_x as int)
    }

    /// The line table always indexes the current buffer, and the
    /// highlight table always fits the line table.
    pub open spec fn wf(&self) -> bool {
        &&& self.spec_table().wf_for(self.spec_buffer_bytes())
        &&& self.spec_table().wf()
        &&& self.spec_highlight().wf(self.spec_table())
    }

    /// Open a session on the given text: index its lines, clear the
    /// highlights, and report how much was loaded.
    pub fn new(buffer: String) -> (s: Session)
        ensures
            s.wf(),
            s.spec_buffer() == buffer@,
            s.spec_highlight().wf_for(s.spec_table(), Seq::empty()),
            s.spec_prompt() == Seq::<char>::empty(),
            s.spec_scroll() == (0int, 0int),
            s.spec_status() == "loaded "@ + dec_chars(encode_utf8(buffer@).len()) + " characters, "@
                + dec_chars(line_starts(encode_utf8(buffer@)).len()) + " lines"@,
    {
        let line_table = LineTable::new(buffer.as_str());
        let lines = line_table.len();
        let blen = buffer.as_str().len();
        proof {
            assert(encode_utf8(buffer@).len() <= usize::MAX);
        }
        let highlight = HighlightTable::empty(lines);
        let mut status = String::new();
        status.append("loaded ");
        append_usize(&mut status, blen);
        status.append(" characters, ");
        append_usize(&mut status, lines);
        status.append(" lines");
        proof {
            assert(status@ =~= "loaded "@ + dec_chars(encode_utf8(buffer@).len()) + " characters, "@
                + dec_chars(line_starts(encode_utf8(buffer@)).len()) + " lines"@);
        }
        let s = Session {
            buffer,
            line_table,
            highlight,
            prompt: String::new(),
            status,
            scroll_y: 0,
            scroll_x: 0,
        };
        proof {
            s.highlight.lemma_empty_wf(s.line_table);
        }
        s
    }

    /// Handle one key event: printable characters grow the prompt,
    /// Backspace shrinks it, the arrows move the scroll position (floored
    /// at zero), and Enter runs the prompt as a command.
    pub fn key(&mut self, k: Key) -> (act: Action)
        requires
            old(self).wf(),
        ensures
            final(self).wf(),
            key_step(*old(self), k, *final(self), act),
            act is Save <==> k is Enter && wants_write(old(self).spec_prompt()),
    {
        match k {
            Key::Char(c) => {
                string_push(&mut self.prompt, c);
                Action::Nothing
            },
            Key::Backspace => {
                let _ = string_pop(&mut self.prompt);
                Action::Nothing
            },
            Key::Up => {
                if self.scroll_y > 0 {
                    self.scroll_y = self.scroll_y - 1;
                }
                Action::Nothing
            },
            Key::Down => {
                if self.scroll_y < usize::MAX {
                    self.scroll_y = self.scroll_y + 1;
                }
                Action::Nothing
            },
            Key::Left => {
                if self.scroll_x > 0 {
                    self.scroll_x = self.scroll_x - 1;
                }
                Action::Nothing
            },
            Key::Right => {
                if self.scroll_x < usize::MAX {
                    self.scroll_x = self.scroll_x + 1;
                }
                Action::Nothing
            },
            Key::Enter => self.run_command(),
            Key::Other => Action::Nothing,
        }
    }

    /// Parse the prompt and execute the command it names.
    fn run_command(&mut self) -> (act: Action)
        requires
            old(self).wf(),
        ensures
            final(self).wf(),
            enter_step(*old(self), *final(self), act),
            act is Save <==> wants_write(old(self).spec_prompt()),
    {
        let cmd = get_command(self.prompt.as_str());
        match cmd {
            Command::Write => Action::Save,
            Command::Substitute(pat, rep) => {
                self.apply_replace(&pat, &rep);
                Action::Nothing
            },
            Command::Remove(pat) => {
                let rep = String::new();
                self.apply_replace(&pat, &rep);
                Action::Nothing
            },
            Command::Highlight(pat) => {
                self.apply_highlight(&pat);
                Action::Nothing
            },
            Command::Noop => Action::Nothing,
        }
    }

    /// Replace every match of `pat` in the buffer with `rep`, rebuild the
    /// line and highlight tables, report the length difference, and clear
    /// the prompt; on an invalid pattern report the error and change
    /// nothing else.
    fn apply_replace(&mut self, pat: &String, rep: &String)
        requires
            old(self).wf(),
        ensures
            final(self).wf(),
            rx_ok(pat@) ==> {
                let new = rx_replaced(pat@, old(self).spec_buffer_bytes(), rep@);
                &&& final(self).spec_buffer_bytes() == new
                &&& rx_found(pat@, old(self).spec_buffer_bytes()).len() == 0
                    ==> final(self).spec_buffer_bytes() == old(self).spec_buffer_bytes()
                &&& final(self).spec_highlight().wf_for(final(self).spec_table(), Seq::empty())
                &&& final(self).spec_status() == "difference: "@ + delta_chars(
                    new.len() as int,
                    old(self).spec_buffer_bytes().len() as int,
                ) + " characters"@
                &&& final(self).spec_prompt() == Seq::<char>::empty()
                &&& final(self).spec_scroll() == old(self).spec_scroll()
            },
            !rx_ok(pat@) ==> error_no_change(*old(self), *final(self)),
    {
        let old_len = self.buffer.as_str().len();
        let result = rx_replace_all(pat.as_str(), self.buffer.as_str(), rep.as_str());
        match result {
            Ok(new_buffer) => {
                let new_len = new_buffer.as_str().len();
                self.buffer = new_buffer;
                self.line_table = LineTable::new(self.buffer.as_str());
                self.highlight = HighlightTable::empty(self.line_table.len());
                proof {
                    self.highlight.lemma_empty_wf(self.line_table);
                    assert(encode_utf8(self.buffer@).len() <= usize::MAX);
                    assert(encode_utf8(old(self).buffer@).len() <= usize::MAX);
                }
                let mut status = String::new();
                status.append("difference: ");
                append_delta(&mut status, new_len, old_len);
                status.append(" characters");
                proof {
                    assert(status@ =~= "difference: "@ + delta_chars(
                        new_len as int,
                        old_len as int,
                    ) + " characters"@);
                }
                self.status = status;
                self.prompt = String::new();
            },
            Err(e) => {
                self.set_error(&e);
            },
        }
    }

    /// Rebuild the highlight table from every match of `pat`, and report
    /// the match and line-advance counts; the buffer and the prompt stay
    /// as they are.  On an invalid pattern report the error and change
    /// nothing else.
    fn apply_highlight(&mut self, pat: &String)
        requires
            old(self).wf(),
        ensures
            final(self).wf(),
            rx_ok(pat@) ==> {
                let found = rx_found(pat@, old(self).spec_buffer_bytes());
                &&& final(self).spec_buffer() == old(self).spec_buffer()
                &&& final(self).spec_table() == old(self).spec_table()
                &&& final(self).spec_highlight().wf_for(final(self).spec_table(), found)
                &&& final(self).spec_status() == dec_chars(found.len()) + " matches, "@ + dec_chars(
                    clamped_advances(old(self).spec_table(), found) as nat,
                ) + " lines"@
                &&& final(self).spec_prompt() == old(self).spec_prompt()
                &&& final(self).spec_scroll() == old(self).spec_scroll()
            },
            !rx_ok(pat@) ==> error_no_change(*old(self), *final(self)),
    {
        let result = rx_find(pat.as_str(), self.buffer.as_str());
        match result {
            Ok(found) => {
                let matches = found.len();
                let built = HighlightTable::build(&self.line_table, &found);
                self.highlight = built.0;
                let mut status = String::new();
                append_usize(&mut status, matches);
                status.append(" matches, ");
                append_usize(&mut status, built.1);
                status.append(" lines");
                proof {
                    assert(status@ =~= dec_chars(matches as nat) + " matches, "@ + dec_chars(
                        built.1 as nat,
                    ) + " lines"@);
                }
                self.status = status;
            },
            Err(e) => {
                self.set_error(&e);
            },
        }
    }

    /// Report a pattern error on the status line; nothing else changes.
    fn set_error(&mut self, e: &regex::Error)
        ensures
            final(self).spec_buffer() == old(self).spec_buffer(),
            final(self).spec_table() == old(self).spec_table(),
            final(self).spec_highlight() == old(self).spec_highlight(),
            final(self).spec_prompt() == old(self).spec_prompt(),
            final(self).spec_scroll() == old(self).spec_scroll(),
            is_error_status(final(self).spec_status()),
    {
        let msg = rx_error_message(e);
        let mut status = String::new();
        status.append("Error: ");
        status.append(msg.as_str());
        proof {
            reveal_strlit("Error: ");
            assert(status@.subrange(0, 7) =~= "Error: "@);
        }
        self.status = status;
    }

    /// After the platform layer saved the buffer: on success report how
    /// many bytes were written and clear the prompt; on failure report the
    /// error and keep the prompt.
    pub fn save_done(&mut self, result: Result<usize, String>)
        requires
            old(self).wf(),
        ensures
            final(self).wf(),
            same_content(*old(self), *final(self)),
            final(self).spec_scroll() == old(self).spec_scroll(),
            result matches Ok(n) ==> final(self).spec_status() == dec_chars(n as nat)
                + " bytes written"@ && final(self).spec_prompt() == Seq::<char>::empty(),
            result matches Err(e) ==> final(self).spec_status() == "Error: "@ + e@
                && final(self).spec_prompt() == old(self).spec_prompt(),
    {
        match result {
            Ok(n) => {
                let mut status = String::new();
                append_usize(&mut status, n);
                status.append(" bytes written");
                proof {
                    assert(status@ =~= dec_chars(n as nat) + " bytes written"@);
                }
                self.status = status;
                self.prompt = String::new();
            },
            Err(e) => {
                let mut status = String::new();
                status.append("Error: ");
                status.append(e.as_str());
                proof {
                    assert(status@ =~= "Error: "@ + e@);
                }
                self.status = status;
            },
        }
    }

    /// The buffer's current text, what the Save action must persist.
    pub fn get_buffer(&self) -> (r: &String)
        ensures
            r@ == self.spec_buffer(),
    {
        &self.buffer
    }

    pub fn get_line_table(&self) -> (r: &LineTable)
        ensures
            *r == self.spec_table(),
    {
        &self.line_table
    }

    pub fn get_highlight(&self) -> (r: &HighlightTable)
        ensures
            *r == self.spec_highlight(),
    {
        &self.highlight
    }

    pub fn get_prompt(&self) -> (r: &String)
        ensures
            r@ == self.spec_prompt(),
    {
        &self.prompt
    }

    pub fn get_status(&self) -> (r: &String)
        ensures
            r@ == self.spec_status(),
    {
        &self.status
    }

    pub fn get_scroll(&self) -> (r: (usize, usize))
        ensures
            (r.0 as int, r.1 as int) == self.spec_scroll(),
    {
        (self.scroll_y, self.scroll_x)
    }
}

/// Truncate-then-overwrite store semantics of the Write command: after
/// the call the store holds exactly the buffer's bytes, and the number of
/// bytes written is returned.  The platform layer mirrors this on the
/// real backing file.
pub fn write_store(store: &mut Vec<u8>, data: &Vec<u8>) -> (n: usize)
    ensures
        final(store)@ == data@,
        n == data@.len(),
{
    store.clear();
    let mut i: usize = 0;
    while i < data.len()
        invariant
            i <= data@.len(),
            store@ == data@.take(i as int),
        decreases data@.len() - i,
    {
        store.push(data[i]);
        proof {
            assert(store@ =~= data@.take(i + 1));
        }
        i = i + 1;
    }
    proof {
        assert(data@.take(data@.len() as int) =~= data@);
    }
    data.len()
}

} // verus!

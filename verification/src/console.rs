//! Decision core of the developer console: key handling over the source
//! table, and the bounded log queue.
//!
//! The console's terminal I/O lives outside this crate; it feeds key events
//! in, applies the returned actions, and renders the state.

use vstd::prelude::*;

verus! {

/// Most log lines the buffer retains.
pub const LOG_CAPACITY: usize = 256;

/// Console input focus.
#[derive(Clone, Copy, Debug, PartialEq, Eq, Structural)]
pub enum Mode {
    /// Keys navigate the source table.
    Normal,
    /// Keys edit the gain entry field.
    GainInput,
}

/// A key event, reduced to what the console reacts to.
#[derive(Clone, Copy, Debug, PartialEq, Eq, Structural)]
pub enum Key {
    /// Move the selection up.
    Up,
    /// Move the selection down.
    Down,
    /// Leave the gain entry field.
    Esc,
    /// Apply the gain entry field.
    Enter,
    /// Delete the last character of the gain entry field.
    Backspace,
    /// A printable character.
    Char(char),
}

/// What the caller must do after a key is handled.
#[derive(Clone, Copy, Debug, PartialEq, Eq, Structural)]
pub enum ConsoleAction {
    /// Nothing.
    Stay,
    /// Leave the console.
    Quit,
    /// Toggle the mute state of the source at the given table index.
    ToggleMute(usize),
    /// Seed the gain entry field for the source at the given table index.
    BeginGainEdit(usize),
    /// Parse the gain entry field and apply it to the source at the given
    /// table index.
    CommitGain(usize),
}

/// The mutable console state, as plain values.
pub struct ConsoleView {
    /// Index of the selected source row.
    pub selected: int,
    /// Input focus.
    pub mode: Mode,
    /// ASCII contents of the gain entry field.
    pub buffer: Seq<u8>,
}

/// Whether a character may enter the gain entry field.
pub open spec fn spec_gain_char(c: char) -> bool {
    ('0' <= c && c <= '9') || c == '.' || c == '-' || c == '+'
}

/// The console transition: the state after a key and the action it demands.
pub open spec fn spec_handle_key(v: ConsoleView, key: Key, source_count: int) -> (ConsoleView,
    ConsoleAction) {
    match v.mode {
        Mode::Normal => match key {
            Key::Char(c) => if c == 'q' {
                (v, ConsoleAction::Quit)
            } else if c == 'm' && v.selected < source_count {
                (v, ConsoleAction::ToggleMute(v.selected as usize))
            } else if c == 'g' && v.selected < source_count {
                (
                    ConsoleView { mode: Mode::GainInput, ..v },
                    ConsoleAction::BeginGainEdit(v.selected as usize),
                )
            } else {
                (v, ConsoleAction::Stay)
            },
            Key::Up => if v.selected > 0 {
                (ConsoleView { selected: v.selected - 1, ..v }, ConsoleAction::Stay)
            } else {
                (v, ConsoleAction::Stay)
            },
            Key::Down => if v.selected + 1 < source_count {
                (ConsoleView { selected: v.selected + 1, ..v }, ConsoleAction::Stay)
            } else {
                (v, ConsoleAction::Stay)
            },
            _ => (v, ConsoleAction::Stay),
        },
        Mode::GainInput => match key {
            Key::Esc => (
                ConsoleView { mode: Mode::Normal, buffer: Seq::<u8>::empty(), ..v },
                ConsoleAction::Stay,
            ),
            Key::Enter => if v.selected < source_count {
                (
                    ConsoleView { mode: Mode::Normal, ..v },
                    ConsoleAction::CommitGain(v.selected as usize),
                )
            } else {
                (ConsoleView { mode: Mode::Normal, ..v }, ConsoleAction::Stay)
            },
            Key::Backspace => if v.buffer.len() > 0 {
                (ConsoleView { buffer: v.buffer.drop_last(), ..v }, ConsoleAction::Stay)
            } else {
                (v, ConsoleAction::Stay)
            },
            Key::Char(c) => if spec_gain_char(c) {
                (ConsoleView { buffer: v.buffer.push(c as u8), ..v }, ConsoleAction::Stay)
            } else {
                (v, ConsoleAction::Stay)
            },
            _ => (v, ConsoleAction::Stay),
        },
    }
}

/// Console state: the selected row, the input focus and the gain entry
/// field.
pub struct ConsoleState {
    /// Index of the selected source row.
    pub selected: usize,
    /// Input focus.
    pub mode: Mode,
    /// ASCII contents of the gain entry field.
    pub gain_buffer: Vec<u8>,
}

impl ConsoleState {
    /// The state as plain values.
    pub open spec fn view(&self) -> ConsoleView {
        ConsoleView { selected: self.selected as int, mode: self.mode, buffer: self.gain_buffer@ }
    }

    /// A fresh console over the first source row.
    pub fn new() -> (s: ConsoleState)
        ensures
            s.selected == 0,
            s.mode == Mode::Normal,
            s.gain_buffer@ == Seq::<u8>::empty(),
    {
        ConsoleState { selected: 0, mode: Mode::Normal, gain_buffer: Vec::new() }
    }

    /// Clamp the selection to the current source table, as a status refresh
    /// does.
    pub fn clamp_selection(&mut self, source_count: usize)
        ensures
            final(self).mode == old(self).mode,
            final(self).gain_buffer@ == old(self).gain_buffer@,
            final(self).selected == if source_count == 0 {
                0int
            } else if old(self).selected as int <= source_count - 1 {
                old(self).selected as int
            } else {
                source_count - 1
            },
    {
        if source_count == 0 {
            self.selected = 0;
        } else if self.selected > source_count - 1 {
            self.selected = source_count - 1;
        }
    }

    /// Seed the gain entry field, as the caller does when a gain edit
    /// begins.
    pub fn set_gain_buffer(&mut self, text: Vec<u8>)
        ensures
            final(self).mode == old(self).mode,
            final(self).selected == old(self).selected,
            final(self).gain_buffer@ == text@,
    {
        self.gain_buffer = text;
    }

    /// Handle one key event over a table of `source_count` sources.
    pub fn handle_key(&mut self, key: Key, source_count: usize) -> (a: ConsoleAction)
        ensures
            (final(self)@, a) == spec_handle_key(old(self)@, key, source_count as int),
    {
        match self.mode {
            Mode::Normal => match key {
                Key::Char(c) => {
                    if c == 'q' {
                        ConsoleAction::Quit
                    } else if c == 'm' && self.selected < source_count {
                        ConsoleAction::ToggleMute(self.selected)
                    } else if c == 'g' && self.selected < source_count {
                        self.mode = Mode::GainInput;
                        ConsoleAction::BeginGainEdit(self.selected)
                    } else {
                        ConsoleAction::Stay
                    }
                },
                Key::Up => {
                    if self.selected > 0 {
                        self.selected = self.selected - 1;
                    }
                    ConsoleAction::Stay
                },
                Key::Down => {
                    if self.selected < usize::MAX && self.selected + 1 < source_count {
                        self.selected = self.selected + 1;
                    }
                    ConsoleAction::Stay
                },
                _ => ConsoleAction::Stay,
            },
            Mode::GainInput => match key {
                Key::Esc => {
                    self.mode = Mode::Normal;
                    self.gain_buffer = Vec::new();
                    ConsoleAction::Stay
                },
                Key::Enter => {
                    self.mode = Mode::Normal;
                    if self.selected < source_count {
                        ConsoleAction::CommitGain(self.selected)
                    } else {
                        ConsoleAction::Stay
                    }
                },
                Key::Backspace => {
                    if self.gain_buffer.len() > 0 {
                        let n = self.gain_buffer.len();
                        self.gain_buffer.truncate(n - 1);
                        proof {
                            assert(self.gain_buffer@ =~= old(self).gain_buffer@.drop_last());
                        }
                    }
                    ConsoleAction::Stay
                },
                Key::Char(c) => {
                    if ('0' <= c && c <= '9') || c == '.' || c == '-' || c == '+' {
                        self.gain_buffer.push(c as u8);
                    }
                    ConsoleAction::Stay
                },
                _ => ConsoleAction::Stay,
            },
        }
    }
}

/// Bounded queue of log lines: old lines fall off the front once the
/// capacity is reached.
pub struct LogBuffer {
    /// Retained lines, oldest first.
    pub lines: Vec<String>,
}

impl LogBuffer {
    /// The buffer never exceeds its capacity.
    pub open spec fn wf(&self) -> bool {
        self.lines@.len() <= LOG_CAPACITY
    }

    /// A fresh, empty log buffer.
    pub fn new() -> (b: LogBuffer)
        ensures
            b.wf(),
            b.lines@.len() == 0,
    {
        LogBuffer { lines: Vec::new() }
    }

    /// Append one line, dropping the oldest line when the buffer is full.
    pub fn push_log(&mut self, line: String)
        requires
            old(self).wf(),
        ensures
            final(self).wf(),
            final(self).lines@ == if old(self).lines@.len() < LOG_CAPACITY {
                old(self).lines@.push(line)
            } else {
                old(self).lines@.push(line).skip(1)
            },
    {
        self.lines.push(line);
        if self.lines.len() > LOG_CAPACITY {
            self.lines.remove(0);
            proof {
                assert(self.lines@ =~= old(self).lines@.push(line).skip(1));
            }
        }
    }

    /// Pop the oldest line, if any.
    pub fn pop_log(&mut self) -> (r: Option<String>)
        requires
            old(self).wf(),
        ensures
            final(self).wf(),
            old(self).lines@.len() == 0 ==> r.is_none() && final(self).lines@
                == old(self).lines@,
            old(self).lines@.len() > 0 ==> r == Some(old(self).lines@[0]) && final(self).lines@
                == old(self).lines@.skip(1),
    {
        if self.lines.len() == 0 {
            None
        } else {
            let line = self.lines.remove(0);
            proof {
                assert(self.lines@ =~= old(self).lines@.skip(1));
            }
            Some(line)
        }
    }
}

} // verus!

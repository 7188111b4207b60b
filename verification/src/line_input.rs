//! Editing one line of input, key by key.

use crate::text::string_of;
use vstd::prelude::*;
use vstd::string::StringExecFns;

verus! {

/// A key that was pressed, as far as line editing cares.
#[derive(Copy, Clone, Debug, PartialEq, Eq, Structural)]
pub enum Key {
    /// A key that types this character.
    Char(char),
    Enter,
    Backspace,
    /// Any other key.
    Other,
}

/// What a pressed key asks the terminal to do.
#[derive(Debug, PartialEq, Eq)]
pub enum Step {
    /// Write this character behind the line.
    Echo(char),
    /// Move one place to the left and clear from there to the end of the line.
    Erase,
    /// Do nothing.
    Ignore,
    /// End the line; this is what was typed.
    Done(String),
}

/// A `Step` with its text as a character sequence.
pub enum StepView {
    Echo(char),
    Erase,
    Ignore,
    Done(Seq<char>),
}

impl View for Step {
    type V = StepView;

    open spec fn view(&self) -> StepView {
        match self {
            Step::Echo(c) => StepView::Echo(*c),
            Step::Erase => StepView::Erase,
            Step::Ignore => StepView::Ignore,
            Step::Done(line) => StepView::Done(line@),
        }
    }
}

/// A line that is being typed behind a prompt.
pub struct LineInput {
    prompt: String,
    buf: Vec<char>,
}

/// What the key `key` does to the typed text `typed`: the text after it, and
/// what the terminal is to do. A character goes behind the text; backspace
/// takes the last character off, and does nothing to an empty text; enter
/// ends the line; any other key does nothing.
pub open spec fn press_key(typed: Seq<char>, key: Key) -> (Seq<char>, StepView) {
    match key {
        Key::Char(c) => (typed.push(c), StepView::Echo(c)),
        Key::Enter => (typed, StepView::Done(typed)),
        Key::Backspace => if typed.len() > 0 {
            (typed.drop_last(), StepView::Erase)
        } else {
            (typed, StepView::Ignore)
        },
        Key::Other => (typed, StepView::Ignore),
    }
}

impl LineInput {
    /// The prompt.
    pub closed spec fn prompt(&self) -> Seq<char> {
        self.prompt@
    }

    /// What was typed so far.
    pub closed spec fn typed(&self) -> Seq<char> {
        self.buf@
    }

    /// A line behind the prompt `prompt`, with nothing typed yet.
    pub fn new(prompt: &str) -> (line: Self)
        ensures
            line.prompt() == prompt@,
            line.typed() == Seq::<char>::empty(),
    {
        LineInput { prompt: String::from_str(prompt), buf: Vec::new() }
    }

    /// Takes the key `key` and says what the terminal is to do.
    pub fn press(&mut self, key: Key) -> (step: Step)
        ensures
            final(self).prompt() == old(self).prompt(),
            (final(self).typed(), step@) == press_key(old(self).typed(), key),
    {
        match key {
            Key::Char(c) => {
                self.buf.push(c);
                Step::Echo(c)
            },
            Key::Enter => {
                let line = string_of(&self.buf, 0, self.buf.len());
                assert(line@ =~= self.buf@);
                Step::Done(line)
            },
            Key::Backspace => {
                if self.buf.len() > 0 {
                    self.buf.pop();
                    assert(self.buf@ =~= old(self).buf@.drop_last());
                    Step::Erase
                } else {
                    Step::Ignore
                }
            },
            Key::Other => Step::Ignore,
        }
    }

    /// The line as the terminal shows it: the prompt, and behind it what was
    /// typed so far.
    pub fn shown(&self) -> (line: String)
        ensures
            line@ == self.prompt() + self.typed(),
    {
        let mut line = self.prompt.clone();
        let typed = string_of(&self.buf, 0, self.buf.len());
        assert(typed@ =~= self.buf@);
        line.append(typed.as_str());
        line
    }
}

} // verus!

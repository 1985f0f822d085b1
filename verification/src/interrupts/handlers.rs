//! Decisions of the interrupt handlers: the timer heartbeat and the
//! keyboard's line editing.
use vstd::prelude::*;

verus! {

/// Whether the timer tick numbered `count` logs a heartbeat: every
/// thousandth tick.
pub fn heartbeat_due(count: u64) -> (r: bool)
    ensures
        r == (count % 1000 == 0),
{
    count % 1000 == 0
}

/// The line being typed at the keyboard.
pub struct InputBuffer {
    chars: Vec<char>,
}

/// What a key press asks of the kernel besides editing the line: whether
/// the character is echoed to the screen, and whether the line is
/// submitted as a command.
#[derive(Clone, Copy, Debug, PartialEq, Eq)]
pub struct KeyEffect {
    pub echo: bool,
    pub submit: bool,
}

impl View for InputBuffer {
    type V = Seq<char>;

    closed spec fn view(&self) -> Seq<char> {
        self.chars@
    }
}

/// The line after typing `c` on the line `line`, and what else happens:
/// a backspace removes the last character and is echoed only when there
/// was one; a line feed is echoed and submits the line, which stays as it
/// is until the command is taken with [`InputBuffer::take_line`]; any
/// other character is echoed and appended.
pub open spec fn key_result(line: Seq<char>, c: char) -> (Seq<char>, KeyEffect) {
    if c == '\u{8}' {
        if line.len() > 0 {
            (line.drop_last(), KeyEffect { echo: true, submit: false })
        } else {
            (line, KeyEffect { echo: false, submit: false })
        }
    } else if c == '\n' {
        (line, KeyEffect { echo: true, submit: true })
    } else {
        (line.push(c), KeyEffect { echo: true, submit: false })
    }
}

impl InputBuffer {
    /// An empty line.
    pub fn new() -> (r: Self)
        ensures
            r@ == Seq::<char>::empty(),
    {
        InputBuffer { chars: Vec::new() }
    }

    /// The characters typed so far.
    pub fn as_chars(&self) -> (r: &[char])
        ensures
            r@ == self@,
    {
        self.chars.as_slice()
    }

    /// Takes the submitted command: returns the line and leaves it empty.
    pub fn take_line(&mut self) -> (r: Vec<char>)
        ensures
            r@ == old(self)@,
            final(self)@ == Seq::<char>::empty(),
    {
        let mut taken: Vec<char> = Vec::new();
        std::mem::swap(&mut taken, &mut self.chars);
        taken
    }

    /// Applies the character `c` decoded from a key press to the line.
    pub fn handle_char(&mut self, c: char) -> (r: KeyEffect)
        ensures
            (final(self)@, r) == key_result(old(self)@, c),
    {
        if c == '\u{8}' {
            let popped = self.chars.pop();
            KeyEffect { echo: popped.is_some(), submit: false }
        } else if c == '\n' {
            KeyEffect { echo: true, submit: true }
        } else {
            self.chars.push(c);
            KeyEffect { echo: true, submit: false }
        }
    }
}

/// A backspace undoes the typing of an ordinary character: the line is as
/// it was before, and the backspace is echoed so that the screen erases it.
pub proof fn lemma_backspace_undoes_typing(line: Seq<char>, c: char)
    requires
        c != '\u{8}',
        c != '\n',
    ensures
        key_result(key_result(line, c).0, '\u{8}').0 == line,
        key_result(key_result(line, c).0, '\u{8}').1.echo,
{
    assert(line.push(c).drop_last() =~= line);
}

/// Enter hands the typed line over as a command, unchanged.
pub proof fn lemma_submit_keeps_line(line: Seq<char>)
    ensures
        key_result(line, '\n').0 == line,
        key_result(line, '\n').1.submit,
{
}

/// Typing an ordinary character echoes it and adds it at the end of the
/// line, keeping what was typed before; a backspace echoes and removes
/// exactly the last character when there is one, and on an empty line does
/// nothing and echoes nothing; no key but Enter submits.
pub proof fn lemma_typing_edits_the_end(line: Seq<char>, c: char)
    ensures
        c != '\u{8}' && c != '\n' ==> {
            let (l, e) = key_result(line, c);
            &&& l.len() == line.len() + 1
            &&& l[line.len() as int] == c
            &&& l.subrange(0, line.len() as int) == line
            &&& e.echo && !e.submit
        },
        line.len() > 0 ==> {
            let (l, e) = key_result(line, '\u{8}');
            &&& l.len() == line.len() - 1
            &&& l == line.subrange(0, line.len() - 1)
            &&& e.echo && !e.submit
        },
        line.len() == 0 ==> key_result(line, '\u{8}') == (
            line,
            KeyEffect { echo: false, submit: false },
        ),
        key_result(line, '\n').1.echo,
{
    if c != '\u{8}' && c != '\n' {
        assert(line.push(c).subrange(0, line.len() as int) =~= line);
    }
    if line.len() > 0 {
        assert(line.drop_last() =~= line.subrange(0, line.len() - 1));
    }
}

} // verus!

//! The instructions that a user types, and how a terminal edits the line
//! that holds them.

use vstd::prelude::*;

use crate::line_buffer::LineBuffer;
use crate::nets::SupplySwitchPos;
use crate::node::NamedNode;
use crate::text::same_bytes;
use vstd::utf8::encode_utf8;

verus! {

/// What the user asks for.
#[derive(Copy, Clone, PartialEq, Eq, Debug)]
pub enum Instruction<N: NamedNode> {
    /// Print the help text.
    Help,
    /// Reset the device.
    Reset,
    /// Play the rainbow animation.
    RainbowBounce,
    /// Note the position of the supply switch.
    SetSwitchPos(SupplySwitchPos),
    /// Print the position of the supply switch.
    PrintSwitchPos,
    /// Clear all connections.
    Clear,
    /// Connect two nodes.
    AddBridge(N, N),
}

/// Why a line is no instruction.
#[derive(Copy, Clone, PartialEq, Eq, Structural, Debug)]
pub enum ParseError {
    InvalidArgument,
    InvalidSecondNode,
    InvalidFirstNode,
    NoSuchInstruction,
    MissingArgument,
    UnexpectedExtraArguments,
}

impl ParseError {
    /// The message that tells the user of the error.
    pub open spec fn spec_message(&self) -> Seq<char> {
        match self {
            ParseError::InvalidArgument => "Error: invalid argument\r\n"@,
            ParseError::InvalidSecondNode => "Error: invalid second node\r\n"@,
            ParseError::InvalidFirstNode => "Error: invalid  irstnode\r\n"@,
            ParseError::NoSuchInstruction => "Error: no such instruction\r\n"@,
            ParseError::MissingArgument => "Error: missing argument\r\n"@,
            ParseError::UnexpectedExtraArguments => "Error: unexpected extra arguments\r\n"@,
        }
    }

    /// The message that tells the user of the error.
    pub fn message(&self) -> (r: &'static str)
        ensures
            r@ == self.spec_message(),
    {
        match self {
            ParseError::InvalidArgument => "Error: invalid argument\r\n",
            ParseError::InvalidSecondNode => "Error: invalid second node\r\n",
            ParseError::InvalidFirstNode => "Error: invalid  irstnode\r\n",
            ParseError::NoSuchInstruction => "Error: no such instruction\r\n",
            ParseError::MissingArgument => "Error: missing argument\r\n",
            ParseError::UnexpectedExtraArguments => "Error: unexpected extra arguments\r\n",
        }
    }
}

/// The byte is a space, a tab, a line feed, a form feed or a carriage
/// return.
pub open spec fn is_space(byte: u8) -> bool {
    byte == 32 || byte == 9 || byte == 10 || byte == 12 || byte == 13
}

/// The words of the text from the position `from` on, where `word` holds
/// the bytes of the word that the position lies in. Words are the longest
/// runs of bytes that are no spaces.
pub open spec fn words_from(text: Seq<u8>, from: int, word: Seq<u8>) -> Seq<Seq<u8>>
    decreases text.len() - from,
{
    if from >= text.len() {
        if word.len() > 0 {
            seq![word]
        } else {
            Seq::empty()
        }
    } else if is_space(text[from]) {
        if word.len() > 0 {
            seq![word] + words_from(text, from + 1, Seq::empty())
        } else {
            words_from(text, from + 1, Seq::empty())
        }
    } else {
        words_from(text, from + 1, word.push(text[from]))
    }
}

/// The words of the text.
pub open spec fn words(text: Seq<u8>) -> Seq<Seq<u8>> {
    words_from(text, 0, Seq::empty())
}

/// The texts that the byte vectors hold.
pub open spec fn texts(words: Seq<Vec<u8>>) -> Seq<Seq<u8>> {
    Seq::new(words.len(), |i: int| words[i]@)
}

/// The instruction, if no more words follow its name.
pub open spec fn alone<N: NamedNode>(words: Seq<Seq<u8>>, instruction: Instruction<N>) -> Result<
    Option<Instruction<N>>,
    ParseError,
> {
    if words.len() > 1 {
        Err(ParseError::UnexpectedExtraArguments)
    } else {
        Ok(Some(instruction))
    }
}

/// The result is what the words read as. No words are no instruction. The
/// first word names the instruction. `switch-pos` takes the label of a
/// position, or nothing; `add-bridge` takes the names of two nodes; the
/// others take nothing.
pub open spec fn reads_as<N: NamedNode>(
    words: Seq<Seq<u8>>,
    r: Result<Option<Instruction<N>>, ParseError>,
) -> bool {
    if words.len() == 0 {
        r == Ok::<Option<Instruction<N>>, ParseError>(None)
    } else if words[0] == encode_utf8("help"@) {
        r == alone::<N>(words, Instruction::Help)
    } else if words[0] == encode_utf8("reset"@) {
        r == alone::<N>(words, Instruction::Reset)
    } else if words[0] == encode_utf8("rainbow-bounce"@) {
        r == alone::<N>(words, Instruction::RainbowBounce)
    } else if words[0] == encode_utf8("switch-pos"@) {
        if words.len() == 1 {
            r == Ok::<Option<Instruction<N>>, ParseError>(Some(Instruction::PrintSwitchPos))
        } else if words.len() > 2 {
            r == Err::<Option<Instruction<N>>, ParseError>(ParseError::UnexpectedExtraArguments)
        } else {
            match r {
                Ok(Some(Instruction::SetSwitchPos(position))) => position.label_bytes() == words[1],
                Err(ParseError::InvalidArgument) => forall|position: SupplySwitchPos| #[trigger]
                    position.label_bytes() != words[1],
                _ => false,
            }
        }
    } else if words[0] == encode_utf8("clear"@) {
        r == alone::<N>(words, Instruction::Clear)
    } else if words[0] == encode_utf8("add-bridge"@) {
        if words.len() < 3 {
            r == Err::<Option<Instruction<N>>, ParseError>(ParseError::MissingArgument)
        } else if words.len() > 3 {
            r == Err::<Option<Instruction<N>>, ParseError>(ParseError::UnexpectedExtraArguments)
        } else {
            match r {
                Ok(Some(Instruction::AddBridge(a, b))) => a.name_bytes() == words[1]
                    && b.name_bytes() == words[2],
                Err(ParseError::InvalidFirstNode) => forall|node: N| #[trigger]
                    node.name_bytes() != words[1],
                Err(ParseError::InvalidSecondNode) => (exists|node: N| #[trigger]
                    node.name_bytes() == words[1]) && forall|node: N| #[trigger]
                    node.name_bytes() != words[2],
                _ => false,
            }
        }
    } else {
        r == Err::<Option<Instruction<N>>, ParseError>(ParseError::NoSuchInstruction)
    }
}

/// Splits the text into its words.
pub fn split_words(text: &[u8]) -> (r: Vec<Vec<u8>>)
    ensures
        texts(r@) == words(text@),
{
    let mut found: Vec<Vec<u8>> = Vec::new();
    let mut word: Vec<u8> = Vec::new();
    let mut i: usize = 0;
    proof {
        assert(texts(found@) =~= Seq::<Seq<u8>>::empty());
        assert(texts(found@) + words_from(text@, 0, word@) =~= words(text@));
    }
    while i < text.len()
        invariant
            i <= text@.len(),
            texts(found@) + words_from(text@, i as int, word@) == words(text@),
        decreases text@.len() - i,
    {
        let byte = text[i];
        if byte == 32 || byte == 9 || byte == 10 || byte == 12 || byte == 13 {
            if word.len() > 0 {
                let ghost before = texts(found@);
                let ghost spelled = word@;
                found.push(word);
                word = Vec::new();
                proof {
                    assert(texts(found@) =~= before.push(spelled));
                    assert(before.push(spelled) + words_from(text@, i + 1, Seq::empty())
                        =~= before + (seq![spelled] + words_from(text@, i + 1, Seq::empty())));
                    assert(word@ =~= Seq::<u8>::empty());
                }
            } else {
                proof {
                    assert(word@ =~= Seq::<u8>::empty());
                }
            }
        } else {
            word.push(byte);
        }
        i += 1;
    }
    if word.len() > 0 {
        let ghost before = texts(found@);
        let ghost spelled = word@;
        found.push(word);
        proof {
            assert(texts(found@) =~= before.push(spelled));
            assert(before.push(spelled) =~= before + seq![spelled]);
        }
    } else {
        proof {
            assert(texts(found@) + Seq::<Seq<u8>>::empty() =~= texts(found@));
        }
    }
    found
}

impl<N: NamedNode> Instruction<N> {
    /// Reads the instruction that a line holds, if it holds any.
    pub fn parse(input: &[u8]) -> (r: Result<Option<Instruction<N>>, ParseError>)
        ensures
            reads_as(words(input@), r),
    {
        let tokens = split_words(input);
        let ghost list = words(input@);
        proof {
            assert(forall|i: int| 0 <= i < tokens@.len() ==> list[i] == #[trigger] tokens@[i]@);
        }
        if tokens.len() == 0 {
            return Ok(None);
        }
        let name = tokens[0].as_slice();
        if same_bytes(name, "help".as_bytes()) {
            no_more_args(&tokens, Instruction::Help)
        } else if same_bytes(name, "reset".as_bytes()) {
            no_more_args(&tokens, Instruction::Reset)
        } else if same_bytes(name, "rainbow-bounce".as_bytes()) {
            no_more_args(&tokens, Instruction::RainbowBounce)
        } else if same_bytes(name, "switch-pos".as_bytes()) {
            if tokens.len() == 1 {
                Ok(Some(Instruction::PrintSwitchPos))
            } else if tokens.len() > 2 {
                Err(ParseError::UnexpectedExtraArguments)
            } else {
                match SupplySwitchPos::parse_bytes(tokens[1].as_slice()) {
                    Some(position) => Ok(Some(Instruction::SetSwitchPos(position))),
                    None => Err(ParseError::InvalidArgument),
                }
            }
        } else if same_bytes(name, "clear".as_bytes()) {
            no_more_args(&tokens, Instruction::Clear)
        } else if same_bytes(name, "add-bridge".as_bytes()) {
            if tokens.len() < 3 {
                Err(ParseError::MissingArgument)
            } else if tokens.len() > 3 {
                Err(ParseError::UnexpectedExtraArguments)
            } else {
                match N::from_name(tokens[1].as_slice()) {
                    Some(a) => match N::from_name(tokens[2].as_slice()) {
                        Some(b) => Ok(Some(Instruction::AddBridge(a, b))),
                        None => {
                            proof {
                                assert(a.name_bytes() == list[1]);
                            }
                            Err(ParseError::InvalidSecondNode)
                        },
                    },
                    None => Err(ParseError::InvalidFirstNode),
                }
            }
        } else {
            Err(ParseError::NoSuchInstruction)
        }
    }
}

/// The instruction, unless more words follow its name.
fn no_more_args<N: NamedNode>(tokens: &Vec<Vec<u8>>, instruction: Instruction<N>) -> (r: Result<
    Option<Instruction<N>>,
    ParseError,
>)
    ensures
        r == alone::<N>(texts(tokens@), instruction),
{
    if tokens.len() > 1 {
        Err(ParseError::UnexpectedExtraArguments)
    } else {
        Ok(Some(instruction))
    }
}

/// What the terminal has to do after a byte of input.
#[derive(Copy, Clone, PartialEq, Eq, Structural, Debug)]
pub enum Reaction {
    /// Nothing but to show the line again.
    Show,
    /// The line was given up: say so.
    Interrupted,
    /// The line was full, and was cleared: say so.
    Overflowed,
    /// The line is complete: carry it out.
    Submitted,
}

/// A line of input, and how far into an escape sequence the input is.
pub struct Terminal<const SIZE: usize> {
    pub(crate) buffer: LineBuffer<SIZE>,
    /// The last byte was an escape byte.
    pub(crate) escape: bool,
    /// The last two bytes introduced a control sequence.
    pub(crate) csi: bool,
}

/// The state of a terminal, as plain values.
pub struct TerminalState {
    pub content: Seq<u8>,
    pub cursor: int,
    pub escape: bool,
    pub csi: bool,
}

/// The state of the terminal after the byte `c` of input, and what the
/// terminal has to do then. After an escape byte and `[`, the bytes `C`,
/// `D`, `F` and `H` move the cursor right, left, to the end and to the
/// start. Else a carriage return submits the line, the byte 3 gives it up,
/// the byte 127 deletes the byte left of the cursor, and a printable byte
/// is inserted at the cursor, into a line of at most `size` bytes.
pub open spec fn step(state: TerminalState, c: u8, size: int) -> (TerminalState, Reaction) {
    if state.csi {
        let cursor = if c == 67 && state.cursor < state.content.len() {
            state.cursor + 1
        } else if c == 68 && state.cursor > 0 {
            state.cursor - 1
        } else if c == 70 {
            state.content.len() as int
        } else if c == 72 {
            0
        } else {
            state.cursor
        };
        (TerminalState { cursor, csi: false, ..state }, Reaction::Show)
    } else if state.escape {
        (TerminalState { csi: c == 91, escape: false, ..state }, Reaction::Show)
    } else if c == 13 {
        (state, Reaction::Submitted)
    } else if c == 27 {
        (TerminalState { escape: true, ..state }, Reaction::Show)
    } else if c == 3 {
        (TerminalState { content: Seq::empty(), cursor: 0, ..state }, Reaction::Interrupted)
    } else if c == 127 {
        if state.cursor > 0 {
            (
                TerminalState {
                    content: state.content.remove(state.cursor - 1),
                    cursor: state.cursor - 1,
                    ..state
                },
                Reaction::Show,
            )
        } else {
            (state, Reaction::Show)
        }
    } else if 32 <= c <= 126 {
        if state.content.len() < size {
            (
                TerminalState {
                    content: state.content.insert(state.cursor, c),
                    cursor: state.cursor + 1,
                    ..state
                },
                Reaction::Show,
            )
        } else {
            (TerminalState { content: Seq::empty(), cursor: 0, ..state }, Reaction::Overflowed)
        }
    } else {
        (state, Reaction::Show)
    }
}

impl<const SIZE: usize> Terminal<SIZE> {
    /// The state of the terminal.
    pub open(crate) spec fn view(&self) -> TerminalState {
        TerminalState {
            content: self.buffer.spec_content(),
            cursor: self.buffer.spec_cursor(),
            escape: self.escape,
            csi: self.csi,
        }
    }

    /// A terminal with an empty line.
    pub fn new() -> (r: Self)
        ensures
            r@.content == Seq::<u8>::empty(),
            r@.cursor == 0,
            !r@.escape,
            !r@.csi,
    {
        Self { buffer: LineBuffer::new(), escape: false, csi: false }
    }

    /// The line, as it stands.
    pub fn line(&self) -> (r: &LineBuffer<SIZE>)
        ensures
            r.spec_content() == self@.content,
            r.spec_cursor() == self@.cursor,
    {
        &self.buffer
    }

    /// Clears the line, once it has been carried out.
    pub fn clear_line(&mut self)
        ensures
            final(self)@.content == Seq::<u8>::empty(),
            final(self)@.cursor == 0,
            final(self)@.escape == old(self)@.escape,
            final(self)@.csi == old(self)@.csi,
    {
        self.buffer.reset();
    }

    /// Takes a byte of input.
    pub fn feed(&mut self, c: u8) -> (r: Reaction)
        ensures
            (final(self)@, r) == step(old(self)@, c, SIZE as int),
    {
        let _ = self.buffer.cursor();
        let _ = self.buffer.content();
        if self.csi {
            if c == 67 {
                self.buffer.move_right();
            } else if c == 68 {
                self.buffer.move_left();
            } else if c == 70 {
                self.buffer.move_end();
            } else if c == 72 {
                self.buffer.move_home();
            }
            self.csi = false;
            Reaction::Show
        } else if self.escape {
            if c == 91 {
                self.csi = true;
            }
            self.escape = false;
            Reaction::Show
        } else if c == 13 {
            Reaction::Submitted
        } else if c == 27 {
            self.escape = true;
            Reaction::Show
        } else if c == 3 {
            self.buffer.reset();
            Reaction::Interrupted
        } else if c == 127 {
            self.buffer.backspace();
            Reaction::Show
        } else if 32 <= c && c <= 126 {
            match self.buffer.insert(c) {
                Ok(()) => Reaction::Show,
                Err(_) => {
                    self.buffer.reset();
                    Reaction::Overflowed
                },
            }
        } else {
            Reaction::Show
        }
    }
}

} // verus!

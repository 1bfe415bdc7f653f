//! Editing one line on a terminal: what each key does to the line and
//! what has to be written to the screen for it.

use vstd::prelude::*;
use vstd::string::*;

verus! {

/// A key that was pressed.
#[derive(Clone, Copy, Debug, PartialEq, Eq, Structural)]
pub enum Key {
    /// A character; the line feed ends the line.
    Char(char),
    Backspace,
    Delete,
    Left,
    Right,
    /// Any other key; it does nothing.
    Other,
}

/// Something to do on the terminal.
#[derive(Clone, Debug, PartialEq, Eq)]
pub enum Output {
    /// Write the text where the cursor stands.
    Write(String),
    /// Go to the start of the next line.
    NewLine,
    /// Put the cursor in column `x` of row `y`.
    MoveTo { x: u16, y: u16 },
}

/// An output as plain values.
pub enum OutputModel {
    Write(Seq<char>),
    NewLine,
    MoveTo { x: u16, y: u16 },
}

impl View for Output {
    type V = OutputModel;

    open spec fn view(&self) -> OutputModel {
        match self {
            Output::Write(text) => OutputModel::Write(text@),
            Output::NewLine => OutputModel::NewLine,
            Output::MoveTo { x, y } => OutputModel::MoveTo { x: *x, y: *y },
        }
    }
}

/// The outputs as plain values.
pub open spec fn output_views(outputs: Seq<Output>) -> Seq<OutputModel> {
    Seq::new(outputs.len(), |i: int| outputs[i]@)
}

/// An editor as plain values: where the line begins on the screen, what
/// it holds, and before which of its characters the cursor stands.
pub struct EditorModel {
    pub x: u16,
    pub y: u16,
    pub content: Seq<char>,
    pub cursor: nat,
}

/// What a key does, as plain values.
pub struct PressedModel {
    /// The editor after the key.
    pub editor: EditorModel,
    /// What to do on the terminal, in order.
    pub outputs: Seq<OutputModel>,
    /// The line, where the key ended it.
    pub line: Option<Seq<char>>,
}

impl EditorModel {
    /// The cursor stands within the line or at its end, and the line fits
    /// the columns that can be counted.
    pub open spec fn wf(self) -> bool {
        &&& self.cursor <= self.content.len()
        &&& self.x + self.content.len() <= u16::MAX
    }

    /// Whether the line can take one more character.
    pub open spec fn has_room(self) -> bool {
        self.x + self.content.len() < u16::MAX
    }

    /// Whether the editor can take `key`: a character needs room.
    pub open spec fn accepts(self, key: Key) -> bool {
        key matches Key::Char(c) && c != '\n' ==> self.has_room()
    }

    /// The column of the screen at `offset` characters into the line.
    pub open spec fn column(self, offset: int) -> u16 {
        (self.x + offset) as u16
    }

    /// What `key` does.
    pub open spec fn pressed(self, key: Key) -> PressedModel {
        let p = self.cursor as int;
        match key {
            Key::Char(c) => if c == '\n' {
                PressedModel {
                    editor: self,
                    outputs: seq![OutputModel::NewLine],
                    line: Some(self.content),
                }
            } else {
                let content = self.content.insert(p, c);
                PressedModel {
                    editor: EditorModel { content, cursor: (p + 1) as nat, ..self },
                    outputs: seq![
                        OutputModel::Write(content.skip(p)),
                        OutputModel::MoveTo { x: self.column(p + 1), y: self.y },
                    ],
                    line: None,
                }
            },
            Key::Backspace => if p > 0 {
                let content = self.content.remove(p - 1);
                PressedModel {
                    editor: EditorModel { content, cursor: (p - 1) as nat, ..self },
                    outputs: seq![
                        OutputModel::MoveTo { x: self.column(p - 1), y: self.y },
                        OutputModel::Write(content.skip(p - 1)),
                        OutputModel::Write(seq![' ']),
                        OutputModel::MoveTo { x: self.column(p - 1), y: self.y },
                    ],
                    line: None,
                }
            } else {
                PressedModel { editor: self, outputs: Seq::empty(), line: None }
            },
            Key::Delete => if p < self.content.len() {
                let content = self.content.remove(p);
                PressedModel {
                    editor: EditorModel { content, ..self },
                    outputs: seq![
                        OutputModel::Write(content.skip(p)),
                        OutputModel::Write(seq![' ']),
                        OutputModel::MoveTo { x: self.column(p), y: self.y },
                    ],
                    line: None,
                }
            } else {
                PressedModel { editor: self, outputs: Seq::empty(), line: None }
            },
            Key::Left => if p > 0 {
                PressedModel {
                    editor: EditorModel { cursor: (p - 1) as nat, ..self },
                    outputs: seq![OutputModel::MoveTo { x: self.column(p - 1), y: self.y }],
                    line: None,
                }
            } else {
                PressedModel { editor: self, outputs: Seq::empty(), line: None }
            },
            Key::Right => if p < self.content.len() {
                PressedModel {
                    editor: EditorModel { cursor: (p + 1) as nat, ..self },
                    outputs: seq![OutputModel::MoveTo { x: self.column(p + 1), y: self.y }],
                    line: None,
                }
            } else {
                PressedModel { editor: self, outputs: Seq::empty(), line: None }
            },
            Key::Other => PressedModel { editor: self, outputs: Seq::empty(), line: None },
        }
    }
}

/// What a key did.
#[derive(Clone, Debug, PartialEq, Eq)]
pub struct Pressed {
    /// What to do on the terminal, in order.
    pub outputs: Vec<Output>,
    /// The line, where the key ended it.
    pub line: Option<String>,
}

/// The editor of one line. It is told the keys and says what to write;
/// it never touches the terminal itself.
pub struct LineEditor {
    x: u16,
    y: u16,
    content: Vec<char>,
    cursor: usize,
}

impl View for LineEditor {
    type V = EditorModel;

    closed spec fn view(&self) -> EditorModel {
        EditorModel { x: self.x, y: self.y, content: self.content@, cursor: self.cursor as nat }
    }
}

fn text_from(chars: &Vec<char>, from: usize) -> (text: String)
    requires
        from <= chars@.len(),
    ensures
        text@ == chars@.skip(from as int),
{
    let mut text = String::new();
    let mut i: usize = from;
    while i < chars.len()
        invariant
            from <= i <= chars.len(),
            text@ == chars@.subrange(from as int, i as int),
        decreases chars.len() - i,
    {
        text.push(chars[i]);
        assert(chars@.subrange(from as int, i + 1) =~= chars@.subrange(from as int, i as int).push(
            chars@[i as int],
        ));
        i += 1;
    }
    assert(chars@.subrange(from as int, chars@.len() as int) =~= chars@.skip(from as int));
    text
}

impl LineEditor {
    /// The editor of an empty line that begins where the cursor stands,
    /// in column `x` of row `y`.
    pub fn new(x: u16, y: u16) -> (editor: LineEditor)
        ensures
            editor@ == (EditorModel { x, y, content: Seq::empty(), cursor: 0 }),
            editor@.wf(),
    {
        LineEditor { x, y, content: Vec::new(), cursor: 0 }
    }

    /// Whether the line can take one more character.
    pub fn has_room(&self) -> (room: bool)
        requires
            self@.wf(),
        ensures
            room == self@.has_room(),
    {
        self.content.len() < (u16::MAX - self.x) as usize
    }

    /// What the line holds.
    pub fn content(&self) -> (text: String)
        ensures
            text@ == self@.content,
    {
        let text = text_from(&self.content, 0);
        assert(self.content@.skip(0) =~= self.content@);
        text
    }

    /// Before which character of the line the cursor stands.
    pub fn cursor(&self) -> (at: usize)
        ensures
            at == self@.cursor,
    {
        self.cursor
    }

    /// Takes a key: changes the line and says what to do on the terminal.
    /// A character goes in before the cursor, and the line feed ends the
    /// line; backspace and delete take out the character before and at
    /// the cursor; left and right move the cursor within the line.
    pub fn press(&mut self, key: Key) -> (pressed: Pressed)
        requires
            old(self)@.wf(),
            old(self)@.accepts(key),
        ensures
            final(self)@.wf(),
            final(self)@ == old(self)@.pressed(key).editor,
            output_views(pressed.outputs@) == old(self)@.pressed(key).outputs,
            match pressed.line {
                Some(line) => old(self)@.pressed(key).line == Some(line@),
                None => old(self)@.pressed(key).line is None,
            },
    {
        let p = self.cursor;
        let mut outputs: Vec<Output> = Vec::new();
        let mut line: Option<String> = None;
        proof {
            reveal_strlit(" ");
            assert(" "@ =~= seq![' ']);
        }
        match key {
            Key::Char(c) => {
                if c == '\n' {
                    outputs.push(Output::NewLine);
                    line = Some(self.content());
                } else {
                    self.content.insert(p, c);
                    self.cursor = p + 1;
                    outputs.push(Output::Write(text_from(&self.content, p)));
                    outputs.push(Output::MoveTo { x: self.x + (p as u16) + 1, y: self.y });
                }
            },
            Key::Backspace => {
                if p > 0 {
                    self.content.remove(p - 1);
                    self.cursor = p - 1;
                    let column = self.x + ((p - 1) as u16);
                    outputs.push(Output::MoveTo { x: column, y: self.y });
                    outputs.push(Output::Write(text_from(&self.content, p - 1)));
                    outputs.push(Output::Write(String::from_str(" ")));
                    outputs.push(Output::MoveTo { x: column, y: self.y });
                }
            },
            Key::Delete => {
                if p < self.content.len() {
                    self.content.remove(p);
                    outputs.push(Output::Write(text_from(&self.content, p)));
                    outputs.push(Output::Write(String::from_str(" ")));
                    outputs.push(Output::MoveTo { x: self.x + (p as u16), y: self.y });
                }
            },
            Key::Left => {
                if p > 0 {
                    self.cursor = p - 1;
                    outputs.push(Output::MoveTo { x: self.x + ((p - 1) as u16), y: self.y });
                }
            },
            Key::Right => {
                if p < self.content.len() {
                    self.cursor = p + 1;
                    outputs.push(Output::MoveTo { x: self.x + (p as u16) + 1, y: self.y });
                }
            },
            Key::Other => {},
        }
        proof {
            assert(output_views(outputs@) =~= old(self)@.pressed(key).outputs);
        }
        Pressed { outputs, line }
    }
}

} // verus!

//! Keys, and a line of text that is edited with them.
use vstd::prelude::*;

use crate::text::{chars_of, control, is_control, string_of, text_of, trim, trimmed};

verus! {

/// A key.
#[derive(Debug, Clone, Copy, PartialEq, Eq, Structural)]
pub enum KeyCode {
    Char(char),
    Backspace,
    Delete,
    Left,
    Right,
    Up,
    Down,
    Home,
    End,
    PageUp,
    PageDown,
    Enter,
    Esc,
    Tab,
    BackTab,
    /// F1 and so on.
    F(u8),
    Other,
}

/// A key press.
#[derive(Debug, Clone, Copy, PartialEq, Eq, Structural)]
pub struct Key {
    pub code: KeyCode,
    /// With the control key held.
    pub ctrl: bool,
}

/// A letter in either case.
pub open spec fn letter(code: KeyCode, low: char, up: char) -> bool {
    code == KeyCode::Char(low) || code == KeyCode::Char(up)
}

/// Whether a key is a letter in either case.
pub fn is_letter(code: KeyCode, low: char, up: char) -> (r: bool)
    ensures
        r == letter(code, low, up),
{
    match code {
        KeyCode::Char(c) => c == low || c == up,
        _ => false,
    }
}

/// A line of text that is edited.
#[derive(Debug, Clone)]
pub struct TextInput {
    pub value: String,
    /// Cursor position in characters.
    pub cursor: usize,
    pub max_chars: usize,
}

/// An edited text's contents.
#[verifier::ext_equal]
pub ghost struct TextView {
    pub value: Seq<char>,
    pub cursor: int,
    pub max_chars: int,
}

impl View for TextInput {
    type V = TextView;

    open spec fn view(&self) -> TextView {
        TextView {
            value: self.value@,
            cursor: self.cursor as int,
            max_chars: self.max_chars as int,
        }
    }
}

/// A character as it is put in: line ends and tabs become blanks.
pub open spec fn flattened(c: char) -> char {
    if c == '\n' || c == '\r' || c == '\t' {
        ' '
    } else {
        c
    }
}

impl TextView {
    /// The cursor stands within the text, and the text is not too long.
    pub open spec fn wf(self) -> bool {
        0 <= self.cursor <= self.value.len() <= self.max_chars
    }

    /// A text with the cursor behind it, cut to a length.
    pub open spec fn of(value: Seq<char>, max_chars: int) -> TextView {
        let v = if value.len() > max_chars {
            value.take(max_chars)
        } else {
            value
        };
        TextView { value: v, cursor: v.len() as int, max_chars }
    }

    /// With a character put in at the cursor, unless it is a control character
    /// or the text is full.
    pub open spec fn inserted(self, c: char) -> TextView {
        if control(c) || self.value.len() >= self.max_chars {
            self
        } else {
            TextView {
                value: self.value.insert(self.cursor, c),
                cursor: self.cursor + 1,
                max_chars: self.max_chars,
            }
        }
    }

    /// With the first `n` characters of a text put in.
    pub open spec fn pasted(self, s: Seq<char>, n: int) -> TextView
        decreases n,
    {
        if n <= 0 {
            self
        } else {
            self.pasted(s, n - 1).inserted(flattened(s[n - 1]))
        }
    }

    /// Without the character in front of the cursor.
    pub open spec fn erased(self) -> TextView {
        if self.cursor == 0 {
            self
        } else {
            TextView {
                value: self.value.remove(self.cursor - 1),
                cursor: self.cursor - 1,
                max_chars: self.max_chars,
            }
        }
    }

    /// Without the character behind the cursor.
    pub open spec fn deleted(self) -> TextView {
        if self.cursor < self.value.len() {
            TextView { value: self.value.remove(self.cursor), ..self }
        } else {
            self
        }
    }

    /// With the cursor elsewhere.
    pub open spec fn at(self, cursor: int) -> TextView {
        TextView { cursor, ..self }
    }

    /// After an editing key.
    pub open spec fn handled(self, key: Key) -> TextView {
        match key.code {
            KeyCode::Char(c) => if key.ctrl {
                self
            } else {
                self.inserted(c)
            },
            KeyCode::Backspace => self.erased(),
            KeyCode::Delete => self.deleted(),
            KeyCode::Left => if self.cursor > 0 {
                self.at(self.cursor - 1)
            } else {
                self
            },
            KeyCode::Right => if self.cursor < self.value.len() {
                self.at(self.cursor + 1)
            } else {
                self
            },
            KeyCode::Home => self.at(0),
            KeyCode::End => self.at(self.value.len() as int),
            _ => self,
        }
    }

    /// What was typed, without white space around it; none if that is nothing.
    pub open spec fn entry(self) -> Option<Seq<char>> {
        let t = trimmed(self.value);
        if t.len() > 0 {
            Some(t)
        } else {
            None
        }
    }
}

/// A key that edits text.
pub open spec fn edits(key: Key) -> bool {
    match key.code {
        KeyCode::Char(_) => !key.ctrl,
        KeyCode::Backspace
        | KeyCode::Delete
        | KeyCode::Left
        | KeyCode::Right
        | KeyCode::Home
        | KeyCode::End => true,
        _ => false,
    }
}

impl TextInput {
    /// A text to edit, cut to `max_chars`, with the cursor at its end.
    pub fn new(value: &str, max_chars: usize) -> (r: TextInput)
        ensures
            r@ == TextView::of(value@, max_chars as int),
            r@.wf(),
    {
        let cs: Vec<char> = chars_of(value);
        let n: usize = if cs.len() > max_chars {
            max_chars
        } else {
            cs.len()
        };
        let part = vstd::slice::slice_subrange(cs.as_slice(), 0, n);
        assert(part@ =~= if value@.len() > max_chars {
            value@.take(max_chars as int)
        } else {
            value@
        });
        TextInput { value: string_of(part), cursor: n, max_chars }
    }

    /// Puts a character in at the cursor.
    pub fn insert(&mut self, c: char)
        requires
            old(self)@.wf(),
        ensures
            final(self)@ == old(self)@.inserted(c),
            final(self)@.wf(),
    {
        let mut cs: Vec<char> = chars_of(self.value.as_str());
        if is_control(c) || cs.len() >= self.max_chars {
            return ;
        }
        cs.insert(self.cursor, c);
        self.value = string_of(cs.as_slice());
        self.cursor = self.cursor + 1;
    }

    /// Puts a text in at the cursor.
    pub fn insert_str(&mut self, s: &str)
        requires
            old(self)@.wf(),
        ensures
            final(self)@ == old(self)@.pasted(s@, s@.len() as int),
            final(self)@.wf(),
    {
        let ghost start = self@;
        let cs: Vec<char> = chars_of(s);
        let mut i: usize = 0;
        while i < cs.len()
            invariant
                i <= cs.len(),
                cs@ == s@,
                self@.wf(),
                self@ == start.pasted(s@, i as int),
            decreases cs.len() - i,
        {
            let c = cs[i];
            self.insert(
                if c == '\n' || c == '\r' || c == '\t' {
                    ' '
                } else {
                    c
                },
            );
            i = i + 1;
        }
    }

    /// Removes the character in front of the cursor.
    pub fn backspace(&mut self)
        requires
            old(self)@.wf(),
        ensures
            final(self)@ == old(self)@.erased(),
            final(self)@.wf(),
    {
        if self.cursor == 0 {
            return ;
        }
        let mut cs: Vec<char> = chars_of(self.value.as_str());
        self.cursor = self.cursor - 1;
        cs.remove(self.cursor);
        self.value = string_of(cs.as_slice());
    }

    /// Removes the character behind the cursor.
    pub fn delete(&mut self)
        requires
            old(self)@.wf(),
        ensures
            final(self)@ == old(self)@.deleted(),
            final(self)@.wf(),
    {
        let mut cs: Vec<char> = chars_of(self.value.as_str());
        if self.cursor < cs.len() {
            cs.remove(self.cursor);
            self.value = string_of(cs.as_slice());
        }
    }

    /// How long the text is.
    pub fn len(&self) -> (r: usize)
        ensures
            r == self@.value.len(),
    {
        chars_of(self.value.as_str()).len()
    }

    /// Handle an editing key; returns true if the key was used.
    pub fn handle(&mut self, key: &Key) -> (r: bool)
        requires
            old(self)@.wf(),
        ensures
            r == edits(*key),
            final(self)@ == old(self)@.handled(*key),
            final(self)@.wf(),
    {
        match key.code {
            KeyCode::Char(c) => {
                if key.ctrl {
                    return false;
                }
                self.insert(c);
            },
            KeyCode::Backspace => {
                self.backspace();
            },
            KeyCode::Delete => {
                self.delete();
            },
            KeyCode::Left => {
                if self.cursor > 0 {
                    self.cursor = self.cursor - 1;
                }
            },
            KeyCode::Right => {
                if self.cursor < self.len() {
                    self.cursor = self.cursor + 1;
                }
            },
            KeyCode::Home => {
                self.cursor = 0;
            },
            KeyCode::End => {
                self.cursor = self.len();
            },
            _ => {
                return false;
            },
        }
        true
    }

    /// What was typed, without white space around it.
    pub fn trimmed(&self) -> (r: Option<String>)
        ensures
            text_of(r) == self@.entry(),
    {
        let cs: Vec<char> = chars_of(self.value.as_str());
        let t = trim(cs.as_slice());
        if t.len() > 0 {
            Some(string_of(t))
        } else {
            None
        }
    }

    /// A text with the same contents.
    pub fn duplicate(&self) -> (r: TextInput)
        ensures
            r@ == self@,
    {
        TextInput { value: self.value.clone(), cursor: self.cursor, max_chars: self.max_chars }
    }
}

/// A character that was put in is taken back by a backspace.
pub proof fn lemma_backspace_undoes_insert(t: TextView, c: char)
    requires
        t.wf(),
        !control(c),
        t.value.len() < t.max_chars,
    ensures
        t.inserted(c).erased() == t,
        t.inserted(c).value.len() == t.value.len() + 1,
{
    assert(t.value.insert(t.cursor, c).remove(t.cursor) =~= t.value);
}

/// Editing never makes a text too long, and keeps the cursor within it.
pub proof fn lemma_editing_stays_within(t: TextView, key: Key)
    requires
        t.wf(),
    ensures
        t.handled(key).wf(),
        t.handled(key).max_chars == t.max_chars,
{
}

/// A paste, too, never makes a text too long.
pub proof fn lemma_paste_stays_within(t: TextView, s: Seq<char>, n: int)
    requires
        t.wf(),
        0 <= n <= s.len(),
    ensures
        t.pasted(s, n).wf(),
        t.pasted(s, n).max_chars == t.max_chars,
    decreases n,
{
    if n > 0 {
        lemma_paste_stays_within(t, s, n - 1);
    }
}

/// A key changes a text only where the cursor stands: a character goes in front
/// of it, backspace takes the one before it and delete the one behind it, and
/// all else only moves the cursor.
pub proof fn lemma_edited_at_the_cursor(t: TextView, key: Key)
    requires
        t.wf(),
    ensures
        ({
            let r = t.handled(key);
            let typed = key.code is Char && !key.ctrl && !control(key.code->Char_0) && t.value.len()
                < t.max_chars;
            let back = key.code == KeyCode::Backspace && t.cursor > 0;
            let cut = key.code == KeyCode::Delete && t.cursor < t.value.len();
            let a = t.value.take(t.cursor);
            let b = t.value.skip(t.cursor);
            &&& typed ==> r.value == a.push(key.code->Char_0) + b && r.cursor == t.cursor + 1
            &&& back ==> r.value == a.drop_last() + b && r.cursor == t.cursor - 1
            &&& cut ==> r.value == a + b.drop_first() && r.cursor == t.cursor
            &&& !typed && !back && !cut ==> r.value == t.value
            &&& key.code == KeyCode::Home ==> r.cursor == 0
            &&& key.code == KeyCode::End ==> r.cursor == t.value.len()
            &&& key.code == KeyCode::Left && t.cursor > 0 ==> r.cursor == t.cursor - 1
            &&& key.code == KeyCode::Right && t.cursor < t.value.len() ==> r.cursor == t.cursor + 1
        }),
{
    let a = t.value.take(t.cursor);
    let b = t.value.skip(t.cursor);
    if key.code is Char {
        let c = key.code->Char_0;
        assert(t.value.insert(t.cursor, c) =~= a.push(c) + b);
    }
    if t.cursor > 0 {
        assert(t.value.remove(t.cursor - 1) =~= a.drop_last() + b);
    }
    if t.cursor < t.value.len() {
        assert(t.value.remove(t.cursor) =~= a + b.drop_first());
    }
}

/// A character on one line: the ends of lines and tabs become blanks.
pub open spec fn on_one_line() -> spec_fn(char) -> char {
    |c: char|
        if c == '\n' || c == '\r' || c == '\t' {
            ' '
        } else {
            c
        }
}

/// What is pasted goes in at the cursor, as it is, where it has no controls and
/// there is room; white space of other kinds becomes blanks.
pub proof fn lemma_pasted_at_the_cursor(t: TextView, s: Seq<char>, n: int)
    requires
        t.wf(),
        0 <= n <= s.len(),
        t.value.len() + n <= t.max_chars,
        forall|i: int|
            0 <= i < s.len() ==> !control(#[trigger] s[i]) || s[i] == '\n' || s[i] == '\r' || s[i]
                == '\t',
    ensures
        ({
            let r = t.pasted(s, n);
            let flat = s.take(n).map_values(on_one_line());
            &&& r.value == t.value.take(t.cursor) + flat + t.value.skip(t.cursor)
            &&& r.cursor == t.cursor + n
        }),
    decreases n,
{
    let a = t.value.take(t.cursor);
    let b = t.value.skip(t.cursor);
    let flat = s.take(n).map_values(on_one_line());
    if n > 0 {
        lemma_pasted_at_the_cursor(t, s, n - 1);
        lemma_paste_stays_within(t, s, n - 1);
        let front = s.take(n - 1).map_values(on_one_line());
        let p = t.pasted(s, n - 1);
        let c = flattened(s[n - 1]);
        assert(!control(c));
        assert(p.value.len() == t.value.len() + n - 1);
        assert(flat =~= front.push(c));
        assert(p.value.insert(p.cursor, c) =~= a + flat + b);
    } else {
        assert(flat =~= Seq::empty());
        assert(a + flat + b =~= t.value);
    }
}

} // verus!

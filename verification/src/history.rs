//! The shell's input history: the last 32 lines, and a cursor that walks
//! them.

use vstd::prelude::*;
use vstd::string::StringSliceAdditionalSpecFns;
use crate::simple_string::{text_bytes, FixedString};

verus! {

/// How many lines the history keeps.
pub const MAX_ENTRIES: usize = 32;

/// How many bytes of a line the history keeps.
pub const ENTRY_CAPACITY: usize = 128;

/// What the history stores of a line: its first 128 bytes.
pub open spec fn stored_line(line: Seq<u8>) -> Seq<u8> {
    if line.len() <= ENTRY_CAPACITY {
        line
    } else {
        line.take(ENTRY_CAPACITY as int)
    }
}

/// The lines and the cursor after `line` was pushed. An empty line, and a
/// line that shows the same text as the newest entry, change no entry. Any
/// other line becomes the newest entry, and the oldest one leaves where 32
/// are kept already. In every case the cursor ends behind the newest entry.
pub open spec fn pushed_lines(lines: Seq<Seq<u8>>, line: Seq<u8>) -> Seq<Seq<u8>> {
    if line.len() == 0 || (lines.len() > 0 && text_bytes(lines.last()) == line) {
        lines
    } else if lines.len() < MAX_ENTRIES {
        lines.push(stored_line(line))
    } else {
        lines.skip(1).push(stored_line(line))
    }
}

/// Where the cursor stands after a step towards older lines.
pub open spec fn cursor_before(cursor: int, len: int) -> int {
    if cursor == 0 {
        0
    } else if cursor > len {
        len - 1
    } else {
        cursor - 1
    }
}

/// Where the cursor stands after a step towards newer lines.
pub open spec fn cursor_after(cursor: int, len: int) -> int {
    if cursor + 1 >= len {
        len
    } else {
        cursor + 1
    }
}

/// Whether two byte strings are the same.
fn same_bytes(left: &[u8], right: &[u8]) -> (same: bool)
    ensures
        same == (left@ == right@),
{
    if left.len() != right.len() {
        return false;
    }
    let mut i: usize = 0;
    while i < left.len()
        invariant
            i <= left.len(),
            left.len() == right.len(),
            forall|j: int| 0 <= j < i ==> left@[j] == right@[j],
        decreases left.len() - i,
    {
        if left[i] != right[i] {
            return false;
        }
        i += 1;
    }
    assert(left@ =~= right@);
    true
}

/// The most recent input lines, oldest first, with a navigation cursor.
pub struct InputHistory {
    entries: Vec<FixedString<128>>,
    cursor: usize,
}

impl InputHistory {
    /// The lines kept, oldest first.
    pub closed spec fn spec_lines(&self) -> Seq<Seq<u8>> {
        Seq::new(self.entries.len() as nat, |i: int| self.entries[i]@)
    }

    /// The cursor: the index of the line last shown, or the number of lines
    /// and above while the line being typed is shown.
    pub closed spec fn spec_cursor(&self) -> int {
        self.cursor as int
    }

    /// An empty history.
    pub fn new() -> (history: Self)
        ensures
            history.spec_lines() == Seq::<Seq<u8>>::empty(),
            history.spec_cursor() == 0,
    {
        let history = InputHistory { entries: Vec::new(), cursor: 0 };
        assert(history.spec_lines() =~= Seq::<Seq<u8>>::empty());
        history
    }

    /// Records `line` as the newest entry, unless it is empty or shows the
    /// same text as the newest entry; the cursor ends behind the newest.
    pub fn push(&mut self, line: &str)
        ensures
            final(self).spec_lines() == pushed_lines(old(self).spec_lines(), line.spec_bytes()),
            final(self).spec_cursor() == final(self).spec_lines().len(),
            old(self).spec_lines().len() <= MAX_ENTRIES ==> final(self).spec_lines().len()
                <= MAX_ENTRIES,
            final(self).spec_lines().len() <= old(self).spec_lines().len() + 1,
    {
        if line.as_bytes().len() == 0 {
            self.reset_navigation();
            return ;
        }
        let count = self.entries.len();
        if count > 0 {
            let last = self.entries[count - 1].as_str();
            assert(self.spec_lines().last() == self.entries[count - 1]@);
            if same_bytes(last.as_bytes(), line.as_bytes()) {
                self.reset_navigation();
                return ;
            }
        }
        let ghost before = self.spec_lines();
        if count >= MAX_ENTRIES {
            let _ = self.entries.remove(0);
        }
        let mut entry: FixedString<128> = FixedString::new();
        let _ = entry.push_str(line);
        assert(entry@ =~= stored_line(line.spec_bytes()));
        self.entries.push(entry);
        self.cursor = self.entries.len();
        assert(self.spec_lines() =~= pushed_lines(before, line.spec_bytes()));
    }

    /// Steps towards older lines and shows the line reached: the oldest
    /// where the cursor is there already, nothing in an empty history.
    pub fn previous(&mut self) -> (line: Option<&str>)
        ensures
            final(self).spec_lines() == old(self).spec_lines(),
            old(self).spec_lines().len() == 0 ==> line is None && final(self).spec_cursor() == old(self).spec_cursor(),
            old(self).spec_lines().len() > 0 ==> {
                &&& final(self).spec_cursor() == cursor_before(
                    old(self).spec_cursor(),
                    old(self).spec_lines().len() as int,
                )
                &&& line matches Some(text)
                &&& text.spec_bytes() == text_bytes(
                    old(self).spec_lines()[final(self).spec_cursor()],
                )
            },
    {
        let count = self.entries.len();
        if count == 0 {
            return None;
        }
        if self.cursor == 0 {
        } else if self.cursor > count {
            self.cursor = count - 1;
        } else {
            self.cursor -= 1;
        }
        Some(self.entries[self.cursor].as_str())
    }

    /// Steps towards newer lines and shows the line reached; past the newest
    /// there is nothing to show and the cursor rests behind it.
    pub fn next(&mut self) -> (line: Option<&str>)
        ensures
            final(self).spec_lines() == old(self).spec_lines(),
            final(self).spec_cursor() == cursor_after(
                old(self).spec_cursor(),
                old(self).spec_lines().len() as int,
            ),
            final(self).spec_cursor() >= old(self).spec_lines().len() ==> line is None,
            final(self).spec_cursor() < old(self).spec_lines().len() ==> {
                &&& line matches Some(text)
                &&& text.spec_bytes() == text_bytes(
                    old(self).spec_lines()[final(self).spec_cursor()],
                )
            },
    {
        let count = self.entries.len();
        if self.cursor >= count {
            self.cursor = count;
            return None;
        }
        self.cursor += 1;
        if self.cursor >= count {
            self.cursor = count;
            return None;
        }
        Some(self.entries[self.cursor].as_str())
    }

    /// The newest line, if there is one.
    pub fn latest(&self) -> (line: Option<&str>)
        ensures
            self.spec_lines().len() == 0 ==> line is None,
            self.spec_lines().len() > 0 ==> {
                &&& line matches Some(text)
                &&& text.spec_bytes() == text_bytes(self.spec_lines().last())
            },
    {
        let count = self.entries.len();
        if count == 0 {
            None
        } else {
            Some(self.entries[count - 1].as_str())
        }
    }

    /// Puts the cursor behind the newest line.
    pub fn reset_navigation(&mut self)
        ensures
            final(self).spec_lines() == old(self).spec_lines(),
            final(self).spec_cursor() == old(self).spec_lines().len(),
    {
        self.cursor = self.entries.len();
    }

    /// Whether no line is kept.
    pub fn is_empty(&self) -> (empty: bool)
        ensures
            empty == (self.spec_lines().len() == 0),
    {
        self.entries.len() == 0
    }

    /// Whether the cursor is behind the newest line.
    pub fn is_at_current(&self) -> (current: bool)
        ensures
            current == (self.spec_cursor() >= self.spec_lines().len()),
    {
        self.cursor >= self.entries.len()
    }
}

} // verus!

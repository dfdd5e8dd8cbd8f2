//! The source text with the position of every index, and the primitives
//! that the rules of the grammar are built from.

use crate::ast::parser::grammar::column_of;
use crate::ast::parser::grammar::digits_end;
use crate::ast::parser::grammar::has_char;
use crate::ast::parser::grammar::blank;
use crate::ast::parser::grammar::letter;
use crate::ast::parser::grammar::letters_end;
use crate::ast::parser::grammar::line_of;
use crate::ast::parser::grammar::position_at;
use crate::ast::parser::grammar::rest_of;
use crate::ast::parser::grammar::skip_blanks;
use crate::ast::Localization;
use crate::text::chars_of;
use crate::text::string_of;
use vstd::prelude::*;

verus! {

/// A source text: its characters, and for every index the line and column.
pub struct Source {
    chars: Vec<char>,
    places: Vec<Localization>,
}

/// Lines and columns never exceed the index.
pub proof fn lemma_position_bounds(s: Seq<char>, i: int)
    requires
        0 <= i <= s.len(),
    ensures
        0 <= line_of(s, i) <= i,
        0 <= column_of(s, i) <= i,
    decreases i,
{
    if i > 0 {
        lemma_position_bounds(s, i - 1);
    }
}

impl Source {
    /// The characters of the text.
    pub closed spec fn text(&self) -> Seq<char> {
        self.chars@
    }

    /// Whether the table of positions fits the text.
    pub closed spec fn wf(&self) -> bool {
        &&& self.places@.len() == self.chars@.len() + 1
        &&& forall|i: int|
            0 <= i <= self.chars@.len() ==> #[trigger] self.places@[i] == position_at(self.chars@, i)
    }

    /// Reads a text.
    pub fn new(input: &str) -> (r: Source)
        ensures
            r.wf(),
            r.text() == input@,
    {
        let chars = chars_of(input);
        let mut places: Vec<Localization> = Vec::new();
        let mut line: usize = 0;
        let mut column: usize = 0;
        places.push(Localization { line, column });
        let mut i: usize = 0;
        while i < chars.len()
            invariant
                i <= chars@.len(),
                places@.len() == i + 1,
                line as int == line_of(chars@, i as int),
                column as int == column_of(chars@, i as int),
                forall|j: int| 0 <= j <= i ==> #[trigger] places@[j] == position_at(chars@, j),
            decreases chars@.len() - i,
        {
            proof {
                lemma_position_bounds(chars@, i as int);
                lemma_position_bounds(chars@, i as int + 1);
            }
            if chars[i] == '\n' {
                line = line + 1;
                column = 0;
            } else {
                column = column + 1;
            }
            places.push(Localization { line, column });
            i = i + 1;
        }
        Source { chars, places }
    }

    /// The number of characters.
    pub fn len(&self) -> (r: usize)
        ensures
            r == self.text().len(),
    {
        self.chars.len()
    }

    /// The position of an index.
    pub fn place(&self, i: usize) -> (r: Localization)
        requires
            self.wf(),
            i <= self.text().len(),
        ensures
            r == position_at(self.text(), i as int),
    {
        self.places[i]
    }

    /// Matches one given character at an index.
    pub fn has(&self, i: usize, c: char) -> (r: bool)
        ensures
            r == has_char(self.text(), i as int, c),
            r ==> i < usize::MAX,
    {
        i < self.chars.len() && self.chars[i] == c
    }

    /// Skips blanks from an index on.
    pub fn skip_blanks(&self, i: usize) -> (r: usize)
        requires
            i <= self.text().len(),
        ensures
            r as int == skip_blanks(self.text(), i as int),
            i <= r <= self.text().len(),
    {
        let mut j: usize = i;
        while j < self.chars.len() && blank(self.chars[j])
            invariant
                i <= j <= self.chars@.len(),
                skip_blanks(self.chars@, i as int) == skip_blanks(self.chars@, j as int),
            decreases self.chars@.len() - j,
        {
            j = j + 1;
        }
        j
    }

    /// Matches digits from an index on, as many as there are.
    pub fn digits_end(&self, i: usize) -> (r: usize)
        requires
            i <= self.text().len(),
        ensures
            r as int == digits_end(self.text(), i as int),
            i <= r <= self.text().len(),
    {
        let mut j: usize = i;
        while j < self.chars.len() && '0' <= self.chars[j] && self.chars[j] <= '9'
            invariant
                i <= j <= self.chars@.len(),
                digits_end(self.chars@, i as int) == digits_end(self.chars@, j as int),
            decreases self.chars@.len() - j,
        {
            j = j + 1;
        }
        j
    }

    /// Matches letters from an index on, as many as there are.
    pub fn letters_end(&self, i: usize) -> (r: usize)
        requires
            i <= self.text().len(),
        ensures
            r as int == letters_end(self.text(), i as int),
            i <= r <= self.text().len(),
    {
        let mut j: usize = i;
        while j < self.chars.len() && letter(self.chars[j])
            invariant
                i <= j <= self.chars@.len(),
                letters_end(self.chars@, i as int) == letters_end(self.chars@, j as int),
            decreases self.chars@.len() - j,
        {
            j = j + 1;
        }
        j
    }

    /// The text between two indices.
    pub fn slice(&self, from: usize, to: usize) -> (r: String)
        requires
            from <= to <= self.text().len(),
        ensures
            r@ == self.text().subrange(from as int, to as int),
    {
        string_of(&self.chars, from, to)
    }

    /// The text from an index on.
    pub fn rest(&self, from: usize) -> (r: String)
        requires
            from <= self.text().len(),
        ensures
            r@ == rest_of(self.text(), from as int),
    {
        string_of(&self.chars, from, self.chars.len())
    }
}

} // verus!

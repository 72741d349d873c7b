use vstd::prelude::*;
use crate::matrix::{Grid, Matrix};

verus! {

/// The width to which every element is padded.
pub const FIELD_WIDTH: usize = 6;

/// `String::push` appends one character to the end of the string.
pub assume_specification[ String::push ](s: &mut String, ch: char)
    ensures
        final(s)@ == old(s)@.push(ch),
;

/// The character of one decimal digit.
pub open spec fn digit(d: int) -> char {
    if d == 0 {
        '0'
    } else if d == 1 {
        '1'
    } else if d == 2 {
        '2'
    } else if d == 3 {
        '3'
    } else if d == 4 {
        '4'
    } else if d == 5 {
        '5'
    } else if d == 6 {
        '6'
    } else if d == 7 {
        '7'
    } else if d == 8 {
        '8'
    } else {
        '9'
    }
}

/// The decimal digits of `n`, the most significant first, without
/// leading zeros.
pub open spec fn digits(n: nat) -> Seq<char>
    decreases n,
{
    if n < 10 {
        seq![digit(n as int)]
    } else {
        digits(n / 10).push(digit((n % 10) as int))
    }
}

/// The decimal text of `v`, with a minus sign when it is negative.
pub open spec fn decimal(v: int) -> Seq<char> {
    if v < 0 {
        seq!['-'] + digits((-v) as nat)
    } else {
        digits(v as nat)
    }
}

/// `count` spaces.
pub open spec fn spaces(count: nat) -> Seq<char> {
    Seq::new(count, |i: int| ' ')
}

/// The text of one element: its decimal text, with spaces before it to
/// make `FIELD_WIDTH` characters where it has fewer.
pub open spec fn field(v: i32) -> Seq<char> {
    let text = decimal(v as int);
    if text.len() < FIELD_WIDTH {
        spaces((FIELD_WIDTH - text.len()) as nat) + text
    } else {
        text
    }
}

/// The start of the line of row `y`: the row marker and the first `n`
/// elements, each followed by a space, or by a line feed when it is the
/// last of the row.
pub open spec fn line_upto(g: Grid, y: int, n: nat) -> Seq<char>
    decreases n,
{
    if n == 0 {
        seq!['>', ' ']
    } else {
        line_upto(g, y, (n - 1) as nat) + field(g.at(n - 1, y)) + seq![
            if n == g.width {
                '\n'
            } else {
                ' '
            },
        ]
    }
}

/// The lines of the first `n` rows.
pub open spec fn lines_upto(g: Grid, n: nat) -> Seq<char>
    decreases n,
{
    if n == 0 {
        Seq::empty()
    } else {
        lines_upto(g, (n - 1) as nat) + line_upto(g, n - 1, g.width)
    }
}

/// The text of a matrix: one line per row, from the first row down. A
/// matrix without columns has no text.
pub open spec fn rendered(g: Grid) -> Seq<char> {
    if g.width == 0 {
        Seq::empty()
    } else {
        lines_upto(g, g.height)
    }
}

/// The character of the decimal digit `d`.
fn digit_char(d: u32) -> (c: char)
    requires
        d < 10,
    ensures
        c == digit(d as int),
{
    if d == 0 {
        '0'
    } else if d == 1 {
        '1'
    } else if d == 2 {
        '2'
    } else if d == 3 {
        '3'
    } else if d == 4 {
        '4'
    } else if d == 5 {
        '5'
    } else if d == 6 {
        '6'
    } else if d == 7 {
        '7'
    } else if d == 8 {
        '8'
    } else {
        '9'
    }
}

/// The number of decimal digits of `n`.
fn digit_count(n: u32) -> (count: u32)
    ensures
        count == digits(n as nat).len(),
        count == 1 || count <= n,
    decreases n,
{
    if n < 10 {
        1
    } else {
        1 + digit_count(n / 10)
    }
}

/// Appends the decimal digits of `n`.
fn push_digits(out: &mut String, n: u32)
    ensures
        final(out)@ == old(out)@ + digits(n as nat),
    decreases n,
{
    if n >= 10 {
        push_digits(out, n / 10);
    }
    out.push(digit_char(n % 10));
    assert(out@ =~= old(out)@ + digits(n as nat));
}

/// Appends the text of one element.
fn push_field(out: &mut String, v: i32)
    ensures
        final(out)@ == old(out)@ + field(v),
{
    let magnitude: u32 = if v < 0 {
        (-(v as i64)) as u32
    } else {
        v as u32
    };
    let sign: u32 = if v < 0 {
        1
    } else {
        0
    };
    let count: u32 = digit_count(magnitude);
    let width: u32 = FIELD_WIDTH as u32;
    let pad: u32 = if count < width - sign {
        width - sign - count
    } else {
        0
    };
    let mut done: u32 = 0;
    while done < pad
        invariant
            done <= pad,
            out@ == old(out)@ + spaces(done as nat),
        decreases pad - done,
    {
        out.push(' ');
        done += 1;
        assert(out@ =~= old(out)@ + spaces(done as nat));
    }
    if v < 0 {
        out.push('-');
    }
    push_digits(out, magnitude);
    assert(out@ =~= old(out)@ + field(v));
}

impl Matrix {
    /// The text of the matrix: for each row a line that starts with the
    /// marker `"> "` and holds the row's elements from the first column on,
    /// each right-aligned in `FIELD_WIDTH` characters, with one space
    /// between two of them and a line feed after the last.
    pub fn render(&self) -> (text: String)
        ensures
            text@ == rendered(self@),
    {
        let width: usize = self.width();
        let height: usize = self.height();
        let mut text = String::new();
        if width == 0 {
            return text;
        }
        let mut y: usize = 0;
        while y < height
            invariant
                width == self@.width,
                height == self@.height,
                width > 0,
                y <= height,
                text@ == lines_upto(self@, y as nat),
            decreases height - y,
        {
            let ghost above = text@;
            text.push('>');
            text.push(' ');
            let mut x: usize = 0;
            while x < width
                invariant
                    width == self@.width,
                    height == self@.height,
                    y < height,
                    x <= width,
                    text@ == above + line_upto(self@, y as int, x as nat),
                decreases width - x,
            {
                push_field(&mut text, self.cell(x, y));
                if x + 1 == width {
                    text.push('\n');
                } else {
                    text.push(' ');
                }
                x += 1;
                assert(text@ =~= above + line_upto(self@, y as int, x as nat));
            }
            y += 1;
        }
        text
    }
}

} // verus!

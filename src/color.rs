use vstd::prelude::*;
use vstd::string::StringExecFns;
use crate::text::{append, int_text, int_to_string, nat_text, nat_to_string};

verus! {

/// The eight basic terminal colors, in their ANSI order.
pub enum BasicColor {
    Black,
    Red,
    Green,
    Yellow,
    Blue,
    Magenta,
    Cyan,
    White,
}

impl BasicColor {
    /// Position of the color in the ANSI palette.
    pub open spec fn index(self) -> nat {
        match self {
            BasicColor::Black => 0,
            BasicColor::Red => 1,
            BasicColor::Green => 2,
            BasicColor::Yellow => 3,
            BasicColor::Blue => 4,
            BasicColor::Magenta => 5,
            BasicColor::Cyan => 6,
            BasicColor::White => 7,
        }
    }
}

/// A color of the 256-color terminal palette.
pub enum Color {
    Basic(BasicColor),
    Bold(BasicColor),
    RGB(u8, u8, u8),
    Gray(u8),
}

impl Color {
    /// A color is representable when its palette entry lies in `0..=255`:
    /// RGB components are in `0..6` and gray levels in `0..24`.
    pub open spec fn wf(self) -> bool {
        match self {
            Color::RGB(r, g, b) => r < 6 && g < 6 && b < 6,
            Color::Gray(g) => g < 24,
            _ => true,
        }
    }

    /// The palette entry of the color.
    pub open spec fn code(self) -> nat {
        match self {
            Color::Basic(c) => c.index(),
            Color::Bold(c) => 8 + c.index(),
            Color::RGB(r, g, b) => (16 + b + g * 6 + r * 36) as nat,
            Color::Gray(g) => (232 + g) as nat,
        }
    }
}

fn color_to_int(color: Color) -> (r: u8)
    requires
        color.wf(),
    ensures
        r as nat == color.code(),
{
    match color {
        Color::Basic(c) => basic_index(c),
        Color::Bold(c) => 8 + basic_index(c),
        Color::RGB(r, g, b) => 16 + b + g * 6 + r * 36,
        Color::Gray(g) => 232 + g,
    }
}

fn basic_index(c: BasicColor) -> (r: u8)
    ensures
        r as nat == c.index(),
{
    match c {
        BasicColor::Black => 0,
        BasicColor::Red => 1,
        BasicColor::Green => 2,
        BasicColor::Yellow => 3,
        BasicColor::Blue => 4,
        BasicColor::Magenta => 5,
        BasicColor::Cyan => 6,
        BasicColor::White => 7,
    }
}

/// Text wrapped in the escape sequences that show it in palette entry `number`
/// and then reset the style.
pub open spec fn colored_text(number: nat, text: Seq<char>) -> Seq<char> {
    "\x1b[38;5;"@ + int_text(number as int) + "m"@ + text + "\x1b[0m"@
}

/// `text` styled to show in `color` on a 256-color terminal.
pub fn text_message_with_color(color: Color, text: &str) -> (r: String)
    requires
        color.wf(),
    ensures
        r@ == colored_text(color.code(), text@),
{
    text_with_color(color_to_int(color), text)
}

fn text_with_color(number: u8, text: &str) -> (r: String)
    ensures
        r@ == colored_text(number as nat, text@),
{
    let mut r = String::from_str("\x1b[38;5;");
    let digits = int_to_string(number as i32);
    append(&mut r, &digits);
    let m = String::from_str("m");
    append(&mut r, &m);
    let body = String::from_str(text);
    append(&mut r, &body);
    let reset = String::from_str("\x1b[0m");
    append(&mut r, &reset);
    r
}

/// `Error: <msg>`, with `Error` in bold red and the message in red.
pub open spec fn error_text(msg: Seq<char>) -> Seq<char> {
    colored_text(Color::Bold(BasicColor::Red).code(), "Error"@) + ": "@ + colored_text(
        Color::Basic(BasicColor::Red).code(),
        msg,
    )
}

/// The line that reports an error with no source position.
pub fn error_msg_text(msg: &str) -> (r: String)
    ensures
        r@ == error_text(msg@),
{
    let mut r = text_message_with_color(Color::Bold(BasicColor::Red), "Error");
    let sep = String::from_str(": ");
    append(&mut r, &sep);
    let body = text_message_with_color(Color::Basic(BasicColor::Red), msg);
    append(&mut r, &body);
    r
}

/// The line that reports an error found on source line `line`: `<line>: Error: <msg>`.
pub fn code_error_text(line: u32, msg: &str) -> (r: String)
    ensures
        r@ == nat_text(line as nat) + ": "@ + error_text(msg@),
{
    let mut r = nat_to_string(line as u64);
    let sep = String::from_str(": ");
    append(&mut r, &sep);
    let rest = error_msg_text(msg);
    append(&mut r, &rest);
    r
}

} // verus!

//! How a payload byte is shown in a dump: its category and the character standing for it.
use vstd::prelude::*;

verus! {

/// The kinds of byte that a dump tells apart.
#[derive(Clone, Copy, Debug, PartialEq, Eq, Structural)]
pub enum ByteCategory {
    Null,
    AsciiPrintable,
    AsciiWhitespace,
    AsciiOther,
    NonAscii,
}

/// A visible ASCII character: letters, digits and punctuation (0x21 to 0x7E).
pub open spec fn is_graphic(b: u8) -> bool {
    0x21 <= b <= 0x7e
}

/// ASCII white space: space, tab, line feed, form feed and carriage return.
pub open spec fn is_whitespace(b: u8) -> bool {
    b == 0x20 || b == 0x09 || b == 0x0a || b == 0x0c || b == 0x0d
}

/// The category of a byte.
pub open spec fn category_of(b: u8) -> ByteCategory {
    if b == 0 {
        ByteCategory::Null
    } else if is_graphic(b) {
        ByteCategory::AsciiPrintable
    } else if is_whitespace(b) {
        ByteCategory::AsciiWhitespace
    } else if b < 0x80 {
        ByteCategory::AsciiOther
    } else {
        ByteCategory::NonAscii
    }
}

/// The character that stands for a byte in a dump.
pub open spec fn shown_char(b: u8) -> char {
    match category_of(b) {
        ByteCategory::Null => '0',
        ByteCategory::AsciiPrintable => b as char,
        ByteCategory::AsciiWhitespace => if b == 0x20 {
            ' '
        } else {
            '_'
        },
        ByteCategory::AsciiOther => '•',
        ByteCategory::NonAscii => '×',
    }
}

/// One payload byte.
#[derive(Clone, Copy, Debug, PartialEq, Eq, Structural)]
pub struct Byte(pub u8);

impl Byte {
    pub fn category(self) -> (r: ByteCategory)
        ensures
            r == category_of(self.0),
    {
        let b = self.0;
        if b == 0x00 {
            ByteCategory::Null
        } else if 0x21 <= b && b <= 0x7e {
            ByteCategory::AsciiPrintable
        } else if b == 0x20 || b == 0x09 || b == 0x0a || b == 0x0c || b == 0x0d {
            ByteCategory::AsciiWhitespace
        } else if b < 0x80 {
            ByteCategory::AsciiOther
        } else {
            ByteCategory::NonAscii
        }
    }

    pub fn as_char(self) -> (r: char)
        ensures
            r == shown_char(self.0),
    {
        match self.category() {
            ByteCategory::Null => '0',
            ByteCategory::AsciiPrintable => self.0 as char,
            ByteCategory::AsciiWhitespace => if self.0 == 0x20 {
                ' '
            } else {
                '_'
            },
            ByteCategory::AsciiOther => '•',
            ByteCategory::NonAscii => '×',
        }
    }
}

} // verus!

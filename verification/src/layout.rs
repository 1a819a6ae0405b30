//! The closed set of candidate keyboard layouts and their character
//! correspondence tables.
//!
//! `US` is the layout the decoded character stream is assumed to be produced
//! under, so its table is the identity.  `Dvorak` carries a bidirectional
//! table: `dvorak_of` says which character the same physical key would have
//! produced under Dvorak, and `us_of` is its inverse.  Characters absent from
//! a table pass through unchanged.
use vstd::prelude::*;

verus! {

#[derive(Debug, Clone, Copy, PartialEq, Eq, Structural)]
pub enum Layout {
    US,
    Dvorak,
}

/// The character the physical key that yields `c` under US would yield under
/// Dvorak.  Characters off the main three rows pass through unchanged.
pub open spec fn dvorak_of(c: char) -> char {
    match c {
        '-' => '[',
        '=' => ']',
        'q' => '\'',
        'w' => ',',
        'e' => '.',
        'r' => 'p',
        't' => 'y',
        'y' => 'f',
        'u' => 'g',
        'i' => 'c',
        'o' => 'r',
        'p' => 'l',
        '[' => '/',
        ']' => '=',
        'a' => 'a',
        's' => 'o',
        'd' => 'e',
        'f' => 'u',
        'g' => 'i',
        'h' => 'd',
        'j' => 'h',
        'k' => 't',
        'l' => 'n',
        ';' => 's',
        '\'' => '-',
        'z' => ';',
        'x' => 'q',
        'c' => 'j',
        'v' => 'k',
        'b' => 'x',
        'n' => 'b',
        'm' => 'm',
        ',' => 'w',
        '.' => 'v',
        '/' => 'z',
        '_' => '{',
        '+' => '}',
        'Q' => '"',
        'W' => '<',
        'E' => '>',
        'R' => 'P',
        'T' => 'Y',
        'Y' => 'F',
        'U' => 'G',
        'I' => 'C',
        'O' => 'R',
        'P' => 'L',
        '{' => '?',
        '}' => '+',
        'A' => 'A',
        'S' => 'O',
        'D' => 'E',
        'F' => 'U',
        'G' => 'I',
        'H' => 'D',
        'J' => 'H',
        'K' => 'T',
        'L' => 'N',
        ':' => 'S',
        '"' => '_',
        'Z' => ':',
        'X' => 'Q',
        'C' => 'J',
        'V' => 'K',
        'B' => 'X',
        'N' => 'B',
        'M' => 'M',
        '<' => 'W',
        '>' => 'V',
        '?' => 'Z',
        _ => c,
    }
}

/// Inverse of `dvorak_of`: the character the physical key that yields `c`
/// under Dvorak would yield under US.
pub open spec fn us_of(c: char) -> char {
    match c {
        '[' => '-',
        ']' => '=',
        '\'' => 'q',
        ',' => 'w',
        '.' => 'e',
        'p' => 'r',
        'y' => 't',
        'f' => 'y',
        'g' => 'u',
        'c' => 'i',
        'r' => 'o',
        'l' => 'p',
        '/' => '[',
        '=' => ']',
        'a' => 'a',
        'o' => 's',
        'e' => 'd',
        'u' => 'f',
        'i' => 'g',
        'd' => 'h',
        'h' => 'j',
        't' => 'k',
        'n' => 'l',
        's' => ';',
        '-' => '\'',
        ';' => 'z',
        'q' => 'x',
        'j' => 'c',
        'k' => 'v',
        'x' => 'b',
        'b' => 'n',
        'm' => 'm',
        'w' => ',',
        'v' => '.',
        'z' => '/',
        '{' => '_',
        '}' => '+',
        '"' => 'Q',
        '<' => 'W',
        '>' => 'E',
        'P' => 'R',
        'Y' => 'T',
        'F' => 'Y',
        'G' => 'U',
        'C' => 'I',
        'R' => 'O',
        'L' => 'P',
        '?' => '{',
        '+' => '}',
        'A' => 'A',
        'O' => 'S',
        'E' => 'D',
        'U' => 'F',
        'I' => 'G',
        'D' => 'H',
        'H' => 'J',
        'T' => 'K',
        'N' => 'L',
        'S' => ':',
        '_' => '"',
        ':' => 'Z',
        'Q' => 'X',
        'J' => 'C',
        'K' => 'V',
        'X' => 'B',
        'B' => 'N',
        'M' => 'M',
        'W' => '<',
        'V' => '>',
        'Z' => '?',
        _ => c,
    }
}

/// How a single decoded character reads under `layout`.
pub open spec fn remap_char(layout: Layout, c: char) -> char {
    match layout {
        Layout::US => c,
        Layout::Dvorak => dvorak_of(c),
    }
}

/// Inverse of `remap_char` for the same layout.
pub open spec fn unmap_char(layout: Layout, c: char) -> char {
    match layout {
        Layout::US => c,
        Layout::Dvorak => us_of(c),
    }
}

/// The two tables are mutual inverses on every character: each table is a
/// permutation of the characters it mentions and the identity elsewhere, so
/// remapping and then unmapping (or the reverse) restores the original
/// character.
pub proof fn lemma_remap_round_trip(layout: Layout, c: char)
    ensures
        unmap_char(layout, remap_char(layout, c)) == c,
        remap_char(layout, unmap_char(layout, c)) == c,
{
}

impl Layout {
    /// Executable form of `remap_char`.
    pub fn remap(self, c: char) -> (r: char)
        ensures
            r == remap_char(self, c),
    {
        match self {
            Layout::US => c,
            Layout::Dvorak => match c {
                '-' => '[',
                '=' => ']',
                'q' => '\'',
                'w' => ',',
                'e' => '.',
                'r' => 'p',
                't' => 'y',
                'y' => 'f',
                'u' => 'g',
                'i' => 'c',
                'o' => 'r',
                'p' => 'l',
                '[' => '/',
                ']' => '=',
                'a' => 'a',
                's' => 'o',
                'd' => 'e',
                'f' => 'u',
                'g' => 'i',
                'h' => 'd',
                'j' => 'h',
                'k' => 't',
                'l' => 'n',
                ';' => 's',
                '\'' => '-',
                'z' => ';',
                'x' => 'q',
                'c' => 'j',
                'v' => 'k',
                'b' => 'x',
                'n' => 'b',
                'm' => 'm',
                ',' => 'w',
                '.' => 'v',
                '/' => 'z',
                '_' => '{',
                '+' => '}',
                'Q' => '"',
                'W' => '<',
                'E' => '>',
                'R' => 'P',
                'T' => 'Y',
                'Y' => 'F',
                'U' => 'G',
                'I' => 'C',
                'O' => 'R',
                'P' => 'L',
                '{' => '?',
                '}' => '+',
                'A' => 'A',
                'S' => 'O',
                'D' => 'E',
                'F' => 'U',
                'G' => 'I',
                'H' => 'D',
                'J' => 'H',
                'K' => 'T',
                'L' => 'N',
                ':' => 'S',
                '"' => '_',
                'Z' => ':',
                'X' => 'Q',
                'C' => 'J',
                'V' => 'K',
                'B' => 'X',
                'N' => 'B',
                'M' => 'M',
                '<' => 'W',
                '>' => 'V',
                '?' => 'Z',
                _ => c,
            },
        }
    }

    /// Executable form of `unmap_char`.
    pub fn unmap(self, c: char) -> (r: char)
        ensures
            r == unmap_char(self, c),
    {
        match self {
            Layout::US => c,
            Layout::Dvorak => match c {
                '[' => '-',
                ']' => '=',
                '\'' => 'q',
                ',' => 'w',
                '.' => 'e',
                'p' => 'r',
                'y' => 't',
                'f' => 'y',
                'g' => 'u',
                'c' => 'i',
                'r' => 'o',
                'l' => 'p',
                '/' => '[',
                '=' => ']',
                'a' => 'a',
                'o' => 's',
                'e' => 'd',
                'u' => 'f',
                'i' => 'g',
                'd' => 'h',
                'h' => 'j',
                't' => 'k',
                'n' => 'l',
                's' => ';',
                '-' => '\'',
                ';' => 'z',
                'q' => 'x',
                'j' => 'c',
                'k' => 'v',
                'x' => 'b',
                'b' => 'n',
                'm' => 'm',
                'w' => ',',
                'v' => '.',
                'z' => '/',
                '{' => '_',
                '}' => '+',
                '"' => 'Q',
                '<' => 'W',
                '>' => 'E',
                'P' => 'R',
                'Y' => 'T',
                'F' => 'Y',
                'G' => 'U',
                'C' => 'I',
                'R' => 'O',
                'L' => 'P',
                '?' => '{',
                '+' => '}',
                'A' => 'A',
                'O' => 'S',
                'E' => 'D',
                'U' => 'F',
                'I' => 'G',
                'D' => 'H',
                'H' => 'J',
                'T' => 'K',
                'N' => 'L',
                'S' => ':',
                '_' => '"',
                ':' => 'Z',
                'Q' => 'X',
                'J' => 'C',
                'K' => 'V',
                'X' => 'B',
                'B' => 'N',
                'M' => 'M',
                'W' => '<',
                'V' => '>',
                'Z' => '?',
                _ => c,
            },
        }
    }

    /// The profile name the layout-switch command takes for this layout.
    pub fn xkb_name(self) -> (r: &'static str)
        ensures
            self == Layout::US ==> r@ == "us"@,
            self == Layout::Dvorak ==> r@ == "us(dvorak)"@,
    {
        match self {
            Layout::US => "us",
            Layout::Dvorak => "us(dvorak)",
        }
    }
}

} // verus!

//! The PDF character set: regular, delimiter and white-space characters.
use vstd::prelude::*;

verus! {

/// The three classes into which the PDF character set is divided. The
/// classes let a reader group characters into tokens such as names and
/// numbers.
#[derive(Clone, Copy, Debug, PartialEq, Eq, Structural)]
pub enum CharacterClass {
    Regular,
    Delimiter,
    WhiteSpace,
}

/// The six white-space characters of the PDF character set.
#[derive(Clone, Copy, Debug, PartialEq, Eq, Structural)]
pub enum WhiteSpaceCharacter {
    Null,
    HorizontalTab,
    LineFeed,
    FormFeed,
    CarriageReturn,
    Space,
}

/// The byte value of each white-space character.
pub open spec fn white_space_code(c: WhiteSpaceCharacter) -> u8 {
    match c {
        WhiteSpaceCharacter::Null => 0u8,
        WhiteSpaceCharacter::HorizontalTab => 9u8,
        WhiteSpaceCharacter::LineFeed => 10u8,
        WhiteSpaceCharacter::FormFeed => 12u8,
        WhiteSpaceCharacter::CarriageReturn => 13u8,
        WhiteSpaceCharacter::Space => 32u8,
    }
}

/// A byte that is one of the white-space characters.
pub open spec fn is_white_space_byte(b: u8) -> bool {
    b == 0u8 || b == 9u8 || b == 10u8 || b == 12u8 || b == 13u8 || b == 32u8
}

impl WhiteSpaceCharacter {
    /// The character's abbreviated name.
    pub fn name(&self) -> (r: &'static str)
        ensures
            r@ == match *self {
                WhiteSpaceCharacter::Null => "NUL"@,
                WhiteSpaceCharacter::HorizontalTab => "HT"@,
                WhiteSpaceCharacter::LineFeed => "LF"@,
                WhiteSpaceCharacter::FormFeed => "FF"@,
                WhiteSpaceCharacter::CarriageReturn => "CR"@,
                WhiteSpaceCharacter::Space => "SP"@,
            },
    {
        match self {
            WhiteSpaceCharacter::Null => "NUL",
            WhiteSpaceCharacter::HorizontalTab => "HT",
            WhiteSpaceCharacter::LineFeed => "LF",
            WhiteSpaceCharacter::FormFeed => "FF",
            WhiteSpaceCharacter::CarriageReturn => "CR",
            WhiteSpaceCharacter::Space => "SP",
        }
    }

    /// The character's code as a decimal number.
    pub fn decimal(&self) -> (r: i32)
        ensures
            r == white_space_code(*self) as i32,
    {
        match self {
            WhiteSpaceCharacter::Null => 0,
            WhiteSpaceCharacter::HorizontalTab => 9,
            WhiteSpaceCharacter::LineFeed => 10,
            WhiteSpaceCharacter::FormFeed => 12,
            WhiteSpaceCharacter::CarriageReturn => 13,
            WhiteSpaceCharacter::Space => 32,
        }
    }

    /// Every white-space character belongs to the white-space class.
    pub fn character_class(&self) -> (r: CharacterClass)
        ensures
            r == CharacterClass::WhiteSpace,
    {
        CharacterClass::WhiteSpace
    }

    /// The white-space character with code `b`, if there is one.
    pub fn from_byte(b: u8) -> (r: Option<WhiteSpaceCharacter>)
        ensures
            r.is_some() == is_white_space_byte(b),
            r matches Some(c) ==> white_space_code(c) == b,
    {
        match b {
            0 => Some(WhiteSpaceCharacter::Null),
            9 => Some(WhiteSpaceCharacter::HorizontalTab),
            10 => Some(WhiteSpaceCharacter::LineFeed),
            12 => Some(WhiteSpaceCharacter::FormFeed),
            13 => Some(WhiteSpaceCharacter::CarriageReturn),
            32 => Some(WhiteSpaceCharacter::Space),
            _ => None,
        }
    }
}

/// Tests whether a byte is a white-space character.
pub fn is_white_space(b: u8) -> (r: bool)
    ensures
        r == is_white_space_byte(b),
{
    WhiteSpaceCharacter::from_byte(b).is_some()
}

} // verus!

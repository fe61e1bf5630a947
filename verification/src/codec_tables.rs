//! The base64 and hex alphabets: each digit value's character, each
//! character's digit value, as spec functions and as executable maps.

use vstd::prelude::*;

use crate::errors::Error;

verus! {

/// The base64 alphabet: digit value to character.
pub open spec fn b64_char(v: u8) -> char {
    match v {
        0 => 'A',
        1 => 'B',
        2 => 'C',
        3 => 'D',
        4 => 'E',
        5 => 'F',
        6 => 'G',
        7 => 'H',
        8 => 'I',
        9 => 'J',
        10 => 'K',
        11 => 'L',
        12 => 'M',
        13 => 'N',
        14 => 'O',
        15 => 'P',
        16 => 'Q',
        17 => 'R',
        18 => 'S',
        19 => 'T',
        20 => 'U',
        21 => 'V',
        22 => 'W',
        23 => 'X',
        24 => 'Y',
        25 => 'Z',
        26 => 'a',
        27 => 'b',
        28 => 'c',
        29 => 'd',
        30 => 'e',
        31 => 'f',
        32 => 'g',
        33 => 'h',
        34 => 'i',
        35 => 'j',
        36 => 'k',
        37 => 'l',
        38 => 'm',
        39 => 'n',
        40 => 'o',
        41 => 'p',
        42 => 'q',
        43 => 'r',
        44 => 's',
        45 => 't',
        46 => 'u',
        47 => 'v',
        48 => 'w',
        49 => 'x',
        50 => 'y',
        51 => 'z',
        52 => '0',
        53 => '1',
        54 => '2',
        55 => '3',
        56 => '4',
        57 => '5',
        58 => '6',
        59 => '7',
        60 => '8',
        61 => '9',
        62 => '+',
        63 => '/',
        _ => 'A',
    }
}

/// The inverse base64 alphabet: character to digit value.
pub open spec fn b64_val(c: char) -> Option<u8> {
    match c {
        'A' => Some(0u8),
        'B' => Some(1u8),
        'C' => Some(2u8),
        'D' => Some(3u8),
        'E' => Some(4u8),
        'F' => Some(5u8),
        'G' => Some(6u8),
        'H' => Some(7u8),
        'I' => Some(8u8),
        'J' => Some(9u8),
        'K' => Some(10u8),
        'L' => Some(11u8),
        'M' => Some(12u8),
        'N' => Some(13u8),
        'O' => Some(14u8),
        'P' => Some(15u8),
        'Q' => Some(16u8),
        'R' => Some(17u8),
        'S' => Some(18u8),
        'T' => Some(19u8),
        'U' => Some(20u8),
        'V' => Some(21u8),
        'W' => Some(22u8),
        'X' => Some(23u8),
        'Y' => Some(24u8),
        'Z' => Some(25u8),
        'a' => Some(26u8),
        'b' => Some(27u8),
        'c' => Some(28u8),
        'd' => Some(29u8),
        'e' => Some(30u8),
        'f' => Some(31u8),
        'g' => Some(32u8),
        'h' => Some(33u8),
        'i' => Some(34u8),
        'j' => Some(35u8),
        'k' => Some(36u8),
        'l' => Some(37u8),
        'm' => Some(38u8),
        'n' => Some(39u8),
        'o' => Some(40u8),
        'p' => Some(41u8),
        'q' => Some(42u8),
        'r' => Some(43u8),
        's' => Some(44u8),
        't' => Some(45u8),
        'u' => Some(46u8),
        'v' => Some(47u8),
        'w' => Some(48u8),
        'x' => Some(49u8),
        'y' => Some(50u8),
        'z' => Some(51u8),
        '0' => Some(52u8),
        '1' => Some(53u8),
        '2' => Some(54u8),
        '3' => Some(55u8),
        '4' => Some(56u8),
        '5' => Some(57u8),
        '6' => Some(58u8),
        '7' => Some(59u8),
        '8' => Some(60u8),
        '9' => Some(61u8),
        '+' => Some(62u8),
        '/' => Some(63u8),
        _ => None,
    }
}

/// The lower-case hex alphabet: digit value to character.
pub open spec fn hex_char(v: u8) -> char {
    match v {
        0 => '0',
        1 => '1',
        2 => '2',
        3 => '3',
        4 => '4',
        5 => '5',
        6 => '6',
        7 => '7',
        8 => '8',
        9 => '9',
        10 => 'a',
        11 => 'b',
        12 => 'c',
        13 => 'd',
        14 => 'e',
        15 => 'f',
        _ => '0',
    }
}

/// The inverse hex alphabet; upper-case digits are accepted as well.
pub open spec fn hex_val(c: char) -> Option<u8> {
    match c {
        '0' => Some(0u8),
        '1' => Some(1u8),
        '2' => Some(2u8),
        '3' => Some(3u8),
        '4' => Some(4u8),
        '5' => Some(5u8),
        '6' => Some(6u8),
        '7' => Some(7u8),
        '8' => Some(8u8),
        '9' => Some(9u8),
        'a' => Some(10u8),
        'b' => Some(11u8),
        'c' => Some(12u8),
        'd' => Some(13u8),
        'e' => Some(14u8),
        'f' => Some(15u8),
        'A' => Some(10u8),
        'B' => Some(11u8),
        'C' => Some(12u8),
        'D' => Some(13u8),
        'E' => Some(14u8),
        'F' => Some(15u8),
        _ => None,
    }
}

/// Map a base64 digit value to its character.
pub fn u8_to_base64(u: u8) -> (c: char)
    requires
        u <= 63,
    ensures
        c == b64_char(u),
{
    match u {
        0 => 'A',
        1 => 'B',
        2 => 'C',
        3 => 'D',
        4 => 'E',
        5 => 'F',
        6 => 'G',
        7 => 'H',
        8 => 'I',
        9 => 'J',
        10 => 'K',
        11 => 'L',
        12 => 'M',
        13 => 'N',
        14 => 'O',
        15 => 'P',
        16 => 'Q',
        17 => 'R',
        18 => 'S',
        19 => 'T',
        20 => 'U',
        21 => 'V',
        22 => 'W',
        23 => 'X',
        24 => 'Y',
        25 => 'Z',
        26 => 'a',
        27 => 'b',
        28 => 'c',
        29 => 'd',
        30 => 'e',
        31 => 'f',
        32 => 'g',
        33 => 'h',
        34 => 'i',
        35 => 'j',
        36 => 'k',
        37 => 'l',
        38 => 'm',
        39 => 'n',
        40 => 'o',
        41 => 'p',
        42 => 'q',
        43 => 'r',
        44 => 's',
        45 => 't',
        46 => 'u',
        47 => 'v',
        48 => 'w',
        49 => 'x',
        50 => 'y',
        51 => 'z',
        52 => '0',
        53 => '1',
        54 => '2',
        55 => '3',
        56 => '4',
        57 => '5',
        58 => '6',
        59 => '7',
        60 => '8',
        61 => '9',
        62 => '+',
        63 => '/',
        _ => 'A',
    }
}

/// Map a base64 character to its digit value.
pub fn u8_from_base64(c: char) -> (r: Result<u8, Error>)
    ensures
        match r {
            Ok(v) => b64_val(c) == Some(v),
            Err(e) => b64_val(c) is None && e == Error::InvalidCharacter,
        },
{
    match c {
        'A' => Ok(0u8),
        'B' => Ok(1u8),
        'C' => Ok(2u8),
        'D' => Ok(3u8),
        'E' => Ok(4u8),
        'F' => Ok(5u8),
        'G' => Ok(6u8),
        'H' => Ok(7u8),
        'I' => Ok(8u8),
        'J' => Ok(9u8),
        'K' => Ok(10u8),
        'L' => Ok(11u8),
        'M' => Ok(12u8),
        'N' => Ok(13u8),
        'O' => Ok(14u8),
        'P' => Ok(15u8),
        'Q' => Ok(16u8),
        'R' => Ok(17u8),
        'S' => Ok(18u8),
        'T' => Ok(19u8),
        'U' => Ok(20u8),
        'V' => Ok(21u8),
        'W' => Ok(22u8),
        'X' => Ok(23u8),
        'Y' => Ok(24u8),
        'Z' => Ok(25u8),
        'a' => Ok(26u8),
        'b' => Ok(27u8),
        'c' => Ok(28u8),
        'd' => Ok(29u8),
        'e' => Ok(30u8),
        'f' => Ok(31u8),
        'g' => Ok(32u8),
        'h' => Ok(33u8),
        'i' => Ok(34u8),
        'j' => Ok(35u8),
        'k' => Ok(36u8),
        'l' => Ok(37u8),
        'm' => Ok(38u8),
        'n' => Ok(39u8),
        'o' => Ok(40u8),
        'p' => Ok(41u8),
        'q' => Ok(42u8),
        'r' => Ok(43u8),
        's' => Ok(44u8),
        't' => Ok(45u8),
        'u' => Ok(46u8),
        'v' => Ok(47u8),
        'w' => Ok(48u8),
        'x' => Ok(49u8),
        'y' => Ok(50u8),
        'z' => Ok(51u8),
        '0' => Ok(52u8),
        '1' => Ok(53u8),
        '2' => Ok(54u8),
        '3' => Ok(55u8),
        '4' => Ok(56u8),
        '5' => Ok(57u8),
        '6' => Ok(58u8),
        '7' => Ok(59u8),
        '8' => Ok(60u8),
        '9' => Ok(61u8),
        '+' => Ok(62u8),
        '/' => Ok(63u8),
        _ => Err(Error::InvalidCharacter),
    }
}

/// Map a hex digit value to its lower-case character.
pub fn u8_to_hex(u: u8) -> (c: char)
    requires
        u <= 15,
    ensures
        c == hex_char(u),
{
    match u {
        0 => '0',
        1 => '1',
        2 => '2',
        3 => '3',
        4 => '4',
        5 => '5',
        6 => '6',
        7 => '7',
        8 => '8',
        9 => '9',
        10 => 'a',
        11 => 'b',
        12 => 'c',
        13 => 'd',
        14 => 'e',
        15 => 'f',
        _ => '0',
    }
}

/// Map a hex character to its digit value.
pub fn u8_from_hex(c: char) -> (r: Result<u8, Error>)
    ensures
        match r {
            Ok(v) => hex_val(c) == Some(v),
            Err(e) => hex_val(c) is None && e == Error::InvalidCharacter,
        },
{
    match c {
        '0' => Ok(0u8),
        '1' => Ok(1u8),
        '2' => Ok(2u8),
        '3' => Ok(3u8),
        '4' => Ok(4u8),
        '5' => Ok(5u8),
        '6' => Ok(6u8),
        '7' => Ok(7u8),
        '8' => Ok(8u8),
        '9' => Ok(9u8),
        'a' => Ok(10u8),
        'b' => Ok(11u8),
        'c' => Ok(12u8),
        'd' => Ok(13u8),
        'e' => Ok(14u8),
        'f' => Ok(15u8),
        'A' => Ok(10u8),
        'B' => Ok(11u8),
        'C' => Ok(12u8),
        'D' => Ok(13u8),
        'E' => Ok(14u8),
        'F' => Ok(15u8),
        _ => Err(Error::InvalidCharacter),
    }
}

} // verus!

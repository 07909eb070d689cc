//! What deriving `TypeUuid` for a type has to work out: the sixteen bytes
//! that the text of a UUID stands for, each written as a literal.

use vstd::prelude::*;

verus! {

/// `uuid::Error`: why a text is not a UUID.
#[verifier::external_type_specification]
#[verifier::external_body]
pub struct ExUuidError(uuid::Error);

/// The bytes that `uuid::Uuid::parse_str` reads from a text, or `None`
/// where it rejects the text.
pub uninterp spec fn parsed_uuid(text: Seq<char>) -> Option<Seq<u8>>;

/// `uuid::Uuid::parse_str`, with the parsed UUID handed out as its bytes.
/// Not proved here: the contract only gives the outcome its name, which
/// says that the same text is always read the same way.
#[verifier::external_body]
fn parse_uuid(text: &str) -> (parsed: Result<uuid::Bytes, uuid::Error>)
    ensures
        match parsed {
            Ok(bytes) => parsed_uuid(text@) == Some(bytes@),
            Err(_) => parsed_uuid(text@) is None,
        },
{
    match uuid::Uuid::parse_str(text) {
        Ok(uuid) => Ok(uuid.into_bytes()),
        Err(error) => Err(error),
    }
}

/// The digit for a number below sixteen, letters in upper case.
pub open spec fn upper_hex_digit(digit: int) -> char {
    if digit == 0 {
        '0'
    } else if digit == 1 {
        '1'
    } else if digit == 2 {
        '2'
    } else if digit == 3 {
        '3'
    } else if digit == 4 {
        '4'
    } else if digit == 5 {
        '5'
    } else if digit == 6 {
        '6'
    } else if digit == 7 {
        '7'
    } else if digit == 8 {
        '8'
    } else if digit == 9 {
        '9'
    } else if digit == 10 {
        'A'
    } else if digit == 11 {
        'B'
    } else if digit == 12 {
        'C'
    } else if digit == 13 {
        'D'
    } else if digit == 14 {
        'E'
    } else {
        'F'
    }
}

/// A byte as a hexadecimal literal: `0x`, then its digits in upper case,
/// without a leading zero.
pub open spec fn upper_hex_literal(byte: u8) -> Seq<char> {
    if byte < 16 {
        seq!['0', 'x', upper_hex_digit(byte as int)]
    } else {
        seq!['0', 'x', upper_hex_digit(byte as int / 16), upper_hex_digit(byte as int % 16)]
    }
}

/// `format!` with `{:#X}`: the byte in upper-case hexadecimal behind the
/// prefix `0x`. Not proved here: the contract restates what the standard
/// library documents of this format.
#[verifier::external_body]
fn format_upper_hex(byte: u8) -> (literal: String)
    ensures
        literal@ == upper_hex_literal(byte),
{
    format!("{:#X}", byte)
}

/// Why no identifier could be derived.
#[derive(Debug)]
pub enum DeriveError {
    /// The text given for the identifier is not a UUID.
    InvalidUuid(uuid::Error),
}

/// The bytes of an identifier, each as the literal that stands for it in
/// the derived constant.
pub fn byte_literals(bytes: &uuid::Bytes) -> (literals: Vec<String>)
    ensures
        literals@.len() == 16,
        forall|i: int| 0 <= i < 16 ==> (#[trigger] literals@[i])@ == upper_hex_literal(bytes@[i]),
{
    let mut literals: Vec<String> = Vec::new();
    let mut index: usize = 0;
    while index < 16
        invariant
            index <= 16,
            literals@.len() == index,
            forall|i: int|
                0 <= i < index ==> (#[trigger] literals@[i])@ == upper_hex_literal(bytes@[i]),
        decreases 16 - index,
    {
        literals.push(format_upper_hex(bytes[index]));
        index += 1;
    }
    literals
}

/// The byte literals of the identifier written as `uuid_str`.
///
/// This succeeds exactly on the texts that the `uuid` crate reads as a
/// UUID, with the literals of the bytes it reads from the text.
pub fn type_uuid_literals(uuid_str: &str) -> (derived: Result<Vec<String>, DeriveError>)
    ensures
        derived is Ok <==> parsed_uuid(uuid_str@) is Some,
        derived matches Ok(literals) ==> {
            &&& literals@.len() == 16
            &&& forall|i: int|
                0 <= i < 16 ==> (#[trigger] literals@[i])@ == upper_hex_literal(
                    parsed_uuid(uuid_str@)->Some_0[i],
                )
        },
{
    match parse_uuid(uuid_str) {
        Ok(bytes) => Ok(byte_literals(&bytes)),
        Err(error) => Err(DeriveError::InvalidUuid(error)),
    }
}

} // verus!

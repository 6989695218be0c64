//! The options of a run, as they were given on the command line, and what each of
//! them stands for.
//!
//! Every option is kept as the text that was given, or `None` where it was left
//! out. Byte strings are read as hexadecimal by the `rustc-hex` crate, addresses and
//! numbers by the `ethereum-types` crate. Verus does not read those crates: what
//! each of them makes of a text is known here under a name only, as a result that
//! depends on the text alone.

use ethereum_types::{Address, U256};
use rustc_hex::FromHex;
use vstd::prelude::*;

verus! {

/// What `rustc-hex` makes of a text: the bytes that it encodes, or the message of
/// the error.
pub uninterp spec fn hex_decoded(text: Seq<char>) -> Result<Seq<u8>, Seq<char>>;

/// What `ethereum-types` makes of a text that is to be an address: its twenty
/// bytes, or the message of the error.
pub uninterp spec fn address_parsed(text: Seq<char>) -> Result<Seq<u8>, Seq<char>>;

/// What `ethereum-types` makes of a text that is to be a 256-bit number: its four
/// words of sixty-four bits, the least significant first, or the message of the
/// error.
pub uninterp spec fn number_parsed(text: Seq<char>) -> Result<Seq<u64>, Seq<char>>;

/// A result of reading bytes, as values of the model.
pub open spec fn bytes_model(read: Result<Vec<u8>, String>) -> Result<Seq<u8>, Seq<char>> {
    match read {
        Ok(bytes) => Ok(bytes@),
        Err(message) => Err(message@),
    }
}

/// A result of reading an address, as values of the model.
pub open spec fn address_model(read: Result<[u8; 20], String>) -> Result<Seq<u8>, Seq<char>> {
    match read {
        Ok(bytes) => Ok(bytes@),
        Err(message) => Err(message@),
    }
}

/// A result of reading a number, as values of the model.
pub open spec fn number_model(read: Result<[u64; 4], String>) -> Result<Seq<u64>, Seq<char>> {
    match read {
        Ok(words) => Ok(words@),
        Err(message) => Err(message@),
    }
}

/// A result of reading bytes that may have been left out, as values of the model.
pub open spec fn optional_bytes_model(read: Result<Option<Vec<u8>>, String>) -> Result<
    Option<Seq<u8>>,
    Seq<char>,
> {
    match read {
        Ok(Some(bytes)) => Ok(Some(bytes@)),
        Ok(None) => Ok(None),
        Err(message) => Err(message@),
    }
}

/// What an option of bytes stands for: nothing where it was left out, else what
/// its text was read as.
pub open spec fn optional_bytes(flag: Option<String>) -> Result<Option<Seq<u8>>, Seq<char>> {
    match flag {
        Some(text) => match hex_decoded(text@) {
            Ok(bytes) => Ok(Some(bytes)),
            Err(message) => Err(message),
        },
        None => Ok(None),
    }
}

/// The value of a hexadecimal digit, `0` to `9`, `a` to `f` or `A` to `F`; `None`
/// for any other character.
pub open spec fn hex_digit_value(digit: char) -> Option<int> {
    let code = digit as int;
    if 0x30 <= code <= 0x39 {
        Some(code - 0x30)
    } else if 0x61 <= code <= 0x66 {
        Some(code - 0x61 + 10)
    } else if 0x41 <= code <= 0x46 {
        Some(code - 0x41 + 10)
    } else {
        None
    }
}

/// Whether a text is made of hexadecimal digits alone, two for each byte.
pub open spec fn is_hex_text(text: Seq<char>) -> bool {
    text.len() % 2 == 0 && forall|index: int|
        0 <= index < text.len() ==> hex_digit_value(#[trigger] text[index]) is Some
}

/// The bytes that a text of hexadecimal digits gives: one for each pair of
/// digits, the first digit of a pair counting sixteen times its value.
pub open spec fn hex_bytes(text: Seq<char>) -> Seq<u8> {
    Seq::new(
        (text.len() / 2) as nat,
        |index: int|
            (16 * hex_digit_value(text[2 * index]).unwrap() + hex_digit_value(
                text[2 * index + 1],
            ).unwrap()) as u8,
    )
}

/// The result of a reading that gave `bytes`.
pub open spec fn read_bytes(bytes: Seq<u8>) -> Result<Seq<u8>, Seq<char>> {
    Ok(bytes)
}

/// The result of reading an option that was given and whose text gave `bytes`.
pub open spec fn given_bytes(bytes: Seq<u8>) -> Result<Option<Seq<u8>>, Seq<char>> {
    Ok(Some(bytes))
}

/// `<str as FromHex>::from_hex` of `rustc-hex`, collected into a vector: the bytes
/// that `text` encodes in hexadecimal, or the error, as the text that its `Display`
/// writes. For a text of hexadecimal digits alone, two for each byte, the call
/// succeeds and each pair of digits gives one byte; what it makes of white space
/// and of other texts is known under the name only.
#[verifier::external_body]
fn decode_hex(text: &str) -> (decoded: Result<Vec<u8>, String>)
    ensures
        bytes_model(decoded) == hex_decoded(text@),
        is_hex_text(text@) ==> bytes_model(decoded) == read_bytes(hex_bytes(text@)),
{
    match text.from_hex::<Vec<u8>>() {
        Ok(bytes) => Ok(bytes),
        Err(error) => Err(format!("{}", error)),
    }
}

/// `<Address as FromStr>::from_str` of `ethereum-types`: the twenty bytes of the
/// address that `text` gives, or the error, as the text that its `Display` writes.
#[verifier::external_body]
fn parse_address(text: &str) -> (parsed: Result<[u8; 20], String>)
    ensures
        address_model(parsed) == address_parsed(text@),
{
    match text.parse::<Address>() {
        Ok(address) => Ok(address.0),
        Err(error) => Err(format!("{}", error)),
    }
}

/// `<U256 as FromStr>::from_str` of `ethereum-types`: the four words of the number
/// that `text` gives, the least significant first, or the error, as the text that
/// its `Display` writes.
#[verifier::external_body]
fn parse_number(text: &str) -> (parsed: Result<[u64; 4], String>)
    ensures
        number_model(parsed) == number_parsed(text@),
{
    match text.parse::<U256>() {
        Ok(number) => Ok(number.0),
        Err(error) => Err(format!("{}", error)),
    }
}

/// Bytes that were read become bytes that were given; an error stays the error.
pub fn given(read: Result<Vec<u8>, String>) -> (bytes: Result<Option<Vec<u8>>, String>)
    ensures
        bytes == match read {
            Ok(bytes) => Ok::<Option<Vec<u8>>, String>(Some(bytes)),
            Err(message) => Err(message),
        },
{
    match read {
        Ok(bytes) => Ok(Some(bytes)),
        Err(message) => Err(message),
    }
}

/// An option that a run cannot do without and that was left out.
#[derive(Clone, Copy, Debug, PartialEq, Eq, Structural)]
pub enum Missing {
    /// Neither `--code` nor `--code-file` was given.
    Code,
    /// `--expected` was not given.
    Expected,
}

impl Missing {
    /// The message that tells the user what to give.
    pub fn message(&self) -> (message: String)
        ensures
            message@ == match *self {
                Missing::Code => "Either --code or --code-file is required."@,
                Missing::Expected => "Expected return data --expected is required."@,
            },
    {
        match self {
            Missing::Code => "Either --code or --code-file is required.".to_owned(),
            Missing::Expected => "Expected return data --expected is required.".to_owned(),
        }
    }
}

/// The options of a run.
#[derive(Debug, Default)]
pub struct Args {
    /// `--code-file`: the name of a file that holds the contract code in hexadecimal.
    pub flag_code_file: Option<String>,
    /// `--only`: the name of the one test to run.
    pub flag_only: Option<String>,
    /// `--from`: the sender's address.
    pub flag_from: Option<String>,
    /// `--to`: the recipient's address.
    pub flag_to: Option<String>,
    /// `--code`: the contract code in hexadecimal.
    pub flag_code: Option<String>,
    /// `--input`: the input data in hexadecimal.
    pub flag_input: Option<String>,
    /// `--gas`: the gas that is supplied.
    pub flag_gas: Option<String>,
    /// `--gas-price`: the price of the gas.
    pub flag_gas_price: Option<String>,
    /// `--expected`: the data that the run is expected to return, in hexadecimal.
    pub flag_expected: Option<String>,
}

impl Args {
    /// What a run still needs: the code, where neither `--code` nor `--code-file`
    /// was given; else the expected data, where `--expected` was not given; else
    /// nothing.
    pub fn missing(&self) -> (missing: Option<Missing>)
        ensures
            missing == if self.flag_code is None && self.flag_code_file is None {
                Some(Missing::Code)
            } else if self.flag_expected is None {
                Some(Missing::Expected)
            } else {
                None
            },
    {
        if self.flag_code.is_none() && self.flag_code_file.is_none() {
            Some(Missing::Code)
        } else if self.flag_expected.is_none() {
            Some(Missing::Expected)
        } else {
            None
        }
    }

    /// The contract code: the bytes that `--code` gives in hexadecimal, nothing
    /// where the option was left out.
    pub fn code(&self) -> (code: Result<Option<Vec<u8>>, String>)
        ensures
            optional_bytes_model(code) == optional_bytes(self.flag_code),
            self.flag_code matches Some(text) ==> (is_hex_text(text@) ==> optional_bytes_model(code)
                == given_bytes(hex_bytes(text@))),
    {
        match &self.flag_code {
            Some(code) => given(decode_hex(code.as_str())),
            None => Ok(None),
        }
    }

    /// The recipient: the address that `--to` gives, the address of all zeros
    /// where the option was left out.
    pub fn to(&self) -> (to: Result<[u8; 20], String>)
        ensures
            address_model(to) == match self.flag_to {
                Some(text) => address_parsed(text@),
                None => Ok(Seq::new(20, |i: int| 0u8)),
            },
    {
        match &self.flag_to {
            Some(to) => parse_address(to.as_str()),
            None => {
                let zero = [0u8;20];
                proof {
                    assert(zero@ =~= Seq::new(20, |i: int| 0u8));
                }
                Ok(zero)
            },
        }
    }

    /// The sender: the address that `--from` gives, the address of all zeros
    /// where the option was left out.
    pub fn from(&self) -> (from: Result<[u8; 20], String>)
        ensures
            address_model(from) == match self.flag_from {
                Some(text) => address_parsed(text@),
                None => Ok(Seq::new(20, |i: int| 0u8)),
            },
    {
        match &self.flag_from {
            Some(from) => parse_address(from.as_str()),
            None => {
                let zero = [0u8;20];
                proof {
                    assert(zero@ =~= Seq::new(20, |i: int| 0u8));
                }
                Ok(zero)
            },
        }
    }

    /// The input data: the bytes that `--input` gives in hexadecimal, nothing
    /// where the option was left out.
    pub fn data(&self) -> (data: Result<Option<Vec<u8>>, String>)
        ensures
            optional_bytes_model(data) == optional_bytes(self.flag_input),
            self.flag_input matches Some(text) ==> (is_hex_text(text@) ==> optional_bytes_model(data)
                == given_bytes(hex_bytes(text@))),
    {
        match &self.flag_input {
            Some(input) => given(decode_hex(input.as_str())),
            None => Ok(None),
        }
    }

    /// The gas limit: the number that `--gas` gives; where the option was left
    /// out, the greatest number of sixty-four bits, so that the code may run for
    /// as long as it takes.
    pub fn gas(&self) -> (gas: Result<[u64; 4], String>)
        ensures
            number_model(gas) == match self.flag_gas {
                Some(text) => number_parsed(text@),
                None => Ok(seq![u64::MAX, 0u64, 0u64, 0u64]),
            },
    {
        match &self.flag_gas {
            Some(gas) => parse_number(gas.as_str()),
            None => {
                let most = [u64::MAX, 0, 0, 0];
                proof {
                    assert(most@ =~= seq![u64::MAX, 0u64, 0u64, 0u64]);
                }
                Ok(most)
            },
        }
    }

    /// The gas price: the number that `--gas-price` gives, zero where the option
    /// was left out, so that an account without funds can pay for the run.
    pub fn gas_price(&self) -> (gas_price: Result<[u64; 4], String>)
        ensures
            number_model(gas_price) == match self.flag_gas_price {
                Some(text) => number_parsed(text@),
                None => Ok(seq![0u64, 0u64, 0u64, 0u64]),
            },
    {
        match &self.flag_gas_price {
            Some(gas_price) => parse_number(gas_price.as_str()),
            None => {
                let zero = [0u64, 0, 0, 0];
                proof {
                    assert(zero@ =~= seq![0u64, 0u64, 0u64, 0u64]);
                }
                Ok(zero)
            },
        }
    }

    /// The data that the run is expected to return: the text of `--expected` as
    /// it was given, nothing where the option was left out. It never fails.
    pub fn expected(&self) -> (expected: Result<Option<String>, String>)
        ensures
            expected == Ok::<Option<String>, String>(self.flag_expected),
    {
        match &self.flag_expected {
            Some(expected) => Ok(Some(expected.clone())),
            None => Ok(None),
        }
    }

    /// The contract code from the file that `--code-file` names: the bytes that
    /// `code_hex`, the text of that file, gives in hexadecimal; nothing where the
    /// option was left out, whatever `code_hex` holds.
    pub fn code_file(&self, code_hex: &str) -> (code: Result<Option<Vec<u8>>, String>)
        ensures
            optional_bytes_model(code) == match self.flag_code_file {
                Some(name) => match hex_decoded(code_hex@) {
                    Ok(bytes) => Ok::<Option<Seq<u8>>, Seq<char>>(Some(bytes)),
                    Err(message) => Err(message),
                },
                None => Ok(None),
            },
            self.flag_code_file is Some && is_hex_text(code_hex@) ==> optional_bytes_model(code)
                == given_bytes(hex_bytes(code_hex@)),
    {
        match &self.flag_code_file {
            Some(_) => given(decode_hex(code_hex)),
            None => Ok(None),
        }
    }
}

} // verus!

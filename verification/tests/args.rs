use docopt::Docopt;
use ethereum_types::{Address, U256};
use evm_shared_cache::args::{given, Args, Missing};

const USAGE: &str = "
EVM implementation for OpenEthereum.
  Copyright 2015-2020 Parity Technologies (UK) Ltd.

Usage:
    openethereum-evm [options]
    openethereum-evm [-h | --help]

Transaction options:
    --code-file CODEFILE    Read contract code from file as hex (without 0x).
    --code CODE        Contract code as hex (without 0x).
    --to ADDRESS       Recipient address (without 0x).
    --from ADDRESS     Sender address (without 0x).
    --input DATA       Input data as hex (without 0x).
    --expected DATA    Expected return data as hex (without 0x).
    --gas GAS          Supplied gas as hex (without 0x).
    --gas-price WEI    Supplied gas price as hex (without 0x).

    -h, --help         Display this message and exit.
";

fn flag(map: &docopt::ArgvMap, name: &str) -> Option<String> {
    let text = map.get_str(name);
    if text.is_empty() {
        None
    } else {
        Some(text.to_string())
    }
}

fn run(args: &[&str]) -> Args {
    let map = Docopt::new(USAGE).and_then(|d| d.argv(args.iter()).parse()).unwrap();
    Args {
        flag_code_file: flag(&map, "--code-file"),
        flag_only: None,
        flag_from: flag(&map, "--from"),
        flag_to: flag(&map, "--to"),
        flag_code: flag(&map, "--code"),
        flag_input: flag(&map, "--input"),
        flag_gas: flag(&map, "--gas"),
        flag_gas_price: flag(&map, "--gas-price"),
        flag_expected: flag(&map, "--expected"),
    }
}

#[test]
fn should_parse_all_the_options() {
    let args = run(&[
        "parity-evm",
        "--gas", "1",
        "--gas-price", "2",
        "--from", "0000000000000000000000000000000000000003",
        "--to", "0000000000000000000000000000000000000004",
        "--code", "05",
        "--input", "06",
    ]);

    assert_eq!(args.gas(), Ok(U256::from(1).0));
    assert_eq!(args.gas_price(), Ok(U256::from(2).0));
    assert_eq!(args.from(), Ok(Address::from_low_u64_be(3).0));
    assert_eq!(args.to(), Ok(Address::from_low_u64_be(4).0));
    assert_eq!(args.code(), Ok(Some(vec![05])));
    assert_eq!(args.data(), Ok(Some(vec![06])));
}

#[test]
fn options_left_out_have_their_defaults() {
    let args = run(&["parity-evm"]);
    assert_eq!(args.gas(), Ok(U256::from(u64::max_value()).0));
    assert_eq!(args.gas(), Ok([u64::MAX, 0, 0, 0]));
    assert_eq!(args.gas_price(), Ok(U256::zero().0));
    assert_eq!(args.from(), Ok(Address::zero().0));
    assert_eq!(args.to(), Ok([0u8; 20]));
    assert_eq!(args.code(), Ok(None));
    assert_eq!(args.data(), Ok(None));
    assert_eq!(args.expected(), Ok(None));
    assert_eq!(args.code_file("6001"), Ok(None));
}

#[test]
fn expected_is_handed_back_as_it_was_given() {
    let args = run(&["parity-evm", "--expected", "not hex at all"]);
    assert_eq!(args.expected(), Ok(Some("not hex at all".to_string())));
}

#[test]
fn numbers_are_read_as_hexadecimal() {
    let args = run(&["parity-evm", "--gas", "ff", "--gas-price", "10000000000000000"]);
    assert_eq!(args.gas(), Ok([255, 0, 0, 0]));
    assert_eq!(args.gas_price(), Ok([0, 1, 0, 0]));
}

#[test]
fn bytes_are_read_as_hexadecimal() {
    let args = run(&["parity-evm", "--code", "600656", "--input", "DEADbeef"]);
    assert_eq!(args.code(), Ok(Some(vec![0x60, 0x06, 0x56])));
    assert_eq!(args.data(), Ok(Some(vec![0xde, 0xad, 0xbe, 0xef])));
}

#[test]
fn code_file_reads_the_text_of_the_file() {
    let args = run(&["parity-evm", "--code-file", "contract.hex"]);
    assert_eq!(args.code_file("5bcc5c\n"), Ok(Some(vec![0x5b, 0xcc, 0x5c])));
    assert!(args.code_file("5bc").is_err());
}

#[test]
fn texts_that_cannot_be_read_give_the_error_message() {
    let args = run(&[
        "parity-evm",
        "--code", "0g",
        "--input", "123",
        "--from", "03",
        "--to", "zz00000000000000000000000000000000000004",
        "--gas", "xyz",
    ]);
    assert_eq!(args.code(), Err("Invalid character 'g' at position 1".to_string()));
    assert_eq!(args.data(), Err("Invalid input length".to_string()));
    assert_eq!(args.from(), Err("Invalid input length".to_string()));
    assert_eq!(args.to(), Err("Invalid character 'z' at position 0".to_string()));
    assert!(args.gas().is_err());
}

#[test]
fn given_wraps_bytes_and_keeps_errors() {
    assert_eq!(given(Ok(vec![1, 2])), Ok(Some(vec![1, 2])));
    assert_eq!(given(Ok(vec![])), Ok(Some(vec![])));
    assert_eq!(given(Err("no".to_string())), Err("no".to_string()));
}

#[test]
fn a_run_needs_code_and_expected_data() {
    assert_eq!(run(&["parity-evm"]).missing(), Some(Missing::Code));
    assert_eq!(run(&["parity-evm", "--expected", "00"]).missing(), Some(Missing::Code));
    assert_eq!(run(&["parity-evm", "--code", "00"]).missing(), Some(Missing::Expected));
    assert_eq!(run(&["parity-evm", "--code-file", "a"]).missing(), Some(Missing::Expected));
    assert_eq!(run(&["parity-evm", "--code", "00", "--expected", "00"]).missing(), None);
    assert_eq!(run(&["parity-evm", "--code-file", "a", "--expected", ""]).missing(), Some(Missing::Expected));
    assert_eq!(Missing::Code.message(), "Either --code or --code-file is required.");
    assert_eq!(Missing::Expected.message(), "Expected return data --expected is required.");
}

#[test]
fn each_pair_of_digits_gives_one_byte() {
    let args = run(&["parity-evm", "--code", "00ff10aBCd", "--input", "0123456789abcdefABCDEF"]);
    assert_eq!(args.code(), Ok(Some(vec![0x00, 0xff, 0x10, 0xab, 0xcd])));
    assert_eq!(
        args.data(),
        Ok(Some(vec![0x01, 0x23, 0x45, 0x67, 0x89, 0xab, 0xcd, 0xef, 0xab, 0xcd, 0xef]))
    );
    let file = run(&["parity-evm", "--code-file", "contract.hex"]);
    assert_eq!(file.code_file(""), Ok(Some(vec![])));
    assert_eq!(file.code_file("7f"), Ok(Some(vec![0x7f])));
}

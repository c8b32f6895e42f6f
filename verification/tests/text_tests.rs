use sateater::cashu::{parse_receive_output, parse_send_output};
use sateater::text::{chars_of, decimal_string, parse_u32_in, split_ranges};

fn parse(s: &str) -> Option<u32> {
    let v = chars_of(s);
    parse_u32_in(&v, 0, v.len())
}

#[test]
fn decimal_strings() {
    assert_eq!(decimal_string(0), "0");
    assert_eq!(decimal_string(7), "7");
    assert_eq!(decimal_string(10), "10");
    assert_eq!(decimal_string(30000), "30000");
    assert_eq!(decimal_string(u64::MAX), u64::MAX.to_string());
}

#[test]
fn u32_parsing_matches_std() {
    for s in ["42", "+7", "+", "", "-1", "-0", "4294967295", "4294967296", "00012", "1a", " 1", "99999999999999999999", "٣"] {
        assert_eq!(parse(s), s.parse::<u32>().ok(), "input {:?}", s);
    }
}

#[test]
fn split_matches_std() {
    for s in ["", "a", "a b", " a  b ", "\n", "x\ny\n"] {
        for sep in [' ', '\n'] {
            let v = chars_of(s);
            let ranges = split_ranges(&v, 0, v.len(), sep);
            let pieces: Vec<String> = ranges.iter().map(|&(a, b)| v[a..b].iter().collect()).collect();
            let expected: Vec<String> = s.split(sep).map(|p| p.to_string()).collect();
            assert_eq!(pieces, expected);
        }
    }
}

#[test]
fn receive_output_difference() {
    assert_eq!(parse_receive_output("Balance: 100 sat\nBalance: 150 sat\n"), Some(50));
    assert_eq!(parse_receive_output("Balance: 0 sat\nBalance: 21 sat"), Some(21));
}

#[test]
fn receive_output_empty_second_line_is_nothing() {
    assert_eq!(parse_receive_output("Balance: 100 sat\n"), Some(0));
    assert_eq!(parse_receive_output("Error: token already spent\n\n"), Some(0));
}

#[test]
fn receive_output_malformed() {
    assert_eq!(parse_receive_output("no newline"), None);
    assert_eq!(parse_receive_output(""), None);
    assert_eq!(parse_receive_output("Balance: 100 sat\nBalance: 99 sat"), None);
    assert_eq!(parse_receive_output("Balance: x sat\nBalance: 99 sat"), None);
    assert_eq!(parse_receive_output("Balance\nBalance: 99 sat"), None);
    assert_eq!(parse_receive_output("Balance: 1\nBalance"), None);
}

#[test]
fn send_output_token() {
    assert_eq!(parse_send_output("Sending 5 sat\ncashuAeyJ0b2tlbiI6\n"), Some("cashuAeyJ0b2tlbiI6".to_string()));
    assert_eq!(parse_send_output("a\n"), Some(String::new()));
}

#[test]
fn send_output_malformed() {
    assert_eq!(parse_send_output("only one line"), None);
    assert_eq!(parse_send_output("header\ntoken with space\n"), None);
}

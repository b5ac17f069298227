use ultimattt_cli::error::ArgError;
use ultimattt_cli::size_arg::{parse_bytesize, try_parse_bytesize};

#[test]
fn bytesize_units() {
    assert_eq!(parse_bytesize("4096"), Ok(4096));
    assert_eq!(parse_bytesize("4096B"), Ok(4096));
    assert_eq!(parse_bytesize("1K"), Ok(1_000));
    assert_eq!(parse_bytesize("1Ki"), Ok(1_024));
    assert_eq!(parse_bytesize("3M"), Ok(3_000_000));
    assert_eq!(parse_bytesize("3Mi"), Ok(3 * 1_048_576));
    assert_eq!(parse_bytesize("1G"), Ok(1_000_000_000));
    assert_eq!(parse_bytesize("2Gi"), Ok(2 * 1_073_741_824));
    assert_eq!(parse_bytesize("7T"), Ok(7_000_000_000_000));
    assert_eq!(parse_bytesize("7Ti"), Ok(7 * 1_099_511_627_776));
}

#[test]
fn bytesize_optional_b_suffix() {
    assert_eq!(parse_bytesize("512Mi"), Ok(512 * 1_048_576));
    assert_eq!(parse_bytesize("512MiB"), Ok(512 * 1_048_576));
    assert_eq!(parse_bytesize("1KB"), parse_bytesize("1K"));
}

#[test]
fn bytesize_unsupported_units() {
    for (text, unit) in [("5P", "P"), ("5Pi", "Pi"), ("5E", "E"), ("5EiB", "Ei"), ("5i", "i"), ("5iB", "i")] {
        assert_eq!(parse_bytesize(text), Err(ArgError::UnsupportedUnit(unit.to_string())), "input {}", text);
    }
    assert_eq!(
        parse_bytesize("5P").unwrap_err().message(),
        "Unsupported unite: 'P'"
    );
}

#[test]
fn bytesize_refusals() {
    for bad in ["", "G", "1g", "1 G", "1GG", "1BB", "1Bi", "1iK", " 1", "1 ", "x1"] {
        assert_eq!(parse_bytesize(bad), Err(ArgError::BadByteSize(bad.to_string())), "input {:?}", bad);
    }
    assert_eq!(
        parse_bytesize("1g").unwrap_err().message(),
        "Unable to parse bytesize: '1g'"
    );
}

#[test]
fn bytesize_limits() {
    assert_eq!(try_parse_bytesize("18446744073709551615"), Some(Ok(u64::MAX)));
    assert_eq!(try_parse_bytesize("18446744073709551616"), None);
    assert_eq!(try_parse_bytesize("18446744073709551616P"), None);
    assert_eq!(try_parse_bytesize("18446744073709551K"), Some(Ok(18446744073709551000)));
    assert_eq!(try_parse_bytesize("18446744073709552K"), None);
    assert_eq!(try_parse_bytesize("16777216Ti"), None);
    assert_eq!(try_parse_bytesize("16777215Ti"), Some(Ok(16777215 * 1_099_511_627_776)));
}

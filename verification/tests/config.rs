use netscan::config::{
    parse_port, InvalidPort, ScanConfig, DEFAULT_TIMEOUT_MS, DEFAULT_WORKERS, MAX_PORT,
};

#[test]
fn defaults_are_50_workers_and_500_ms() {
    assert_eq!(DEFAULT_WORKERS, 50);
    assert_eq!(DEFAULT_TIMEOUT_MS, 500);
    assert_eq!(MAX_PORT, 65535);
    let config = ScanConfig::new(443);
    assert_eq!(config, ScanConfig { port: 443, workers: 50, timeout_ms: 500 });
}

#[test]
fn parse_port_reads_plain_numbers() {
    assert_eq!(parse_port("0"), Ok(0));
    assert_eq!(parse_port("80"), Ok(80));
    assert_eq!(parse_port("443"), Ok(443));
    assert_eq!(parse_port("9999"), Ok(9999));
    assert_eq!(parse_port("65535"), Ok(65535));
}

#[test]
fn parse_port_allows_a_plus_sign_and_leading_zeros() {
    assert_eq!(parse_port("+80"), Ok(80));
    assert_eq!(parse_port("0080"), Ok(80));
    assert_eq!(parse_port("+00000000000000000000065535"), Ok(65535));
    assert_eq!(parse_port("000"), Ok(0));
}

#[test]
fn parse_port_refuses_numbers_over_65535() {
    assert_eq!(parse_port("65536"), Err(InvalidPort));
    assert_eq!(parse_port("70000"), Err(InvalidPort));
    assert_eq!(parse_port("4294967296"), Err(InvalidPort));
    assert_eq!(parse_port("99999999999999999999999999"), Err(InvalidPort));
}

#[test]
fn parse_port_refuses_what_is_no_number() {
    for text in
        ["", "+", "-", "-1", "-0", "++1", "+-1", "1+", "8a", "a8", "http", "80 ", " 80", "8 0",
            "80\n", "0x50", "1_000", "1.0", "٣", "８０"]
    {
        assert_eq!(parse_port(text), Err(InvalidPort), "{:?}", text);
    }
}

#[test]
fn parse_port_agrees_with_the_standard_parser() {
    let mut samples: Vec<String> = Vec::new();
    for n in 0..70000u32 {
        if n % 7 == 0 || n > 65500 {
            samples.push(n.to_string());
            samples.push(format!("+{}", n));
            samples.push(format!("0{}", n));
        }
    }
    for text in ["", "+", "-5", "1e3", "12 ", "+０", "65535", "65536", "006553500"] {
        samples.push(text.to_string());
    }
    for text in &samples {
        let expected = text.parse::<u16>().map_err(|_| InvalidPort);
        assert_eq!(parse_port(text), expected, "{:?}", text);
    }
}

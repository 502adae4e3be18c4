use hwagent::num::{parse_i32_exec, parse_u64, parse_unsigned_exec};
use hwagent::collectors::sensors::float_text_exec;
use hwagent::sizes::format_size_kb;
use hwagent::text::{lines_chars, to_chars, trim_chars, words_chars};

fn s(v: &Vec<char>) -> String {
    v.iter().collect()
}

fn ss(v: &Vec<Vec<char>>) -> Vec<String> {
    v.iter().map(|x| x.iter().collect()).collect()
}

const SAMPLES: &[&str] = &[
    "",
    "a",
    "\n",
    "\n\n",
    "a\nb",
    "a\nb\n",
    "a\r\nb\r\n",
    "a\rb\r",
    "  x y\t\tz  ",
    "\u{a0}lead\u{2003}and\u{3000}trail\u{85}",
    "line one\r\n\r\nline three\n",
    "\r\n",
    "\r",
    "tab\tsep\u{0b}vt\u{0c}ff",
];

#[test]
fn lines_match_std() {
    for t in SAMPLES {
        let got = ss(&lines_chars(&to_chars(t)));
        let want: Vec<String> = t.lines().map(|l| l.to_string()).collect();
        assert_eq!(got, want, "lines of {:?}", t);
    }
}

#[test]
fn words_match_std() {
    for t in SAMPLES {
        let got = ss(&words_chars(&to_chars(t)));
        let want: Vec<String> = t.split_whitespace().map(|l| l.to_string()).collect();
        assert_eq!(got, want, "words of {:?}", t);
    }
}

#[test]
fn trim_matches_std() {
    for t in SAMPLES {
        assert_eq!(s(&trim_chars(&to_chars(t))), t.trim(), "trim of {:?}", t);
    }
}

const NUMBERS: &[&str] = &[
    "", "+", "-", "0", "00", "+7", "-7", "-0", "12a", " 1", "1 ", "255", "256", "4294967295",
    "4294967296", "18446744073709551615", "18446744073709551616", "2147483647", "2147483648",
    "-2147483648", "-2147483649", "99999999999999999999999", "ff", "FF", "0x1", "+ff", "1e3",
];

#[test]
fn u64_parse_matches_std() {
    for t in NUMBERS {
        assert_eq!(parse_u64(&to_chars(t)), t.parse::<u64>().ok(), "u64 {:?}", t);
    }
}

#[test]
fn u32_and_u8_parse_match_std() {
    for t in NUMBERS {
        assert_eq!(
            parse_unsigned_exec(&to_chars(t), 10, u32::MAX as u64).map(|v| v as u32),
            t.parse::<u32>().ok(),
            "u32 {:?}",
            t
        );
        assert_eq!(
            parse_unsigned_exec(&to_chars(t), 10, 255).map(|v| v as u8),
            t.parse::<u8>().ok(),
            "u8 {:?}",
            t
        );
        assert_eq!(
            parse_unsigned_exec(&to_chars(t), 16, 255).map(|v| v as u8),
            u8::from_str_radix(t, 16).ok(),
            "hex u8 {:?}",
            t
        );
    }
}

#[test]
fn i32_parse_matches_std() {
    for t in NUMBERS {
        assert_eq!(parse_i32_exec(&to_chars(t)), t.parse::<i32>().ok(), "i32 {:?}", t);
    }
}

#[test]
fn float_grammar_matches_std() {
    let cases = [
        "", "+", "-", ".", "1", "1.", ".5", "-.5", "+1.5", "1.5e3", "1e", "1e+", "1e-2", "1E5",
        "e5", ".e5", "inf", "-inf", "INF", "Infinity", "infinity", "+infinity", "nan", "NaN",
        "-nan", "infin", "1.2.3", "1_000", " 1", "1 ", "0x10", "45.000", "12.0 C", "1e99999",
        "00.00", "5.e3", "in", "na",
    ];
    for t in cases {
        assert_eq!(float_text_exec(&to_chars(t)), t.parse::<f64>().is_ok(), "float {:?}", t);
    }
}

fn reference_size(kb: u64) -> String {
    if kb >= 1024 * 1024 {
        format!("{:.1} GB", kb as f64 / (1024.0 * 1024.0))
    } else if kb >= 1024 {
        format!("{:.1} MB", kb as f64 / 1024.0)
    } else {
        format!("{} KB", kb)
    }
}

#[test]
fn format_size_kb_examples() {
    assert_eq!(format_size_kb(0), "0 KB");
    assert_eq!(format_size_kb(1023), "1023 KB");
    assert_eq!(format_size_kb(1024), "1.0 MB");
    assert_eq!(format_size_kb(1536), "1.5 MB");
    assert_eq!(format_size_kb(16_384_000), "15.6 GB");
    assert_eq!(format_size_kb(1_048_576), "1.0 GB");
}

#[test]
fn format_size_kb_matches_float_formatting() {
    let mut values: Vec<u64> = vec![
        0, 1, 1023, 1024, 1025, 1075, 1126, 1177, 1228, 1331, 1_048_575, 1_048_576, 1_310_720,
        1_835_008, 5_505_024, 32_768_000, 65_784_308, u64::MAX, u64::MAX - 1, 1u64 << 53,
        (1u64 << 53) + 1, (1u64 << 53) + 3, (1u64 << 60) + 12345, 9_007_199_254_740_993,
    ];
    for k in 0..4096u64 {
        values.push(k * 52_429 + 1_048_576);
        values.push(k * 51 + 1024);
        values.push(k * 262_144 + 1_048_576);
        values.push(u64::MAX - k * 1_000_003);
    }
    for kb in values {
        assert_eq!(format_size_kb(kb), reference_size(kb), "kb = {}", kb);
    }
}

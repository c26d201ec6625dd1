use awsm_audio::text::{replace_all, usize_to_decimal};
use awsm_audio::worklet::{shim_source, PARAM_BANK, PROCESSOR_NAME, SHIM_TEMPLATE};

#[test]
fn shim_substitutes_the_bank_size() {
    let s = shim_source();
    assert!(s.contains("const BANK = 32;"));
    assert!(!s.contains("__BANK__"));
    assert_eq!(s, SHIM_TEMPLATE.replace("__BANK__", &PARAM_BANK.to_string()));
    assert!(s.contains(&format!("registerProcessor('{PROCESSOR_NAME}'")));
}

#[test]
fn decimal_rendering() {
    assert_eq!(usize_to_decimal(0), "0");
    assert_eq!(usize_to_decimal(7), "7");
    assert_eq!(usize_to_decimal(10), "10");
    assert_eq!(usize_to_decimal(1234567890), "1234567890");
    assert_eq!(usize_to_decimal(usize::MAX), usize::MAX.to_string());
}

#[test]
fn replace_matches_std_for_non_empty_patterns() {
    let cases = [
        ("aaaa", "aa", "b"),
        ("abcabc", "bc", "XYZ"),
        ("no match", "zz", "q"),
        ("", "x", "y"),
        ("héllo wörld", "ö", "o"),
        ("__BANK____BANK__", "__BANK__", "32"),
    ];
    for (s, p, r) in cases {
        assert_eq!(replace_all(s, p, r), s.replace(p, r));
    }
}

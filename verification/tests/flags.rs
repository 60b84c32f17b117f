use rig_llama_cpp::text::{decimal_text, join_texts, lower_text, signed_decimal_text, trim_text};
use rig_llama_cpp::{env_flag_enabled, llama_logs_enabled};

#[test]
fn flags_are_switched_on_by_four_words() {
    for value in ["1", "true", "yes", "on", " TRUE\n", "\tOn", "YeS "] {
        assert!(env_flag_enabled(Some(value)), "{value}");
        assert!(llama_logs_enabled(Some(value)), "{value}");
    }
    for value in ["", "0", "false", "2", "no", "off", "tr ue", "ＯＮ"] {
        assert!(!env_flag_enabled(Some(value)), "{value}");
    }
    assert!(!env_flag_enabled(None));
    assert!(!llama_logs_enabled(None));
}

#[test]
fn texts_are_trimmed_lowered_and_joined() {
    assert_eq!(trim_text("\u{3000} a b \u{a0}\n"), "a b");
    assert_eq!(lower_text("AbÇ"), "abÇ");
    let parts = vec!["a".to_string(), "".to_string(), "b".to_string()];
    assert_eq!(join_texts(&parts, ", "), "a, , b");
    assert_eq!(join_texts(&Vec::new(), ", "), "");
}

#[test]
fn numbers_are_written_in_decimal() {
    assert_eq!(decimal_text(0), "0");
    assert_eq!(decimal_text(1073741824), "1073741824");
    assert_eq!(decimal_text(u64::MAX), "18446744073709551615");
    assert_eq!(signed_decimal_text(-32), "-32");
    assert_eq!(signed_decimal_text(i32::MIN), "-2147483648");
    assert_eq!(signed_decimal_text(7), "7");
}

use binscope::filetype::{is_elf, is_pe32, is_pe64, is_text};
use binscope::render::{u64_to_dec, u64_to_hex};
use binscope::setup::{check_setup, required_tools, ToolProbe, WithLocationErr};
use binscope::strutil::{str_contains, str_eq, str_eq_ignore_ascii_case, str_starts_with};
use binscope::style::{ArgCommand, ReportStyle};

#[test]
fn string_equality_and_search() {
    assert!(str_eq("abc", "abc"));
    assert!(!str_eq("abc", "abd"));
    assert!(!str_eq("abc", "ab"));
    assert!(str_eq("", ""));
    assert!(str_starts_with("text/plain", "text/"));
    assert!(!str_starts_with("te", "text/"));
    assert!(str_contains("application/x-pe64", "pe64"));
    assert!(str_contains("abc", ""));
    assert!(!str_contains("abc", "cd"));
    assert!(str_eq_ignore_ascii_case("TeRsE", "terse"));
    assert!(!str_eq_ignore_ascii_case("terse!", "terse"));
}

#[test]
fn mime_predicates_classify_known_types() {
    assert!(is_pe64("application/x-pe64"));
    assert!(!is_pe64("application/x-msdownload"));
    assert!(is_pe32("application/x-msdownload"));
    assert!(!is_pe32("application/x-msdownloads"));
    assert!(is_elf("application/x-sharedlib"));
    assert!(is_elf("application/x-executable"));
    assert!(!is_elf("application/x-elf"));
    assert!(is_text("text/plain"));
    assert!(is_text("application/octet-stream"));
    assert!(is_text("application/text"));
    assert!(is_text("application/x-sh"));
    assert!(!is_text("application/x-sharedlib"));
}

#[test]
fn hex_and_decimal_rendering() {
    assert_eq!(u64_to_hex(0), "0");
    assert_eq!(u64_to_hex(0x1000), "1000");
    assert_eq!(u64_to_hex(0x2000), "2000");
    assert_eq!(u64_to_hex(0xdeadbeef), "deadbeef");
    assert_eq!(u64_to_hex(u64::MAX), "ffffffffffffffff");
    assert_eq!(u64_to_dec(0), "0");
    assert_eq!(u64_to_dec(1234), "1234");
    assert_eq!(u64_to_dec(u64::MAX), "18446744073709551615");
}

#[test]
fn report_style_parsing_accepts_tokens_of_any_case() {
    assert_eq!(ReportStyle::from_str("t"), Ok(ReportStyle::Terse));
    assert_eq!(ReportStyle::from_str("TERSE"), Ok(ReportStyle::Terse));
    assert_eq!(ReportStyle::from_str("n"), Ok(ReportStyle::Normal));
    assert_eq!(ReportStyle::from_str("Normal"), Ok(ReportStyle::Normal));
    assert_eq!(ReportStyle::from_str("d"), Ok(ReportStyle::Detailed));
    assert_eq!(ReportStyle::from_str("detailed"), Ok(ReportStyle::Detailed));
    assert_eq!(ReportStyle::from_str("o"), Ok(ReportStyle::Overflowing));
    assert_eq!(ReportStyle::from_str("overflow"), Ok(ReportStyle::Overflowing));
    assert_eq!(ReportStyle::from_str("overflowing"), Ok(ReportStyle::Overflowing));
}

#[test]
fn report_style_rejects_unknown_token_listing_styles() {
    let err = ReportStyle::from_str("loud").unwrap_err();
    assert!(err.starts_with("Unknown ReportStyle: 'loud'."));
    assert!(err.contains("t|terse: "));
    assert!(err.contains("o|overflowing: "));
}

#[test]
fn style_descriptions_are_fixed_texts() {
    assert!(ReportStyle::Terse.description().starts_with("Only the top-level summary"));
    assert_eq!(
        ReportStyle::Overflowing.description(),
        "Everything we see, before any summarization processing takes place."
    );
    assert!(ReportStyle::Normal
        .named_description()
        .starts_with("n|normal: Everything in Terse"));
}

#[test]
fn command_parsing_accepts_the_check_spellings() {
    assert_eq!(ArgCommand::from_str("check"), Ok(ArgCommand::CheckSetup));
    assert_eq!(ArgCommand::from_str("check-setup"), Ok(ArgCommand::CheckSetup));
    assert_eq!(ArgCommand::from_str("CHECK_SETUP"), Ok(ArgCommand::CheckSetup));
    let err = ArgCommand::from_str("verify").unwrap_err();
    assert_eq!(err, "Unknown command: 'verify'. Valid commands are [check, ]");
}

#[test]
fn check_setup_passes_only_when_everything_was_found() {
    let probes = vec![
        ToolProbe { name: "qemu-system-x86_64".to_string(), found: true },
    ];
    assert!(check_setup(&probes).is_ok());
    let probes = vec![
        ToolProbe { name: "qemu-system-x86_64".to_string(), found: false },
        ToolProbe { name: "docker".to_string(), found: false },
    ];
    let msg = check_setup(&probes).unwrap_err();
    assert_eq!(
        msg,
        "The following binaries are missing, please install them and their containing folder \
         to your PATH variable. missing_bins = [\"qemu-system-x86_64\", \"docker\"]"
    );
}

#[test]
fn required_tools_list_is_fixed() {
    let tools = required_tools();
    assert_eq!(tools.len(), 1);
    assert_eq!(tools[0].name, "qemu-system-x86_64");
}

#[test]
fn with_location_err_renders_source_and_location() {
    let e = WithLocationErr {
        file: "src/widget.rs".to_string(),
        line: 42,
        source: "bad thing".to_string(),
    };
    assert_eq!(e.describe(), "bad thing at src/widget.rs:42");
}

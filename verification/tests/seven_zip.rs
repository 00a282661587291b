use nest_unzip::command::seven_zip_extract_command;
use nest_unzip::output::percent_digits;
use nest_unzip::stream::{PercentReport, SevenZipOutput};

/// A percentage in a line of 7-Zip's progress output, as a number.
fn parse_7z_percent(s: &str) -> Option<f32> {
    percent_digits(s).and_then(|d| d.parse::<f32>().ok())
}

#[test]
fn test_parse_7z_percent() {
    assert_eq!(parse_7z_percent("  0%"), Some(0.0));
    assert_eq!(parse_7z_percent("  3%"), Some(3.0));
    assert_eq!(parse_7z_percent(" 12% 435"), Some(12.0));
    assert_eq!(parse_7z_percent("100%"), Some(100.0));
    assert_eq!(parse_7z_percent("Extracting  archive.zip   15%"), Some(15.0));
    assert_eq!(parse_7z_percent("Everything is Ok"), None);
    assert_eq!(parse_7z_percent("  %"), None);
}

#[test]
fn percent_digits_reads_digits_before_the_first_percent_sign() {
    assert_eq!(percent_digits("  42%"), Some("42".to_string()));
    // a letter right before the digits' run stops it: digits kept
    assert_eq!(percent_digits("ab12%"), Some("12".to_string()));
    // the first % decides
    assert_eq!(percent_digits("x% 50%"), None);
    // non-ASCII digits do not count
    assert_eq!(percent_digits("٣%"), None);
    assert_eq!(percent_digits("no percent here"), None);
    assert_eq!(percent_digits("7 %"), Some("7".to_string()));
}

fn texts(r: &[PercentReport]) -> Vec<(String, String)> {
    r.iter().map(|p| (p.digits.clone(), p.line.clone())).collect()
}

#[test]
fn seven_zip_stream_reports_progress_and_keeps_log() {
    let mut out = SevenZipOutput::new();
    let r1 = out.feed(b"  5% 3 - a.txt\x08\x08\x08\x08");
    assert_eq!(texts(&r1), vec![("5".to_string(), "  5% 3 - a.txt".to_string())]);
    let r2 = out.feed(b" 40%\r\nEverything is ");
    assert_eq!(texts(&r2), vec![("40".to_string(), " 40%".to_string())]);
    let last = out.finish();
    assert!(last.is_none());
    // a line ended by backspace is not logged; the unfinished one is, without a line feed
    assert_eq!(out.failure_text("ERR"), "ERR\n 40%\nEverything is ");
}

#[test]
fn seven_zip_stream_decodes_invalid_bytes_lossily() {
    let mut out = SevenZipOutput::new();
    let r = out.feed(b"bad \xff 9%\n");
    assert_eq!(texts(&r), vec![("9".to_string(), "bad \u{fffd} 9%".to_string())]);
    let fin = out.finish();
    assert!(fin.is_none());
    assert_eq!(out.failure_text(""), "\nbad \u{fffd} 9%\n");
}

#[test]
fn seven_zip_stream_finish_reads_last_line() {
    let mut out = SevenZipOutput::new();
    let r = out.feed(b"100%");
    assert!(r.is_empty());
    let fin = out.finish().unwrap();
    assert_eq!(fin.digits, "100");
    assert_eq!(fin.line, "100%");
    assert!(out.finish().is_none());
}

#[test]
fn seven_zip_arguments() {
    assert_eq!(
        seven_zip_extract_command("a.7z", "out dir", Some("pw")),
        vec!["x", "a.7z", "-oout dir", "-y", "-bso1", "-bse1", "-bsp2", "-ppw"]
    );
    assert_eq!(
        seven_zip_extract_command("a.7z", "o", None),
        vec!["x", "a.7z", "-oo", "-y", "-bso1", "-bse1", "-bsp2"]
    );
}

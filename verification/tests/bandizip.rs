use nest_unzip::command::{bandizip_extract_command, bandizip_list_command};
use nest_unzip::output::{bandizip_file_count, is_info_line_text};
use nest_unzip::stream::{bandizip_total_files, BandizipOutput, BandizipProgress};

#[test]
fn file_count_from_last_summary_line() {
    let listing = "bz 7.30\nListing archive: a.zip\n 3 files, 2 folders\nsomething\n 12 files, 1 folder\n";
    assert_eq!(bandizip_file_count(listing), Some(12));
}

#[test]
fn file_count_markers() {
    assert_eq!(bandizip_file_count("total 7 files"), Some(7));
    assert_eq!(bandizip_file_count("  5 file(s)\r\n"), Some(5));
    assert_eq!(bandizip_file_count("共 9 个文件"), Some(9));
    // a summary line whose count is not a number is passed over
    assert_eq!(bandizip_file_count("4 files\nmany files\n"), Some(4));
    assert_eq!(bandizip_file_count("no summary\n"), None);
    assert_eq!(bandizip_file_count(""), None);
    // digits glued to a letter still count, up to the letter
    assert_eq!(bandizip_file_count("x12 files"), Some(12));
    // too large for a usize
    assert_eq!(bandizip_file_count("99999999999999999999999999 files"), None);
}

#[test]
fn total_files_from_raw_listing() {
    assert_eq!(bandizip_total_files(b"Listing\r\n 2 files, 0 folders\r\n"), Some(2));
    assert_eq!(bandizip_total_files(b"\xfe\xff 8 files\n"), Some(8));
    assert_eq!(bandizip_total_files(b"nothing"), None);
}

#[test]
fn info_lines() {
    assert!(is_info_line_text("bz 7.30(x64) - Bandizip console tool"));
    assert!(is_info_line_text("Extracting archive: a.zip"));
    assert!(is_info_line_text("ERROR: something"));
    assert!(is_info_line_text("Need: Password required here"));
    assert!(is_info_line_text("------------------"));
    assert!(!is_info_line_text("docs/readme.txt"));
    assert!(!is_info_line_text("error.log"));
}

fn describe(v: &[BandizipProgress]) -> Vec<String> {
    v.iter()
        .map(|p| match p {
            BandizipProgress::Counted { done, total, file } => format!("{}/{} {}", done, total, file),
            BandizipProgress::Uncounted { file } => format!("? {}", file),
        })
        .collect()
}

#[test]
fn bandizip_stream_counts_extracted_files() {
    let mut out = BandizipOutput::new(Some(2));
    let ev = out.feed(b"bz 7.30\r\nExtracting archive: a.zip\r\n  one.txt  \r\n\r\ntw").unwrap();
    assert_eq!(describe(&ev), vec!["1/2 one.txt"]);
    let ev = out.feed(b"o.txt\n").unwrap();
    assert_eq!(describe(&ev), vec!["2/2 two.txt"]);
    let ev = out.finish().unwrap();
    assert!(ev.is_empty());
    assert_eq!(out.files_done(), 2);
    assert_eq!(
        out.failure_text("E"),
        "E\nbz 7.30\nExtracting archive: a.zip\n  one.txt  \ntwo.txt\n"
    );
}

#[test]
fn bandizip_stream_without_total() {
    let mut out = BandizipOutput::new(None);
    let ev = out.feed(b"a\nb").unwrap();
    assert_eq!(describe(&ev), vec!["? a"]);
    let ev = out.finish().unwrap();
    assert_eq!(describe(&ev), vec!["? b"]);
    // the last line is logged without a line feed
    assert_eq!(out.failure_text(""), "\na\nb");
}

#[test]
fn bandizip_stream_with_zero_total_reports_nothing() {
    let mut out = BandizipOutput::new(Some(0));
    let ev = out.feed(b"a\nb\n").unwrap();
    assert!(ev.is_empty());
    assert_eq!(out.files_done(), 2);
}

#[test]
fn bandizip_arguments() {
    assert_eq!(bandizip_extract_command("a.zip", "out", Some("p")), vec!["x", "-o:out", "-y", "-p:p", "a.zip"]);
    assert_eq!(bandizip_extract_command("a.zip", "out", None), vec!["x", "-o:out", "-y", "a.zip"]);
    assert_eq!(bandizip_list_command("a.zip", Some("s3")), vec!["l", "-p:s3", "a.zip"]);
    assert_eq!(bandizip_list_command("a.zip", None), vec!["l", "a.zip"]);
}

#[test]
fn bandizip_reads_decoded_lines() {
    let mut out = BandizipOutput::new(Some(3));
    assert!(out.read_line("Listing archive: a.zip".to_string(), true).unwrap().is_empty());
    assert_eq!(describe(&out.read_line("  a/b.txt ".to_string(), true).unwrap()), vec!["1/3 a/b.txt"]);
    assert!(out.read_line("   ".to_string(), true).unwrap().is_empty());
    assert_eq!(describe(&out.read_line("c".to_string(), false).unwrap()), vec!["2/3 c"]);
    assert_eq!(out.files_done(), 2);
    assert_eq!(out.failure_text(""), "\nListing archive: a.zip\n  a/b.txt \nc");
}

#[test]
fn bandizip_progress_over_a_stream_counts_from_one() {
    // however the stream is cut, the k-th file line is reported as k of n
    let stream: &[u8] = b"bz 7.30\r\nf1\r\nERROR x\r\nf2\nf3";
    for cut in 0..stream.len() {
        let mut out = BandizipOutput::new(Some(4));
        let mut all = out.feed(&stream[..cut]).unwrap();
        all.extend(out.feed(&stream[cut..]).unwrap());
        all.extend(out.finish().unwrap());
        assert_eq!(describe(&all), vec!["1/4 f1", "2/4 f2", "3/4 f3"]);
    }
}

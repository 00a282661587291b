use nest_unzip::command::{registry_string, split_registry_key, temp_flatten_name, RegistryRoot};
use nest_unzip::names::{clean_path, clean_registry_value, flatten_candidate, is_archive_file_name, is_ignored_entry_name};

#[test]
fn clean_path_trims_and_unquotes() {
    assert_eq!(clean_path("  \" C:\\Program Files\\7-Zip \"  "), "C:\\Program Files\\7-Zip");
    assert_eq!(clean_path("\"\""), "");
    assert_eq!(clean_path("\""), "\"");
    assert_eq!(clean_path("\tD:\\x\n"), "D:\\x");
    // only one pair of quotes goes
    assert_eq!(clean_path("\"\"a\"\""), "\"a\"");
    // quotes not at both ends stay
    assert_eq!(clean_path("\"abc"), "\"abc");
    // Unicode white space is trimmed too
    assert_eq!(clean_path("\u{3000}x\u{a0}"), "x");
    assert_eq!(clean_path(""), "");
}

#[test]
fn registry_values_are_unquoted_then_trimmed() {
    assert_eq!(clean_registry_value("\" C:\\7-Zip\\ \""), "C:\\7-Zip\\");
    // whitespace outside the quotes keeps them
    assert_eq!(clean_registry_value(" \"C:\\7-Zip\" "), "\"C:\\7-Zip\"");
}

#[test]
fn archive_names_by_extension() {
    for name in ["a.zip", "b.7Z", "c.RAR", "d.tar", "e.tar.gz", "f.BZ2", "g.xz", "dir.v1.Zip"] {
        assert!(is_archive_file_name(name), "{}", name);
    }
    for name in ["a.zipx", "noext", ".7z", "..", "a.", "a.z ip", "a.gz.txt", ""] {
        assert!(!is_archive_file_name(name), "{}", name);
    }
}

#[test]
fn ignored_entries() {
    assert!(is_ignored_entry_name(".DS_Store"));
    assert!(is_ignored_entry_name("Thumbs.db"));
    assert!(is_ignored_entry_name("DESKTOP.INI"));
    assert!(!is_ignored_entry_name("desktop.ini.bak"));
    assert!(!is_ignored_entry_name("sub_1"));
    assert!(!is_ignored_entry_name(""));
}

fn names(v: &[&str]) -> Vec<String> {
    v.iter().map(|s| s.to_string()).collect()
}

#[test]
fn flatten_candidate_is_the_only_counted_entry() {
    assert_eq!(flatten_candidate(&names(&["desktop.ini", "sub_1"])), Some(1));
    assert_eq!(flatten_candidate(&names(&[".DS_Store", "sub_2", "thumbs.db"])), Some(1));
    assert_eq!(flatten_candidate(&names(&["a", "b"])), None);
    assert_eq!(flatten_candidate(&names(&[".git"])), None);
    assert_eq!(flatten_candidate(&names(&[])), None);
}

#[test]
fn temp_flatten_names() {
    assert_eq!(temp_flatten_name(0), "temp_flatten_0");
    assert_eq!(temp_flatten_name(1_700_000_000_123_456_789), "temp_flatten_1700000000123456789");
    assert_eq!(temp_flatten_name(u128::MAX), format!("temp_flatten_{}", u128::MAX));
}

#[test]
fn registry_keys_split_at_first_backslash() {
    assert_eq!(
        split_registry_key("HKLM\\SOFTWARE\\7-Zip").map(|(r, s)| (r == RegistryRoot::LocalMachine, s)),
        Some((true, "SOFTWARE\\7-Zip".to_string()))
    );
    assert_eq!(
        split_registry_key("HKEY_CURRENT_USER\\SOFTWARE\\Bandizip").map(|(r, s)| (r == RegistryRoot::CurrentUser, s)),
        Some((true, "SOFTWARE\\Bandizip".to_string()))
    );
    assert!(split_registry_key("HKLM").is_none());
    assert!(split_registry_key("HKCR\\x").is_none());
    assert!(split_registry_key("hklm\\x").is_none());
}

fn utf16le(s: &str) -> Vec<u8> {
    s.encode_utf16().flat_map(|u| u.to_le_bytes()).collect()
}

#[test]
fn registry_strings_decode_utf16() {
    let mut data = utf16le("\"C:\\Program Files\\7-Zip\\\"");
    data.extend_from_slice(&[0, 0, 0x41, 0]);
    assert_eq!(registry_string(&data), Some("C:\\Program Files\\7-Zip\\".to_string()));
    // text after the first NUL is dropped; an odd last byte too
    let mut data = utf16le("D:\\压缩");
    data.extend_from_slice(&[0, 0]);
    data.extend_from_slice(&utf16le("junk"));
    data.push(7);
    assert_eq!(registry_string(&data), Some("D:\\压缩".to_string()));
    assert_eq!(registry_string(&[]), None);
    assert_eq!(registry_string(&[0x41]), None);
    // an unpaired surrogate does not decode
    assert_eq!(registry_string(&[0x00, 0xd8, 0x41, 0x00]), None);
    // an empty string value decodes to an empty text
    assert_eq!(registry_string(&[0, 0]), Some(String::new()));
}

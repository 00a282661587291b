use nest_unzip::attempts::{is_seven_zip, AttemptStep, PasswordAttempts};
use nest_unzip::results::{exe_not_found, extract_result, is_password_error_text, target_dir_failure};

/// Runs the attempts against an archiver that accepts only `right` (or no
/// password when `right` is `None`); returns the passwords tried and the
/// outcome.
fn run_attempts(passwords: &[&str], right: Option<&str>) -> (Vec<Option<String>>, Result<(), String>) {
    let pw: Vec<String> = passwords.iter().map(|s| s.to_string()).collect();
    let mut a = PasswordAttempts::new(&pw);
    let mut tried = Vec::new();
    let mut n = 0;
    loop {
        match a.step() {
            AttemptStep::Done(r) => return (tried, r),
            AttemptStep::Try(p) => {
                n += 1;
                let outcome = if p.as_deref() == right {
                    Ok(())
                } else {
                    Err(format!("wrong password #{}", n))
                };
                tried.push(p);
                a.report(outcome);
            }
        }
    }
}

#[test]
fn no_password_needed() {
    let (tried, r) = run_attempts(&["a", "b"], None);
    assert_eq!(tried, vec![None]);
    assert_eq!(r, Ok(()));
}

#[test]
fn passwords_are_tried_in_order_skipping_blank_ones() {
    let (tried, r) = run_attempts(&["  ", "one", "", "two", "three"], Some("two"));
    assert_eq!(tried, vec![None, Some("one".to_string()), Some("two".to_string())]);
    assert_eq!(r, Ok(()));
}

#[test]
fn all_attempts_failing_reports_the_last_error() {
    let (tried, r) = run_attempts(&["one", "\t"], Some("zzz"));
    assert_eq!(tried, vec![None, Some("one".to_string())]);
    assert_eq!(r, Err("密码错误或文件损坏: wrong password #2".to_string()));
    let (tried, r) = run_attempts(&[], Some("zzz"));
    assert_eq!(tried, vec![None]);
    assert_eq!(r, Err("密码错误或文件损坏: wrong password #1".to_string()));
}

#[test]
fn passwords_are_passed_untrimmed() {
    let (tried, r) = run_attempts(&[" pw "], Some(" pw "));
    assert_eq!(tried, vec![None, Some(" pw ".to_string())]);
    assert_eq!(r, Ok(()));
}

#[test]
fn seven_zip_is_named_7z() {
    assert!(is_seven_zip("7z"));
    assert!(!is_seven_zip("7Z"));
    assert!(!is_seven_zip("bandizip"));
    assert!(!is_seven_zip(""));
}

#[test]
fn password_errors_are_recognised() {
    assert!(is_password_error_text("ERROR: Wrong password : a.txt"));
    assert!(is_password_error_text("Can Not Open Encrypted Archive. Wrong password?"));
    assert!(is_password_error_text("Data Error in encrypted file"));
    assert!(is_password_error_text("文件已加密"));
    assert!(is_password_error_text("密码错误"));
    assert!(!is_password_error_text("Unexpected end of archive"));
    assert!(!is_password_error_text(""));
}

#[test]
fn extract_results() {
    let ok = extract_result(Ok(()));
    assert!(ok.success);
    assert_eq!(ok.error_type, "None");
    assert_eq!(ok.message, "");
    let pw = extract_result(Err("密码错误或文件损坏: ERROR: Wrong password".to_string()));
    assert!(!pw.success);
    assert_eq!(pw.error_type, "PasswordRequired");
    assert_eq!(pw.message, "密码错误或文件损坏: ERROR: Wrong password");
    let other = extract_result(Err("Unexpected end of data".to_string()));
    assert!(!other.success);
    assert_eq!(other.error_type, "Other");
    assert_eq!(other.message, "Unexpected end of data");
}

#[test]
fn setup_failures() {
    let r = target_dir_failure("Access is denied.");
    assert!(!r.success);
    assert_eq!(r.error_type, "Other");
    assert_eq!(r.message, "创建目标文件夹失败: Access is denied.");
    let r = exe_not_found("7z");
    assert!(!r.success);
    assert_eq!(r.error_type, "Other");
    assert_eq!(r.message, "无法定位 7z 的可执行文件，请检查路径配置");
}

//! The answer to a single extraction request, and how a failure is
//! classified.
use vstd::prelude::*;
use crate::text::{chars_of, contains_fold, range_contains};

verus! {

/// The outcome of extracting one archive: on failure, whether a password is
/// the likely cause (`PasswordRequired`) or not (`Other`), and the message.
pub struct ExtractResult {
    pub success: bool,
    pub error_type: String,
    pub message: String,
}

/// Phrases in an archiver's error output that point to a missing or wrong
/// password.
pub open spec fn password_markers() -> Seq<Seq<char>> {
    seq![
        "wrong password"@,
        "password error"@,
        "decryption failed"@,
        "enter password"@,
        "data error in encrypted file"@,
        "can not open encrypted archive"@,
        "encrypted"@,
        "密码"@,
        "加密"@,
        "解密"@,
    ]
}

/// The error output, lower-cased, contains one of the password phrases.
/// Lower-casing and then searching for these phrases agrees with searching
/// up to ASCII case: the phrases hold only lower-case ASCII letters, spaces
/// and CJK characters; the only characters outside ASCII whose lower case
/// holds ASCII letters are U+212A (to `k`, which no phrase holds) and
/// U+0130 (to `i` and a combining dot, and no phrase ends in `i`).
pub open spec fn is_password_error(err: Seq<char>) -> bool {
    exists|k: int| 0 <= k < password_markers().len() && contains_fold(err, #[trigger] password_markers()[k])
}

/// Whether an archiver's error output points to a missing or wrong
/// password.
pub fn is_password_error_text(err: &str) -> (r: bool)
    ensures
        r == is_password_error(err@),
{
    let v = chars_of(err);
    let n = v.len();
    assert(v@.subrange(0, n as int) =~= err@);
    let mut markers: Vec<Vec<char>> = Vec::new();
    markers.push(chars_of("wrong password"));
    markers.push(chars_of("password error"));
    markers.push(chars_of("decryption failed"));
    markers.push(chars_of("enter password"));
    markers.push(chars_of("data error in encrypted file"));
    markers.push(chars_of("can not open encrypted archive"));
    markers.push(chars_of("encrypted"));
    markers.push(chars_of("密码"));
    markers.push(chars_of("加密"));
    markers.push(chars_of("解密"));
    assert(markers@.map_values(|m: Vec<char>| m@) =~= password_markers());
    let mut k: usize = 0;
    while k < markers.len()
        invariant
            k <= markers@.len(),
            n == v.len(),
            v@ == err@,
            markers@.map_values(|m: Vec<char>| m@) == password_markers(),
            forall|j: int| 0 <= j < k ==> !contains_fold(err@, #[trigger] password_markers()[j]),
        decreases markers@.len() - k,
    {
        assert(markers@.map_values(|m: Vec<char>| m@)[k as int] == markers@[k as int]@);
        assert(v@.subrange(0, n as int) =~= err@);
        if range_contains(&v, 0, n, &markers[k], true) {
            assert(contains_fold(err@, password_markers()[k as int]));
            return true;
        }
        k = k + 1;
    }
    false
}

/// The result of an extraction that ended with `outcome`.
pub fn extract_result(outcome: Result<(), String>) -> (r: ExtractResult)
    ensures
        match outcome {
            Ok(()) => r.success && r.error_type@ == "None"@ && r.message@ == ""@,
            Err(e) => !r.success && r.message@ == e@ && r.error_type@ == if is_password_error(e@) {
                "PasswordRequired"@
            } else {
                "Other"@
            },
        },
{
    match outcome {
        Ok(()) => ExtractResult { success: true, error_type: String::from_str("None"), message: String::from_str("") },
        Err(e) => {
            let kind = if is_password_error_text(e.as_str()) {
                String::from_str("PasswordRequired")
            } else {
                String::from_str("Other")
            };
            ExtractResult { success: false, error_type: kind, message: e }
        },
    }
}

/// The result when the target directory could not be created, for the
/// reason `e`.
pub fn target_dir_failure(e: &str) -> (r: ExtractResult)
    ensures
        !r.success,
        r.error_type@ == "Other"@,
        r.message@ == "创建目标文件夹失败: "@ + e@,
{
    let mut message = String::from_str("创建目标文件夹失败: ");
    message.append(e);
    ExtractResult { success: false, error_type: String::from_str("Other"), message }
}

/// The result when no executable could be found for `exe_type`.
pub fn exe_not_found(exe_type: &str) -> (r: ExtractResult)
    ensures
        !r.success,
        r.error_type@ == "Other"@,
        r.message@ == "无法定位 "@ + exe_type@ + " 的可执行文件，请检查路径配置"@,
{
    let mut message = String::from_str("无法定位 ");
    message.append(exe_type);
    message.append(" 的可执行文件，请检查路径配置");
    ExtractResult { success: false, error_type: String::from_str("Other"), message }
}

} // verus!

//! Paths and file names as plain text: cleaning a configured path, telling
//! archives by their extension, and the entries that do not count when a
//! directory is flattened.
use vstd::prelude::*;
use crate::text::{strings_view, chars_of, eq_fold, range_eq_fold, range_has_prefix, trim, trim_range};

verus! {

/// `s` without one pair of surrounding double quotes, if it has them.
pub open spec fn unquote(s: Seq<char>) -> Seq<char> {
    if s.len() >= 2 && s[0] == '"' && s.last() == '"' {
        s.subrange(1, s.len() - 1)
    } else {
        s
    }
}

/// A configured path as it is used: trimmed, unquoted, trimmed again.
pub open spec fn cleaned_path(p: Seq<char>) -> Seq<char> {
    trim(unquote(trim(p)))
}

/// A string value read from the registry: unquoted, then trimmed.
pub open spec fn cleaned_registry_value(s: Seq<char>) -> Seq<char> {
    trim(unquote(s))
}

/// Index of the last `c` in `s`, or -1.
pub open spec fn last_index_of(s: Seq<char>, c: char) -> int
    decreases s.len(),
{
    if s.len() == 0 {
        -1
    } else if s.last() == c {
        s.len() - 1
    } else {
        last_index_of(s.drop_last(), c)
    }
}

/// The extension of a file name, as `Path::extension` gives it: the text
/// after the last `.`, provided something precedes that dot; `..` has none.
pub open spec fn extension(name: Seq<char>) -> Option<Seq<char>> {
    let i = last_index_of(name, '.');
    if name == seq!['.', '.'] || i <= 0 {
        None
    } else {
        Some(name.skip(i + 1))
    }
}

/// The extensions of the archives that are unpacked, compared up to ASCII
/// case: `zip`, `7z`, `rar`, `tar`, `gz`, `bz2`, `xz`. Lower-casing a string
/// and comparing it with such a word agrees with comparing up to ASCII case:
/// the only characters outside ASCII whose lower case holds ASCII letters
/// are U+212A (to `k`) and U+0130 (to `i` and a combining dot), and neither
/// can complete one of these words.
pub open spec fn is_archive_extension(e: Seq<char>) -> bool {
    ||| eq_fold(e, seq!['z', 'i', 'p'])
    ||| eq_fold(e, seq!['7', 'z'])
    ||| eq_fold(e, seq!['r', 'a', 'r'])
    ||| eq_fold(e, seq!['t', 'a', 'r'])
    ||| eq_fold(e, seq!['g', 'z'])
    ||| eq_fold(e, seq!['b', 'z', '2'])
    ||| eq_fold(e, seq!['x', 'z'])
}

/// A file name with one of the archive extensions.
pub open spec fn is_archive_name(name: Seq<char>) -> bool {
    match extension(name) {
        Some(e) => is_archive_extension(e),
        None => false,
    }
}

/// Directory entries that do not count when deciding whether a directory
/// holds a single sub-directory: hidden names and the desktop's metadata
/// files.
pub open spec fn is_ignored_entry(name: Seq<char>) -> bool {
    ||| name.len() > 0 && name[0] == '.'
    ||| eq_fold(name, seq!['t', 'h', 'u', 'm', 'b', 's', '.', 'd', 'b'])
    ||| eq_fold(name, seq!['d', 'e', 's', 'k', 't', 'o', 'p', '.', 'i', 'n', 'i'])
}

/// `names[i]` is the one entry that counts, all others being ignored.
pub open spec fn only_counted_entry(names: Seq<Seq<char>>, i: int) -> bool {
    &&& 0 <= i < names.len()
    &&& !is_ignored_entry(names[i])
    &&& forall|j: int| 0 <= j < names.len() && j != i ==> is_ignored_entry(#[trigger] names[j])
}

/// Cleans a configured path: surrounding whitespace goes, then one pair of
/// surrounding double quotes, then the whitespace inside them.
pub fn clean_path(path: &str) -> (r: String)
    ensures
        r@ == cleaned_path(path@),
{
    let v = chars_of(path);
    let (a, b) = trim_range(&v, 0, v.len());
    assert(v@.subrange(0, v.len() as int) == path@);
    let ghost t = v@.subrange(a as int, b as int);
    let (c, d) = if b - a >= 2 && v[a] == '"' && v[b - 1] == '"' {
        assert(t[0] == v@[a as int] && t.last() == v@[b - 1]);
        assert(unquote(t) =~= v@.subrange(a + 1, b - 1));
        (a + 1, b - 1)
    } else {
        proof {
            if t.len() >= 2 {
                assert(t[0] == v@[a as int] && t.last() == v@[b - 1]);
            }
        }
        (a, b)
    };
    let (e, f) = trim_range(&v, c, d);
    String::from_str(path.substring_char(e, f))
}

/// Cleans a string value read from the registry: one pair of surrounding
/// double quotes goes, then surrounding whitespace.
pub fn clean_registry_value(value: &str) -> (r: String)
    ensures
        r@ == cleaned_registry_value(value@),
{
    let v = chars_of(value);
    let n = v.len();
    let ghost t = v@.subrange(0, n as int);
    assert(t == value@);
    let (c, d) = if n >= 2 && v[0] == '"' && v[n - 1] == '"' {
        assert(unquote(t) =~= v@.subrange(1, n - 1));
        (1, n - 1)
    } else {
        (0, n)
    };
    let (e, f) = trim_range(&v, c, d);
    String::from_str(value.substring_char(e, f))
}

fn last_dot(v: &Vec<char>) -> (r: Option<usize>)
    ensures
        match r {
            Some(i) => i < v.len() && last_index_of(v@, '.') == i,
            None => last_index_of(v@, '.') == -1,
        },
{
    let mut k = v.len();
    assert(v@.take(k as int) =~= v@);
    while k > 0
        invariant
            k <= v.len(),
            last_index_of(v@, '.') == last_index_of(v@.take(k as int), '.'),
        decreases k,
    {
        let ghost t = v@.take(k as int);
        assert(t.drop_last() =~= v@.take(k - 1));
        if v[k - 1] == '.' {
            return Some(k - 1);
        }
        k = k - 1;
    }
    None
}

/// Whether a file name has one of the archive extensions (`zip`, `7z`,
/// `rar`, `tar`, `gz`, `bz2`, `xz`), in any ASCII case.
pub fn is_archive_file_name(name: &str) -> (r: bool)
    ensures
        r == is_archive_name(name@),
{
    let v = chars_of(name);
    assert(v@.take(v.len() as int) =~= v@);
    let dot = last_dot(&v);
    let i = match dot {
        None => {
            return false;
        },
        Some(i) => i,
    };
    let dots = chars_of("..");
    proof {
        reveal_strlit("..");
    }
    if i == 0 || range_eq_fold_exact(&v, &dots) {
        return false;
    }
    let n = v.len();
    assert(v@.skip(i + 1) =~= v@.subrange(i + 1, n as int));
    let zip = chars_of("zip");
    let sz = chars_of("7z");
    let rar = chars_of("rar");
    let tar = chars_of("tar");
    let gz = chars_of("gz");
    let bz2 = chars_of("bz2");
    let xz = chars_of("xz");
    proof {
        reveal_strlit("zip");
        reveal_strlit("7z");
        reveal_strlit("rar");
        reveal_strlit("tar");
        reveal_strlit("gz");
        reveal_strlit("bz2");
        reveal_strlit("xz");
        assert(zip@ =~= seq!['z', 'i', 'p']);
        assert(sz@ =~= seq!['7', 'z']);
        assert(rar@ =~= seq!['r', 'a', 'r']);
        assert(tar@ =~= seq!['t', 'a', 'r']);
        assert(gz@ =~= seq!['g', 'z']);
        assert(bz2@ =~= seq!['b', 'z', '2']);
        assert(xz@ =~= seq!['x', 'z']);
    }
    let lo = i + 1;
    range_eq_fold(&v, lo, n, &zip) || range_eq_fold(&v, lo, n, &sz) || range_eq_fold(&v, lo, n, &rar)
        || range_eq_fold(&v, lo, n, &tar) || range_eq_fold(&v, lo, n, &gz) || range_eq_fold(&v, lo, n, &bz2)
        || range_eq_fold(&v, lo, n, &xz)
}

fn range_eq_fold_exact(v: &Vec<char>, p: &Vec<char>) -> (r: bool)
    ensures
        r == (v@ == p@),
{
    let r = range_has_prefix(v, 0, v.len(), p);
    assert(v@.subrange(0, v.len() as int) =~= v@);
    if r && v.len() == p.len() {
        assert(v@ =~= p@);
        true
    } else {
        false
    }
}

/// Whether a directory entry is left out when deciding whether a directory
/// holds a single sub-directory: names starting with `.`, and
/// `thumbs.db` and `desktop.ini` in any ASCII case.
pub fn is_ignored_entry_name(name: &str) -> (r: bool)
    ensures
        r == is_ignored_entry(name@),
{
    let v = chars_of(name);
    let n = v.len();
    assert(v@.subrange(0, n as int) =~= v@);
    let thumbs = chars_of("thumbs.db");
    let desktop = chars_of("desktop.ini");
    proof {
        reveal_strlit("thumbs.db");
        reveal_strlit("desktop.ini");
    }
    (n > 0 && v[0] == '.') || range_eq_fold(&v, 0, n, &thumbs) || range_eq_fold(&v, 0, n, &desktop)
}

/// The entry that a directory would be flattened into: the only entry that
/// is not ignored, if there is exactly one.
pub fn flatten_candidate(names: &Vec<String>) -> (r: Option<usize>)
    ensures
        match r {
            Some(i) => only_counted_entry(strings_view(names@), i as int),
            None => forall|i: int| !#[trigger] only_counted_entry(strings_view(names@), i),
        },
{
    let ghost ns = strings_view(names@);
    let mut found: Option<usize> = None;
    let mut k: usize = 0;
    while k < names.len()
        invariant
            ns == strings_view(names@),
            k <= names.len(),
            match found {
                Some(i) => i < k && !is_ignored_entry(ns[i as int]) && forall|j: int| 0 <= j < k && j != i ==> is_ignored_entry(#[trigger] ns[j]),
                None => forall|j: int| 0 <= j < k ==> is_ignored_entry(#[trigger] ns[j]),
            },
        decreases names.len() - k,
    {
        if !is_ignored_entry_name(names[k].as_str()) {
            match found {
                Some(i) => {
                    assert(!is_ignored_entry(ns[k as int]));
                    assert forall|x: int| !#[trigger] only_counted_entry(ns, x) by {
                        if only_counted_entry(ns, x) {
                            if x != i as int {
                                assert(is_ignored_entry(ns[i as int]));
                            } else {
                                assert(is_ignored_entry(ns[k as int]));
                            }
                        }
                    }
                    return None;
                },
                None => {
                    found = Some(k);
                },
            }
        }
        k = k + 1;
    }
    match found {
        Some(i) => Some(i),
        None => {
            assert forall|x: int| !#[trigger] only_counted_entry(ns, x) by {
                if only_counted_entry(ns, x) {
                    assert(is_ignored_entry(ns[x]));
                }
            }
            None
        },
    }
}

/// The directory entries that do not count when flattening are exactly
/// those whose name starts with `.`, or is `thumbs.db` or `desktop.ini` in
/// any ASCII case; every other name counts.
pub proof fn lemma_ignored_entries(name: Seq<char>)
    ensures
        is_ignored_entry(name) <==> {
            ||| name.len() > 0 && name[0] == '.'
            ||| eq_fold(name, "thumbs.db"@)
            ||| eq_fold(name, "desktop.ini"@)
        },
{
    reveal_strlit("thumbs.db");
    reveal_strlit("desktop.ini");
    assert("thumbs.db"@ =~= seq!['t', 'h', 'u', 'm', 'b', 's', '.', 'd', 'b']);
    assert("desktop.ini"@ =~= seq!['d', 'e', 's', 'k', 't', 'o', 'p', '.', 'i', 'n', 'i']);
}

/// A file is taken for an archive exactly when its name has an extension
/// (text after a last `.` that is not the first character) that is `zip`,
/// `7z`, `rar`, `tar`, `gz`, `bz2` or `xz` in any ASCII case; no other
/// extension is accepted.
pub proof fn lemma_archive_names(name: Seq<char>)
    ensures
        is_archive_name(name) <==> (extension(name) matches Some(e) && {
            ||| eq_fold(e, "zip"@)
            ||| eq_fold(e, "7z"@)
            ||| eq_fold(e, "rar"@)
            ||| eq_fold(e, "tar"@)
            ||| eq_fold(e, "gz"@)
            ||| eq_fold(e, "bz2"@)
            ||| eq_fold(e, "xz"@)
        }),
        extension(name) matches Some(e) ==> (0 < last_index_of(name, '.') && e == name.skip(last_index_of(name, '.') + 1)),
{
    reveal_strlit("zip");
    reveal_strlit("7z");
    reveal_strlit("rar");
    reveal_strlit("tar");
    reveal_strlit("gz");
    reveal_strlit("bz2");
    reveal_strlit("xz");
    assert("zip"@ =~= seq!['z', 'i', 'p']);
    assert("7z"@ =~= seq!['7', 'z']);
    assert("rar"@ =~= seq!['r', 'a', 'r']);
    assert("tar"@ =~= seq!['t', 'a', 'r']);
    assert("gz"@ =~= seq!['g', 'z']);
    assert("bz2"@ =~= seq!['b', 'z', '2']);
    assert("xz"@ =~= seq!['x', 'z']);
}

} // verus!

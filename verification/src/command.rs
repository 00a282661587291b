//! The command lines given to the archivers, and the registry records
//! that say where they are installed.
use vstd::prelude::*;
use crate::names::{clean_registry_value, cleaned_registry_value};
use crate::text::{chars_of, range_has_prefix, decimal, decimal_string};

verus! {

/// The password argument, if there is a password.
pub open spec fn password_arg(flag: Seq<char>, password: Option<Seq<char>>) -> Seq<Seq<char>> {
    match password {
        Some(p) => seq![flag + p],
        None => seq![],
    }
}

/// The arguments of a 7-Zip extraction: extract with paths into
/// `out_dir`, answer yes to every question, send output and errors to
/// standard output and progress to standard error, with the password if
/// there is one.
pub open spec fn seven_zip_extract_args(archive: Seq<char>, out_dir: Seq<char>, password: Option<Seq<char>>) -> Seq<Seq<char>> {
    seq!["x"@, archive, "-o"@ + out_dir, "-y"@, "-bso1"@, "-bse1"@, "-bsp2"@] + password_arg("-p"@, password)
}

/// The arguments of a Bandizip extraction into `out_dir`.
pub open spec fn bandizip_extract_args(archive: Seq<char>, out_dir: Seq<char>, password: Option<Seq<char>>) -> Seq<Seq<char>> {
    seq!["x"@, "-o:"@ + out_dir, "-y"@] + password_arg("-p:"@, password) + seq![archive]
}

/// The arguments of a Bandizip listing.
pub open spec fn bandizip_list_args(archive: Seq<char>, password: Option<Seq<char>>) -> Seq<Seq<char>> {
    seq!["l"@] + password_arg("-p:"@, password) + seq![archive]
}

/// The text of an optional string reference.
pub open spec fn opt_str_view(o: Option<&str>) -> Option<Seq<char>> {
    match o {
        Some(s) => Some(s@),
        None => None,
    }
}

fn concat(a: &str, b: &str) -> (r: String)
    ensures
        r@ == a@ + b@,
{
    let mut r = String::from_str(a);
    r.append(b);
    r
}

fn push_password(args: &mut Vec<String>, flag: &str, password: Option<&str>)
    ensures
        crate::text::strings_view(final(args)@) == crate::text::strings_view(old(args)@) + password_arg(flag@, opt_str_view(password)),
{
    let ghost a0 = crate::text::strings_view(args@);
    match password {
        Some(p) => {
            args.push(concat(flag, p));
            assert(crate::text::strings_view(args@) =~= a0 + seq![flag@ + p@]);
        },
        None => {
            assert(crate::text::strings_view(args@) =~= a0 + seq![]);
        },
    }
}

fn push_string(args: &mut Vec<String>, s: String)
    ensures
        crate::text::strings_view(final(args)@) == crate::text::strings_view(old(args)@).push(s@),
{
    let ghost sv = s@;
    args.push(s);
    assert(crate::text::strings_view(args@) =~= crate::text::strings_view(old(args)@).push(sv));
}

fn push_str(args: &mut Vec<String>, s: &str)
    ensures
        crate::text::strings_view(final(args)@) == crate::text::strings_view(old(args)@).push(s@),
{
    args.push(String::from_str(s));
    assert(crate::text::strings_view(args@) =~= crate::text::strings_view(old(args)@).push(s@));
}

/// The arguments of a 7-Zip extraction.
pub fn seven_zip_extract_command(archive: &str, out_dir: &str, password: Option<&str>) -> (r: Vec<String>)
    ensures
        crate::text::strings_view(r@) == seven_zip_extract_args(archive@, out_dir@, opt_str_view(password)),
{
    let mut args: Vec<String> = Vec::new();
    push_str(&mut args, "x");
    push_str(&mut args, archive);
    push_string(&mut args, concat("-o", out_dir));
    let ghost a3 = crate::text::strings_view(args@);
    push_str(&mut args, "-y");
    push_str(&mut args, "-bso1");
    push_str(&mut args, "-bse1");
    push_str(&mut args, "-bsp2");
    push_password(&mut args, "-p", password);
    assert(crate::text::strings_view(args@) =~= seven_zip_extract_args(archive@, out_dir@, opt_str_view(password)));
    args
}

/// The arguments of a Bandizip extraction.
pub fn bandizip_extract_command(archive: &str, out_dir: &str, password: Option<&str>) -> (r: Vec<String>)
    ensures
        crate::text::strings_view(r@) == bandizip_extract_args(archive@, out_dir@, opt_str_view(password)),
{
    let mut args: Vec<String> = Vec::new();
    push_str(&mut args, "x");
    push_string(&mut args, concat("-o:", out_dir));
    push_str(&mut args, "-y");
    push_password(&mut args, "-p:", password);
    push_str(&mut args, archive);
    assert(crate::text::strings_view(args@) =~= bandizip_extract_args(archive@, out_dir@, opt_str_view(password)));
    args
}

/// The arguments of a Bandizip listing.
pub fn bandizip_list_command(archive: &str, password: Option<&str>) -> (r: Vec<String>)
    ensures
        crate::text::strings_view(r@) == bandizip_list_args(archive@, opt_str_view(password)),
{
    let mut args: Vec<String> = Vec::new();
    push_str(&mut args, "l");
    push_password(&mut args, "-p:", password);
    push_str(&mut args, archive);
    assert(crate::text::strings_view(args@) =~= bandizip_list_args(archive@, opt_str_view(password)));
    args
}

/// The name of a temporary directory used while flattening, made from a
/// time stamp in nanoseconds.
pub open spec fn temp_flatten_name_of(nanos: nat) -> Seq<char> {
    "temp_flatten_"@ + decimal(nanos)
}

/// The name of a temporary directory used while flattening.
pub fn temp_flatten_name(nanos: u128) -> (r: String)
    ensures
        r@ == temp_flatten_name_of(nanos as nat),
{
    concat("temp_flatten_", decimal_string(nanos).as_str())
}

/// A registry hive.
#[derive(PartialEq, Eq, Structural, Clone, Copy)]
pub enum RegistryRoot {
    LocalMachine,
    CurrentUser,
}

/// The hive and sub-key of a full registry key: the text before the first
/// backslash names the hive (`HKLM` or `HKEY_LOCAL_MACHINE`, `HKCU` or
/// `HKEY_CURRENT_USER`), the rest is the sub-key.
pub open spec fn registry_key_parts(full: Seq<char>) -> Option<(RegistryRoot, Seq<char>)> {
    if exists|i: int| 0 <= i < full.len() && full[i] == '\\' {
        let i = choose|i: int| 0 <= i < full.len() && full[i] == '\\' && forall|j: int| 0 <= j < i ==> full[j] != '\\';
        let root = full.take(i);
        let sub = full.skip(i + 1);
        if root == "HKLM"@ || root == "HKEY_LOCAL_MACHINE"@ {
            Some((RegistryRoot::LocalMachine, sub))
        } else if root == "HKCU"@ || root == "HKEY_CURRENT_USER"@ {
            Some((RegistryRoot::CurrentUser, sub))
        } else {
            None
        }
    } else {
        None
    }
}

fn range_eq(v: &Vec<char>, lo: usize, hi: usize, p: &str) -> (r: bool)
    requires
        lo <= hi <= v.len(),
    ensures
        r == (v@.subrange(lo as int, hi as int) == p@),
{
    let pv = chars_of(p);
    if pv.len() != hi - lo {
        return false;
    }
    let r = range_has_prefix(v, lo, hi, &pv);
    assert(v@.subrange(lo as int, hi as int).take(pv.len() as int) =~= v@.subrange(lo as int, hi as int));
    r
}

/// Splits a full registry key into its hive and sub-key.
pub fn split_registry_key(full: &str) -> (r: Option<(RegistryRoot, String)>)
    ensures
        match r {
            Some((root, sub)) => registry_key_parts(full@) == Some((root, sub@)),
            None => registry_key_parts(full@) is None,
        },
{
    let v = chars_of(full);
    let n = v.len();
    let mut i: usize = 0;
    while i < n && v[i] != '\\'
        invariant
            i <= n == v.len(),
            v@ == full@,
            forall|j: int| 0 <= j < i ==> v@[j] != '\\',
        decreases n - i,
    {
        i = i + 1;
    }
    if i == n {
        assert(!(exists|k: int| 0 <= k < full@.len() && full@[k] == '\\'));
        return None;
    }
    let ghost c = choose|k: int| 0 <= k < full@.len() && full@[k] == '\\' && forall|j: int| 0 <= j < k ==> full@[j] != '\\';
    assert(0 <= i < full@.len() && full@[i as int] == '\\' && forall|j: int| 0 <= j < i ==> full@[j] != '\\');
    assert(c == i) by {
        if c < i {
            assert(full@[c] != '\\');
        }
        if c > i {
            assert(full@[i as int] != '\\');
        }
    }
    assert(v@.subrange(0, i as int) =~= full@.take(i as int));
    let sub = String::from_str(full.substring_char(i + 1, n));
    assert(sub@ =~= full@.skip(i + 1));
    if range_eq(&v, 0, i, "HKLM") || range_eq(&v, 0, i, "HKEY_LOCAL_MACHINE") {
        Some((RegistryRoot::LocalMachine, sub))
    } else if range_eq(&v, 0, i, "HKCU") || range_eq(&v, 0, i, "HKEY_CURRENT_USER") {
        Some((RegistryRoot::CurrentUser, sub))
    } else {
        None
    }
}

/// What `String::from_utf16` makes of `units`: the text, or `None` when
/// they hold an unpaired surrogate.
pub uninterp spec fn utf16_text(units: Seq<u16>) -> Option<Seq<char>>;

/// `String::from_utf16`. Trusted, not proved: its outcome is `utf16_text`
/// of the units.
#[verifier::external_body]
fn decode_utf16(units: &[u16]) -> (r: Option<String>)
    ensures
        match r {
            Some(s) => utf16_text(units@) == Some(s@),
            None => utf16_text(units@) is None,
        },
{
    String::from_utf16(units).ok()
}

/// The UTF-16 units stored little-endian in `data`, an odd last byte
/// dropped.
pub open spec fn units_of(data: Seq<u8>) -> Seq<u16> {
    Seq::new(data.len() / 2, |i: int| (data[2 * i] as u16 + 256 * (data[2 * i + 1] as u16)) as u16)
}

/// The units before the first NUL.
pub open spec fn until_nul(u: Seq<u16>) -> Seq<u16> {
    if exists|i: int| 0 <= i < u.len() && u[i] == 0 {
        u.take(choose|i: int| 0 <= i < u.len() && u[i] == 0 && forall|j: int| 0 <= j < i ==> u[j] != 0)
    } else {
        u
    }
}

/// The text of a string value read from the registry (`REG_SZ` or
/// `REG_EXPAND_SZ`, UTF-16 in the byte order of Windows machines): `None`
/// when it is empty or does not decode; else its text up to the first NUL,
/// cleaned.
pub open spec fn registry_text(data: Seq<u8>) -> Option<Seq<char>> {
    let u = units_of(data);
    if u.len() == 0 {
        None
    } else {
        match utf16_text(until_nul(u)) {
            Some(t) => Some(cleaned_registry_value(t)),
            None => None,
        }
    }
}

fn unit_at(data: &[u8], i: usize) -> (w: u16)
    requires
        i < data@.len() / 2,
    ensures
        w == units_of(data@)[i as int],
{
    let len = data.len();
    assert(2 * i + 1 < data@.len()) by (nonlinear_arith)
        requires
            i < data@.len() / 2,
    ;
    let j: usize = i + i;
    let lo = data[j] as u16;
    let hi = data[j + 1] as u16;
    lo + 256 * hi
}

/// The text of a string value read from the registry.
pub fn registry_string(data: &[u8]) -> (r: Option<String>)
    ensures
        match r {
            Some(s) => registry_text(data@) == Some(s@),
            None => registry_text(data@) is None,
        },
{
    let n = data.len() / 2;
    if n == 0 {
        return None;
    }
    let ghost u = units_of(data@);
    let mut units: Vec<u16> = Vec::new();
    let mut i: usize = 0;
    let mut w = unit_at(data, 0);
    while i < n && w != 0
        invariant
            n == data@.len() / 2,
            u == units_of(data@),
            i <= n,
            i < n ==> w == u[i as int],
            units@ == u.take(i as int),
            forall|j: int| 0 <= j < i ==> u[j] != 0,
        decreases n - i,
    {
        units.push(w);
        assert(units@ =~= u.take(i + 1));
        i = i + 1;
        if i < n {
            w = unit_at(data, i);
        }
    }
    proof {
        if i == n {
            assert(u.take(n as int) =~= u);
            assert(until_nul(u) == u);
        } else {
            let c = choose|k: int| 0 <= k < u.len() && u[k] == 0 && forall|j: int| 0 <= j < k ==> u[j] != 0;
            assert(0 <= i < u.len() && u[i as int] == 0);
            assert(c == i) by {
                if c < i {
                    assert(u[c] != 0);
                }
                if c > i {
                    assert(u[i as int] != 0);
                }
            }
        }
    }
    match decode_utf16(units.as_slice()) {
        Some(s) => Some(clean_registry_value(s.as_str())),
        None => None,
    }
}

} // verus!

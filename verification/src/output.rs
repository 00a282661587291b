//! Reading what the archivers print: the percentage in 7-Zip's progress
//! lines, the file count in Bandizip's listing, and which of Bandizip's
//! lines name extracted files.
use vstd::prelude::*;
use crate::text::{chars_of, has_prefix, occurs_at, range_has_prefix, range_occurs_at};

verus! {

/// An ASCII digit.
pub open spec fn is_digit(c: char) -> bool {
    '0' <= c && c <= '9'
}

/// Number of ASCII digits at the end of `s`.
pub open spec fn digit_suffix_len(s: Seq<char>) -> nat
    decreases s.len(),
{
    if s.len() > 0 && is_digit(s.last()) {
        1 + digit_suffix_len(s.drop_last())
    } else {
        0
    }
}

/// Number of spaces (U+0020) at the end of `s`.
pub open spec fn space_suffix_len(s: Seq<char>) -> nat
    decreases s.len(),
{
    if s.len() > 0 && s.last() == ' ' {
        1 + space_suffix_len(s.drop_last())
    } else {
        0
    }
}

/// The number written just before the end of `s`: spaces at the very end
/// are passed over, then the run of digits is taken; `None` when there is
/// no digit there.
pub open spec fn number_before(s: Seq<char>) -> Option<Seq<char>> {
    let t = s.take(s.len() - space_suffix_len(s));
    let k = digit_suffix_len(t);
    if k > 0 {
        Some(t.skip(t.len() - k))
    } else {
        None
    }
}

/// The first position at or after `i` where `p` occurs in `s`.
pub open spec fn find_from(s: Seq<char>, p: Seq<char>, i: int) -> Option<int>
    decreases s.len() - i,
{
    if i < 0 || i + p.len() > s.len() {
        None
    } else if occurs_at(s, p, i) {
        Some(i)
    } else if i >= s.len() {
        None
    } else {
        find_from(s, p, i + 1)
    }
}

/// A position found is one where `p` occurs, at or after the start.
pub proof fn lemma_find_from(s: Seq<char>, p: Seq<char>, i: int)
    ensures
        find_from(s, p, i) matches Some(j) ==> i <= j && j + p.len() <= s.len() && occurs_at(s, p, j),
    decreases s.len() - i,
{
    if i < 0 || i + p.len() > s.len() {
    } else if occurs_at(s, p, i) {
    } else if i >= s.len() {
    } else {
        lemma_find_from(s, p, i + 1);
    }
}

/// The first position where `p` occurs in `s` (`str::find`, counted in
/// characters).
pub open spec fn find(s: Seq<char>, p: Seq<char>) -> Option<int> {
    find_from(s, p, 0)
}

/// The digits of the percentage in a line of 7-Zip's progress output: the
/// number just before the first `%`.
pub open spec fn percent_digits_of(line: Seq<char>) -> Option<Seq<char>> {
    match find(line, seq!['%']) {
        Some(i) => number_before(line.take(i)),
        None => None,
    }
}

/// The value of a string of decimal digits.
pub open spec fn digits_value(d: Seq<char>) -> nat
    decreases d.len(),
{
    if d.len() == 0 {
        0
    } else {
        digits_value(d.drop_last()) * 10 + ((d.last() as u32) - 48) as nat
    }
}

/// Where the file count ends in a line of Bandizip's listing: the first of
/// ` files,`, ` files`, ` file(s)` and ` 个文件` that occurs, tried in that
/// order.
pub open spec fn count_marker(line: Seq<char>) -> Option<int> {
    match find(line, " files,"@) {
        Some(i) => Some(i),
        None => match find(line, " files"@) {
            Some(i) => Some(i),
            None => match find(line, " file(s)"@) {
                Some(i) => Some(i),
                None => find(line, " 个文件"@),
            },
        },
    }
}

/// The file count in one line of Bandizip's listing, if it holds one that
/// fits a `usize`.
pub open spec fn line_file_count(line: Seq<char>) -> Option<nat> {
    match count_marker(line) {
        Some(i) => match number_before(line.take(i)) {
            Some(d) => if digits_value(d) <= usize::MAX {
                Some(digits_value(d))
            } else {
                None
            },
            None => None,
        },
        None => None,
    }
}

/// The pieces of `s` that end at each `\n` (the `\n` included), and the
/// rest, if any (`str::split_inclusive`).
pub open spec fn split_inclusive_nl(s: Seq<char>) -> Seq<Seq<char>>
    decreases s.len(),
{
    if s.len() == 0 {
        seq![]
    } else {
        match find(s, seq!['\n']) {
            Some(i) => {
                proof {
                    lemma_find_from(s, seq!['\n'], 0);
                }
                seq![s.take(i + 1)] + split_inclusive_nl(s.skip(i + 1))
            },
            None => seq![s],
        }
    }
}

/// A piece without its line ending: `\n`, or `\r\n`.
pub open spec fn strip_line_end(piece: Seq<char>) -> Seq<char> {
    if piece.len() > 0 && piece.last() == '\n' {
        let q = piece.drop_last();
        if q.len() > 0 && q.last() == '\r' {
            q.drop_last()
        } else {
            q
        }
    } else {
        piece
    }
}

/// The lines of `s` (`str::lines`).
pub open spec fn lines(s: Seq<char>) -> Seq<Seq<char>> {
    split_inclusive_nl(s).map_values(|p: Seq<char>| strip_line_end(p))
}

/// The file count of the last line that holds one.
pub open spec fn last_file_count(ls: Seq<Seq<char>>) -> Option<nat>
    decreases ls.len(),
{
    if ls.len() == 0 {
        None
    } else {
        match line_file_count(ls.last()) {
            Some(n) => Some(n),
            None => last_file_count(ls.drop_last()),
        }
    }
}

/// Whether a trimmed line of Bandizip's extraction output is a banner,
/// header or message rather than the name of an extracted file.
pub open spec fn is_info_line(t: Seq<char>) -> bool {
    ||| has_prefix(t, "bz "@)
    ||| has_prefix(t, "Extracting archive:"@)
    ||| has_prefix(t, "bc "@)
    ||| has_prefix(t, "ERROR"@)
    ||| has_prefix(t, "Error"@)
    ||| crate::text::contains(t, "Password required"@)
    ||| has_prefix(t, "----"@)
    ||| has_prefix(t, "Date  Time"@)
    ||| has_prefix(t, "Listing archive:"@)
    ||| has_prefix(t, "Archive format:"@)
}

fn is_digit_exec(c: char) -> (r: bool)
    ensures
        r == is_digit(c),
{
    '0' <= c && c <= '9'
}

proof fn lemma_suffix_len_digits(s: Seq<char>, k: int)
    requires
        0 <= k <= s.len(),
        forall|i: int| k <= i < s.len() ==> is_digit(#[trigger] s[i]),
        k == 0 || !is_digit(s[k - 1]),
    ensures
        digit_suffix_len(s) == s.len() - k,
    decreases s.len() - k,
{
    if k < s.len() {
        let t = s.drop_last();
        assert forall|i: int| k <= i < t.len() implies is_digit(#[trigger] t[i]) by {
            assert(t[i] == s[i]);
        }
        if k > 0 {
            assert(t[k - 1] == s[k - 1]);
        }
        lemma_suffix_len_digits(t, k);
    }
}

proof fn lemma_suffix_len_spaces(s: Seq<char>, k: int)
    requires
        0 <= k <= s.len(),
        forall|i: int| k <= i < s.len() ==> #[trigger] s[i] == ' ',
        k == 0 || s[k - 1] != ' ',
    ensures
        space_suffix_len(s) == s.len() - k,
    decreases s.len() - k,
{
    if k < s.len() {
        let t = s.drop_last();
        assert forall|i: int| k <= i < t.len() implies #[trigger] t[i] == ' ' by {
            assert(t[i] == s[i]);
        }
        if k > 0 {
            assert(t[k - 1] == s[k - 1]);
        }
        lemma_suffix_len_spaces(t, k);
    }
}

/// Bounds of the number just before position `hi` in `v`, from `lo`.
fn number_before_range(v: &Vec<char>, lo: usize, hi: usize) -> (r: Option<(usize, usize)>)
    requires
        lo <= hi <= v.len(),
    ensures
        match r {
            Some((a, b)) => lo <= a < b <= hi && number_before(v@.subrange(lo as int, hi as int)) == Some(
                v@.subrange(a as int, b as int),
            ),
            None => number_before(v@.subrange(lo as int, hi as int)) is None,
        },
{
    let ghost s = v@.subrange(lo as int, hi as int);
    let mut b = hi;
    while b > lo && v[b - 1] == ' '
        invariant
            lo <= b <= hi <= v.len(),
            forall|i: int| b <= i < hi ==> #[trigger] v@[i] == ' ',
        decreases b - lo,
    {
        b = b - 1;
    }
    proof {
        assert forall|i: int| b - lo <= i < s.len() implies #[trigger] s[i] == ' ' by {
            assert(s[i] == v@[lo + i]);
        }
        if b > lo {
            assert(s[b - lo - 1] == v@[b - 1]);
        }
        lemma_suffix_len_spaces(s, b - lo);
    }
    let ghost t = s.take(b - lo);
    assert(t =~= v@.subrange(lo as int, b as int));
    let mut a = b;
    while a > lo && is_digit_exec(v[a - 1])
        invariant
            lo <= a <= b,
            b <= hi <= v.len(),
            forall|i: int| a <= i < b ==> is_digit(#[trigger] v@[i]),
        decreases a - lo,
    {
        a = a - 1;
    }
    proof {
        assert forall|i: int| a - lo <= i < t.len() implies is_digit(#[trigger] t[i]) by {
            assert(t[i] == v@[lo + i]);
        }
        if a > lo {
            assert(t[a - lo - 1] == v@[a - 1]);
        }
        lemma_suffix_len_digits(t, a - lo);
    }
    if a < b {
        assert(t.skip(a - lo) =~= v@.subrange(a as int, b as int));
        Some((a, b))
    } else {
        None
    }
}

/// The first position at or after `k` (relative to `lo`) where `p` occurs
/// in `v[lo..hi]`.
fn find_in_range(v: &Vec<char>, lo: usize, hi: usize, p: &Vec<char>) -> (r: Option<usize>)
    requires
        lo <= hi <= v.len(),
    ensures
        match r {
            Some(i) => i <= hi - lo && find(v@.subrange(lo as int, hi as int), p@) == Some(i as int),
            None => find(v@.subrange(lo as int, hi as int), p@) is None,
        },
{
    let ghost s = v@.subrange(lo as int, hi as int);
    if p.len() > hi - lo {
        return None;
    }
    let mut k: usize = 0;
    loop
        invariant
            lo <= hi <= v.len(),
            p@.len() <= hi - lo,
            s == v@.subrange(lo as int, hi as int),
            k + p@.len() <= hi - lo,
            find(s, p@) == find_from(s, p@, k as int),
        decreases hi - lo - k,
    {
        if range_occurs_at(v, lo, hi, p, k, false) {
            return Some(k);
        }
        if k + p.len() == hi - lo {
            assert(find_from(s, p@, k + 1) is None);
            return None;
        }
        k = k + 1;
    }
}

/// The digits of the percentage in a line of 7-Zip's progress output: the
/// number written just before the first `%` (spaces between the two are
/// passed over).
pub fn percent_digits(line: &str) -> (r: Option<String>)
    ensures
        match r {
            Some(d) => percent_digits_of(line@) == Some(d@),
            None => percent_digits_of(line@) is None,
        },
{
    let v = chars_of(line);
    let pct = chars_of("%");
    proof {
        reveal_strlit("%");
        assert(v@.subrange(0, v.len() as int) =~= line@);
        assert(pct@ =~= seq!['%']);
    }
    match find_in_range(&v, 0, v.len(), &pct) {
        None => None,
        Some(i) => {
            assert(v@.subrange(0, i as int) =~= line@.take(i as int));
            match number_before_range(&v, 0, i) {
                None => None,
                Some((a, b)) => Some(String::from_str(line.substring_char(a, b))),
            }
        },
    }
}

} // verus!

verus! {

proof fn lemma_digits_value_monotone(d: Seq<char>, j: int)
    requires
        0 <= j <= d.len(),
        forall|i: int| 0 <= i < d.len() ==> is_digit(#[trigger] d[i]),
    ensures
        digits_value(d.take(j)) <= digits_value(d),
    decreases d.len() - j,
{
    if j < d.len() {
        let t = d.take(j + 1);
        assert(t.drop_last() =~= d.take(j));
        assert(t.last() == d[j]);
        assert(is_digit(d[j]));
        assert(digits_value(t) == digits_value(d.take(j)) * 10 + ((t.last() as u32) - 48) as nat);
        assert forall|i: int| 0 <= i < d.len() - 1 implies is_digit(#[trigger] d.drop_last()[i]) by {
            assert(d.drop_last()[i] == d[i]);
        }
        lemma_digits_value_monotone(d, j + 1);
    } else {
        assert(d.take(j) =~= d);
    }
}

/// The value of the digits `v[a..b]`, when it fits a `usize`.
fn digits_to_usize(v: &Vec<char>, a: usize, b: usize) -> (r: Option<usize>)
    requires
        a <= b <= v.len(),
        forall|i: int| a <= i < b ==> is_digit(#[trigger] v@[i]),
    ensures
        match r {
            Some(x) => digits_value(v@.subrange(a as int, b as int)) == x,
            None => digits_value(v@.subrange(a as int, b as int)) > usize::MAX,
        },
{
    let ghost d = v@.subrange(a as int, b as int);
    assert forall|i: int| 0 <= i < d.len() implies is_digit(#[trigger] d[i]) by {
        assert(d[i] == v@[a + i]);
    }
    let mut acc: usize = 0;
    let mut k = a;
    assert(d.take(0) =~= seq![]);
    while k < b
        invariant
            a <= k <= b <= v.len(),
            d == v@.subrange(a as int, b as int),
            forall|i: int| 0 <= i < d.len() ==> is_digit(#[trigger] d[i]),
            acc == digits_value(d.take(k - a)),
        decreases b - k,
    {
        let ghost t = d.take(k - a + 1);
        assert(t.drop_last() =~= d.take(k - a));
        assert(t.last() == v@[k as int]);
        assert(is_digit(d[k - a]));
        let digit = (v[k] as u32 - 48) as usize;
        match acc.checked_mul(10) {
            None => {
                proof {
                    lemma_digits_value_monotone(d, k - a + 1);
                }
                return None;
            },
            Some(m) => match m.checked_add(digit) {
                None => {
                    proof {
                        lemma_digits_value_monotone(d, k - a + 1);
                    }
                    return None;
                },
                Some(x) => {
                    acc = x;
                },
            },
        }
        k = k + 1;
    }
    assert(d.take(b - a) =~= d);
    Some(acc)
}

/// The file count in the line `v[a..b]`, if it holds one.
fn line_count_in(v: &Vec<char>, a: usize, b: usize, markers: &Vec<Vec<char>>) -> (r: Option<usize>)
    requires
        a <= b <= v.len(),
        markers@.len() == 4,
        markers@[0]@ == " files,"@,
        markers@[1]@ == " files"@,
        markers@[2]@ == " file(s)"@,
        markers@[3]@ == " 个文件"@,
    ensures
        match r {
            Some(x) => line_file_count(v@.subrange(a as int, b as int)) == Some(x as nat),
            None => line_file_count(v@.subrange(a as int, b as int)) is None,
        },
{
    let ghost line = v@.subrange(a as int, b as int);
    let mut m: Option<usize> = None;
    let mut k: usize = 0;
    while k < 4
        invariant
            a <= b <= v.len(),
            markers@.len() == 4,
            markers@[0]@ == " files,"@,
            markers@[1]@ == " files"@,
            markers@[2]@ == " file(s)"@,
            markers@[3]@ == " 个文件"@,
            line == v@.subrange(a as int, b as int),
            k <= 4,
            m is None ==> forall|j: int| 0 <= j < k ==> find(line, #[trigger] markers@[j]@) is None,
            m matches Some(i) ==> i <= b - a && count_marker(line) == Some(i as int),
            m is Some ==> k == 4,
        decreases 4 - k,
    {
        match find_in_range(v, a, b, &markers[k]) {
            Some(i) => {
                m = Some(i);
                k = 4;
            },
            None => {
                k = k + 1;
            },
        }
    }
    match m {
        None => {
            assert(find(line, markers@[0]@) is None);
            assert(find(line, markers@[1]@) is None);
            assert(find(line, markers@[2]@) is None);
            assert(find(line, markers@[3]@) is None);
            None
        },
        Some(i) => {
            assert(line.take(i as int) =~= v@.subrange(a as int, (a + i) as int));
            match number_before_range(v, a, a + i) {
                None => None,
                Some((x, y)) => {
                    assert forall|j: int| x <= j < y implies is_digit(#[trigger] v@[j]) by {
                        let t = line.take(i as int);
                        let t2 = t.take(t.len() - space_suffix_len(t));
                        let kk = digit_suffix_len(t2);
                        lemma_digits_suffix(t2);
                        assert(v@.subrange(x as int, y as int) == t2.skip(t2.len() - kk));
                        assert(v@.subrange(x as int, y as int)[j - x] == v@[j]);
                    }
                    digits_to_usize(v, x, y)
                },
            }
        },
    }
}

proof fn lemma_digits_suffix(s: Seq<char>)
    ensures
        digit_suffix_len(s) <= s.len(),
        forall|i: int| s.len() - digit_suffix_len(s) <= i < s.len() ==> is_digit(#[trigger] s[i]),
    decreases s.len(),
{
    if s.len() > 0 && is_digit(s.last()) {
        let t = s.drop_last();
        lemma_digits_suffix(t);
        assert forall|i: int| s.len() - digit_suffix_len(s) <= i < s.len() implies is_digit(#[trigger] s[i]) by {
            if i < s.len() - 1 {
                assert(s[i] == t[i]);
            }
        }
    }
}

/// A pair of bounds within `0..=n`, in order.
pub open spec fn range_fits(r: (usize, usize), n: int) -> bool {
    r.0 <= r.1 && r.1 <= n
}

/// The bounds of the lines of `v`.
fn line_bounds(v: &Vec<char>) -> (ranges: Vec<(usize, usize)>)
    ensures
        ranges@.len() == lines(v@).len(),
        forall|k: int| 0 <= k < ranges@.len() ==> #[trigger] range_fits(ranges@[k], v@.len() as int),
        forall|k: int| 0 <= k < ranges@.len() ==> #[trigger] lines(v@)[k] == v@.subrange(ranges@[k].0 as int, ranges@[k].1 as int),
{
    let n = v.len();
    let nl = chars_of("\n");
    proof {
        reveal_strlit("\n");
        assert(nl@ =~= seq!['\n']);
    }
    let ghost s = v@;
    let mut ranges: Vec<(usize, usize)> = Vec::new();
    let ghost mut done: Seq<Seq<char>> = seq![];
    let mut pos: usize = 0;
    assert(s.skip(0) =~= s);
    while pos < n
        invariant
            n == v.len(),
            s == v@,
            nl@ == seq!['\n'],
            pos <= n,
            ranges@.len() == done.len(),
            forall|k: int| 0 <= k < ranges@.len() ==> #[trigger] range_fits(ranges@[k], n as int),
            forall|k: int| 0 <= k < ranges@.len() ==> #[trigger] done[k] == v@.subrange(ranges@[k].0 as int, ranges@[k].1 as int),
            lines(s) == done + lines(s.skip(pos as int)),
        decreases n - pos,
    {
        let ghost rest = s.skip(pos as int);
        assert(rest =~= v@.subrange(pos as int, n as int));
        match find_in_range(v, pos, n, &nl) {
            Some(i) => {
                proof {
                    lemma_find_from(rest, seq!['\n'], 0);
                    assert(split_inclusive_nl(rest) == seq![rest.take(i + 1)] + split_inclusive_nl(rest.skip(i + 1)));
                    assert(rest.skip(i + 1) =~= s.skip(pos + i + 1));
                    assert(lines(rest) =~= seq![strip_line_end(rest.take(i + 1))] + lines(s.skip(pos + i + 1)));
                    assert(rest.subrange(i as int, i + 1)[0] == rest[i as int]);
                    assert(rest[i as int] == '\n');
                }
                let mut e = pos + i;
                if e > pos && v[e - 1] == '\r' {
                    e = e - 1;
                }
                proof {
                    let piece = rest.take(i + 1);
                    assert(piece.last() == '\n');
                    assert(piece.drop_last() =~= v@.subrange(pos as int, (pos + i) as int));
                    assert(strip_line_end(piece) =~= v@.subrange(pos as int, e as int));
                    done = done.push(v@.subrange(pos as int, e as int));
                }
                let ghost r0 = ranges@;
                ranges.push((pos, e));
                proof {
                    assert forall|k: int| 0 <= k < ranges@.len() implies #[trigger] range_fits(ranges@[k], n as int) && done[k] == v@.subrange(
                        ranges@[k].0 as int,
                        ranges@[k].1 as int,
                    ) by {
                        if k < r0.len() {
                            assert(ranges@[k] == r0[k]);
                        }
                    }
                }
                pos = pos + i + 1;
            },
            None => {
                proof {
                    assert(split_inclusive_nl(rest) == seq![rest]);
                    assert(lines(rest) =~= seq![strip_line_end(rest)]);
                    assert(find(rest, seq!['\n']) is None);
                    if rest.len() > 0 && rest.last() == '\n' {
                        assert(rest.subrange(rest.len() - 1, rest.len() as int) =~= seq!['\n']);
                        assert(occurs_at(rest, seq!['\n'], rest.len() - 1));
                        lemma_find_none(rest, seq!['\n'], rest.len() - 1, 0);
                    }
                    assert(strip_line_end(rest) == rest);
                    done = done.push(rest);
                    assert(s.skip(n as int) =~= seq![]);
                    assert(lines(s.skip(n as int)) =~= seq![]);
                }
                let ghost r0 = ranges@;
                ranges.push((pos, n));
                proof {
                    assert forall|k: int| 0 <= k < ranges@.len() implies #[trigger] range_fits(ranges@[k], n as int) && done[k] == v@.subrange(
                        ranges@[k].0 as int,
                        ranges@[k].1 as int,
                    ) by {
                        if k < r0.len() {
                            assert(ranges@[k] == r0[k]);
                        } else {
                            assert(rest =~= v@.subrange(pos as int, n as int));
                        }
                    }
                }
                pos = n;
            },
        }
    }
    proof {
        assert(s.skip(n as int) =~= seq![]);
        assert(lines(s.skip(n as int)) =~= seq![]);
        assert(lines(s) =~= done);
    }
    ranges
}

/// The number of files that Bandizip's listing `listing` announces: the
/// count in the last of its lines that holds one that fits a `usize`.
pub fn bandizip_file_count(listing: &str) -> (r: Option<usize>)
    ensures
        match r {
            Some(x) => last_file_count(lines(listing@)) == Some(x as nat),
            None => last_file_count(lines(listing@)) is None,
        },
{
    let v = chars_of(listing);
    let n = v.len();
    let mut markers: Vec<Vec<char>> = Vec::new();
    markers.push(chars_of(" files,"));
    markers.push(chars_of(" files"));
    markers.push(chars_of(" file(s)"));
    markers.push(chars_of(" 个文件"));
    let ranges = line_bounds(&v);
    let ghost done = lines(v@);
    let mut k = ranges.len();
    assert(done.take(k as int) =~= done);
    while k > 0
        invariant
            k <= ranges@.len(),
            ranges@.len() == done.len(),
            n == v.len(),
            forall|j: int| 0 <= j < ranges@.len() ==> #[trigger] range_fits(ranges@[j], n as int),
            forall|j: int| 0 <= j < ranges@.len() ==> #[trigger] done[j] == v@.subrange(ranges@[j].0 as int, ranges@[j].1 as int),
            lines(listing@) == done,
            last_file_count(done) == last_file_count(done.take(k as int)),
            markers@.len() == 4,
            markers@[0]@ == " files,"@,
            markers@[1]@ == " files"@,
            markers@[2]@ == " file(s)"@,
            markers@[3]@ == " 个文件"@,
        decreases k,
    {
        let (a, b) = ranges[k - 1];
        assert(range_fits(ranges@[k - 1], n as int));
        assert(done[k - 1] == v@.subrange(a as int, b as int));
        let ghost t = done.take(k as int);
        assert(t.drop_last() =~= done.take(k - 1));
        assert(t.last() == done[k - 1]);
        match line_count_in(&v, a, b, &markers) {
            Some(x) => {
                return Some(x);
            },
            None => {},
        }
        k = k - 1;
    }
    None
}

proof fn lemma_find_none(s: Seq<char>, p: Seq<char>, j: int, i: int)
    requires
        occurs_at(s, p, j),
        0 <= i <= j,
    ensures
        find_from(s, p, i) is Some,
    decreases j - i,
{
    if !occurs_at(s, p, i) {
        lemma_find_none(s, p, j, i + 1);
    }
}

/// Whether a trimmed line of Bandizip's extraction output is a banner,
/// header or message rather than the name of an extracted file.
pub fn is_info_line_text(t: &str) -> (r: bool)
    ensures
        r == is_info_line(t@),
{
    let v = chars_of(t);
    let n = v.len();
    assert(v@.subrange(0, n as int) =~= t@);
    let p1 = chars_of("bz ");
    let p2 = chars_of("Extracting archive:");
    let p3 = chars_of("bc ");
    let p4 = chars_of("ERROR");
    let p5 = chars_of("Error");
    let p6 = chars_of("Password required");
    let p7 = chars_of("----");
    let p8 = chars_of("Date  Time");
    let p9 = chars_of("Listing archive:");
    let p10 = chars_of("Archive format:");
    range_has_prefix(&v, 0, n, &p1) || range_has_prefix(&v, 0, n, &p2) || range_has_prefix(&v, 0, n, &p3)
        || range_has_prefix(&v, 0, n, &p4) || range_has_prefix(&v, 0, n, &p5) || crate::text::range_contains(
        &v,
        0,
        n,
        &p6,
        false,
    ) || range_has_prefix(&v, 0, n, &p7) || range_has_prefix(&v, 0, n, &p8) || range_has_prefix(&v, 0, n, &p9)
        || range_has_prefix(&v, 0, n, &p10)
}

/// The lines of Bandizip's output that are banners, headers or messages
/// are exactly those that start with `bz `, `Extracting archive:`, `bc `,
/// `ERROR`, `Error`, `----`, `Date  Time`, `Listing archive:` or
/// `Archive format:`, or that hold `Password required`.
pub proof fn lemma_info_lines(t: Seq<char>)
    ensures
        is_info_line(t) <==> {
            ||| has_prefix(t, "bz "@)
            ||| has_prefix(t, "Extracting archive:"@)
            ||| has_prefix(t, "bc "@)
            ||| has_prefix(t, "ERROR"@)
            ||| has_prefix(t, "Error"@)
            ||| has_prefix(t, "----"@)
            ||| has_prefix(t, "Date  Time"@)
            ||| has_prefix(t, "Listing archive:"@)
            ||| has_prefix(t, "Archive format:"@)
            ||| exists|i: int| occurs_at(t, "Password required"@, i)
        },
{
}

} // verus!

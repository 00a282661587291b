//! Character-level building blocks: whitespace, trimming, ASCII case folding
//! and substring tests over `Seq<char>`, with executable counterparts.
use vstd::prelude::*;

verus! {

/// The Unicode `White_Space` property, which is what `char::is_whitespace`
/// and `str::trim` test.
pub open spec fn is_space(c: char) -> bool {
    let u = c as u32;
    ||| 0x9 <= u && u <= 0xd
    ||| u == 0x20
    ||| u == 0x85
    ||| u == 0xa0
    ||| u == 0x1680
    ||| 0x2000 <= u && u <= 0x200a
    ||| u == 0x2028
    ||| u == 0x2029
    ||| u == 0x202f
    ||| u == 0x205f
    ||| u == 0x3000
}

/// Number of whitespace characters at the start of `s`.
pub open spec fn lead_len(s: Seq<char>) -> nat
    decreases s.len(),
{
    if s.len() > 0 && is_space(s[0]) {
        1 + lead_len(s.drop_first())
    } else {
        0
    }
}

/// Number of whitespace characters at the end of `s`.
pub open spec fn trail_len(s: Seq<char>) -> nat
    decreases s.len(),
{
    if s.len() > 0 && is_space(s.last()) {
        1 + trail_len(s.drop_last())
    } else {
        0
    }
}

/// `s` without its leading whitespace (`str::trim_start`).
pub open spec fn trim_start(s: Seq<char>) -> Seq<char> {
    s.skip(lead_len(s) as int)
}

/// `s` without its trailing whitespace (`str::trim_end`).
pub open spec fn trim_end(s: Seq<char>) -> Seq<char> {
    s.take(s.len() - trail_len(s))
}

/// `s` without leading and trailing whitespace (`str::trim`).
pub open spec fn trim(s: Seq<char>) -> Seq<char> {
    trim_end(trim_start(s))
}

/// ASCII case folding of one character, as a code point: `A`..`Z` map to
/// `a`..`z`, every other character to itself.
pub open spec fn fold(c: char) -> u32 {
    let u = c as u32;
    if 0x41 <= u && u <= 0x5a {
        (u + 0x20) as u32
    } else {
        u
    }
}

/// `a` and `b` are equal up to ASCII case (`str::eq_ignore_ascii_case`).
pub open spec fn eq_fold(a: Seq<char>, b: Seq<char>) -> bool {
    &&& a.len() == b.len()
    &&& forall|i: int| 0 <= i < a.len() ==> #[trigger] fold(a[i]) == fold(b[i])
}

/// `s` starts with `p`.
pub open spec fn has_prefix(s: Seq<char>, p: Seq<char>) -> bool {
    p.len() <= s.len() && s.take(p.len() as int) == p
}

/// `s` ends with `p`, up to ASCII case.
pub open spec fn has_suffix_fold(s: Seq<char>, p: Seq<char>) -> bool {
    p.len() <= s.len() && eq_fold(s.skip(s.len() - p.len()), p)
}

/// `p` occurs in `s` at position `i`, up to ASCII case.
pub open spec fn occurs_fold_at(s: Seq<char>, p: Seq<char>, i: int) -> bool {
    0 <= i && i + p.len() <= s.len() && eq_fold(s.subrange(i, i + p.len()), p)
}

/// `p` occurs in `s` at position `i`.
pub open spec fn occurs_at(s: Seq<char>, p: Seq<char>, i: int) -> bool {
    0 <= i && i + p.len() <= s.len() && s.subrange(i, i + p.len()) == p
}

/// `p` occurs somewhere in `s` (`str::contains`).
pub open spec fn contains(s: Seq<char>, p: Seq<char>) -> bool {
    exists|i: int| occurs_at(s, p, i)
}

/// `p` occurs somewhere in `s`, up to ASCII case.
pub open spec fn contains_fold(s: Seq<char>, p: Seq<char>) -> bool {
    exists|i: int| occurs_fold_at(s, p, i)
}

/// The character sequences of a sequence of strings.
pub open spec fn strings_view(v: Seq<String>) -> Seq<Seq<char>> {
    v.map_values(|s: String| s@)
}

/// The decimal digit `d`.
pub open spec fn digit_char(d: nat) -> char {
    seq!['0', '1', '2', '3', '4', '5', '6', '7', '8', '9'][d as int]
}

/// The decimal notation of `n`, as `format!("{}", n)` writes it.
pub open spec fn decimal(n: nat) -> Seq<char>
    decreases n,
{
    if n < 10 {
        seq![digit_char(n)]
    } else {
        decimal(n / 10) + seq![digit_char(n % 10)]
    }
}

/// `items` joined with `sep` between them (`[String]::join`).
pub open spec fn join(items: Seq<Seq<char>>, sep: Seq<char>) -> Seq<char>
    decreases items.len(),
{
    if items.len() == 0 {
        seq![]
    } else if items.len() == 1 {
        items[0]
    } else {
        join(items.drop_last(), sep) + sep + items.last()
    }
}

/// The leading whitespace of `s` is the first `k` characters when those
/// are whitespace and the next one is not.
proof fn lemma_lead_len(s: Seq<char>, k: int)
    requires
        0 <= k <= s.len(),
        forall|i: int| 0 <= i < k ==> is_space(#[trigger] s[i]),
        k == s.len() || !is_space(s[k]),
    ensures
        lead_len(s) == k,
    decreases k,
{
    if k > 0 {
        assert(is_space(s[0]));
        let t = s.drop_first();
        assert forall|i: int| 0 <= i < k - 1 implies is_space(#[trigger] t[i]) by {
            assert(t[i] == s[i + 1]);
        }
        if k < s.len() {
            assert(t[k - 1] == s[k]);
        }
        lemma_lead_len(t, k - 1);
    }
}

/// The trailing whitespace of `s` is what follows position `k` when that is
/// all whitespace and the character before it is not.
proof fn lemma_trail_len(s: Seq<char>, k: int)
    requires
        0 <= k <= s.len(),
        forall|i: int| k <= i < s.len() ==> is_space(#[trigger] s[i]),
        k == 0 || !is_space(s[k - 1]),
    ensures
        trail_len(s) == s.len() - k,
    decreases s.len() - k,
{
    if k < s.len() {
        assert(is_space(s.last()));
        let t = s.drop_last();
        assert forall|i: int| k <= i < t.len() implies is_space(#[trigger] t[i]) by {
            assert(t[i] == s[i]);
        }
        if k > 0 {
            assert(t[k - 1] == s[k - 1]);
        }
        lemma_trail_len(t, k);
    }
}

/// `char::is_whitespace`.
pub fn char_is_space(c: char) -> (r: bool)
    ensures
        r == is_space(c),
{
    let u = c as u32;
    (0x9 <= u && u <= 0xd) || u == 0x20 || u == 0x85 || u == 0xa0 || u == 0x1680 || (0x2000 <= u
        && u <= 0x200a) || u == 0x2028 || u == 0x2029 || u == 0x202f || u == 0x205f || u == 0x3000
}

/// ASCII case folding of one character, as a code point.
pub fn char_fold(c: char) -> (r: u32)
    ensures
        r == fold(c),
{
    let u = c as u32;
    if 0x41 <= u && u <= 0x5a {
        u + 0x20
    } else {
        u
    }
}

/// The characters of `s`.
pub fn chars_of(s: &str) -> (v: Vec<char>)
    ensures
        v@ == s@,
{
    let mut v: Vec<char> = Vec::new();
    for c in it: s.chars()
        invariant
            v@ == it.seq().take(it.index() as int),
            it.seq() == s@,
    {
        v.push(c);
    }
    v
}

/// Bounds of the trimmed part of `v[lo..hi]`.
pub fn trim_range(v: &Vec<char>, lo: usize, hi: usize) -> (r: (usize, usize))
    requires
        lo <= hi <= v.len(),
    ensures
        lo <= r.0 <= r.1 <= hi,
        v@.subrange(r.0 as int, r.1 as int) == trim(v@.subrange(lo as int, hi as int)),
{
    let ghost s = v@.subrange(lo as int, hi as int);
    let mut a = lo;
    while a < hi && char_is_space(v[a])
        invariant
            lo <= a <= hi <= v.len(),
            s == v@.subrange(lo as int, hi as int),
            forall|i: int| lo <= i < a ==> is_space(#[trigger] v@[i]),
        decreases hi - a,
    {
        a = a + 1;
    }
    proof {
        assert forall|i: int| 0 <= i < a - lo implies is_space(#[trigger] s[i]) by {
            assert(s[i] == v@[lo + i]);
        }
        if a < hi {
            assert(s[a - lo] == v@[a as int]);
        }
        lemma_lead_len(s, a - lo);
    }
    let ghost t = trim_start(s);
    assert(t == v@.subrange(a as int, hi as int));
    let mut b = hi;
    while b > a && char_is_space(v[b - 1])
        invariant
            lo <= a <= b <= hi <= v.len(),
            forall|i: int| b <= i < hi ==> is_space(#[trigger] v@[i]),
        decreases b - a,
    {
        b = b - 1;
    }
    proof {
        assert forall|i: int| b - a <= i < t.len() implies is_space(#[trigger] t[i]) by {
            assert(t[i] == v@[a + i]);
        }
        if b > a {
            assert(t[b - a - 1] == v@[b - 1]);
        }
        lemma_trail_len(t, b - a);
        assert(trim(s) =~= v@.subrange(a as int, b as int));
    }
    (a, b)
}

/// The decimal notation of `n`.
pub fn decimal_string(n: u128) -> (r: String)
    ensures
        r@ == decimal(n as nat),
    decreases n,
{
    let digits = "0123456789";
    proof {
        reveal_strlit("0123456789");
    }
    let d = (n % 10) as usize;
    let last = digits.substring_char(d, d + 1);
    assert(last@ =~= seq![digit_char((n % 10) as nat)]);
    if n < 10 {
        String::from_str(last)
    } else {
        let mut s = decimal_string(n / 10);
        s.append(last);
        s
    }
}

/// The strings of `items` joined with `sep` between them.
pub fn join_strings(items: &Vec<String>, sep: &str) -> (r: String)
    ensures
        r@ == join(strings_view(items@), sep@),
{
    let mut r = String::new();
    let mut i: usize = 0;
    while i < items.len()
        invariant
            i <= items@.len(),
            r@ == join(strings_view(items@).take(i as int), sep@),
        decreases items@.len() - i,
    {
        let ghost t = strings_view(items@).take(i + 1);
        assert(t.drop_last() =~= strings_view(items@).take(i as int));
        assert(t.last() == items@[i as int]@);
        if i == 0 {
            assert(t =~= seq![items@[0]@]);
            r = items[i].clone();
        } else {
            r.append(sep);
            r.append(items[i].as_str());
        }
        i = i + 1;
    }
    assert(strings_view(items@).take(items@.len() as int) =~= strings_view(items@));
    r
}

/// Whether two strings are equal.
pub fn str_eq(a: &str, b: &str) -> (r: bool)
    ensures
        r == (a@ == b@),
{
    let va = chars_of(a);
    let vb = chars_of(b);
    if va.len() != vb.len() {
        return false;
    }
    let r = range_has_prefix(&va, 0, va.len(), &vb);
    assert(va@.subrange(0, va.len() as int) =~= va@);
    assert(va@.take(vb.len() as int) =~= va@);
    r
}

/// `str::trim`, as an owned string.
pub fn trim_str(s: &str) -> (r: String)
    ensures
        r@ == trim(s@),
{
    let v = chars_of(s);
    let (a, b) = trim_range(&v, 0, v.len());
    assert(v@.subrange(0, v.len() as int) == s@);
    String::from_str(s.substring_char(a, b))
}

/// `v[lo..hi]` starts with `p`.
pub fn range_has_prefix(v: &Vec<char>, lo: usize, hi: usize, p: &Vec<char>) -> (r: bool)
    requires
        lo <= hi <= v.len(),
    ensures
        r == has_prefix(v@.subrange(lo as int, hi as int), p@),
{
    let ghost s = v@.subrange(lo as int, hi as int);
    if p.len() > hi - lo {
        return false;
    }
    let mut i: usize = 0;
    while i < p.len()
        invariant
            p.len() <= hi - lo,
            lo <= hi <= v.len(),
            i <= p.len(),
            s == v@.subrange(lo as int, hi as int),
            forall|j: int| 0 <= j < i ==> v@[lo + j] == p@[j],
        decreases p.len() - i,
    {
        if v[lo + i] != p[i] {
            assert(s.take(p.len() as int)[i as int] != p@[i as int]);
            return false;
        }
        i = i + 1;
    }
    assert(s.take(p.len() as int) =~= p@);
    true
}

/// `v[lo..hi]` and `p` are equal up to ASCII case.
pub fn range_eq_fold(v: &Vec<char>, lo: usize, hi: usize, p: &Vec<char>) -> (r: bool)
    requires
        lo <= hi <= v.len(),
    ensures
        r == eq_fold(v@.subrange(lo as int, hi as int), p@),
{
    let ghost s = v@.subrange(lo as int, hi as int);
    if p.len() != hi - lo {
        return false;
    }
    let mut i: usize = 0;
    while i < p.len()
        invariant
            p.len() == hi - lo,
            lo <= hi <= v.len(),
            i <= p.len(),
            s == v@.subrange(lo as int, hi as int),
            forall|j: int| 0 <= j < i ==> #[trigger] fold(s[j]) == fold(p@[j]),
        decreases p.len() - i,
    {
        if char_fold(v[lo + i]) != char_fold(p[i]) {
            assert(s[i as int] == v@[lo + i]);
            return false;
        }
        assert(s[i as int] == v@[lo + i]);
        i = i + 1;
    }
    true
}

/// `v[lo..hi]` contains `p` at position `k` (relative to `lo`), up to ASCII
/// case, or exactly.
pub fn range_occurs_at(v: &Vec<char>, lo: usize, hi: usize, p: &Vec<char>, k: usize, folded: bool) -> (r: bool)
    requires
        lo <= hi <= v.len(),
    ensures
        folded ==> r == occurs_fold_at(v@.subrange(lo as int, hi as int), p@, k as int),
        !folded ==> r == occurs_at(v@.subrange(lo as int, hi as int), p@, k as int),
{
    let ghost s = v@.subrange(lo as int, hi as int);
    if k > hi - lo || p.len() > hi - lo - k {
        return false;
    }
    let start = lo + k;
    let end = start + p.len();
    assert(s.subrange(k as int, k + p.len()) =~= v@.subrange(start as int, end as int));
    if folded {
        range_eq_fold(v, start, end, p)
    } else {
        let r = range_has_prefix(v, start, end, p);
        assert(v@.subrange(start as int, end as int).take(p.len() as int) =~= v@.subrange(start as int, end as int));
        r
    }
}

/// Whether `v[lo..hi]` contains `p`, up to ASCII case or exactly.
pub fn range_contains(v: &Vec<char>, lo: usize, hi: usize, p: &Vec<char>, folded: bool) -> (r: bool)
    requires
        lo <= hi <= v.len(),
    ensures
        folded ==> r == contains_fold(v@.subrange(lo as int, hi as int), p@),
        !folded ==> r == contains(v@.subrange(lo as int, hi as int), p@),
{
    let ghost s = v@.subrange(lo as int, hi as int);
    let mut k: usize = 0;
    loop
        invariant
            lo <= hi <= v.len(),
            s == v@.subrange(lo as int, hi as int),
            k <= hi - lo,
            folded ==> forall|j: int| 0 <= j < k ==> !occurs_fold_at(s, p@, j),
            !folded ==> forall|j: int| 0 <= j < k ==> !occurs_at(s, p@, j),
        decreases hi - lo - k,
    {
        if range_occurs_at(v, lo, hi, p, k, folded) {
            return true;
        }
        if k == hi - lo {
            assert(folded ==> forall|j: int| !occurs_fold_at(s, p@, j));
            assert(!folded ==> forall|j: int| !occurs_at(s, p@, j));
            return false;
        }
        k = k + 1;
    }
}

} // verus!

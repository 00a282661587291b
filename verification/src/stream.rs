//! The output streams of the archivers, read as they arrive: bytes are cut
//! into lines, decoded, logged, and turned into progress reports.
use vstd::prelude::*;
use vstd::utf8::{decode_utf8, valid_utf8};
use crate::output::{bandizip_file_count, is_info_line, lemma_info_lines, is_info_line_text, last_file_count, lines, percent_digits, percent_digits_of};
use crate::text::{has_prefix, occurs_at, trim, trim_str};

verus! {

/// What `String::from_utf8_lossy` makes of `bytes`.
pub uninterp spec fn utf8_lossy(bytes: Seq<u8>) -> Seq<char>;

/// `String::from_utf8_lossy`: the text of `bytes`, each invalid sequence
/// replaced by U+FFFD. Trusted, not proved: the result is `utf8_lossy` of
/// the bytes, and for valid UTF-8 it is the decoded text, as the function's
/// documentation says. Where the replacements go is left unsaid.
#[verifier::external_body]
fn decode_lossy(bytes: &[u8]) -> (r: String)
    ensures
        r@ == utf8_lossy(bytes@),
        valid_utf8(bytes@) ==> r@ == decode_utf8(bytes@),
{
    String::from_utf8_lossy(bytes).into_owned()
}

/// The number of files announced by the standard output of a Bandizip
/// listing, as raw bytes: they are decoded as `String::from_utf8_lossy`
/// does, then read as `bandizip_file_count` reads a listing.
pub fn bandizip_total_files(stdout: &[u8]) -> (r: Option<usize>)
    ensures
        match r {
            Some(x) => last_file_count(lines(utf8_lossy(stdout@))) == Some(x as nat),
            None => last_file_count(lines(utf8_lossy(stdout@))) is None,
        },
        valid_utf8(stdout@) ==> (match r {
            Some(x) => last_file_count(lines(decode_utf8(stdout@))) == Some(x as nat),
            None => last_file_count(lines(decode_utf8(stdout@))) is None,
        }),
{
    let text = decode_lossy(stdout);
    bandizip_file_count(text.as_str())
}

/// A byte that ends a line: `\r` or `\n`, and backspace where `backspace`
/// is set (7-Zip redraws its progress line with backspaces).
pub open spec fn is_line_break(b: u8, backspace: bool) -> bool {
    b == 13 || b == 10 || (backspace && b == 8)
}

/// Cutting a stream into lines: starting from the unfinished line `cur`,
/// the lines that `chunk` completes (each with the byte that ended it,
/// empty lines dropped) and the unfinished line after it.
pub open spec fn split_bytes(cur: Seq<u8>, chunk: Seq<u8>, backspace: bool) -> (Seq<(Seq<u8>, u8)>, Seq<u8>)
    decreases chunk.len(),
{
    if chunk.len() == 0 {
        (seq![], cur)
    } else {
        let (ls, c) = split_bytes(cur, chunk.drop_last(), backspace);
        let b = chunk.last();
        if is_line_break(b, backspace) {
            if c.len() > 0 {
                (ls.push((c, b)), seq![])
            } else {
                (ls, c)
            }
        } else {
            (ls, c.push(b))
        }
    }
}

/// A percentage read from 7-Zip's progress output: its digits, and the
/// line it was read from.
pub struct PercentReport {
    pub digits: String,
    pub line: String,
}

/// What 7-Zip's output stream adds to the log and to the reports: each
/// completed line, unless a backspace ended it, is logged with a line
/// feed; every line with a percentage is reported.
pub open spec fn seven_zip_log(ls: Seq<(Seq<u8>, u8)>) -> Seq<char>
    decreases ls.len(),
{
    if ls.len() == 0 {
        seq![]
    } else {
        let (l, b) = ls.last();
        seven_zip_log(ls.drop_last()) + if b == 8 {
            seq![]
        } else {
            utf8_lossy(l) + seq!['\n']
        }
    }
}

/// The percentage reports of some lines, as (digits, line) pairs.
pub open spec fn seven_zip_reports(ls: Seq<(Seq<u8>, u8)>) -> Seq<(Seq<char>, Seq<char>)>
    decreases ls.len(),
{
    if ls.len() == 0 {
        seq![]
    } else {
        let text = utf8_lossy(ls.last().0);
        seven_zip_reports(ls.drop_last()) + match percent_digits_of(text) {
            Some(d) => seq![(d, text)],
            None => seq![],
        }
    }
}

proof fn lemma_split_bytes_chunks(cur: Seq<u8>, a: Seq<u8>, b: Seq<u8>, backspace: bool)
    ensures
        ({
            let (l1, c1) = split_bytes(cur, a, backspace);
            let (l2, c2) = split_bytes(c1, b, backspace);
            split_bytes(cur, a + b, backspace) == (l1 + l2, c2)
        }),
    decreases b.len(),
{
    let (l1, c1) = split_bytes(cur, a, backspace);
    if b.len() == 0 {
        assert(a + b =~= a);
        assert(l1 + seq![] =~= l1);
    } else {
        assert((a + b).drop_last() =~= a + b.drop_last());
        assert((a + b).last() == b.last());
        lemma_split_bytes_chunks(cur, a, b.drop_last(), backspace);
        let (l2, c2) = split_bytes(c1, b.drop_last(), backspace);
        assert((l1 + l2).push((c2, b.last())) =~= l1 + l2.push((c2, b.last())));
    }
}

proof fn lemma_seven_zip_append(x: Seq<(Seq<u8>, u8)>, y: Seq<(Seq<u8>, u8)>)
    ensures
        seven_zip_log(x + y) == seven_zip_log(x) + seven_zip_log(y),
        seven_zip_reports(x + y) == seven_zip_reports(x) + seven_zip_reports(y),
    decreases y.len(),
{
    if y.len() == 0 {
        assert(x + y =~= x);
        assert(seven_zip_log(x) + seq![] =~= seven_zip_log(x));
        assert(seven_zip_reports(x) + seq![] =~= seven_zip_reports(x));
    } else {
        assert((x + y).drop_last() =~= x + y.drop_last());
        assert((x + y).last() == y.last());
        lemma_seven_zip_append(x, y.drop_last());
        let (l, b) = y.last();
        let text = utf8_lossy(l);
        let extra = if b == 8 {
            seq![]
        } else {
            text + seq!['\n']
        };
        assert(seven_zip_log(x) + seven_zip_log(y.drop_last()) + extra =~= seven_zip_log(x) + (seven_zip_log(y.drop_last())
            + extra));
        let rep = match percent_digits_of(text) {
            Some(d) => seq![(d, text)],
            None => seq![],
        };
        assert(seven_zip_reports(x) + seven_zip_reports(y.drop_last()) + rep =~= seven_zip_reports(x) + (seven_zip_reports(
            y.drop_last(),
        ) + rep));
    }
}

/// Reading 7-Zip's output does not depend on how it is cut into chunks:
/// reading `a` then `b` from the unfinished line `cur` leaves the same
/// unfinished line, and logs and reports the same, as reading `a + b`.
pub proof fn lemma_seven_zip_chunks(cur: Seq<u8>, a: Seq<u8>, b: Seq<u8>)
    ensures
        ({
            let (l1, c1) = split_bytes(cur, a, true);
            let (l2, c2) = split_bytes(c1, b, true);
            let (l, c) = split_bytes(cur, a + b, true);
            &&& c == c2
            &&& seven_zip_log(l) == seven_zip_log(l1) + seven_zip_log(l2)
            &&& seven_zip_reports(l) == seven_zip_reports(l1) + seven_zip_reports(l2)
        }),
{
    let (l1, c1) = split_bytes(cur, a, true);
    let (l2, c2) = split_bytes(c1, b, true);
    lemma_split_bytes_chunks(cur, a, b, true);
    lemma_seven_zip_append(l1, l2);
}

/// The percentage reports, as (digits, line) pairs.
pub open spec fn reports_view(v: Seq<PercentReport>) -> Seq<(Seq<char>, Seq<char>)> {
    v.map_values(|r: PercentReport| (r.digits@, r.line@))
}

/// The reader of 7-Zip's output stream.
pub struct SevenZipOutput {
    pending: Vec<u8>,
    log: String,
}

impl SevenZipOutput {
    /// The unfinished line.
    pub closed spec fn pending(&self) -> Seq<u8> {
        self.pending@
    }

    /// What has been logged.
    pub closed spec fn log(&self) -> Seq<char> {
        self.log@
    }

    /// A reader before any output.
    pub fn new() -> (r: SevenZipOutput)
        ensures
            r.pending() == Seq::<u8>::empty(),
            r.log() == Seq::<char>::empty(),
    {
        SevenZipOutput { pending: Vec::new(), log: String::new() }
    }

    /// Reads the next chunk of the stream; returns the percentages read.
    pub fn feed(&mut self, chunk: &[u8]) -> (r: Vec<PercentReport>)
        ensures
            final(self).pending() == split_bytes(old(self).pending(), chunk@, true).1,
            final(self).log() == old(self).log() + seven_zip_log(split_bytes(old(self).pending(), chunk@, true).0),
            reports_view(r@) == seven_zip_reports(split_bytes(old(self).pending(), chunk@, true).0),
    {
        let ghost p0 = self.pending@;
        let ghost l0 = self.log@;
        let mut reports: Vec<PercentReport> = Vec::new();
        let mut k: usize = 0;
        assert(chunk@.take(0) =~= seq![]);
        while k < chunk.len()
            invariant
                k <= chunk@.len(),
                self.pending@ == split_bytes(p0, chunk@.take(k as int), true).1,
                self.log@ == l0 + seven_zip_log(split_bytes(p0, chunk@.take(k as int), true).0),
                reports_view(reports@) == seven_zip_reports(split_bytes(p0, chunk@.take(k as int), true).0),
            decreases chunk@.len() - k,
        {
            let ghost t = chunk@.take(k + 1);
            assert(t.drop_last() =~= chunk@.take(k as int));
            assert(t.last() == chunk@[k as int]);
            let ghost ls0 = split_bytes(p0, chunk@.take(k as int), true).0;
            let b = chunk[k];
            if b == 13 || b == 10 || b == 8 {
                if self.pending.len() > 0 {
                    let mut line: Vec<u8> = Vec::new();
                    std::mem::swap(&mut line, &mut self.pending);
                    let text = decode_lossy(line.as_slice());
                    let ghost ls1 = ls0.push((line@, b));
                    assert(ls1.drop_last() =~= ls0);
                    if b != 8 {
                        self.log.append(text.as_str());
                        self.log.append("\n");
                        proof {
                            reveal_strlit("\n");
                        }
                        assert(self.log@ =~= l0 + seven_zip_log(ls1));
                    } else {
                        assert(self.log@ =~= l0 + seven_zip_log(ls1));
                    }
                    let ghost r0 = reports@;
                    match percent_digits(text.as_str()) {
                        Some(d) => {
                            reports.push(PercentReport { digits: d, line: text });
                            assert(reports_view(reports@) =~= reports_view(r0).push((d@, utf8_lossy(line@))));
                        },
                        None => {},
                    }
                    assert(reports_view(reports@) =~= seven_zip_reports(ls1));
                }
            } else {
                self.pending.push(b);
            }
            k = k + 1;
        }
        assert(chunk@.take(chunk@.len() as int) =~= chunk@);
        reports
    }

    /// Ends the stream: the unfinished line, if any, is logged (without a
    /// line feed) and read for a percentage.
    pub fn finish(&mut self) -> (r: Option<PercentReport>)
        ensures
            final(self).pending() == Seq::<u8>::empty(),
            old(self).pending().len() == 0 ==> final(self).log() == old(self).log() && r is None,
            old(self).pending().len() > 0 ==> {
                let text = utf8_lossy(old(self).pending());
                &&& final(self).log() == old(self).log() + text
                &&& match percent_digits_of(text) {
                    Some(d) => r matches Some(p) && p.digits@ == d && p.line@ == text,
                    None => r is None,
                }
            },
    {
        if self.pending.len() == 0 {
            return None;
        }
        let mut line: Vec<u8> = Vec::new();
        std::mem::swap(&mut line, &mut self.pending);
        let text = decode_lossy(line.as_slice());
        self.log.append(text.as_str());
        match percent_digits(text.as_str()) {
            Some(d) => Some(PercentReport { digits: d, line: text }),
            None => None,
        }
    }

    /// The error text of a failed run: the other stream's text, a line
    /// feed, then this log.
    pub fn failure_text(&self, other: &str) -> (r: String)
        ensures
            r@ == other@ + seq!['\n'] + self.log(),
    {
        let mut r = String::from_str(other);
        r.append("\n");
        r.append(self.log.as_str());
        proof {
            reveal_strlit("\n");
        }
        assert(r@ =~= other@ + seq!['\n'] + self.log());
        r
    }
}

} // verus!

verus! {

/// Progress read from Bandizip's output: a file was extracted, the
/// `done`-th of `total` when the total is known.
pub enum BandizipProgress {
    Counted { done: u32, total: usize, file: String },
    Uncounted { file: String },
}

/// Progress, as text.
pub enum ProgressView {
    Counted { done: nat, total: nat, file: Seq<char> },
    Uncounted { file: Seq<char> },
}

impl View for BandizipProgress {
    type V = ProgressView;

    open spec fn view(&self) -> ProgressView {
        match self {
            BandizipProgress::Counted { done, total, file } => ProgressView::Counted {
                done: *done as nat,
                total: *total as nat,
                file: file@,
            },
            BandizipProgress::Uncounted { file } => ProgressView::Uncounted { file: file@ },
        }
    }
}

/// Where the reading of Bandizip's output stands: the unfinished line, the
/// log, the progress reported in the current chunk, and the number of
/// extracted files seen.
pub struct BcState {
    pub pending: Seq<u8>,
    pub log: Seq<char>,
    pub events: Seq<ProgressView>,
    pub done: nat,
}

/// Reading one line of Bandizip's output. Blank lines are skipped; other
/// lines are logged (with a line feed when `nl`); a line that is not a
/// banner, header or message names an extracted file and is counted and
/// reported (not at all when the total is known to be zero).
pub open spec fn bc_line(s: BcState, text: Seq<char>, nl: bool, total: Option<nat>) -> BcState {
    let t = trim(text);
    if t.len() == 0 {
        s
    } else {
        let log = s.log + text + if nl {
            seq!['\n']
        } else {
            seq![]
        };
        if is_info_line(t) {
            BcState { pending: s.pending, log, events: s.events, done: s.done }
        } else {
            let done = s.done + 1;
            let ev = match total {
                Some(n) => if n > 0 {
                    seq![ProgressView::Counted { done, total: n, file: t }]
                } else {
                    seq![]
                },
                None => seq![ProgressView::Uncounted { file: t }],
            };
            BcState { pending: s.pending, log, events: s.events + ev, done }
        }
    }
}

/// Reading one byte of Bandizip's output: `\r` and `\n` end the pending
/// line, if there is one.
pub open spec fn bc_byte(s: BcState, b: u8, total: Option<nat>) -> BcState {
    if b == 13 || b == 10 {
        if s.pending.len() > 0 {
            bc_line(BcState { pending: seq![], log: s.log, events: s.events, done: s.done }, utf8_lossy(s.pending), true, total)
        } else {
            s
        }
    } else {
        BcState { pending: s.pending.push(b), log: s.log, events: s.events, done: s.done }
    }
}

/// Reading a chunk of Bandizip's output.
pub open spec fn bc_bytes(s: BcState, chunk: Seq<u8>, total: Option<nat>) -> BcState
    decreases chunk.len(),
{
    if chunk.len() == 0 {
        s
    } else {
        bc_byte(bc_bytes(s, chunk.drop_last(), total), chunk.last(), total)
    }
}

/// Reading `a + b` is reading `a`, then `b`.
proof fn lemma_bc_bytes_split(s: BcState, a: Seq<u8>, b: Seq<u8>, total: Option<nat>)
    ensures
        bc_bytes(s, a + b, total) == bc_bytes(bc_bytes(s, a, total), b, total),
    decreases b.len(),
{
    if b.len() == 0 {
        assert(a + b =~= a);
    } else {
        assert((a + b).drop_last() =~= a + b.drop_last());
        assert((a + b).last() == b.last());
        lemma_bc_bytes_split(s, a, b.drop_last(), total);
    }
}

/// The count of extracted files never goes down.
proof fn lemma_bc_bytes_done(s: BcState, c: Seq<u8>, total: Option<nat>)
    ensures
        bc_bytes(s, c, total).done >= s.done,
    decreases c.len(),
{
    if c.len() > 0 {
        lemma_bc_bytes_done(s, c.drop_last(), total);
    }
}

/// `s` with the events `e` put before its own.
pub open spec fn with_earlier_events(e: Seq<ProgressView>, s: BcState) -> BcState {
    BcState { pending: s.pending, log: s.log, events: e + s.events, done: s.done }
}

/// `s` with no events.
pub open spec fn without_events(s: BcState) -> BcState {
    BcState { pending: s.pending, log: s.log, events: seq![], done: s.done }
}

proof fn lemma_bc_line_shift(e: Seq<ProgressView>, s: BcState, text: Seq<char>, nl: bool, total: Option<nat>)
    ensures
        bc_line(with_earlier_events(e, s), text, nl, total) == with_earlier_events(e, bc_line(s, text, nl, total)),
{
    let t = trim(text);
    if t.len() > 0 && !is_info_line(t) {
        let ev = match total {
            Some(n) => if n > 0 {
                seq![ProgressView::Counted { done: s.done + 1, total: n, file: t }]
            } else {
                seq![]
            },
            None => seq![ProgressView::Uncounted { file: t }],
        };
        assert((e + s.events) + ev =~= e + (s.events + ev));
    }
}

proof fn lemma_bc_bytes_shift(e: Seq<ProgressView>, s: BcState, c: Seq<u8>, total: Option<nat>)
    ensures
        bc_bytes(with_earlier_events(e, s), c, total) == with_earlier_events(e, bc_bytes(s, c, total)),
    decreases c.len(),
{
    if c.len() > 0 {
        lemma_bc_bytes_shift(e, s, c.drop_last(), total);
        let x = bc_bytes(s, c.drop_last(), total);
        let b = c.last();
        if (b == 13 || b == 10) && x.pending.len() > 0 {
            lemma_bc_line_shift(
                e,
                BcState { pending: seq![], log: x.log, events: x.events, done: x.done },
                utf8_lossy(x.pending),
                true,
                total,
            );
        }
    }
}

/// Reading Bandizip's output does not depend on how it is cut into chunks:
/// reading `a` then `b` logs, counts and reports what reading `a + b` at
/// once does, the events of `b` following those of `a`.
pub proof fn lemma_bandizip_chunks(s: BcState, a: Seq<u8>, b: Seq<u8>, total: Option<nat>)
    requires
        s.events == Seq::<ProgressView>::empty(),
    ensures
        ({
            let x = bc_bytes(s, a, total);
            let y = bc_bytes(without_events(x), b, total);
            bc_bytes(s, a + b, total) == with_earlier_events(x.events, y)
        }),
{
    let x = bc_bytes(s, a, total);
    lemma_bc_bytes_split(s, a, b, total);
    assert(with_earlier_events(x.events, without_events(x)) == x) by {
        assert(x.events + seq![] =~= x.events);
    }
    lemma_bc_bytes_shift(x.events, without_events(x), b, total);
}

/// A line of Bandizip's output that names an extracted file: not blank,
/// and, trimmed, not a banner, header or message.
pub open spec fn names_file(text: Seq<char>) -> bool {
    trim(text).len() > 0 && !is_info_line(trim(text))
}

/// The extracted files that the lines `texts` name, in order, trimmed.
pub open spec fn files_named(texts: Seq<Seq<char>>) -> Seq<Seq<char>>
    decreases texts.len(),
{
    if texts.len() == 0 {
        seq![]
    } else {
        files_named(texts.drop_last()) + if names_file(texts.last()) {
            seq![trim(texts.last())]
        } else {
            seq![]
        }
    }
}

/// The progress reported for the extracted files `files`, counted on from
/// `start`: the `k`-th of them (from 1) is the `start + k`-th of `n` when
/// the total `n` is known and not zero; with no total, each is reported
/// uncounted; with a total of zero, nothing is reported.
pub open spec fn progress_for(files: Seq<Seq<char>>, start: nat, total: Option<nat>) -> Seq<ProgressView> {
    match total {
        Some(n) => if n > 0 {
            Seq::new(files.len(), |k: int| ProgressView::Counted { done: (start + k + 1) as nat, total: n, file: files[k] })
        } else {
            seq![]
        },
        None => Seq::new(files.len(), |k: int| ProgressView::Uncounted { file: files[k] }),
    }
}

/// Reading decoded lines, each ended by a line break.
pub open spec fn bc_lines(s: BcState, texts: Seq<Seq<char>>, total: Option<nat>) -> BcState
    decreases texts.len(),
{
    if texts.len() == 0 {
        s
    } else {
        bc_line(bc_lines(s, texts.drop_last(), total), texts.last(), true, total)
    }
}

/// `s` with no unfinished line.
pub open spec fn without_pending(s: BcState) -> BcState {
    BcState { pending: seq![], log: s.log, events: s.events, done: s.done }
}

/// The decoded text of completed lines.
pub open spec fn line_texts(ls: Seq<(Seq<u8>, u8)>) -> Seq<Seq<char>> {
    ls.map_values(|l: (Seq<u8>, u8)| utf8_lossy(l.0))
}

proof fn lemma_progress_for_append(f: Seq<Seq<char>>, g: Seq<Seq<char>>, start: nat, total: Option<nat>)
    ensures
        progress_for(f + g, start, total) == progress_for(f, start, total) + progress_for(g, start + f.len(), total),
{
    assert(progress_for(f + g, start, total) =~= progress_for(f, start, total) + progress_for(g, start + f.len(), total));
}

proof fn lemma_bc_lines_events(s: BcState, texts: Seq<Seq<char>>, total: Option<nat>)
    ensures
        bc_lines(s, texts, total).events == s.events + progress_for(files_named(texts), s.done, total),
        bc_lines(s, texts, total).done == s.done + files_named(texts).len(),
        bc_lines(s, texts, total).pending == s.pending,
    decreases texts.len(),
{
    if texts.len() == 0 {
        assert(s.events + progress_for(seq![], s.done, total) =~= s.events);
    } else {
        let f0 = files_named(texts.drop_last());
        lemma_bc_lines_events(s, texts.drop_last(), total);
        let t = texts.last();
        if names_file(t) {
            lemma_progress_for_append(f0, seq![trim(t)], s.done, total);
            assert(s.events + progress_for(f0, s.done, total) + progress_for(seq![trim(t)], s.done + f0.len(), total)
                =~= s.events + (progress_for(f0, s.done, total) + progress_for(seq![trim(t)], s.done + f0.len(), total)));
            let ev = match total {
                Some(n) => if n > 0 {
                    seq![ProgressView::Counted { done: s.done + f0.len() + 1, total: n, file: trim(t) }]
                } else {
                    seq![]
                },
                None => seq![ProgressView::Uncounted { file: trim(t) }],
            };
            assert(progress_for(seq![trim(t)], s.done + f0.len(), total) =~= ev);
        } else {
            assert(files_named(texts) =~= f0);
        }
    }
}

proof fn lemma_bc_bytes_lines(s: BcState, c: Seq<u8>, total: Option<nat>)
    ensures
        ({
            let (ls, cur) = split_bytes(s.pending, c, false);
            let t = bc_lines(without_pending(s), line_texts(ls), total);
            bc_bytes(s, c, total) == BcState { pending: cur, log: t.log, events: t.events, done: t.done }
        }),
    decreases c.len(),
{
    let (ls, cur) = split_bytes(s.pending, c, false);
    if c.len() == 0 {
        assert(line_texts(ls) =~= seq![]);
    } else {
        lemma_bc_bytes_lines(s, c.drop_last(), total);
        let (ls0, cur0) = split_bytes(s.pending, c.drop_last(), false);
        let t0 = bc_lines(without_pending(s), line_texts(ls0), total);
        lemma_bc_lines_events(without_pending(s), line_texts(ls0), total);
        let b = c.last();
        if (b == 13 || b == 10) && cur0.len() > 0 {
            assert(line_texts(ls).drop_last() =~= line_texts(ls0));
            assert(line_texts(ls).last() == utf8_lossy(cur0));
            assert(t0 == BcState { pending: seq![], log: t0.log, events: t0.events, done: t0.done });
        } else if b == 13 || b == 10 {
            assert(ls == ls0);
        } else {
            assert(ls == ls0);
        }
    }
}

/// Over a whole stream of Bandizip's output, `bytes`, fed to a reader with
/// the total `total` and then finished: the progress that feeding reports,
/// followed by what finishing reports, is `progress_for` the lines naming
/// extracted files, in order, counted from 1 (the `k`-th is `k` of `n` when
/// the total `n` is known and not zero, uncounted when there is no total,
/// and nothing is reported for a total of zero); the count of extracted
/// files is the number of those lines.
pub proof fn lemma_bandizip_stream(bytes: Seq<u8>, total: Option<nat>)
    ensures
        ({
            let start = BcState { pending: seq![], log: seq![], events: seq![], done: 0 };
            let (ls, rest) = split_bytes(seq![], bytes, false);
            let s = bc_bytes(start, bytes, total);
            let texts = line_texts(ls) + if rest.len() > 0 {
                seq![utf8_lossy(rest)]
            } else {
                seq![]
            };
            let last = if rest.len() > 0 {
                bc_line(BcState { pending: seq![], log: s.log, events: seq![], done: s.done }, utf8_lossy(rest), false, total)
            } else {
                BcState { pending: seq![], log: s.log, events: seq![], done: s.done }
            };
            &&& s.events + last.events == progress_for(files_named(texts), 0, total)
            &&& last.done == files_named(texts).len()
        }),
{
    let start = BcState { pending: seq![], log: seq![], events: seq![], done: 0 };
    let (ls, rest) = split_bytes(seq![], bytes, false);
    lemma_bc_bytes_lines(start, bytes, total);
    assert(without_pending(start) == start);
    lemma_bc_lines_events(start, line_texts(ls), total);
    let s = bc_bytes(start, bytes, total);
    let f0 = files_named(line_texts(ls));
    assert(seq![] + progress_for(f0, 0, total) =~= progress_for(f0, 0, total));
    if rest.len() > 0 {
        let texts = line_texts(ls) + seq![utf8_lossy(rest)];
        assert(texts.drop_last() =~= line_texts(ls));
        let u = BcState { pending: seq![], log: s.log, events: seq![], done: s.done };
        assert(bc_lines(u, seq![utf8_lossy(rest)], total) == bc_line(u, utf8_lossy(rest), true, total)) by {
            assert(seq![utf8_lossy(rest)].drop_last() =~= Seq::<Seq<char>>::empty());
            assert(bc_lines(u, Seq::<Seq<char>>::empty(), total) == u);
        }
        lemma_bc_lines_events(u, seq![utf8_lossy(rest)], total);
        assert(files_named(seq![utf8_lossy(rest)]) == files_named(texts).skip(f0.len() as int)) by {
            assert(seq![utf8_lossy(rest)].drop_last() =~= Seq::<Seq<char>>::empty());
            assert(files_named(Seq::<Seq<char>>::empty()) == Seq::<Seq<char>>::empty());
            assert(files_named(texts).skip(f0.len() as int) =~= files_named(seq![utf8_lossy(rest)]));
        }
        assert(files_named(texts) =~= f0 + files_named(seq![utf8_lossy(rest)]));
        lemma_progress_for_append(f0, files_named(seq![utf8_lossy(rest)]), 0, total);
        assert(seq![] + progress_for(files_named(seq![utf8_lossy(rest)]), s.done, total) =~= progress_for(
            files_named(seq![utf8_lossy(rest)]),
            s.done,
            total,
        ));
    } else {
        let texts = line_texts(ls) + seq![];
        assert(texts =~= line_texts(ls));
        assert(progress_for(f0, 0, total) + seq![] =~= progress_for(f0, 0, total));
    }
}

/// The progress events, as text.
pub open spec fn progress_view(v: Seq<BandizipProgress>) -> Seq<ProgressView> {
    v.map_values(|p: BandizipProgress| p@)
}

/// The reader of Bandizip's output stream.
pub struct BandizipOutput {
    pending: Vec<u8>,
    log: String,
    done: u32,
    total: Option<usize>,
}

/// The text of an optional count.
pub open spec fn total_view(t: Option<usize>) -> Option<nat> {
    match t {
        Some(n) => Some(n as nat),
        None => None,
    }
}

impl BandizipOutput {
    /// Where the reading stands (with no progress pending).
    pub closed spec fn state(&self) -> BcState {
        BcState { pending: self.pending@, log: self.log@, events: seq![], done: self.done as nat }
    }

    /// The total number of files, if known.
    pub closed spec fn total(&self) -> Option<nat> {
        total_view(self.total)
    }

    /// The count of extracted files fits an `i32`.
    pub closed spec fn wf(&self) -> bool {
        self.done <= 0x7fff_ffff
    }

    /// A reader before any output; `total` is the number of files in the
    /// archive, if known.
    pub fn new(total: Option<usize>) -> (r: BandizipOutput)
        ensures
            r.wf(),
            r.state() == (BcState { pending: seq![], log: seq![], events: seq![], done: 0 }),
            r.total() == total_view(total),
    {
        let r = BandizipOutput { pending: Vec::new(), log: String::new(), done: 0, total };
        assert(r.state().pending =~= seq![]);
        r
    }

    /// Reads one decoded line of the stream, as `feed` does for each line it
    /// completes (`nl`: the line was ended by a line break, and is logged
    /// with a line feed). Returns the progress read, or `None` when the count
    /// of extracted files would pass `i32::MAX` (the reader is then spent).
    pub fn read_line(&mut self, text: String, nl: bool) -> (r: Option<Vec<BandizipProgress>>)
        requires
            old(self).wf(),
        ensures
            final(self).total() == old(self).total(),
            r is Some ==> final(self).wf(),
            ({
                let s = bc_line(old(self).state(), text@, nl, old(self).total());
                match r {
                    Some(ev) => {
                        &&& s.done <= 0x7fff_ffff
                        &&& final(self).state() == (BcState { pending: s.pending, log: s.log, events: seq![], done: s.done })
                        &&& progress_view(ev@) == s.events
                    },
                    None => s.done > 0x7fff_ffff,
                }
            }),
    {
        let mut events: Vec<BandizipProgress> = Vec::new();
        assert(progress_view(events@) =~= seq![]);
        if self.take_line(text, nl, &mut events) {
            Some(events)
        } else {
            None
        }
    }

    fn take_line(&mut self, text: String, nl: bool, events: &mut Vec<BandizipProgress>) -> (ok: bool)
        requires
            old(self).done <= 0x7fff_ffff,
        ensures
            final(self).total == old(self).total,
            final(self).pending@ == old(self).pending@,
            ({
                let s = bc_line(
                    BcState { pending: old(self).pending@, log: old(self).log@, events: progress_view(old(events)@), done: old(self).done as nat },
                    text@,
                    nl,
                    old(self).total(),
                );
                &&& ok ==> final(self).log@ == s.log && progress_view(final(events)@) == s.events && final(self).done as nat == s.done
                &&& ok <==> s.done <= 0x7fff_ffff
                &&& !ok ==> s.done == 0x8000_0000
            }),
    {
        let trimmed = trim_str(text.as_str());
        if trimmed.as_str().unicode_len() == 0 {
            return true;
        }
        let ghost log0 = self.log@;
        if !is_info_line_text(trimmed.as_str()) && self.done >= 0x7fff_ffff {
            return false;
        }
        self.log.append(text.as_str());
        if nl {
            self.log.append("\n");
            proof {
                reveal_strlit("\n");
            }
            assert(self.log@ =~= log0 + text@ + seq!['\n']);
        } else {
            assert(self.log@ =~= log0 + text@ + seq![]);
        }
        if is_info_line_text(trimmed.as_str()) {
            return true;
        }
        self.done = self.done + 1;
        let ghost e0 = progress_view(events@);
        match self.total {
            Some(n) => {
                if n > 0 {
                    events.push(BandizipProgress::Counted { done: self.done, total: n, file: trimmed });
                    assert(progress_view(events@) =~= e0 + seq![ProgressView::Counted { done: self.done as nat, total: n as nat, file: trim(text@) }]);
                } else {
                    assert(progress_view(events@) =~= e0 + seq![]);
                }
            },
            None => {
                events.push(BandizipProgress::Uncounted { file: trimmed });
                assert(progress_view(events@) =~= e0 + seq![ProgressView::Uncounted { file: trim(text@) }]);
            },
        }
        true
    }

    /// Reads the next chunk of the stream; returns the progress read, or
    /// `None` when the count of extracted files would pass `i32::MAX` (the
    /// reader is then spent).
    pub fn feed(&mut self, chunk: &[u8]) -> (r: Option<Vec<BandizipProgress>>)
        requires
            old(self).wf(),
        ensures
            final(self).total() == old(self).total(),
            r is Some ==> final(self).wf(),
            ({
                let s = bc_bytes(old(self).state(), chunk@, old(self).total());
                match r {
                    Some(ev) => {
                        &&& s.done <= 0x7fff_ffff
                        &&& final(self).state() == (BcState { pending: s.pending, log: s.log, events: seq![], done: s.done })
                        &&& progress_view(ev@) == s.events
                    },
                    None => s.done > 0x7fff_ffff,
                }
            }),
    {
        let ghost s0 = self.state();
        let ghost fin = bc_bytes(s0, chunk@, self.total());
        let mut events: Vec<BandizipProgress> = Vec::new();
        let mut k: usize = 0;
        assert(chunk@.take(0) =~= seq![]);
        assert(progress_view(events@) =~= seq![]);
        while k < chunk.len()
            invariant
                k <= chunk@.len(),
                self.total == old(self).total,
                fin == bc_bytes(s0, chunk@, self.total()),
                s0 == old(self).state(),
                s0.events == Seq::<ProgressView>::empty(),
                self.done <= 0x7fff_ffff,
                ({
                    let s = bc_bytes(s0, chunk@.take(k as int), self.total());
                    &&& self.pending@ == s.pending
                    &&& self.log@ == s.log
                    &&& progress_view(events@) == s.events
                    &&& self.done as nat == s.done
                }),
            decreases chunk@.len() - k,
        {
            let ghost t = chunk@.take(k + 1);
            assert(t.drop_last() =~= chunk@.take(k as int));
            assert(t.last() == chunk@[k as int]);
            proof {
                assert(chunk@ =~= t + chunk@.skip(k + 1));
                lemma_bc_bytes_split(s0, t, chunk@.skip(k + 1), self.total());
                lemma_bc_bytes_done(bc_bytes(s0, t, self.total()), chunk@.skip(k + 1), self.total());
            }
            let b = chunk[k];
            if b == 13 || b == 10 {
                if self.pending.len() > 0 {
                    let mut line: Vec<u8> = Vec::new();
                    std::mem::swap(&mut line, &mut self.pending);
                    let text = decode_lossy(line.as_slice());
                    let ghost before = bc_bytes(s0, chunk@.take(k as int), self.total());
                    if !self.take_line(text, true, &mut events) {
                        assert(bc_bytes(s0, t, self.total()) == bc_byte(before, b, self.total()));
                        assert(bc_bytes(s0, t, self.total()).done > 0x7fff_ffff);
                        assert(fin == bc_bytes(bc_bytes(s0, t, self.total()), chunk@.skip(k + 1), self.total()));
                        assert(fin.done > 0x7fff_ffff);
                        assert(fin == bc_bytes(old(self).state(), chunk@, old(self).total()));
                        return None;
                    }
                }
            } else {
                self.pending.push(b);
            }
            k = k + 1;
        }
        assert(chunk@.take(chunk@.len() as int) =~= chunk@);
        Some(events)
    }

    /// Ends the stream: the unfinished line, if any, is read as a last
    /// line, logged without a line feed. `None` when the count of extracted
    /// files would pass `i32::MAX`.
    pub fn finish(&mut self) -> (r: Option<Vec<BandizipProgress>>)
        requires
            old(self).wf(),
        ensures
            final(self).total() == old(self).total(),
            r is Some ==> final(self).wf(),
            old(self).state().pending.len() == 0 ==> final(self).state() == old(self).state() && (r matches Some(ev) && ev@.len() == 0),
            old(self).state().pending.len() > 0 ==> ({
                let s = bc_line(
                    BcState { pending: seq![], log: old(self).state().log, events: seq![], done: old(self).state().done },
                    utf8_lossy(old(self).state().pending),
                    false,
                    old(self).total(),
                );
                match r {
                    Some(ev) => {
                        &&& s.done <= 0x7fff_ffff
                        &&& final(self).state() == (BcState { pending: s.pending, log: s.log, events: seq![], done: s.done })
                        &&& progress_view(ev@) == s.events
                    },
                    None => s.done > 0x7fff_ffff,
                }
            }),
    {
        let mut events: Vec<BandizipProgress> = Vec::new();
        if self.pending.len() == 0 {
            return Some(events);
        }
        let mut line: Vec<u8> = Vec::new();
        std::mem::swap(&mut line, &mut self.pending);
        let text = decode_lossy(line.as_slice());
        assert(progress_view(events@) =~= seq![]);
        if self.take_line(text, false, &mut events) {
            assert(self.pending@ =~= seq![]);
            Some(events)
        } else {
            None
        }
    }

    /// The number of extracted files seen.
    pub fn files_done(&self) -> (r: u32)
        ensures
            r as nat == self.state().done,
    {
        self.done
    }

    /// The error text of a failed run: the other stream's text, a line
    /// feed, then this log.
    pub fn failure_text(&self, other: &str) -> (r: String)
        ensures
            r@ == other@ + seq!['\n'] + self.state().log,
    {
        let mut r = String::from_str(other);
        r.append("\n");
        r.append(self.log.as_str());
        proof {
            reveal_strlit("\n");
        }
        assert(r@ =~= other@ + seq!['\n'] + self.state().log);
        r
    }
}

/// A line of Bandizip's output that, trimmed, starts with `bz `,
/// `Extracting archive:`, `bc `, `ERROR`, `Error`, `----`, `Date  Time`,
/// `Listing archive:` or `Archive format:`, or holds `Password required`, is
/// logged but never counted or reported as an extracted file; any other line
/// that is not blank is counted as one more file.
pub proof fn lemma_banner_lines_not_counted(s: BcState, text: Seq<char>, nl: bool, total: Option<nat>)
    ensures
        ({
            let t = trim(text);
            let banner = {
                ||| has_prefix(t, "bz "@)
                ||| has_prefix(t, "Extracting archive:"@)
                ||| has_prefix(t, "bc "@)
                ||| has_prefix(t, "ERROR"@)
                ||| has_prefix(t, "Error"@)
                ||| has_prefix(t, "----"@)
                ||| has_prefix(t, "Date  Time"@)
                ||| has_prefix(t, "Listing archive:"@)
                ||| has_prefix(t, "Archive format:"@)
                ||| exists|i: int| occurs_at(t, "Password required"@, i)
            };
            let r = bc_line(s, text, nl, total);
            &&& banner ==> r.done == s.done && r.events == s.events
            &&& (!banner && t.len() > 0) ==> (r.done == s.done + 1 && (r.events.len() > s.events.len() <==> total != Some(0nat)))
        }),
{
    lemma_info_lines(trim(text));
}

} // verus!

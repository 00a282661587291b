//! Finding the archiver's executable. The search asks questions about the
//! machine (is a command on the search path, what the registry holds, which
//! files exist); the caller answers them, and the decisions are taken here.
use vstd::prelude::*;
use crate::names::{clean_path, cleaned_path};
use crate::flow::rank_below;
use crate::text::{chars_of, eq_fold, has_suffix_fold, range_eq_fold, strings_view};

verus! {

/// A question about the machine.
pub enum Probe {
    /// Is this command found on the search path? Answered with `Some` (any
    /// text) when it is.
    OnSearchPath(String),
    /// The string value named by the second field under the registry key in
    /// the first, cleaned; `None` when there is none.
    RegistryValue(String, String),
    /// Does the file named by the second field exist in the directory given
    /// by the first? Answered with the joined path when it does.
    FileInDir(String, String),
    /// Does this path exist? Answered with `Some` (any text) when it does.
    Exists(String),
    /// Is this path an existing file? Answered with its file name (empty
    /// when the name is not valid UTF-8) when it is.
    ExistingFile(String),
    /// Does the file named by the second field exist in the parent
    /// directory of the path in the first? Answered with the joined path.
    BesideFile(String, String),
}

/// A question about the machine, as text.
pub enum ProbeView {
    OnSearchPath(Seq<char>),
    RegistryValue(Seq<char>, Seq<char>),
    FileInDir(Seq<char>, Seq<char>),
    Exists(Seq<char>),
    ExistingFile(Seq<char>),
    BesideFile(Seq<char>, Seq<char>),
}

impl View for Probe {
    type V = ProbeView;

    open spec fn view(&self) -> ProbeView {
        match self {
            Probe::OnSearchPath(c) => ProbeView::OnSearchPath(c@),
            Probe::RegistryValue(k, v) => ProbeView::RegistryValue(k@, v@),
            Probe::FileInDir(d, f) => ProbeView::FileInDir(d@, f@),
            Probe::Exists(p) => ProbeView::Exists(p@),
            Probe::ExistingFile(p) => ProbeView::ExistingFile(p@),
            Probe::BesideFile(p, f) => ProbeView::BesideFile(p@, f@),
        }
    }
}

/// One place where a tool may be found. `slot` says which tool it is for.
pub enum Candidate {
    /// A command on the search path; found, it is used by its name.
    OnSearchPath { slot: usize, command: String },
    /// An installation recorded in the registry: the directory is the value
    /// `value` under `key`, and the first of `files` that exists there is
    /// used.
    Installed { slot: usize, key: String, value: String, files: Vec<String> },
    /// A fixed path; found, it is used as it is.
    AtPath { slot: usize, path: String },
}

/// One place where a tool may be found, as text.
pub enum CandidateView {
    OnSearchPath { slot: nat, command: Seq<char> },
    Installed { slot: nat, key: Seq<char>, value: Seq<char>, files: Seq<Seq<char>> },
    AtPath { slot: nat, path: Seq<char> },
}

impl View for Candidate {
    type V = CandidateView;

    open spec fn view(&self) -> CandidateView {
        match self {
            Candidate::OnSearchPath { slot, command } => CandidateView::OnSearchPath {
                slot: *slot as nat,
                command: command@,
            },
            Candidate::Installed { slot, key, value, files } => CandidateView::Installed {
                slot: *slot as nat,
                key: key@,
                value: value@,
                files: strings_view(files@),
            },
            Candidate::AtPath { slot, path } => CandidateView::AtPath { slot: *slot as nat, path: path@ },
        }
    }
}

/// The tool that a candidate is for.
pub open spec fn slot_of(c: CandidateView) -> nat {
    match c {
        CandidateView::OnSearchPath { slot, .. } => slot,
        CandidateView::Installed { slot, .. } => slot,
        CandidateView::AtPath { slot, .. } => slot,
    }
}

/// The views of a list of candidates.
pub open spec fn candidates_view(v: Seq<Candidate>) -> Seq<CandidateView> {
    v.map_values(|c: Candidate| c@)
}

/// Where a search stands: the candidate under examination, the registry
/// directory found for it (if it is an installation and the directory has
/// been read), the next file to look for there, and what has been found for
/// each tool.
pub struct SearchState {
    pub pos: nat,
    pub dir: Option<Seq<char>>,
    pub file_pos: nat,
    pub found: Seq<Option<Seq<char>>>,
}

/// Moves past the candidates for tools that have been found already.
pub open spec fn settle(cands: Seq<CandidateView>, s: SearchState) -> SearchState
    decreases cands.len() - s.pos,
{
    if s.pos < cands.len() && s.dir is None && slot_of(cands[s.pos as int]) < s.found.len()
        && s.found[slot_of(cands[s.pos as int]) as int] is Some {
        settle(
            cands,
            SearchState { pos: s.pos + 1, dir: None, file_pos: 0, found: s.found },
        )
    } else {
        s
    }
}

/// The question that a search asks next; `None` once every candidate has
/// been examined.
pub open spec fn search_request(cands: Seq<CandidateView>, s: SearchState) -> Option<ProbeView> {
    if s.pos >= cands.len() {
        None
    } else {
        match cands[s.pos as int] {
            CandidateView::OnSearchPath { command, .. } => Some(ProbeView::OnSearchPath(command)),
            CandidateView::Installed { key, value, files, .. } => match s.dir {
                None => Some(ProbeView::RegistryValue(key, value)),
                Some(d) => Some(ProbeView::FileInDir(d, files[s.file_pos as int])),
            },
            CandidateView::AtPath { path, .. } => Some(ProbeView::Exists(path)),
        }
    }
}

/// A search after the answer `a` to its question.
pub open spec fn search_answer(cands: Seq<CandidateView>, s: SearchState, a: Option<Seq<char>>) -> SearchState {
    if s.pos >= cands.len() {
        s
    } else {
        let next = SearchState { pos: s.pos + 1, dir: None, file_pos: 0, found: s.found };
        let r = match cands[s.pos as int] {
            CandidateView::OnSearchPath { slot, command } => match a {
                Some(_) => SearchState { pos: s.pos + 1, dir: None, file_pos: 0, found: s.found.update(slot as int, Some(command)) },
                None => next,
            },
            CandidateView::AtPath { slot, path } => match a {
                Some(_) => SearchState { pos: s.pos + 1, dir: None, file_pos: 0, found: s.found.update(slot as int, Some(path)) },
                None => next,
            },
            CandidateView::Installed { slot, files, .. } => match s.dir {
                None => match a {
                    Some(d) => if files.len() > 0 {
                        SearchState { pos: s.pos, dir: Some(d), file_pos: 0, found: s.found }
                    } else {
                        next
                    },
                    None => next,
                },
                Some(d) => match a {
                    Some(p) => SearchState { pos: s.pos + 1, dir: None, file_pos: 0, found: s.found.update(slot as int, Some(p)) },
                    None => if s.file_pos + 1 < files.len() {
                        SearchState { pos: s.pos, dir: Some(d), file_pos: s.file_pos + 1, found: s.found }
                    } else {
                        next
                    },
                },
            },
        };
        settle(cands, r)
    }
}

/// A search state that fits its candidates: every slot exists, an
/// installation directory is only held while its candidate is examined, and
/// the candidate under examination is for a tool not found yet.
pub open spec fn search_wf(cands: Seq<CandidateView>, s: SearchState) -> bool {
    &&& forall|i: int| 0 <= i < cands.len() ==> slot_of(#[trigger] cands[i]) < s.found.len()
    &&& s.pos <= cands.len()
    &&& s.dir is Some ==> s.pos < cands.len() && (cands[s.pos as int] matches CandidateView::Installed { files, .. } && s.file_pos < files.len())
    &&& s.pos < cands.len() ==> s.found[slot_of(cands[s.pos as int]) as int] is None
}

/// The first state of a search for `n` tools.
pub open spec fn search_start(cands: Seq<CandidateView>, n: nat) -> SearchState {
    settle(cands, SearchState { pos: 0, dir: None, file_pos: 0, found: Seq::new(n, |i: int| None) })
}

/// Moving past found tools' candidates gives a well-formed search and
/// changes nothing that was found.
proof fn lemma_settle(cands: Seq<CandidateView>, s: SearchState)
    requires
        forall|i: int| 0 <= i < cands.len() ==> slot_of(#[trigger] cands[i]) < s.found.len(),
        s.pos <= cands.len(),
        s.dir is Some ==> s.pos < cands.len() && (cands[s.pos as int] matches CandidateView::Installed { files, .. } && s.file_pos < files.len()),
        s.dir is Some ==> s.found[slot_of(cands[s.pos as int]) as int] is None,
    ensures
        search_wf(cands, settle(cands, s)),
        settle(cands, s).found == s.found,
        settle(cands, s).pos >= s.pos,
    decreases cands.len() - s.pos,
{
    if s.pos < cands.len() && s.dir is None && slot_of(cands[s.pos as int]) < s.found.len()
        && s.found[slot_of(cands[s.pos as int]) as int] is Some {
        lemma_settle(cands, SearchState { pos: s.pos + 1, dir: None, file_pos: 0, found: s.found });
    } else {
        if s.pos < cands.len() {
            assert(slot_of(cands[s.pos as int]) < s.found.len());
        }
    }
}

/// Moving past found tools' candidates changes nothing that was found.
proof fn lemma_settle_found(cands: Seq<CandidateView>, s: SearchState)
    ensures
        settle(cands, s).found == s.found,
    decreases cands.len() - s.pos,
{
    if s.pos < cands.len() && s.dir is None && slot_of(cands[s.pos as int]) < s.found.len()
        && s.found[slot_of(cands[s.pos as int]) as int] is Some {
        lemma_settle_found(cands, SearchState { pos: s.pos + 1, dir: None, file_pos: 0, found: s.found });
    }
}

/// Answering never changes the number of tools searched for, and never
/// changes what was found for a tool other than the one examined.
pub proof fn lemma_answer_found(cands: Seq<CandidateView>, s: SearchState, a: Option<Seq<char>>)
    requires
        search_wf(cands, s),
    ensures
        search_answer(cands, s, a).found.len() == s.found.len(),
        forall|k: int| 0 <= k < s.found.len() && s.found[k] is Some ==> #[trigger] search_answer(cands, s, a).found[k] == s.found[k],
{
    if s.pos < cands.len() {
        let next = SearchState { pos: s.pos + 1, dir: None, file_pos: 0, found: s.found };
        lemma_settle_found(cands, next);
        let slot = slot_of(cands[s.pos as int]);
        match cands[s.pos as int] {
            CandidateView::OnSearchPath { slot, command } => {
                lemma_settle_found(cands, SearchState { pos: s.pos + 1, dir: None, file_pos: 0, found: s.found.update(slot as int, Some(command)) });
            },
            CandidateView::AtPath { slot, path } => {
                lemma_settle_found(cands, SearchState { pos: s.pos + 1, dir: None, file_pos: 0, found: s.found.update(slot as int, Some(path)) });
            },
            CandidateView::Installed { slot, files, .. } => {
                match s.dir {
                    None => {
                        if let Some(d) = a {
                            lemma_settle_found(cands, SearchState { pos: s.pos, dir: Some(d), file_pos: 0, found: s.found });
                        }
                    },
                    Some(d) => {
                        match a {
                            Some(p) => {
                                lemma_settle_found(cands, SearchState { pos: s.pos + 1, dir: None, file_pos: 0, found: s.found.update(slot as int, Some(p)) });
                            },
                            None => {
                                lemma_settle_found(cands, SearchState { pos: s.pos, dir: Some(d), file_pos: s.file_pos + 1, found: s.found });
                            },
                        }
                    },
                }
            },
        }
    }
}

/// An answer keeps a search well formed.
pub proof fn lemma_search_answer_wf(cands: Seq<CandidateView>, s: SearchState, a: Option<Seq<char>>)
    requires
        search_wf(cands, s),
    ensures
        search_wf(cands, search_answer(cands, s, a)),
{
    if s.pos < cands.len() {
        let next = SearchState { pos: s.pos + 1, dir: None, file_pos: 0, found: s.found };
        match cands[s.pos as int] {
            CandidateView::OnSearchPath { slot, command } => {
                match a {
                    Some(_) => lemma_settle(cands, SearchState { pos: s.pos + 1, dir: None, file_pos: 0, found: s.found.update(slot as int, Some(command)) }),
                    None => lemma_settle(cands, next),
                }
            },
            CandidateView::AtPath { slot, path } => {
                match a {
                    Some(_) => lemma_settle(cands, SearchState { pos: s.pos + 1, dir: None, file_pos: 0, found: s.found.update(slot as int, Some(path)) }),
                    None => lemma_settle(cands, next),
                }
            },
            CandidateView::Installed { slot, files, .. } => {
                match s.dir {
                    None => {
                        match a {
                            Some(d) => if files.len() > 0 {
                                lemma_settle(cands, SearchState { pos: s.pos, dir: Some(d), file_pos: 0, found: s.found });
                            } else {
                                lemma_settle(cands, next);
                            },
                            None => lemma_settle(cands, next),
                        }
                    },
                    Some(d) => {
                        match a {
                            Some(p) => {
                                lemma_settle(cands, SearchState { pos: s.pos + 1, dir: None, file_pos: 0, found: s.found.update(slot as int, Some(p)) });
                            },
                            None => if s.file_pos + 1 < files.len() {
                                lemma_settle(cands, SearchState { pos: s.pos, dir: Some(d), file_pos: s.file_pos + 1, found: s.found });
                            } else {
                                lemma_settle(cands, next);
                            },
                        }
                    },
                }
            },
        }
    }
}

/// How far a search is from its end, ordered lexicographically: the
/// candidates left, then the questions left on the current one.
pub open spec fn search_rank(cands: Seq<CandidateView>, s: SearchState) -> (nat, nat) {
    let inner = if s.pos < cands.len() {
        match cands[s.pos as int] {
            CandidateView::Installed { files, .. } => match s.dir {
                None => files.len() + 1,
                Some(_) => (files.len() - s.file_pos) as nat,
            },
            _ => 0,
        }
    } else {
        0
    };
    ((cands.len() - s.pos) as nat, inner)
}

proof fn lemma_settle_pos(cands: Seq<CandidateView>, s: SearchState)
    ensures
        settle(cands, s).pos >= s.pos,
        s.pos <= cands.len() ==> settle(cands, s).pos <= cands.len(),
        s.dir is Some ==> settle(cands, s) == s,
    decreases cands.len() - s.pos,
{
    if s.pos < cands.len() && s.dir is None && slot_of(cands[s.pos as int]) < s.found.len()
        && s.found[slot_of(cands[s.pos as int]) as int] is Some {
        lemma_settle_pos(cands, SearchState { pos: s.pos + 1, dir: None, file_pos: 0, found: s.found });
    }
}

/// Every search ends: an answer either comes after the search is over, and
/// changes nothing, or moves the search strictly closer to its end.
pub proof fn lemma_search_progress(cands: Seq<CandidateView>, s: SearchState, a: Option<Seq<char>>)
    requires
        search_wf(cands, s),
    ensures
        s.pos >= cands.len() ==> search_answer(cands, s, a) == s,
        s.pos < cands.len() ==> rank_below(search_rank(cands, search_answer(cands, s, a)), search_rank(cands, s)),
{
    if s.pos < cands.len() {
        let next = SearchState { pos: s.pos + 1, dir: None, file_pos: 0, found: s.found };
        lemma_settle_pos(cands, next);
        match cands[s.pos as int] {
            CandidateView::OnSearchPath { slot, command } => {
                lemma_settle_pos(cands, SearchState { pos: s.pos + 1, dir: None, file_pos: 0, found: s.found.update(slot as int, Some(command)) });
            },
            CandidateView::AtPath { slot, path } => {
                lemma_settle_pos(cands, SearchState { pos: s.pos + 1, dir: None, file_pos: 0, found: s.found.update(slot as int, Some(path)) });
            },
            CandidateView::Installed { slot, files, .. } => {
                match s.dir {
                    None => {
                        if let Some(d) = a {
                            lemma_settle_pos(cands, SearchState { pos: s.pos, dir: Some(d), file_pos: 0, found: s.found });
                        }
                    },
                    Some(d) => {
                        match a {
                            Some(p) => {
                                lemma_settle_pos(cands, SearchState { pos: s.pos + 1, dir: None, file_pos: 0, found: s.found.update(slot as int, Some(p)) });
                            },
                            None => {
                                lemma_settle_pos(cands, SearchState { pos: s.pos, dir: Some(d), file_pos: s.file_pos + 1, found: s.found });
                            },
                        }
                    },
                }
            },
        }
    }
}

/// A search through candidate places for one or more tools; the first
/// place where a tool is found wins, and later places for that tool are not
/// examined.
pub struct ToolSearch {
    candidates: Vec<Candidate>,
    pos: usize,
    dir: Option<String>,
    file_pos: usize,
    found: Vec<Option<String>>,
}

/// The text of an optional string.
pub open spec fn opt_view(o: Option<String>) -> Option<Seq<char>> {
    match o {
        Some(s) => Some(s@),
        None => None,
    }
}

impl ToolSearch {
    /// The candidates, as text.
    pub closed spec fn cands(&self) -> Seq<CandidateView> {
        candidates_view(self.candidates@)
    }

    /// Where the search stands.
    pub closed spec fn state(&self) -> SearchState {
        SearchState {
            pos: self.pos as nat,
            dir: opt_view(self.dir),
            file_pos: self.file_pos as nat,
            found: self.found@.map_values(|o: Option<String>| opt_view(o)),
        }
    }

    /// The search is well formed.
    pub open spec fn wf(&self) -> bool {
        search_wf(self.cands(), self.state())
    }

    /// A search through `candidates` for `tools` tools.
    pub fn new(candidates: Vec<Candidate>, tools: usize) -> (r: ToolSearch)
        requires
            forall|i: int| 0 <= i < candidates@.len() ==> slot_of(#[trigger] candidates@[i]@) < tools,
        ensures
            r.wf(),
            r.cands() == candidates_view(candidates@),
            r.state() == search_start(candidates_view(candidates@), tools as nat),
    {
        let mut found: Vec<Option<String>> = Vec::new();
        let mut i: usize = 0;
        while i < tools
            invariant
                i <= tools,
                found@.len() == i,
                forall|j: int| 0 <= j < i ==> found@[j] is None,
            decreases tools - i,
        {
            found.push(None);
            i = i + 1;
        }
        let mut r = ToolSearch { candidates, pos: 0, dir: None, file_pos: 0, found };
        proof {
            assert(r.state().found =~= Seq::new(tools as nat, |i: int| None::<Seq<char>>));
            assert forall|i: int| 0 <= i < r.cands().len() implies slot_of(#[trigger] r.cands()[i]) < r.state().found.len() by {
                assert(r.cands()[i] == r.candidates@[i]@);
            }
        }
        r.settle();
        r
    }

    fn slot_at(&self, k: usize) -> (s: usize)
        requires
            k < self.candidates@.len(),
        ensures
            s == slot_of(self.cands()[k as int]),
    {
        match &self.candidates[k] {
            Candidate::OnSearchPath { slot, .. } => *slot,
            Candidate::Installed { slot, .. } => *slot,
            Candidate::AtPath { slot, .. } => *slot,
        }
    }

    fn settle(&mut self)
        requires
            forall|i: int| 0 <= i < old(self).cands().len() ==> slot_of(#[trigger] old(self).cands()[i]) < old(self).state().found.len(),
            old(self).pos <= old(self).candidates@.len(),
            old(self).dir is None,
        ensures
            final(self).wf(),
            final(self).cands() == old(self).cands(),
            final(self).state() == settle(old(self).cands(), old(self).state()),
    {
        let ghost cands = self.cands();
        let ghost s0 = self.state();
        proof {
            lemma_settle(cands, s0);
        }
        while self.pos < self.candidates.len() && self.found[self.slot_at(self.pos)].is_some()
            invariant
                cands == self.cands(),
                self.dir is None,
                self.file_pos == 0 || self.pos == s0.pos,
                self.pos <= self.candidates@.len(),
                self.found@.len() == s0.found.len(),
                forall|i: int| 0 <= i < cands.len() ==> slot_of(#[trigger] cands[i]) < s0.found.len(),
                settle(cands, s0) == settle(cands, self.state()),
                self.state().found == s0.found,
                self.state().dir == s0.dir,
            decreases self.candidates@.len() - self.pos,
        {
            proof {
                assert(cands[self.pos as int] == self.candidates@[self.pos as int]@);
            }
            self.pos = self.pos + 1;
            self.file_pos = 0;
        }
        proof {
            if self.pos < self.candidates@.len() {
                assert(cands[self.pos as int] == self.candidates@[self.pos as int]@);
            }
            assert(settle(cands, self.state()) == self.state());
        }
    }

    /// The next question, or `None` once the search is over.
    pub fn request(&self) -> (r: Option<Probe>)
        requires
            self.wf(),
        ensures
            match r {
                Some(p) => search_request(self.cands(), self.state()) == Some(p@),
                None => search_request(self.cands(), self.state()) is None,
            },
    {
        if self.pos >= self.candidates.len() {
            return None;
        }
        proof {
            assert(self.cands()[self.pos as int] == self.candidates@[self.pos as int]@);
        }
        match &self.candidates[self.pos] {
            Candidate::OnSearchPath { command, .. } => Some(Probe::OnSearchPath(command.clone())),
            Candidate::Installed { key, value, files, .. } => match &self.dir {
                None => Some(Probe::RegistryValue(key.clone(), value.clone())),
                Some(d) => {
                    proof {
                        assert(strings_view(files@)[self.file_pos as int] == files@[self.file_pos as int]@);
                    }
                    Some(Probe::FileInDir(d.clone(), files[self.file_pos].clone()))
                },
            },
            Candidate::AtPath { path, .. } => Some(Probe::Exists(path.clone())),
        }
    }

    /// Takes the answer to the current question.
    pub fn answer(&mut self, a: Option<String>)
        requires
            old(self).wf(),
        ensures
            final(self).wf(),
            final(self).cands() == old(self).cands(),
            final(self).state() == search_answer(old(self).cands(), old(self).state(), opt_view(a)),
    {
        let ghost cands = self.cands();
        let ghost s0 = self.state();
        if self.pos >= self.candidates.len() {
            return;
        }
        proof {
            assert(cands[self.pos as int] == self.candidates@[self.pos as int]@);
        }
        let slot = self.slot_at(self.pos);
        let n_files = match &self.candidates[self.pos] {
            Candidate::Installed { files, .. } => files.len(),
            _ => 0,
        };
        let mut record: Option<String> = None;
        let mut stay = false;
        match &self.candidates[self.pos] {
            Candidate::OnSearchPath { command, .. } => {
                if a.is_some() {
                    record = Some(command.clone());
                }
            },
            Candidate::AtPath { path, .. } => {
                if a.is_some() {
                    record = Some(path.clone());
                }
            },
            Candidate::Installed { .. } => {
                if self.dir.is_none() {
                    if a.is_some() && n_files > 0 {
                        stay = true;
                    }
                } else {
                    if a.is_some() {
                        record = a.clone();
                    } else if self.file_pos + 1 < n_files {
                        stay = true;
                    }
                }
            },
        }
        if stay {
            if self.dir.is_none() {
                self.dir = a;
                self.file_pos = 0;
            } else {
                self.file_pos = self.file_pos + 1;
            }
            proof {
                assert(self.state().found =~= s0.found);
                lemma_settle(cands, self.state());
            }
            return;
        }
        match record {
            Some(x) => {
                self.found.set(slot, Some(x));
            },
            None => {},
        }
        self.pos = self.pos + 1;
        self.dir = None;
        self.file_pos = 0;
        proof {
            let ghost fv = s0.found;
            if record is Some {
                assert(self.state().found =~= fv.update(slot as int, opt_view(record)));
            } else {
                assert(self.state().found =~= fv);
            }
        }
        self.settle();
    }

    /// Whether the search is over.
    pub fn finished(&self) -> (r: bool)
        ensures
            r == (self.state().pos >= self.cands().len()),
    {
        self.pos >= self.candidates.len()
    }

    /// What has been found for tool `k`.
    pub fn found(&self, k: usize) -> (r: Option<String>)
        requires
            k < self.state().found.len(),
        ensures
            opt_view(r) == self.state().found[k as int],
    {
        match &self.found[k] {
            Some(s) => Some(s.clone()),
            None => None,
        }
    }

    /// The number of tools searched for.
    pub fn tools(&self) -> (r: usize)
        ensures
            r == self.state().found.len(),
    {
        self.found.len()
    }
}

} // verus!

verus! {

/// A command on the search path, as a candidate.
pub open spec fn on_path(slot: nat, command: Seq<char>) -> CandidateView {
    CandidateView::OnSearchPath { slot, command }
}

/// The registry records of a 7-Zip installation.
pub open spec fn installed_seven_zip(slot: nat) -> Seq<CandidateView> {
    let files = seq!["7z.exe"@];
    seq![
        CandidateView::Installed { slot, key: "HKLM\\SOFTWARE\\7-Zip"@, value: "Path"@, files },
        CandidateView::Installed { slot, key: "HKLM\\SOFTWARE\\WOW6432Node\\7-Zip"@, value: "Path"@, files },
        CandidateView::Installed { slot, key: "HKCU\\SOFTWARE\\7-Zip"@, value: "Path"@, files },
    ]
}

/// The registry records of a Bandizip installation, looking for `files`.
pub open spec fn installed_bandizip(slot: nat, files: Seq<Seq<char>>) -> Seq<CandidateView> {
    seq![
        CandidateView::Installed { slot, key: "HKLM\\SOFTWARE\\Bandizip"@, value: "ProgramFolder"@, files },
        CandidateView::Installed { slot, key: "HKLM\\SOFTWARE\\WOW6432Node\\Bandizip"@, value: "ProgramFolder"@, files },
        CandidateView::Installed { slot, key: "HKCU\\SOFTWARE\\Bandizip"@, value: "ProgramFolder"@, files },
    ]
}

/// Fixed paths, as candidates.
pub open spec fn at_paths(slot: nat, paths: Seq<Seq<char>>) -> Seq<CandidateView> {
    paths.map_values(|p: Seq<char>| CandidateView::AtPath { slot, path: p })
}

/// The usual install locations of 7-Zip.
pub open spec fn seven_zip_paths() -> Seq<Seq<char>> {
    seq!["C:\\Program Files\\7-Zip\\7z.exe"@, "C:\\Program Files (x86)\\7-Zip\\7z.exe"@]
}

/// Where an unconfigured 7-Zip is looked for, in order.
pub open spec fn seven_zip_candidates() -> Seq<CandidateView> {
    seq![on_path(0, "7z"@)] + installed_seven_zip(0) + at_paths(0, seven_zip_paths())
}

/// Where an unconfigured Bandizip is looked for, in order.
pub open spec fn bandizip_candidates() -> Seq<CandidateView> {
    seq![on_path(0, "bz"@), on_path(0, "bc"@)]
        + installed_bandizip(0, seq!["bz.exe"@, "bc.exe"@, "Bandizip.exe"@])
        + at_paths(
        0,
        seq![
            "C:\\Program Files\\Bandizip\\bz.exe"@,
            "C:\\Program Files\\Bandizip\\bc.exe"@,
            "C:\\Program Files\\Bandizip\\Bandizip.exe"@,
            "C:\\Program Files (x86)\\Bandizip\\bz.exe"@,
            "C:\\Program Files (x86)\\Bandizip\\bc.exe"@,
        ],
    )
}

/// Where the tools are looked for when detecting them: 7-Zip is tool 0,
/// Bandizip tool 1.
pub open spec fn detection_candidates() -> Seq<CandidateView> {
    seq![on_path(0, "7z"@), on_path(1, "bc"@)] + installed_seven_zip(0)
        + installed_bandizip(1, seq!["bc.exe"@, "Bandizip.exe"@]) + at_paths(0, seven_zip_paths())
        + at_paths(
        1,
        seq![
            "C:\\Program Files\\Bandizip\\bc.exe"@,
            "C:\\Program Files\\Bandizip\\Bandizip.exe"@,
            "C:\\Program Files (x86)\\Bandizip\\bc.exe"@,
        ],
    )
}

fn push_on_path(v: &mut Vec<Candidate>, slot: usize, command: &str)
    ensures
        candidates_view(final(v)@) == candidates_view(old(v)@).push(on_path(slot as nat, command@)),
{
    v.push(Candidate::OnSearchPath { slot, command: String::from_str(command) });
    assert(candidates_view(final(v)@) =~= candidates_view(old(v)@).push(on_path(slot as nat, command@)));
}

fn push_at_path(v: &mut Vec<Candidate>, slot: usize, path: &str)
    ensures
        candidates_view(final(v)@) == candidates_view(old(v)@).push(CandidateView::AtPath { slot: slot as nat, path: path@ }),
{
    v.push(Candidate::AtPath { slot, path: String::from_str(path) });
    assert(candidates_view(final(v)@) =~= candidates_view(old(v)@).push(CandidateView::AtPath { slot: slot as nat, path: path@ }));
}

fn strings_of(items: &[&str]) -> (r: Vec<String>)
    ensures
        strings_view(r@) == items@.map_values(|s: &str| s@),
{
    let mut r: Vec<String> = Vec::new();
    let mut i: usize = 0;
    while i < items.len()
        invariant
            i <= items@.len(),
            strings_view(r@) == items@.take(i as int).map_values(|s: &str| s@),
        decreases items@.len() - i,
    {
        let ghost old_r = r@;
        let x = String::from_str(items[i]);
        r.push(x);
        assert(strings_view(r@) =~= strings_view(old_r).push(items@[i as int]@));
        assert(items@.take(i + 1) =~= items@.take(i as int).push(items@[i as int]));
        assert(strings_view(r@) =~= items@.take(i + 1).map_values(|s: &str| s@));
        i = i + 1;
    }
    assert(items@.take(items@.len() as int) =~= items@);
    r
}

fn push_installed(v: &mut Vec<Candidate>, slot: usize, key: &str, value: &str, files: &[&str])
    ensures
        candidates_view(final(v)@) == candidates_view(old(v)@).push(
            CandidateView::Installed { slot: slot as nat, key: key@, value: value@, files: files@.map_values(|s: &str| s@) },
        ),
{
    v.push(Candidate::Installed { slot, key: String::from_str(key), value: String::from_str(value), files: strings_of(files) });
    assert(candidates_view(final(v)@) =~= candidates_view(old(v)@).push(
        CandidateView::Installed { slot: slot as nat, key: key@, value: value@, files: files@.map_values(|s: &str| s@) },
    ));
}

fn push_installed_seven_zip(v: &mut Vec<Candidate>, slot: usize)
    ensures
        candidates_view(final(v)@) == candidates_view(old(v)@) + installed_seven_zip(slot as nat),
{
    let files: [&str; 1] = ["7z.exe"];
    assert(files@.map_values(|s: &str| s@) =~= seq!["7z.exe"@]);
    push_installed(v, slot, "HKLM\\SOFTWARE\\7-Zip", "Path", &files);
    push_installed(v, slot, "HKLM\\SOFTWARE\\WOW6432Node\\7-Zip", "Path", &files);
    push_installed(v, slot, "HKCU\\SOFTWARE\\7-Zip", "Path", &files);
    assert(candidates_view(final(v)@) =~= candidates_view(old(v)@) + installed_seven_zip(slot as nat));
}

fn push_installed_bandizip(v: &mut Vec<Candidate>, slot: usize, files: &[&str])
    ensures
        candidates_view(final(v)@) == candidates_view(old(v)@) + installed_bandizip(slot as nat, files@.map_values(|s: &str| s@)),
{
    push_installed(v, slot, "HKLM\\SOFTWARE\\Bandizip", "ProgramFolder", files);
    push_installed(v, slot, "HKLM\\SOFTWARE\\WOW6432Node\\Bandizip", "ProgramFolder", files);
    push_installed(v, slot, "HKCU\\SOFTWARE\\Bandizip", "ProgramFolder", files);
    assert(candidates_view(final(v)@) =~= candidates_view(old(v)@) + installed_bandizip(slot as nat, files@.map_values(|s: &str| s@)));
}

fn push_at_paths(v: &mut Vec<Candidate>, slot: usize, paths: &[&str])
    ensures
        candidates_view(final(v)@) == candidates_view(old(v)@) + at_paths(slot as nat, paths@.map_values(|s: &str| s@)),
{
    let ghost v0 = candidates_view(v@);
    let mut i: usize = 0;
    while i < paths.len()
        invariant
            i <= paths@.len(),
            candidates_view(v@) == v0 + at_paths(slot as nat, paths@.take(i as int).map_values(|s: &str| s@)),
        decreases paths@.len() - i,
    {
        push_at_path(v, slot, paths[i]);
        assert(at_paths(slot as nat, paths@.take(i + 1).map_values(|s: &str| s@)) =~= at_paths(
            slot as nat,
            paths@.take(i as int).map_values(|s: &str| s@),
        ).push(CandidateView::AtPath { slot: slot as nat, path: paths@[i as int]@ }));
        assert(candidates_view(v@) =~= v0 + at_paths(slot as nat, paths@.take(i + 1).map_values(|s: &str| s@)));
        i = i + 1;
    }
    assert(paths@.take(paths@.len() as int) =~= paths@);
}

fn seven_zip_paths_exec() -> (r: [&'static str; 2])
    ensures
        r@.map_values(|s: &str| s@) == seven_zip_paths(),
{
    let r = ["C:\\Program Files\\7-Zip\\7z.exe", "C:\\Program Files (x86)\\7-Zip\\7z.exe"];
    assert(r@.map_values(|s: &str| s@) =~= seven_zip_paths());
    r
}

/// The candidates for an unconfigured 7-Zip.
pub fn seven_zip_search_list() -> (r: Vec<Candidate>)
    ensures
        candidates_view(r@) == seven_zip_candidates(),
{
    let mut v: Vec<Candidate> = Vec::new();
    push_on_path(&mut v, 0, "7z");
    push_installed_seven_zip(&mut v, 0);
    push_at_paths(&mut v, 0, &seven_zip_paths_exec());
    assert(candidates_view(v@) =~= seven_zip_candidates());
    v
}

/// The candidates for an unconfigured Bandizip.
pub fn bandizip_search_list() -> (r: Vec<Candidate>)
    ensures
        candidates_view(r@) == bandizip_candidates(),
{
    let mut v: Vec<Candidate> = Vec::new();
    push_on_path(&mut v, 0, "bz");
    push_on_path(&mut v, 0, "bc");
    let files: [&str; 3] = ["bz.exe", "bc.exe", "Bandizip.exe"];
    assert(files@.map_values(|s: &str| s@) =~= seq!["bz.exe"@, "bc.exe"@, "Bandizip.exe"@]);
    push_installed_bandizip(&mut v, 0, &files);
    let paths: [&str; 5] = [
        "C:\\Program Files\\Bandizip\\bz.exe",
        "C:\\Program Files\\Bandizip\\bc.exe",
        "C:\\Program Files\\Bandizip\\Bandizip.exe",
        "C:\\Program Files (x86)\\Bandizip\\bz.exe",
        "C:\\Program Files (x86)\\Bandizip\\bc.exe",
    ];
    assert(paths@.map_values(|s: &str| s@) =~= seq![
        "C:\\Program Files\\Bandizip\\bz.exe"@,
        "C:\\Program Files\\Bandizip\\bc.exe"@,
        "C:\\Program Files\\Bandizip\\Bandizip.exe"@,
        "C:\\Program Files (x86)\\Bandizip\\bz.exe"@,
        "C:\\Program Files (x86)\\Bandizip\\bc.exe"@,
    ]);
    push_at_paths(&mut v, 0, &paths);
    assert(candidates_view(v@) =~= bandizip_candidates());
    v
}

/// The candidates for detecting both tools.
pub fn detection_search_list() -> (r: Vec<Candidate>)
    ensures
        candidates_view(r@) == detection_candidates(),
{
    let mut v: Vec<Candidate> = Vec::new();
    push_on_path(&mut v, 0, "7z");
    push_on_path(&mut v, 1, "bc");
    push_installed_seven_zip(&mut v, 0);
    let files: [&str; 2] = ["bc.exe", "Bandizip.exe"];
    assert(files@.map_values(|s: &str| s@) =~= seq!["bc.exe"@, "Bandizip.exe"@]);
    push_installed_bandizip(&mut v, 1, &files);
    push_at_paths(&mut v, 0, &seven_zip_paths_exec());
    let paths: [&str; 3] = [
        "C:\\Program Files\\Bandizip\\bc.exe",
        "C:\\Program Files\\Bandizip\\Bandizip.exe",
        "C:\\Program Files (x86)\\Bandizip\\bc.exe",
    ];
    assert(paths@.map_values(|s: &str| s@) =~= seq![
        "C:\\Program Files\\Bandizip\\bc.exe"@,
        "C:\\Program Files\\Bandizip\\Bandizip.exe"@,
        "C:\\Program Files (x86)\\Bandizip\\bc.exe"@,
    ]);
    push_at_paths(&mut v, 1, &paths);
    assert(candidates_view(v@) =~= detection_candidates());
    v
}

} // verus!

verus! {

/// Every candidate of the usual search lists is for one of its tools.
pub proof fn lemma_candidate_slots()
    ensures
        forall|i: int| 0 <= i < seven_zip_candidates().len() ==> slot_of(#[trigger] seven_zip_candidates()[i]) < 1,
        forall|i: int| 0 <= i < bandizip_candidates().len() ==> slot_of(#[trigger] bandizip_candidates()[i]) < 1,
        forall|i: int| 0 <= i < detection_candidates().len() ==> slot_of(#[trigger] detection_candidates()[i]) < 2,
{
    assert(seven_zip_candidates().len() == 6);
    assert(bandizip_candidates().len() == 10);
    assert(detection_candidates().len() == 13);
    assert forall|i: int| 0 <= i < seven_zip_candidates().len() implies slot_of(#[trigger] seven_zip_candidates()[i]) < 1 by {
        if i == 0 {} else if i == 1 {} else if i == 2 {} else if i == 3 {} else if i == 4 {} else if i == 5 {}
    }
    assert forall|i: int| 0 <= i < bandizip_candidates().len() implies slot_of(#[trigger] bandizip_candidates()[i]) < 1 by {
        if i == 0 {} else if i == 1 {} else if i == 2 {} else if i == 3 {} else if i == 4 {} else if i == 5 {} else if i == 6 {} else if i == 7 {} else if i == 8 {} else if i == 9 {}
    }
    assert forall|i: int| 0 <= i < detection_candidates().len() implies slot_of(#[trigger] detection_candidates()[i]) < 2 by {
        if i == 0 {} else if i == 1 {} else if i == 2 {} else if i == 3 {} else if i == 4 {} else if i == 5 {} else if i == 6 {} else if i == 7 {} else if i == 8 {} else if i == 9 {} else if i == 10 {} else if i == 11 {} else if i == 12 {}
    }
}

/// The executables looked for inside a configured directory.
pub open spec fn dir_exe_names(seven_zip: bool) -> Seq<Seq<char>> {
    if seven_zip {
        seq!["7z.exe"@, "7Z.exe"@]
    } else {
        seq!["bz.exe"@, "bc.exe"@, "Bandizip.exe"@, "BZ.exe"@, "BC.exe"@, "BANDIZIP.exe"@]
    }
}

/// The command-line executables looked for next to `Bandizip.exe`.
pub open spec fn beside_gui_names() -> Seq<Seq<char>> {
    seq!["bz.exe"@, "bc.exe"@]
}

/// How many times the directory lookup is made: twice when the configured
/// path does not end in `.exe` (in any ASCII case), once otherwise.
/// Lower-casing a path and testing for the suffix `.exe` agrees with the
/// test up to ASCII case, as no character outside ASCII lower-cases to a
/// text ending in one of these letters.
pub open spec fn dir_rounds(cleaned: Seq<char>) -> nat {
    if has_suffix_fold(cleaned, ".exe"@) {
        1
    } else {
        2
    }
}

/// The candidates searched when no path is configured.
pub open spec fn auto_candidates(seven_zip: bool) -> Seq<CandidateView> {
    if seven_zip {
        seven_zip_candidates()
    } else {
        bandizip_candidates()
    }
}

/// The stage of a resolution.
pub enum ResolveStage {
    /// No path is configured: the usual places are searched.
    Searching,
    /// A path is configured: is it an existing file?
    CheckingFile,
    /// The configured file is `Bandizip.exe`: looking for the command-line
    /// executable with the given index beside it.
    BesideFile(nat),
    /// Looking inside the configured path for the executable with the given
    /// index, in the given round.
    InDir(nat, nat),
    /// Resolved.
    Done(Option<Seq<char>>),
}

/// Where a resolution stands.
pub struct ResolveState {
    pub stage: ResolveStage,
    pub search: SearchState,
}

/// The stage once a search has moved: done when it is over, with what it
/// found.
pub open spec fn after_search(cands: Seq<CandidateView>, s: SearchState) -> ResolveStage {
    if s.pos >= cands.len() {
        ResolveStage::Done(s.found[0])
    } else {
        ResolveStage::Searching
    }
}

/// The first state of a resolution for the cleaned path `cleaned`.
pub open spec fn resolve_start(cleaned: Seq<char>, seven_zip: bool) -> ResolveState {
    let search = search_start(auto_candidates(seven_zip), 1);
    if cleaned.len() == 0 {
        ResolveState { stage: after_search(auto_candidates(seven_zip), search), search }
    } else {
        ResolveState { stage: ResolveStage::CheckingFile, search }
    }
}

/// The question that a resolution asks next; `None` once it is resolved.
pub open spec fn resolve_request(cleaned: Seq<char>, seven_zip: bool, st: ResolveState) -> Option<ProbeView> {
    match st.stage {
        ResolveStage::Searching => search_request(auto_candidates(seven_zip), st.search),
        ResolveStage::CheckingFile => Some(ProbeView::ExistingFile(cleaned)),
        ResolveStage::BesideFile(k) => Some(ProbeView::BesideFile(cleaned, beside_gui_names()[k as int])),
        ResolveStage::InDir(_, n) => Some(ProbeView::FileInDir(cleaned, dir_exe_names(seven_zip)[n as int])),
        ResolveStage::Done(_) => None,
    }
}

/// A resolution after the answer `a` to its question. A configured file is
/// used as it is, except `Bandizip.exe` (in any ASCII case), for which a
/// command-line executable beside it is preferred; a configured directory
/// is searched for the executables; failing all that, the configured path
/// is used as it is.
pub open spec fn resolve_answer(cleaned: Seq<char>, seven_zip: bool, st: ResolveState, a: Option<Seq<char>>) -> ResolveState {
    match st.stage {
        ResolveStage::Searching => {
            let s2 = search_answer(auto_candidates(seven_zip), st.search, a);
            ResolveState { stage: after_search(auto_candidates(seven_zip), s2), search: s2 }
        },
        ResolveStage::CheckingFile => {
            let stage = match a {
                None => ResolveStage::InDir(0, 0),
                Some(name) => if eq_fold(name, "bandizip.exe"@) {
                    ResolveStage::BesideFile(0)
                } else {
                    ResolveStage::Done(Some(cleaned))
                },
            };
            ResolveState { stage, search: st.search }
        },
        ResolveStage::BesideFile(k) => {
            let stage = match a {
                Some(p) => ResolveStage::Done(Some(p)),
                None => if k + 1 < beside_gui_names().len() {
                    ResolveStage::BesideFile(k + 1)
                } else {
                    ResolveStage::Done(Some(cleaned))
                },
            };
            ResolveState { stage, search: st.search }
        },
        ResolveStage::InDir(r, n) => {
            let stage = match a {
                Some(p) => ResolveStage::Done(Some(p)),
                None => if n + 1 < dir_exe_names(seven_zip).len() {
                    ResolveStage::InDir(r, n + 1)
                } else if r + 1 < dir_rounds(cleaned) {
                    ResolveStage::InDir(r + 1, 0)
                } else {
                    ResolveStage::Done(Some(cleaned))
                },
            };
            ResolveState { stage, search: st.search }
        },
        ResolveStage::Done(_) => st,
    }
}

/// A resolution state that fits its configuration: a search in progress
/// is well formed and not over, and the indices into the lists of names are
/// in range.
pub open spec fn resolve_state_wf(cleaned: Seq<char>, seven_zip: bool, st: ResolveState) -> bool {
    match st.stage {
        ResolveStage::Searching => search_wf(auto_candidates(seven_zip), st.search) && st.search.pos < auto_candidates(
            seven_zip,
        ).len(),
        ResolveStage::BesideFile(k) => k < beside_gui_names().len(),
        ResolveStage::InDir(r, n) => n < dir_exe_names(seven_zip).len() && r < dir_rounds(cleaned),
        _ => true,
    }
}

/// How far a resolution is from its end, ordered lexicographically.
pub open spec fn resolve_rank(cleaned: Seq<char>, seven_zip: bool, st: ResolveState) -> (nat, nat) {
    let names = dir_exe_names(seven_zip).len();
    match st.stage {
        ResolveStage::Done(_) => (0, 0),
        ResolveStage::InDir(r, n) => (
            1,
            (if r == 0 && dir_rounds(cleaned) == 2 {
                names + (names - n)
            } else {
                names - n
            }) as nat,
        ),
        ResolveStage::BesideFile(k) => (2, (beside_gui_names().len() - k) as nat),
        ResolveStage::CheckingFile => (3, 0),
        ResolveStage::Searching => {
            let (x, y) = search_rank(auto_candidates(seven_zip), st.search);
            (4 + x, y)
        },
    }
}

/// Every resolution ends, well formed: each answer keeps its state well
/// formed, and either comes once it is resolved, changing nothing, or moves
/// it strictly closer to its end.
pub proof fn lemma_resolve_progress(cleaned: Seq<char>, seven_zip: bool, st: ResolveState, a: Option<Seq<char>>)
    requires
        resolve_state_wf(cleaned, seven_zip, st),
    ensures
        resolve_state_wf(cleaned, seven_zip, resolve_answer(cleaned, seven_zip, st, a)),
        st.stage is Done ==> resolve_answer(cleaned, seven_zip, st, a) == st,
        !(st.stage is Done) ==> rank_below(
            resolve_rank(cleaned, seven_zip, resolve_answer(cleaned, seven_zip, st, a)),
            resolve_rank(cleaned, seven_zip, st),
        ),
{
    if st.stage is Searching {
        let cands = auto_candidates(seven_zip);
        lemma_search_progress(cands, st.search, a);
        lemma_answer_found(cands, st.search, a);
        lemma_search_answer_wf(cands, st.search, a);
    }
}

enum Stage {
    Searching,
    CheckingFile,
    BesideFile(usize),
    InDir(usize, usize),
    Done(Option<String>),
}

/// The resolution of the executable of an archiver from its configured
/// path, driven by the answers to its questions.
pub struct ExeResolver {
    cleaned: String,
    seven_zip: bool,
    stage: Stage,
    search: ToolSearch,
}

impl ExeResolver {
    /// The configured path, cleaned.
    pub closed spec fn cleaned(&self) -> Seq<char> {
        self.cleaned@
    }

    /// Whether the archiver is 7-Zip (else Bandizip).
    pub closed spec fn seven_zip(&self) -> bool {
        self.seven_zip
    }

    /// Where the resolution stands.
    pub closed spec fn state(&self) -> ResolveState {
        ResolveState {
            stage: match self.stage {
                Stage::Searching => ResolveStage::Searching,
                Stage::CheckingFile => ResolveStage::CheckingFile,
                Stage::BesideFile(k) => ResolveStage::BesideFile(k as nat),
                Stage::InDir(r, n) => ResolveStage::InDir(r as nat, n as nat),
                Stage::Done(o) => ResolveStage::Done(opt_view(o)),
            },
            search: self.search.state(),
        }
    }

    /// The resolution is well formed; a configured path is never searched
    /// for and always resolves to something.
    pub closed spec fn wf(&self) -> bool {
        &&& self.search.wf()
        &&& self.search.cands() == auto_candidates(self.seven_zip)
        &&& self.search.state().found.len() == 1
        &&& (self.stage is Searching ==> self.cleaned@.len() == 0 && self.search.state().pos < self.search.cands().len())
        &&& (self.cleaned@.len() > 0 ==> !(self.stage is Searching))
        &&& (self.cleaned@.len() > 0 ==> (self.stage matches Stage::Done(r) ==> r is Some))
        &&& (self.stage matches Stage::BesideFile(k) ==> k < 2)
        &&& (self.stage matches Stage::InDir(r, n) ==> n < dir_exe_names(self.seven_zip).len() && r < dir_rounds(self.cleaned@))
    }

    /// The next question, or `None` once resolved.
    pub fn request(&self) -> (r: Option<Probe>)
        requires
            self.wf(),
        ensures
            match r {
                Some(p) => resolve_request(self.cleaned(), self.seven_zip(), self.state()) == Some(p@),
                None => resolve_request(self.cleaned(), self.seven_zip(), self.state()) is None,
            },
    {
        match &self.stage {
            Stage::Searching => self.search.request(),
            Stage::CheckingFile => Some(Probe::ExistingFile(self.cleaned.clone())),
            Stage::BesideFile(k) => {
                let names: [&str; 2] = ["bz.exe", "bc.exe"];
                assert(names@.map_values(|s: &str| s@) =~= beside_gui_names());
                assert(names@[*k as int]@ == beside_gui_names()[*k as int]);
                Some(Probe::BesideFile(self.cleaned.clone(), String::from_str(names[*k])))
            },
            Stage::InDir(_, n) => {
                let name = dir_exe_name(self.seven_zip, *n);
                Some(Probe::FileInDir(self.cleaned.clone(), name))
            },
            Stage::Done(_) => None,
        }
    }

    /// Takes the answer to the current question.
    pub fn answer(&mut self, a: Option<String>)
        requires
            old(self).wf(),
        ensures
            final(self).wf(),
            final(self).cleaned() == old(self).cleaned(),
            final(self).seven_zip() == old(self).seven_zip(),
            final(self).state() == resolve_answer(old(self).cleaned(), old(self).seven_zip(), old(self).state(), opt_view(a)),
    {
        match self.stage {
            Stage::Searching => {
                proof {
                    lemma_answer_found(self.search.cands(), self.search.state(), opt_view(a));
                }
                self.search.answer(a);
                if self.search.finished() {
                    let r = self.search.found(0);
                    self.stage = Stage::Done(r);
                }
            },
            Stage::CheckingFile => {
                match a {
                    None => {
                        self.stage = Stage::InDir(0, 0);
                    },
                    Some(name) => {
                        let gui = chars_of("bandizip.exe");
                        let v = chars_of(name.as_str());
                        proof {
                            reveal_strlit("bandizip.exe");
                            assert(v@.subrange(0, v@.len() as int) =~= v@);
                        }
                        if range_eq_fold(&v, 0, v.len(), &gui) {
                            self.stage = Stage::BesideFile(0);
                        } else {
                            self.stage = Stage::Done(Some(self.cleaned.clone()));
                        }
                    },
                }
            },
            Stage::BesideFile(k) => {
                match a {
                    Some(p) => {
                        self.stage = Stage::Done(Some(p));
                    },
                    None => {
                        if k + 1 < 2 {
                            self.stage = Stage::BesideFile(k + 1);
                        } else {
                            self.stage = Stage::Done(Some(self.cleaned.clone()));
                        }
                    },
                }
            },
            Stage::InDir(r, n) => {
                match a {
                    Some(p) => {
                        self.stage = Stage::Done(Some(p));
                    },
                    None => {
                        let count = if self.seven_zip { 2 } else { 6 };
                        if n + 1 < count {
                            self.stage = Stage::InDir(r, n + 1);
                        } else if r == 0 && !ends_with_exe(self.cleaned.as_str()) {
                            self.stage = Stage::InDir(1, 0);
                        } else {
                            self.stage = Stage::Done(Some(self.cleaned.clone()));
                        }
                    },
                }
            },
            Stage::Done(_) => {},
        }
    }

    /// The resolved executable, once resolved: `Some(None)` when nothing was
    /// configured and nothing found.
    pub fn resolved(&self) -> (r: Option<Option<String>>)
        requires
            self.wf(),
        ensures
            match r {
                Some(o) => self.state().stage == ResolveStage::Done(opt_view(o)),
                None => !(self.state().stage is Done),
            },
            self.cleaned().len() > 0 ==> (r matches Some(o) ==> o is Some),
    {
        match &self.stage {
            Stage::Done(o) => Some(o.clone()),
            _ => None,
        }
    }
}

fn dir_exe_name(seven_zip: bool, n: usize) -> (r: String)
    requires
        n < dir_exe_names(seven_zip).len(),
    ensures
        r@ == dir_exe_names(seven_zip)[n as int],
{
    if seven_zip {
        let names: [&str; 2] = ["7z.exe", "7Z.exe"];
        assert(names@.map_values(|s: &str| s@) =~= dir_exe_names(seven_zip));
        assert(names@[n as int]@ == dir_exe_names(seven_zip)[n as int]);
        String::from_str(names[n])
    } else {
        let names: [&str; 6] = ["bz.exe", "bc.exe", "Bandizip.exe", "BZ.exe", "BC.exe", "BANDIZIP.exe"];
        assert(names@.map_values(|s: &str| s@) =~= dir_exe_names(seven_zip));
        assert(names@[n as int]@ == dir_exe_names(seven_zip)[n as int]);
        String::from_str(names[n])
    }
}

fn ends_with_exe(s: &str) -> (r: bool)
    ensures
        r == has_suffix_fold(s@, ".exe"@),
{
    let v = chars_of(s);
    let ext = chars_of(".exe");
    proof {
        reveal_strlit(".exe");
    }
    if v.len() < 4 {
        return false;
    }
    assert(v@.subrange(v.len() - 4, v.len() as int) =~= v@.skip(v@.len() - 4));
    range_eq_fold(&v, v.len() - 4, v.len(), &ext)
}

/// Starts resolving the executable of an archiver (`exe_type` is `7z` for
/// 7-Zip, anything else for Bandizip) from its configured file or
/// directory `dir_or_path`, which is cleaned first; a blank one means the
/// usual places are searched.
pub fn resolve_exe_path(dir_or_path: &str, exe_type: &str) -> (r: ExeResolver)
    ensures
        r.wf(),
        r.cleaned() == cleaned_path(dir_or_path@),
        r.seven_zip() == (exe_type@ == "7z"@),
        r.state() == resolve_start(r.cleaned(), r.seven_zip()),
        resolve_state_wf(r.cleaned(), r.seven_zip(), r.state()),
{
    let cleaned = clean_path(dir_or_path);
    let seven_zip = crate::text::str_eq(exe_type, "7z");
    let list = if seven_zip {
        seven_zip_search_list()
    } else {
        bandizip_search_list()
    };
    proof {
        reveal_strlit("7z");
        lemma_candidate_slots();
        assert forall|i: int| 0 <= i < list@.len() implies slot_of(#[trigger] list@[i]@) < 1 by {
            assert(candidates_view(list@)[i] == list@[i]@);
        }
    }
    let search = ToolSearch::new(list, 1);
    let blank = cleaned.as_str().unicode_len() == 0;
    let stage = if blank {
        if search.finished() {
            Stage::Done(search.found(0))
        } else {
            Stage::Searching
        }
    } else {
        Stage::CheckingFile
    };
    ExeResolver { cleaned, seven_zip, stage, search }
}

/// What was found of the two archivers.
pub struct DetectedTools {
    pub seven_zip: Option<String>,
    pub bandizip: Option<String>,
}

/// Starts detecting both archivers: 7-Zip is tool 0, Bandizip tool 1.
pub fn detect_tools_search() -> (r: ToolSearch)
    ensures
        r.wf(),
        r.cands() == detection_candidates(),
        r.state() == search_start(detection_candidates(), 2),
{
    let list = detection_search_list();
    proof {
        lemma_candidate_slots();
        assert forall|i: int| 0 <= i < list@.len() implies slot_of(#[trigger] list@[i]@) < 2 by {
            assert(candidates_view(list@)[i] == list@[i]@);
        }
    }
    ToolSearch::new(list, 2)
}

/// What a finished detection found.
pub fn detected_tools(search: &ToolSearch) -> (r: DetectedTools)
    requires
        search.wf(),
        search.state().found.len() == 2,
    ensures
        opt_view(r.seven_zip) == search.state().found[0],
        opt_view(r.bandizip) == search.state().found[1],
{
    DetectedTools { seven_zip: search.found(0), bandizip: search.found(1) }
}

} // verus!

verus! {

/// The answers of an environment to the questions of a search.
pub type Answers = spec_fn(ProbeView) -> Option<Seq<char>>;

/// The first of `files`, from index `from`, found in the directory `d`:
/// what the environment answers for it.
pub open spec fn first_file(d: Seq<char>, files: Seq<Seq<char>>, from: nat, env: Answers) -> Option<Seq<char>>
    decreases files.len() - from,
{
    if from >= files.len() {
        None
    } else {
        match env(ProbeView::FileInDir(d, files[from as int])) {
            Some(p) => Some(p),
            None => first_file(d, files, from + 1, env),
        }
    }
}

/// What a candidate yields in the environment `env`.
pub open spec fn candidate_result(c: CandidateView, env: Answers) -> Option<Seq<char>> {
    match c {
        CandidateView::OnSearchPath { command, .. } => if env(ProbeView::OnSearchPath(command)) is Some {
            Some(command)
        } else {
            None
        },
        CandidateView::AtPath { path, .. } => if env(ProbeView::Exists(path)) is Some {
            Some(path)
        } else {
            None
        },
        CandidateView::Installed { key, value, files, .. } => match env(ProbeView::RegistryValue(key, value)) {
            Some(d) => first_file(d, files, 0, env),
            None => None,
        },
    }
}

/// What the first of the candidates for tool `k`, from index `i`, that
/// yields something yields.
pub open spec fn first_found(cands: Seq<CandidateView>, k: nat, i: nat, env: Answers) -> Option<Seq<char>>
    decreases cands.len() - i,
{
    if i >= cands.len() {
        None
    } else if slot_of(cands[i as int]) == k && candidate_result(cands[i as int], env) is Some {
        candidate_result(cands[i as int], env)
    } else {
        first_found(cands, k, i + 1, env)
    }
}

/// A search run to its end, each question answered by `env`.
pub open spec fn search_run(cands: Seq<CandidateView>, s: SearchState, env: Answers) -> SearchState
    decreases search_rank(cands, s).0, search_rank(cands, s).1 when search_wf(cands, s)
{
    if s.pos >= cands.len() {
        s
    } else {
        let a = env(search_request(cands, s)->0);
        proof {
            lemma_search_progress(cands, s, a);
        }
        search_run(cands, search_answer(cands, s, a), env)
    }
}

/// What a search will still find for tool `k`, from where it stands.
pub open spec fn pending_result(cands: Seq<CandidateView>, s: SearchState, k: nat, env: Answers) -> Option<Seq<char>> {
    if s.found[k as int] is Some {
        s.found[k as int]
    } else if s.pos >= cands.len() {
        None
    } else {
        let here = if slot_of(cands[s.pos as int]) == k {
            match (cands[s.pos as int], s.dir) {
                (CandidateView::Installed { files, .. }, Some(d)) => first_file(d, files, s.file_pos, env),
                (c, _) => candidate_result(c, env),
            }
        } else {
            None
        };
        if here is Some {
            here
        } else {
            first_found(cands, k, s.pos + 1, env)
        }
    }
}

proof fn lemma_pending_no_dir(cands: Seq<CandidateView>, s: SearchState, k: nat, env: Answers)
    requires
        s.dir is None,
        k < s.found.len(),
        s.found[k as int] is None,
    ensures
        pending_result(cands, s, k, env) == first_found(cands, k, s.pos, env),
{
}

proof fn lemma_pending_settle(cands: Seq<CandidateView>, s: SearchState, k: nat, env: Answers)
    requires
        k < s.found.len(),
    ensures
        pending_result(cands, settle(cands, s), k, env) == pending_result(cands, s, k, env),
    decreases cands.len() - s.pos,
{
    if s.pos < cands.len() && s.dir is None && slot_of(cands[s.pos as int]) < s.found.len()
        && s.found[slot_of(cands[s.pos as int]) as int] is Some {
        let next = SearchState { pos: s.pos + 1, dir: None, file_pos: 0, found: s.found };
        lemma_pending_settle(cands, next, k, env);
        if s.found[k as int] is None {
            lemma_pending_no_dir(cands, s, k, env);
            lemma_pending_no_dir(cands, next, k, env);
        }
    }
}

proof fn lemma_pending_answer(cands: Seq<CandidateView>, s: SearchState, k: nat, env: Answers)
    requires
        search_wf(cands, s),
        s.pos < cands.len(),
        k < s.found.len(),
    ensures
        pending_result(cands, search_answer(cands, s, env(search_request(cands, s)->0)), k, env) == pending_result(cands, s, k, env),
{
    let a = env(search_request(cands, s)->0);
    let c = cands[s.pos as int];
    let next = SearchState { pos: s.pos + 1, dir: None, file_pos: 0, found: s.found };
    let r = match c {
        CandidateView::OnSearchPath { slot, command } => match a {
            Some(_) => SearchState { pos: s.pos + 1, dir: None, file_pos: 0, found: s.found.update(slot as int, Some(command)) },
            None => next,
        },
        CandidateView::AtPath { slot, path } => match a {
            Some(_) => SearchState { pos: s.pos + 1, dir: None, file_pos: 0, found: s.found.update(slot as int, Some(path)) },
            None => next,
        },
        CandidateView::Installed { slot, files, .. } => match s.dir {
            None => match a {
                Some(d) => if files.len() > 0 {
                    SearchState { pos: s.pos, dir: Some(d), file_pos: 0, found: s.found }
                } else {
                    next
                },
                None => next,
            },
            Some(d) => match a {
                Some(p) => SearchState { pos: s.pos + 1, dir: None, file_pos: 0, found: s.found.update(slot as int, Some(p)) },
                None => if s.file_pos + 1 < files.len() {
                    SearchState { pos: s.pos, dir: Some(d), file_pos: s.file_pos + 1, found: s.found }
                } else {
                    next
                },
            },
        },
    };
    assert(search_answer(cands, s, a) == settle(cands, r));
    lemma_pending_settle(cands, r, k, env);
    let j = slot_of(c);
    assert(s.found[j as int] is None);
    assert(r.found[k as int] == s.found[k as int] || j == k);
    if s.found[k as int] is Some {
        assert(j != k);
        assert(r.found[k as int] == s.found[k as int]);
    } else if j != k {
        assert(r.found[k as int] is None);
        if r.pos == s.pos + 1 {
            lemma_pending_no_dir(cands, r, k, env);
        }
        assert(pending_result(cands, s, k, env) == first_found(cands, k, s.pos + 1, env));
        assert(pending_result(cands, r, k, env) == first_found(cands, k, s.pos + 1, env));
    } else {
        match c {
            CandidateView::OnSearchPath { command, .. } => {
                assert(a == env(ProbeView::OnSearchPath(command)));
                if a is None {
                    lemma_pending_no_dir(cands, r, k, env);
                }
            },
            CandidateView::AtPath { path, .. } => {
                assert(a == env(ProbeView::Exists(path)));
                if a is None {
                    lemma_pending_no_dir(cands, r, k, env);
                }
            },
            CandidateView::Installed { key, value, files, .. } => {
                match s.dir {
                    None => {
                        assert(a == env(ProbeView::RegistryValue(key, value)));
                        assert(candidate_result(c, env) == match a {
                            Some(d) => first_file(d, files, 0, env),
                            None => None,
                        });
                        if a is Some && files.len() > 0 {
                            assert(pending_result(cands, r, k, env) == pending_result(cands, s, k, env));
                        } else {
                            if a is Some {
                                assert(first_file(a->0, files, 0, env) is None);
                            }
                            lemma_pending_no_dir(cands, r, k, env);
                        }
                    },
                    Some(d) => {
                        assert(a == env(ProbeView::FileInDir(d, files[s.file_pos as int])));
                        assert(first_file(d, files, s.file_pos, env) == match a {
                            Some(p) => Some(p),
                            None => first_file(d, files, s.file_pos + 1, env),
                        });
                        if a is None {
                            if s.file_pos + 1 < files.len() {
                            } else {
                                assert(first_file(d, files, s.file_pos + 1, env) is None);
                                lemma_pending_no_dir(cands, r, k, env);
                            }
                        }
                    },
                }
            },
        }
    }
}

proof fn lemma_search_run_found(cands: Seq<CandidateView>, s: SearchState, k: nat, env: Answers)
    requires
        search_wf(cands, s),
        k < s.found.len(),
    ensures
        search_run(cands, s, env).found[k as int] == pending_result(cands, s, k, env),
    decreases search_rank(cands, s).0, search_rank(cands, s).1,
{
    if s.pos < cands.len() {
        let a = env(search_request(cands, s)->0);
        lemma_search_progress(cands, s, a);
        lemma_search_answer_wf(cands, s, a);
        lemma_answer_found(cands, s, a);
        lemma_pending_answer(cands, s, k, env);
        lemma_search_run_found(cands, search_answer(cands, s, a), k, env);
    }
}

/// The first place where a tool is found wins: a search for `n` tools run
/// to its end in any environment finds, for each tool, what the first of
/// that tool's candidates to yield something yields (and nothing when none
/// does).
pub proof fn lemma_search_finds_first(cands: Seq<CandidateView>, n: nat, k: nat, env: Answers)
    requires
        forall|i: int| 0 <= i < cands.len() ==> slot_of(#[trigger] cands[i]) < n,
        k < n,
    ensures
        search_wf(cands, search_start(cands, n)),
        search_run(cands, search_start(cands, n), env).found[k as int] == first_found(cands, k, 0, env),
{
    let s0 = SearchState { pos: 0, dir: None, file_pos: 0, found: Seq::new(n, |i: int| None) };
    lemma_settle(cands, s0);
    lemma_pending_settle(cands, s0, k, env);
    lemma_pending_no_dir(cands, s0, k, env);
    lemma_search_run_found(cands, search_start(cands, n), k, env);
}

/// A resolution run to its end, each question answered by `env`.
pub open spec fn resolve_run(cleaned: Seq<char>, seven_zip: bool, st: ResolveState, env: Answers) -> ResolveState
    decreases resolve_rank(cleaned, seven_zip, st).0, resolve_rank(cleaned, seven_zip, st).1 when resolve_state_wf(
        cleaned,
        seven_zip,
        st,
    )
{
    if st.stage is Done {
        st
    } else {
        let a = env(resolve_request(cleaned, seven_zip, st)->0);
        proof {
            lemma_resolve_progress(cleaned, seven_zip, st, a);
        }
        resolve_run(cleaned, seven_zip, resolve_answer(cleaned, seven_zip, st, a), env)
    }
}

proof fn lemma_resolve_run_search(cleaned: Seq<char>, seven_zip: bool, st: ResolveState, env: Answers)
    requires
        resolve_state_wf(cleaned, seven_zip, st),
        st.stage is Searching,
    ensures
        resolve_run(cleaned, seven_zip, st, env).stage == ResolveStage::Done(
            search_run(auto_candidates(seven_zip), st.search, env).found[0],
        ),
    decreases search_rank(auto_candidates(seven_zip), st.search).0, search_rank(auto_candidates(seven_zip), st.search).1,
{
    let cands = auto_candidates(seven_zip);
    let a = env(search_request(cands, st.search)->0);
    lemma_resolve_progress(cleaned, seven_zip, st, a);
    lemma_search_progress(cands, st.search, a);
    lemma_search_answer_wf(cands, st.search, a);
    let st2 = resolve_answer(cleaned, seven_zip, st, a);
    let s2 = search_answer(cands, st.search, a);
    assert(resolve_request(cleaned, seven_zip, st) == search_request(cands, st.search));
    assert(st2.search == s2);
    assert(resolve_run(cleaned, seven_zip, st, env) == resolve_run(cleaned, seven_zip, st2, env));
    assert(search_run(cands, st.search, env) == search_run(cands, s2, env));
    if st2.stage is Searching {
        lemma_resolve_run_search(cleaned, seven_zip, st2, env);
    } else {
        assert(s2.pos >= cands.len());
        assert(search_run(cands, s2, env) == s2);
        assert(resolve_run(cleaned, seven_zip, st2, env) == st2);
    }
}

/// Detection finds 7-Zip where resolving an unconfigured 7-Zip does: in any
/// environment `env` answering the questions, the 7-Zip that the detection
/// search finds is the path that `resolve_exe_path` resolves a blank path
/// with `7z` to, both being what the first 7-Zip candidate to yield
/// something yields.
pub proof fn lemma_detection_agrees(env: Answers)
    ensures
        search_wf(detection_candidates(), search_start(detection_candidates(), 2)),
        resolve_state_wf(seq![], true, resolve_start(seq![], true)),
        resolve_run(seq![], true, resolve_start(seq![], true), env).stage == ResolveStage::Done(
            search_run(detection_candidates(), search_start(detection_candidates(), 2), env).found[0],
        ),
        search_run(detection_candidates(), search_start(detection_candidates(), 2), env).found[0] == first_found(
            seven_zip_candidates(),
            0,
            0,
            env,
        ),
{
    lemma_candidate_slots();
    let d = detection_candidates();
    let z = seven_zip_candidates();
    lemma_search_finds_first(d, 2, 0, env);
    lemma_search_finds_first(z, 1, 0, env);
    // the two lists hold the same 7-Zip candidates, in the same order
    assert(d.len() == 13 && z.len() == 6);
    assert(first_found(d, 0, 13, env) == first_found(z, 0, 6, env));
    assert(d[12] == at_paths(1, seq!["C:\\Program Files\\Bandizip\\bc.exe"@, "C:\\Program Files\\Bandizip\\Bandizip.exe"@, "C:\\Program Files (x86)\\Bandizip\\bc.exe"@])[2]);
    assert(slot_of(d[12]) == 1 && slot_of(d[11]) == 1 && slot_of(d[10]) == 1);
    assert(first_found(d, 0, 12, env) == first_found(z, 0, 6, env));
    assert(first_found(d, 0, 11, env) == first_found(z, 0, 6, env));
    assert(first_found(d, 0, 10, env) == first_found(z, 0, 6, env));
    assert(d[9] == z[5] && d[8] == z[4]);
    assert(first_found(d, 0, 9, env) == first_found(z, 0, 5, env));
    assert(first_found(d, 0, 8, env) == first_found(z, 0, 4, env));
    assert(slot_of(d[7]) == 1 && slot_of(d[6]) == 1 && slot_of(d[5]) == 1);
    assert(first_found(d, 0, 7, env) == first_found(z, 0, 4, env));
    assert(first_found(d, 0, 6, env) == first_found(z, 0, 4, env));
    assert(first_found(d, 0, 5, env) == first_found(z, 0, 4, env));
    assert(d[4] == z[3] && d[3] == z[2] && d[2] == z[1]);
    assert(first_found(d, 0, 4, env) == first_found(z, 0, 3, env));
    assert(first_found(d, 0, 3, env) == first_found(z, 0, 2, env));
    assert(first_found(d, 0, 2, env) == first_found(z, 0, 1, env));
    assert(slot_of(d[1]) == 1 && d[0] == z[0]);
    assert(first_found(d, 0, 1, env) == first_found(z, 0, 1, env));
    assert(first_found(d, 0, 0, env) == first_found(z, 0, 0, env));
    // resolving a blank 7-Zip path runs the 7-Zip search
    let st = resolve_start(seq![], true);
    let s0 = search_start(z, 1);
    if s0.pos >= z.len() {
        assert(resolve_run(seq![], true, st, env) == st);
    } else {
        lemma_resolve_run_search(seq![], true, st, env);
    }
}

/// A configured path that is not an existing file is searched as a
/// directory for the console tools first: for Bandizip `bz.exe`, `bc.exe`,
/// `Bandizip.exe`, `BZ.exe`, `BC.exe`, `BANDIZIP.exe`, for 7-Zip `7z.exe`,
/// `7Z.exe`, in that order; the first found is used. A configured
/// `Bandizip.exe` is replaced by `bz.exe`, else `bc.exe`, beside it.
pub proof fn lemma_configured_search_order(cleaned: Seq<char>, seven_zip: bool, search: SearchState)
    requires
        cleaned.len() > 0,
    ensures
        resolve_request(cleaned, seven_zip, resolve_start(cleaned, seven_zip)) == Some(ProbeView::ExistingFile(cleaned)),
        resolve_answer(cleaned, seven_zip, resolve_start(cleaned, seven_zip), None).stage == ResolveStage::InDir(0, 0),
        seven_zip ==> searched_in_order(cleaned, seven_zip, search, seq!["7z.exe"@, "7Z.exe"@]),
        !seven_zip ==> searched_in_order(
            cleaned,
            seven_zip,
            search,
            seq!["bz.exe"@, "bc.exe"@, "Bandizip.exe"@, "BZ.exe"@, "BC.exe"@, "BANDIZIP.exe"@],
        ),
        resolve_request(cleaned, seven_zip, ResolveState { stage: ResolveStage::BesideFile(0), search }) == Some(
            ProbeView::BesideFile(cleaned, "bz.exe"@),
        ),
        resolve_answer(cleaned, seven_zip, ResolveState { stage: ResolveStage::BesideFile(0), search }, None).stage
            == ResolveStage::BesideFile(1),
        resolve_request(cleaned, seven_zip, ResolveState { stage: ResolveStage::BesideFile(1), search }) == Some(
            ProbeView::BesideFile(cleaned, "bc.exe"@),
        ),
{
    if seven_zip {
        assert(dir_exe_names(seven_zip) =~= seq!["7z.exe"@, "7Z.exe"@]);
    } else {
        assert(dir_exe_names(seven_zip) =~= seq!["bz.exe"@, "bc.exe"@, "Bandizip.exe"@, "BZ.exe"@, "BC.exe"@, "BANDIZIP.exe"@]);
    }
}

/// The first round of the directory search asks for the files `names`, in
/// order: each question is whether `names[n]` is in the configured path; a
/// yes resolves to the path found, a no goes on to the next name.
pub open spec fn searched_in_order(cleaned: Seq<char>, seven_zip: bool, search: SearchState, names: Seq<Seq<char>>) -> bool {
    forall|n: nat| #![trigger names[n as int]] n < names.len() ==> {
        let st = ResolveState { stage: ResolveStage::InDir(0, n), search };
        &&& resolve_request(cleaned, seven_zip, st) == Some(ProbeView::FileInDir(cleaned, names[n as int]))
        &&& forall|p: Seq<char>| #[trigger] resolve_answer(cleaned, seven_zip, st, Some(p)).stage == ResolveStage::Done(Some(p))
        &&& n + 1 < names.len() ==> resolve_answer(cleaned, seven_zip, st, None).stage == ResolveStage::InDir(0, n + 1)
    }
}

} // verus!

//! Flattening a directory: while it holds a single sub-directory and
//! nothing else that counts, that sub-directory's contents are lifted into
//! it and the emptied sub-directory removed. The file system is driven by
//! the caller: each step names the operation to perform, and its outcome
//! comes back as the next event.
use vstd::prelude::*;
use crate::names::{flatten_candidate, only_counted_entry};
use crate::text::{eq_fold, strings_view};

verus! {

/// An entry of a directory: its file name (decoded lossily) and its path.
pub struct DirEntry {
    pub name: String,
    pub path: String,
}

/// A directory entry, as text.
pub struct EntryView {
    pub name: Seq<char>,
    pub path: Seq<char>,
}

impl View for DirEntry {
    type V = EntryView;

    open spec fn view(&self) -> EntryView {
        EntryView { name: self.name@, path: self.path@ }
    }
}

/// Why a directory could not be listed: it could not be opened, or one of
/// its entries could not be read; with the system's message.
pub enum ListError {
    Open(String),
    Entry(String),
}

/// An operation for the caller to perform.
pub enum FlattenOp {
    /// Is this path a directory? Answer: `IsDir`.
    CheckDir(String),
    /// List the entries of the directory. Answer: `Listed`.
    List(String),
    /// Lift the contents of the sub-directory `sub` into `dir` (through a
    /// temporary name made by `temp_flatten_name`) and remove it. Answer:
    /// `Lifted`, with the message of a failure.
    Lift { dir: String, sub: String },
    /// The flattening is over, with this outcome.
    Finish(Result<(), String>),
}

/// An operation, as text.
pub enum FlattenOpView {
    CheckDir(Seq<char>),
    List(Seq<char>),
    Lift { dir: Seq<char>, sub: Seq<char> },
    Finish(Result<(), Seq<char>>),
}

impl View for FlattenOp {
    type V = FlattenOpView;

    open spec fn view(&self) -> FlattenOpView {
        match self {
            FlattenOp::CheckDir(p) => FlattenOpView::CheckDir(p@),
            FlattenOp::List(d) => FlattenOpView::List(d@),
            FlattenOp::Lift { dir, sub } => FlattenOpView::Lift { dir: dir@, sub: sub@ },
            FlattenOp::Finish(Ok(())) => FlattenOpView::Finish(Ok(())),
            FlattenOp::Finish(Err(e)) => FlattenOpView::Finish(Err(e@)),
        }
    }
}

/// The outcome of an operation.
pub enum FlattenEvent {
    IsDir(bool),
    Listed(Result<Vec<DirEntry>, ListError>),
    Lifted(Result<(), String>),
}

/// An outcome, as text. A listing failure is `Err((true, e))` when the
/// directory could not be opened, `Err((false, e))` when an entry could not
/// be read.
pub enum FlattenEventView {
    IsDir(bool),
    Listed(Result<Seq<EntryView>, (bool, Seq<char>)>),
    Lifted(Result<(), Seq<char>>),
}

impl View for FlattenEvent {
    type V = FlattenEventView;

    open spec fn view(&self) -> FlattenEventView {
        match self {
            FlattenEvent::IsDir(b) => FlattenEventView::IsDir(*b),
            FlattenEvent::Listed(Ok(v)) => FlattenEventView::Listed(Ok(v@.map_values(|e: DirEntry| e@))),
            FlattenEvent::Listed(Err(ListError::Open(e))) => FlattenEventView::Listed(Err((true, e@))),
            FlattenEvent::Listed(Err(ListError::Entry(e))) => FlattenEventView::Listed(Err((false, e@))),
            FlattenEvent::Lifted(Ok(())) => FlattenEventView::Lifted(Ok(())),
            FlattenEvent::Lifted(Err(e)) => FlattenEventView::Lifted(Err(e@)),
        }
    }
}

/// The stage of a flattening.
pub enum FlattenStage {
    /// Is the given path a directory at all?
    CheckingDir,
    /// Listing the directory.
    Listing,
    /// Is the single counted entry, at this path, a directory?
    CheckingSub(Seq<char>),
    /// Lifting the contents of the sub-directory at this path.
    Lifting(Seq<char>),
    /// Over.
    Finished(Result<(), Seq<char>>),
}

/// A flattening: the directory and the stage.
pub struct FlattenView {
    pub dir: Seq<char>,
    pub stage: FlattenStage,
}

/// The names of some entries.
pub open spec fn entry_names(es: Seq<EntryView>) -> Seq<Seq<char>> {
    es.map_values(|e: EntryView| e.name)
}

/// The entry that a listing is flattened into: its one counted entry (see
/// `only_counted_entry`), if it has exactly one.
pub open spec fn lift_target(es: Seq<EntryView>) -> Option<EntryView> {
    if exists|i: int| only_counted_entry(entry_names(es), i) {
        Some(es[choose|i: int| only_counted_entry(entry_names(es), i)])
    } else {
        None
    }
}

pub open spec fn msg_not_a_dir(dir: Seq<char>) -> Seq<char> {
    "路径不是一个目录: "@ + dir
}

pub open spec fn msg_open_failed(dir: Seq<char>, e: Seq<char>) -> Seq<char> {
    "无法读取目录 "@ + dir + ": "@ + e
}

pub open spec fn msg_entry_failed(e: Seq<char>) -> Seq<char> {
    "读取目录项失败: "@ + e
}

/// The first state of the flattening of `dir`.
pub open spec fn flatten_start(dir: Seq<char>) -> FlattenView {
    FlattenView { dir, stage: FlattenStage::CheckingDir }
}

/// The operation asked for in the current stage.
pub open spec fn flatten_op(f: FlattenView) -> FlattenOpView {
    match f.stage {
        FlattenStage::CheckingDir => FlattenOpView::CheckDir(f.dir),
        FlattenStage::Listing => FlattenOpView::List(f.dir),
        FlattenStage::CheckingSub(p) => FlattenOpView::CheckDir(p),
        FlattenStage::Lifting(p) => FlattenOpView::Lift { dir: f.dir, sub: p },
        FlattenStage::Finished(r) => FlattenOpView::Finish(r),
    }
}

/// The flattening after the event `ev`. An event that does not answer the
/// current operation changes nothing.
pub open spec fn flatten_next(f: FlattenView, ev: FlattenEventView) -> FlattenView {
    let stage = match (f.stage, ev) {
        (FlattenStage::CheckingDir, FlattenEventView::IsDir(b)) => if b {
            FlattenStage::Listing
        } else {
            FlattenStage::Finished(Err(msg_not_a_dir(f.dir)))
        },
        (FlattenStage::Listing, FlattenEventView::Listed(r)) => match r {
            Err((true, e)) => FlattenStage::Finished(Err(msg_open_failed(f.dir, e))),
            Err((false, e)) => FlattenStage::Finished(Err(msg_entry_failed(e))),
            Ok(es) => match lift_target(es) {
                Some(e) => FlattenStage::CheckingSub(e.path),
                None => FlattenStage::Finished(Ok(())),
            },
        },
        (FlattenStage::CheckingSub(p), FlattenEventView::IsDir(b)) => if b {
            FlattenStage::Lifting(p)
        } else {
            FlattenStage::Finished(Ok(()))
        },
        (FlattenStage::Lifting(_), FlattenEventView::Lifted(r)) => match r {
            Ok(()) => FlattenStage::Listing,
            Err(e) => FlattenStage::Finished(Err(e)),
        },
        _ => f.stage,
    };
    FlattenView { dir: f.dir, stage }
}

enum Stage {
    CheckingDir,
    Listing,
    CheckingSub(String),
    Lifting(String),
    Finished(Result<(), String>),
}

/// The flattening of a directory.
pub struct Flattener {
    dir: String,
    stage: Stage,
}

impl Flattener {
    /// Where the flattening stands.
    pub closed spec fn view(&self) -> FlattenView {
        FlattenView {
            dir: self.dir@,
            stage: match self.stage {
                Stage::CheckingDir => FlattenStage::CheckingDir,
                Stage::Listing => FlattenStage::Listing,
                Stage::CheckingSub(p) => FlattenStage::CheckingSub(p@),
                Stage::Lifting(p) => FlattenStage::Lifting(p@),
                Stage::Finished(Ok(())) => FlattenStage::Finished(Ok(())),
                Stage::Finished(Err(e)) => FlattenStage::Finished(Err(e@)),
            },
        }
    }

    /// The operation asked for in the current stage.
    pub fn op(&self) -> (r: FlattenOp)
        ensures
            r@ == flatten_op(self.view()),
    {
        match &self.stage {
            Stage::CheckingDir => FlattenOp::CheckDir(self.dir.clone()),
            Stage::Listing => FlattenOp::List(self.dir.clone()),
            Stage::CheckingSub(p) => FlattenOp::CheckDir(p.clone()),
            Stage::Lifting(p) => FlattenOp::Lift { dir: self.dir.clone(), sub: p.clone() },
            Stage::Finished(Ok(())) => FlattenOp::Finish(Ok(())),
            Stage::Finished(Err(e)) => FlattenOp::Finish(Err(e.clone())),
        }
    }

    /// Takes the outcome of the current operation; returns the next
    /// operation.
    pub fn advance(&mut self, event: FlattenEvent) -> (r: FlattenOp)
        ensures
            final(self).view() == flatten_next(old(self).view(), event@),
            r@ == flatten_op(final(self).view()),
    {
        match (&self.stage, event) {
            (Stage::CheckingDir, FlattenEvent::IsDir(b)) => {
                if b {
                    self.stage = Stage::Listing;
                } else {
                    let mut msg = String::from_str("路径不是一个目录: ");
                    msg.append(self.dir.as_str());
                    self.stage = Stage::Finished(Err(msg));
                }
            },
            (Stage::Listing, FlattenEvent::Listed(r)) => {
                match r {
                    Err(ListError::Open(e)) => {
                        let mut msg = String::from_str("无法读取目录 ");
                        msg.append(self.dir.as_str());
                        msg.append(": ");
                        msg.append(e.as_str());
                        self.stage = Stage::Finished(Err(msg));
                    },
                    Err(ListError::Entry(e)) => {
                        let mut msg = String::from_str("读取目录项失败: ");
                        msg.append(e.as_str());
                        self.stage = Stage::Finished(Err(msg));
                    },
                    Ok(es) => {
                        match single_entry(&es) {
                            Some(i) => {
                                self.stage = Stage::CheckingSub(es[i].path.clone());
                            },
                            None => {
                                self.stage = Stage::Finished(Ok(()));
                            },
                        }
                    },
                }
            },
            (Stage::CheckingSub(p), FlattenEvent::IsDir(b)) => {
                let p = p.clone();
                if b {
                    self.stage = Stage::Lifting(p);
                } else {
                    self.stage = Stage::Finished(Ok(()));
                }
            },
            (Stage::Lifting(_), FlattenEvent::Lifted(r)) => {
                match r {
                    Ok(()) => {
                        self.stage = Stage::Listing;
                    },
                    Err(e) => {
                        self.stage = Stage::Finished(Err(e));
                    },
                }
            },
            _ => {},
        }
        self.op()
    }
}

/// The index of the entry that a listing is flattened into, if any.
fn single_entry(es: &Vec<DirEntry>) -> (r: Option<usize>)
    ensures
        match r {
            Some(i) => i < es@.len() && lift_target(es@.map_values(|e: DirEntry| e@)) == Some(es@[i as int]@),
            None => lift_target(es@.map_values(|e: DirEntry| e@)) is None,
        },
{
    let ghost ev = es@.map_values(|e: DirEntry| e@);
    let mut names: Vec<String> = Vec::new();
    let mut k: usize = 0;
    while k < es.len()
        invariant
            k <= es@.len(),
            ev == es@.map_values(|e: DirEntry| e@),
            strings_view(names@) == entry_names(ev).take(k as int),
        decreases es@.len() - k,
    {
        let ghost before = strings_view(names@);
        let n = es[k].name.clone();
        assert(ev[k as int] == es@[k as int]@);
        assert(entry_names(ev)[k as int] == n@);
        names.push(n);
        assert(strings_view(names@) =~= before.push(n@));
        assert(strings_view(names@) =~= entry_names(ev).take(k + 1));
        k = k + 1;
    }
    assert(entry_names(ev).take(es@.len() as int) =~= entry_names(ev));
    let ghost ns = entry_names(ev);
    match flatten_candidate(&names) {
        Some(i) => {
            proof {
                let c = choose|j: int| only_counted_entry(ns, j);
                if c != i as int {
                    assert(crate::names::is_ignored_entry(ns[c]));
                }
            }
            Some(i)
        },
        None => None,
    }
}

/// Starts flattening the directory `dir`; returns the flattening and its
/// first operation.
pub fn start_flatten(dir: String) -> (r: (Flattener, FlattenOp))
    ensures
        r.0.view() == flatten_start(dir@),
        r.1@ == flatten_op(r.0.view()),
{
    let f = Flattener { dir, stage: Stage::CheckingDir };
    let op = f.op();
    (f, op)
}

/// The flattening repeats until the directory no longer holds a single
/// counted entry that is a sub-directory: a listing leads to a check of its
/// one counted entry exactly when it has one, and ends the flattening
/// successfully otherwise; a sub-directory is lifted only once that check
/// has found it to be a directory, and a failed check ends the flattening
/// successfully; after a successful lift the directory is listed again; a
/// failed lift ends it with the failure's message.
pub proof fn lemma_flatten_repeats_until_flat(f: FlattenView, ev: FlattenEventView)
    ensures
        ({
            let g = flatten_next(f, ev);
            &&& g.dir == f.dir
            &&& f.stage is Listing ==> (ev matches FlattenEventView::Listed(Ok(es)) ==> match lift_target(es) {
                Some(e) => g.stage == FlattenStage::CheckingSub(e.path),
                None => g.stage == FlattenStage::Finished(Ok(())),
            })
            &&& g.stage matches FlattenStage::Lifting(p) ==> (f.stage == FlattenStage::Lifting(p) || (f.stage
                == FlattenStage::CheckingSub(p) && ev == FlattenEventView::IsDir(true)))
            &&& (f.stage matches FlattenStage::CheckingSub(_) && ev == FlattenEventView::IsDir(false)) ==> g.stage
                == FlattenStage::Finished(Ok(()))
            &&& (f.stage is Lifting && ev == FlattenEventView::Lifted(Ok(()))) ==> g.stage is Listing
            &&& f.stage is Lifting ==> (ev matches FlattenEventView::Lifted(Err(e)) ==> g.stage
                == FlattenStage::Finished(Err(e)))
            &&& (g.stage == FlattenStage::Finished(Ok(())) && !(f.stage is Finished)) ==> {
                ||| f.stage is Listing && (ev matches FlattenEventView::Listed(Ok(es)) && lift_target(es) is None)
                ||| f.stage is CheckingSub && ev == FlattenEventView::IsDir(false)
            }
        }),
{
}

/// Flattening a flat directory changes nothing: started on a directory
/// whose listing `es` has no single counted entry, the flattening ends
/// successfully right after listing it; when the single counted entry is
/// not a directory, right after checking it. No lift is asked for.
pub proof fn lemma_flatten_flat_unchanged(dir: Seq<char>, es: Seq<EntryView>)
    ensures
        ({
            let f1 = flatten_next(flatten_start(dir), FlattenEventView::IsDir(true));
            let f2 = flatten_next(f1, FlattenEventView::Listed(Ok(es)));
            &&& flatten_op(flatten_start(dir)) == FlattenOpView::CheckDir(dir)
            &&& flatten_op(f1) == FlattenOpView::List(dir)
            &&& lift_target(es) is None ==> f2.stage == FlattenStage::Finished(Ok(()))
            &&& lift_target(es) matches Some(e) ==> {
                &&& flatten_op(f2) == FlattenOpView::CheckDir(e.path)
                &&& flatten_next(f2, FlattenEventView::IsDir(false)).stage == FlattenStage::Finished(Ok(()))
            }
        }),
{
}

/// A listing is flattened into an entry only when that entry's name
/// counts (it does not start with `.` and is not `thumbs.db` or
/// `desktop.ini` in any ASCII case) and no other entry's name does; and
/// whenever exactly one entry's name counts, the listing is flattened into
/// it.
pub proof fn lemma_lift_target_counts(es: Seq<EntryView>)
    ensures
        lift_target(es) matches Some(e) ==> exists|i: int|
            0 <= i < es.len() && es[i] == e && counts(es[i].name) && forall|j: int|
                0 <= j < es.len() && j != i ==> !counts(#[trigger] es[j].name),
        (exists|i: int| 0 <= i < es.len() && counts(es[i].name) && forall|j: int| 0 <= j < es.len() && j != i ==> !counts(#[trigger] es[j].name))
            ==> lift_target(es) is Some,
{
    let ns = entry_names(es);
    assert forall|k: int| 0 <= k < es.len() implies (crate::names::is_ignored_entry(#[trigger] ns[k]) <==> !counts(es[k].name)) by {
        crate::names::lemma_ignored_entries(es[k].name);
    }
    if exists|i: int| only_counted_entry(ns, i) {
        let i = choose|i: int| only_counted_entry(ns, i);
        assert(lift_target(es) == Some(es[i]));
        assert(!crate::names::is_ignored_entry(ns[i]));
        assert(counts(es[i].name));
        assert forall|j: int| 0 <= j < es.len() && j != i implies !counts(#[trigger] es[j].name) by {
            assert(crate::names::is_ignored_entry(ns[j]));
        }
    }
    if exists|i: int| 0 <= i < es.len() && counts(es[i].name) && forall|j: int| 0 <= j < es.len() && j != i ==> !counts(#[trigger] es[j].name) {
        let i = choose|i: int| 0 <= i < es.len() && counts(es[i].name) && forall|j: int| 0 <= j < es.len() && j != i ==> !counts(#[trigger] es[j].name);
        assert(only_counted_entry(ns, i));
    }
}

/// An entry name that counts when flattening: it does not start with `.`
/// and is not `thumbs.db` or `desktop.ini` in any ASCII case.
pub open spec fn counts(name: Seq<char>) -> bool {
    !(name.len() > 0 && name[0] == '.') && !eq_fold(name, "thumbs.db"@) && !eq_fold(name, "desktop.ini"@)
}

} // verus!

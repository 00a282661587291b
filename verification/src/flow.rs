//! Nested extraction of one archive into a target directory: the first
//! layer is unpacked, then, layer after layer, a single archive found in the
//! result is unpacked in place and moved to the recycle bin, until no
//! archive (or more than one) is left. A failure is reported and what was
//! produced is cleaned up. The file system, the archiver and the recycle bin
//! are driven by the caller: each step names the operation to perform and
//! the log lines to emit first, and the outcome of the operation comes back
//! as the next event.
use vstd::prelude::*;
use crate::text::{decimal, decimal_string, join, join_strings, strings_view};

verus! {

/// The deepest layer of nested archives that is unpacked.
pub const MAX_DEPTH: u32 = 20;

/// The state of a log line.
#[derive(PartialEq, Eq, Structural, Clone, Copy)]
pub enum LogStatus {
    Running,
    Success,
    Error,
}

/// A line for the extraction log; `progress` is in percent.
pub struct LogLine {
    pub message: String,
    pub status: LogStatus,
    pub progress: u32,
}

/// A log line, as text.
pub struct LogView {
    pub message: Seq<char>,
    pub status: LogStatus,
    pub progress: nat,
}

impl View for LogLine {
    type V = LogView;

    open spec fn view(&self) -> LogView {
        LogView { message: self.message@, status: self.status, progress: self.progress as nat }
    }
}

/// An archive found while scanning the target directory: its path, its
/// file name and its parent directory (each when it is valid UTF-8).
pub struct FoundArchive {
    pub path: String,
    pub name: Option<String>,
    pub parent: Option<String>,
}

/// A found archive, as text.
pub struct FoundView {
    pub path: Seq<char>,
    pub name: Option<Seq<char>>,
    pub parent: Option<Seq<char>>,
}

impl View for FoundArchive {
    type V = FoundView;

    open spec fn view(&self) -> FoundView {
        FoundView {
            path: self.path@,
            name: match self.name {
                Some(n) => Some(n@),
                None => None,
            },
            parent: match self.parent {
                Some(p) => Some(p@),
                None => None,
            },
        }
    }
}

/// Which layer an extraction unpacks, with what its progress lines need.
pub enum Layer {
    /// The archive given by the user.
    First,
    /// A nested archive, named `name`, at depth `depth`; its progress runs
    /// from `start` to `end` percent.
    Nested { name: String, depth: u32, start: u32, end: u32 },
}

/// A layer, as text.
pub enum LayerView {
    First,
    Nested { name: Seq<char>, depth: nat, start: nat, end: nat },
}

impl View for Layer {
    type V = LayerView;

    open spec fn view(&self) -> LayerView {
        match self {
            Layer::First => LayerView::First,
            Layer::Nested { name, depth, start, end } => LayerView::Nested {
                name: name@,
                depth: *depth as nat,
                start: *start as nat,
                end: *end as nat,
            },
        }
    }
}

/// An operation for the caller to perform.
pub enum FlowOp {
    /// Does the target directory exist? Answer: `TargetChecked`.
    CheckTarget(String),
    /// Create the target directory and its parents. Answer: `Created`.
    CreateTarget(String),
    /// Unpack `archive` into `dest` with the executable `exe`, trying the
    /// passwords. Answer: `Extracted`.
    Extract { exe: String, archive: String, dest: String, layer: Layer },
    /// List the archives under this directory. Answer: `Scanned`.
    Scan(String),
    /// Move this path to the recycle bin. Answer: `Trashed`.
    Trash(String),
    /// Delete this file, ignoring failure. Answer: `Completed`.
    RemoveFile(String),
    /// Move this directory to the recycle bin if it exists, ignoring
    /// failure. Answer: `Completed`.
    TrashIfExists(String),
    /// The flow is over, with this outcome.
    Finish(Result<(), String>),
}

/// An operation, as text.
pub enum OpView {
    CheckTarget(Seq<char>),
    CreateTarget(Seq<char>),
    Extract { exe: Seq<char>, archive: Seq<char>, dest: Seq<char>, layer: LayerView },
    Scan(Seq<char>),
    Trash(Seq<char>),
    RemoveFile(Seq<char>),
    TrashIfExists(Seq<char>),
    Finish(Result<(), Seq<char>>),
}

/// The text of a result that carries an error message.
pub open spec fn res_view(r: Result<(), String>) -> Result<(), Seq<char>> {
    match r {
        Ok(()) => Ok(()),
        Err(e) => Err(e@),
    }
}

impl View for FlowOp {
    type V = OpView;

    open spec fn view(&self) -> OpView {
        match self {
            FlowOp::CheckTarget(t) => OpView::CheckTarget(t@),
            FlowOp::CreateTarget(t) => OpView::CreateTarget(t@),
            FlowOp::Extract { exe, archive, dest, layer } => OpView::Extract {
                exe: exe@,
                archive: archive@,
                dest: dest@,
                layer: layer@,
            },
            FlowOp::Scan(t) => OpView::Scan(t@),
            FlowOp::Trash(p) => OpView::Trash(p@),
            FlowOp::RemoveFile(p) => OpView::RemoveFile(p@),
            FlowOp::TrashIfExists(p) => OpView::TrashIfExists(p@),
            FlowOp::Finish(r) => OpView::Finish(res_view(*r)),
        }
    }
}

/// The outcome of an operation.
pub enum FlowEvent {
    TargetChecked(bool),
    Created(Result<(), String>),
    Extracted(Result<(), String>),
    Scanned(Result<Vec<FoundArchive>, String>),
    Trashed(Result<(), String>),
    Completed,
}

/// An outcome, as text.
pub enum EventView {
    TargetChecked(bool),
    Created(Result<(), Seq<char>>),
    Extracted(Result<(), Seq<char>>),
    Scanned(Result<Seq<FoundView>, Seq<char>>),
    Trashed(Result<(), Seq<char>>),
    Completed,
}

impl View for FlowEvent {
    type V = EventView;

    open spec fn view(&self) -> EventView {
        match self {
            FlowEvent::TargetChecked(b) => EventView::TargetChecked(*b),
            FlowEvent::Created(r) => EventView::Created(res_view(*r)),
            FlowEvent::Extracted(r) => EventView::Extracted(res_view(*r)),
            FlowEvent::Scanned(r) => EventView::Scanned(
                match r {
                    Ok(v) => Ok(v@.map_values(|a: FoundArchive| a@)),
                    Err(e) => Err(e@),
                },
            ),
            FlowEvent::Trashed(r) => EventView::Trashed(res_view(*r)),
            FlowEvent::Completed => EventView::Completed,
        }
    }
}

/// The stage of a flow.
pub enum StageView {
    CheckingTarget,
    Creating,
    ExtractingFirst,
    Scanning(nat),
    ExtractingNested { depth: nat, path: Seq<char>, name: Seq<char>, dest: Seq<char> },
    TrashingNested { depth: nat, path: Seq<char> },
    RemovingNested { depth: nat, path: Seq<char> },
    CleaningTarget(Seq<char>),
    CleaningScan(Seq<char>),
    CleaningArchives { err: Seq<char>, paths: Seq<Seq<char>>, next: nat },
    Finished(Result<(), Seq<char>>),
}

/// A flow: the target directory, the archive, the executable, whether the
/// target existed before, and the stage.
pub struct FlowView {
    pub target: Seq<char>,
    pub archive: Seq<char>,
    pub exe: Seq<char>,
    pub existed: bool,
    pub stage: StageView,
}

/// A log line.
pub open spec fn log(message: Seq<char>, status: LogStatus, progress: nat) -> LogView {
    LogView { message, status, progress }
}

/// Progress at the start of layer `depth`.
pub open spec fn layer_start(depth: nat) -> nat {
    if (depth - 1) * 5 < 45 {
        (35 + (depth - 1) * 5) as nat
    } else {
        80
    }
}

/// Progress at the end of layer `depth`.
pub open spec fn layer_end(depth: nat) -> nat {
    if depth * 5 < 45 {
        35 + depth * 5
    } else {
        80
    }
}

pub open spec fn msg_no_exe(exe_type: Seq<char>) -> Seq<char> {
    "无法在配置的路径中找到 "@ + exe_type + " 的可执行文件"@
}

pub open spec fn msg_start() -> Seq<char> {
    "开始第一层解压..."@
}

pub open spec fn msg_create_failed(e: Seq<char>) -> Seq<char> {
    "创建目标文件夹失败: "@ + e
}

pub open spec fn msg_first_failed(e: Seq<char>) -> Seq<char> {
    "第一层解压失败: "@ + e
}

pub open spec fn msg_first_done() -> Seq<char> {
    "第一层解包成功，开始扫描嵌套压缩包..."@
}

pub open spec fn msg_depth_limit() -> Seq<char> {
    "达到最大嵌套解包深度限制 (20层)，停止解包。"@
}

pub open spec fn msg_scan_failed(e: Seq<char>) -> Seq<char> {
    "扫描嵌套包失败: "@ + e
}

pub open spec fn msg_skip_many(depth: nat, names: Seq<Seq<char>>) -> Seq<char> {
    "第 "@ + decimal(depth) + " 层扫描找到 "@ + decimal(names.len()) + " 个嵌套压缩包: "@ + join(names, ", "@)
        + "，为避免混乱，跳过对这些嵌套包的解压。"@
}

pub open spec fn msg_found_one(depth: nat) -> Seq<char> {
    "第 "@ + decimal(depth) + " 层扫描找到 "@ + decimal(1) + " 个嵌套压缩包..."@
}

pub open spec fn msg_nested_start(name: Seq<char>) -> Seq<char> {
    "正在解压嵌套子包: "@ + name + " (0%)..."@
}

pub open spec fn msg_nested_failed(name: Seq<char>, e: Seq<char>) -> Seq<char> {
    "解压嵌套子包 "@ + name + " 失败: "@ + e
}

pub open spec fn msg_nested_done(name: Seq<char>) -> Seq<char> {
    "嵌套子包 "@ + name + " 解包成功，移动中间包到回收站。"@
}

pub open spec fn msg_trash_failed(e: Seq<char>) -> Seq<char> {
    "移入回收站失败: "@ + e + ", 尝试物理删除..."@
}

pub open spec fn msg_cleanup() -> Seq<char> {
    "解压出错，正在清理中间产物到回收站..."@
}

pub open spec fn msg_all_done() -> Seq<char> {
    "全部深度解压完成，已成功清理所有中间压缩包！"@
}

/// The name shown for a found archive.
pub open spec fn shown_name(a: FoundView) -> Seq<char> {
    match a.name {
        Some(n) => n,
        None => "未知压缩包"@,
    }
}

/// The directory a found archive is unpacked into: its parent, else the
/// target directory.
pub open spec fn unpack_dir(a: FoundView, target: Seq<char>) -> Seq<char> {
    match a.parent {
        Some(p) => p,
        None => target,
    }
}

/// The operation a flow asks for in its current stage.
pub open spec fn op_of(f: FlowView) -> OpView {
    match f.stage {
        StageView::CheckingTarget => OpView::CheckTarget(f.target),
        StageView::Creating => OpView::CreateTarget(f.target),
        StageView::ExtractingFirst => OpView::Extract { exe: f.exe, archive: f.archive, dest: f.target, layer: LayerView::First },
        StageView::Scanning(_) => OpView::Scan(f.target),
        StageView::ExtractingNested { depth, path, name, dest } => OpView::Extract {
            exe: f.exe,
            archive: path,
            dest,
            layer: LayerView::Nested { name, depth, start: layer_start(depth), end: layer_end(depth) },
        },
        StageView::TrashingNested { path, .. } => OpView::Trash(path),
        StageView::RemovingNested { path, .. } => OpView::RemoveFile(path),
        StageView::CleaningTarget(_) => OpView::TrashIfExists(f.target),
        StageView::CleaningScan(_) => OpView::Scan(f.target),
        StageView::CleaningArchives { paths, next, .. } => OpView::Trash(paths[next as int]),
        StageView::Finished(r) => OpView::Finish(r),
    }
}

/// The flow with another stage.
pub open spec fn with_stage(f: FlowView, stage: StageView) -> FlowView {
    FlowView { target: f.target, archive: f.archive, exe: f.exe, existed: f.existed, stage }
}

/// A failure during extraction: it is logged, then what was produced is
/// cleaned up: the whole target directory when it did not exist before,
/// else the archives found in it.
pub open spec fn fail(f: FlowView, msg: Seq<char>) -> (FlowView, Seq<LogView>) {
    (
        with_stage(f, if f.existed { StageView::CleaningScan(msg) } else { StageView::CleaningTarget(msg) }),
        seq![log(msg, LogStatus::Error, 100), log(msg_cleanup(), LogStatus::Running, 95)],
    )
}

/// Going on to the layer after `depth`, unless that is too deep.
pub open spec fn next_layer(f: FlowView, depth: nat) -> (FlowView, Seq<LogView>) {
    if depth + 1 > MAX_DEPTH {
        fail(f, msg_depth_limit())
    } else {
        (with_stage(f, StageView::Scanning(depth + 1)), seq![])
    }
}

/// The flow after the event `ev`, and the log lines emitted on the way. An
/// event that does not answer the current operation changes nothing.
pub open spec fn flow_next(f: FlowView, ev: EventView) -> (FlowView, Seq<LogView>) {
    match (f.stage, ev) {
        (StageView::CheckingTarget, EventView::TargetChecked(b)) => (
            FlowView { target: f.target, archive: f.archive, exe: f.exe, existed: b, stage: StageView::Creating },
            seq![log(msg_start(), LogStatus::Running, 10)],
        ),
        (StageView::Creating, EventView::Created(r)) => match r {
            Ok(()) => (with_stage(f, StageView::ExtractingFirst), seq![]),
            Err(e) => (
                with_stage(f, StageView::Finished(Err(msg_create_failed(e)))),
                seq![log(msg_create_failed(e), LogStatus::Error, 100)],
            ),
        },
        (StageView::ExtractingFirst, EventView::Extracted(r)) => match r {
            Ok(()) => (with_stage(f, StageView::Scanning(1)), seq![log(msg_first_done(), LogStatus::Running, 35)]),
            Err(e) => fail(f, msg_first_failed(e)),
        },
        (StageView::Scanning(depth), EventView::Scanned(r)) => match r {
            Err(e) => fail(f, msg_scan_failed(e)),
            Ok(found) => if found.len() == 0 {
                (with_stage(f, StageView::Finished(Ok(()))), seq![log(msg_all_done(), LogStatus::Success, 100)])
            } else if found.len() >= 2 {
                (
                    with_stage(f, StageView::Finished(Ok(()))),
                    seq![
                        log(msg_skip_many(depth, found.map_values(|a: FoundView| shown_name(a))), LogStatus::Success, 100),
                        log(msg_all_done(), LogStatus::Success, 100),
                    ],
                )
            } else {
                let a = found[0];
                (
                    with_stage(
                        f,
                        StageView::ExtractingNested { depth, path: a.path, name: shown_name(a), dest: unpack_dir(a, f.target) },
                    ),
                    seq![
                        log(msg_found_one(depth), LogStatus::Running, layer_end(depth)),
                        log(msg_nested_start(shown_name(a)), LogStatus::Running, layer_start(depth)),
                    ],
                )
            },
        },
        (StageView::ExtractingNested { depth, path, name, .. }, EventView::Extracted(r)) => match r {
            Err(e) => fail(f, msg_nested_failed(name, e)),
            Ok(()) => (
                with_stage(f, StageView::TrashingNested { depth, path }),
                seq![log(msg_nested_done(name), LogStatus::Running, layer_end(depth))],
            ),
        },
        (StageView::TrashingNested { depth, path }, EventView::Trashed(r)) => match r {
            Ok(()) => next_layer(f, depth),
            Err(e) => (
                with_stage(f, StageView::RemovingNested { depth, path }),
                seq![log(msg_trash_failed(e), LogStatus::Running, layer_end(depth))],
            ),
        },
        (StageView::RemovingNested { depth, .. }, EventView::Completed) => next_layer(f, depth),
        (StageView::CleaningTarget(msg), EventView::Completed) => (with_stage(f, StageView::Finished(Err(msg))), seq![]),
        (StageView::CleaningScan(msg), EventView::Scanned(r)) => match r {
            Ok(found) => if found.len() == 0 {
                (with_stage(f, StageView::Finished(Err(msg))), seq![])
            } else {
                (
                    with_stage(
                        f,
                        StageView::CleaningArchives { err: msg, paths: found.map_values(|a: FoundView| a.path), next: 0 },
                    ),
                    seq![],
                )
            },
            Err(_) => (with_stage(f, StageView::Finished(Err(msg))), seq![]),
        },
        (StageView::CleaningArchives { err, paths, next }, EventView::Trashed(_)) => if next + 1 < paths.len() {
            (with_stage(f, StageView::CleaningArchives { err, paths, next: next + 1 }), seq![])
        } else {
            (with_stage(f, StageView::Finished(Err(err))), seq![])
        },
        _ => (f, seq![]),
    }
}

/// A flow that fits its invariants: layers are counted from 1 up to the
/// limit, and a cleanup in progress has an archive to trash.
pub open spec fn flow_wf(f: FlowView) -> bool {
    match f.stage {
        StageView::Scanning(d) => 1 <= d <= MAX_DEPTH,
        StageView::ExtractingNested { depth, .. } => 1 <= depth <= MAX_DEPTH,
        StageView::TrashingNested { depth, .. } => 1 <= depth <= MAX_DEPTH,
        StageView::RemovingNested { depth, .. } => 1 <= depth <= MAX_DEPTH,
        StageView::CleaningArchives { paths, next, .. } => next < paths.len(),
        _ => true,
    }
}

/// The first state of a flow, given what resolving the executable gave.
pub open spec fn flow_start(resolved: Option<Seq<char>>, archive: Seq<char>, target: Seq<char>, exe_type: Seq<char>) -> FlowView {
    match resolved {
        Some(exe) => FlowView { target, archive, exe, existed: false, stage: StageView::CheckingTarget },
        None => FlowView {
            target,
            archive,
            exe: seq![],
            existed: false,
            stage: StageView::Finished(Err(msg_no_exe(exe_type))),
        },
    }
}

} // verus!

verus! {

enum Stage {
    CheckingTarget,
    Creating,
    ExtractingFirst,
    Scanning(u32),
    ExtractingNested { depth: u32, path: String, name: String, dest: String },
    TrashingNested { depth: u32, path: String },
    RemovingNested { depth: u32, path: String },
    CleaningTarget(String),
    CleaningScan(String),
    CleaningArchives { err: String, paths: Vec<String>, next: usize },
    Finished(Result<(), String>),
}

/// One step of a flow: the log lines to emit, then the operation to perform.
pub struct FlowStep {
    pub logs: Vec<LogLine>,
    pub op: FlowOp,
}

/// The log lines of a step, as text.
pub open spec fn logs_view(logs: Seq<LogLine>) -> Seq<LogView> {
    logs.map_values(|l: LogLine| l@)
}

/// The extraction of an archive and of the archives nested in it.
pub struct ExtractionFlow {
    target: String,
    archive: String,
    exe: String,
    existed: bool,
    stage: Stage,
}

impl ExtractionFlow {
    /// Where the flow stands.
    pub closed spec fn view(&self) -> FlowView {
        FlowView {
            target: self.target@,
            archive: self.archive@,
            exe: self.exe@,
            existed: self.existed,
            stage: match self.stage {
                Stage::CheckingTarget => StageView::CheckingTarget,
                Stage::Creating => StageView::Creating,
                Stage::ExtractingFirst => StageView::ExtractingFirst,
                Stage::Scanning(d) => StageView::Scanning(d as nat),
                Stage::ExtractingNested { depth, path, name, dest } => StageView::ExtractingNested {
                    depth: depth as nat,
                    path: path@,
                    name: name@,
                    dest: dest@,
                },
                Stage::TrashingNested { depth, path } => StageView::TrashingNested { depth: depth as nat, path: path@ },
                Stage::RemovingNested { depth, path } => StageView::RemovingNested { depth: depth as nat, path: path@ },
                Stage::CleaningTarget(m) => StageView::CleaningTarget(m@),
                Stage::CleaningScan(m) => StageView::CleaningScan(m@),
                Stage::CleaningArchives { err, paths, next } => StageView::CleaningArchives {
                    err: err@,
                    paths: strings_view(paths@),
                    next: next as nat,
                },
                Stage::Finished(r) => StageView::Finished(res_view(r)),
            },
        }
    }

    /// The operation asked for in the current stage.
    pub fn op(&self) -> (r: FlowOp)
        requires
            flow_wf(self.view()),
        ensures
            r@ == op_of(self.view()),
    {
        match &self.stage {
            Stage::CheckingTarget => FlowOp::CheckTarget(self.target.clone()),
            Stage::Creating => FlowOp::CreateTarget(self.target.clone()),
            Stage::ExtractingFirst => FlowOp::Extract {
                exe: self.exe.clone(),
                archive: self.archive.clone(),
                dest: self.target.clone(),
                layer: Layer::First,
            },
            Stage::Scanning(_) => FlowOp::Scan(self.target.clone()),
            Stage::ExtractingNested { depth, path, name, dest } => {
                let d = *depth;
                let start = if (d - 1) * 5 < 45 {
                    35 + (d - 1) * 5
                } else {
                    80
                };
                let end = if d * 5 < 45 {
                    35 + d * 5
                } else {
                    80
                };
                FlowOp::Extract {
                    exe: self.exe.clone(),
                    archive: path.clone(),
                    dest: dest.clone(),
                    layer: Layer::Nested { name: name.clone(), depth: d, start, end },
                }
            },
            Stage::TrashingNested { path, .. } => FlowOp::Trash(path.clone()),
            Stage::RemovingNested { path, .. } => FlowOp::RemoveFile(path.clone()),
            Stage::CleaningTarget(_) => FlowOp::TrashIfExists(self.target.clone()),
            Stage::CleaningScan(_) => FlowOp::Scan(self.target.clone()),
            Stage::CleaningArchives { paths, next, .. } => {
                proof {
                    assert(strings_view(paths@)[*next as int] == paths@[*next as int]@);
                }
                FlowOp::Trash(paths[*next].clone())
            },
            Stage::Finished(r) => FlowOp::Finish(
                match r {
                    Ok(()) => Ok(()),
                    Err(e) => Err(e.clone()),
                },
            ),
        }
    }

    fn step(&self, logs: Vec<LogLine>) -> (r: FlowStep)
        requires
            flow_wf(self.view()),
        ensures
            r.logs@ == logs@,
            r.op@ == op_of(self.view()),
    {
        FlowStep { logs, op: self.op() }
    }

    /// Starts moving to the next layer after `depth`.
    fn next_layer(&mut self, depth: u32, logs: &mut Vec<LogLine>)
        requires
            1 <= depth <= MAX_DEPTH,
        ensures
            final(self).view() == next_layer(old(self).view(), depth as nat).0,
            logs_view(final(logs)@) == logs_view(old(logs)@) + next_layer(old(self).view(), depth as nat).1,
    {
        if depth + 1 > MAX_DEPTH {
            let msg = String::from_str("达到最大嵌套解包深度限制 (20层)，停止解包。");
            self.fail(msg, logs);
        } else {
            self.stage = Stage::Scanning(depth + 1);
            assert(logs_view(logs@) =~= logs_view(old(logs)@) + seq![]);
        }
    }

    /// Reports the failure `msg` and starts cleaning up.
    fn fail(&mut self, msg: String, logs: &mut Vec<LogLine>)
        ensures
            final(self).view() == fail(old(self).view(), msg@).0,
            logs_view(final(logs)@) == logs_view(old(logs)@) + fail(old(self).view(), msg@).1,
    {
        let ghost l0 = logs_view(logs@);
        logs.push(LogLine { message: msg.clone(), status: LogStatus::Error, progress: 100 });
        logs.push(
            LogLine {
                message: String::from_str("解压出错，正在清理中间产物到回收站..."),
                status: LogStatus::Running,
                progress: 95,
            },
        );
        assert(logs_view(logs@) =~= l0 + fail(old(self).view(), msg@).1);
        if self.existed {
            self.stage = Stage::CleaningScan(msg);
        } else {
            self.stage = Stage::CleaningTarget(msg);
        }
    }

    /// Takes the outcome of the current operation; returns the log lines to
    /// emit and the next operation.
    pub fn advance(&mut self, event: FlowEvent) -> (r: FlowStep)
        requires
            flow_wf(old(self).view()),
        ensures
            flow_wf(final(self).view()),
            final(self).view() == flow_next(old(self).view(), event@).0,
            logs_view(r.logs@) == flow_next(old(self).view(), event@).1,
            r.op@ == op_of(final(self).view()),
    {
        let ghost f0 = self.view();
        let mut logs: Vec<LogLine> = Vec::new();
        match (&self.stage, event) {
            (Stage::CheckingTarget, FlowEvent::TargetChecked(b)) => {
                self.existed = b;
                self.stage = Stage::Creating;
                logs.push(LogLine { message: String::from_str("开始第一层解压..."), status: LogStatus::Running, progress: 10 });
            },
            (Stage::Creating, FlowEvent::Created(r)) => {
                match r {
                    Ok(()) => {
                        self.stage = Stage::ExtractingFirst;
                    },
                    Err(e) => {
                        let mut msg = String::from_str("创建目标文件夹失败: ");
                        msg.append(e.as_str());
                        logs.push(LogLine { message: msg.clone(), status: LogStatus::Error, progress: 100 });
                        self.stage = Stage::Finished(Err(msg));
                    },
                }
            },
            (Stage::ExtractingFirst, FlowEvent::Extracted(r)) => {
                match r {
                    Ok(()) => {
                        self.stage = Stage::Scanning(1);
                        logs.push(
                            LogLine {
                                message: String::from_str("第一层解包成功，开始扫描嵌套压缩包..."),
                                status: LogStatus::Running,
                                progress: 35,
                            },
                        );
                    },
                    Err(e) => {
                        let mut msg = String::from_str("第一层解压失败: ");
                        msg.append(e.as_str());
                        self.fail(msg, &mut logs);
                    },
                }
            },
            (Stage::Scanning(d), FlowEvent::Scanned(r)) => {
                let depth = *d;
                match r {
                    Err(e) => {
                        let mut msg = String::from_str("扫描嵌套包失败: ");
                        msg.append(e.as_str());
                        self.fail(msg, &mut logs);
                    },
                    Ok(found) => {
                        self.after_scan(depth, found, &mut logs);
                    },
                }
            },
            (Stage::ExtractingNested { depth, path, name, .. }, FlowEvent::Extracted(r)) => {
                let depth = *depth;
                let path = path.clone();
                let name = name.clone();
                match r {
                    Err(e) => {
                        let mut msg = String::from_str("解压嵌套子包 ");
                        msg.append(name.as_str());
                        msg.append(" 失败: ");
                        msg.append(e.as_str());
                        self.fail(msg, &mut logs);
                    },
                    Ok(()) => {
                        let mut msg = String::from_str("嵌套子包 ");
                        msg.append(name.as_str());
                        msg.append(" 解包成功，移动中间包到回收站。");
                        logs.push(LogLine { message: msg, status: LogStatus::Running, progress: layer_end_exec(depth) });
                        self.stage = Stage::TrashingNested { depth, path };
                    },
                }
            },
            (Stage::TrashingNested { depth, path }, FlowEvent::Trashed(r)) => {
                let depth = *depth;
                let path = path.clone();
                match r {
                    Ok(()) => {
                        self.next_layer(depth, &mut logs);
                    },
                    Err(e) => {
                        let mut msg = String::from_str("移入回收站失败: ");
                        msg.append(e.as_str());
                        msg.append(", 尝试物理删除...");
                        logs.push(LogLine { message: msg, status: LogStatus::Running, progress: layer_end_exec(depth) });
                        self.stage = Stage::RemovingNested { depth, path };
                    },
                }
            },
            (Stage::RemovingNested { depth, .. }, FlowEvent::Completed) => {
                let depth = *depth;
                self.next_layer(depth, &mut logs);
            },
            (Stage::CleaningTarget(msg), FlowEvent::Completed) => {
                let msg = msg.clone();
                self.stage = Stage::Finished(Err(msg));
            },
            (Stage::CleaningScan(msg), FlowEvent::Scanned(r)) => {
                let msg = msg.clone();
                match r {
                    Ok(found) => {
                        if found.len() == 0 {
                            self.stage = Stage::Finished(Err(msg));
                        } else {
                            let paths = archive_paths(&found);
                            self.stage = Stage::CleaningArchives { err: msg, paths, next: 0 };
                        }
                    },
                    Err(_) => {
                        self.stage = Stage::Finished(Err(msg));
                    },
                }
            },
            (Stage::CleaningArchives { err, paths, next }, FlowEvent::Trashed(_)) => {
                let err = err.clone();
                let next = *next;
                if paths.len() > next && paths.len() - next > 1 {
                    let paths = paths.clone();
                    self.stage = Stage::CleaningArchives { err, paths, next: next + 1 };
                } else {
                    self.stage = Stage::Finished(Err(err));
                }
            },
            _ => {},
        }
        assert(logs_view(logs@) =~= flow_next(f0, event@).1);
        self.step(logs)
    }

    fn after_scan(&mut self, depth: u32, found: Vec<FoundArchive>, logs: &mut Vec<LogLine>)
        requires
            old(self).view().stage == StageView::Scanning(depth as nat),
            1 <= depth <= MAX_DEPTH,
            old(logs)@.len() == 0,
        ensures
            final(self).view() == flow_next(old(self).view(), EventView::Scanned(Ok(found@.map_values(|a: FoundArchive| a@)))).0,
            logs_view(final(logs)@) == flow_next(old(self).view(), EventView::Scanned(Ok(found@.map_values(|a: FoundArchive| a@)))).1,
    {
        let ghost fv = found@.map_values(|a: FoundArchive| a@);
        if found.len() == 0 {
            self.stage = Stage::Finished(Ok(()));
            logs.push(LogLine { message: String::from_str("全部深度解压完成，已成功清理所有中间压缩包！"), status: LogStatus::Success, progress: 100 });
            assert(logs_view(logs@) =~= seq![log(msg_all_done(), LogStatus::Success, 100)]);
        } else if found.len() >= 2 {
            let names = shown_names(&found);
            let mut msg = String::from_str("第 ");
            msg.append(decimal_string(depth as u128).as_str());
            msg.append(" 层扫描找到 ");
            msg.append(decimal_string(found.len() as u128).as_str());
            msg.append(" 个嵌套压缩包: ");
            msg.append(join_strings(&names, ", ").as_str());
            msg.append("，为避免混乱，跳过对这些嵌套包的解压。");
            logs.push(LogLine { message: msg, status: LogStatus::Success, progress: 100 });
            logs.push(LogLine { message: String::from_str("全部深度解压完成，已成功清理所有中间压缩包！"), status: LogStatus::Success, progress: 100 });
            self.stage = Stage::Finished(Ok(()));
            assert(logs_view(logs@) =~= seq![
                log(msg_skip_many(depth as nat, fv.map_values(|a: FoundView| shown_name(a))), LogStatus::Success, 100),
                log(msg_all_done(), LogStatus::Success, 100),
            ]);
        } else {
            let a = &found[0];
            assert(fv[0] == a@);
            let name = shown_name_exec(a);
            let dest = match &a.parent {
                Some(p) => p.clone(),
                None => self.target.clone(),
            };
            let mut m1 = String::from_str("第 ");
            m1.append(decimal_string(depth as u128).as_str());
            m1.append(" 层扫描找到 ");
            m1.append(decimal_string(1).as_str());
            m1.append(" 个嵌套压缩包...");
            let mut m2 = String::from_str("正在解压嵌套子包: ");
            m2.append(name.as_str());
            m2.append(" (0%)...");
            logs.push(LogLine { message: m1, status: LogStatus::Running, progress: layer_end_exec(depth) });
            logs.push(LogLine { message: m2, status: LogStatus::Running, progress: layer_start_exec(depth) });
            assert(logs_view(logs@) =~= seq![
                log(msg_found_one(depth as nat), LogStatus::Running, layer_end(depth as nat)),
                log(msg_nested_start(shown_name(a@)), LogStatus::Running, layer_start(depth as nat)),
            ]);
            self.stage = Stage::ExtractingNested { depth, path: a.path.clone(), name, dest };
        }
    }
}

fn layer_start_exec(depth: u32) -> (r: u32)
    requires
        1 <= depth <= MAX_DEPTH,
    ensures
        r == layer_start(depth as nat),
{
    if (depth - 1) * 5 < 45 {
        35 + (depth - 1) * 5
    } else {
        80
    }
}

fn layer_end_exec(depth: u32) -> (r: u32)
    requires
        1 <= depth <= MAX_DEPTH,
    ensures
        r == layer_end(depth as nat),
{
    if depth * 5 < 45 {
        35 + depth * 5
    } else {
        80
    }
}

fn shown_name_exec(a: &FoundArchive) -> (r: String)
    ensures
        r@ == shown_name(a@),
{
    match &a.name {
        Some(n) => n.clone(),
        None => String::from_str("未知压缩包"),
    }
}

fn shown_names(found: &Vec<FoundArchive>) -> (r: Vec<String>)
    ensures
        strings_view(r@) == found@.map_values(|a: FoundArchive| a@).map_values(|a: FoundView| shown_name(a)),
{
    let mut r: Vec<String> = Vec::new();
    let mut i: usize = 0;
    while i < found.len()
        invariant
            i <= found@.len(),
            strings_view(r@) == found@.take(i as int).map_values(|a: FoundArchive| a@).map_values(|a: FoundView| shown_name(a)),
        decreases found@.len() - i,
    {
        let ghost r0 = r@;
        let n = shown_name_exec(&found[i]);
        r.push(n);
        assert(found@.take(i + 1) =~= found@.take(i as int).push(found@[i as int]));
        assert(strings_view(r@) =~= strings_view(r0).push(shown_name(found@[i as int]@)));
        assert(strings_view(r@) =~= found@.take(i + 1).map_values(|a: FoundArchive| a@).map_values(|a: FoundView| shown_name(a)));
        i = i + 1;
    }
    assert(found@.take(found@.len() as int) =~= found@);
    r
}

fn archive_paths(found: &Vec<FoundArchive>) -> (r: Vec<String>)
    ensures
        strings_view(r@) == found@.map_values(|a: FoundArchive| a@).map_values(|a: FoundView| a.path),
{
    let mut r: Vec<String> = Vec::new();
    let mut i: usize = 0;
    while i < found.len()
        invariant
            i <= found@.len(),
            strings_view(r@) == found@.take(i as int).map_values(|a: FoundArchive| a@).map_values(|a: FoundView| a.path),
        decreases found@.len() - i,
    {
        let ghost r0 = r@;
        let p = found[i].path.clone();
        r.push(p);
        assert(found@.take(i + 1) =~= found@.take(i as int).push(found@[i as int]));
        assert(strings_view(r@) =~= strings_view(r0).push(found@[i as int]@.path));
        assert(strings_view(r@) =~= found@.take(i + 1).map_values(|a: FoundArchive| a@).map_values(|a: FoundView| a.path));
        i = i + 1;
    }
    assert(found@.take(found@.len() as int) =~= found@);
    r
}

/// Starts the nested extraction of `archive_path` into `target_dir`, given
/// the executable that resolving the configured one gave (`None`: it could
/// not be found, and the flow fails at once). Returns the flow and its
/// first step.
pub fn start_extraction_flow(resolved_exe: Option<String>, archive_path: String, target_dir: String, exe_type: &str) -> (r: (ExtractionFlow, FlowStep))
    ensures
        r.0.view() == flow_start(opt_string_view(resolved_exe), archive_path@, target_dir@, exe_type@),
        flow_wf(r.0.view()),
        r.1.logs@.len() == 0,
        r.1.op@ == op_of(r.0.view()),
{
    let flow = match resolved_exe {
        Some(exe) => ExtractionFlow { target: target_dir, archive: archive_path, exe, existed: false, stage: Stage::CheckingTarget },
        None => {
            let mut msg = String::from_str("无法在配置的路径中找到 ");
            msg.append(exe_type);
            msg.append(" 的可执行文件");
            let r = ExtractionFlow {
                target: target_dir,
                archive: archive_path,
                exe: String::new(),
                existed: false,
                stage: Stage::Finished(Err(msg)),
            };
            r
        },
    };
    let step = flow.step(Vec::new());
    (flow, step)
}

/// The text of an optional string.
pub open spec fn opt_string_view(o: Option<String>) -> Option<Seq<char>> {
    match o {
        Some(s) => Some(s@),
        None => None,
    }
}

} // verus!

verus! {

/// The message of the failure being cleaned up after, if a cleanup is in
/// progress.
pub open spec fn cleanup_message(stage: StageView) -> Option<Seq<char>> {
    match stage {
        StageView::CleaningTarget(m) => Some(m),
        StageView::CleaningScan(m) => Some(m),
        StageView::CleaningArchives { err, .. } => Some(err),
        _ => None,
    }
}

/// How far a flow is from its end, ordered lexicographically.
pub open spec fn flow_rank(f: FlowView) -> (nat, nat) {
    let m = MAX_DEPTH as nat;
    match f.stage {
        StageView::Finished(_) => (0, 0),
        StageView::CleaningArchives { paths, next, .. } => (1, (paths.len() - next) as nat),
        StageView::CleaningTarget(_) => (1, 0),
        StageView::CleaningScan(_) => (2, 0),
        StageView::RemovingNested { depth, .. } => ((3 + 4 * (m - depth)) as nat, 0),
        StageView::TrashingNested { depth, .. } => ((4 + 4 * (m - depth)) as nat, 0),
        StageView::ExtractingNested { depth, .. } => ((5 + 4 * (m - depth)) as nat, 0),
        StageView::Scanning(depth) => ((6 + 4 * (m - depth)) as nat, 0),
        StageView::ExtractingFirst => (7 + 4 * m, 0),
        StageView::Creating => (8 + 4 * m, 0),
        StageView::CheckingTarget => (9 + 4 * m, 0),
    }
}

/// `a` comes before `b` in the lexicographic order.
pub open spec fn rank_below(a: (nat, nat), b: (nat, nat)) -> bool {
    a.0 < b.0 || (a.0 == b.0 && a.1 < b.1)
}

/// At most `MAX_DEPTH` layers of nested archives are unpacked: every event
/// keeps a flow well formed, and the nested extraction that a well-formed
/// flow asks for is at a depth from 1 to `MAX_DEPTH`.
pub proof fn lemma_depth_bounded(f: FlowView, ev: EventView)
    requires
        flow_wf(f),
    ensures
        flow_wf(flow_next(f, ev).0),
        op_of(f) matches OpView::Extract { layer: LayerView::Nested { depth, .. }, .. } ==> 1 <= depth <= MAX_DEPTH,
{
}

/// Every run ends: an event either answers the current operation, and then
/// the flow moves strictly closer to its end, or it changes nothing.
pub proof fn lemma_flow_progress(f: FlowView, ev: EventView)
    requires
        flow_wf(f),
    ensures
        flow_next(f, ev).0 == f || rank_below(flow_rank(flow_next(f, ev).0), flow_rank(f)),
{
}

/// Progress never passes 100 percent, and the progress of a nested layer
/// runs within 35 to 80 percent, its start not after its end.
pub proof fn lemma_progress_bounded(f: FlowView, ev: EventView)
    requires
        flow_wf(f),
    ensures
        forall|i: int| 0 <= i < flow_next(f, ev).1.len() ==> #[trigger] flow_next(f, ev).1[i].progress <= 100,
        op_of(f) matches OpView::Extract { layer: LayerView::Nested { start, end, .. }, .. } ==> 35 <= start <= end <= 80,
{
}

/// A failure is reported and answered for: a flow finishes with an error
/// only when the target directory could not be created (and that error is
/// logged as the last word), or at the end of a cleanup, with the message
/// of the failure that started the cleanup; and a cleanup starts by logging
/// that failure and announcing the cleanup, removing the whole target
/// directory when it did not exist before, else the archives in it.
pub proof fn lemma_failure_reported(f: FlowView, ev: EventView)
    requires
        flow_wf(f),
    ensures
        ({
            let (g, logs) = flow_next(f, ev);
            &&& g.stage matches StageView::Finished(Err(m)) ==> {
                ||| f.stage is Finished
                ||| f.stage is Creating && logs == seq![log(m, LogStatus::Error, 100)]
                ||| cleanup_message(f.stage) == Some(m)
            }
            &&& cleanup_message(g.stage) matches Some(m) ==> {
                ||| cleanup_message(f.stage) is Some
                ||| {
                    &&& logs == seq![log(m, LogStatus::Error, 100), log(msg_cleanup(), LogStatus::Running, 95)]
                    &&& (if f.existed { g.stage == StageView::CleaningScan(m) } else { g.stage == StageView::CleaningTarget(m) })
                }
            }
        }),
{
}

/// A flow succeeds only when a scan of the target directory finds no
/// archive, or more than one, and then it says so last.
pub proof fn lemma_success_when_settled(f: FlowView, ev: EventView)
    requires
        flow_wf(f),
    ensures
        ({
            let (g, logs) = flow_next(f, ev);
            (g.stage == StageView::Finished(Ok(())) && !(f.stage is Finished)) ==> {
                &&& f.stage is Scanning
                &&& ev matches EventView::Scanned(Ok(found)) && found.len() != 1
                &&& logs.len() > 0 && logs.last() == log(msg_all_done(), LogStatus::Success, 100)
            }
        }),
{
}

/// When a scan during nested extraction finds two or more archives, none of
/// them is unpacked: the flow logs that it skips them, naming each, then
/// that all is done, and finishes successfully without asking for any
/// further operation.
pub proof fn lemma_several_archives_skipped(f: FlowView, depth: nat, found: Seq<FoundView>)
    requires
        f.stage == StageView::Scanning(depth),
        found.len() >= 2,
    ensures
        ({
            let (g, logs) = flow_next(f, EventView::Scanned(Ok(found)));
            &&& g.stage == StageView::Finished(Ok(()))
            &&& op_of(g) == OpView::Finish(Ok(()))
            &&& logs == seq![
                LogView {
                    message: "第 "@ + decimal(depth) + " 层扫描找到 "@ + decimal(found.len()) + " 个嵌套压缩包: "@ + join(
                        found.map_values(|a: FoundView| shown_name(a)),
                        ", "@,
                    ) + "，为避免混乱，跳过对这些嵌套包的解压。"@,
                    status: LogStatus::Success,
                    progress: 100,
                },
                LogView { message: "全部深度解压完成，已成功清理所有中间压缩包！"@, status: LogStatus::Success, progress: 100 },
            ]
        }),
{
}

/// When a scan during nested extraction finds exactly one archive, that
/// archive, and only it, is unpacked next, into its own directory.
pub proof fn lemma_single_archive_unpacked(f: FlowView, depth: nat, a: FoundView)
    requires
        f.stage == StageView::Scanning(depth),
    ensures
        ({
            let g = flow_next(f, EventView::Scanned(Ok(seq![a]))).0;
            op_of(g) matches OpView::Extract { archive, dest, layer: LayerView::Nested { depth: d, .. }, .. } && archive
                == a.path && dest == (match a.parent {
                Some(p) => p,
                None => f.target,
            }) && d == depth
        }),
{
}

} // verus!

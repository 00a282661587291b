use nest_unzip::flow::{start_extraction_flow, ExtractionFlow, FlowEvent, FlowOp, FlowStep, FoundArchive, Layer, LogStatus, MAX_DEPTH};

fn found(path: &str, name: Option<&str>, parent: Option<&str>) -> FoundArchive {
    FoundArchive { path: path.to_string(), name: name.map(|s| s.to_string()), parent: parent.map(|s| s.to_string()) }
}

fn status(s: LogStatus) -> &'static str {
    match s {
        LogStatus::Running => "running",
        LogStatus::Success => "success",
        LogStatus::Error => "error",
    }
}

fn describe_op(op: &FlowOp) -> String {
    match op {
        FlowOp::CheckTarget(t) => format!("check {}", t),
        FlowOp::CreateTarget(t) => format!("create {}", t),
        FlowOp::Extract { exe, archive, dest, layer } => match layer {
            Layer::First => format!("extract {} {} -> {} first", exe, archive, dest),
            Layer::Nested { name, depth, start, end } => {
                format!("extract {} {} -> {} nested {} depth {} {}..{}", exe, archive, dest, name, depth, start, end)
            }
        },
        FlowOp::Scan(t) => format!("scan {}", t),
        FlowOp::Trash(p) => format!("trash {}", p),
        FlowOp::RemoveFile(p) => format!("remove {}", p),
        FlowOp::TrashIfExists(p) => format!("trash-if-exists {}", p),
        FlowOp::Finish(Ok(())) => "finish ok".to_string(),
        FlowOp::Finish(Err(e)) => format!("finish err {}", e),
    }
}

/// A run of a flow: every log line and every operation, in order.
struct Trace {
    flow: ExtractionFlow,
    lines: Vec<String>,
    last_op: String,
}

impl Trace {
    fn new(flow: ExtractionFlow, step: FlowStep) -> Trace {
        let mut t = Trace { flow, lines: Vec::new(), last_op: String::new() };
        t.record(step);
        t
    }

    fn record(&mut self, step: FlowStep) {
        for l in &step.logs {
            self.lines.push(format!("[{} {}] {}", status(l.status), l.progress, l.message));
        }
        self.last_op = describe_op(&step.op);
        self.lines.push(format!("> {}", self.last_op));
    }

    fn send(&mut self, ev: FlowEvent) {
        let step = self.flow.advance(ev);
        self.record(step);
    }
}

fn started(exe: Option<&str>) -> Trace {
    let (flow, step) = start_extraction_flow(exe.map(|s| s.to_string()), "D:\\in\\a.zip".to_string(), "D:\\out".to_string(), "7z");
    Trace::new(flow, step)
}

#[test]
fn flow_without_executable_fails_at_once() {
    let t = started(None);
    assert_eq!(t.lines, vec!["> finish err 无法在配置的路径中找到 7z 的可执行文件"]);
}

#[test]
fn flow_unpacks_one_nested_archive() {
    let mut t = started(Some("7z.exe"));
    t.send(FlowEvent::TargetChecked(false));
    t.send(FlowEvent::Created(Ok(())));
    t.send(FlowEvent::Extracted(Ok(())));
    t.send(FlowEvent::Scanned(Ok(vec![found("D:\\out\\s\\b.7z", Some("b.7z"), Some("D:\\out\\s"))])));
    t.send(FlowEvent::Extracted(Ok(())));
    t.send(FlowEvent::Trashed(Ok(())));
    t.send(FlowEvent::Scanned(Ok(vec![])));
    assert_eq!(
        t.lines,
        vec![
            "> check D:\\out",
            "[running 10] 开始第一层解压...",
            "> create D:\\out",
            "> extract 7z.exe D:\\in\\a.zip -> D:\\out first",
            "[running 35] 第一层解包成功，开始扫描嵌套压缩包...",
            "> scan D:\\out",
            "[running 40] 第 1 层扫描找到 1 个嵌套压缩包...",
            "[running 35] 正在解压嵌套子包: b.7z (0%)...",
            "> extract 7z.exe D:\\out\\s\\b.7z -> D:\\out\\s nested b.7z depth 1 35..40",
            "[running 40] 嵌套子包 b.7z 解包成功，移动中间包到回收站。",
            "> trash D:\\out\\s\\b.7z",
            "> scan D:\\out",
            "[success 100] 全部深度解压完成，已成功清理所有中间压缩包！",
            "> finish ok",
        ]
    );
}

#[test]
fn flow_create_failure_is_reported() {
    let mut t = started(Some("7z"));
    t.send(FlowEvent::TargetChecked(false));
    t.send(FlowEvent::Created(Err("denied".to_string())));
    assert_eq!(&t.lines[3..], &["[error 100] 创建目标文件夹失败: denied", "> finish err 创建目标文件夹失败: denied"]);
}

#[test]
fn flow_first_layer_failure_removes_new_target() {
    let mut t = started(Some("7z"));
    t.send(FlowEvent::TargetChecked(false));
    t.send(FlowEvent::Created(Ok(())));
    t.send(FlowEvent::Extracted(Err("bad".to_string())));
    t.send(FlowEvent::Completed);
    assert_eq!(
        &t.lines[4..],
        &[
            "[error 100] 第一层解压失败: bad",
            "[running 95] 解压出错，正在清理中间产物到回收站...",
            "> trash-if-exists D:\\out",
            "> finish err 第一层解压失败: bad",
        ]
    );
}

#[test]
fn flow_failure_in_existing_target_trashes_found_archives() {
    let mut t = started(Some("7z"));
    t.send(FlowEvent::TargetChecked(true));
    t.send(FlowEvent::Created(Ok(())));
    t.send(FlowEvent::Extracted(Ok(())));
    t.send(FlowEvent::Scanned(Ok(vec![found("D:\\out\\b.zip", None, None)])));
    assert_eq!(t.last_op, "extract 7z D:\\out\\b.zip -> D:\\out nested 未知压缩包 depth 1 35..40");
    t.send(FlowEvent::Extracted(Err("crc".to_string())));
    assert_eq!(t.last_op, "scan D:\\out");
    t.send(FlowEvent::Scanned(Ok(vec![found("D:\\out\\x.rar", None, None), found("D:\\out\\y.gz", None, None)])));
    assert_eq!(t.last_op, "trash D:\\out\\x.rar");
    t.send(FlowEvent::Trashed(Err("busy".to_string())));
    assert_eq!(t.last_op, "trash D:\\out\\y.gz");
    t.send(FlowEvent::Trashed(Ok(())));
    assert_eq!(t.last_op, "finish err 解压嵌套子包 未知压缩包 失败: crc");
    assert!(t.lines.contains(&"[error 100] 解压嵌套子包 未知压缩包 失败: crc".to_string()));
}

#[test]
fn flow_scan_failure_during_cleanup_still_finishes() {
    let mut t = started(Some("7z"));
    t.send(FlowEvent::TargetChecked(true));
    t.send(FlowEvent::Created(Ok(())));
    t.send(FlowEvent::Extracted(Ok(())));
    t.send(FlowEvent::Scanned(Err("io".to_string())));
    assert_eq!(t.last_op, "scan D:\\out");
    t.send(FlowEvent::Scanned(Err("io".to_string())));
    assert_eq!(t.last_op, "finish err 扫描嵌套包失败: io");
}

#[test]
fn flow_skips_several_nested_archives() {
    let mut t = started(Some("7z"));
    t.send(FlowEvent::TargetChecked(false));
    t.send(FlowEvent::Created(Ok(())));
    t.send(FlowEvent::Extracted(Ok(())));
    t.send(FlowEvent::Scanned(Ok(vec![found("D:\\out\\a.zip", Some("a.zip"), None), found("D:\\out\\b", None, None)])));
    assert_eq!(
        &t.lines[6..],
        &[
            "[success 100] 第 1 层扫描找到 2 个嵌套压缩包: a.zip, 未知压缩包，为避免混乱，跳过对这些嵌套包的解压。",
            "[success 100] 全部深度解压完成，已成功清理所有中间压缩包！",
            "> finish ok",
        ]
    );
}

#[test]
fn flow_falls_back_to_deleting_when_trash_fails() {
    let mut t = started(Some("7z"));
    t.send(FlowEvent::TargetChecked(false));
    t.send(FlowEvent::Created(Ok(())));
    t.send(FlowEvent::Extracted(Ok(())));
    t.send(FlowEvent::Scanned(Ok(vec![found("D:\\out\\b.zip", Some("b.zip"), Some("D:\\out"))])));
    t.send(FlowEvent::Extracted(Ok(())));
    t.send(FlowEvent::Trashed(Err("no bin".to_string())));
    assert_eq!(t.last_op, "remove D:\\out\\b.zip");
    assert!(t.lines.contains(&"[running 40] 移入回收站失败: no bin, 尝试物理删除...".to_string()));
    t.send(FlowEvent::Completed);
    assert_eq!(t.last_op, "scan D:\\out");
}

#[test]
fn flow_stops_at_the_depth_limit() {
    let mut t = started(Some("7z"));
    t.send(FlowEvent::TargetChecked(false));
    t.send(FlowEvent::Created(Ok(())));
    t.send(FlowEvent::Extracted(Ok(())));
    let mut nested = 0;
    let mut last_range = String::new();
    while t.last_op.starts_with("scan") {
        t.send(FlowEvent::Scanned(Ok(vec![found("D:\\out\\n.zip", Some("n.zip"), Some("D:\\out"))])));
        assert!(t.last_op.starts_with("extract"));
        nested += 1;
        last_range = t.last_op.rsplit(' ').next().unwrap().to_string();
        t.send(FlowEvent::Extracted(Ok(())));
        t.send(FlowEvent::Trashed(Ok(())));
    }
    assert_eq!(nested, MAX_DEPTH);
    // progress stops growing at 80
    assert_eq!(last_range, "80..80");
    assert_eq!(t.last_op, "trash-if-exists D:\\out");
    t.send(FlowEvent::Completed);
    assert_eq!(t.last_op, "finish err 达到最大嵌套解包深度限制 (20层)，停止解包。");
}

#[test]
fn flow_ignores_an_event_that_answers_nothing() {
    let mut t = started(Some("7z"));
    t.send(FlowEvent::Completed);
    assert_eq!(t.lines, vec!["> check D:\\out", "> check D:\\out"]);
    t.send(FlowEvent::TargetChecked(false));
    t.send(FlowEvent::Extracted(Ok(())));
    assert_eq!(t.last_op, "create D:\\out");
}

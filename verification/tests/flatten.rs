use nest_unzip::flatten::{start_flatten, DirEntry, FlattenEvent, FlattenOp, Flattener, ListError};

fn entries(v: &[(&str, &str)]) -> Vec<DirEntry> {
    v.iter().map(|(n, p)| DirEntry { name: n.to_string(), path: p.to_string() }).collect()
}

fn describe(op: &FlattenOp) -> String {
    match op {
        FlattenOp::CheckDir(p) => format!("check {}", p),
        FlattenOp::List(d) => format!("list {}", d),
        FlattenOp::Lift { dir, sub } => format!("lift {} into {}", sub, dir),
        FlattenOp::Finish(Ok(())) => "finish ok".to_string(),
        FlattenOp::Finish(Err(e)) => format!("finish err {}", e),
    }
}

fn send(f: &mut Flattener, ev: FlattenEvent) -> String {
    describe(&f.advance(ev))
}

#[test]
fn flatten_lifts_nested_single_directories_until_flat() {
    let (mut f, op) = start_flatten("T".to_string());
    assert_eq!(describe(&op), "check T");
    assert_eq!(send(&mut f, FlattenEvent::IsDir(true)), "list T");
    let l1 = entries(&[("desktop.ini", "T/desktop.ini"), ("sub_1", "T/sub_1")]);
    assert_eq!(send(&mut f, FlattenEvent::Listed(Ok(l1))), "check T/sub_1");
    assert_eq!(send(&mut f, FlattenEvent::IsDir(true)), "lift T/sub_1 into T");
    // after a lift the directory is listed again
    assert_eq!(send(&mut f, FlattenEvent::Lifted(Ok(()))), "list T");
    let l2 = entries(&[("desktop.ini", "T/desktop.ini"), (".DS_Store", "T/.DS_Store"), ("sub_2", "T/sub_2")]);
    assert_eq!(send(&mut f, FlattenEvent::Listed(Ok(l2))), "check T/sub_2");
    assert_eq!(send(&mut f, FlattenEvent::IsDir(true)), "lift T/sub_2 into T");
    assert_eq!(send(&mut f, FlattenEvent::Lifted(Ok(()))), "list T");
    let l3 = entries(&[("file1.txt", "T/file1.txt"), ("file2.txt", "T/file2.txt"), ("desktop.ini", "T/desktop.ini")]);
    assert_eq!(send(&mut f, FlattenEvent::Listed(Ok(l3))), "finish ok");
}

#[test]
fn flatten_leaves_a_flat_directory_alone() {
    let (mut f, _) = start_flatten("T".to_string());
    send(&mut f, FlattenEvent::IsDir(true));
    // the single counted entry is a file
    assert_eq!(send(&mut f, FlattenEvent::Listed(Ok(entries(&[("a.txt", "T/a.txt")])))), "check T/a.txt");
    assert_eq!(send(&mut f, FlattenEvent::IsDir(false)), "finish ok");
    // an empty directory
    let (mut f, _) = start_flatten("T".to_string());
    send(&mut f, FlattenEvent::IsDir(true));
    assert_eq!(send(&mut f, FlattenEvent::Listed(Ok(vec![]))), "finish ok");
}

#[test]
fn flatten_errors() {
    let (mut f, _) = start_flatten("X".to_string());
    assert_eq!(send(&mut f, FlattenEvent::IsDir(false)), "finish err 路径不是一个目录: X");
    let (mut f, _) = start_flatten("X".to_string());
    send(&mut f, FlattenEvent::IsDir(true));
    assert_eq!(send(&mut f, FlattenEvent::Listed(Err(ListError::Open("denied".to_string())))), "finish err 无法读取目录 X: denied");
    let (mut f, _) = start_flatten("X".to_string());
    send(&mut f, FlattenEvent::IsDir(true));
    assert_eq!(send(&mut f, FlattenEvent::Listed(Err(ListError::Entry("gone".to_string())))), "finish err 读取目录项失败: gone");
    let (mut f, _) = start_flatten("X".to_string());
    send(&mut f, FlattenEvent::IsDir(true));
    send(&mut f, FlattenEvent::Listed(Ok(entries(&[("s", "X/s")]))));
    send(&mut f, FlattenEvent::IsDir(true));
    assert_eq!(send(&mut f, FlattenEvent::Lifted(Err("busy".to_string()))), "finish err busy");
    // an event that answers nothing changes nothing
    assert_eq!(send(&mut f, FlattenEvent::IsDir(true)), "finish err busy");
}

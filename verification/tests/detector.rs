use nest_unzip::locate::{detect_tools_search, detected_tools, resolve_exe_path, ExeResolver, Probe, ToolSearch};
use std::path::Path;

/// Answers the file-system questions from this machine. The search path and
/// the registry are not consulted here: those questions get no answer.
fn answer_here(p: &Probe) -> Option<String> {
    match p {
        Probe::OnSearchPath(_) | Probe::RegistryValue(_, _) => None,
        Probe::FileInDir(dir, name) => {
            let joined = Path::new(dir).join(name);
            if joined.exists() {
                Some(joined.to_string_lossy().to_string())
            } else {
                None
            }
        }
        Probe::Exists(path) => {
            if Path::new(path).exists() {
                Some(String::new())
            } else {
                None
            }
        }
        Probe::ExistingFile(path) => {
            let q = Path::new(path);
            if q.is_file() && q.exists() {
                Some(q.file_name().and_then(|s| s.to_str()).unwrap_or("").to_string())
            } else {
                None
            }
        }
        Probe::BesideFile(path, name) => {
            let parent = Path::new(path).parent()?;
            let joined = parent.join(name);
            if joined.exists() {
                Some(joined.to_string_lossy().to_string())
            } else {
                None
            }
        }
    }
}

/// A pretend Windows machine: the files that exist, the commands on the
/// search path, and registry values (key, value name, data).
struct Machine {
    files: Vec<&'static str>,
    commands: Vec<&'static str>,
    registry: Vec<(&'static str, &'static str, &'static str)>,
}

fn win_join(dir: &str, name: &str) -> String {
    if dir.ends_with('\\') || dir.is_empty() {
        format!("{}{}", dir, name)
    } else {
        format!("{}\\{}", dir, name)
    }
}

impl Machine {
    fn has(&self, path: &str) -> bool {
        self.files.iter().any(|f| *f == path)
    }

    fn answer(&self, p: &Probe) -> Option<String> {
        match p {
            Probe::OnSearchPath(c) => {
                if self.commands.iter().any(|x| x == c) {
                    Some(c.clone())
                } else {
                    None
                }
            }
            Probe::RegistryValue(k, v) => self
                .registry
                .iter()
                .find(|(key, name, _)| key == k && name == v)
                .map(|(_, _, data)| data.to_string()),
            Probe::FileInDir(dir, name) => {
                let j = win_join(dir, name);
                if self.has(&j) {
                    Some(j)
                } else {
                    None
                }
            }
            Probe::Exists(path) => {
                if self.has(path) {
                    Some(String::new())
                } else {
                    None
                }
            }
            Probe::ExistingFile(path) => {
                if self.has(path) {
                    Some(path.rsplit('\\').next().unwrap_or("").to_string())
                } else {
                    None
                }
            }
            Probe::BesideFile(path, name) => {
                let cut = path.rfind('\\')?;
                let j = win_join(&path[..cut], name);
                if self.has(&j) {
                    Some(j)
                } else {
                    None
                }
            }
        }
    }
}

/// Runs a resolution to its end; also returns how many questions it asked.
fn run_resolver(mut r: ExeResolver, answer: &dyn Fn(&Probe) -> Option<String>) -> (Option<String>, usize) {
    let mut asked = 0;
    while let Some(p) = r.request() {
        asked += 1;
        let a = answer(&p);
        r.answer(a);
    }
    (r.resolved().expect("a resolver with no question left is resolved"), asked)
}

fn run_search(mut s: ToolSearch, answer: &dyn Fn(&Probe) -> Option<String>) -> (ToolSearch, Vec<Probe>) {
    let mut asked = Vec::new();
    while let Some(p) = s.request() {
        let a = answer(&p);
        asked.push(p);
        s.answer(a);
    }
    (s, asked)
}

#[test]
fn test_resolve_exe_path_bandizip_redirect() {
    let gui_path = "H:\\APP\\Bandizip\\Bandizip.exe";
    if Path::new(gui_path).exists() {
        let (resolved, _) = run_resolver(resolve_exe_path(gui_path, "bandizip"), &answer_here);
        let resolved = resolved.unwrap();
        assert!(resolved.to_lowercase().ends_with("bz.exe") || resolved.to_lowercase().ends_with("bc.exe"));
        println!("成功重定向 Bandizip.exe 到: {}", resolved);
    }
}

#[test]
fn gui_executable_is_redirected_to_command_line_one() {
    let m = Machine {
        files: vec!["H:\\APP\\Bandizip\\Bandizip.exe", "H:\\APP\\Bandizip\\bc.exe"],
        commands: vec![],
        registry: vec![],
    };
    let (r, asked) = run_resolver(resolve_exe_path("  \"H:\\APP\\Bandizip\\Bandizip.exe\" ", "bandizip"), &|p| m.answer(p));
    assert_eq!(r, Some("H:\\APP\\Bandizip\\bc.exe".to_string()));
    // is it a file, then bz.exe beside it, then bc.exe beside it
    assert_eq!(asked, 3);
}

#[test]
fn gui_executable_in_other_case_is_redirected_to_bz() {
    let m = Machine {
        files: vec!["D:\\bz\\BANDIZIP.EXE", "D:\\bz\\bz.exe", "D:\\bz\\bc.exe"],
        commands: vec![],
        registry: vec![],
    };
    let (r, _) = run_resolver(resolve_exe_path("D:\\bz\\BANDIZIP.EXE", "bandizip"), &|p| m.answer(p));
    assert_eq!(r, Some("D:\\bz\\bz.exe".to_string()));
}

#[test]
fn gui_executable_alone_is_kept() {
    let m = Machine { files: vec!["H:\\B\\Bandizip.exe"], commands: vec![], registry: vec![] };
    let (r, _) = run_resolver(resolve_exe_path("H:\\B\\Bandizip.exe", "bandizip"), &|p| m.answer(p));
    assert_eq!(r, Some("H:\\B\\Bandizip.exe".to_string()));
}

#[test]
fn configured_file_is_used_as_it_is() {
    let m = Machine { files: vec!["E:\\x\\7z.exe"], commands: vec![], registry: vec![] };
    let (r, asked) = run_resolver(resolve_exe_path("E:\\x\\7z.exe", "7z"), &|p| m.answer(p));
    assert_eq!(r, Some("E:\\x\\7z.exe".to_string()));
    assert_eq!(asked, 1);
}

#[test]
fn configured_directory_is_searched() {
    let m = Machine { files: vec!["C:\\Tools\\7-Zip\\7Z.exe"], commands: vec![], registry: vec![] };
    let (r, asked) = run_resolver(resolve_exe_path("C:\\Tools\\7-Zip", "7z"), &|p| m.answer(p));
    assert_eq!(r, Some("C:\\Tools\\7-Zip\\7Z.exe".to_string()));
    assert_eq!(asked, 3);
}

#[test]
fn missing_path_is_returned_cleaned() {
    let m = Machine { files: vec![], commands: vec![], registry: vec![] };
    // not ending in .exe: the directory is looked through twice
    let (r, asked) = run_resolver(resolve_exe_path(" D:\\nothing ", "7z"), &|p| m.answer(p));
    assert_eq!(r, Some("D:\\nothing".to_string()));
    assert_eq!(asked, 1 + 2 * 2);
    // ending in .EXE: once
    let (r, asked) = run_resolver(resolve_exe_path("D:\\nothing\\bc.EXE", "bandizip"), &|p| m.answer(p));
    assert_eq!(r, Some("D:\\nothing\\bc.EXE".to_string()));
    assert_eq!(asked, 1 + 6);
}

#[test]
fn blank_path_finds_seven_zip_on_search_path() {
    let m = Machine { files: vec![], commands: vec!["7z"], registry: vec![] };
    let (r, asked) = run_resolver(resolve_exe_path("  ", "7z"), &|p| m.answer(p));
    assert_eq!(r, Some("7z".to_string()));
    assert_eq!(asked, 1);
}

#[test]
fn blank_path_reads_the_registry() {
    let m = Machine {
        files: vec!["D:\\7zip\\7z.exe"],
        commands: vec![],
        registry: vec![("HKLM\\SOFTWARE\\WOW6432Node\\7-Zip", "Path", "D:\\7zip")],
    };
    let (r, _) = run_resolver(resolve_exe_path("", "7z"), &|p| m.answer(p));
    assert_eq!(r, Some("D:\\7zip\\7z.exe".to_string()));
}

#[test]
fn blank_path_falls_back_to_usual_locations() {
    let m = Machine {
        files: vec!["C:\\Program Files (x86)\\Bandizip\\bc.exe"],
        commands: vec![],
        registry: vec![("HKCU\\SOFTWARE\\Bandizip", "ProgramFolder", "D:\\gone")],
    };
    let (r, _) = run_resolver(resolve_exe_path("", "bandizip"), &|p| m.answer(p));
    assert_eq!(r, Some("C:\\Program Files (x86)\\Bandizip\\bc.exe".to_string()));
}

#[test]
fn blank_path_prefers_bz_then_bc() {
    let m = Machine { files: vec![], commands: vec!["bc", "bz"], registry: vec![] };
    let (r, _) = run_resolver(resolve_exe_path("", "bandizip"), &|p| m.answer(p));
    assert_eq!(r, Some("bz".to_string()));
    let m = Machine { files: vec![], commands: vec!["bc"], registry: vec![] };
    let (r, _) = run_resolver(resolve_exe_path("", "bandizip"), &|p| m.answer(p));
    assert_eq!(r, Some("bc".to_string()));
}

#[test]
fn blank_path_with_nothing_installed_resolves_to_none() {
    let m = Machine { files: vec![], commands: vec![], registry: vec![] };
    let (r, asked) = run_resolver(resolve_exe_path("", "7z"), &|p| m.answer(p));
    assert_eq!(r, None);
    // search path, three registry keys, two usual paths
    assert_eq!(asked, 6);
}

#[test]
fn detection_finds_both_tools() {
    let m = Machine {
        files: vec!["C:\\Program Files\\Bandizip\\Bandizip.exe", "C:\\Program Files\\7-Zip\\7z.exe"],
        commands: vec!["7z"],
        registry: vec![("HKLM\\SOFTWARE\\7-Zip", "Path", "C:\\Program Files\\7-Zip")],
    };
    let (s, asked) = run_search(detect_tools_search(), &|p| m.answer(p));
    let d = detected_tools(&s);
    assert_eq!(d.seven_zip, Some("7z".to_string()));
    assert_eq!(d.bandizip, Some("C:\\Program Files\\Bandizip\\Bandizip.exe".to_string()));
    // once 7-Zip is found, none of its other places is looked at
    for p in &asked[1..] {
        match p {
            Probe::RegistryValue(k, _) => assert!(!k.contains("7-Zip")),
            Probe::Exists(path) => assert!(!path.contains("7-Zip")),
            Probe::OnSearchPath(c) => assert_eq!(c, "bc"),
            _ => {}
        }
    }
}

#[test]
fn detection_reads_bandizip_folder_from_registry() {
    let m = Machine {
        files: vec!["E:\\Bandizip\\Bandizip.exe"],
        commands: vec![],
        registry: vec![("HKLM\\SOFTWARE\\Bandizip", "ProgramFolder", "E:\\Bandizip")],
    };
    let (s, _) = run_search(detect_tools_search(), &|p| m.answer(p));
    assert!(s.finished());
    let d = detected_tools(&s);
    assert_eq!(d.seven_zip, None);
    assert_eq!(d.bandizip, Some("E:\\Bandizip\\Bandizip.exe".to_string()));
}

#[test]
fn detection_and_blank_resolution_agree_on_seven_zip() {
    let machines = vec![
        Machine { files: vec![], commands: vec!["7z"], registry: vec![] },
        Machine {
            files: vec!["D:\\7\\7z.exe", "C:\\Program Files\\7-Zip\\7z.exe"],
            commands: vec!["bc"],
            registry: vec![("HKCU\\SOFTWARE\\7-Zip", "Path", "D:\\7")],
        },
        Machine { files: vec!["C:\\Program Files (x86)\\7-Zip\\7z.exe"], commands: vec![], registry: vec![] },
        Machine { files: vec![], commands: vec![], registry: vec![("HKLM\\SOFTWARE\\7-Zip", "Path", "E:\\none")] },
    ];
    for m in &machines {
        let (s, _) = run_search(detect_tools_search(), &|p| m.answer(p));
        let (r, _) = run_resolver(resolve_exe_path("", "7z"), &|p| m.answer(p));
        assert_eq!(detected_tools(&s).seven_zip, r);
    }
}

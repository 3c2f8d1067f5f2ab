use py_spy::error::SpyError;
use py_spy::process::{
    find_libpython, find_python_binary, find_windows_libpython, find_windows_python_binary,
    windows_symbol_address, maps_contain_addr, BinaryInfo, MemoryRegion,
    PythonProcessInfo, Symbol,
};
use py_spy::scan::{check_interpreter_candidate, interpreter_candidates, should_retry};
use py_spy::spy::{interpreter_pointer_address, PythonSpy, StackFrame, StackTrace};
use py_spy::version::Version;

fn region(start: u64, end: u64, executable: bool, path: Option<&str>) -> MemoryRegion {
    MemoryRegion { start, end, executable, path: path.map(|p| p.to_owned()) }
}

fn binary(symbols: &[(&str, u64)]) -> BinaryInfo {
    BinaryInfo {
        bss_addr: 0x1000,
        bss_size: 0x100,
        symbols: symbols.iter().map(|(n, a)| Symbol { name: n.to_string(), address: *a }).collect(),
    }
}

fn info(filename: &str, main: &[(&str, u64)], lib: Option<&[(&str, u64)]>) -> PythonProcessInfo {
    PythonProcessInfo {
        python_binary: binary(main),
        libpython_binary: lib.map(binary),
        maps: vec![],
        python_filename: filename.to_owned(),
    }
}

fn version(major: u64, minor: u64) -> Version {
    Version { major, minor, patch: 0, release_flags: String::new() }
}

fn spy(install: &str, tag: &str, v: Version) -> PythonSpy {
    PythonSpy {
        pid: 1,
        version: v,
        interpreter_address: 0,
        threadstate_address: 0,
        python_filename: String::new(),
        python_install_path: install.to_owned(),
        version_string: tag.to_owned(),
    }
}

fn frame(filename: &str, function: &str, line: u64) -> StackFrame {
    StackFrame { filename: filename.to_owned(), short_filename: None, function: function.to_owned(), line }
}

#[test]
fn shorten_filename_strips_install_lib_version_and_site_packages() {
    let s = spy("/opt/py", "runtime3.7", version(3, 7));
    assert_eq!(s.shorten_filename("/opt/py/lib/runtime3.7/site-packages/requests/api.py"), "requests/api.py");
}

#[test]
fn shorten_filename_strips_python_library_paths() {
    let s = spy("/usr", "python3.6", version(3, 6));
    assert_eq!(s.shorten_filename("/usr/lib/python3.6/threading.py"), "threading.py");
    assert_eq!(s.shorten_filename("/usr/lib/python3.6/site-packages/x/y.py"), "x/y.py");
    assert_eq!(s.shorten_filename("/usr/share/foo.py"), "share/foo.py");
    assert_eq!(s.shorten_filename("/home/me/app.py"), "/home/me/app.py");
    assert_eq!(s.shorten_filename("/usrlocal/app.py"), "/usrlocal/app.py");
    assert_eq!(s.shorten_filename("/usr"), "/usr");
    assert_eq!(s.shorten_filename(""), "");
}

#[test]
fn shortened_filename_is_a_suffix() {
    let s = spy("/opt/py", "python3.7", version(3, 7));
    for f in ["/opt/py/lib/python3.7/a.py", "/opt/py/b.py", "c.py", "/opt/py/lib/d/é.py"] {
        assert!(f.ends_with(s.shorten_filename(f)));
    }
}

#[test]
fn new_session_derives_install_path_and_version_tag() {
    let i = info("/usr/local/bin/python3.6", &[("_PyThreadState_Current", 0x5000)], None);
    let s = PythonSpy::new(42, &i, version(3, 6), 0x7000).unwrap();
    assert_eq!(s.pid, 42);
    assert_eq!(s.python_install_path, "/usr/local");
    assert_eq!(s.version_string, "python3.6");
    assert_eq!(s.threadstate_address, 0x5000);
    assert_eq!(s.interpreter_address, 0x7000);
    assert_eq!(s.python_filename, "/usr/local/bin/python3.6");
}

#[test]
fn new_session_keeps_directory_without_bin() {
    let i = info("/opt/python/python", &[], Some(&[("_PyThreadState_Current", 0x9000)]));
    let s = PythonSpy::new(1, &i, version(2, 7), 0).unwrap();
    assert_eq!(s.python_install_path, "/opt/python");
    assert_eq!(s.version_string, "python2.7");
    assert_eq!(s.threadstate_address, 0x9000);
    let i = info("/bin/python", &[], None);
    let s = PythonSpy::new(1, &i, version(3, 8), 0).unwrap();
    assert_eq!(s.python_install_path, "/");
    assert_eq!(s.version_string, "python3.8");
    assert_eq!(s.threadstate_address, 0);
}

#[test]
fn get_symbol_prefers_main_binary() {
    let i = info("/x/bin/python", &[("a", 1), ("b", 2)], Some(&[("b", 20), ("c", 30)]));
    assert_eq!(i.get_symbol("a"), Some(1));
    assert_eq!(i.get_symbol("b"), Some(2));
    assert_eq!(i.get_symbol("c"), Some(30));
    assert_eq!(i.get_symbol("d"), None);
    let j = info("/x/bin/python", &[("a", 1)], None);
    assert_eq!(j.get_symbol("c"), None);
}

#[test]
fn interpreter_pointer_depends_on_layout() {
    let i = info("/x/bin/python", &[("_PyRuntime", 0x1000), ("interp_head", 0x2000)], None);
    assert_eq!(interpreter_pointer_address(&i, &version(3, 7)), Some(0x1018));
    assert_eq!(interpreter_pointer_address(&i, &version(3, 8)), Some(0x1018));
    assert_eq!(interpreter_pointer_address(&i, &version(3, 6)), Some(0x2000));
    assert_eq!(interpreter_pointer_address(&i, &version(2, 7)), Some(0x2000));
    let j = info("/x/bin/python", &[("interp_head", 0x2000)], None);
    assert_eq!(interpreter_pointer_address(&j, &version(3, 7)), None);
    let k = info("/x/bin/python", &[("_PyRuntime", u64::MAX - 3)], None);
    assert_eq!(interpreter_pointer_address(&k, &version(3, 7)), None);
}

#[test]
fn finds_python_and_libpython_regions() {
    let maps = vec![
        region(0, 10, true, None),
        region(10, 20, false, Some("/usr/bin/python3.6")),
        region(20, 30, true, Some("/usr/lib/libc.so")),
        region(30, 40, true, Some("/usr/bin/python3.6")),
        region(40, 50, true, Some("/usr/lib/libpython3.6m.so.1.0")),
    ];
    assert_eq!(find_python_binary(&maps), Some(3));
    assert_eq!(find_libpython(&maps), Some(4));
    assert_eq!(find_python_binary(&maps[..3]), None);
    assert_eq!(find_libpython(&maps[..4]), None);
}

#[test]
fn region_membership_is_half_open() {
    let maps = vec![region(0x1000, 0x2000, false, None), region(0x3000, 0x3008, true, None)];
    assert!(maps_contain_addr(0x1000, &maps));
    assert!(maps_contain_addr(0x1fff, &maps));
    assert!(!maps_contain_addr(0x2000, &maps));
    assert!(maps_contain_addr(0x3007, &maps));
    assert!(!maps_contain_addr(0, &maps));
    assert!(!maps_contain_addr(0x1000, &[]));
}

#[test]
fn candidates_are_mapped_little_endian_words() {
    let maps = vec![region(0x1000, 0x2000, false, None)];
    let mut bss = Vec::new();
    bss.extend_from_slice(&0x1234u64.to_le_bytes());
    bss.extend_from_slice(&0x0fffu64.to_le_bytes());
    bss.extend_from_slice(&0x1ff8u64.to_le_bytes());
    bss.extend_from_slice(&0x2000u64.to_le_bytes());
    bss.extend_from_slice(&[0x00, 0x10, 0, 0]);
    assert_eq!(interpreter_candidates(&bss, &maps), vec![0x1234, 0x1ff8]);
    assert_eq!(interpreter_candidates(&[], &maps), Vec::<u64>::new());
}

#[test]
fn candidate_needs_back_reference_and_walk() {
    let maps = vec![region(0x1000, 0x2000, false, None)];
    assert!(check_interpreter_candidate(0x1100, 0x1200, 0x1100, true, &maps));
    assert!(!check_interpreter_candidate(0x1100, 0x1200, 0x1108, true, &maps));
    assert!(!check_interpreter_candidate(0x1100, 0x1200, 0x1100, false, &maps));
    assert!(!check_interpreter_candidate(0x1100, 0x3000, 0x1100, true, &maps));
    assert!(!check_interpreter_candidate(0x3000, 0x1200, 0x3000, true, &maps));
}

#[test]
fn retries_stop_at_the_limit() {
    assert!(should_retry(0, 3));
    assert!(should_retry(2, 3));
    assert!(!should_retry(3, 3));
    assert!(!should_retry(1, 0));
}

#[test]
fn macho_rebase_moves_symbols_and_bss() {
    let mut b = BinaryInfo {
        bss_addr: 0x10_5000,
        bss_size: 0x40,
        symbols: vec![
            Symbol { name: "_mh_execute_header".to_owned(), address: 0x10_1000 },
            Symbol { name: "_PyRuntime".to_owned(), address: 0x10_3000 },
        ],
    };
    // header 0x101000, region start 0x100000: everything moves down by 0x1000
    assert!(b.rebase_macho(0x10_0000));
    assert_eq!(b.symbols[0].address, 0x10_0000);
    assert_eq!(b.symbols[1].address, 0x10_2000);
    assert_eq!(b.symbols[1].name, "_PyRuntime");
    assert_eq!(b.bss_addr, 0x10_4000);
    assert_eq!(b.bss_size, 0x40);
    let mut c = BinaryInfo { bss_addr: 0, bss_size: 0, symbols: vec![Symbol { name: "x".to_owned(), address: 5 }] };
    assert!(!c.rebase_macho(0));
    assert_eq!(c.symbols[0].address, 5);
}

#[test]
fn stack_traces_mark_one_gil_holder_and_shorten_names() {
    let s = spy("/opt/py", "python3.6", version(3, 6));
    let traces = vec![
        StackTrace { thread_id: 7, owns_gil: false, frames: vec![frame("/opt/py/lib/python3.6/threading.py", "wait", 295)] },
        StackTrace {
            thread_id: 9,
            owns_gil: false,
            frames: vec![
                frame("/home/u/inner.py", "inner", 3),
                frame("/opt/py/lib/python3.6/site-packages/m/mid.py", "middle", 12),
                frame("/home/u/main.py", "<module>", 40),
            ],
        },
    ];
    let out = s.get_stack_traces(&traces, Some(9)).unwrap();
    assert_eq!(out.len(), 2);
    assert_eq!(out.iter().filter(|t| t.owns_gil).count(), 1);
    assert!(!out[0].owns_gil);
    assert!(out[1].owns_gil);
    assert_eq!(out[0].frames[0].short_filename.as_deref(), Some("threading.py"));
    let names: Vec<&str> = out[1].frames.iter().map(|f| f.function.as_str()).collect();
    assert_eq!(names, vec!["inner", "middle", "<module>"]);
    assert_eq!(out[1].frames[1].short_filename.as_deref(), Some("m/mid.py"));
    assert_eq!(out[1].frames[1].line, 12);
    assert_eq!(out[1].frames[2].filename, "/home/u/main.py");
}

#[test]
fn stack_traces_mark_only_first_thread_with_gil_id() {
    let s = spy("/opt/py", "python3.6", version(3, 6));
    let traces = vec![
        StackTrace { thread_id: 0, owns_gil: true, frames: vec![] },
        StackTrace { thread_id: 5, owns_gil: false, frames: vec![] },
        StackTrace { thread_id: 5, owns_gil: false, frames: vec![] },
    ];
    let out = s.get_stack_traces(&traces, Some(5)).unwrap();
    assert_eq!(out.iter().map(|t| t.owns_gil).collect::<Vec<_>>(), vec![false, true, false]);
    let out = s.get_stack_traces(&traces, None).unwrap();
    assert!(out.iter().all(|t| !t.owns_gil));
}

#[test]
fn stack_traces_need_a_supported_version() {
    let s = spy("/opt/py", "python3.9", version(3, 9));
    assert!(matches!(s.get_stack_traces(&[], None), Err(SpyError::UnsupportedVersion)));
}

#[test]
fn new_session_rejects_unsupported_versions() {
    let i = info("/usr/bin/python3.9", &[("interp_head", 0x2000)], None);
    assert!(matches!(PythonSpy::new(1, &i, version(3, 9), 0x2000), Err(SpyError::UnsupportedVersion)));
    assert!(matches!(PythonSpy::new(1, &i, version(2, 2), 0x2000), Err(SpyError::UnsupportedVersion)));
    assert!(PythonSpy::new(1, &i, version(3, 3), 0x2000).is_ok());
}

#[test]
fn finds_windows_python_and_libpython_regions() {
    let maps = vec![
        region(0, 10, false, Some("C:\\Python37\\python.exe")),
        region(10, 20, true, Some("C:\\Windows\\kernel32.dll")),
        region(20, 30, true, Some("C:\\Python37\\python37.dll.bak")),
        region(30, 40, true, Some("C:\\Python37\\python.exe")),
        region(40, 50, true, Some("C:\\Python37\\python37.dll")),
    ];
    assert_eq!(find_windows_python_binary(&maps), Some(3));
    assert_eq!(find_windows_libpython(&maps), Some(4));
    assert_eq!(find_windows_python_binary(&maps[..3]), None);
    assert_eq!(find_windows_libpython(&maps[..4]), None);
}

#[test]
fn windows_symbol_address_rebases_onto_the_load_address() {
    assert_eq!(windows_symbol_address(0x7ff0_0000, 0x1_0000_1234, 0x1_0000_0000), Some(0x7ff0_1234));
    assert_eq!(windows_symbol_address(0, 5, 5), Some(0));
    assert_eq!(windows_symbol_address(0, 4, 5), None);
    assert_eq!(windows_symbol_address(u64::MAX, 1, 1), None);
}

use rwc::options::parse_opt;
use rwc::report::Fields;
use rwc::wc::{Emit, Rwc, WcError};

fn args(list: &[&str]) -> Vec<String> {
    list.iter().map(|s| s.to_string()).collect()
}

fn run(list: &[&str]) -> Rwc {
    match Rwc::with_opts(parse_opt(), "rwc".to_string(), &args(list)) {
        Ok(run) => run,
        Err(e) => panic!("refused: {}", e.message),
    }
}

fn none() -> Fields {
    Fields { lines: false, words: false, chars: false, bytes: false, max_line_length: false }
}

fn ok(text: &str) -> Result<Vec<u8>, WcError> {
    Ok(text.as_bytes().to_vec())
}

fn missing() -> Result<Vec<u8>, WcError> {
    Err(WcError::Io("No such file or directory (os error 2)".to_string()))
}

/// Each piece as the channel it goes to and its text.
fn written(out: &[Emit]) -> Vec<(char, String)> {
    let mut v = Vec::new();
    for piece in out {
        v.push(match piece {
            Emit::Usage(s) => ('u', s.clone()),
            Emit::Out(s) => ('o', s.clone()),
            Emit::Diag(s) => ('e', s.clone()),
        });
    }
    v
}

fn out(s: &str) -> (char, String) {
    ('o', s.to_string())
}

fn diag(s: &str) -> (char, String) {
    ('e', s.to_string())
}

#[test]
fn no_flag_selects_nothing() {
    let r = run(&["a.txt"]);
    assert_eq!(r.fields, none());
    assert!(!r.help);
    assert_eq!(r.files, args(&["a.txt"]));
    assert_eq!(r.program, "rwc");
    assert_eq!(r.width, 1);
}

#[test]
fn each_flag_selects_its_count() {
    assert_eq!(run(&["-l"]).fields, Fields { lines: true, ..none() });
    assert_eq!(run(&["--lines"]).fields, Fields { lines: true, ..none() });
    assert_eq!(run(&["-w"]).fields, Fields { words: true, ..none() });
    assert_eq!(run(&["--words"]).fields, Fields { words: true, ..none() });
    assert_eq!(run(&["-m"]).fields, Fields { chars: true, ..none() });
    assert_eq!(run(&["--chars"]).fields, Fields { chars: true, ..none() });
    assert_eq!(run(&["-c"]).fields, Fields { bytes: true, ..none() });
    assert_eq!(run(&["--bytes"]).fields, Fields { bytes: true, ..none() });
    assert_eq!(run(&["-L"]).fields, Fields { max_line_length: true, ..none() });
    assert_eq!(run(&["--max-line-length"]).fields, Fields { max_line_length: true, ..none() });
}

#[test]
fn flags_and_files_mix() {
    let r = run(&["-l", "a.txt", "-w", "b.txt"]);
    assert_eq!(r.fields, Fields { lines: true, words: true, ..none() });
    assert_eq!(r.files, args(&["a.txt", "b.txt"]));
    let r = run(&["-lw", "--", "-c"]);
    assert_eq!(r.fields, Fields { lines: true, words: true, ..none() });
    assert_eq!(r.files, args(&["-c"]));
    let r = run(&["--files0-from=names", "x"]);
    assert_eq!(r.fields, none());
    assert_eq!(r.files, args(&["x"]));
}

#[test]
fn help_is_recognised() {
    assert!(run(&["-h"]).help);
    assert!(run(&["--help", "a.txt"]).help);
    assert!(!run(&["a.txt"]).help);
}

#[test]
fn malformed_command_line_is_refused() {
    let r = Rwc::with_opts(parse_opt(), "rwc".to_string(), &args(&["-x"]));
    match r {
        Ok(_) => panic!("accepted"),
        Err(e) => assert_eq!(e.message, "Unrecognized option: 'x'"),
    }
    let r = Rwc::with_opts(parse_opt(), "rwc".to_string(), &args(&["--files0-from"]));
    match r {
        Ok(_) => panic!("accepted"),
        Err(e) => assert_eq!(e.message, "Argument to option 'files0-from' missing"),
    }
    let r = Rwc::with_opts(parse_opt(), "rwc".to_string(), &args(&["-l", "-l"]));
    match r {
        Ok(_) => panic!("accepted"),
        Err(e) => assert_eq!(e.message, "Option 'lines' given more than once"),
    }
}

#[test]
fn a_table_without_options_takes_files_only() {
    match Rwc::new("rwc".to_string(), &args(&["a.txt", "b.txt"])) {
        Ok(r) => {
            assert_eq!(r.files, args(&["a.txt", "b.txt"]));
            assert_eq!(r.fields, none());
            assert!(!r.help);
            assert_eq!(r.width, 1);
        },
        Err(e) => panic!("refused: {}", e.message),
    }
    assert!(Rwc::new("rwc".to_string(), &args(&["-l"])).is_err());
    assert!(Rwc::new("rwc".to_string(), &args(&["-h"])).is_err());
}

#[test]
fn from_parsed_keeps_what_it_is_given() {
    let fields = Fields { words: true, ..none() };
    let r = Rwc::from_parsed("prog".to_string(), parse_opt(), fields, true, args(&["x", "y"]));
    assert_eq!(r.program, "prog");
    assert_eq!(r.fields, fields);
    assert!(r.help);
    assert_eq!(r.files, args(&["x", "y"]));
    assert_eq!(r.width, 1);
}

#[test]
fn set_width_counts_the_digits_of_the_sizes() {
    let mut r = run(&["-l", "a", "b"]);
    r.set_width(&vec![600, 400]);
    assert_eq!(r.width, 4);
    assert_eq!(r.files, args(&["a", "b"]));
    assert_eq!(r.fields, Fields { lines: true, ..none() });
    r.set_width(&vec![]);
    assert_eq!(r.width, 1);
}

#[test]
fn usage_message_lists_the_options() {
    let text = run(&["-h"]).usage_message();
    assert!(text.starts_with("Usage: rwc FILE [options]\n\nOptions:\n"));
    assert!(text.contains("-c, --bytes"));
    assert!(text.contains("-L, --max-line-length"));
    assert!(text.contains("--files0-from F"));
    assert!(text.contains("print this help menu"));
    assert_eq!(text, parse_opt().usage("Usage: rwc FILE [options]"));
}

#[test]
fn help_writes_the_usage_message_and_nothing_else() {
    let r = run(&["--help", "a.txt"]);
    let w = written(&r.exec(&vec![]));
    assert_eq!(w, vec![('u', r.usage_message())]);
}

#[test]
fn diagnostic_line_names_source_and_reason() {
    assert_eq!(Rwc::diagnostic_line("dir", &WcError::NotAFile), "dir: Is a directory");
    assert_eq!(
        Rwc::diagnostic_line("bin", &WcError::InvalidEncoding),
        "bin: stream did not contain valid UTF-8"
    );
    assert_eq!(
        Rwc::diagnostic_line("gone", &WcError::Io("Permission denied (os error 13)".to_string())),
        "gone: Permission denied (os error 13)"
    );
}

#[test]
fn one_source_has_no_total() {
    let r = run(&["a.txt"]);
    let w = written(&r.exec(&vec![ok("hello world\n")]));
    assert_eq!(w, vec![out(" 1 12 12 a.txt")]);
}

#[test]
fn one_failed_source_has_no_total_either() {
    let r = run(&["gone"]);
    let w = written(&r.exec(&vec![missing()]));
    assert_eq!(w, vec![diag("gone: No such file or directory (os error 2)")]);
}

#[test]
fn no_source_reads_standard_input() {
    let r = run(&[]);
    let w = written(&r.exec(&vec![ok("hello world\n")]));
    assert_eq!(w, vec![out(" 1 12 12 ")]);
    let named = Rwc::from_parsed("rwc".to_string(), parse_opt(), none(), false, args(&[""]));
    assert_eq!(written(&named.exec(&vec![ok("hello world\n")])), w);
}

#[test]
fn empty_source_gives_a_line_of_zeros() {
    let r = run(&["-lwmcL", "empty"]);
    let w = written(&r.exec(&vec![ok("")]));
    assert_eq!(w, vec![out(" 0 0 0 0 0 empty")]);
}

#[test]
fn two_sources_end_with_the_total() {
    let mut r = run(&["-lwmcL", "a", "b"]);
    r.set_width(&vec![12, 9]);
    let w = written(&r.exec(&vec![ok("hello world\n"), ok("a\tb\nxyz\n\u{e9}")]));
    assert_eq!(
        w,
        vec![out("  1  2 12 12 11 a"), out("  3  4  9 10 10 b"), out("  4  6 21 22 11 total")]
    );
}

#[test]
fn missing_file_is_reported_and_left_out_of_the_total() {
    let mut r = run(&["here.txt", "gone.txt"]);
    r.set_width(&vec![8]);
    let w = written(&r.exec(&vec![ok("one two\n"), missing()]));
    assert_eq!(
        w,
        vec![
            out(" 1 8 8 here.txt"),
            diag("gone.txt: No such file or directory (os error 2)"),
            out(" 1 8 8 total"),
        ]
    );
    let w = written(&r.exec(&vec![missing(), ok("one two\n")]));
    assert_eq!(
        w,
        vec![
            diag("here.txt: No such file or directory (os error 2)"),
            out(" 1 8 8 gone.txt"),
            out(" 1 8 8 total"),
        ]
    );
}

#[test]
fn lines_and_words_of_a_three_line_file() {
    let mut r = run(&["-l", "-w", "f.txt"]);
    r.set_width(&vec![10]);
    let w = written(&r.exec(&vec![ok("a b\nc d\ne\n")]));
    assert_eq!(w, vec![out("  3  5 f.txt")]);
    let mut r = run(&["-l", "-w", "f.txt", "g.txt"]);
    r.set_width(&vec![10, 4]);
    let w = written(&r.exec(&vec![ok("a b\nc d\ne\n"), ok("x y\n")]));
    assert_eq!(w, vec![out("  3  5 f.txt"), out("  1  2 g.txt"), out("  4  7 total")]);
}

#[test]
fn directory_and_bad_encoding_are_diagnosed() {
    let r = run(&["dir", "bin", "ok"]);
    let w = written(&r.exec(&vec![Err(WcError::NotAFile), Ok(vec![0x61, 0xff]), ok("x\n")]));
    assert_eq!(
        w,
        vec![
            diag("dir: Is a directory"),
            diag("bin: stream did not contain valid UTF-8"),
            out(" 1 2 2 ok"),
            out(" 1 2 2 total"),
        ]
    );
}

#[test]
fn all_sources_failed_still_gives_a_total_of_zeros() {
    let r = run(&["a", "b"]);
    let w = written(&r.exec(&vec![missing(), Err(WcError::NotAFile)]));
    assert_eq!(
        w,
        vec![
            diag("a: No such file or directory (os error 2)"),
            diag("b: Is a directory"),
            out(" 0 0 0 total"),
        ]
    );
}

#[test]
fn sources_are_the_files_or_standard_input() {
    assert_eq!(run(&["a", "b"]).sources(), args(&["a", "b"]));
    assert_eq!(run(&["-l", "only"]).sources(), args(&["only"]));
    assert_eq!(run(&[]).sources(), args(&[""]));
    assert_eq!(run(&["-w"]).sources(), args(&[""]));
}

#[test]
fn can_count_accepts_what_fits() {
    assert!(Rwc::can_count(&vec![]));
    assert!(Rwc::can_count(&vec![ok("abc"), missing(), ok("")]));
    assert!(Rwc::can_count(&vec![Err(WcError::NotAFile)]));
}

#[test]
fn checked_exec_wants_one_input_for_each_source() {
    let r = run(&["a", "b"]);
    assert!(r.checked_exec(&vec![ok("x\n")]).is_none());
    assert!(r.checked_exec(&vec![]).is_none());
    assert!(r.checked_exec(&vec![ok("x\n"), ok("y\n"), ok("z\n")]).is_none());
    match r.checked_exec(&vec![ok("x\n"), missing()]) {
        Some(pieces) => assert_eq!(
            written(&pieces),
            vec![
                out(" 1 2 2 a"),
                diag("b: No such file or directory (os error 2)"),
                out(" 1 2 2 total"),
            ]
        ),
        None => panic!("nothing written"),
    }
    let stdin = run(&["-c"]);
    assert!(stdin.checked_exec(&vec![]).is_none());
    match stdin.checked_exec(&vec![ok("12345")]) {
        Some(pieces) => assert_eq!(written(&pieces), vec![out(" 5 ")]),
        None => panic!("nothing written"),
    }
}

#[test]
fn checked_exec_writes_the_usage_message_whatever_the_inputs() {
    let r = run(&["-h"]);
    match r.checked_exec(&vec![]) {
        Some(pieces) => assert_eq!(written(&pieces), vec![('u', r.usage_message())]),
        None => panic!("nothing written"),
    }
    assert!(r.checked_exec(&vec![ok("x"), ok("y")]).is_some());
}

#[test]
fn only_files0_from_takes_an_argument() {
    let r = run(&["--files0-from", "names", "x"]);
    assert_eq!(r.files, args(&["x"]));
    assert_eq!(r.fields, none());
    for flag in ["-c", "-m", "-l", "-L", "-w", "--bytes", "--chars", "--lines", "--words"] {
        let r = run(&[flag, "file"]);
        assert_eq!(r.files, args(&["file"]), "after {}", flag);
    }
    let r = run(&["-h", "file"]);
    assert_eq!(r.files, args(&["file"]));
    assert!(Rwc::with_opts(parse_opt(), "rwc".to_string(), &args(&["--bytes=3"])).is_err());
    let text = run(&[]).usage_message();
    assert!(text.contains("--files0-from F"));
    assert!(text.contains("-c, --bytes         "));
}

use minishell::builtin::{
    builtin_of, builtin_query, is_builtin_command, run_builtin, Builtin, CommandResult,
    EnvAnswer, EnvQuery,
};
use minishell::engine::{
    builtin_output, command_not_found, ensure_redirect_files, execute_mixed_pipeline,
    external_preflight, pipeline_redirect_files, run_stage_builtin, stage_query,
    execute_pipeline, is_executable_mode, not_found_output, pipeline_wiring, plan_line,
    stage_wiring, write_output, LinePlan, MixedPipeline, Sink, StageOutcome,
};
use minishell::plan::{split_pipeline, OutputStream, RedirectMode, RedirectSpec};
use minishell::token::parse_line;

fn words(v: &[&str]) -> Vec<String> {
    v.iter().map(|s| s.to_string()).collect()
}

fn run(cmd: &str, args: &[&str], answer: EnvAnswer) -> CommandResult {
    run_builtin(cmd, &words(args), true, true, &answer).unwrap()
}

fn single(line: &str) -> minishell::plan::PipelineStage {
    match plan_line(line) {
        LinePlan::Single(s) => s,
        _ => panic!("not a single command: {line}"),
    }
}

#[test]
fn builtins_are_recognised() {
    for name in ["echo", "exit", "type", "pwd", "cd"] {
        assert!(is_builtin_command(name), "{name}");
    }
    for name in ["ls", "", "ech", "echoo", "Echo", "cd "] {
        assert!(!is_builtin_command(name), "{name}");
    }
    assert_eq!(builtin_of("pwd"), Some(Builtin::Pwd));
    assert_eq!(builtin_of("wc"), None);
}

#[test]
fn echo_joins_arguments() {
    let r = run("echo", &["hello", "world"], EnvAnswer::Nothing);
    assert_eq!(r.stdout, b"hello world\n");
    assert!(r.stderr.is_empty());
    assert!(!r.should_exit);
    let r = run("echo", &[], EnvAnswer::Nothing);
    assert_eq!(r.stdout, b"\n");
}

#[test]
fn echo_keeps_non_ascii_text() {
    let r = run("echo", &["h\u{e9}", "\u{65e5}"], EnvAnswer::Nothing);
    assert_eq!(r.stdout, "h\u{e9} \u{65e5}\n".as_bytes());
}

#[test]
fn exit_stops_only_where_allowed() {
    let r = run("exit", &[], EnvAnswer::Nothing);
    assert!(r.should_exit);
    assert!(r.stdout.is_empty());
    let r = run_builtin("exit", &words(&["0"]), false, false, &EnvAnswer::Nothing).unwrap();
    assert!(!r.should_exit);
}

#[test]
fn unknown_command_is_no_builtin() {
    assert!(run_builtin("ls", &words(&["-l"]), true, true, &EnvAnswer::Nothing).is_none());
    assert!(builtin_query("ls", &words(&[]), true).is_none());
}

#[test]
fn pwd_prints_the_directory() {
    let q = builtin_query("pwd", &words(&[]), true).unwrap();
    assert!(matches!(q, EnvQuery::CurrentDir));
    let r = run("pwd", &[], EnvAnswer::CurrentDir(Some("/tmp/x".to_string())));
    assert_eq!(r.stdout, b"/tmp/x\n");
    let r = run("pwd", &[], EnvAnswer::CurrentDir(None));
    assert!(r.stdout.is_empty());
}

#[test]
fn cd_asks_for_its_argument() {
    let q = builtin_query("cd", &words(&["/usr"]), true).unwrap();
    match q {
        EnvQuery::ChangeDir(p) => assert_eq!(p, "/usr"),
        _ => panic!(),
    }
    let q = builtin_query("cd", &words(&["~/x"]), true).unwrap();
    match q {
        EnvQuery::ChangeDir(p) => assert_eq!(p, "~/x"),
        _ => panic!(),
    }
}

#[test]
fn cd_tilde_goes_home() {
    let q = builtin_query("cd", &words(&["~"]), true).unwrap();
    assert!(matches!(q, EnvQuery::ChangeDirHome));
    let r = run("cd", &["~"], EnvAnswer::ChangeDir(false));
    assert_eq!(r.stderr, b"cd: ~: No such file or directory\n");
    let r = run("cd", &["~"], EnvAnswer::ChangeDir(true));
    assert!(r.stderr.is_empty());
}

#[test]
fn cd_reports_a_missing_directory() {
    let r = run("cd", &["/nope"], EnvAnswer::ChangeDir(false));
    assert_eq!(r.stderr, b"cd: /nope: No such file or directory\n");
    assert!(r.stdout.is_empty());
    let r = run("cd", &["/tmp"], EnvAnswer::ChangeDir(true));
    assert!(r.stderr.is_empty() && r.stdout.is_empty());
}

#[test]
fn cd_in_a_pipeline_does_nothing() {
    let q = builtin_query("cd", &words(&["/tmp"]), false).unwrap();
    assert!(matches!(q, EnvQuery::Nothing));
    let r = run_builtin("cd", &words(&["/nope"]), false, false, &EnvAnswer::Nothing).unwrap();
    assert!(r.stderr.is_empty());
}

#[test]
fn cd_then_pwd_prints_the_new_directory() {
    let q = builtin_query("cd", &words(&["/var"]), true).unwrap();
    let target = match q {
        EnvQuery::ChangeDir(p) => p,
        _ => panic!(),
    };
    let r = run("cd", &["/var"], EnvAnswer::ChangeDir(true));
    assert!(r.stderr.is_empty());
    let r = run("pwd", &[], EnvAnswer::CurrentDir(Some(target)));
    assert_eq!(r.stdout, b"/var\n");
}

#[test]
fn type_describes_names() {
    let r = run("type", &["echo"], EnvAnswer::Nothing);
    assert_eq!(r.stdout, b"echo is a shell builtin\n");
    let q = builtin_query("type", &words(&["ls"]), true).unwrap();
    match q {
        EnvQuery::FindInPath(n) => assert_eq!(n, "ls"),
        _ => panic!(),
    }
    let r = run("type", &["ls"], EnvAnswer::FindInPath(Some("/bin/ls".to_string())));
    assert_eq!(r.stdout, b"ls is /bin/ls\n");
    let r = run("type", &["zz"], EnvAnswer::FindInPath(None));
    assert_eq!(r.stdout, b"zz: not found\n");
    assert!(r.stderr.is_empty());
    let r = run("type", &[], EnvAnswer::Nothing);
    assert!(r.stdout.is_empty());
}

#[test]
fn echo_line_is_one_builtin() {
    let s = single("echo hello world\n");
    assert_eq!(s.cmd, "echo");
    let r = run_builtin(&s.cmd, &s.args, true, true, &EnvAnswer::Nothing).unwrap();
    let out = builtin_output(r, &s.redirects);
    assert_eq!(out.len(), 1);
    assert_eq!(out[0].stream, OutputStream::Stdout);
    assert!(out[0].file.is_none());
    assert_eq!(out[0].bytes, b"hello world\n");
}

#[test]
fn single_quoted_echo_output() {
    let s = single("echo 'a  b\"c'\n");
    let r = run_builtin(&s.cmd, &s.args, true, true, &EnvAnswer::Nothing).unwrap();
    assert_eq!(r.stdout, b"a  b\"c\n");
}

#[test]
fn double_quoted_escape_output() {
    let s = single("echo \"a\\\"b\"\n");
    let r = run_builtin(&s.cmd, &s.args, true, true, &EnvAnswer::Nothing).unwrap();
    assert_eq!(r.stdout, b"a\"b\n");
}

#[test]
fn echo_redirected_to_file() {
    let s = single("echo hi > out.txt\n");
    let files = ensure_redirect_files(&s.redirects);
    assert_eq!(files.len(), 1);
    assert_eq!((files[0].path.as_str(), files[0].mode), ("out.txt", RedirectMode::Truncate));
    let r = run_builtin(&s.cmd, &s.args, true, true, &EnvAnswer::Nothing).unwrap();
    let out = builtin_output(r, &s.redirects);
    assert_eq!(out.len(), 1);
    let f = out[0].file.as_ref().unwrap();
    assert_eq!((f.path.as_str(), f.mode), ("out.txt", RedirectMode::Truncate));
    assert_eq!(out[0].bytes, b"hi\n");
}

#[test]
fn append_redirect_opens_for_appending() {
    let s = single("echo more >> log 2> err");
    let files = ensure_redirect_files(&s.redirects);
    assert_eq!(files.len(), 2);
    assert_eq!((files[0].path.as_str(), files[0].mode), ("log", RedirectMode::Append));
    assert_eq!((files[1].path.as_str(), files[1].mode), ("err", RedirectMode::Truncate));
    assert!(ensure_redirect_files(&RedirectSpec::new()).is_empty());
}

#[test]
fn builtin_errors_follow_stderr_redirect() {
    let s = single("cd /nope 2> e");
    let r = run_builtin(&s.cmd, &s.args, true, true, &EnvAnswer::ChangeDir(false)).unwrap();
    let out = builtin_output(r, &s.redirects);
    assert_eq!(out.len(), 1);
    assert_eq!(out[0].stream, OutputStream::Stderr);
    assert_eq!(out[0].file.as_ref().unwrap().path, "e");
}

#[test]
fn unknown_command_message() {
    let s = single("nonesuch\n");
    assert!(!is_builtin_command(&s.cmd));
    let e = not_found_output(&s);
    assert_eq!(e.stream, OutputStream::Stdout);
    assert!(e.file.is_none());
    assert_eq!(e.bytes, b"nonesuch: command not found\n");
    assert_eq!(command_not_found(&"x".to_string()), "x: command not found\n");
}

#[test]
fn not_found_message_follows_stdout_redirect() {
    let s = single("nonesuch > f 2> g");
    let e = not_found_output(&s);
    assert_eq!(e.file.as_ref().unwrap().path, "f");
}

#[test]
fn write_output_picks_destination() {
    let s = single("x 2>> e");
    let out = write_output(&"hey".to_string(), OutputStream::Stdout, &s.redirects);
    assert!(out.file.is_none());
    assert_eq!(out.bytes, b"hey");
    let err = write_output(&"oops".to_string(), OutputStream::Stderr, &s.redirects);
    assert_eq!(err.file.as_ref().unwrap().mode, RedirectMode::Append);
}

#[test]
fn blank_line_plans_nothing() {
    assert!(matches!(plan_line(""), LinePlan::Empty));
    assert!(matches!(plan_line("   "), LinePlan::Empty));
    assert!(matches!(plan_line("> f"), LinePlan::Empty));
    assert!(matches!(plan_line(" | "), LinePlan::Empty));
}

#[test]
fn all_external_pipeline_uses_pipes() {
    match plan_line("ls -l | grep x | wc -l > n") {
        LinePlan::External(stages) => {
            assert_eq!(stages.len(), 3);
            let w = pipeline_wiring(&stages);
            assert_eq!(w.len(), 3);
            assert!(!w[0].stdin_from_previous);
            assert!(w[1].stdin_from_previous && w[2].stdin_from_previous);
            assert!(matches!(w[0].stdout, Sink::Pipe));
            assert!(matches!(w[1].stdout, Sink::Pipe));
            match &w[2].stdout {
                Sink::File(f) => assert_eq!(f.path, "n"),
                _ => panic!(),
            }
            assert!(matches!(w[2].stderr, Sink::Inherit));
        }
        _ => panic!(),
    }
}

#[test]
fn lone_stage_wiring_inherits() {
    let w = stage_wiring(0, 1, &RedirectSpec::new());
    assert!(!w.stdin_from_previous);
    assert!(matches!(w.stdout, Sink::Inherit));
    assert!(matches!(w.stderr, Sink::Inherit));
}

#[test]
fn pipeline_with_builtin_is_mixed() {
    assert!(matches!(plan_line("echo foo | wc -c"), LinePlan::Mixed(_)));
    assert!(matches!(plan_line("cat /etc/hostname | echo replaced"), LinePlan::Mixed(_)));
    assert!(matches!(
        execute_pipeline(split_pipeline(parse_line("exit |"))),
        LinePlan::Mixed(_)
    ));
}

fn ran(stdout: &[u8], stderr: &[u8]) -> StageOutcome {
    StageOutcome::Ran(CommandResult {
        stdout: stdout.to_vec(),
        stderr: stderr.to_vec(),
        should_exit: false,
    })
}

#[test]
fn echo_feeds_wc_through_buffer() {
    let stages = match plan_line("echo foo | wc -c\n") {
        LinePlan::Mixed(s) => s,
        _ => panic!(),
    };
    let mut p = MixedPipeline::new(stages);
    assert_eq!(p.next_stage(), Some(0));
    let st = p.stage(0);
    let r = run_builtin(&st.cmd, &st.args, false, false, &EnvAnswer::Nothing).unwrap();
    let out = execute_mixed_pipeline(&mut p, StageOutcome::Ran(r));
    assert!(out.is_empty());
    assert_eq!(p.next_stage(), Some(1));
    assert_eq!(p.input().as_slice(), b"foo\n");
    assert_eq!(p.input().len(), 4);
    let out = execute_mixed_pipeline(&mut p, ran(b"4\n", b""));
    assert_eq!(out.len(), 1);
    assert_eq!(out[0].stream, OutputStream::Stdout);
    assert!(out[0].file.is_none());
    assert_eq!(out[0].bytes, b"4\n");
    assert_eq!(p.next_stage(), None);
}

#[test]
fn builtin_after_external_ignores_input() {
    let stages = match plan_line("cat /etc/hostname | echo replaced\n") {
        LinePlan::Mixed(s) => s,
        _ => panic!(),
    };
    let mut p = MixedPipeline::new(stages);
    assert_eq!(p.next_stage(), Some(0));
    assert!(p.input().is_empty());
    let out = execute_mixed_pipeline(&mut p, ran(b"myhost\n", b""));
    assert!(out.is_empty());
    assert_eq!(p.next_stage(), Some(1));
    let st = p.stage(1);
    let r = run_builtin(&st.cmd, &st.args, false, false, &EnvAnswer::Nothing).unwrap();
    let out = execute_mixed_pipeline(&mut p, StageOutcome::Ran(r));
    assert_eq!(out.len(), 1);
    assert_eq!(out[0].bytes, b"replaced\n");
    assert_eq!(p.next_stage(), None);
}

#[test]
fn mixed_pipeline_runs_each_stage_once() {
    let stages = match plan_line("echo a | cat | cat | wc") {
        LinePlan::Mixed(s) => s,
        _ => panic!(),
    };
    let mut p = MixedPipeline::new(stages);
    let mut count = 0;
    while let Some(i) = p.next_stage() {
        assert_eq!(i, count);
        execute_mixed_pipeline(&mut p, ran(b"x", b""));
        count += 1;
    }
    assert_eq!(count, 4);
}

#[test]
fn mixed_pipeline_stops_at_missing_program() {
    let stages = match plan_line("echo a | nonesuch > f | wc") {
        LinePlan::Mixed(s) => s,
        _ => panic!(),
    };
    let mut p = MixedPipeline::new(stages);
    execute_mixed_pipeline(&mut p, ran(b"a\n", b""));
    let out = execute_mixed_pipeline(&mut p, StageOutcome::NotFound);
    assert_eq!(out.len(), 1);
    assert_eq!(out[0].bytes, b"nonesuch: command not found\n");
    assert_eq!(out[0].file.as_ref().unwrap().path, "f");
    assert_eq!(p.next_stage(), None);
}

#[test]
fn mixed_stage_errors_go_out_at_once() {
    let stages = match plan_line("cat x 2> e | echo done") {
        LinePlan::Mixed(s) => s,
        _ => panic!(),
    };
    let mut p = MixedPipeline::new(stages);
    let out = execute_mixed_pipeline(&mut p, ran(b"", b"cat: x: missing\n"));
    assert_eq!(out.len(), 1);
    assert_eq!(out[0].stream, OutputStream::Stderr);
    assert_eq!(out[0].file.as_ref().unwrap().path, "e");
    assert_eq!(out[0].bytes, b"cat: x: missing\n");
}

#[test]
fn empty_output_of_last_stage_is_still_written() {
    let stages = match plan_line("echo a | true > f") {
        LinePlan::Mixed(s) => s,
        _ => panic!(),
    };
    let mut p = MixedPipeline::new(stages);
    execute_mixed_pipeline(&mut p, ran(b"a\n", b""));
    let out = execute_mixed_pipeline(&mut p, ran(b"", b""));
    assert_eq!(out.len(), 1);
    assert!(out[0].bytes.is_empty());
    assert_eq!(out[0].file.as_ref().unwrap().path, "f");
}

#[test]
fn executable_needs_file_and_exec_bit() {
    assert!(is_executable_mode(true, 0o755));
    assert!(is_executable_mode(true, 0o001));
    assert!(is_executable_mode(true, 0o010));
    assert!(!is_executable_mode(true, 0o644));
    assert!(!is_executable_mode(false, 0o755));
}

fn external(line: &str) -> Vec<minishell::plan::PipelineStage> {
    match plan_line(line) {
        LinePlan::External(s) => s,
        _ => panic!("not an external pipeline: {line}"),
    }
}

#[test]
fn every_redirect_file_of_a_pipeline_is_listed() {
    let stages = external("ls > a 2> b | wc >> c | sort 2>> d");
    let files: Vec<(String, RedirectMode)> =
        pipeline_redirect_files(&stages).into_iter().map(|f| (f.path, f.mode)).collect();
    assert_eq!(
        files,
        vec![
            ("a".to_string(), RedirectMode::Truncate),
            ("b".to_string(), RedirectMode::Truncate),
            ("c".to_string(), RedirectMode::Append),
            ("d".to_string(), RedirectMode::Append),
        ]
    );
}

#[test]
fn files_after_missing_program_are_still_created() {
    let stages = external("nonesuch | wc > out");
    let p = external_preflight(&stages, &vec![false, true]);
    assert_eq!(p.files.len(), 1);
    assert_eq!(p.files[0].path, "out");
    assert_eq!(p.missing.unwrap().bytes, b"nonesuch: command not found\n");
}

#[test]
fn mixed_pipeline_files_are_all_listed() {
    let stages = match plan_line("echo a > x | nonesuch 2> y | wc > z") {
        LinePlan::Mixed(s) => s,
        _ => panic!(),
    };
    let files: Vec<String> = pipeline_redirect_files(&stages).into_iter().map(|f| f.path).collect();
    assert_eq!(files, vec!["x", "y", "z"]);
}

#[test]
fn builtin_alone_may_exit_and_change_dir() {
    let s = single("cd /tmp");
    assert!(matches!(stage_query(&s, false), Some(EnvQuery::ChangeDir(_))));
    let s = single("exit");
    let r = run_stage_builtin(&s, false, &EnvAnswer::Nothing).unwrap();
    assert!(r.should_exit);
    assert!(stage_query(&single("ls"), false).is_none());
}

#[test]
fn builtin_in_pipeline_neither_exits_nor_changes_dir() {
    let stages = match plan_line("cd /tmp | exit | echo x") {
        LinePlan::Mixed(s) => s,
        _ => panic!(),
    };
    let mut p = MixedPipeline::new(stages);
    assert!(matches!(p.builtin_query(), Some(EnvQuery::Nothing)));
    let r = p.run_builtin(&EnvAnswer::Nothing).unwrap();
    assert!(r.stderr.is_empty());
    execute_mixed_pipeline(&mut p, StageOutcome::Ran(r));
    let r = p.run_builtin(&EnvAnswer::Nothing).unwrap();
    assert!(!r.should_exit);
    execute_mixed_pipeline(&mut p, StageOutcome::Ran(r));
    let r = p.run_builtin(&EnvAnswer::Nothing).unwrap();
    let out = execute_mixed_pipeline(&mut p, StageOutcome::Ran(r));
    assert_eq!(out[0].bytes, b"x\n");
}

#[test]
fn program_stage_of_mixed_pipeline_has_no_builtin() {
    let stages = match plan_line("cat f | echo x") {
        LinePlan::Mixed(s) => s,
        _ => panic!(),
    };
    let p = MixedPipeline::new(stages);
    assert!(p.builtin_query().is_none());
    assert!(p.run_builtin(&EnvAnswer::Nothing).is_none());
}

#[test]
fn preflight_creates_files_of_found_stages() {
    let stages = external("ls > a 2> b | wc >> c");
    let p = external_preflight(&stages, &vec![true, true]);
    assert!(p.missing.is_none());
    let files: Vec<(&str, RedirectMode)> = p.files.iter().map(|f| (f.path.as_str(), f.mode)).collect();
    assert_eq!(
        files,
        vec![("a", RedirectMode::Truncate), ("b", RedirectMode::Truncate), ("c", RedirectMode::Append)]
    );
}

#[test]
fn preflight_stops_at_first_missing_program() {
    let stages = external("ls > a | nonesuch > m | wc > c");
    let p = external_preflight(&stages, &vec![true, false, false]);
    let files: Vec<&str> = p.files.iter().map(|f| f.path.as_str()).collect();
    assert_eq!(files, vec!["a", "m", "c"]);
    let e = p.missing.unwrap();
    assert_eq!(e.bytes, b"nonesuch: command not found\n");
    assert_eq!(e.file.as_ref().unwrap().path, "m");
}

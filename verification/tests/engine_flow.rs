use kclvm_runner::assembler::CodegenOutcome;
use kclvm_runner::assembler::KclvmAssembler;
use kclvm_runner::assembler::KclvmLibAssembler;
use kclvm_runner::diag::Session;
use kclvm_runner::diag::Severity;
use kclvm_runner::engine::entry_paths_check;
use kclvm_runner::engine::exec_program;
use kclvm_runner::engine::execute;
use kclvm_runner::engine::program_wf_check;
use kclvm_runner::engine::LinkOutcome;
use kclvm_runner::engine::ParseOutcome;
use kclvm_runner::engine::ResolveOutcome;
use kclvm_runner::engine::RunEvent;
use kclvm_runner::fsmodel::DirState;
use kclvm_runner::program::construct_program;
use kclvm_runner::program::Module;
use kclvm_runner::program::Scope;

fn main_module() -> Module {
    Module { filename: "main.k".to_string(), pkg: "__main__".to_string() }
}

fn empty_scope() -> Scope {
    Scope { import_names: vec![] }
}

fn entry_assembler(entry_file: &str) -> KclvmAssembler {
    let prog = construct_program(main_module());
    assert!(program_wf_check(&prog));
    assert!(entry_paths_check(&prog, entry_file));
    KclvmAssembler::new(prog, empty_scope(), entry_file.to_string(), KclvmLibAssembler::LLVM)
}

fn run_once(fs: &mut DirState, entry_file: &str, run: RunEvent) -> Result<String, String> {
    let mut sess = Session::new();
    let assembler = entry_assembler(entry_file);
    let outcomes = vec![CodegenOutcome::Done];
    execute(&mut sess, fs, &assembler, &outcomes, &LinkOutcome::Linked, &run)
}

#[test]
fn test_exec() {
    let expected = "app:\n  key: value\n";
    let mut fs = DirState::new();

    let first = run_once(&mut fs, "tmp/run1", RunEvent::Finished(expected.to_string()));
    assert_eq!(first.unwrap(), expected);

    let second = run_once(&mut fs, "tmp/run1", RunEvent::Finished(expected.to_string()));
    assert_eq!(second.unwrap(), expected);
}

#[test]
fn test_kclvm_runner_execute() {
    let cases = vec![
        ("a: 1\n", "tmp/case0"),
        ("b:\n- x\n- y\n", "tmp/case1"),
        ("{}\n", "tmp/case2"),
    ];
    for (expected, entry) in cases {
        let mut fs = DirState::new();
        let result = run_once(&mut fs, entry, RunEvent::Finished(expected.to_string()));
        assert_eq!(result.unwrap(), expected);
    }
}

#[test]
fn test_custom_manifests_output() {
    let manifest = "apiVersion: v1\nkind: ConfigMap\n";
    let mut fs = DirState::new();
    let result = run_once(&mut fs, "tmp/manifests", RunEvent::Finished(manifest.to_string()));
    assert_eq!(result.unwrap(), manifest);
}

#[test]
fn test_exec_with_err_result() {
    let mut sess = Session::new();
    let mut fs = DirState::new();
    let assembler = entry_assembler("tmp/err");
    let outcomes = vec![CodegenOutcome::Failed("invalid schema".to_string())];
    let result = execute(
        &mut sess,
        &mut fs,
        &assembler,
        &outcomes,
        &LinkOutcome::Linked,
        &RunEvent::Finished(String::new()),
    );
    let msg = result.unwrap_err();
    assert_eq!(msg, "compile failed in package __main__: invalid schema");
    assert!(sess.has_errors());
    let (diags, success) = sess.emit_and_abort();
    assert!(!success);
    assert_eq!(diags.len(), 1);
    assert!(matches!(diags[0].severity, Severity::Error));
    assert_eq!(diags[0].message, msg);
}

#[test]
fn test_kclvm_runner_execute_timeout() {
    let mut fs = DirState::new();
    let result = run_once(&mut fs, "tmp/slow", RunEvent::DeadlineExceeded);
    assert_eq!(result.unwrap_err(), "Timeout");
}

#[test]
fn test_timeout_cleans_temps() {
    let mut fs = DirState::new();
    fs.write_file("cache_unrelated.o");
    let result = run_once(&mut fs, "tmp/slow", RunEvent::DeadlineExceeded);
    assert!(result.is_err());
    assert!(!fs.exists_file("tmp/slow.o"));
    assert!(!fs.exists_file("tmp/slow.so"));
    assert!(fs.exists_file("cache_unrelated.o"));
}

#[test]
fn test_runtime_fault() {
    let mut fs = DirState::new();
    let result = run_once(&mut fs, "tmp/fault", RunEvent::Fault("segmentation".to_string()));
    assert_eq!(result.unwrap_err(), "run failed: segmentation");
}

#[test]
fn test_link_failure() {
    let mut sess = Session::new();
    let mut fs = DirState::new();
    let assembler = entry_assembler("tmp/link");
    let outcomes = vec![CodegenOutcome::Done];
    let link = LinkOutcome::Failed {
        pkgpath: "__main__".to_string(),
        message: "missing symbol".to_string(),
    };
    let result = execute(
        &mut sess,
        &mut fs,
        &assembler,
        &outcomes,
        &link,
        &RunEvent::Finished(String::new()),
    );
    assert_eq!(result.unwrap_err(), "link failed for package __main__: missing symbol");
    assert!(sess.has_errors());
    assert!(!fs.exists_file("tmp/link.o"));
}

#[test]
fn test_exec_program_success() {
    let mut sess = Session::new();
    let mut fs = DirState::new();
    let prog = construct_program(main_module());
    let outcomes = vec![CodegenOutcome::Done];
    let result = exec_program(
        &mut sess,
        &mut fs,
        "tmp/prog".to_string(),
        ParseOutcome::Parsed(prog),
        ResolveOutcome::Resolved(empty_scope()),
        &outcomes,
        &LinkOutcome::Linked,
        &RunEvent::Finished("key: value\n".to_string()),
    );
    assert_eq!(result.unwrap().output, "key: value\n");
    assert!(!sess.has_errors());
}

#[test]
fn test_exec_program_parse_failure() {
    let mut sess = Session::new();
    let mut fs = DirState::new();
    let outcomes: Vec<CodegenOutcome> = vec![];
    let result = exec_program(
        &mut sess,
        &mut fs,
        "tmp/parse".to_string(),
        ParseOutcome::Failed("unexpected token".to_string()),
        ResolveOutcome::Failed("not reached".to_string()),
        &outcomes,
        &LinkOutcome::Linked,
        &RunEvent::Finished(String::new()),
    );
    assert_eq!(result.unwrap_err(), "parse failed: unexpected token");
    assert!(sess.has_errors());
}

#[test]
fn test_exec_program_resolution_failure() {
    let mut sess = Session::new();
    let mut fs = DirState::new();
    let prog = construct_program(main_module());
    let outcomes = vec![CodegenOutcome::Done];
    let result = exec_program(
        &mut sess,
        &mut fs,
        "tmp/resolve".to_string(),
        ParseOutcome::Parsed(prog),
        ResolveOutcome::Failed("undefined name".to_string()),
        &outcomes,
        &LinkOutcome::Linked,
        &RunEvent::Finished(String::new()),
    );
    assert_eq!(result.unwrap_err(), "resolve failed: undefined name");
    assert!(sess.has_errors());
}

#[test]
fn test_session_lifecycle() {
    let mut sess = Session::new();
    assert!(!sess.has_errors());
    let (diags, success) = sess.emit_and_abort();
    assert!(success);
    assert!(diags.is_empty());

    sess.add_err("first".to_string());
    assert!(sess.has_errors());
    let (diags, success) = sess.emit_and_abort();
    assert!(!success);
    assert_eq!(diags.len(), 1);
    assert_eq!(diags[0].message, "first");
}

#[test]
fn test_report_failure_dedup() {
    let mut sess = Session::new();
    sess.add_err("root cause".to_string());
    sess.report_failure("redundant wrapper".to_string());
    let (diags, success) = sess.emit_and_abort();
    assert!(!success);
    assert_eq!(diags.len(), 1);
    assert_eq!(diags[0].message, "root cause");
}

#[test]
fn test_program_wf_check_rejects_duplicates() {
    let mut prog = construct_program(main_module());
    let extra = prog.pkgs[0].pkgpath.clone();
    prog.pkgs.push(kclvm_runner::program::Pkg { pkgpath: extra, modules: vec![] });
    assert!(!program_wf_check(&prog));
}

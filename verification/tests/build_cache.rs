use kclvm_runner::assembler::construct_pkg_lib_path;
use kclvm_runner::assembler::CodegenOutcome;
use kclvm_runner::assembler::KclvmAssembler;
use kclvm_runner::assembler::KclvmLibAssembler;
use kclvm_runner::engine::LinkOutcome;
use kclvm_runner::fsmodel::DirState;
use kclvm_runner::program::Module;
use kclvm_runner::program::Pkg;
use kclvm_runner::program::Program;
use kclvm_runner::program::Scope;

fn one_pkg_program() -> Program {
    Program {
        root: "__main__".to_string(),
        main: "__main__".to_string(),
        pkgs: vec![Pkg {
            pkgpath: "__main__".to_string(),
            modules: vec![Module { filename: "main.k".to_string(), pkg: "__main__".to_string() }],
        }],
    }
}

fn two_pkg_program() -> Program {
    Program {
        root: "app".to_string(),
        main: "__main__".to_string(),
        pkgs: vec![
            Pkg {
                pkgpath: "__main__".to_string(),
                modules: vec![Module {
                    filename: "main.k".to_string(),
                    pkg: "__main__".to_string(),
                }],
            },
            Pkg {
                pkgpath: "dep".to_string(),
                modules: vec![Module { filename: "dep.k".to_string(), pkg: "dep".to_string() }],
            },
        ],
    }
}

fn empty_scope() -> Scope {
    Scope { import_names: vec![] }
}

#[test]
fn test_gen_libs() {
    let entry_file = format!("{}{}", "tmp/entry", "4gen_libs");
    let assembler = KclvmAssembler::new(
        two_pkg_program(),
        empty_scope(),
        entry_file.clone(),
        KclvmLibAssembler::LLVM,
    );
    let expected = construct_pkg_lib_path(&assembler.prog, &assembler, &entry_file, ".o");

    let mut fs = DirState::new();
    let outcomes = vec![CodegenOutcome::Done, CodegenOutcome::Done];
    let libs = assembler.gen_libs(&mut fs, &outcomes).unwrap();

    assert_eq!(libs.len(), expected.len());
    for (lib, exp) in libs.iter().zip(expected.iter()) {
        assert_eq!(lib, exp);
        assert!(fs.exists_file(lib));
    }

    let tmp_main_lib_path = format!("{}{}", entry_file, ".o");
    assert!(fs.exists_file(&tmp_main_lib_path));
    fs.clean_path(&tmp_main_lib_path);
    assert!(!fs.exists_file(&tmp_main_lib_path));
}

#[test]
fn test_assemble_lib_llvm() {
    let entry_file = format!("{}{}", "tmp/entry", "4assemble_lib");
    let assembler = KclvmAssembler::new(
        one_pkg_program(),
        empty_scope(),
        entry_file.clone(),
        KclvmLibAssembler::LLVM,
    );
    let mut fs = DirState::new();
    let outcomes = vec![CodegenOutcome::Done];
    let objs = assembler.gen_libs(&mut fs, &outcomes).unwrap();

    let lib_target = format!("{}{}", entry_file, ".so");
    let lib_file = KclvmLibAssembler::LLVM
        .assemble(&mut fs, &objs, &lib_target, &LinkOutcome::Linked)
        .unwrap();
    assert!(fs.exists_file(&lib_file));
    fs.clean_path(&lib_file);
    assert!(!fs.exists_file(&lib_file));
}

#[test]
fn test_clean_path_for_genlibs() {
    let mut fs = DirState::new();
    let file_name = "tmp/test";
    let file_suffix = ".o";

    fs.write_file(file_name);
    assert!(fs.exists_file(file_name));
    fs.clean_sharded(file_name, file_suffix);
    assert!(!fs.exists_file(file_name));

    let test1 = format!("{}{}", file_name, ".test1.o");
    let test2 = format!("{}{}", file_name, ".test2.o");
    fs.write_file(&test1);
    fs.write_file(&test2);
    assert!(fs.exists_file(&test1));
    assert!(fs.exists_file(&test2));

    fs.clean_sharded(file_name, file_suffix);
    assert!(!fs.exists_file(&test1));
    assert!(!fs.exists_file(&test2));
}

#[test]
fn test_cleanup_idempotent() {
    let mut fs = DirState::new();
    fs.write_file("kept.o");

    fs.clean_path("never_created.o");
    assert!(fs.exists_file("kept.o"));
    assert!(!fs.exists_file("never_created.o"));

    fs.clean_path("kept.o");
    assert!(!fs.exists_file("kept.o"));
    fs.clean_path("kept.o");
    assert!(!fs.exists_file("kept.o"));

    fs.clean_sharded("none", ".o");
    assert_eq!(fs.write_log().len(), 1);
}

#[test]
fn test_sharded_cleanup_keeps_others() {
    let mut fs = DirState::new();
    fs.write_file("base");
    fs.write_file("base.o");
    fs.write_file("base.shard1.o");
    fs.write_file("base.shard2.o");
    fs.write_file("other.o");
    fs.clean_sharded("base", ".o");
    assert!(!fs.exists_file("base"));
    assert!(!fs.exists_file("base.o"));
    assert!(!fs.exists_file("base.shard1.o"));
    assert!(!fs.exists_file("base.shard2.o"));
    assert!(fs.exists_file("other.o"));
}

#[test]
fn test_cache_reuse() {
    let entry_file = "tmp/entry".to_string();
    let outcomes = vec![CodegenOutcome::Done, CodegenOutcome::Done];
    let mut fs = DirState::new();

    let first = KclvmAssembler::new(
        two_pkg_program(),
        empty_scope(),
        entry_file.clone(),
        KclvmLibAssembler::LLVM,
    );
    first.gen_libs(&mut fs, &outcomes).unwrap();
    let dep_cache = "app/.kclvm/cache/dep.o".to_string();
    assert!(fs.exists_file(&dep_cache));
    assert_eq!(fs.write_log().len(), 2);

    let second = KclvmAssembler::new(
        two_pkg_program(),
        empty_scope(),
        entry_file.clone(),
        KclvmLibAssembler::LLVM,
    );
    second.gen_libs(&mut fs, &outcomes).unwrap();
    let log = fs.write_log();
    assert_eq!(log.len(), 3);
    assert_eq!(log[2], format!("{}{}", entry_file, ".o"));
    assert_eq!(log.iter().filter(|p| **p == dep_cache).count(), 1);
}

#[test]
fn test_codegen_failure_names_package() {
    let entry_file = "tmp/entry".to_string();
    let assembler = KclvmAssembler::new(
        two_pkg_program(),
        empty_scope(),
        entry_file,
        KclvmLibAssembler::LLVM,
    );
    let mut fs = DirState::new();
    let outcomes = vec![CodegenOutcome::Done, CodegenOutcome::Failed("bad type".to_string())];
    let err = assembler.gen_libs(&mut fs, &outcomes).unwrap_err();
    assert_eq!(err.message(), "compile failed in package dep: bad type");
    assert!(fs.exists_file("tmp/entry.o"));
}

use kclvm_runner::linker::reachable_pkgs;
use kclvm_runner::linker::select_link_objects;
use kclvm_runner::program::ImportEntry;
use kclvm_runner::program::Module;
use kclvm_runner::program::Pkg;
use kclvm_runner::program::Program;
use kclvm_runner::program::Scope;

fn import_scope() -> Scope {
    Scope {
        import_names: vec![
            ImportEntry {
                pkgpath: "__main__".to_string(),
                imports: vec!["a".to_string(), "b".to_string()],
            },
            ImportEntry { pkgpath: "a".to_string(), imports: vec!["c".to_string()] },
            ImportEntry { pkgpath: "d".to_string(), imports: vec!["e".to_string()] },
        ],
    }
}

#[test]
fn test_reachable_pkgs() {
    let closure = reachable_pkgs(&import_scope());
    assert_eq!(
        closure,
        vec!["__main__".to_string(), "a".to_string(), "b".to_string(), "c".to_string()]
    );
    assert!(!closure.contains(&"d".to_string()));
    assert!(!closure.contains(&"e".to_string()));
}

#[test]
fn test_reachable_pkgs_empty_graph() {
    let closure = reachable_pkgs(&Scope { import_names: vec![] });
    assert_eq!(closure, vec!["__main__".to_string()]);
}

#[test]
fn test_select_link_objects() {
    let prog = Program {
        root: "app".to_string(),
        main: "__main__".to_string(),
        pkgs: vec![
            Pkg {
                pkgpath: "__main__".to_string(),
                modules: vec![Module {
                    filename: "main.k".to_string(),
                    pkg: "__main__".to_string(),
                }],
            },
            Pkg { pkgpath: "a".to_string(), modules: vec![] },
            Pkg { pkgpath: "d".to_string(), modules: vec![] },
        ],
    };
    let objs = vec!["main.o".to_string(), "a.o".to_string(), "d.o".to_string()];
    let reachable = reachable_pkgs(&import_scope());
    let linked = select_link_objects(&prog, &objs, &reachable);
    assert_eq!(linked, vec!["a.o".to_string(), "main.o".to_string()]);
}

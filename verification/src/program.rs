//! The resolved program handed to the build: modules grouped by package
//! path, with the reserved entry package that is always rebuilt and never
//! cached.

use vstd::prelude::*;

verus! {

/// One parsed module; its lowered form is produced by the outside code
/// generator, so only its identity matters here.
pub struct Module {
    pub filename: String,
    pub pkg: String,
}

/// One package: a package path and the ordered modules compiled as one unit.
/// Module order is significant for the generated symbol layout.
pub struct Pkg {
    pub pkgpath: String,
    pub modules: Vec<Module>,
}

/// A resolved program: the root package path, the entry package path, and
/// the packages themselves. Package order carries no meaning; package paths
/// are unique.
pub struct Program {
    pub root: String,
    pub main: String,
    pub pkgs: Vec<Pkg>,
}

/// The per-package import graph produced by resolution: which package
/// paths each package imports. Everything else resolution computes is
/// opaque to this crate.
pub struct ImportEntry {
    pub pkgpath: String,
    pub imports: Vec<String>,
}

/// The resolution result consumed here: the import graph alone.
pub struct Scope {
    pub import_names: Vec<ImportEntry>,
}

/// The reserved entry package path.
pub open spec fn main_pkg_view() -> Seq<char> {
    "__main__"@
}

/// Whether a package path names the entry package.
pub open spec fn is_entry_path(p: Seq<char>) -> bool {
    p == main_pkg_view()
}

impl Program {
    /// The package path of each package, in package order.
    pub open spec fn pkg_paths(self) -> Seq<Seq<char>> {
        self.pkgs@.map_values(|p: Pkg| p.pkgpath@)
    }

    /// Package paths are unique.
    pub open spec fn wf(self) -> bool {
        forall|i: int, j: int|
            0 <= i < j < self.pkg_paths().len() ==> self.pkg_paths()[i] != self.pkg_paths()[j]
    }
}

/// Build a program from one module under the default configuration: the
/// module becomes the single entry package, and both the root and the main
/// package path are the reserved entry package path.
pub fn construct_program(module: Module) -> (r: Program)
    ensures
        r.root@ == main_pkg_view(),
        r.main@ == main_pkg_view(),
        r.pkgs@.len() == 1,
        r.pkgs@[0].pkgpath@ == main_pkg_view(),
        r.pkgs@[0].modules@.len() == 1,
        r.pkgs@[0].modules@[0].filename@ == module.filename@,
        r.pkgs@[0].modules@[0].pkg@ == main_pkg_view(),
        r.wf(),
{
    let m = Module { filename: module.filename, pkg: String::from_str(crate::main_pkg_name()) };
    let mut modules: Vec<Module> = Vec::new();
    modules.push(m);
    let mut pkgs: Vec<Pkg> = Vec::new();
    pkgs.push(Pkg { pkgpath: String::from_str(crate::main_pkg_name()), modules });
    Program {
        root: String::from_str(crate::main_pkg_name()),
        main: String::from_str(crate::main_pkg_name()),
        pkgs,
    }
}

} // verus!

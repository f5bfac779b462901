//! Locations of the sample programs and fixture files the test suite
//! drives the library over, as plain relative paths.

use vstd::prelude::*;

use crate::strutil::str_concat3;

verus! {

/// The directory of the programs run end to end.
pub fn exec_data_path() -> (r: String)
    ensures
        r@ == "src/exec_data"@,
{
    String::from_str("src/exec_data")
}

/// The directory of the programs whose execution is expected to fail.
pub fn exec_err_data_path() -> (r: String)
    ensures
        r@ == "src/exec_err_data"@,
{
    String::from_str("src/exec_err_data")
}

/// The directory of the programs with hand-written expected manifests.
pub fn custom_manifests_data_path() -> (r: String)
    ensures
        r@ == "src/custom_manifests_data"@,
{
    String::from_str("src/custom_manifests_data")
}

/// The directory of the general test cases.
pub fn test_case_path() -> (r: String)
    ensures
        r@ == "src/test_datas"@,
{
    String::from_str("src/test_datas")
}

/// The multi-file compilation cases, each a directory of one program.
pub fn multi_file_test_cases() -> (r: Vec<String>)
    ensures
        r@.len() == 7,
        r@[0]@ == "multi_file_compilation/no_kcl_mod_file"@,
        r@[1]@ == "multi_file_compilation/relative_import"@,
        r@[2]@ == "multi_file_compilation/relative_import_as"@,
        r@[3]@ == "multi_file_compilation/import_regular_module"@,
        r@[4]@ == "multi_file_compilation/import_regular_module_as"@,
        r@[5]@ == "multi_file_compilation/import_abs_path/app-main"@,
        r@[6]@ == "../../../../test/integration/konfig/base/examples/job-example/dev"@,
{
    let mut r: Vec<String> = Vec::new();
    r.push(String::from_str("multi_file_compilation/no_kcl_mod_file"));
    r.push(String::from_str("multi_file_compilation/relative_import"));
    r.push(String::from_str("multi_file_compilation/relative_import_as"));
    r.push(String::from_str("multi_file_compilation/import_regular_module"));
    r.push(String::from_str("multi_file_compilation/import_regular_module_as"));
    r.push(String::from_str("multi_file_compilation/import_abs_path/app-main"));
    r.push(String::from_str("../../../../test/integration/konfig/base/examples/job-example/dev"));
    r
}

/// The fixture holding the default configuration's canonical JSON.
pub fn exec_prog_args_test_case() -> (r: Vec<String>)
    ensures
        r@.len() == 1,
        r@[0]@ == "exec_prog_args/default.json"@,
{
    let mut r: Vec<String> = Vec::new();
    r.push(String::from_str("exec_prog_args/default.json"));
    r
}

/// The settings-file fixtures: each settings file beside the canonical
/// JSON the configuration it denotes serializes to.
pub fn settings_file_test_case() -> (r: Vec<(String, String)>)
    ensures
        r@.len() == 1,
        r@[0].0@ == "settings_file/settings.yaml"@,
        r@[0].1@ == "settings_file/settings.json"@,
{
    let mut r: Vec<(String, String)> = Vec::new();
    r.push(
        (String::from_str("settings_file/settings.yaml"), String::from_str(
            "settings_file/settings.json",
        )),
    );
    r
}

/// A relative path resolved against a base directory.
pub fn gen_full_path(base: &str, rel_path: String) -> (r: Result<String, String>)
    ensures
        r matches Ok(p) && p@ == base@ + "/"@ + rel_path@,
{
    Ok(str_concat3(base, "/", rel_path.as_str()))
}

} // verus!

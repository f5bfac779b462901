use kclvm_runner::datapaths::custom_manifests_data_path;
use kclvm_runner::datapaths::exec_data_path;
use kclvm_runner::datapaths::exec_err_data_path;
use kclvm_runner::datapaths::exec_prog_args_test_case;
use kclvm_runner::datapaths::gen_full_path;
use kclvm_runner::datapaths::multi_file_test_cases;
use kclvm_runner::datapaths::settings_file_test_case;
use kclvm_runner::datapaths::test_case_path;
use kclvm_runner::engine::temp_file;
use kclvm_runner::runner::ExecProgramArgs;
use kclvm_runner::runner::SettingsFile;

const DEFAULT_JSON: &str = "{\"work_dir\":null,\"k_filename_list\":[],\"output\":null,\"disable_yaml_result\":false,\"debug\":false,\"sort_keys\":false}";

#[test]
fn test_to_json_program_arg() {
    let exec_prog_args = ExecProgramArgs::default();
    assert_eq!(DEFAULT_JSON, exec_prog_args.to_json());
}

#[test]
fn test_from_setting_file_program_arg() {
    let settings = SettingsFile {
        work_dir: Some("w".to_string()),
        input_files: vec!["a.k".to_string(), "b.k".to_string()],
        output: None,
        disable_yaml_result: false,
        debug: true,
        sort_keys: false,
    };
    let from_settings = ExecProgramArgs::from_settings_file(settings);

    let direct = ExecProgramArgs {
        work_dir: Some("w".to_string()),
        k_filename_list: vec!["a.k".to_string(), "b.k".to_string()],
        output: None,
        disable_yaml_result: false,
        debug: true,
        sort_keys: false,
    };
    assert_eq!(from_settings.to_json(), direct.to_json());
    assert_eq!(
        from_settings.to_json(),
        "{\"work_dir\":\"w\",\"k_filename_list\":[\"a.k\",\"b.k\"],\"output\":null,\"disable_yaml_result\":false,\"debug\":true,\"sort_keys\":false}"
    );
}

#[test]
fn test_from_str_program_arg() {
    let expected_json_str = DEFAULT_JSON;
    let exec_prog_args = ExecProgramArgs::from_str(expected_json_str).unwrap();
    assert_eq!(expected_json_str, exec_prog_args.to_json());

    let richer = "{\"work_dir\":\"w\",\"k_filename_list\":[\"a.k\",\"b \\\"q\\\".k\"],\"output\":\"out.yaml\",\"disable_yaml_result\":true,\"debug\":false,\"sort_keys\":true}";
    let parsed = ExecProgramArgs::from_str(richer).unwrap();
    assert_eq!(parsed.work_dir.as_deref(), Some("w"));
    assert_eq!(parsed.k_filename_list, vec!["a.k".to_string(), "b \"q\".k".to_string()]);
    assert_eq!(parsed.output.as_deref(), Some("out.yaml"));
    assert!(parsed.disable_yaml_result);
    assert!(!parsed.debug);
    assert!(parsed.sort_keys);
    assert_eq!(richer, parsed.to_json());
}

#[test]
fn test_from_str_rejects_non_canonical() {
    assert!(ExecProgramArgs::from_str("").is_none());
    assert!(ExecProgramArgs::from_str("{}").is_none());
    assert!(ExecProgramArgs::from_str("{\"work_dir\": null}").is_none());
    let trailing = format!("{} ", DEFAULT_JSON);
    assert!(ExecProgramArgs::from_str(&trailing).is_none());
}

#[test]
fn test_json_escaping() {
    let mut args = ExecProgramArgs::default();
    args.k_filename_list.push("a\"b\\c\nd\te\rf".to_string());
    let expected = "{\"work_dir\":null,\"k_filename_list\":[\"a\\\"b\\\\c\\nd\\te\\rf\"],\"output\":null,\"disable_yaml_result\":false,\"debug\":false,\"sort_keys\":false}";
    assert_eq!(expected, args.to_json());
}

#[test]
fn test_get_files() {
    let mut args = ExecProgramArgs::default();
    args.k_filename_list.push("one.k".to_string());
    args.k_filename_list.push("two.k".to_string());
    let files = args.get_files();
    assert_eq!(files, vec!["one.k".to_string(), "two.k".to_string()]);
}

#[test]
fn test_default_program_arg() {
    let args = ExecProgramArgs::default();
    assert!(args.work_dir.is_none());
    assert!(args.k_filename_list.is_empty());
    assert!(args.output.is_none());
    assert!(!args.disable_yaml_result);
    assert!(!args.debug);
    assert!(!args.sort_keys);
}

#[test]
fn test_data_paths() {
    assert_eq!(exec_data_path(), "src/exec_data");
    assert_eq!(exec_err_data_path(), "src/exec_err_data");
    assert_eq!(custom_manifests_data_path(), "src/custom_manifests_data");
    assert_eq!(test_case_path(), "src/test_datas");

    let cases = multi_file_test_cases();
    assert_eq!(cases.len(), 7);
    assert_eq!(cases[0], "multi_file_compilation/no_kcl_mod_file");
    assert_eq!(cases[5], "multi_file_compilation/import_abs_path/app-main");

    assert_eq!(exec_prog_args_test_case(), vec!["exec_prog_args/default.json".to_string()]);

    let settings_cases = settings_file_test_case();
    assert_eq!(settings_cases[0].0, "settings_file/settings.yaml");
    assert_eq!(settings_cases[0].1, "settings_file/settings.json");
}

#[test]
fn test_gen_full_path() {
    let full = gen_full_path("/base/dir", "src/main.k".to_string()).unwrap();
    assert_eq!(full, "/base/dir/src/main.k");
}

#[test]
fn test_temp_file_paths() {
    assert_eq!(temp_file("tmp", "pid7_1"), "tmp/pid7_1");
    assert_ne!(temp_file("tmp", "pid7_1"), temp_file("tmp", "pid7_2"));
}

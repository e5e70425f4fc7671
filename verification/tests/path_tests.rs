use zip_extractor::engine::{is_zip_path_exec, warning_line_exec};
use zip_extractor::pathname::{ext_of_exec, path_ext_exec, path_file_name_exec};

#[test]
fn file_name_is_the_last_component() {
    assert_eq!(path_file_name_exec("docs/report.pdf"), Some("report.pdf".to_string()));
    assert_eq!(path_file_name_exec("report.pdf"), Some("report.pdf".to_string()));
    assert_eq!(path_file_name_exec("a//b"), Some("b".to_string()));
    assert_eq!(path_file_name_exec("a/b/"), Some("b".to_string()));
    assert_eq!(path_file_name_exec("a/./"), Some("a".to_string()));
}

#[test]
fn parent_markers_and_empty_paths_have_no_file_name() {
    assert_eq!(path_file_name_exec(""), None);
    assert_eq!(path_file_name_exec("/"), None);
    assert_eq!(path_file_name_exec(".."), None);
    assert_eq!(path_file_name_exec("a/.."), None);
    assert_eq!(path_file_name_exec("a/b/.."), None);
}

#[test]
fn extension_follows_the_last_dot() {
    assert_eq!(ext_of_exec("report.pdf"), Some("pdf".to_string()));
    assert_eq!(ext_of_exec("a.tar.gz"), Some("gz".to_string()));
    assert_eq!(ext_of_exec("trailing."), Some("".to_string()));
    assert_eq!(ext_of_exec("noext"), None);
    assert_eq!(ext_of_exec(".gitignore"), None);
}

#[test]
fn path_extension_goes_through_the_file_name() {
    assert_eq!(path_ext_exec("docs/report.PDF"), Some("PDF".to_string()));
    assert_eq!(path_ext_exec("docs/.hidden"), None);
    assert_eq!(path_ext_exec("a/.."), None);
}

#[test]
fn zip_paths_are_recognized_case_insensitively() {
    assert!(is_zip_path_exec("in/a.zip"));
    assert!(is_zip_path_exec("in/b.ZiP"));
    assert!(!is_zip_path_exec("in/b.txt"));
    assert!(!is_zip_path_exec("zip"));
    assert!(!is_zip_path_exec("in/zipfile"));
}

#[test]
fn invalid_entry_names_draw_a_warning_line() {
    assert_eq!(path_file_name_exec("weird/.."), None);
    assert_eq!(
        warning_line_exec("weird/.."),
        "Warning: Skipping entry with invalid file name: weird/..\n"
    );
}

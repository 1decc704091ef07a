use passrs::error::PassrsError;
use passrs::git::{branch_name, commit_summary, format_octal, status_label, status_line};
use passrs::paths::{pathspec, relative_to_store};

#[test]
fn labels_in_order() {
    assert_eq!(status_label(true, true, false, false), Some("create"));
    assert_eq!(status_label(false, true, true, true), Some("delete"));
    assert_eq!(status_label(false, false, true, true), Some("rename"));
    assert_eq!(status_label(false, false, false, true), Some("rewrite"));
    assert_eq!(status_label(false, false, false, false), None);
}

#[test]
fn summary_abbreviates_the_commit() {
    assert_eq!(
        commit_summary("master", "0123456789abcdef", "Add given secret for x to store"),
        "[master 0123456] Add given secret for x to store"
    );
    assert_eq!(branch_name(None), "master");
    assert_eq!(branch_name(Some("main")), "main");
}

#[test]
fn status_lines() {
    assert_eq!(status_line("rename", Some("a.gpg"), Some("b.gpg"), None).unwrap(), " rename a.gpg => b.gpg (100%)");
    assert_eq!(status_line("rewrite", Some("a.gpg"), Some("a.gpg"), None).unwrap(), " rewrite a.gpg (100%)");
    assert_eq!(status_line("create", None, Some("n.gpg"), None).unwrap(), " create mode 100644 n.gpg");
    assert_eq!(status_line("delete", Some("d.gpg"), None, Some(0o100755)).unwrap(), " delete mode 100755 d.gpg");
    assert_eq!(
        status_line("create", None, None, None),
        Err(PassrsError::Plain("neither old nor new were valid paths".to_string()))
    );
    assert_eq!(format_octal(8), "10");
    assert_eq!(format_octal(0), "0");
}

#[test]
fn paths_for_git() {
    assert_eq!(pathspec("/s/web/a.gpg", "/s", 3), Some("web/a.gpg".to_string()));
    assert_eq!(pathspec("/s/web/a.gpg", "/s/", 3), Some("web/a.gpg".to_string()));
    assert_eq!(pathspec("/sx/a.gpg", "/s", 3), Some("/sx/a.gpg".to_string()));
    assert_eq!(relative_to_store("/s/x", 3), Some("x".to_string()));
    assert_eq!(relative_to_store("/s", 3), None);
}

use passrs::error::PassrsError;
use passrs::store::{
    confirmed_secret, contents_to_encrypt, decrypted_lines, echoed_secret, encryption_keys, is_shown_name, is_yes, lines,
    path_exists, permission_step, recrypt_action, recrypt_plan, FolderEntry, require_keys, secret_prompt, verify_store_exists, yes_no_prompt,
    EditMode, PermissionStep, RecryptAction,
};

#[test]
fn lines_as_str_lines() {
    assert_eq!(lines("a\nb\r\nc"), vec!["a", "b", "c"]);
    assert_eq!(lines("a\n\nb\n"), vec!["a", "", "b"]);
    assert_eq!(lines("a\r"), vec!["a\r"]);
    assert!(lines("").is_empty());
    assert_eq!(lines("\n"), vec![""]);
    assert_eq!(decrypted_lines(b"pw\nuser").unwrap(), vec!["pw", "user"]);
    assert!(decrypted_lines(b"\xff").is_err());
}

#[test]
fn answers() {
    assert!(is_yes(Some("yes")));
    assert!(is_yes(Some("Y")));
    assert!(!is_yes(Some("no")));
    assert!(!is_yes(Some("")));
    assert!(!is_yes(None));
    assert_eq!(yes_no_prompt("Delete?"), "Delete? [y/N] ");
    assert_eq!(secret_prompt("x", false), "Enter secret for x: ");
    assert_eq!(secret_prompt("x", true), "Re-enter secret for x: ");
    assert_eq!(confirmed_secret(Some("a".into()), Some("a".into())), Ok("a".to_string()));
    assert_eq!(confirmed_secret(Some("a".into()), Some("b".into())), Err(PassrsError::SecretsDontMatch));
    assert_eq!(confirmed_secret(None, None), Err(PassrsError::UserAbort));
    assert_eq!(echoed_secret(None), Err(PassrsError::UserAbort));
}

#[test]
fn writing_entries() {
    assert_eq!(contents_to_encrypt(EditMode::Append, b"old", b"new"), b"old\nnew".to_vec());
    assert_eq!(contents_to_encrypt(EditMode::Clobber, b"old", b"new"), b"new".to_vec());
    assert_eq!(
        encryption_keys(vec!["a".into()], vec!["b".into(), "c".into()]),
        vec!["a".to_string(), "b".to_string(), "c".to_string()]
    );
    assert_eq!(require_keys(0, true), Err(PassrsError::NoSigningKeyFound));
    assert_eq!(require_keys(0, false), Err(PassrsError::NoPrivateKeyFound));
    assert_eq!(require_keys(2, false), Ok(()));
}

#[test]
fn store_checks() {
    assert_eq!(verify_store_exists(true, true), Ok(()));
    assert_eq!(verify_store_exists(true, false), Err(PassrsError::StoreDoesntExist));
    assert_eq!(path_exists(true, "../x"), Ok(true));
    assert_eq!(path_exists(false, "x"), Ok(false));
    assert_eq!(path_exists(false, "../x"), Err(PassrsError::SneakyPath("../x".to_string())));
}

#[test]
fn walking_decisions() {
    assert_eq!(recrypt_action(".git", false, false, false, true), RecryptAction::Skip);
    assert_eq!(recrypt_action(".gitattributes", false, true, false, false), RecryptAction::Skip);
    assert_eq!(recrypt_action(".gpg-id", true, true, false, false), RecryptAction::Skip);
    assert_eq!(recrypt_action(".gpg-id", false, true, false, false), RecryptAction::Stop);
    assert_eq!(recrypt_action("a.gpg", false, true, true, false), RecryptAction::File);
    assert_eq!(recrypt_action("web", false, false, false, true), RecryptAction::Folder);
    assert_eq!(permission_step(1, 2, true, false), PermissionStep::Leave);
    assert_eq!(permission_step(1, 1, true, true), PermissionStep::MaskAndStop);
    assert_eq!(permission_step(1, 1, true, false), PermissionStep::MaskAndUp);
    assert_eq!(permission_step(1, 1, false, false), PermissionStep::MaskAndUp);
    assert!(is_shown_name(Some("web")));
    assert!(!is_shown_name(Some(".git")));
    assert!(!is_shown_name(None));
}

fn entry(name: &str, is_file: bool, is_dir: bool) -> FolderEntry {
    FolderEntry {
        name: name.to_string(),
        is_store_gpg_id: false,
        is_file,
        gpg_ext: name.ends_with(".gpg"),
        is_dir,
    }
}

#[test]
fn a_sub_folder_with_its_own_keys_is_left_whole() {
    let entries = vec![entry("a.gpg", true, false), entry(".gpg-id", true, false), entry("web", false, true)];
    assert_eq!(recrypt_plan(&entries, false), vec![RecryptAction::Skip, RecryptAction::Skip, RecryptAction::Skip]);
    assert_eq!(recrypt_plan(&entries, true), vec![RecryptAction::File, RecryptAction::Skip, RecryptAction::Folder]);
    let entries = vec![entry("a.gpg", true, false), entry(".git", false, true), entry("notes", true, false)];
    assert_eq!(recrypt_plan(&entries, false), vec![RecryptAction::File, RecryptAction::Skip, RecryptAction::Skip]);
}

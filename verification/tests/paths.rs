use passrs::error::PassrsError;
use passrs::paths::{
    check_sneaky_paths as sneaky, entry_name, exact_path as exact, find_matches as find, gpg_id_position, ls_root,
    resolve_entry, rfind_gpg, store_len, WalkEntry,
};

const STORE: &str = "./tests/test_repo";

#[test]
fn exact_path() {
    let store_path = format!("{}/Internet/amazon.com/password", STORE);
    let paths = ["Internet/amazon.com/password", store_path.as_str()];

    for path in &paths {
        assert_eq!(
            exact(path, "/home/user", STORE).unwrap(),
            format!("{}/Internet/amazon.com/password", STORE)
        );
    }
}

#[test]
fn check_sneaky_paths() {
    assert!(sneaky("../../password").is_err());
    assert!(sneaky("..").is_err());
    assert!(sneaky("/../password").is_err());
    assert!(sneaky("amazon/../password").is_err());
    assert!(sneaky("password").is_ok());
}

#[test]
fn sneaky_path_error_names_the_path() {
    assert_eq!(sneaky("a/.."), Err(PassrsError::SneakyPath("a/..".to_string())));
    assert!(sneaky("a..b").is_ok());
    assert!(sneaky("...").is_ok());
}

#[test]
fn exact_path_replaces_tilde_and_refuses_sneaky_paths() {
    assert_eq!(exact("~/x", "/home/u", "/home/u/.password-store").unwrap(), "/home/u/.password-store//home/u/x");
    assert_eq!(exact("/home/u/.password-store/a~b", "H", "/home/u/.password-store").unwrap(), "/home/u/.password-store/aHb");
    assert_eq!(
        exact("../etc", "/h", "/s"),
        Err(PassrsError::SneakyPath("/s/../etc".to_string()))
    );
}

#[test]
fn resolve_entry_prefers_the_encrypted_file() {
    assert_eq!(resolve_entry("s/a".to_string(), true, Some(true)), "s/a.gpg");
    assert_eq!(resolve_entry("s/a".to_string(), false, Some(true)), "s/a");
    assert_eq!(resolve_entry("s/a".to_string(), false, Some(false)), "s/a.gpg");
    assert_eq!(resolve_entry("s/a/".to_string(), false, None), "s/a/");
    assert_eq!(resolve_entry("s/a".to_string(), false, None), "s/a.gpg");
}

#[test]
fn ls_root_is_within_the_store() {
    assert_eq!(ls_root(None, "/s"), "/s");
    assert_eq!(ls_root(Some("web"), "/s"), "/s/web");
    assert_eq!(ls_root(Some("/s/web"), "/s"), "/s/web");
    assert_eq!(ls_root(Some("x/s/web"), "/s"), "/s/x/s/web");
}

#[test]
fn exact_path_keeps_only_paths_below_the_store() {
    let store = "./tests/test_repo";
    assert_eq!(exact("x./tests/test_repo/a", "/h", store).unwrap(), "./tests/test_repo/x./tests/test_repo/a");
    assert_eq!(exact("./tests/test_repo2/a", "/h", store).unwrap(), "./tests/test_repo/./tests/test_repo2/a");
    assert_eq!(exact("./tests/test_repo", "/h", store).unwrap(), "./tests/test_repo");
    assert_eq!(exact("/s/a", "/h", "/s/").unwrap(), "/s/a");
}

#[test]
fn store_len_counts_the_separator() {
    assert_eq!(store_len("/s"), 3);
    assert_eq!(store_len("/s/"), 3);
}

#[test]
fn entry_names_drop_store_and_extension() {
    assert_eq!(rfind_gpg("a.gpg.gpg"), Some(5));
    assert_eq!(rfind_gpg("abc"), None);
    assert_eq!(entry_name("/s/web/mail.gpg", 3), "web/mail");
    assert_eq!(entry_name("/s/web/mail", 3), "web/mail");
    assert_eq!(entry_name("/s/é.gpg", 3), "é");
}

fn walk(items: &[(&str, bool)]) -> Vec<WalkEntry> {
    items
        .iter()
        .map(|(p, f)| WalkEntry {
            path: p.to_string(),
            file_name: p.rsplit('/').next().unwrap().to_string(),
            is_file: *f,
        })
        .collect()
}

#[test]
fn find_matches_exact_name_wins() {
    let entries = walk(&[("/s", false), ("/s/ab.gpg", true), ("/s/b", false), ("/s/b/a.gpg", true)]);
    assert_eq!(find(&entries, "a", 3).unwrap(), vec!["/s/b/a.gpg".to_string()]);
    assert_eq!(find(&entries, "a.gpg", 3).unwrap(), vec!["/s/b/a.gpg".to_string()]);
}

#[test]
fn find_matches_sorts_partial_matches_by_name() {
    let entries = walk(&[
        ("/s", false),
        ("/s/Zeta.gpg", true),
        ("/s/alpha.gpg", true),
        ("/s/Beta", false),
        ("/s/Beta/x.gpg", true),
        ("/s/note.txt", true),
    ]);
    assert_eq!(
        find(&entries, "a", 3).unwrap(),
        vec!["/s/alpha.gpg".to_string(), "/s/Beta/x.gpg".to_string(), "/s/Zeta.gpg".to_string()]
    );
    // upper-case letters match through the lower-cased path only for lower-case targets
    assert_eq!(find(&entries, "z", 3).unwrap(), vec!["/s/Zeta.gpg".to_string()]);
    assert_eq!(find(&entries, "Z", 3).unwrap(), vec!["/s/Zeta.gpg".to_string()]);
}

#[test]
fn find_matches_none_is_an_error() {
    let entries = walk(&[("/s", false), ("/s/a.gpg", true)]);
    assert_eq!(find(&entries, "z", 3), Err(PassrsError::NoMatchesFound("z".to_string())));
}

#[test]
fn gpg_id_position_finds_the_first_gpg_id() {
    let names: Vec<String> = [".git", "a.gpg", ".gpg-id", "b"].iter().map(|s| s.to_string()).collect();
    assert_eq!(gpg_id_position(&names), Some(2));
    let names: Vec<String> = ["a.gpg", ".gpg-idx"].iter().map(|s| s.to_string()).collect();
    assert_eq!(gpg_id_position(&names), None);
}

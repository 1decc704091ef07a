use passrs::error::PassrsError;
use passrs::subcmds::edit::{edit_commit_message, edit_outcome, editor, temp_file_path};
use passrs::subcmds::find::{find_line, grep_heading, match_display};
use passrs::subcmds::generate::{generate_commit_message, join_lines, overwrite_prompt, replace_first_line, secret_length};
use passrs::subcmds::init::{
    init_plan, initialized_message, key_user_id, keys_description, keys_to_use, reencrypt_message, substore_message,
    InitPlan,
};
use passrs::subcmds::mv::{
    cp_commit_message, cp_destination, delete_prompt, mv_commit_message, mv_destination, rm_action, rm_commit_message,
    Removal,
};
use passrs::subcmds::otp::{code_bar, qr_grid, qr_rows, Cell};
use passrs::subcmds::show::{contents_header, copied_message, copied_token_message, line_to_clip};
use passrs::subcmds::unclip::{is_stale_unclip, unclip_verdict};

const HASH_ABC: &str = "ba7816bf8f01cfea414140de5dae2223b00361a396177a9cb410ff61f20015ad";

#[test]
fn unclip_checks_the_fingerprint() {
    assert_eq!(unclip_verdict(HASH_ABC, b"abc", false), Ok(()));
    assert_eq!(unclip_verdict(HASH_ABC, b"abd", false), Err(PassrsError::HashMismatch));
    assert_eq!(unclip_verdict(HASH_ABC, b"abd", true), Ok(()));
    assert!(matches!(unclip_verdict(HASH_ABC, b"\xff", true), Err(PassrsError::InvalidUtf8 { .. })));
    assert!(is_stale_unclip(true, 5, 6, Some("passrs unclip 45 --")));
    assert!(!is_stale_unclip(true, 6, 6, Some("passrs unclip 45 --")));
    assert!(!is_stale_unclip(false, 5, 6, Some("passrs unclip 45 --")));
    assert!(!is_stale_unclip(true, 5, 6, Some("passrs show x")));
}

#[test]
fn edit_outcomes() {
    assert_eq!(edit_outcome(b"old", b""), Err(PassrsError::UserAbort));
    assert_eq!(edit_outcome(b"", b""), Err(PassrsError::UserAbort));
    assert_eq!(edit_outcome(b"same", b"same"), Err(PassrsError::ContentsUnchanged));
    assert_eq!(edit_outcome(b"old", b"new"), Ok(()));
    assert_eq!(
        temp_file_path("/dev/shm", "passrs", "abc", "xy", "web/mail"),
        "/dev/shm/passrs.abc/xy-web-mail.txt"
    );
    assert_eq!(editor(Some("nano"), Some("vim")), "nano");
    assert_eq!(editor(None, Some("vim")), "vim");
    assert_eq!(editor(None, None), "/usr/bin/vi");
    assert_eq!(editor(Some(""), Some("vim")), "/usr/bin/vi");
    assert_eq!(edit_commit_message("x", "vi"), "Edit secret for x using vi");
}

#[test]
fn show_picks_lines() {
    let lines = vec!["pw".to_string(), "user".to_string()];
    assert_eq!(line_to_clip(&lines, None).unwrap(), "pw");
    assert_eq!(line_to_clip(&lines, Some(2)).unwrap(), "user");
    assert_eq!(line_to_clip(&lines, Some(0)).unwrap(), "pw");
    assert_eq!(line_to_clip(&lines, Some(3)), Err(PassrsError::Plain("File at line 3 was empty".to_string())));
    assert_eq!(line_to_clip(&Vec::new(), None), Err(PassrsError::Plain("Vec was empty".to_string())));
    assert_eq!(
        copied_message("web/mail", "45"),
        "Copied \x1b[38;5;3mweb/mail\x1b[m to the clipboard, which will clear in 45 seconds."
    );
    assert_eq!(
        copied_token_message("web/mail", "45"),
        "Copied token for \x1b[38;5;3mweb/mail\x1b[m to the clipboard, which will clear in 45 seconds."
    );
    assert_eq!(contents_header("x"), "Contents of \x1b[38;5;3mx\x1b[m");
}

#[test]
fn generate_texts() {
    assert_eq!(secret_length(None, 24), 24);
    assert_eq!(secret_length(Some(8), 24), 8);
    assert_eq!(join_lines(&vec!["a".to_string(), "b".to_string()]), "a\nb");
    assert_eq!(replace_first_line(vec!["old".to_string(), "user: me".to_string()], "new"), "new\nuser: me");
    assert_eq!(generate_commit_message("x", true), "Replace generated secret for x");
    assert_eq!(generate_commit_message("x", false), "Save generated secret for x");
    assert_eq!(overwrite_prompt("x"), "An entry exists for x. Overwrite it?");
}

#[test]
fn mv_and_cp_destinations() {
    assert_eq!(mv_destination("web/mail", "old/", true, "/h", "/s").unwrap(), ("/s/old//mail.gpg".to_string(), true));
    assert_eq!(mv_destination("mail", "old/", true, "/h", "/s").unwrap(), ("/s/old/mail.gpg".to_string(), true));
    assert_eq!(mv_destination("web/mail", "new", true, "/h", "/s").unwrap(), ("/s/new.gpg".to_string(), false));
    assert_eq!(mv_destination("web", "new", false, "/h", "/s").unwrap(), ("/s/new".to_string(), false));
    assert!(mv_destination("web", "../x", false, "/h", "/s").is_err());
    assert_eq!(mv_commit_message("web/mail", "old/", true), "Rename web/mail to old/mail");
    assert_eq!(mv_commit_message("web/mail", "new", false), "Rename web/mail to new");
    assert_eq!(cp_destination("copy", true, "/h", "/s").unwrap(), "/s/copy.gpg");
    assert_eq!(cp_commit_message("a", "b"), "Copy a to b");
}

#[test]
fn rm_decisions() {
    assert_eq!(rm_action(Some(true), true, "/s/d"), Ok(Removal::Folder));
    assert_eq!(rm_action(Some(true), false, "/s/d"), Err(PassrsError::PathIsDir("/s/d".to_string())));
    assert_eq!(rm_action(Some(false), false, "/s/f.gpg"), Ok(Removal::Entry));
    assert_eq!(rm_action(None, true, "/s/x"), Err(PassrsError::PathDoesntExist("/s/x".to_string())));
    assert_eq!(rm_commit_message("d", Removal::Folder), "Remove folder d from store");
    assert_eq!(rm_commit_message("f", Removal::Entry), "Remove entry f from store");
    assert_eq!(delete_prompt("f"), "Are you sure you would like to delete f?");
}

#[test]
fn find_and_grep_names() {
    assert_eq!(match_display("/s/web/mail.gpg", 3).unwrap(), ("web/".to_string(), "mail".to_string()));
    assert_eq!(match_display("/s/mail.gpg", 3).unwrap(), ("".to_string(), "mail".to_string()));
    assert_eq!(
        match_display("mail.gpg", 0),
        Err(PassrsError::Plain("Path did not contain a folder".to_string()))
    );
    assert_eq!(find_line("web/", "mail"), "\x1b[38;5;4m\x1b[1mweb/\x1b[21mmail\x1b[m");
    assert_eq!(grep_heading("web/", "mail"), "\x1b[1mweb/\x1b[21mmail");
}

#[test]
fn init_decisions_and_texts() {
    assert_eq!(init_plan(false, false, false, false), Err(PassrsError::StoreDoesntExist));
    assert_eq!(init_plan(false, true, true, false), Ok(InitPlan::CreateStore));
    assert_eq!(init_plan(true, false, false, false), Err(PassrsError::NoPrivateKeyFound));
    assert_eq!(init_plan(true, true, true, false), Ok(InitPlan::CreateSubstore));
    assert_eq!(init_plan(true, true, true, true), Ok(InitPlan::ReencryptSubstore));
    assert_eq!(init_plan(true, true, false, false), Ok(InitPlan::ReencryptStore));
    let keys = vec!["a@x".to_string(), "b@x".to_string()];
    assert_eq!(keys_description(&keys), "a@x, b@x");
    assert_eq!(keys_description(&vec!["a@x".to_string()]), "a@x");
    assert_eq!(keys_to_use(Vec::new(), keys.clone()), keys);
    assert_eq!(initialized_message("a@x", None), "Password store initialized for a@x");
    assert_eq!(initialized_message("a@x", Some("sub")), "Password store initialized for a@x (sub)");
    assert_eq!(reencrypt_message(None, "k"), "Re-encrypt password store using new GPG ID k");
    assert_eq!(reencrypt_message(Some("sub"), "k"), "Re-encrypt sub using new GPG ID k");
    assert_eq!(substore_message(&keys, "sub"), "Set GPG ID to a@x, b@x (sub)");
    assert_eq!(key_user_id("KEY", Some("me@x")), "me@x");
    assert_eq!(key_user_id("KEY", None), "KEY");
}

#[test]
fn code_bars() {
    assert_eq!(
        code_bar("123456", 30, 60),
        format!("123456 lasts 30s      |\x1b[38;5;2m\x1b[1m<\x1b[21m{}\x1b[m|", "=".repeat(29))
    );
    assert_eq!(
        code_bar("123456", 30, 65),
        format!("123456 lasts 25s      |\x1b[38;5;1m------\x1b[38;5;2m\x1b[1m<\x1b[m\x1b[38;5;2m{}\x1b[m|", "=".repeat(24))
    );
}

#[test]
fn qr_cells() {
    let blank = Cell::blank();
    assert_eq!(blank, Cell { ch: ' ', fg: 30, bg: 47 });
    assert_eq!(blank.render(), "\x1b[30;47m \x1b[0;0m");
    // a 2x2 code: dark, light / light, dark
    let grid = qr_grid(2, &vec![true, false, false, true]);
    assert_eq!(grid.len(), 3);
    assert_eq!(grid[1][1], Cell { ch: '▄', fg: 37, bg: 40 });
    assert_eq!(grid[1][2], Cell { ch: '▄', fg: 30, bg: 47 });
    assert_eq!(grid[0][1], blank);
    assert_eq!(grid[2][2], blank);
    // a 3x3 code: the last row of modules has no row below it
    let grid = qr_grid(3, &vec![false, false, false, false, false, false, true, false, true]);
    assert_eq!(grid.len(), 3);
    assert_eq!(grid[2][1], Cell { ch: '▄', fg: 37, bg: 40 });
    assert_eq!(grid[2][2], Cell { ch: '▄', fg: 37, bg: 47 });
    let rows = qr_rows(b"otpauth://totp/x?secret=AAAA").unwrap();
    assert!(rows.len() >= 12);
}

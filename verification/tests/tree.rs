use passrs::tree::{file_name, Tree};

fn file(p: &str) -> Tree {
    Tree { root: p.to_string(), is_dir: false, leaves: Vec::new() }
}

fn dir(p: &str, leaves: Vec<Tree>) -> Tree {
    Tree { root: p.to_string(), is_dir: true, leaves }
}

const BLUE: &str = "\x1b[38;5;4m";
const BOLD: &str = "\x1b[1m";
const RESET: &str = "\x1b[m";

#[test]
fn file_names_are_last_components() {
    assert_eq!(file_name(&"/a/b/c.gpg".to_string()), "c.gpg");
    assert_eq!(file_name(&"c".to_string()), "c");
}

#[test]
fn root_path_is_the_path() {
    assert_eq!(file("/s/x.gpg").root_path(), "/s/x.gpg");
}

#[test]
fn draws_sorted_branches_with_connectors() {
    let tree = dir(
        "/s",
        vec![
            file("/s/zeta.gpg"),
            dir("/s/Web", vec![file("/s/Web/mail.gpg"), file("/s/Web/bank.gpg")]),
            file("/s/alpha.gpg"),
        ],
    );
    let lines = tree.display_tree(true);
    assert_eq!(
        lines,
        vec![
            format!("{}{}Password Store{}", BOLD, BLUE, RESET),
            "├── alpha".to_string(),
            format!("├── {}{}Web{}", BLUE, BOLD, RESET),
            "│   ├── bank".to_string(),
            "│   └── mail".to_string(),
            "└── zeta".to_string(),
        ]
    );
}

#[test]
fn last_folder_indents_with_blanks() {
    let tree = dir("/s/sub", vec![dir("/s/sub/x", vec![file("/s/sub/x/y.gpg")])]);
    let lines = tree.display_tree(false);
    assert_eq!(
        lines,
        vec![
            format!("{}{}sub{}", BOLD, BLUE, RESET),
            format!("└── {}{}x{}", BLUE, BOLD, RESET),
            "    └── y".to_string(),
        ]
    );
}

#[test]
fn a_file_root_is_shown_by_name() {
    assert_eq!(file("/s/a.gpg").display_tree(false), vec!["a.gpg".to_string()]);
}

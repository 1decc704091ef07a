use passrs::error::PassrsError;
use passrs::ui::{outcome, step, Event, Key, Step, Ui, UiResult, PAGE_LEN};

#[test]
fn arrows_move_within_the_list() {
    assert_eq!(step(0, 3, Event::Input(Key::Up)), Step::Select(0));
    assert_eq!(step(2, 3, Event::Input(Key::Up)), Step::Select(1));
    assert_eq!(step(3, 3, Event::Input(Key::Down)), Step::Select(3));
    assert_eq!(step(1, 3, Event::Input(Key::Down)), Step::Select(2));
    assert_eq!(step(1, 3, Event::Tick), Step::Select(1));
    assert_eq!(step(1, 3, Event::Input(Key::Other)), Step::Select(1));
}

#[test]
fn pages_jump_by_page_len_and_stop_at_the_ends() {
    assert_eq!(PAGE_LEN, 10);
    assert_eq!(step(0, 30, Event::Input(Key::PageDown)), Step::Select(10));
    assert_eq!(step(25, 30, Event::Input(Key::PageDown)), Step::Select(30));
    assert_eq!(step(20, 30, Event::Input(Key::PageDown)), Step::Select(30));
    assert_eq!(step(15, 30, Event::Input(Key::PageUp)), Step::Select(5));
    assert_eq!(step(5, 30, Event::Input(Key::PageUp)), Step::Select(0));
    assert_eq!(step(0, 30, Event::Input(Key::PageUp)), Step::Select(0));
    assert_eq!(step(7, 30, Event::Input(Key::Home)), Step::Select(0));
    assert_eq!(step(7, 30, Event::Input(Key::End)), Step::Select(30));
}

#[test]
fn keys_that_close_the_window() {
    assert_eq!(step(2, 3, Event::Input(Key::Char('q'))), Step::Quit);
    assert_eq!(step(2, 3, Event::Input(Key::Esc)), Step::Quit);
    assert_eq!(step(2, 3, Event::Input(Key::Right)), Step::Show(2));
    assert_eq!(step(2, 3, Event::Input(Key::Char('\n'))), Step::Show(2));
    assert_eq!(step(2, 3, Event::Input(Key::Left)), Step::Copy(2));
    assert_eq!(step(2, 3, Event::Input(Key::Char('e'))), Step::Edit(2));
    assert_eq!(step(2, 3, Event::Input(Key::Char('x'))), Step::Select(2));
}

#[test]
fn outcomes_name_the_chosen_entry() {
    let matches = vec!["/s/a.gpg".to_string(), "/s/b.gpg".to_string()];
    assert_eq!(outcome(&matches, Step::Show(1)), Ok(UiResult::Success("/s/b.gpg".to_string())));
    assert_eq!(
        outcome(&matches, Step::Copy(0)),
        Ok(UiResult::CopiedToClipboard("/s/a.gpg".to_string()))
    );
    assert_eq!(outcome(&matches, Step::Edit(0)), Ok(UiResult::SpawnEditor("/s/a.gpg".to_string())));
    assert_eq!(outcome(&matches, Step::Quit), Err(PassrsError::UserAbort));
}

#[test]
fn window_lists_entry_names() {
    let matches = vec!["/s/web/a.gpg".to_string(), "/s/b.gpg".to_string()];
    let ui = Ui::new(&matches, 3);
    assert_eq!(ui.selected, 0);
    assert_eq!(ui.entries, vec!["web/a".to_string(), "b".to_string()]);
}

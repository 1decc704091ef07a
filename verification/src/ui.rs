//! The selection window that lists several matching entries: its state, how a
//! key press changes it, and what the window answers when it closes.
use crate::error::PassrsError;
use crate::paths::{entry_name, entry_name_spec, stem_end};
use crate::style::{fg_yellow, reset};
use crate::text::{decimal, format_decimal, push_str};
use vstd::prelude::*;
use vstd::utf8::{encode_utf8, is_char_boundary};

verus! {

/// How many entries PageUp and PageDown move the selection by.
pub const PAGE_LEN: usize = 10;

/// A key press, as the selection window tells keys apart.
#[derive(Debug, Clone, Copy, PartialEq, Eq, Structural)]
pub enum Key {
    Char(char),
    Up,
    Down,
    Left,
    Right,
    PageUp,
    PageDown,
    Home,
    End,
    Esc,
    /// Any other key.
    Other,
}

/// What the event loop of the window hands on: a key press, or a tick of the
/// clock that redraws the window.
pub enum Event<I> {
    Input(I),
    Tick,
}

/// How the window ended when the user picked an entry.
#[derive(Debug, PartialEq, Eq)]
pub enum UiResult {
    /// The entry to show.
    Success(String),
    /// The entry whose first line was copied to the clipboard.
    CopiedToClipboard(String),
    /// The entry to open in the editor.
    SpawnEditor(String),
}

/// What the window does after an event.
#[derive(Debug, Clone, Copy, PartialEq, Eq, Structural)]
pub enum Step {
    /// Stay open with entry number `n` selected.
    Select(usize),
    /// Close without a choice.
    Quit,
    /// Close and show entry number `n`.
    Show(usize),
    /// Copy the first line of entry number `n`, then close.
    Copy(usize),
    /// Close and open entry number `n` in the editor.
    Edit(usize),
}

/// The next step of a window whose last entry is number `max` and whose
/// selected entry is number `selected`, when `key` is pressed.
pub open spec fn next_step(selected: nat, max: nat, key: Key) -> Step {
    match key {
        Key::Char('q') | Key::Esc => Step::Quit,
        Key::Up => Step::Select(if selected > 0 { (selected - 1) as usize } else { selected as usize }),
        Key::Left => Step::Copy(selected as usize),
        Key::Down => Step::Select(if selected >= max { selected as usize } else { (selected + 1) as usize }),
        Key::Char('\n') | Key::Right => Step::Show(selected as usize),
        Key::Char('e') => Step::Edit(selected as usize),
        Key::PageDown => Step::Select(
            if selected >= max || selected + PAGE_LEN >= max {
                max as usize
            } else {
                (selected + PAGE_LEN) as usize
            },
        ),
        Key::PageUp => Step::Select(
            if selected > 0 {
                if selected >= PAGE_LEN { (selected - PAGE_LEN) as usize } else { 0 }
            } else {
                selected as usize
            },
        ),
        Key::Home => Step::Select(0),
        Key::End => Step::Select(max as usize),
        _ => Step::Select(selected as usize),
    }
}

/// The entry number that a step selects or acts on.
pub open spec fn step_index(s: Step) -> Option<usize> {
    match s {
        Step::Select(n) | Step::Show(n) | Step::Copy(n) | Step::Edit(n) => Some(n),
        Step::Quit => None,
    }
}

/// Handles one event of the window: a key press moves the selection or closes
/// the window; a tick changes nothing.
pub fn step(selected: usize, max: usize, event: Event<Key>) -> (r: Step)
    requires
        selected <= max,
    ensures
        event matches Event::Input(key) ==> r == next_step(selected as nat, max as nat, key),
        event is Tick ==> r == Step::Select(selected),
        r matches Step::Select(n) ==> n <= max,
        step_index(r) matches Some(n) ==> n <= max,
{
    match event {
        Event::Tick => Step::Select(selected),
        Event::Input(key) => match key {
            Key::Char('q') | Key::Esc => Step::Quit,
            Key::Up => {
                if selected > 0 {
                    Step::Select(selected - 1)
                } else {
                    Step::Select(selected)
                }
            },
            Key::Left => Step::Copy(selected),
            Key::Down => {
                if selected >= max {
                    Step::Select(selected)
                } else {
                    Step::Select(selected + 1)
                }
            },
            Key::Char('\n') | Key::Right => Step::Show(selected),
            Key::Char('e') => Step::Edit(selected),
            Key::PageDown => {
                if selected >= max || selected.saturating_add(PAGE_LEN) >= max {
                    Step::Select(max)
                } else {
                    Step::Select(selected.saturating_add(PAGE_LEN))
                }
            },
            Key::PageUp => {
                if selected > 0 {
                    Step::Select(selected.saturating_sub(PAGE_LEN))
                } else {
                    Step::Select(selected)
                }
            },
            Key::Home => Step::Select(0),
            Key::End => Step::Select(max),
            _ => Step::Select(selected),
        },
    }
}

/// What the window answers when it closes with `last`, for the listed
/// `matches`: the chosen entry, or an abort when the user quit.
pub open spec fn outcome_of(matches: Seq<String>, last: Step) -> Result<Seq<char>, PassrsError> {
    match last {
        Step::Show(n) | Step::Copy(n) | Step::Edit(n) => Ok(matches[n as int]@),
        _ => Err(PassrsError::UserAbort),
    }
}

/// The answer of the window that closed with `last`.
pub fn outcome(matches: &Vec<String>, last: Step) -> (r: Result<UiResult, PassrsError>)
    requires
        step_index(last) matches Some(n) ==> n < matches@.len(),
        !(last is Select),
    ensures
        last matches Step::Show(n) ==> r matches Ok(UiResult::Success(e)) && e@ == matches@[n as int]@,
        last matches Step::Copy(n) ==> r matches Ok(UiResult::CopiedToClipboard(e)) && e@ == matches@[n as int]@,
        last matches Step::Edit(n) ==> r matches Ok(UiResult::SpawnEditor(e)) && e@ == matches@[n as int]@,
        last is Quit ==> r == Err::<UiResult, PassrsError>(PassrsError::UserAbort),
{
    match last {
        Step::Show(n) => Ok(UiResult::Success(matches[n].clone())),
        Step::Copy(n) => Ok(UiResult::CopiedToClipboard(matches[n].clone())),
        Step::Edit(n) => Ok(UiResult::SpawnEditor(matches[n].clone())),
        _ => Err(PassrsError::UserAbort),
    }
}

/// Every entry starts with the store's path (`store_len` bytes, ending at a
/// character boundary) before its last `.gpg`.
pub open spec fn entries_named(entries: Seq<String>, store_len: nat) -> bool {
    forall|i: int|
        0 <= i < entries.len() ==> {
            &&& store_len <= stem_end(encode_utf8((#[trigger] entries[i])@))
            &&& is_char_boundary(encode_utf8(entries[i]@), store_len as int)
        }
}

/// The entries of a selection window, and which of them is selected.
pub struct Ui {
    pub entries: Vec<String>,
    pub selected: usize,
}

impl Ui {
    /// The window for `entries` (not empty): each shown without the store's
    /// path and the extension, the first one selected.
    pub fn new(entries: &Vec<String>, store_len: usize) -> (ui: Ui)
        requires
            entries@.len() > 0,
            entries_named(entries@, store_len as nat),
        ensures
            ui.selected == 0,
            ui.entries@.len() == entries@.len(),
            forall|i: int|
                0 <= i < entries@.len() ==> (#[trigger] ui.entries@[i])@ == entry_name_spec(
                    encode_utf8(entries@[i]@),
                    store_len as int,
                ),
    {
        let mut names: Vec<String> = Vec::new();
        let mut i: usize = 0;
        while i < entries.len()
            invariant
                i <= entries@.len(),
                entries_named(entries@, store_len as nat),
                names@.len() == i,
                forall|k: int|
                    0 <= k < i ==> (#[trigger] names@[k])@ == entry_name_spec(
                        encode_utf8(entries@[k]@),
                        store_len as int,
                    ),
            decreases entries.len() - i,
        {
            let name = entry_name(entries[i].as_str(), store_len);
            names.push(name);
            i += 1;
        }
        Ui { entries: names, selected: 0 }
    }
}

/// With a single match there is nothing to choose: it is the answer.
pub fn single_match(matches: &Vec<String>) -> (r: Option<UiResult>)
    ensures
        matches@.len() == 1 ==> (r matches Some(UiResult::Success(e)) && e@ == matches@[0]@),
        matches@.len() != 1 ==> r is None,
{
    if matches.len() == 1 {
        Some(UiResult::Success(matches[0].clone()))
    } else {
        None
    }
}

/// The notice, in yellow, that `target` names no entry and a search starts.
pub fn search_notice(target: &str) -> (r: String)
    ensures
        r@ == "\u{1b}[38;5;3m"@ + "Entry '"@ + target@ + "' not found. Starting search..."@ + "\u{1b}[m"@
            + "\n"@,
{
    let mut m = fg_yellow();
    push_str(&mut m, "Entry '");
    push_str(&mut m, target);
    push_str(&mut m, "' not found. Starting search...");
    let z = reset();
    push_str(&mut m, z.as_str());
    push_str(&mut m, "\n");
    m
}

/// The heading of the window: how many matches there are.
pub fn heading(count: usize) -> (r: String)
    ensures
        r@ == "Found "@ + decimal(count as nat) + " matching secrets. Please select an entry."@,
{
    let mut m = "Found ".to_owned();
    let d = format_decimal(count as u64);
    push_str(&mut m, d.as_str());
    push_str(&mut m, " matching secrets. Please select an entry.");
    m
}

} // verus!

//! The subcommands of the command line, what each needs before it runs, and
//! the flags it runs with.
use vstd::prelude::*;

verus! {

/// A subcommand, with its arguments.
#[allow(inconsistent_fields)]
#[derive(Debug, PartialEq, Eq)]
pub enum Command {
    Init { gpg_ids: Vec<String>, path: Option<String> },
    Ls { subfolder: Option<String> },
    Find { secret_name: String },
    Show { secret_name: String, clip: Option<Option<usize>> },
    Grep { search_string: String },
    Insert { secret_name: String, echo: bool, force: bool, multiline: bool },
    Edit { secret_name: String },
    Generate {
        secret_name: String,
        length: Option<usize>,
        clip: bool,
        force: bool,
        in_place: bool,
        no_symbols: bool,
    },
    Rm { secret_name: String, force: bool, recursive: bool },
    Mv { old_path: String, new_path: String, force: bool },
    Cp { old_path: String, new_path: String, force: bool },
    Git { git_command_args: Vec<String> },
    Unclip { timeout: u32, force: bool },
    OtpCode { secret_name: String, clip: bool },
    OtpInsert {
        secret_name: String,
        echo: bool,
        force: bool,
        generate: bool,
        from_secret: bool,
        algorithm: Option<String>,
        period: Option<u32>,
        digits: Option<usize>,
    },
    OtpAppend {
        secret_name: String,
        echo: bool,
        from_secret: bool,
        generate: bool,
        algorithm: Option<String>,
        period: Option<u32>,
        digits: Option<usize>,
    },
    OtpUri { secret_name: String, clip: bool, qrcode: bool },
    OtpValidate { uri: String },
}

/// What must hold before a subcommand runs: standard output is a terminal,
/// and the store exists. The terminal is checked first.
#[derive(Debug, Clone, Copy, PartialEq, Eq, Structural)]
pub struct Checks {
    pub tty: bool,
    pub store: bool,
}

/// The subcommands that talk with the user need a terminal.
pub open spec fn needs_tty(c: Command) -> bool {
    c is Insert || c is Edit || c is Generate || c is Rm || c is Mv || c is Cp || c is Git || c is OtpInsert
        || c is OtpAppend
}

/// The checks before a subcommand: every subcommand but `init` needs the
/// store; those that talk with the user need a terminal too.
pub fn checks(c: &Command) -> (r: Checks)
    ensures
        r.store == !(*c is Init),
        r.tty == needs_tty(*c),
{
    match c {
        Command::Init { .. } => Checks { tty: false, store: false },
        Command::Insert { .. } | Command::Edit { .. } | Command::Generate { .. } | Command::Rm { .. }
        | Command::Mv { .. } | Command::Cp { .. } | Command::Git { .. } | Command::OtpInsert { .. }
        | Command::OtpAppend { .. } => Checks { tty: true, store: true },
        _ => Checks { tty: false, store: true },
    }
}

/// The flags that subcommands share.
#[derive(Debug, Clone, Copy, PartialEq, Eq, Structural)]
pub struct Flags {
    pub clip: bool,
    pub echo: bool,
    pub force: bool,
    pub from_secret: bool,
    pub generate: bool,
    pub in_place: bool,
    pub multiline: bool,
    pub no_symbols: bool,
    pub qrcode: bool,
    pub recursive: bool,
}

impl Flags {
    /// All flags off.
    pub fn none() -> (f: Flags)
        ensures
            f == (Flags {
                clip: false,
                echo: false,
                force: false,
                from_secret: false,
                generate: false,
                in_place: false,
                multiline: false,
                no_symbols: false,
                qrcode: false,
                recursive: false,
            }),
    {
        Flags {
            clip: false,
            echo: false,
            force: false,
            from_secret: false,
            generate: false,
            in_place: false,
            multiline: false,
            no_symbols: false,
            qrcode: false,
            recursive: false,
        }
    }
}

/// The flags that a subcommand runs with: those of its own that it passes
/// on, all others off.
pub open spec fn flags_spec(c: Command) -> Flags {
    let off = Flags {
        clip: false,
        echo: false,
        force: false,
        from_secret: false,
        generate: false,
        in_place: false,
        multiline: false,
        no_symbols: false,
        qrcode: false,
        recursive: false,
    };
    match c {
        Command::Insert { echo, force, multiline, .. } => Flags { echo, force, multiline, ..off },
        Command::Generate { clip, force, in_place, no_symbols, .. } => Flags { clip, force, in_place, no_symbols, ..off },
        Command::Rm { force, recursive, .. } => Flags { force, recursive, ..off },
        Command::OtpInsert { echo, force, from_secret, generate, .. } => Flags { echo, force, from_secret, generate, ..off },
        Command::OtpAppend { echo, from_secret, generate, .. } => Flags { echo, from_secret, generate, ..off },
        Command::OtpUri { clip, qrcode, .. } => Flags { clip, qrcode, ..off },
        _ => off,
    }
}

/// The flags that a subcommand runs with.
pub fn flags(c: &Command) -> (f: Flags)
    ensures
        f == flags_spec(*c),
{
    let off = Flags::none();
    match c {
        Command::Insert { echo, force, multiline, .. } => Flags { echo: *echo, force: *force, multiline: *multiline, ..off },
        Command::Generate { clip, force, in_place, no_symbols, .. } => Flags {
            clip: *clip,
            force: *force,
            in_place: *in_place,
            no_symbols: *no_symbols,
            ..off
        },
        Command::Rm { force, recursive, .. } => Flags { force: *force, recursive: *recursive, ..off },
        Command::OtpInsert { echo, force, from_secret, generate, .. } => Flags {
            echo: *echo,
            force: *force,
            from_secret: *from_secret,
            generate: *generate,
            ..off
        },
        Command::OtpAppend { echo, from_secret, generate, .. } => Flags {
            echo: *echo,
            from_secret: *from_secret,
            generate: *generate,
            ..off
        },
        Command::OtpUri { clip, qrcode, .. } => Flags { clip: *clip, qrcode: *qrcode, ..off },
        _ => off,
    }
}

/// What running without a subcommand does: list the store where it exists,
/// else print the help and exit with status 1.
#[derive(Debug, Clone, Copy, PartialEq, Eq, Structural)]
pub enum NoSubcommand {
    ListStore,
    HelpAndFail,
}

/// What running without a subcommand does.
pub fn without_subcommand(store_exists: bool) -> (r: NoSubcommand)
    ensures
        store_exists ==> r == NoSubcommand::ListStore,
        !store_exists ==> r == NoSubcommand::HelpAndFail,
{
    if store_exists {
        NoSubcommand::ListStore
    } else {
        NoSubcommand::HelpAndFail
    }
}

} // verus!

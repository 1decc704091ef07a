use passrs::cli::{checks, flags, without_subcommand, Checks, Command, Flags, NoSubcommand};
use passrs::paths::{copy_step, get_closest_gpg_id, gpg_id_search_next, join_path, CopyAction, GpgIdSearch};
use passrs::error::PassrsError;

#[test]
fn checks_per_subcommand() {
    let init = Command::Init { gpg_ids: Vec::new(), path: None };
    assert_eq!(checks(&init), Checks { tty: false, store: false });
    let show = Command::Show { secret_name: "x".into(), clip: None };
    assert_eq!(checks(&show), Checks { tty: false, store: true });
    let edit = Command::Edit { secret_name: "x".into() };
    assert_eq!(checks(&edit), Checks { tty: true, store: true });
    let uri = Command::OtpUri { secret_name: "x".into(), clip: true, qrcode: false };
    assert_eq!(checks(&uri), Checks { tty: false, store: true });
    assert_eq!(without_subcommand(true), NoSubcommand::ListStore);
    assert_eq!(without_subcommand(false), NoSubcommand::HelpAndFail);
}

#[test]
fn flags_per_subcommand() {
    let generate = Command::Generate {
        secret_name: "x".into(),
        length: None,
        clip: true,
        force: false,
        in_place: true,
        no_symbols: false,
    };
    assert_eq!(flags(&generate), Flags { clip: true, in_place: true, ..Flags::none() });
    let uri = Command::OtpUri { secret_name: "x".into(), clip: false, qrcode: true };
    assert_eq!(flags(&uri), Flags { qrcode: true, ..Flags::none() });
}

#[test]
fn gpg_id_search() {
    assert_eq!(join_path("/s", ".gpg-id"), "/s/.gpg-id");
    assert_eq!(join_path("/s/", ".gpg-id"), "/s/.gpg-id");
    assert_eq!(get_closest_gpg_id("/s/", false, "/s"), GpgIdSearch::Done(Ok("/s/.gpg-id".to_string())));
    assert_eq!(get_closest_gpg_id("/s/a.gpg", true, "/s"), GpgIdSearch::Done(Ok("/s/.gpg-id".to_string())));
    assert_eq!(get_closest_gpg_id("/s/web/a.gpg", true, "/s"), GpgIdSearch::LookIn("/s/web".to_string()));
    assert_eq!(gpg_id_search_next("/s/web", None, "/s"), GpgIdSearch::Done(Ok("/s/.gpg-id".to_string())));
    assert_eq!(
        gpg_id_search_next("/s/web", Some("/s/web/.gpg-id".to_string()), "/s"),
        GpgIdSearch::Done(Ok("/s/web/.gpg-id".to_string()))
    );
    assert_eq!(
        gpg_id_search_next("/", None, "/s"),
        GpgIdSearch::Done(Err(PassrsError::Plain("path's parent doesn't exist".to_string())))
    );
}

#[test]
fn copy_steps() {
    assert_eq!(copy_step(true, false, false, None, (1, 2)), Ok(CopyAction::File { create_dirs: true }));
    assert_eq!(copy_step(false, true, false, Some((1, 2)), (1, 2)), Err(PassrsError::SourceIsDestination));
    assert_eq!(copy_step(false, true, false, Some((1, 3)), (1, 2)), Ok(CopyAction::Folder));
    assert_eq!(copy_step(false, false, false, None, (1, 2)), Ok(CopyAction::Nothing));
}

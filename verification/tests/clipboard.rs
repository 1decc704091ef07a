use passrs::clipboard::{
    clear_command, clip_tool, copy_command, copy_tool, paste_command, paste_tool, unclip_args, x_selection, ClipTool,
};
use passrs::error::PassrsError;

#[test]
fn wayland_comes_before_x11() {
    assert_eq!(clip_tool(true, true), Some(ClipTool::Wayland));
    assert_eq!(clip_tool(false, true), Some(ClipTool::X11));
    assert_eq!(clip_tool(false, false), None);
    assert_eq!(copy_tool(false, false), Err(PassrsError::ClipFailed));
    assert_eq!(paste_tool(false, false), Err(PassrsError::PasteFailed));
}

#[test]
fn commands_and_arguments() {
    let (p, a) = copy_command(ClipTool::X11, "primary");
    assert_eq!(p, "xclip");
    assert_eq!(a, vec!["-in", "-selection", "primary"]);
    let (p, a) = copy_command(ClipTool::Wayland, "clipboard");
    assert_eq!(p, "wl-copy");
    assert_eq!(a, vec!["--trim-newline"]);
    let (p, a) = paste_command(ClipTool::Wayland, "clipboard");
    assert_eq!((p.as_str(), a), ("wl-paste", vec!["--no-newline".to_string()]));
    let (p, a) = paste_command(ClipTool::X11, "clipboard");
    assert_eq!((p.as_str(), a), ("xclip", vec!["-out".to_string(), "-selection".to_string(), "clipboard".to_string()]));
    let (p, a) = clear_command(ClipTool::Wayland, "clipboard");
    assert_eq!((p.as_str(), a), ("wl-copy", vec!["--clear".to_string()]));
}

#[test]
fn selections() {
    assert_eq!(x_selection(None), "clipboard");
    assert_eq!(x_selection(Some("p")), "p");
    assert_eq!(x_selection(Some("secondary")), "secondary");
    assert_eq!(x_selection(Some("other")), "clipboard");
}

#[test]
fn unclip_arguments() {
    assert_eq!(unclip_args("45", false), vec!["unclip", "45", "--"]);
    assert_eq!(unclip_args("10", true), vec!["unclip", "10", "--force"]);
}

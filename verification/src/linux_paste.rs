//! Which command-line tools deliver recognized text on Linux: one that puts
//! it on the clipboard, and one that types the paste shortcut.
use vstd::prelude::*;

verus! {

#[derive(Clone, Copy, Debug, PartialEq, Eq, Structural)]
pub enum LinuxClipboardTool {
    WlCopy,
    Xclip,
    Xsel,
}

#[derive(Clone, Copy, Debug, PartialEq, Eq, Structural)]
pub enum LinuxPasteTool {
    Ydotool,
    Xdotool,
}

/// Whether `available` may have answered `answer` for `tool`.
pub open spec fn answered<F: Fn(&str) -> bool>(available: F, tool: &str, answer: bool) -> bool {
    call_ensures(available, (tool,), answer)
}

/// The clipboard tool: `wl-copy` in a Wayland session, else `xclip`, else
/// `xsel`, each only when `available` reports it installed. Tools after the
/// chosen one are not asked about.
pub fn choose_linux_clipboard_tool<F: Fn(&str) -> bool>(wayland: bool, available: F) -> (r: Option<LinuxClipboardTool>)
    requires
        forall|tool: &str| call_requires(available, (tool,)),
    ensures
        r == Some(LinuxClipboardTool::WlCopy) ==> wayland && answered(available, "wl-copy", true),
        r == Some(LinuxClipboardTool::Xclip) ==> answered(available, "xclip", true)
            && (wayland ==> answered(available, "wl-copy", false)),
        r == Some(LinuxClipboardTool::Xsel) ==> answered(available, "xsel", true)
            && answered(available, "xclip", false)
            && (wayland ==> answered(available, "wl-copy", false)),
        r is None ==> answered(available, "xsel", false)
            && answered(available, "xclip", false)
            && (wayland ==> answered(available, "wl-copy", false)),
{
    if wayland && available("wl-copy") {
        return Some(LinuxClipboardTool::WlCopy);
    }
    if available("xclip") {
        return Some(LinuxClipboardTool::Xclip);
    }
    if available("xsel") {
        return Some(LinuxClipboardTool::Xsel);
    }
    None
}

/// The input injector: `ydotool`, which also works under Wayland, else
/// `xdotool`, each only when `available` reports it installed.
pub fn choose_linux_paste_tool<F: Fn(&str) -> bool>(available: F) -> (r: Option<LinuxPasteTool>)
    requires
        forall|tool: &str| call_requires(available, (tool,)),
    ensures
        r == Some(LinuxPasteTool::Ydotool) ==> answered(available, "ydotool", true),
        r == Some(LinuxPasteTool::Xdotool) ==> answered(available, "xdotool", true)
            && answered(available, "ydotool", false),
        r is None ==> answered(available, "xdotool", false) && answered(available, "ydotool", false),
{
    if available("ydotool") {
        return Some(LinuxPasteTool::Ydotool);
    }
    if available("xdotool") {
        return Some(LinuxPasteTool::Xdotool);
    }
    None
}

} // verus!

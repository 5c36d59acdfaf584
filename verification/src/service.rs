//! Installing the server as a service of the system.
use vstd::prelude::*;

use crate::text::push_str;

verus! {

/// The name of the service.
pub const SERVICE_NAME: &'static str = "lsp-skill";

/// The label of the macOS agent.
pub const PLIST_LABEL: &'static str = "ru.infostart.lsp-skill";

pub open spec fn unit_head() -> Seq<char> {
    "[Unit]\nDescription=LSP Skill — менеджер BSL Language Server\nAfter=network.target\n\n[Service]\nType=simple\nExecStart="@
}

pub open spec fn unit_tail() -> Seq<char> {
    "\nRestart=on-failure\nRestartSec=5\n\n[Install]\nWantedBy=default.target\n"@
}

/// The systemd user unit that starts the server from `exe`.
pub fn systemd_unit(exe: &str) -> (r: String)
    ensures
        r@ == unit_head() + exe@ + unit_tail(),
{
    let mut r = "[Unit]\nDescription=LSP Skill — менеджер BSL Language Server\nAfter=network.target\n\n[Service]\nType=simple\nExecStart=".to_string();
    push_str(&mut r, exe);
    push_str(&mut r, "\nRestart=on-failure\nRestartSec=5\n\n[Install]\nWantedBy=default.target\n");
    r
}

/// The arguments of `systemctl` for the user's services.
pub fn systemctl_args(args: &Vec<&str>) -> (r: Vec<String>)
    ensures
        r@.len() == args@.len() + 1,
        r@[0]@ == "--user"@,
        forall|i: int| 0 <= i < args@.len() ==> (#[trigger] r@[i + 1])@ == args@[i]@,
{
    let mut r: Vec<String> = Vec::new();
    r.push("--user".to_string());
    let mut i: usize = 0;
    while i < args.len()
        invariant
            i <= args@.len(),
            r@.len() == i + 1,
            r@[0]@ == "--user"@,
            forall|j: int| 0 <= j < i ==> (#[trigger] r@[j + 1])@ == args@[j]@,
        decreases args@.len() - i,
    {
        r.push(args[i].to_string());
        i = i + 1;
    }
    r
}

pub open spec fn plist_text(label: Seq<char>, exe: Seq<char>) -> Seq<char> {
    "<?xml version=\"1.0\" encoding=\"UTF-8\"?>\n<!DOCTYPE plist PUBLIC \"-//Apple//DTD PLIST 1.0//EN\" \"https://www.apple.com/DTDs/PropertyList-1.0.dtd\">\n<plist version=\"1.0\">\n<dict>\n    <key>Label</key>\n    <string>"@
        + label + "</string>\n    <key>ProgramArguments</key>\n    <array>\n        <string>"@ + exe
        + "</string>\n    </array>\n    <key>RunAtLoad</key>\n    <true/>\n    <key>KeepAlive</key>\n    <true/>\n    <key>StandardOutPath</key>\n    <string>/tmp/"@
        + label + ".out.log</string>\n    <key>StandardErrorPath</key>\n    <string>/tmp/"@ + label
        + ".err.log</string>\n</dict>\n</plist>\n"@
}

/// The launchd agent that starts the server from `exe` at login and keeps
/// it running.
pub fn launchd_plist(exe: &str) -> (r: String)
    ensures
        r@ == plist_text(PLIST_LABEL@, exe@),
{
    let mut r = "<?xml version=\"1.0\" encoding=\"UTF-8\"?>\n<!DOCTYPE plist PUBLIC \"-//Apple//DTD PLIST 1.0//EN\" \"https://www.apple.com/DTDs/PropertyList-1.0.dtd\">\n<plist version=\"1.0\">\n<dict>\n    <key>Label</key>\n    <string>".to_string();
    push_str(&mut r, PLIST_LABEL);
    push_str(&mut r, "</string>\n    <key>ProgramArguments</key>\n    <array>\n        <string>");
    push_str(&mut r, exe);
    push_str(&mut r, "</string>\n    </array>\n    <key>RunAtLoad</key>\n    <true/>\n    <key>KeepAlive</key>\n    <true/>\n    <key>StandardOutPath</key>\n    <string>/tmp/");
    push_str(&mut r, PLIST_LABEL);
    push_str(&mut r, ".out.log</string>\n    <key>StandardErrorPath</key>\n    <string>/tmp/");
    push_str(&mut r, PLIST_LABEL);
    push_str(&mut r, ".err.log</string>\n</dict>\n</plist>\n");
    r
}

/// Installing the service where the system has no service manager the
/// server knows.
pub fn install() -> (r: Result<(), String>)
    ensures
        r matches Err(e) && e@ == "установка службы не поддерживается на этой платформе"@,
{
    Err("установка службы не поддерживается на этой платформе".to_string())
}

/// Removing the service where the system has no service manager the server
/// knows.
pub fn uninstall() -> (r: Result<(), String>)
    ensures
        r matches Err(e) && e@ == "удаление службы не поддерживается на этой платформе"@,
{
    Err("удаление службы не поддерживается на этой платформе".to_string())
}

/// The status of the service where the system has no service manager the
/// server knows.
pub fn status() -> (r: Result<(), String>)
    ensures
        r matches Err(e) && e@ == "статус службы не поддерживается на этой платформе"@,
{
    Err("статус службы не поддерживается на этой платформе".to_string())
}

} // verus!

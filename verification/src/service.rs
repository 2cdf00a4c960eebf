//! Systemd user service management.
//!
//! `install` writes a unit file, reloads systemd, and enables+starts the service.
//! `uninstall` stops, disables, removes the unit file, and reloads.
//!
//! Both are plans: lists of steps for the caller to carry out in order.

use vstd::prelude::*;
use vstd::utf8::encode_utf8;

use crate::config::{dir_or, dir_or_default, path_message, user_config_dir};
use crate::path::{joined_text, lemma_plain_name, lossy_text, FilePath};
use crate::text::{join_strings, join_text, string_views, trim, trimmed};

verus! {

/// The name of the service.
pub const SERVICE_NAME: &'static str = "tor-js-gateway";

/// The directory of the user's units, where the user's configuration is in `dir`.
pub open spec fn units_directory(dir: Option<FilePath>) -> Seq<u8> {
    joined_text(dir_or(dir, "~/.config"@), "systemd/user"@)
}

/// The unit file of the service, where the user's configuration is in `dir`.
pub open spec fn unit_file(dir: Option<FilePath>) -> Seq<u8> {
    joined_text(units_directory(dir), SERVICE_NAME@ + ".service"@)
}

/// The directory of the user's units, where the user's configuration is in `dir`.
pub fn unit_dir_in(dir: Option<FilePath>) -> (r: FilePath)
    ensures
        r@ == units_directory(dir),
{
    dir_or_default(dir, "~/.config").join("systemd/user")
}

/// The unit file of the service, where the user's configuration is in `dir`.
pub fn unit_path_in(dir: Option<FilePath>) -> (r: FilePath)
    ensures
        r@ == unit_file(dir),
{
    let mut name = SERVICE_NAME.to_string();
    name.append(".service");
    unit_dir_in(dir).join(name.as_str())
}

/// The directory of the user's units.
pub fn unit_dir() -> (r: FilePath)
    ensures
        exists|dir: Option<FilePath>| r@ == #[trigger] units_directory(dir),
{
    unit_dir_in(user_config_dir())
}

/// The unit file of the service.
pub fn unit_path() -> (r: FilePath)
    ensures
        exists|dir: Option<FilePath>| r@ == #[trigger] unit_file(dir),
{
    unit_path_in(user_config_dir())
}

/// The text of the unit file: it starts `binary` with the configuration `config`.
pub open spec fn unit_text(binary: Seq<u8>, config: Seq<u8>) -> Seq<char> {
    "[Unit]\nDescription=tor-js-gateway — Tor gateway for browser clients\nAfter=network-online.target\nWants=network-online.target\n\n[Service]\nType=simple\nExecStart="@
        + lossy_text(binary) + " --config "@ + lossy_text(config)
        + " run\nRestart=on-failure\nRestartSec=10\n\n[Install]\nWantedBy=default.target\n"@
}

/// Writes the unit file.
pub fn generate_unit(binary: &FilePath, config: &FilePath) -> (r: String)
    ensures
        r@ == unit_text(binary@, config@),
{
    let mut r =
        "[Unit]\nDescription=tor-js-gateway — Tor gateway for browser clients\nAfter=network-online.target\nWants=network-online.target\n\n[Service]\nType=simple\nExecStart=".to_string();
    r.append(binary.display().as_str());
    r.append(" --config ");
    r.append(config.display().as_str());
    r.append(
        " run\nRestart=on-failure\nRestartSec=10\n\n[Install]\nWantedBy=default.target\n",
    );
    r
}

/// One step of a plan.
pub enum ServiceStep {
    /// Create a directory, with those above it.
    CreateDir(FilePath),
    /// Write a file.
    Write { path: FilePath, content: String },
    /// Remove a file.
    Remove(FilePath),
    /// Run `systemctl --user` with these arguments. A failure ends the plan only where the step
    /// is required.
    Systemctl { args: Vec<String>, required: bool },
    /// Tell the user.
    Print(String),
}

/// What a step says.
pub enum ServiceStepView {
    CreateDir(Seq<u8>),
    Write { path: Seq<u8>, content: Seq<char> },
    Remove(Seq<u8>),
    Systemctl { args: Seq<Seq<char>>, required: bool },
    Print(Seq<char>),
}

impl View for ServiceStep {
    type V = ServiceStepView;

    open spec fn view(&self) -> ServiceStepView {
        match self {
            ServiceStep::CreateDir(p) => ServiceStepView::CreateDir(p@),
            ServiceStep::Write { path, content } => ServiceStepView::Write {
                path: path@,
                content: content@,
            },
            ServiceStep::Remove(p) => ServiceStepView::Remove(p@),
            ServiceStep::Systemctl { args, required } => ServiceStepView::Systemctl {
                args: string_views(args@),
                required: *required,
            },
            ServiceStep::Print(s) => ServiceStepView::Print(s@),
        }
    }
}

/// The views of the steps of a plan.
pub open spec fn step_views(v: Seq<ServiceStep>) -> Seq<ServiceStepView> {
    v.map_values(|s: ServiceStep| s@)
}

/// The arguments that `systemctl` is run with: `--user`, then those given.
pub fn systemctl_args(args: &Vec<String>) -> (r: Vec<String>)
    ensures
        string_views(r@) == seq!["--user"@] + string_views(args@),
{
    let mut r: Vec<String> = Vec::new();
    r.push("--user".to_string());
    let n: usize = args.len();
    let mut i: usize = 0;
    assert(string_views(r@) =~= seq!["--user"@] + string_views(args@.take(0)));
    while i < n
        invariant
            i <= n,
            n == args@.len(),
            string_views(r@) == seq!["--user"@] + string_views(args@.take(i as int)),
        decreases n - i,
    {
        let ghost before = r@;
        r.push(args[i].clone());
        assert(string_views(r@) =~= string_views(before).push(args@[i as int]@));
        assert(string_views(args@.take(i + 1)) =~= string_views(args@.take(i as int)).push(
            args@[i as int]@,
        ));
        i += 1;
    }
    assert(args@.take(n as int) =~= args@);
    r
}

/// Judges a run of `systemctl` by its exit status; where it failed, the message has what it
/// wrote to its standard error.
pub fn systemctl(args: &Vec<String>, success: bool, stderr: &Vec<u8>) -> (r: Result<(), String>)
    ensures
        match r {
            Ok(_) => success,
            Err(m) => !success && m@ == "systemctl --user "@ + join_text(string_views(args@), " "@)
                + " failed: "@ + trimmed(lossy_text(stderr@)),
        },
{
    if success {
        return Ok(());
    }
    let mut m = "systemctl --user ".to_string();
    m.append(join_strings(args, " ").as_str());
    m.append(" failed: ");
    let shown = FilePath::lossy(stderr);
    m.append(trim(shown.as_str()));
    Err(m)
}

/// The steps that install the service.
pub open spec fn install_steps(dir: Option<FilePath>, binary: Seq<u8>, config: Seq<u8>) -> Seq<
    ServiceStepView,
> {
    seq![
        ServiceStepView::CreateDir(units_directory(dir)),
        ServiceStepView::Write { path: unit_file(dir), content: unit_text(binary, config) },
        ServiceStepView::Print("Wrote "@ + lossy_text(unit_file(dir))),
        ServiceStepView::Systemctl { args: seq!["daemon-reload"@], required: true },
        ServiceStepView::Systemctl { args: seq!["enable"@, SERVICE_NAME@], required: true },
        ServiceStepView::Systemctl { args: seq!["start"@, SERVICE_NAME@], required: true },
        ServiceStepView::Print("Service tor-js-gateway installed and started."@),
        ServiceStepView::Print(""@),
        ServiceStepView::Print("  systemctl --user status tor-js-gateway"@),
        ServiceStepView::Print("  journalctl --user -u tor-js-gateway -f"@),
        ServiceStepView::Print("  systemctl --user restart tor-js-gateway"@),
    ]
}

/// The steps that stop the service, before its unit file is looked for. The service may not be
/// running, so a failure does not matter.
pub open spec fn stop_steps() -> Seq<ServiceStepView> {
    seq![
        ServiceStepView::Systemctl { args: seq!["stop"@, SERVICE_NAME@], required: false },
        ServiceStepView::Systemctl { args: seq!["disable"@, SERVICE_NAME@], required: false },
    ]
}

/// The steps that remove the service once it is stopped.
pub open spec fn remove_steps(dir: Option<FilePath>, present: bool) -> Seq<ServiceStepView> {
    (if present {
        seq![
            ServiceStepView::Remove(unit_file(dir)),
            ServiceStepView::Print("Removed "@ + lossy_text(unit_file(dir))),
        ]
    } else {
        seq![ServiceStepView::Print("No unit file at "@ + lossy_text(unit_file(dir)))]
    }) + seq![
        ServiceStepView::Systemctl { args: seq!["daemon-reload"@], required: true },
        ServiceStepView::Print("Service tor-js-gateway uninstalled."@),
    ]
}

fn run_systemctl(first: &str, second: Option<&str>, required: bool) -> (r: ServiceStep)
    ensures
        r@ == (ServiceStepView::Systemctl {
            args: match second {
                Some(s) => seq![first@, s@],
                None => seq![first@],
            },
            required,
        }),
{
    let mut args: Vec<String> = Vec::new();
    args.push(first.to_string());
    if let Some(s) = second {
        args.push(s.to_string());
        assert(string_views(args@) =~= seq![first@, s@]);
    } else {
        assert(string_views(args@) =~= seq![first@]);
    }
    ServiceStep::Systemctl { args, required }
}

fn print_path(words: &str, path: &FilePath) -> (r: ServiceStep)
    ensures
        r@ == ServiceStepView::Print(words@ + lossy_text(path@)),
{
    let m = path_message(words, path, "");
    proof {
        reveal_strlit("");
        assert(m@ =~= words@ + lossy_text(path@));
    }
    ServiceStep::Print(m)
}

/// Plans the installation of the service that starts `binary` with `config`, where the user's
/// configuration is in `dir`. Errors if there is no file at `config`.
pub fn install_in(
    dir: Option<FilePath>,
    binary: &FilePath,
    config: &FilePath,
    config_exists: bool,
) -> (r: Result<Vec<ServiceStep>, String>)
    ensures
        match r {
            Ok(steps) => config_exists && step_views(steps@) == install_steps(
                dir,
                binary@,
                config@,
            ),
            Err(m) => !config_exists && m@ == "config not found at "@ + lossy_text(config@)
                + "\nRun `tor-js-gateway init` first."@,
        },
{
    if !config_exists {
        return Err(
            path_message("config not found at ", config, "\nRun `tor-js-gateway init` first."),
        );
    }
    let copy = match &dir {
        Some(d) => Some(d.copy()),
        None => None,
    };
    let units = unit_dir_in(copy);
    let path = unit_path_in(dir);
    let mut steps: Vec<ServiceStep> = Vec::new();
    steps.push(ServiceStep::CreateDir(units));
    steps.push(
        ServiceStep::Write { path: path.copy(), content: generate_unit(binary, config) },
    );
    steps.push(print_path("Wrote ", &path));
    steps.push(run_systemctl("daemon-reload", None, true));
    steps.push(run_systemctl("enable", Some(SERVICE_NAME), true));
    steps.push(run_systemctl("start", Some(SERVICE_NAME), true));
    steps.push(ServiceStep::Print("Service tor-js-gateway installed and started.".to_string()));
    steps.push(ServiceStep::Print("".to_string()));
    steps.push(ServiceStep::Print("  systemctl --user status tor-js-gateway".to_string()));
    steps.push(ServiceStep::Print("  journalctl --user -u tor-js-gateway -f".to_string()));
    steps.push(ServiceStep::Print("  systemctl --user restart tor-js-gateway".to_string()));
    assert(step_views(steps@) =~= install_steps(dir, binary@, config@));
    Ok(steps)
}

/// Plans the installation of the service. Errors if there is no file at `config`.
pub fn install(binary: &FilePath, config: &FilePath, config_exists: bool) -> (r: Result<
    Vec<ServiceStep>,
    String,
>)
    ensures
        match r {
            Ok(steps) => config_exists && exists|dir: Option<FilePath>|
                step_views(steps@) == #[trigger] install_steps(dir, binary@, config@),
            Err(m) => !config_exists && m@ == "config not found at "@ + lossy_text(config@)
                + "\nRun `tor-js-gateway init` first."@,
        },
{
    install_in(user_config_dir(), binary, config, config_exists)
}

/// Plans how the service is stopped, before its unit file is looked for.
pub fn stop() -> (r: Vec<ServiceStep>)
    ensures
        step_views(r@) == stop_steps(),
{
    let mut steps: Vec<ServiceStep> = Vec::new();
    steps.push(run_systemctl("stop", Some(SERVICE_NAME), false));
    steps.push(run_systemctl("disable", Some(SERVICE_NAME), false));
    assert(step_views(steps@) =~= stop_steps());
    steps
}

/// Plans the removal of the stopped service, where the user's configuration is in `dir`.
/// `present` says whether there is a unit file.
pub fn uninstall_in(dir: Option<FilePath>, present: bool) -> (r: Vec<ServiceStep>)
    ensures
        step_views(r@) == remove_steps(dir, present),
{
    let path = unit_path_in(dir);
    let mut steps: Vec<ServiceStep> = Vec::new();
    if present {
        steps.push(ServiceStep::Remove(path.copy()));
        steps.push(print_path("Removed ", &path));
    } else {
        steps.push(print_path("No unit file at ", &path));
    }
    steps.push(run_systemctl("daemon-reload", None, true));
    steps.push(ServiceStep::Print("Service tor-js-gateway uninstalled.".to_string()));
    assert(step_views(steps@) =~= remove_steps(dir, present));
    steps
}

/// Plans the removal of the stopped service. `present` says whether there is a unit file.
pub fn uninstall(present: bool) -> (r: Vec<ServiceStep>)
    ensures
        exists|dir: Option<FilePath>| step_views(r@) == #[trigger] remove_steps(dir, present),
{
    uninstall_in(user_config_dir(), present)
}

/// The file that `uninstall` removes is the one that `install` wrote.
pub proof fn law_uninstall_removes_what_install_wrote(
    dir: Option<FilePath>,
    binary: Seq<u8>,
    config: Seq<u8>,
)
    ensures
        exists|path: Seq<u8>, content: Seq<char>|
            #[trigger] install_steps(dir, binary, config).contains(
                ServiceStepView::Write { path, content },
            ) && remove_steps(dir, true)[0] == ServiceStepView::Remove(path),
{
    let w = ServiceStepView::Write { path: unit_file(dir), content: unit_text(binary, config) };
    assert(install_steps(dir, binary, config)[1] == w);
    assert(install_steps(dir, binary, config).contains(w));
    assert(remove_steps(dir, true)[0] == ServiceStepView::Remove(unit_file(dir)));
}

/// The unit file is in the directory of the user's units, which is in that of the user's
/// configuration.
pub proof fn law_unit_place(d: FilePath)
    requires
        d@.len() > 0,
        d@.last() != 47,
    ensures
        units_directory(Some(d)) == d@ + seq![47u8] + encode_utf8("systemd/user"@),
        unit_file(Some(d)) == units_directory(Some(d)) + seq![47u8] + encode_utf8(
            "tor-js-gateway.service"@,
        ),
        d@ == encode_utf8("~/.config"@) ==> unit_file(None) == unit_file(Some(d))
            && units_directory(None) == units_directory(Some(d)),
{
    reveal_strlit("systemd/user");
    reveal_strlit("tor-js-gateway");
    reveal_strlit(".service");
    reveal_strlit("tor-js-gateway.service");
    assert("tor-js-gateway"@ + ".service"@ =~= "tor-js-gateway.service"@);
    lemma_plain_name(d@, "systemd/user"@);
    lemma_plain_name(units_directory(Some(d)), "tor-js-gateway.service"@);
}

/// Whatever the binary and the configuration are, the unit starts that binary with that
/// configuration, and is otherwise the same.
pub proof fn law_unit_starts_binary() -> (r: (Seq<char>, Seq<char>))
    ensures
        forall|binary: Seq<u8>, config: Seq<u8>| #[trigger]
            unit_text(binary, config) == r.0 + "\nExecStart="@ + lossy_text(binary) + " --config "@
                + lossy_text(config) + " run\n"@ + r.1,
{
    let before =
        "[Unit]\nDescription=tor-js-gateway — Tor gateway for browser clients\nAfter=network-online.target\nWants=network-online.target\n\n[Service]\nType=simple"@;
    let after = "Restart=on-failure\nRestartSec=10\n\n[Install]\nWantedBy=default.target\n"@;
    reveal_strlit("\nExecStart=");
    reveal_strlit(" run\n");
    reveal_strlit(
        "[Unit]\nDescription=tor-js-gateway — Tor gateway for browser clients\nAfter=network-online.target\nWants=network-online.target\n\n[Service]\nType=simple",
    );
    reveal_strlit(
        "[Unit]\nDescription=tor-js-gateway — Tor gateway for browser clients\nAfter=network-online.target\nWants=network-online.target\n\n[Service]\nType=simple\nExecStart=",
    );
    reveal_strlit("Restart=on-failure\nRestartSec=10\n\n[Install]\nWantedBy=default.target\n");
    reveal_strlit(
        " run\nRestart=on-failure\nRestartSec=10\n\n[Install]\nWantedBy=default.target\n",
    );
    assert(before + "\nExecStart="@ =~=
        "[Unit]\nDescription=tor-js-gateway — Tor gateway for browser clients\nAfter=network-online.target\nWants=network-online.target\n\n[Service]\nType=simple\nExecStart="@);
    assert(" run\n"@ + after =~=
        " run\nRestart=on-failure\nRestartSec=10\n\n[Install]\nWantedBy=default.target\n"@);
    assert forall|binary: Seq<u8>, config: Seq<u8>| #[trigger]
        unit_text(binary, config) == before + "\nExecStart="@ + lossy_text(binary) + " --config "@
            + lossy_text(config) + " run\n"@ + after by {
        assert(unit_text(binary, config) =~= before + "\nExecStart="@ + lossy_text(binary)
            + " --config "@ + lossy_text(config) + (" run\n"@ + after));
    }
    (before, after)
}

/// An installation makes the directory of the unit file, writes the unit file, and only then has
/// systemd reload, enable and start the service, each of which has to succeed; it touches no other
/// file. A removal stops and disables the service, which need not be there, removes the unit file
/// where there is one and nothing else, and has systemd reload.
pub proof fn law_plans(dir: Option<FilePath>, binary: Seq<u8>, config: Seq<u8>, i: int)
    ensures
        ({
            let steps = install_steps(dir, binary, config);
            &&& steps[0] == ServiceStepView::CreateDir(units_directory(dir))
            &&& steps[1] == (ServiceStepView::Write {
                path: unit_file(dir),
                content: unit_text(binary, config),
            })
            &&& steps[3] == (ServiceStepView::Systemctl {
                args: seq!["daemon-reload"@],
                required: true,
            })
            &&& steps[4] == (ServiceStepView::Systemctl {
                args: seq!["enable"@, "tor-js-gateway"@],
                required: true,
            })
            &&& steps[5] == (ServiceStepView::Systemctl {
                args: seq!["start"@, "tor-js-gateway"@],
                required: true,
            })
            &&& 0 <= i < steps.len() && i != 0 && i != 1 && !(3 <= i <= 5) ==> steps[i] is Print
            &&& steps.len() > 6
        }),
        stop_steps() == seq![
            ServiceStepView::Systemctl { args: seq!["stop"@, "tor-js-gateway"@], required: false },
            ServiceStepView::Systemctl {
                args: seq!["disable"@, "tor-js-gateway"@],
                required: false,
            },
        ],
        ({
            let steps = remove_steps(dir, true);
            &&& steps.len() == 4
            &&& steps[0] == ServiceStepView::Remove(unit_file(dir))
            &&& steps[1] is Print
            &&& steps[2] == (ServiceStepView::Systemctl {
                args: seq!["daemon-reload"@],
                required: true,
            })
            &&& steps[3] is Print
        }),
        ({
            let steps = remove_steps(dir, false);
            &&& steps.len() == 3
            &&& steps[0] is Print
            &&& steps[1] == (ServiceStepView::Systemctl {
                args: seq!["daemon-reload"@],
                required: true,
            })
            &&& steps[2] is Print
        }),
{
}

/// What the steps of a plan say is what they hold, whole and in order.
pub proof fn law_step_views(steps: Seq<ServiceStep>, i: int)
    ensures
        step_views(steps).len() == steps.len(),
        0 <= i < steps.len() ==> step_views(steps)[i] == (match steps[i] {
            ServiceStep::CreateDir(p) => ServiceStepView::CreateDir(p@),
            ServiceStep::Write { path, content } => ServiceStepView::Write {
                path: path@,
                content: content@,
            },
            ServiceStep::Remove(p) => ServiceStepView::Remove(p@),
            ServiceStep::Systemctl { args, required } => ServiceStepView::Systemctl {
                args: string_views(args@),
                required,
            },
            ServiceStep::Print(text) => ServiceStepView::Print(text@),
        }),
{
}

} // verus!

//! Settings, paths and the service.

use tor_js_gateway::config::{
    config_path, config_path_in, data_dir_in, default_data_dir, Config, InitError, Loaded,
};
use tor_js_gateway::path::FilePath;
use tor_js_gateway::service::{
    generate_unit, install, install_in, stop, systemctl, systemctl_args, uninstall, uninstall_in,
    unit_dir, unit_dir_in, unit_path, unit_path_in, ServiceStep,
};
use tor_js_gateway::time::Duration;
use tor_js_gateway::ws_proxy::WsLimits;

fn path(text: &str) -> FilePath {
    FilePath::from_text(text)
}

fn strings(v: &[&str]) -> Vec<String> {
    v.iter().map(|s| s.to_string()).collect()
}

fn shown(step: &ServiceStep) -> String {
    match step {
        ServiceStep::CreateDir(p) => format!("create {}", p.display()),
        ServiceStep::Write { path, content } => format!("write {}: {}", path.display(), content),
        ServiceStep::Remove(p) => format!("remove {}", p.display()),
        ServiceStep::Systemctl { args, required } => {
            format!("systemctl {} {}", args.join(" "), required)
        }
        ServiceStep::Print(s) => format!("print {}", s),
    }
}

#[test]
fn paths_are_joined_with_one_separator() {
    assert_eq!(path("/a").join("b").bytes, b"/a/b".to_vec());
    assert_eq!(path("/a/").join("b").bytes, b"/a/b".to_vec());
    assert_eq!(path("").join("b").bytes, b"b".to_vec());
    assert_eq!(path("/a").join("/b").bytes, b"/b".to_vec());
    assert_eq!(path("/a").join("").bytes, b"/a/".to_vec());
    assert_eq!(path("/a").join("b").join("c").bytes, path("/a").join("b/c").bytes);
    assert_eq!(path("/a").copy().bytes, b"/a".to_vec());
}

#[test]
fn a_path_that_is_not_text_is_shown_with_replacements() {
    assert_eq!(path("/ä").display(), "/ä");
    assert_eq!(FilePath { bytes: vec![47, 255, 97] }.display(), "/\u{fffd}a");
    assert_eq!(FilePath::lossy(&vec![255]), "\u{fffd}");
}

#[test]
fn files_are_in_directories_of_the_program() {
    assert_eq!(
        config_path_in(Some(path("/home/u/.config"))).display(),
        "/home/u/.config/tor-js-gateway/config.json5"
    );
    assert_eq!(config_path_in(None).display(), "~/.config/tor-js-gateway/config.json5");
    assert_eq!(
        data_dir_in(Some(path("/home/u/.local/share"))).display(),
        "/home/u/.local/share/tor-js-gateway"
    );
    assert_eq!(data_dir_in(None).display(), "~/.local/share/tor-js-gateway");
    assert!(config_path().display().ends_with("/tor-js-gateway/config.json5"));
    assert!(default_data_dir().display().ends_with("/tor-js-gateway"));
}

#[test]
fn the_paths_are_those_of_the_user() {
    let config = dirs::config_dir().map(|d| d.join("tor-js-gateway").join("config.json5"));
    if let Some(p) = config {
        assert_eq!(config_path().display(), p.display().to_string());
    }
    let data = dirs::data_local_dir().map(|d| d.join("tor-js-gateway"));
    if let Some(p) = data {
        assert_eq!(default_data_dir().display(), p.display().to_string());
    }
}

#[test]
fn the_defaults_are_those_documented() {
    let c = Config::default();
    assert_eq!(c.data_dir.bytes, default_data_dir().bytes);
    assert_eq!(c.port, 42298);
    assert!(!c.allow_uncompressed);
    assert_eq!(c.ws_max_connections, 8192);
    assert_eq!(c.ws_per_ip_limit, 16);
    assert_eq!(c.ws_idle_timeout, 300);
    assert_eq!(c.ws_max_lifetime, 3600);
    let limits = c.ws_limits();
    let default = WsLimits::default();
    assert_eq!(limits.max_connections, default.max_connections);
    assert_eq!(limits.per_ip_limit, default.per_ip_limit);
    assert_eq!(limits.idle_timeout, Duration::from_secs(300));
    assert_eq!(limits.idle_timeout, default.idle_timeout);
    assert_eq!(limits.max_lifetime, Duration::from_secs(3600));
    assert_eq!(limits.max_lifetime, default.max_lifetime);
}

#[test]
fn the_written_config_has_comments_and_reads_back() {
    let c = Config::with_data_dir(path("/data/\"x\""));
    let text = c.to_json5().unwrap();
    assert_eq!(
        text,
        "{\n  // Directory for cached consensus data and bootstrap archives\n  \"data_dir\": \"/data/\\\"x\\\"\",\n\n  // HTTP server port (0 to disable)\n  \"port\": 42298,\n\n  // Serve uncompressed /bootstrap.zip (production should use /bootstrap.zip.br)\n  \"allow_uncompressed\": false,\n\n  // Max concurrent WebSocket relay connections\n  \"ws_max_connections\": 8192,\n\n  // Max WebSocket relay connections per client IP\n  \"ws_per_ip_limit\": 16,\n\n  // WebSocket relay idle timeout in seconds\n  \"ws_idle_timeout\": 300,\n\n  // WebSocket relay max connection lifetime in seconds\n  \"ws_max_lifetime\": 3600,\n}"
    );
    let read: serde_json::Value = json5::from_str(&text).unwrap();
    assert_eq!(read["data_dir"], "/data/\"x\"");
    assert_eq!(read["port"].as_f64(), Some(42298.0));
    assert_eq!(read["allow_uncompressed"], false);
    assert_eq!(read["ws_max_lifetime"].as_f64(), Some(3600.0));
    assert_eq!(read.as_object().unwrap().len(), 7);
}

#[test]
fn the_default_config_is_written_for_the_default_directory() {
    let text = Config::to_json5_with_comments().unwrap();
    assert_eq!(text, Config::default().to_json5().unwrap());
}

#[test]
fn a_data_directory_that_is_not_text_cannot_be_written() {
    let c = Config::with_data_dir(FilePath { bytes: vec![47, 255] });
    assert_eq!(c.to_json5(), None);
    match c.init_with(&path("/c"), false, None) {
        Err(InitError::DataDirNotText) => {}
        _ => panic!("written"),
    }
}

#[test]
fn a_config_that_cannot_be_read_says_how_to_create_one() {
    match Config::load(&path("/c.json5"), Loaded::Unreadable) {
        Err(m) => assert_eq!(
            m,
            "reading config at /c.json5\n\nRun `tor-js-gateway init` to create a default config."
        ),
        Ok(_) => panic!("loaded"),
    }
    match Config::load(&path("/c.json5"), Loaded::Malformed) {
        Err(m) => assert_eq!(m, "parsing /c.json5"),
        Ok(_) => panic!("loaded"),
    }
    match Config::load(&path("/c"), Loaded::Settings(Config::with_data_dir(path("/d")))) {
        Ok(c) => assert_eq!(c.data_dir.bytes, b"/d".to_vec()),
        Err(_) => panic!("not loaded"),
    }
}

#[test]
fn init_creates_the_config_once() {
    match Config::init(&path("/etc/x/config.json5"), false, Some(path("/etc/x"))) {
        Ok(plan) => {
            assert_eq!(plan.create_dir.unwrap().bytes, b"/etc/x".to_vec());
            assert_eq!(plan.content, Config::to_json5_with_comments().unwrap());
            assert_eq!(plan.done, "Created config at /etc/x/config.json5");
        }
        Err(_) => panic!("nothing to create"),
    }
    match Config::init(&path("/etc/x/config.json5"), true, Some(path("/etc/x"))) {
        Err(InitError::Exists(m)) => {
            assert_eq!(m, "config already exists at /etc/x/config.json5")
        }
        _ => panic!("created again"),
    }
}

#[test]
fn the_unit_starts_the_gateway_with_its_config() {
    let unit = generate_unit(&path("/usr/bin/gw"), &path("/etc/c.json5"));
    assert_eq!(
        unit,
        "[Unit]\nDescription=tor-js-gateway — Tor gateway for browser clients\nAfter=network-online.target\nWants=network-online.target\n\n[Service]\nType=simple\nExecStart=/usr/bin/gw --config /etc/c.json5 run\nRestart=on-failure\nRestartSec=10\n\n[Install]\nWantedBy=default.target\n"
    );
}

#[test]
fn the_unit_is_in_the_users_directory() {
    assert_eq!(unit_dir_in(Some(path("/h/.config"))).display(), "/h/.config/systemd/user");
    assert_eq!(unit_dir_in(None).display(), "~/.config/systemd/user");
    assert_eq!(
        unit_path_in(Some(path("/h/.config"))).display(),
        "/h/.config/systemd/user/tor-js-gateway.service"
    );
    assert!(unit_dir().display().ends_with("systemd/user"));
    assert_eq!(unit_path().bytes, unit_dir().join("tor-js-gateway.service").bytes);
}

#[test]
fn install_writes_enables_and_starts() {
    let steps =
        match install_in(Some(path("/h/.config")), &path("/bin/gw"), &path("/c.json5"), true) {
            Ok(steps) => steps,
            Err(m) => panic!("{}", m),
        };
    let all: Vec<String> = steps.iter().map(shown).collect();
    let unit = generate_unit(&path("/bin/gw"), &path("/c.json5"));
    let file = "/h/.config/systemd/user/tor-js-gateway.service";
    assert_eq!(
        all,
        vec![
            "create /h/.config/systemd/user".to_string(),
            format!("write {}: {}", file, unit),
            format!("print Wrote {}", file),
            "systemctl daemon-reload true".to_string(),
            "systemctl enable tor-js-gateway true".to_string(),
            "systemctl start tor-js-gateway true".to_string(),
            "print Service tor-js-gateway installed and started.".to_string(),
            "print ".to_string(),
            "print   systemctl --user status tor-js-gateway".to_string(),
            "print   journalctl --user -u tor-js-gateway -f".to_string(),
            "print   systemctl --user restart tor-js-gateway".to_string(),
        ]
    );
}

#[test]
fn install_needs_a_config() {
    match install(&path("/bin/gw"), &path("/c.json5"), false) {
        Err(m) => {
            assert_eq!(m, "config not found at /c.json5\nRun `tor-js-gateway init` first.")
        }
        Ok(_) => panic!("installed"),
    }
    assert!(install(&path("/bin/gw"), &path("/c.json5"), true).is_ok());
}

#[test]
fn uninstall_removes_what_install_wrote() {
    let all: Vec<String> = stop().iter().map(shown).collect();
    assert_eq!(
        all,
        vec!["systemctl stop tor-js-gateway false", "systemctl disable tor-js-gateway false"]
    );
    let file = "/h/.config/systemd/user/tor-js-gateway.service";
    let all: Vec<String> =
        uninstall_in(Some(path("/h/.config")), true).iter().map(shown).collect();
    assert_eq!(
        all,
        vec![
            format!("remove {}", file),
            format!("print Removed {}", file),
            "systemctl daemon-reload true".to_string(),
            "print Service tor-js-gateway uninstalled.".to_string(),
        ]
    );
    let all: Vec<String> =
        uninstall_in(Some(path("/h/.config")), false).iter().map(shown).collect();
    assert_eq!(all[0], format!("print No unit file at {}", file));
    assert_eq!(all.len(), 3);
    assert_eq!(uninstall(true).len(), 4);
}

#[test]
fn a_failure_of_systemctl_is_reported() {
    assert_eq!(systemctl_args(&strings(&["enable", "x"])), strings(&["--user", "enable", "x"]));
    assert_eq!(systemctl(&strings(&["enable", "x"]), true, &vec![255]), Ok(()));
    assert_eq!(
        systemctl(&strings(&["enable", "x"]), false, &b"  no such unit \n".to_vec()),
        Err("systemctl --user enable x failed: no such unit".to_string())
    );
    assert_eq!(
        systemctl(&strings(&["start"]), false, &vec![97, 255]),
        Err("systemctl --user start failed: a\u{fffd}".to_string())
    );
}

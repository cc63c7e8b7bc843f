use venv_rs::app::{clamp_index, half_page_down_index, half_page_up_index, Output, Panel};
use venv_rs::commands::{venvs_scan_path, Cli, Kind};
use venv_rs::fstree::{search_venvs, FsNode};
use venv_rs::shell::{win_escape, LinuxActivation, Settings, Shell, WindowsActivation};
use venv_rs::shell::ExtraFeatures;

#[test]
fn shell_activation_commands() {
    assert_eq!(Shell::ZSH.activation("/v/env/bin"), "source /v/env/bin/activate");
    assert_eq!(Shell::BASH.activation("/v/env/bin"), "source /v/env/bin/activate");
    assert_eq!(
        Shell::FISH.activation("/v/env/bin"),
        "source /v/env/bin/activate.fish"
    );
    assert_eq!(
        Shell::CSH.activation("/v/env/bin"),
        "source /v/env/bin/activate.csh"
    );
    assert_eq!(Shell::PWSH.activation("/v/env/bin"), "/v/env/bin/Activate.ps1");
    assert_eq!(Shell::CMD.activation("C:\\env"), "C:\\env\\activate.bat");
    assert_eq!(
        Shell::POWERSHELL.activation("C:\\env"),
        "C:\\env\\Activate.ps1"
    );
}

#[test]
fn shell_variants_are_complete() {
    let v = Shell::variants();
    assert_eq!(
        v,
        vec!["zsh", "bash", "fish", "csh", "tsch", "pwsh", "cmd", "powershell"]
    );
}

#[test]
fn shell_try_from_names() {
    assert_eq!(Shell::try_from("zsh".to_string()), Ok(Shell::ZSH));
    assert_eq!(Shell::try_from("BASH".to_string()), Ok(Shell::BASH));
    assert_eq!(Shell::try_from("Fish".to_string()), Ok(Shell::FISH));
    assert_eq!(Shell::try_from("cmd".to_string()), Ok(Shell::CMD));
    assert_eq!(
        Shell::try_from("powershell".to_string()),
        Ok(Shell::POWERSHELL)
    );
    let err = Shell::try_from("nushell".to_string()).unwrap_err();
    assert!(err.starts_with("nushell is not a valid shell."));
}

#[test]
fn windows_command_is_escaped_outside_native_shells() {
    let act = WindowsActivation { shell: Shell::BASH };
    assert_eq!(
        act.command_text("C:/env/bin"),
        "source C:\\\\env\\\\bin\\\\activate"
    );
    let native = WindowsActivation { shell: Shell::CMD };
    assert_eq!(native.command_text("C:\\env"), "C:\\env\\activate.bat");
    assert_eq!(win_escape("a/b\\c"), "a\\\\b\\\\c");
}

#[test]
fn linux_command_is_plain() {
    let act = LinuxActivation {
        shell: Shell::ZSH,
        config: Settings {
            shell: Shell::ZSH,
            venvs_dir: None,
            extra: ExtraFeatures { use_xclip: true },
        },
    };
    assert_eq!(act.command_text("/v/env/bin"), "source /v/env/bin/activate");
}

#[test]
fn selection_arithmetic() {
    assert_eq!(half_page_down_index(0, 10), 5);
    assert_eq!(half_page_down_index(7, 10), 9);
    assert_eq!(half_page_down_index(0, 0), 0);
    assert_eq!(half_page_up_index(7, 10), 2);
    assert_eq!(half_page_up_index(3, 10), 0);
    assert_eq!(half_page_up_index(20, 10), 9);
    assert_eq!(clamp_index(4, 3), 2);
    assert_eq!(clamp_index(1, 3), 1);
    assert_eq!(clamp_index(0, 0), 0);
    let _ = Panel::Venv;
    let _ = Output::Quiet;
}

#[test]
fn venvs_scan_path_resolution() {
    let cli = Cli {
        kind: Kind::Venvs { path: None },
        shell: None,
    };
    assert!(matches!(cli.kind, Kind::Venvs { .. }));
    assert_eq!(
        venvs_scan_path(Some("/given".to_string()), &Some("/cfg".to_string())).unwrap(),
        "/given"
    );
    assert_eq!(
        venvs_scan_path(None, &Some("/cfg".to_string())).unwrap(),
        "/cfg"
    );
    assert!(venvs_scan_path(None, &None).is_err());
}

#[test]
fn search_finds_marked_roots() {
    let tree = FsNode::Dir {
        name: "projects".to_string(),
        mtime: 0,
        entries: vec![
            FsNode::Dir {
                name: "one".to_string(),
                mtime: 0,
                entries: vec![FsNode::File {
                    name: "pyvenv.cfg".to_string(),
                    size: 3,
                    mtime: 0,
                    content: None,
                }],
            },
            FsNode::Dir {
                name: "two".to_string(),
                mtime: 0,
                entries: vec![FsNode::Dir {
                    name: "inner".to_string(),
                    mtime: 0,
                    entries: vec![FsNode::File {
                        name: "pyvenv.cfg".to_string(),
                        size: 3,
                        mtime: 0,
                        content: None,
                    }],
                }],
            },
            FsNode::File {
                name: "README".to_string(),
                size: 1,
                mtime: 0,
                content: None,
            },
        ],
    };
    let roots = search_venvs(&tree, "/projects");
    assert_eq!(
        roots,
        vec!["/projects/one".to_string(), "/projects/two/inner".to_string()]
    );
}

#[test]
fn venv_paths_and_requirements() {
    let venv = venv_rs::model::Venv::new(
        "env",
        "3.12".to_string(),
        0,
        vec![],
        0,
        "/v/env/bin".to_string(),
        "/v/env".to_string(),
    );
    assert_eq!(venv.activation_path(), "/v/env/bin");
    // joining onto the absolute binaries path keeps only it
    assert_eq!(venv.requirements(), "/v/env/bin/python");
}

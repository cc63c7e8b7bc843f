use venv_rs::fstree::FsNode;
use venv_rs::parser::{parse_metadata, Platform, VenvParser};
use venv_rs::VenvError;

fn file(name: &str, size: u64, mtime: u64, content: Option<&str>) -> FsNode {
    FsNode::File {
        name: name.to_string(),
        size,
        mtime,
        content: content.map(|c| c.to_string()),
    }
}

fn dir(name: &str, mtime: u64, entries: Vec<FsNode>) -> FsNode {
    FsNode::Dir {
        name: name.to_string(),
        mtime,
        entries,
    }
}

fn pip_venv_tree() -> FsNode {
    let pyvenv_cfg_contents = "home = /usr/local/bin\ninclude-system-site-packages = false\nversion = 3.13.2\nexecutable = /usr/local/bin/python3.13\ncommand = /usr/local/bin/python3 -m venv /home/user/projects/python/imgs/fdmp\n";
    let pip_metadata = "Metadata-Version: 2.4\nName: pip\nVersion: 25.1.1\nSummary: The PyPA recommended tool for installing Python packages.\nLicense: MIT\nRequires-Python: >=3.9\nDescription-Content-Type: text/x-rst\nLicense-File: LICENSE.txt\nLicense-File: AUTHORS.txt\nDynamic: license-file\n\n";

    dir(
        "fdmp",
        10,
        vec![
            file("pyvenv.cfg", 120, 10, Some(pyvenv_cfg_contents)),
            dir("bin", 10, vec![file("activate", 2000, 10, None)]),
            dir(
                "lib",
                10,
                vec![dir(
                    "python3.13",
                    10,
                    vec![dir(
                        "site-packages",
                        10,
                        vec![
                            dir("pip", 30, vec![file("__init__.py", 24, 30, None)]),
                            dir(
                                "pip-25.1.1.dist-info",
                                40,
                                vec![file("METADATA", 400, 40, Some(pip_metadata))],
                            ),
                        ],
                    )],
                )],
            ),
        ],
    )
}

#[test]
fn test_parse_metadata() {
    let mock_metadata_contents = "Metadata-Version: 2.4\nName: pillow\nVersion: 11.3.0\nSummary: Python Imaging Library (Fork)\nLicense-Expression: MIT-CMU\nRequires-Python: >=3.9\nDescription-Content-Type: text/markdown\nLicense-File: LICENSE\nProvides-Extra: docs\nRequires-Dist: furo; extra == \"docs\"\nRequires-Dist: olefile; extra == \"docs\"\nRequires-Dist: sphinx>=8.2; extra == \"docs\"\nRequires-Dist: pyarrow; extra == \"test-arrow\"\nDynamic: license-file\n\n";
    let dist_info = dir(
        "my_package-1.0.dist-info",
        5,
        vec![file("METADATA", 300, 5, Some(mock_metadata_contents))],
    );

    let metadata_result = parse_metadata(&dist_info);
    assert!(metadata_result.is_ok());
    let metadata = metadata_result.unwrap();

    assert_eq!(metadata.name, "pillow");
    assert_eq!(metadata.version, "11.3.0");
    assert_eq!(metadata.summary, "Python Imaging Library (Fork)");
    assert!(metadata.dependencies.is_some());
    assert!(metadata
        .dependencies
        .unwrap()
        .contains(&"pyarrow".to_string()));
}

#[test]
fn test_parse_metadata_file_not_found() {
    let non_existent = dir("non_existent.dist-info", 5, vec![]);
    let result = parse_metadata(&non_existent);
    assert!(result.is_err());
}

#[test]
fn test_parse_from_dir() {
    let tree = pip_venv_tree();
    let venv_result = VenvParser::parse_from_dir(
        tree,
        "/home/user/projects/python/imgs/fdmp".to_string(),
        Platform::Posix,
        1000,
    );
    assert!(venv_result.is_ok());
    let (venv, warnings) = venv_result.unwrap();

    assert_eq!(venv.name, "fdmp");
    assert_eq!(venv.version, "3.13.2");
    assert_eq!(venv.num_dist_info_packages, 1);
    assert_eq!(venv.packages.len(), 1);
    assert_eq!(venv.packages[0].name, "pip");
    assert_eq!(venv.packages[0].version, "25.1.1");
    assert_eq!(venv.binaries, "/home/user/projects/python/imgs/fdmp/bin");
    assert_eq!(venv.path, "/home/user/projects/python/imgs/fdmp");
    // package size: the pip directory plus its manifest directory
    assert_eq!(venv.packages[0].size, 24 + 400);
    // the manifest directory's own timestamp
    assert_eq!(venv.packages[0].last_modified, 40);
    // whole tree: cfg + activate + __init__.py + METADATA
    assert_eq!(venv.size, 120 + 2000 + 24 + 400);
    assert!(warnings.is_empty());
}

#[test]
fn parse_from_dir_missing_config_is_not_found() {
    let tree = dir("empty", 1, vec![]);
    let r = VenvParser::parse_from_dir(tree, "/tmp/empty".to_string(), Platform::Posix, 0);
    assert!(matches!(r, Err(VenvError::NotFound(_))));
}

#[test]
fn parse_from_dir_missing_version_is_parse_error() {
    let tree = dir(
        "v",
        1,
        vec![file("pyvenv.cfg", 10, 1, Some("home = /usr\n"))],
    );
    let r = VenvParser::parse_from_dir(tree, "/tmp/v".to_string(), Platform::Posix, 0);
    assert!(matches!(r, Err(VenvError::ParseError(_))));
}

#[test]
fn parse_from_dir_empty_site_packages_is_no_packages() {
    let tree = dir(
        "v",
        1,
        vec![
            file("pyvenv.cfg", 10, 1, Some("version = 3.11.0\n")),
            dir(
                "lib",
                1,
                vec![dir("python3.11", 1, vec![dir("site-packages", 1, vec![])])],
            ),
        ],
    );
    let r = VenvParser::parse_from_dir(tree, "/tmp/v".to_string(), Platform::Posix, 0);
    assert!(matches!(r, Err(VenvError::NoPackages)));
}

#[test]
fn parse_soft_fails_on_unreadable_metadata() {
    let tree = dir(
        "v",
        1,
        vec![
            file("pyvenv.cfg", 10, 1, Some("version = 3.11.0\n")),
            dir(
                "lib",
                1,
                vec![dir(
                    "python3.11",
                    1,
                    vec![dir(
                        "site-packages",
                        1,
                        vec![dir("broken-1.0.dist-info", 7, vec![])],
                    )],
                )],
            ),
        ],
    );
    let r = VenvParser::parse_from_dir(tree, "/tmp/v".to_string(), Platform::Posix, 99);
    let (venv, warnings) = r.unwrap();
    // the malformed package is reported, not fatal, and not counted
    assert_eq!(venv.packages.len(), 1);
    assert_eq!(venv.packages[0].name, "");
    assert_eq!(venv.num_dist_info_packages, 0);
    assert_eq!(warnings, vec!["broken-1.0.dist-info".to_string()]);
}

#[test]
fn pairing_robustness_scenario() {
    // one installed package with no manifest, one manifest with no package
    let dist_infos = vec!["lonely-2.0.dist-info".to_string()];
    let packages = vec!["orphan".to_string()];
    let pairs = venv_rs::utils::package_pairs(dist_infos, packages);
    assert_eq!(pairs.len(), 2);
    assert_eq!(pairs[0], (Some("orphan".to_string()), None));
    assert_eq!(
        pairs[1],
        (None, Some("lonely-2.0.dist-info".to_string()))
    );
    // and in a full parse the unmatched package is excluded from the count
    let tree = dir(
        "v",
        1,
        vec![
            file("pyvenv.cfg", 10, 1, Some("version = 3.11.0\n")),
            dir(
                "lib",
                1,
                vec![dir(
                    "python3.11",
                    1,
                    vec![dir(
                        "site-packages",
                        1,
                        vec![
                            dir("orphan", 3, vec![file("x.py", 5, 3, None)]),
                            dir(
                                "lonely-2.0.dist-info",
                                4,
                                vec![file("METADATA", 9, 4, Some("Name: lonely\nVersion: 2.0\n"))],
                            ),
                        ],
                    )],
                )],
            ),
        ],
    );
    let (venv, _) =
        VenvParser::parse_from_dir(tree, "/tmp/v".to_string(), Platform::Posix, 99).unwrap();
    assert_eq!(venv.packages.len(), 2);
    assert_eq!(venv.num_dist_info_packages, 1);
}

#[test]
fn recent_dist_info_modification_probes_manifests() {
    let tree = pip_venv_tree();
    let parser = VenvParser::new(
        tree,
        "/home/user/projects/python/imgs/fdmp".to_string(),
        Platform::Posix,
        0,
    );
    let t = parser.recent_dist_info_modification().unwrap();
    assert_eq!(t, 40);
}

#[test]
fn recent_dist_info_modification_fails_without_site_packages() {
    let parser = VenvParser::new(
        dir("gone", 1, vec![]),
        "/tmp/gone".to_string(),
        Platform::Posix,
        0,
    );
    assert!(matches!(
        parser.recent_dist_info_modification(),
        Err(VenvError::StaleProbeFailure(_))
    ));
}

#[test]
fn parse_metadata_error_carries_the_offending_directory() {
    let broken = dir("broken-1.0.dist-info", 2, vec![]);
    match parse_metadata(&broken) {
        Err(VenvError::NotFound(p)) => assert_eq!(p, "broken-1.0.dist-info"),
        other => panic!("expected a not-found error, got {other:?}"),
    }
}

#[test]
fn parse_from_dir_unreadable_config_is_io_error() {
    // the config entry exists but its text could not be read
    let tree = dir("v", 1, vec![file("pyvenv.cfg", 10, 1, None)]);
    let r = VenvParser::parse_from_dir(tree, "/tmp/v".to_string(), Platform::Posix, 0);
    assert!(matches!(r, Err(VenvError::IoError(_))));
}

#[test]
fn parse_from_dir_missing_site_packages_is_io_error() {
    let tree = dir(
        "v",
        1,
        vec![file("pyvenv.cfg", 10, 1, Some("version = 3.11.0\n"))],
    );
    let r = VenvParser::parse_from_dir(tree, "/tmp/v".to_string(), Platform::Posix, 0);
    assert!(matches!(r, Err(VenvError::IoError(_))));
}

#[test]
fn venv_name_is_the_path_stem() {
    let mk = |p: &str| VenvParser::new(dir("x", 0, vec![]), p.to_string(), Platform::Posix, 0);
    assert_eq!(mk("/home/user/.venvs/fdmp").venv_name(), "fdmp");
    // an extension-like suffix is stripped, a leading dot alone is not
    assert_eq!(mk("/home/user/env.2").venv_name(), "env");
    assert_eq!(mk("/home/user/.venv").venv_name(), ".venv");
    assert_eq!(mk("C:\\venvs\\demo").venv_name(), "demo");
}

#[test]
fn platform_layout_names() {
    let tree_win = dir(
        "w",
        1,
        vec![
            file("pyvenv.cfg", 10, 1, Some("version = 3.12.1\n")),
            dir(
                "Lib",
                1,
                vec![dir(
                    "site-packages",
                    1,
                    vec![dir(
                        "pip-24.0.dist-info",
                        2,
                        vec![file("METADATA", 5, 2, Some("Name: pip\nVersion: 24.0\n"))],
                    )],
                )],
            ),
        ],
    );
    let (venv, _) =
        VenvParser::parse_from_dir(tree_win, "C:\\venvs\\w".to_string(), Platform::Windows, 0)
            .unwrap();
    assert_eq!(venv.version, "3.12.1");
    assert_eq!(venv.binaries, "C:\\venvs\\w/Scripts");
    assert_eq!(venv.packages.len(), 1);
}

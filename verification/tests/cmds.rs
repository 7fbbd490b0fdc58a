use bvm::cmds::cmd_install::{
    asset_name, bun_arch_name, bun_os_name, find_asset, find_release, install_action, install_dir,
    is_bun_executable_entry, InstallAction,
};
use bvm::cmds::cmd_env::env_snippet;
use bvm::cmds::cmd_uninstall::{installed_dir_of, uninstall_version};
use bvm::cmds::cmd_use::activation_warning_needed;
use bvm::cmds::{cmd_env, cmd_install, cmd_list, cmd_uninstall, cmd_use, example, Commands};
use bvm::commands::env::render_env_snippet;

fn strings(items: &[&str]) -> Vec<String> {
    items.iter().map(|s| s.to_string()).collect()
}

#[test]
fn each_subcommand_picks_its_own() {
    let all = vec![
        Commands::Env(cmd_env::CliCommand {}),
        Commands::Install(cmd_install::CliCommand { version: "latest".to_string(), reinstall: true }),
        Commands::List(cmd_list::CliCommand {}),
        Commands::Uninstall(cmd_uninstall::CliCommand { version: "1.0.0".to_string() }),
        Commands::Use(cmd_use::CliCommand { version: None }),
        Commands::EXAMPLE(example::CliCommand {}),
    ];
    let picked: Vec<[bool; 6]> = all
        .iter()
        .map(|c| {
            [
                cmd_env::match_and_run(c).is_some(),
                cmd_install::match_and_run(c).is_some(),
                cmd_list::match_and_run(c).is_some(),
                cmd_uninstall::match_and_run(c).is_some(),
                cmd_use::match_and_run(c).is_some(),
                example::match_and_run(c).is_some(),
            ]
        })
        .collect();
    for (i, row) in picked.iter().enumerate() {
        for (j, hit) in row.iter().enumerate() {
            assert_eq!(*hit, i == j);
        }
    }
    let install = cmd_install::match_and_run(&all[1]).unwrap();
    assert_eq!((install.version.as_str(), install.reinstall), ("latest", true));
    assert_eq!(cmd_uninstall::match_and_run(&all[3]).unwrap().version, "1.0.0");
    example::run(example::match_and_run(&all[5]).unwrap());
}

#[test]
fn release_choice() {
    let tags = strings(&["canary", "bun-v1.1.0", "bun-v1.0.2", "bun-v0.8.1"]);
    assert_eq!(find_release("latest", &tags), Some(1));
    assert_eq!(find_release("1.0.2", &tags), Some(2));
    // a tag is chosen by containment: `bun-v1.1.0` contains `1.0`
    assert_eq!(find_release("1.0", &tags), Some(1));
    assert_eq!(find_release("0.8", &tags), Some(3));
    assert_eq!(find_release("canary", &tags), Some(0));
    assert_eq!(find_release("2.0", &tags), None);
    assert_eq!(find_release("latest", &strings(&["canary"])), None);
}

#[test]
fn system_names() {
    assert_eq!(bun_os_name("linux"), Some("linux".to_string()));
    assert_eq!(bun_os_name("macos"), Some("darwin".to_string()));
    assert_eq!(bun_os_name("windows"), None);
    assert_eq!(bun_arch_name("x86_64"), "x64");
    assert_eq!(bun_arch_name("aarch64"), "aarch64");
    assert_eq!(asset_name("linux", "x64"), "bun-linux-x64.zip");
}

#[test]
fn asset_choice() {
    let names = strings(&["bun-darwin-x64.zip", "bun-linux-x64.zip", "bun-linux-x64.zip"]);
    assert_eq!(find_asset(&names, "bun-linux-x64.zip"), Some(1));
    assert_eq!(find_asset(&names, "bun-linux-aarch64.zip"), None);
}

#[test]
fn archive_entries() {
    assert!(is_bun_executable_entry("bun-linux-x64/bun"));
    assert!(!is_bun_executable_entry("bun-linux-x64/bunx"));
    assert!(!is_bun_executable_entry("bun"));
    assert!(is_bun_executable_entry("/bun"));
}

#[test]
fn install_actions() {
    assert!(matches!(install_action(false, false), InstallAction::Install));
    assert!(matches!(install_action(false, true), InstallAction::Install));
    assert!(matches!(install_action(true, false), InstallAction::KeepInstalled));
    assert!(matches!(install_action(true, true), InstallAction::Reinstall));
    assert_eq!(install_dir("/d", "bun-v1.0.0"), "/d/versions/bun-v1.0.0");
}

#[test]
fn activation_warning() {
    assert!(activation_warning_needed(&None));
    assert!(activation_warning_needed(&Some(String::new())));
    assert!(activation_warning_needed(&Some("0".to_string())));
    assert!(!activation_warning_needed(&Some("1".to_string())));
}

#[test]
fn env_snippet_replaced() {
    assert_eq!(
        render_env_snippet("export PATH=\"{data_dir}/bin:$PATH\"\n", "/d/bvm"),
        "export PATH=\"/d/bvm/bin:$PATH\"\n"
    );
    assert_eq!(render_env_snippet("{data_dir}{data_dir}", "x"), "xx");
    assert_eq!(render_env_snippet("no placeholder {data}", "x"), "no placeholder {data}");
    let t = "a {data_dir} b {data_dir";
    assert_eq!(render_env_snippet(t, "/d"), t.replace("{data_dir}", "/d"));
}

#[test]
fn uninstall_latest_is_newest() {
    let installed = strings(&["1.2.0", "1.10.0", "0.9.1"]);
    assert_eq!(uninstall_version("latest", installed.clone()), Some("1.10.0".to_string()));
    assert_eq!(uninstall_version("0.9.1", installed), Some("0.9.1".to_string()));
    assert_eq!(uninstall_version("latest", Vec::new()), None);
    assert_eq!(uninstall_version("latest", strings(&["1.0.0", "notes"])), Some("1.0.0".to_string()));
    assert_eq!(uninstall_version("latest", strings(&["notes"])), None);
    assert_eq!(uninstall_version("latest", strings(&["1.1.0-rc.1", "1.0.0"])), Some("1.1.0-rc.1".to_string()));
    assert_eq!(uninstall_version("latest", strings(&["1.1.0", "1.1.0-rc.1"])), Some("1.1.0".to_string()));
}

#[test]
fn installed_directory_of_binary() {
    assert_eq!(
        installed_dir_of("/d/versions/bun-v1.0.0/bun"),
        Some(("/d/versions/bun-v1.0.0".to_string(), "bun-v1.0.0".to_string()))
    );
    assert_eq!(installed_dir_of("/"), None);
    assert_eq!(installed_dir_of("/.."), None);
}

#[test]
fn env_snippet_by_template() {
    assert_eq!(
        env_snippet("export PATH=\"{data_dir}/bin:$PATH\"\n", "/d/bvm"),
        Some("export PATH=\"/d/bvm/bin:$PATH\"\n".to_string())
    );
    assert_eq!(env_snippet("{unclosed", "x"), None);
}

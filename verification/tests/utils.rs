use bvm::bun_version::BunVersion;
use bvm::paths::{join_path, path_file_name, path_parent};
use bvm::utils::{
    bin_candidates, display_versions, is_listable, is_parsable_version_string, next_progress,
    parse_version_string, select_found, semver_sort, version_bin_candidate, version_of_link_target,
};

fn strings(items: &[&str]) -> Vec<String> {
    items.iter().map(|s| s.to_string()).collect()
}

#[test]
fn short_form_examples() {
    assert_eq!(parse_version_string("bun-v1.2", true), "1.2.0");
    assert_eq!(parse_version_string("v1.12.0", true), "1.12.0");
    assert_eq!(parse_version_string("6", true), "6.0.0");
}

#[test]
fn short_form_without_fill() {
    assert_eq!(parse_version_string("bun-v1.2", false), "1.2");
    assert_eq!(parse_version_string("v1", false), "1");
    assert_eq!(parse_version_string("1.2.3.4", true), "1.2.3.4");
    assert_eq!(parse_version_string("1.2.3.4", false), "1.2.3.4");
}

#[test]
fn short_form_needs_single_first_digit() {
    assert!(is_parsable_version_string("bun-v1.2"));
    assert!(is_parsable_version_string("0.10.100"));
    assert!(!is_parsable_version_string("10.0.0"));
    assert!(!is_parsable_version_string("system"));
    assert!(!is_parsable_version_string("package-manager"));
    assert!(!is_parsable_version_string("1."));
    assert!(!is_parsable_version_string(""));
}

#[test]
fn short_form_is_a_fixed_point() {
    for s in ["bun-v1.2", "v1.12.0", "6", "1.2.3.4"] {
        for fill in [true, false] {
            let once = parse_version_string(s, fill);
            assert_eq!(parse_version_string(&once, fill), once);
        }
    }
}

#[test]
fn parse_ignores_padding() {
    for s in ["bun-v1.2", "v1", "6.5.4", "1.2.3.4"] {
        let padded = parse_version_string(s, true);
        assert_eq!(BunVersion::parse(&padded), BunVersion::parse(s));
        assert!(padded.split('.').count() >= 3);
        assert!(padded.starts_with(&parse_version_string(s, false)));
    }
}

#[test]
fn semver_sort_orders_versions() {
    assert_eq!(
        semver_sort(strings(&["1.10.0", "1.2.0", "0.9.1"])),
        strings(&["0.9.1", "1.2.0", "1.10.0"])
    );
    assert_eq!(
        semver_sort(strings(&["system", "2.0.0", "package-manager", "1.0.0", "10.0.0"])),
        strings(&["1.0.0", "2.0.0", "10.0.0", "system", "package-manager"])
    );
    // only "1.2.0" is a semantic version; the others keep their order after it
    assert_eq!(
        semver_sort(strings(&["1.2.0.9", "0.1", "1.2.0", "v1.2"])),
        strings(&["1.2.0", "1.2.0.9", "0.1", "v1.2"])
    );
    assert_eq!(semver_sort(Vec::new()), Vec::<String>::new());
}

#[test]
fn bin_candidate_searches_sorted_versions() {
    let installed = strings(&["1.2.5", "1.10.0", "1.2.0"]);
    assert_eq!(
        version_bin_candidate("1.2", true, installed.clone(), "/d"),
        Some("/d/versions/bun-v1.2.0/bun".to_string())
    );
    assert_eq!(
        version_bin_candidate("1", true, installed, "/d"),
        Some("/d/versions/bun-v1.2.0/bun".to_string())
    );
}

#[test]
fn found_candidates() {
    let names = strings(&["bun-v1.0.0", "bun-v0.5.1"]);
    let all = bin_candidates("/d/versions", &names, false);
    assert_eq!(select_found(&all, &vec![true, false, false, true]), strings(&["bun-v1.0.0", "system"]));
    let only = bin_candidates("/d/versions", &names, true);
    assert_eq!(select_found(&only, &vec![true, false]), strings(&["bun-v1.0.0"]));
    assert_eq!(select_found(&all, &vec![false, false, true, false]), strings(&["package-manager"]));
}

#[test]
fn bin_candidate_first_prefixed_version() {
    let installed = strings(&["1.0.0", "1.2.0", "1.2.5"]);
    assert_eq!(
        version_bin_candidate("v1.2", true, installed.clone(), "/data/bvm"),
        Some("/data/bvm/versions/bun-v1.2.0/bun".to_string())
    );
    assert_eq!(
        version_bin_candidate("1", false, installed.clone(), "/data/bvm/"),
        Some("/data/bvm/versions/bun-v1.0.0/bun".to_string())
    );
}

#[test]
fn bin_candidate_fallbacks() {
    let none: Vec<String> = Vec::new();
    assert_eq!(
        version_bin_candidate("system", false, none.clone(), "/d"),
        Some("$HOME/.bun/bin/bun".to_string())
    );
    assert_eq!(
        version_bin_candidate("package-manager", false, none.clone(), "/d"),
        Some("/usr/bin/bun".to_string())
    );
    assert_eq!(version_bin_candidate("system", true, none.clone(), "/d"), None);
    let installed = strings(&["1.0.0"]);
    assert_eq!(version_bin_candidate("2.0", false, installed.clone(), "/d"), None);
    assert_eq!(version_bin_candidate("2.0", true, installed.clone(), "/d"), None);
}

#[test]
fn candidates_of_installed_dirs() {
    let names = strings(&["bun-v1.0.0", "bun-v0.5.1"]);
    let only = bin_candidates("/d/versions", &names, true);
    assert_eq!(only.len(), 2);
    assert_eq!(only[0].name, "bun-v1.0.0");
    assert_eq!(only[0].path, "/d/versions/bun-v1.0.0/bun");
    assert_eq!(only[1].path, "/d/versions/bun-v0.5.1/bun");
    let all = bin_candidates("/d/versions", &names, false);
    assert_eq!(all.len(), 4);
    assert_eq!((all[2].name.as_str(), all[2].path.as_str()), ("package-manager", "/usr/bin/bun"));
    assert_eq!((all[3].name.as_str(), all[3].path.as_str()), ("system", "$HOME/.bun/bin/bun"));
}

#[test]
fn displayed_versions() {
    let names = strings(&["bun-v1.0", "system", "package-manager", "v2"]);
    assert!(names.iter().all(|n| is_listable(n)));
    assert_eq!(display_versions(&names), strings(&["1.0.0", "system", "package-manager", "2.0.0"]));
    assert!(!is_listable("bun-v10.0.0"));
    assert!(!is_listable("notes"));
}

#[test]
fn version_from_link_target() {
    assert_eq!(
        version_of_link_target("/home/u/.local/share/bvm/versions/bun-v1.0.0/bun"),
        Some("1.0.0".to_string())
    );
    assert_eq!(version_of_link_target("/d/versions/bun-v0.7/bun"), Some("0.7.0".to_string()));
    assert_eq!(version_of_link_target("/d/versions/latest/bun"), None);
    assert_eq!(version_of_link_target("/"), None);
    assert_eq!(version_of_link_target("bun"), None);
}

#[test]
fn std_path_parts() {
    assert_eq!(path_parent("/a/b/c"), Some("/a/b".to_string()));
    assert_eq!(path_parent("/"), None);
    assert_eq!(path_file_name("/a/b/c"), Some("c".to_string()));
    assert_eq!(path_file_name("/a/.."), None);
}

#[test]
fn joined_paths() {
    assert_eq!(join_path("/d", "versions"), "/d/versions");
    assert_eq!(join_path("/d/", "versions"), "/d/versions");
    assert_eq!(join_path("", "versions"), "versions");
    assert_eq!(join_path("/d", "/abs"), "/abs");
    for (base, rel) in [("/d", "versions"), ("/d/", "x/y"), ("", "v"), ("/d", "/abs"), ("a", "")] {
        let std_joined = std::path::Path::new(base).join(rel);
        assert_eq!(join_path(base, rel), std_joined.to_str().unwrap());
    }
}

#[test]
fn progress_is_capped() {
    assert_eq!(next_progress(10, 5, 100), 15);
    assert_eq!(next_progress(98, 5, 100), 100);
    assert_eq!(next_progress(0, 0, 0), 0);
    let mut position = 0;
    for chunk in [40u64, 40, 40] {
        let next = next_progress(position, chunk, 100);
        assert!(next >= position && next <= 100);
        position = next;
    }
    assert_eq!(position, 100);
}

#[test]
fn activated_version_reads_back() {
    for data_dir in ["/home/u/.local/share/bvm", "/d/", "", "rel/dir"] {
        for v in ["1.0.0", "0.12.3", "1.2.3.4"] {
            let installed = strings(&[v]);
            let bin = version_bin_candidate(v, true, installed, data_dir).unwrap();
            assert_eq!(version_of_link_target(&bin), Some(v.to_string()), "{} {}", data_dir, v);
        }
    }
}

#[test]
fn semver_sort_precedence() {
    assert_eq!(semver_sort(strings(&["2.0.0", "1.0.0-alpha"])), strings(&["1.0.0-alpha", "2.0.0"]));
    assert_eq!(
        semver_sort(strings(&["4000000000.0.0", "3000000000.0.0"])),
        strings(&["3000000000.0.0", "4000000000.0.0"])
    );
    let ordered = [
        "1.0.0-alpha", "1.0.0-alpha.1", "1.0.0-alpha.beta", "1.0.0-beta", "1.0.0-beta.2",
        "1.0.0-beta.11", "1.0.0-rc.1", "1.0.0",
    ];
    let shuffled = strings(&[ordered[5], ordered[7], ordered[0], ordered[3], ordered[6], ordered[1], ordered[4], ordered[2]]);
    assert_eq!(semver_sort(shuffled), strings(&ordered));
    // build identifiers do not count: equal precedence keeps the given order
    assert_eq!(semver_sort(strings(&["1.0.0+b", "1.0.0+a"])), strings(&["1.0.0+b", "1.0.0+a"]));
    assert_eq!(
        semver_sort(strings(&["1.0.0-x-y.7+build.5", "1.0.0-x-y.10"])),
        strings(&["1.0.0-x-y.7+build.5", "1.0.0-x-y.10"])
    );
    // not semantic versions: leading zeros, numbers beyond u64, empty identifiers
    assert_eq!(
        semver_sort(strings(&["01.0.0", "18446744073709551616.0.0", "1.0.0-", "1.0.0+", "1.0.0-01", "18446744073709551615.0.0", "0.0.0"])),
        strings(&["0.0.0", "18446744073709551615.0.0", "01.0.0", "18446744073709551616.0.0", "1.0.0-", "1.0.0+", "1.0.0-01"])
    );
}

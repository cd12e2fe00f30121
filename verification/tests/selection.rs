use dpkg::parser::parse_config_str;
use dpkg::select::collect_packages;
use dpkg::types::{Config, Header, Package, PackageSource, Section};

fn make_pkg(name: &str, source: PackageSource) -> Package {
    Package {
        name: name.to_string(),
        source,
    }
}

#[test]
fn test_collect_wildcard_only() {
    let config = Config {
        sections: vec![Section {
            header: Header::All,
            packages: vec![
                make_pkg("base", PackageSource::Official),
                make_pkg("git", PackageSource::Official),
                make_pkg("yay", PackageSource::Aur),
            ],
        }],
    };
    let (official, aur) = collect_packages(&config, "myhost");
    assert_eq!(official, vec!["base", "git"]);
    assert_eq!(aur, vec!["yay"]);
}

#[test]
fn test_collect_hostname_filtering() {
    let config = Config {
        sections: vec![
            Section {
                header: Header::All,
                packages: vec![make_pkg("base", PackageSource::Official)],
            },
            Section {
                header: Header::Hostname("desktop".to_string()),
                packages: vec![make_pkg("nvidia", PackageSource::Official)],
            },
            Section {
                header: Header::Hostname("laptop".to_string()),
                packages: vec![make_pkg("tlp", PackageSource::Official)],
            },
        ],
    };
    let (official, aur) = collect_packages(&config, "desktop");
    assert_eq!(official, vec!["base", "nvidia"]);
    assert!(aur.is_empty());
}

#[test]
fn test_collect_dedup_keeps_first() {
    let config = Config {
        sections: vec![
            Section {
                header: Header::All,
                packages: vec![make_pkg("firefox", PackageSource::Official)],
            },
            Section {
                header: Header::Hostname("myhost".to_string()),
                packages: vec![make_pkg("firefox", PackageSource::Official)],
            },
        ],
    };
    let (official, _) = collect_packages(&config, "myhost");
    assert_eq!(official, vec!["firefox"]);
}

#[test]
fn test_collect_merges_same_hostname_sections() {
    let config = Config {
        sections: vec![
            Section {
                header: Header::Hostname("desktop".to_string()),
                packages: vec![make_pkg("nvidia", PackageSource::Official)],
            },
            Section {
                header: Header::All,
                packages: vec![make_pkg("firefox", PackageSource::Official)],
            },
            Section {
                header: Header::Hostname("desktop".to_string()),
                packages: vec![make_pkg("steam", PackageSource::Official)],
            },
        ],
    };
    let (official, _) = collect_packages(&config, "desktop");
    assert_eq!(official, vec!["nvidia", "firefox", "steam"]);
}

#[test]
fn test_collect_no_matching_hostname() {
    let config = Config {
        sections: vec![Section {
            header: Header::Hostname("other".to_string()),
            packages: vec![make_pkg("nvidia", PackageSource::Official)],
        }],
    };
    let (official, aur) = collect_packages(&config, "myhost");
    assert!(official.is_empty());
    assert!(aur.is_empty());
}

#[test]
fn test_collect_empty_config_gives_empty_sets() {
    let config = Config { sections: vec![] };
    let (official, aur) = collect_packages(&config, "anyhost");
    assert!(official.is_empty());
    assert!(aur.is_empty());
}

#[test]
fn test_collect_first_source_wins_across_sources() {
    // The same name declared AUR first and repository later keeps its
    // first-seen source: it lands in the AUR list only.
    let config = Config {
        sections: vec![
            Section {
                header: Header::All,
                packages: vec![make_pkg("paru", PackageSource::Aur)],
            },
            Section {
                header: Header::Hostname("box".to_string()),
                packages: vec![make_pkg("paru", PackageSource::Official)],
            },
        ],
    };
    let (official, aur) = collect_packages(&config, "box");
    assert!(official.is_empty());
    assert_eq!(aur, vec!["paru"]);
}

#[test]
fn test_collect_hostname_match_is_case_sensitive() {
    let config = Config {
        sections: vec![Section {
            header: Header::Hostname("Desktop".to_string()),
            packages: vec![make_pkg("nvidia", PackageSource::Official)],
        }],
    };
    let (official, _) = collect_packages(&config, "desktop");
    assert!(official.is_empty());
    let (official2, _) = collect_packages(&config, "Desktop");
    assert_eq!(official2, vec!["nvidia"]);
}

#[test]
fn test_collect_from_parsed_manifest_for_scoped_host() {
    let config = parse_config_str("## *\nbase\n## @h1\nnvidia\n## @h2\ntlp\n").unwrap();
    let (official, aur) = collect_packages(&config, "h1");
    assert_eq!(official, vec!["base", "nvidia"]);
    assert!(aur.is_empty());
}

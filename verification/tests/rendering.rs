use dpkg::parser::parse_config_str;
use dpkg::types::{Config, Header, Package, PackageSource, Section};

fn make_pkg(name: &str, source: PackageSource) -> Package {
    Package {
        name: name.to_string(),
        source,
    }
}

fn sample_config() -> Config {
    Config {
        sections: vec![
            Section {
                header: Header::All,
                packages: vec![
                    make_pkg("base", PackageSource::Official),
                    make_pkg("yay", PackageSource::Aur),
                ],
            },
            Section {
                header: Header::Hostname("my-desktop".to_string()),
                packages: vec![make_pkg("nvidia", PackageSource::Official)],
            },
        ],
    }
}

#[test]
fn test_to_text_exact_output() {
    let text = sample_config().to_text();
    assert_eq!(text, "## *\nbase\naur:yay\n## @my-desktop\nnvidia\n");
}

#[test]
fn test_to_text_empty_config() {
    let config = Config { sections: vec![] };
    assert_eq!(config.to_text(), "");
}

#[test]
fn test_header_render() {
    assert_eq!(Header::All.render(), "## *");
    assert_eq!(Header::Hostname("box-1".to_string()).render(), "## @box-1");
}

#[test]
fn test_round_trip_through_text() {
    let config = sample_config();
    let reparsed = parse_config_str(&config.to_text()).unwrap();
    assert_eq!(reparsed.sections.len(), config.sections.len());
    for (a, b) in config.sections.iter().zip(reparsed.sections.iter()) {
        assert_eq!(a.header, b.header);
        assert_eq!(a.packages.len(), b.packages.len());
        for (pa, pb) in a.packages.iter().zip(b.packages.iter()) {
            assert_eq!(pa.name, pb.name);
            assert_eq!(pa.source, pb.source);
        }
    }
}

#[test]
fn test_total_entries() {
    assert_eq!(sample_config().total_entries(), 3);
    assert_eq!(Config { sections: vec![] }.total_entries(), 0);
}

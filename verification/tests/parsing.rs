use dpkg::error::DpkgError;
use dpkg::parser::parse_config_str;
use dpkg::types::{Header, PackageSource};

#[test]
fn test_parse_minimal() {
    let input = "## *\nbase\ngit\n";
    let config = parse_config_str(input).unwrap();
    assert_eq!(config.sections.len(), 1);
    assert_eq!(config.sections[0].header, Header::All);
    assert_eq!(config.sections[0].packages.len(), 2);
    assert_eq!(config.sections[0].packages[0].name, "base");
    assert_eq!(config.sections[0].packages[1].name, "git");
}

#[test]
fn test_parse_hostname_section() {
    let input = "## @MyHost\nnvidia\n";
    let config = parse_config_str(input).unwrap();
    assert_eq!(
        config.sections[0].header,
        Header::Hostname("MyHost".to_string())
    );
}

#[test]
fn test_parse_aur_packages() {
    let input = "## *\naur:yay\naur:visual-studio-code-bin\n";
    let config = parse_config_str(input).unwrap();
    assert_eq!(config.sections[0].packages[0].name, "yay");
    assert_eq!(config.sections[0].packages[0].source, PackageSource::Aur);
    assert_eq!(
        config.sections[0].packages[1].name,
        "visual-studio-code-bin"
    );
}

#[test]
fn test_parse_comments() {
    let input = "// standalone comment\n## * // section comment\nbase // inline comment\n";
    let config = parse_config_str(input).unwrap();
    assert_eq!(config.sections.len(), 1);
    assert_eq!(config.sections[0].packages.len(), 1);
    assert_eq!(config.sections[0].packages[0].name, "base");
}

#[test]
fn test_parse_empty_lines() {
    let input = "\n\n## *\n\nbase\n\ngit\n\n";
    let config = parse_config_str(input).unwrap();
    assert_eq!(config.sections[0].packages.len(), 2);
}

#[test]
fn test_parse_multiple_sections() {
    let input = "## *\nbase\n\n## @Desktop\nnvidia\n\n## @Laptop\ntlp\n";
    let config = parse_config_str(input).unwrap();
    assert_eq!(config.sections.len(), 3);
}

#[test]
fn test_parse_invalid_header_no_space() {
    let input = "##*\nbase\n";
    let result = parse_config_str(input);
    assert!(result.is_err());
    match result.unwrap_err() {
        DpkgError::ConfigParse { line, .. } => assert_eq!(line, 1),
        _ => panic!("Expected ConfigParse error"),
    }
}

#[test]
fn test_parse_invalid_header_no_marker() {
    let input = "## something\nbase\n";
    let result = parse_config_str(input);
    assert!(result.is_err());
}

#[test]
fn test_parse_empty_hostname() {
    let input = "## @\nbase\n";
    let result = parse_config_str(input);
    assert!(result.is_err());
}

#[test]
fn test_parse_empty_aur_name() {
    let input = "## *\naur:\n";
    let result = parse_config_str(input);
    assert!(result.is_err());
}

#[test]
fn test_parse_package_before_section() {
    let input = "base\n## *\ngit\n";
    let result = parse_config_str(input);
    assert!(result.is_err());
    match result.unwrap_err() {
        DpkgError::ConfigParse { line, .. } => assert_eq!(line, 1),
        _ => panic!("Expected ConfigParse error"),
    }
}

#[test]
fn test_parse_whitespace_handling() {
    let input = "## *\n  base  \n\tgit\t\n";
    let config = parse_config_str(input).unwrap();
    assert_eq!(config.sections[0].packages[0].name, "base");
    assert_eq!(config.sections[0].packages[1].name, "git");
}

#[test]
fn test_parse_empty_config() {
    let input = "";
    let config = parse_config_str(input).unwrap();
    assert!(config.sections.is_empty());
}

#[test]
fn test_parse_only_comments() {
    let input = "// just a comment\n// another comment\n";
    let config = parse_config_str(input).unwrap();
    assert!(config.sections.is_empty());
}

#[test]
fn test_parse_multiple_slashes_in_comment() {
    let input = "## *\nnvidia // uses // in path comments are fine // this is still a comment\n";
    let config = parse_config_str(input).unwrap();
    assert_eq!(config.sections[0].packages[0].name, "nvidia");
}

#[test]
fn test_parse_hostname_with_hyphen() {
    let input = "## @my-desktop\nnvidia\n";
    let config = parse_config_str(input).unwrap();
    assert_eq!(
        config.sections[0].header,
        Header::Hostname("my-desktop".to_string())
    );
}

#[test]
fn test_parse_invalid_hostname_chars() {
    let input = "## @my_desktop\nnvidia\n";
    let result = parse_config_str(input);
    assert!(result.is_err());
}

#[test]
fn test_parse_bad_header_on_later_line() {
    let input = "## *\nbase\n##broken\ngit\n";
    let result = parse_config_str(input);
    match result.unwrap_err() {
        DpkgError::ConfigParse { line, .. } => assert_eq!(line, 3),
        _ => panic!("Expected ConfigParse error"),
    }
}

#[test]
fn test_parse_invalid_hostname_error_is_distinct() {
    let bad_chars = parse_config_str("## @my_host\nnvidia\n");
    let empty_host = parse_config_str("## @\nnvidia\n");
    let (line_a, msg_a) = match bad_chars.unwrap_err() {
        DpkgError::ConfigParse { line, message } => (line, message),
        _ => panic!("Expected ConfigParse error"),
    };
    let (line_b, msg_b) = match empty_host.unwrap_err() {
        DpkgError::ConfigParse { line, message } => (line, message),
        _ => panic!("Expected ConfigParse error"),
    };
    assert_eq!(line_a, 1);
    assert_eq!(line_b, 1);
    assert_ne!(msg_a, msg_b);
}

#[test]
fn test_parse_invalid_hostname_message_names_hostname() {
    let result = parse_config_str("## @my_desktop\nnvidia\n");
    match result.unwrap_err() {
        DpkgError::ConfigParse { line, message } => {
            assert_eq!(line, 1);
            assert_eq!(
                message,
                "Invalid hostname `my_desktop`: only alphanumeric characters and hyphens are allowed"
            );
        }
        _ => panic!("Expected ConfigParse error"),
    }
}

#[test]
fn test_parse_no_space_message_echoes_line() {
    let result = parse_config_str("##*\nbase\n");
    match result.unwrap_err() {
        DpkgError::ConfigParse { message, .. } => {
            assert_eq!(
                message,
                "Invalid section header: `##*`\n  Expected: ## * or ## @<hostname>\n  Hint: Section headers must have a space after ##"
            );
        }
        _ => panic!("Expected ConfigParse error"),
    }
}

#[test]
fn test_parse_unknown_header_message_echoes_line() {
    let result = parse_config_str("## something\nbase\n");
    match result.unwrap_err() {
        DpkgError::ConfigParse { message, .. } => {
            assert_eq!(
                message,
                "Invalid section header: `## something`\n  Expected: ## * or ## @<hostname>"
            );
        }
        _ => panic!("Expected ConfigParse error"),
    }
}

#[test]
fn test_parse_trims_unicode_whitespace() {
    let input = "## *\n\u{a0}base\u{a0}\n\u{2003}git\u{2003}\n";
    let config = parse_config_str(input).unwrap();
    assert_eq!(config.sections[0].packages[0].name, "base");
    assert_eq!(config.sections[0].packages[1].name, "git");
}

#[test]
fn test_parse_crlf_line_endings() {
    let input = "## *\r\nbase\r\ngit\r\n";
    let config = parse_config_str(input).unwrap();
    assert_eq!(config.sections.len(), 1);
    assert_eq!(config.sections[0].packages.len(), 2);
    assert_eq!(config.sections[0].packages[0].name, "base");
}

#[test]
fn test_parse_entry_before_section_via_empty_aur() {
    let input = "aur:\n## *\n";
    let result = parse_config_str(input);
    match result.unwrap_err() {
        DpkgError::ConfigParse { line, message } => {
            assert_eq!(line, 1);
            assert_eq!(message, "Package found before any section header");
        }
        _ => panic!("Expected ConfigParse error"),
    }
}

#[test]
fn test_parse_header_extra_spaces() {
    let input = "##   *\n##  @Pad\nbase\n";
    let config = parse_config_str(input).unwrap();
    assert_eq!(config.sections.len(), 2);
    assert_eq!(config.sections[0].header, Header::All);
    assert_eq!(config.sections[1].header, Header::Hostname("Pad".to_string()));
    assert_eq!(config.sections[1].packages[0].name, "base");
}

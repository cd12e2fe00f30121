use dpkg::error::DpkgError;
use dpkg::parser::parse_config_str;
use dpkg::plan::plan;
use dpkg::select::collect_packages;

fn strings(names: &[&str]) -> Vec<String> {
    names.iter().map(|s| s.to_string()).collect()
}

#[test]
fn test_plan_fresh_system_installs_everything() {
    let config = parse_config_str("## *\nbase\naur:yay\n").unwrap();
    let (official, aur) = collect_packages(&config, "x");
    let p = plan(&official, &aur, &strings(&[]), &strings(&[]));
    assert_eq!(p.to_install_official, vec!["base"]);
    assert_eq!(p.to_install_aur, vec!["yay"]);
    assert!(p.to_remove.is_empty());
    assert!(!p.is_empty());
}

#[test]
fn test_plan_skips_installed_packages() {
    let desired = strings(&["base", "git", "vim"]);
    let installed = strings(&["git"]);
    let p = plan(&desired, &strings(&[]), &installed, &strings(&[]));
    assert_eq!(p.to_install_official, vec!["base", "vim"]);
    assert!(p.to_install_aur.is_empty());
}

#[test]
fn test_plan_removes_unwanted_orphan() {
    let desired_official = strings(&["base"]);
    let desired_aur = strings(&["yay"]);
    let orphans = strings(&["old-lib"]);
    let p = plan(&desired_official, &desired_aur, &strings(&["base", "yay"]), &orphans);
    assert_eq!(p.to_remove, vec!["old-lib"]);
}

#[test]
fn test_plan_keeps_desired_orphan() {
    let desired_official = strings(&["base", "old-lib"]);
    let desired_aur = strings(&[]);
    let orphans = strings(&["old-lib"]);
    let p = plan(
        &desired_official,
        &desired_aur,
        &strings(&["base", "old-lib"]),
        &orphans,
    );
    assert!(p.to_remove.is_empty());
    assert!(p.is_empty());
}

#[test]
fn test_plan_is_idempotent_after_convergence() {
    let desired_official = strings(&["base", "git"]);
    let desired_aur = strings(&["yay"]);
    let installed = strings(&["zsh"]);
    let orphans = strings(&["old-lib"]);
    let first = plan(&desired_official, &desired_aur, &installed, &orphans);
    assert!(!first.is_empty());

    // Apply the plan: everything desired ends up installed and the
    // unwanted orphans are gone.
    let mut converged: Vec<String> = installed.clone();
    converged.extend(first.to_install_official.iter().cloned());
    converged.extend(first.to_install_aur.iter().cloned());
    converged.push("base".to_string());
    converged.push("git".to_string());
    converged.push("yay".to_string());
    let remaining_orphans: Vec<String> = orphans
        .iter()
        .filter(|o| !first.to_remove.contains(o))
        .cloned()
        .collect();

    let second = plan(&desired_official, &desired_aur, &converged, &remaining_orphans);
    assert!(second.to_install_official.is_empty());
    assert!(second.to_install_aur.is_empty());
    assert!(second.to_remove.is_empty());
    assert!(second.is_empty());
}

#[test]
fn test_plan_preserves_order() {
    let desired = strings(&["zeta", "alpha", "mid"]);
    let installed = strings(&["alpha"]);
    let p = plan(&desired, &strings(&[]), &installed, &strings(&[]));
    assert_eq!(p.to_install_official, vec!["zeta", "mid"]);
}

#[test]
fn test_exit_codes() {
    assert_eq!(
        DpkgError::ConfigNotFound {
            path: "/tmp/none".to_string()
        }
        .exit_code(),
        1
    );
    assert_eq!(
        DpkgError::ConfigParse {
            line: 3,
            message: "bad".to_string()
        }
        .exit_code(),
        1
    );
    assert_eq!(DpkgError::PermissionDenied("denied".to_string()).exit_code(), 2);
    assert_eq!(DpkgError::InstallFailed("failed".to_string()).exit_code(), 3);
    assert_eq!(DpkgError::YayNotFound.exit_code(), 4);
    assert_eq!(DpkgError::NetworkError("down".to_string()).exit_code(), 5);
    assert_eq!(DpkgError::UserCancelled.exit_code(), 6);
}

use baker::cli::{parse, CliError, Command};
use baker::logger::Logger;
use baker::settings::{parse_bool, Settings};

fn args(list: &[&str]) -> Vec<String> {
    list.iter().map(|s| s.to_string()).collect()
}

#[test]
fn defaults_point_under_the_base_directory() {
    let s = Settings::new(true, "/home/u/.baker");
    assert!(s.debug);
    assert_eq!(s.encoding.as_str(), "utf-8");
    assert!(!s.recipe_case_sensitive);
    assert_eq!(s.storage_recipe.as_str(), "/home/u/.baker/recipes");
    assert_eq!(s.storage_recipe_index.as_str(), "/home/u/.baker/index");
    assert_eq!(s.storage_key_path.as_str(), "/home/u/.baker/baker.key");
    assert_eq!(s.template_ext.as_ref().unwrap().as_str(), "tpl");
    assert!(s.repository.is_none());
}

#[test]
fn dotfile_lines_override_defaults() {
    let mut s = Settings::new(false, "/b");
    s.apply_dotfile(
        "# comment\nDEBUG = true\nrepository = https://r\nTEMPLATE_EXT = NONE\nWEIRD=x\nRECIPE_CASE_SENSITIVE=yes\n",
        false,
    );
    assert!(s.debug);
    assert_eq!(s.repository.as_ref().unwrap().as_str(), "https://r");
    assert!(s.template_ext.is_none());
    assert!(!s.recipe_case_sensitive);
    assert_eq!(s.custom_overrides.get("WEIRD").unwrap().as_str(), "x");
    assert_eq!(s.custom_overrides.get("DEBUG").unwrap().as_str(), "true");
}

#[test]
fn values_lists_custom_overrides_or_everything() {
    let mut s = Settings::new(false, "/b");
    s.apply_dotfile("REPOSITORY=https://r\n", false);
    let custom = s.values(true);
    assert_eq!(custom.len(), 1);
    assert_eq!(custom[0].0.as_str(), "REPOSITORY");
    assert_eq!(custom[0].1.as_str(), "https://r");

    let all = s.values(false);
    assert_eq!(all.len(), 13);
    assert_eq!(all[0].0.as_str(), "DEBUG");
    assert_eq!(all[0].1.as_str(), "false");
    assert_eq!(all[3].0.as_str(), "REPOSITORY");
    assert_eq!(all[3].1.as_str(), "https://r");
    assert_eq!(all[4].1.as_str(), "None");

    let fresh = Settings::new(false, "/b");
    assert_eq!(fresh.values(true).len(), 13);
}

#[test]
fn parses_booleans_case_insensitively() {
    assert_eq!(parse_bool("TRUE"), Some(true));
    assert_eq!(parse_bool("false"), Some(false));
    assert_eq!(parse_bool("yes"), None);
}

#[test]
fn logger_keeps_its_switch() {
    assert!(Logger::new(true).debug);
    assert!(!Logger::new(false).debug);
}

#[test]
fn empty_invocation_shows_help() {
    let o = parse(&args(&[])).unwrap();
    assert!(!o.verbose);
    assert!(matches!(o.command, Command::Help));
}

#[test]
fn verbose_flag_is_filtered_anywhere() {
    let o = parse(&args(&["--verbose", "recipes", "-a"])).unwrap();
    assert!(o.verbose);
    match o.command {
        Command::Recipes { all } => assert!(all),
        _ => panic!("expected the recipes command"),
    }
}

#[test]
fn pull_takes_name_and_force() {
    let o = parse(&args(&["pull", "conf/app:1.0", "-f"])).unwrap();
    match o.command {
        Command::Pull { name, force } => {
            assert_eq!(name.as_str(), "conf/app:1.0");
            assert!(force);
        },
        _ => panic!("expected the pull command"),
    }
    assert!(matches!(parse(&args(&["pull"])), Err(CliError::PullName)));
}

#[test]
fn encrypt_collects_plaintexts_and_file() {
    let o = parse(&args(&["encrypt", "a", "--file", "r.cfg", "b"])).unwrap();
    match o.command {
        Command::Encrypt { plantexts, file } => {
            assert_eq!(plantexts.len(), 2);
            assert_eq!(plantexts[0].as_str(), "a");
            assert_eq!(plantexts[1].as_str(), "b");
            assert_eq!(file.unwrap().as_str(), "r.cfg");
        },
        _ => panic!("expected the encrypt command"),
    }
    assert!(matches!(
        parse(&args(&["encrypt", "--file"])),
        Err(CliError::EncryptFileValue)
    ));
}

#[test]
fn run_accepts_name_or_path_but_not_both() {
    let o = parse(&args(&["run", "app", "--force"])).unwrap();
    match o.command {
        Command::Run { name, path, force } => {
            assert_eq!(name.unwrap().as_str(), "app");
            assert!(path.is_none());
            assert!(force);
        },
        _ => panic!("expected the run command"),
    }
    let o2 = parse(&args(&["run", "--path", "r.cfg"])).unwrap();
    match o2.command {
        Command::Run { name, path, .. } => {
            assert!(name.is_none());
            assert_eq!(path.unwrap().as_str(), "r.cfg");
        },
        _ => panic!("expected the run command"),
    }
    assert!(matches!(
        parse(&args(&["run", "app", "--path", "r.cfg"])),
        Err(CliError::RunNameAndPath)
    ));
    let err = parse(&args(&["run", "--path"])).unwrap_err();
    assert_eq!(err.message().as_str(), "run --path expects a recipe path");
}

#[test]
fn unknown_commands_fall_back_to_help() {
    let o = parse(&args(&["frobnicate"])).unwrap();
    assert!(matches!(o.command, Command::Help));
    let o2 = parse(&args(&["-v"])).unwrap();
    assert!(matches!(o2.command, Command::Version));
    let o3 = parse(&args(&["genkey", "p"])).unwrap();
    match o3.command {
        Command::GenKey { keypass } => assert_eq!(keypass.as_str(), "p"),
        _ => panic!("expected the genkey command"),
    }
    assert!(matches!(parse(&args(&["rm"])), Err(CliError::RmId)));
}

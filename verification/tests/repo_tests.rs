use baker::repository::{generate_id, needs_download, ListRecipes, RecipeIndex, RepoError,
    Repository};
use baker::settings::Settings;
use baker::utils::is_url;

fn github_settings() -> Settings {
    let mut s = Settings::new(false, "/tmp/baker");
    s.repository = Some(String::from("https://repo"));
    s.repository_type = Some(String::from("github"));
    s
}

#[test]
fn content_id_is_deterministic_and_64_hex() {
    let a = generate_id("conf/app", "1.0");
    let b = generate_id("conf/app", "1.0");
    assert_eq!(a.as_str(), b.as_str());
    assert_eq!(a.len(), 64);
    assert!(a.chars().all(|c| c.is_ascii_hexdigit()));
    assert_ne!(a.as_str(), generate_id("conf/app", "1.1").as_str());
    assert_ne!(a.as_str(), generate_id("conf/other", "1.0").as_str());
}

#[test]
fn fetch_decision_honours_cache_and_force() {
    assert!(!needs_download(false, true));
    assert!(needs_download(false, false));
    assert!(needs_download(true, true));
    assert!(needs_download(true, false));
}

#[test]
fn github_url_scheme() {
    let settings = github_settings();
    let repo = Repository::new("conf/app:1.2", &settings).unwrap();
    assert_eq!(repo.format_url().unwrap().as_str(), "https://repo/1.2/conf/app.cfg");
}

#[test]
fn bitbucket_url_scheme() {
    let mut settings = github_settings();
    settings.repository_type = Some(String::from("bitbucket"));
    let repo = Repository::new("conf/app:1.2", &settings).unwrap();
    assert_eq!(
        repo.format_url().unwrap().as_str(),
        "https://repo/conf/app.cfg?at=1.2"
    );
}

#[test]
fn custom_url_scheme_uses_the_pattern() {
    let mut settings = github_settings();
    settings.repository_type = Some(String::from("custom"));
    settings.repository_custom_pattern = Some(String::from(
        "%(repository)s/x/%(path)s-%(version)s.%(ext)s",
    ));
    let repo = Repository::new("app:2", &settings).unwrap();
    assert_eq!(repo.format_url().unwrap().as_str(), "https://repo/x/app-2.cfg");
}

#[test]
fn repository_configuration_errors() {
    let settings = Settings::new(false, "/tmp/baker");
    let repo = Repository::new("a:b", &settings).unwrap();
    let err = repo.format_url().unwrap_err();
    assert_eq!(
        err.message().as_str(),
        "REPOSITORY and REPOSITORY_TYPE must be set to download instructions"
    );

    let mut s2 = github_settings();
    s2.repository_type = Some(String::from("custom"));
    let repo2 = Repository::new("a:b", &s2).unwrap();
    assert!(matches!(repo2.format_url(), Err(RepoError::MissingCustomPattern)));

    let mut s3 = github_settings();
    s3.repository_type = Some(String::from("gitlab"));
    let repo3 = Repository::new("a:b", &s3).unwrap();
    let err3 = repo3.format_url().unwrap_err();
    assert_eq!(err3.message().as_str(), "REPOSITORY_TYPE 'gitlab' is not supported");
}

#[test]
fn malformed_reference_is_rejected() {
    let settings = github_settings();
    let err = Repository::new("noversion", &settings).unwrap_err();
    assert_eq!(err.message().as_str(), "Attr 'name' malformed. Use <path>:<version>");
}

#[test]
fn pull_resolves_url_filename_id_and_cache_path() {
    let settings = github_settings();
    let mut repo = Repository::new("conf/app:1.2", &settings).unwrap();
    let plan = repo.pull().unwrap();
    assert_eq!(plan.url.as_str(), "https://repo/1.2/conf/app.cfg");
    assert_eq!(plan.filename.as_str(), "app.cfg");
    assert_eq!(plan.id.as_str(), generate_id("conf/app", "1.2").as_str());
    assert!(is_url(plan.url.as_str()));
    let expected_dir = format!("/tmp/baker/recipes/{}", plan.id);
    assert_eq!(plan.target_dir.as_str(), expected_dir.as_str());
    let expected_local = format!("{}/app.cfg", expected_dir);
    assert_eq!(plan.local_path.as_str(), expected_local.as_str());
    assert_eq!(repo.local_path.as_ref().unwrap().as_str(), expected_local.as_str());
}

#[test]
fn indexing_records_once_unless_forced() {
    let mut index = RecipeIndex::new();
    assert!(index.indexing("id-1", "r", "v", "f", false));
    assert_eq!(index.len(), 1);
    assert!(!index.indexing("id-1", "r", "v", "f", false));
    assert_eq!(index.len(), 1);
    assert!(index.indexing("id-1", "r", "v2", "f", true));
    assert_eq!(index.len(), 1);
    let (_, e) = index.entry_at(0);
    assert_eq!(e.version.as_str(), "v2");
    assert!(index.indexing("id-2", "r2", "v", "f2", false));
    assert_eq!(index.len(), 2);
}

#[test]
fn indexing_stamps_a_formatted_datetime() {
    let mut index = RecipeIndex::new();
    assert!(index.indexing("id-1", "r", "v", "f", false));
    let (_, e) = index.entry_at(0);
    let dt = e.datetime.as_bytes();
    let n = dt.len();
    assert!(n >= 19);
    for q in 0..n - 15 {
        assert!(dt[q].is_ascii_digit());
    }
    for (off, expected) in [(15, b'-'), (12, b'-'), (9, b' '), (6, b':'), (3, b':')] {
        assert_eq!(dt[n - off], expected);
    }
    for off in [14, 13, 11, 10, 8, 7, 5, 4, 2, 1] {
        assert!(dt[n - off].is_ascii_digit());
    }
}

#[test]
fn remove_by_full_id_and_prefix() {
    let full: String = "ab".repeat(32);
    let mut index = RecipeIndex::new();
    index.add_entry(&full, "r", "v", "f", "2024-01-02 03:04:05");
    index.add_entry("cdcd", "r2", "v2", "f2", "2024-01-02 03:04:05");

    let removed = Repository::remove(&full, &mut index).unwrap();
    assert_eq!(removed.as_str(), full.as_str());
    assert_eq!(index.len(), 1);

    let removed2 = Repository::remove("cd", &mut index).unwrap();
    assert_eq!(removed2.as_str(), "cdcd");
    assert_eq!(index.len(), 0);

    let err = Repository::remove("missing", &mut index).unwrap_err();
    assert_eq!(err.message().as_str(), "Recipe 'missing' not found");
}

#[test]
fn listing_pads_columns_and_abbreviates() {
    let mut index = RecipeIndex::new();
    let id: String = "0123456789".repeat(7).chars().take(64).collect();
    index.add_entry(&id, "r", "v", "f", "2024-01-02 03:04:05.99");
    let out = ListRecipes::list(false, &index);
    let expected_header = format!(
        "{}{}{}{}{}{}{}{}{}",
        "RECIPE ID", " ".repeat(8), "REMOTE", " ".repeat(8), "VERSION", " ".repeat(8),
        "FILENAME", " ".repeat(8), "CREATED \n"
    );
    let expected_row = format!(
        "{}{}{}{}{}{}{}{}{}",
        "012345678", " ".repeat(8), "r", " ".repeat(5 + 8), "v", " ".repeat(6 + 8),
        "f", " ".repeat(7 + 8), "2024-01-02 03:04:05\n"
    );
    assert_eq!(out.as_str(), format!("{}{}", expected_header, expected_row).as_str());

    let full = ListRecipes::list(true, &index);
    assert!(full.contains(&id));
    assert!(full.contains("2024-01-02 03:04:05.99"));
}

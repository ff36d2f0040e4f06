use vectorizer::documents::ModelLocation;
use vectorizer::errors::Error;
use vectorizer::settings::check_settings as performance_check;
use vectorizer::settings::SettingValue;
use vectorizer::settings::Settings;
use vectorizer::startup::check_project;
use vectorizer::startup::check_settings;
use vectorizer::startup::verify_settings;
use vectorizer::startup::Arguments;
use vectorizer::startup::ConfigSource;
use vectorizer::startup::ProjectProbe;

#[test]
fn settings_store_is_typed_and_last_write_wins() {
    let mut s = Settings::new();
    s.set("a", SettingValue::Str("x".to_string()));
    s.set("b", SettingValue::Int(7));
    s.set("c", SettingValue::Bool(true));
    s.set("d", SettingValue::List(vec!["p".to_string(), "q".to_string()]));
    assert_eq!(s.get_str("a").map(String::as_str), Some("x"));
    assert_eq!(s.get_int("b"), Some(7));
    assert_eq!(s.get_bool("c"), Some(true));
    assert_eq!(s.get_list("d").map(Vec::len), Some(2));
    // A key holds one typed value at a time.
    assert_eq!(s.get_int("a"), None);
    assert_eq!(s.get_str("missing"), None);
    s.set("a", SettingValue::Str("y".to_string()));
    assert_eq!(s.get_str("a").map(String::as_str), Some("y"));
    s.set("a", SettingValue::Int(3));
    assert_eq!(s.get_str("a"), None);
    assert_eq!(s.get_int("a"), Some(3));
}

#[test]
fn performance_reporting_defaults_to_off() {
    let mut s = Settings::new();
    assert!(!performance_check(&s));
    s.set("performance.enabled", SettingValue::Bool(true));
    assert!(performance_check(&s));
    s.set("performance.enabled", SettingValue::Bool(false));
    assert!(!performance_check(&s));
}

#[test]
fn argument_defaults() {
    let args = Arguments::new();
    assert_eq!(args.token_max, Some(256));
    assert_eq!(args.remote.as_deref(), Some("L12"));
    assert_eq!(args.collection.as_deref(), Some("document_chunks"));
    assert!(args.project.is_none());
    assert!(args.location.is_none());
}

#[test]
fn matcher_argument_takes_precedence() {
    let mut args = Arguments::new();
    args.apply_match_arguments(
        Some(vec!["*.log".to_string()]),
        Some(vec!["md".to_string()]),
        Some(vec!["target".to_string()]),
        Some(vec!["src".to_string()]),
    );
    assert_eq!(args.matcher, Some(vec!["*.log".to_string()]));
    assert!(args.extensions.is_none());
    assert!(args.ignored.is_none());
    assert!(args.directories.is_none());
}

#[test]
fn match_arguments_apply_without_a_matcher() {
    let mut args = Arguments::new();
    args.apply_match_arguments(
        None,
        Some(vec!["md".to_string()]),
        None,
        Some(vec!["src".to_string()]),
    );
    assert!(args.matcher.is_none());
    assert_eq!(args.extensions, Some(vec!["md".to_string()]));
    assert!(args.ignored.is_none());
    assert_eq!(args.directories, Some(vec!["src".to_string()]));
}

#[test]
fn to_settings_folds_the_given_arguments_in() {
    let mut args = Arguments::new();
    args.project = Some("/proj".to_string());
    args.dburl = Some("http://localhost:6334".to_string());
    args.extensions = Some(vec!["md".to_string()]);
    args.token_max = Some(64);
    args.location = Some(ModelLocation::Remote);
    let mut settings = Settings::new();
    assert!(args.to_settings(&mut settings).is_ok());
    assert_eq!(settings.get_str("indexer.project").map(String::as_str), Some("/proj"));
    assert_eq!(
        settings.get_str("database.url").map(String::as_str),
        Some("http://localhost:6334")
    );
    assert_eq!(settings.get_int("database.max_tokens"), Some(64));
    assert_eq!(settings.get_bool("model.local"), Some(false));
    assert_eq!(settings.get_str("model.location").map(String::as_str), Some("L12"));
    assert_eq!(
        settings.get_list("indexer.extensions"),
        Some(&vec!["md".to_string()])
    );
}

#[test]
fn local_model_requires_a_path() {
    let mut args = Arguments::new();
    args.location = Some(ModelLocation::Local);
    args.location_path = None;
    let mut settings = Settings::new();
    match args.to_settings(&mut settings) {
        Err(Error::Configuration(m)) => assert_eq!(m, "Local model requires a path"),
        _ => panic!("a local model without a path must be refused"),
    }
    args.location_path = Some("/models/mini".to_string());
    assert!(args.to_settings(&mut settings).is_ok());
    assert_eq!(settings.get_bool("model.local"), Some(true));
    assert_eq!(settings.get_str("model.location").map(String::as_str), Some("/models/mini"));
}

#[test]
fn location_defaults_from_settings() {
    let mut settings = Settings::new();
    settings.set("model.local", SettingValue::Str("/m".to_string()));
    let mut args = Arguments::new();
    check_settings(&mut args, &settings);
    assert!(matches!(args.location, Some(ModelLocation::Local)));
    assert_eq!(args.location_path.as_deref(), Some("/m"));

    let empty = Settings::new();
    let mut args = Arguments::new();
    check_settings(&mut args, &empty);
    assert!(matches!(args.location, Some(ModelLocation::Remote)));

    // An explicit location is kept.
    let mut args = Arguments::new();
    args.location = Some(ModelLocation::Remote);
    check_settings(&mut args, &settings);
    assert!(matches!(args.location, Some(ModelLocation::Remote)));
}

#[test]
fn verify_settings_reports_the_first_missing_piece() {
    let mut settings = Settings::new();
    match verify_settings(&settings) {
        Err(Error::Configuration(m)) => assert_eq!(m, "No project path provided"),
        _ => panic!("missing project must be refused"),
    }
    settings.set("indexer.project", SettingValue::Str("/proj".to_string()));
    match verify_settings(&settings) {
        Err(Error::Configuration(m)) => assert_eq!(m, "No database url provided"),
        _ => panic!("missing url must be refused"),
    }
    settings.set("database.url", SettingValue::Str("http://db".to_string()));
    match verify_settings(&settings) {
        Err(Error::Configuration(m)) => assert_eq!(
            m,
            "No extensions provided. Please provide the file extensions you wish to upload."
        ),
        _ => panic!("missing extensions must be refused for a directory"),
    }
    settings.set("indexer.extensions", SettingValue::List(Vec::new()));
    assert!(verify_settings(&settings).is_err());
    settings.set("indexer.extensions", SettingValue::List(vec!["md".to_string()]));
    assert!(verify_settings(&settings).is_ok());
}

#[test]
fn verify_settings_skips_extension_check_for_a_file() {
    let mut settings = Settings::new();
    settings.set("indexer.project", SettingValue::Str("/proj/a.txt".to_string()));
    settings.set("database.url", SettingValue::Str("http://db".to_string()));
    settings.set("indexer.is_file", SettingValue::Bool(true));
    assert!(verify_settings(&settings).is_ok());
}

#[test]
fn check_project_records_the_path_and_picks_a_source() {
    let mut args = Arguments::new();
    args.project = Some("/proj".to_string());
    let mut settings = Settings::new();
    let probe = ProjectProbe {
        is_file: false,
        vector_file_exists: true,
        cwd_vector_file_exists: false,
    };
    let source = check_project(&args, &mut settings, &probe).expect("project file exists");
    assert!(matches!(source, ConfigSource::ProjectFile));
    assert_eq!(settings.get_str("indexer.project").map(String::as_str), Some("/proj"));
    assert_eq!(settings.get_bool("indexer.is_file"), None);
}

#[test]
fn check_project_marks_a_single_file_project() {
    let mut args = Arguments::new();
    args.project = Some("/proj/a.txt".to_string());
    let mut settings = Settings::new();
    let probe = ProjectProbe {
        is_file: true,
        vector_file_exists: true,
        cwd_vector_file_exists: false,
    };
    check_project(&args, &mut settings, &probe).expect("project file exists");
    assert_eq!(settings.get_bool("indexer.is_file"), Some(true));
}

#[test]
fn check_project_creates_a_default_file_when_asked() {
    let mut args = Arguments::new();
    args.project = Some("/proj".to_string());
    let mut settings = Settings::new();
    settings.set("indexer.project_file", SettingValue::Bool(true));
    let probe = ProjectProbe {
        is_file: false,
        vector_file_exists: false,
        cwd_vector_file_exists: false,
    };
    let source = check_project(&args, &mut settings, &probe).expect("default file is created");
    assert!(matches!(source, ConfigSource::CreatedProjectFile));
}

#[test]
fn check_project_falls_back_to_the_working_directory() {
    let mut args = Arguments::new();
    args.project = Some("/proj".to_string());
    let mut settings = Settings::new();
    let probe = ProjectProbe {
        is_file: false,
        vector_file_exists: false,
        cwd_vector_file_exists: true,
    };
    let source = check_project(&args, &mut settings, &probe).expect("working dir file exists");
    assert!(matches!(source, ConfigSource::WorkingDirFile));
}

#[test]
fn check_project_refuses_a_missing_path_or_config() {
    let args = Arguments::new();
    let mut settings = Settings::new();
    let probe = ProjectProbe {
        is_file: false,
        vector_file_exists: false,
        cwd_vector_file_exists: false,
    };
    match check_project(&args, &mut settings, &probe) {
        Err(Error::Configuration(m)) => assert_eq!(m, "No project path provided"),
        _ => panic!("missing project path must be refused"),
    }
    let mut args = Arguments::new();
    args.project = Some("/proj".to_string());
    match check_project(&args, &mut settings, &probe) {
        Err(Error::Configuration(m)) => assert_eq!(m, "No .vectorizer file found"),
        _ => panic!("missing settings file must be refused"),
    }
}

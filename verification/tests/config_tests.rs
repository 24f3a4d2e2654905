use minigrep::run_search;
use minigrep::Config;
use minigrep::ConfigError;

#[test]
fn test_config_new() {
    //test 0 arguments
    let v: Vec<String> = vec![];
    assert_eq!(
        "Didn't get a query string",
        Config::new(&v, false).unwrap_err().message()
    );

    //test < 3 arguments
    let v = vec![String::from("minigrep"), String::from("rusty")];
    assert_eq!(
        "Didn't get a file name",
        Config::new(&v, false).unwrap_err().message()
    );

    //positive test case (ideal)
    let v = vec![
        String::from("minigrep"),
        String::from("word"),
        String::from("data.txt"),
    ];
    assert_eq!(
        Config {
            query: v[1].clone(),
            filename: v[2].clone(),
            case_sensitive: true,
        },
        Config::new(&v, false).unwrap()
    );

    //test extra arguments
    let v = vec![
        "minigrep".to_string(),
        "word".to_string(),
        "data.txt".to_string(),
        "extra-arg".to_string(),
    ];
    assert_eq!(
        Config {
            query: v[1].clone(),
            filename: v[2].clone(),
            case_sensitive: true,
        },
        Config::new(&v, false).unwrap()
    );

    //test using --any to specify insensitive case
    let v = vec![
        "minigrep".to_string(),
        "word".to_string(),
        "data.txt".to_string(),
        "--any".to_string(),
    ];
    assert_eq!(
        Config {
            query: v[1].clone(),
            filename: v[2].clone(),
            case_sensitive: false,
        },
        Config::new(&v, false).unwrap()
    );

    //test using --any to specify insensitive case even after bad-arg
    let v = vec![
        "minigrep".to_string(),
        "word".to_string(),
        "data.txt".to_string(),
        "bad-arg".to_string(),
        "--any".to_string(),
    ];
    assert_eq!(
        Config {
            query: v[1].clone(),
            filename: v[2].clone(),
            case_sensitive: false,
        },
        Config::new(&v, false).unwrap()
    );
}

#[test]
fn test_missing_query_error() {
    let v: Vec<String> = vec![];
    assert_eq!(ConfigError::MissingQuery, Config::new(&v, false).unwrap_err());

    let v = vec![String::from("minigrep")];
    assert_eq!(ConfigError::MissingQuery, Config::new(&v, false).unwrap_err());
    assert_eq!(ConfigError::MissingQuery, Config::new(&v, true).unwrap_err());
}

#[test]
fn test_missing_filename_error() {
    let v = vec![String::from("minigrep"), String::from("rusty")];
    assert_eq!(
        ConfigError::MissingFilename,
        Config::new(&v, false).unwrap_err()
    );
    assert_eq!(
        ConfigError::MissingFilename,
        Config::new(&v, true).unwrap_err()
    );
}

#[test]
fn test_environment_signal_forces_insensitive() {
    let v = vec![
        String::from("minigrep"),
        String::from("word"),
        String::from("data.txt"),
    ];
    let config = Config::new(&v, true).unwrap();
    assert!(!config.case_sensitive);

    let config = Config::new(&v, false).unwrap();
    assert!(config.case_sensitive);
}

#[test]
fn test_any_flag_counts_only_after_filename() {
    // `--any` standing as the query or the file name forces nothing.
    let v = vec![
        String::from("minigrep"),
        String::from("--any"),
        String::from("data.txt"),
    ];
    let config = Config::new(&v, false).unwrap();
    assert_eq!(config.query, "--any");
    assert!(config.case_sensitive);

    let v = vec![
        String::from("minigrep"),
        String::from("word"),
        String::from("--any"),
    ];
    let config = Config::new(&v, false).unwrap();
    assert_eq!(config.filename, "--any");
    assert!(config.case_sensitive);
}

#[test]
fn test_any_flag_overrides_environment() {
    let v = vec![
        String::from("minigrep"),
        String::from("word"),
        String::from("data.txt"),
        String::from("--any"),
    ];
    let config = Config::new(&v, true).unwrap();
    assert!(!config.case_sensitive);
}

#[test]
fn test_run_search_follows_configuration() {
    let contents = "Rust:\nsafe, fast, productive.\nPick three.\nTrust me.";

    let config = Config {
        query: String::from("rUsT"),
        filename: String::from("unused.txt"),
        case_sensitive: false,
    };
    assert_eq!(vec!["Rust:", "Trust me."], run_search(&config, contents));

    let config = Config {
        query: String::from("rUsT"),
        filename: String::from("unused.txt"),
        case_sensitive: true,
    };
    assert!(run_search(&config, contents).is_empty());

    let config = Config {
        query: String::from("Rust"),
        filename: String::from("unused.txt"),
        case_sensitive: true,
    };
    assert_eq!(vec!["Rust:"], run_search(&config, contents));
}

use rsgit::config::{Config, Environment};
use rsgit::error::Error;

fn environment(public_base: Option<&str>) -> Environment {
    Environment {
        addr: None,
        repo_root: None,
        public_base: public_base.map(str::to_string),
    }
}

fn root() -> Result<Vec<String>, String> {
    Ok(vec!["/".to_string(), "srv".to_string()])
}

#[test]
fn defaults_stand_in_for_unset_variables() {
    let env = environment(None);
    assert_eq!(env.addr_text(), "127.0.0.1:8080");
    assert_eq!(env.repo_root_text(), ".");
    let set = Environment {
        addr: Some("0.0.0.0:1".to_string()),
        repo_root: Some("/repos".to_string()),
        public_base: None,
    };
    assert_eq!(set.addr_text(), "0.0.0.0:1");
    assert_eq!(set.repo_root_text(), "/repos");
}

#[test]
fn a_good_environment_makes_a_configuration() {
    let config = Config::from_env(
        environment(Some("https://git.example.com")),
        Ok("127.0.0.1:8080".to_string()),
        root(),
    )
    .unwrap();
    assert_eq!(config.addr(), "127.0.0.1:8080");
    assert_eq!(config.repo_root(), ["/", "srv"]);
    assert_eq!(config.public_base(), Some("https://git.example.com"));
    assert_eq!(config.max_clone_file_bytes(), 128 * 1024 * 1024);
}

#[test]
fn a_blank_public_base_is_none() {
    for blank in ["", " ", "\t\n"] {
        let config =
            Config::from_env(environment(Some(blank)), Ok("a".to_string()), root()).unwrap();
        assert_eq!(config.public_base(), None);
    }
}

#[test]
fn a_bad_address_is_reported_first() {
    let err = Config::from_env(
        environment(None),
        Err("invalid socket address syntax".to_string()),
        Err("no such directory".to_string()),
    )
    .unwrap_err();
    assert!(matches!(err, Error::Config(_)));
    assert_eq!(
        err.message(),
        "configuration error: invalid RSGIT_ADDR: invalid socket address syntax"
    );
}

#[test]
fn a_missing_root_is_an_io_error() {
    let err = Config::from_env(
        environment(None),
        Ok("127.0.0.1:8080".to_string()),
        Err("no such directory".to_string()),
    )
    .unwrap_err();
    assert!(matches!(err, Error::Io(_)));
    assert_eq!(err.message(), "io error: no such directory");
}

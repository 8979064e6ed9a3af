use foundry_core::cli::{u32_validator, BoundError, DocConfig, RetryArgs, Spinner, TermSettings};
use foundry_core::inline_config::{
    parse_config_bool, parse_config_u32, validate_inline_config_type, InlineConfigParserError,
    InlineConfigType, NatSpec,
};

fn natspec(docs: &str) -> NatSpec {
    NatSpec { contract: String::new(), function: String::new(), line: String::new(), docs: docs.to_string() }
}

#[test]
fn can_reject_invalid_profiles() {
    let profiles = vec!["ci".to_string(), "default".to_string()];
    let natspec = natspec(
        r"
            forge-config: ciii.invariant.depth = 1 
            forge-config: default.invariant.depth = 1
            ",
    );
    let result = validate_inline_config_type(&natspec, &profiles);
    assert!(result.is_err());
}

#[test]
fn can_accept_valid_profiles() {
    let profiles = vec!["ci".to_string(), "default".to_string()];
    let natspec = natspec(
        r"
            forge-config: ci.invariant.depth = 1 
            forge-config: default.invariant.depth = 1
            ",
    );
    let result = validate_inline_config_type(&natspec, &profiles);
    assert!(result.is_ok());
}

#[test]
fn can_accept_fixtures() {
    let profiles = vec!["ci".to_string(), "default".to_string()];
    let natspec = natspec(
        r"
            forge-config: fixture
            ",
    );
    let result = validate_inline_config_type(&natspec, &profiles);
    assert!(result.is_ok());
}

#[test]
fn invalid_profile_reports_the_stripped_line() {
    let profiles = vec!["ci".to_string()];
    let r = validate_inline_config_type(&natspec("x\n forge-config: dev.fuzz.runs = 2\n"), &profiles);
    match r {
        Err(e) => assert_eq!(
            e.source,
            InlineConfigParserError::InvalidProfile("forge-config:dev.fuzz.runs=2".to_string())
        ),
        Ok(_) => panic!("expected an error"),
    }
    let r = validate_inline_config_type(&natspec("forge-config: fixture"), &profiles);
    assert_eq!(r, Ok(InlineConfigType::Fixture));
    let r = validate_inline_config_type(&natspec("no config here"), &profiles);
    assert_eq!(r, Ok(InlineConfigType::Profile));
}

#[test]
fn parses_config_numbers_and_flags() {
    assert_eq!(parse_config_u32("runs".to_string(), "500".to_string()), Ok(500));
    assert_eq!(parse_config_u32("runs".to_string(), "+7".to_string()), Ok(7));
    assert_eq!(parse_config_u32("runs".to_string(), "4294967295".to_string()), Ok(u32::MAX));
    assert_eq!(
        parse_config_u32("runs".to_string(), "4294967296".to_string()),
        Err(InlineConfigParserError::ParseInt("runs".to_string(), "4294967296".to_string()))
    );
    assert!(parse_config_u32("runs".to_string(), "-1".to_string()).is_err());
    assert!(parse_config_u32("runs".to_string(), "".to_string()).is_err());
    assert_eq!(parse_config_bool("x".to_string(), "true".to_string()), Ok(true));
    assert_eq!(parse_config_bool("x".to_string(), "false".to_string()), Ok(false));
    assert_eq!(
        parse_config_bool("x".to_string(), "yes".to_string()),
        Err(InlineConfigParserError::ParseBool("x".to_string(), "yes".to_string()))
    );
}

#[test]
fn retries_count_down() {
    let mut r = RetryArgs::new(2, Some(3));
    assert_eq!(r.handle_err(), Some(Some(3)));
    assert_eq!(r.handle_err(), Some(Some(3)));
    assert_eq!(r.handle_err(), None);
    assert_eq!(r.retries, 0);
    assert!(u32_validator(1, 10, "5".to_string()).is_ok());
    assert_eq!(u32_validator(1, 10, "11".to_string()), Err(BoundError::OutOfRange { min: 1, max: 10 }));
    assert!(matches!(u32_validator(1, 10, "x".to_string()), Err(BoundError::NotANumber(_))));
}

#[test]
fn spinner_cycles_its_frames() {
    let mut s = Spinner::with_indicator(vec!["a", "b"], "m".to_string(), TermSettings::new(true));
    assert_eq!(s.tick(), Some("a"));
    assert_eq!(s.tick(), Some("b"));
    assert_eq!(s.tick(), Some("a"));
    s.message("n".to_string());
    assert_eq!(s.message, "n");
    let mut quiet = Spinner::new("m".to_string(), TermSettings::new(false));
    assert_eq!(quiet.tick(), None);
    assert_eq!(quiet.indicator.len(), 10);
    let d = DocConfig::default();
    assert_eq!(d.out, "docs");
    assert!(d.repository.is_none());
}

#[test]
fn bind_args_defaults_and_paths() {
    let mut args = foundry_core::cli::BindArgs {
        root: None,
        out_path: None,
        bindings_root: None,
        crate_name: "foundry-contracts".to_string(),
        crate_version: "0.0.1".to_string(),
        overwrite: false,
        single_file: false,
    };
    assert!(!args.gen_crate());
    assert_eq!(args.bindings_root("out"), "out/bindings");
    args.crate_version = "0.0.2".to_string();
    assert!(args.gen_crate());
    args.bindings_root = Some("gen".to_string());
    assert_eq!(args.bindings_root("out"), "gen");
    assert_eq!(foundry_core::cli::dapp_json_path(), "./out/dapp.sol.json");
}

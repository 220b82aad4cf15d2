use feature_flags::domain::{char_is_whitespace, key_is_blank, DomainError, Environment, FeatureFlag};
use feature_flags::http::{create_flag, map_domain_error, CreateFlagRequest};
use feature_flags::repository::{FlagRepository, InMemoryFlagRepository};
use feature_flags::service::{set_flag_in, FlagService};

fn service() -> FlagService<InMemoryFlagRepository> {
    FlagService::new(InMemoryFlagRepository::new())
}

fn flag(key: &str, enabled: bool, environment: Environment) -> FeatureFlag {
    FeatureFlag::new(key.to_string(), enabled, environment)
}

#[test]
fn set_then_get_shows_one_flag() {
    let mut svc = service();
    let set = svc.set_flag("beta".to_string(), true, Environment::Dev).unwrap();
    assert_eq!(set, flag("beta", true, Environment::Dev));
    assert_eq!(svc.get_flags(Environment::Dev), vec![flag("beta", true, Environment::Dev)]);
}

#[test]
fn setting_twice_keeps_one_flag() {
    let mut svc = service();
    svc.set_flag("beta".to_string(), true, Environment::Prod).unwrap();
    svc.set_flag("beta".to_string(), true, Environment::Prod).unwrap();
    assert_eq!(svc.get_flags(Environment::Prod), vec![flag("beta", true, Environment::Prod)]);
}

#[test]
fn later_state_replaces_earlier() {
    let mut svc = service();
    svc.set_flag("x".to_string(), true, Environment::Dev).unwrap();
    let second = svc.set_flag("x".to_string(), false, Environment::Dev).unwrap();
    assert_eq!(second, flag("x", false, Environment::Dev));
    assert_eq!(svc.get_flags(Environment::Dev), vec![flag("x", false, Environment::Dev)]);
}

#[test]
fn environments_are_isolated() {
    let mut svc = service();
    svc.set_flag("x".to_string(), true, Environment::Dev).unwrap();
    assert!(svc.get_flags(Environment::Staging).is_empty());
    assert!(svc.get_flags(Environment::Prod).is_empty());
}

#[test]
fn same_key_in_two_environments() {
    let mut svc = service();
    svc.set_flag("x".to_string(), true, Environment::Dev).unwrap();
    svc.set_flag("x".to_string(), false, Environment::Prod).unwrap();
    assert_eq!(svc.get_flags(Environment::Dev), vec![flag("x", true, Environment::Dev)]);
    assert_eq!(svc.get_flags(Environment::Prod), vec![flag("x", false, Environment::Prod)]);
}

#[test]
fn blank_keys_are_refused() {
    let mut svc = service();
    assert!(matches!(svc.set_flag("".to_string(), true, Environment::Dev), Err(DomainError::EmptyKey)));
    assert!(matches!(svc.set_flag("   ".to_string(), true, Environment::Dev), Err(DomainError::EmptyKey)));
    assert!(matches!(svc.set_flag("\t\n".to_string(), true, Environment::Dev), Err(DomainError::EmptyKey)));
    assert!(svc.get_flags(Environment::Dev).is_empty());
}

#[test]
fn untrimmed_key_is_stored_as_given() {
    let mut svc = service();
    let set = svc.set_flag(" padded ".to_string(), true, Environment::Staging).unwrap();
    assert_eq!(set.key, " padded ");
    assert_eq!(svc.get_flags(Environment::Staging), vec![flag(" padded ", true, Environment::Staging)]);
}

#[test]
fn listing_keeps_insertion_order() {
    let mut svc = service();
    svc.set_flag("a".to_string(), true, Environment::Dev).unwrap();
    svc.set_flag("b".to_string(), false, Environment::Staging).unwrap();
    svc.set_flag("c".to_string(), false, Environment::Dev).unwrap();
    svc.set_flag("a".to_string(), false, Environment::Dev).unwrap();
    assert_eq!(
        svc.get_flags(Environment::Dev),
        vec![flag("a", false, Environment::Dev), flag("c", false, Environment::Dev)]
    );
}

#[test]
fn repository_upsert_replaces_and_appends() {
    let mut repo = InMemoryFlagRepository::new();
    assert_eq!(repo.upsert(flag("a", true, Environment::Dev)), flag("a", true, Environment::Dev));
    repo.upsert(flag("b", true, Environment::Dev));
    repo.upsert(flag("a", false, Environment::Dev));
    assert_eq!(
        repo.list_by_environment(Environment::Dev),
        vec![flag("a", false, Environment::Dev), flag("b", true, Environment::Dev)]
    );
    assert_eq!(repo.get(&Environment::Dev, "b"), Some(flag("b", true, Environment::Dev)));
    assert_eq!(repo.get(&Environment::Prod, "b"), None);
    assert_eq!(repo.get(&Environment::Dev, "c"), None);
}

#[test]
fn set_flag_in_repository() {
    let mut repo = InMemoryFlagRepository::new();
    let set = set_flag_in(&mut repo, "k".to_string(), true, Environment::Prod).unwrap();
    assert_eq!(set, flag("k", true, Environment::Prod));
    assert!(matches!(set_flag_in(&mut repo, " ".to_string(), true, Environment::Prod), Err(DomainError::EmptyKey)));
    assert_eq!(repo.list_by_environment(Environment::Prod), vec![flag("k", true, Environment::Prod)]);
}

#[test]
fn create_flag_in_staging() {
    let mut svc = service();
    let request = CreateFlagRequest {
        key: "dark-mode".to_string(),
        enabled: true,
        environment: Environment::Staging,
    };
    let created = create_flag(&mut svc, request).unwrap();
    assert_eq!(created, flag("dark-mode", true, Environment::Staging));
    assert_eq!(svc.get_flags(Environment::Staging), vec![flag("dark-mode", true, Environment::Staging)]);
    assert_eq!(svc.get_flags(Environment::Prod), vec![]);
}

#[test]
fn create_flag_with_empty_key() {
    let mut svc = service();
    let request = CreateFlagRequest { key: "".to_string(), enabled: true, environment: Environment::Dev };
    let (status, body) = create_flag(&mut svc, request).unwrap_err();
    assert_eq!(status, 400);
    assert_eq!(body.message, "feature flag key cannot be empty");
}

#[test]
fn duplicate_key_maps_to_conflict() {
    let err = DomainError::DuplicateKey { key: "x".to_string(), environment: Environment::Prod };
    assert_eq!(err.message(), "feature flag key 'x' already exists in environment 'prod'");
    let (status, body) = map_domain_error(err);
    assert_eq!(status, 409);
    assert_eq!(body.message, "feature flag key 'x' already exists in environment 'prod'");
}

#[test]
fn empty_key_message() {
    assert_eq!(DomainError::EmptyKey.message(), "feature flag key cannot be empty");
    assert_eq!(map_domain_error(DomainError::EmptyKey).0, 400);
}

#[test]
fn environment_names() {
    assert_eq!(Environment::Dev.as_str(), "dev");
    assert_eq!(Environment::Staging.as_str(), "staging");
    assert_eq!(Environment::Prod.as_str(), "prod");
}

#[test]
fn environment_parse_ignores_case() {
    assert_eq!(Environment::parse("dev"), Ok(Environment::Dev));
    assert_eq!(Environment::parse("STAGING"), Ok(Environment::Staging));
    assert_eq!(Environment::parse("Prod"), Ok(Environment::Prod));
    assert_eq!(Environment::parse("production"), Err("unsupported environment: production".to_string()));
    assert_eq!(Environment::parse("stage"), Err("unsupported environment: stage".to_string()));
    assert_eq!(Environment::parse(""), Err("unsupported environment: ".to_string()));
}

#[test]
fn blank_key_detection() {
    assert!(key_is_blank(""));
    assert!(key_is_blank("   "));
    assert!(key_is_blank("\u{a0}\u{2003}"));
    assert!(!key_is_blank(" a "));
    assert!(!key_is_blank("dark-mode"));
}

#[test]
fn whitespace_characters() {
    for c in ['\t', '\n', '\u{b}', '\u{c}', '\r', ' ', '\u{85}', '\u{a0}', '\u{1680}', '\u{2000}', '\u{200a}', '\u{2028}', '\u{2029}', '\u{202f}', '\u{205f}', '\u{3000}'] {
        assert!(char_is_whitespace(c), "{:?}", c);
        assert_eq!(char_is_whitespace(c), c.is_whitespace());
    }
    for c in ['a', 'Z', '-', '0', '\u{0}', '\u{200b}', '\u{feff}', '\u{1f600}'] {
        assert!(!char_is_whitespace(c), "{:?}", c);
        assert_eq!(char_is_whitespace(c), c.is_whitespace());
    }
}

#[test]
fn fresh_service_lists_nothing() {
    let svc = service();
    assert!(svc.get_flags(Environment::Dev).is_empty());
    assert!(svc.get_flags(Environment::Staging).is_empty());
    assert!(svc.get_flags(Environment::Prod).is_empty());
}

#[test]
fn service_wraps_given_repository() {
    let mut repo = InMemoryFlagRepository::new();
    repo.upsert(flag("seed", true, Environment::Prod));
    let svc = FlagService::new(repo);
    assert_eq!(svc.get_flags(Environment::Prod), vec![flag("seed", true, Environment::Prod)]);
}

#[test]
fn duplicate_copies_a_flag() {
    let f = flag("x", true, Environment::Dev);
    assert_eq!(f.duplicate(), f);
}

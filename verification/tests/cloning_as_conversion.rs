use perfectionist::cloning_as_conversion::{CloningAsConversion, AS_PREFIX};
use perfectionist::cloning_getter::{CloningGetter, Config};
use perfectionist::diagnostic::Part;
use perfectionist::getter_name_patterns::{is_conversion_name, CONVERSION_PREFIXES};

#[test]
fn the_measured_prefix_is_one_the_getter_rule_refuses() {
    assert!(
        CONVERSION_PREFIXES.contains(&AS_PREFIX),
        "`{AS_PREFIX}` must stay in `CONVERSION_PREFIXES`, or `cloning_getter` would measure \
         the same methods this rule does",
    );
}

#[test]
fn as_method_copying_a_field_is_reported() {
    let rule = CloningAsConversion::new();
    let d = rule.check_method("as_name", Some(("name", "&str"))).unwrap();
    assert_eq!(d.message, "`as_name` copies `self.name`, but `as_` promises a free conversion");
    match &d.parts[0] {
        Part::Help(h) => assert_eq!(h, "either stop it copying: return `&str`, which is free and is what the name promises"),
        _ => panic!("expected a help"),
    }
    assert!(rule.check_method("to_name", Some(("name", "&str"))).is_none());
    assert!(rule.check_method("as_name", None).is_none());
}

#[test]
fn getter_rule_never_measures_a_conversion_name() {
    let rule = CloningGetter::new(&Config::default());
    assert!(is_conversion_name("as_str"));
    assert!(is_conversion_name("into_inner"));
    assert!(!is_conversion_name("get_name"));
    assert!(!rule.is_getter("as_name", true));
    assert!(!rule.is_getter("clone_name", true));
    assert!(rule.is_getter("get_name", false));
    assert!(rule.is_getter("name", true));
    assert!(!rule.is_getter("name", false));
}

#[test]
fn getter_rule_reports_and_exempts_tests() {
    let rule = CloningGetter::new(&Config::default());
    let d = rule.check_method("first_name", true, false, "first_name", "&str").unwrap();
    assert_eq!(d.message, "getter `first_name` returns an owned copy of `self.first_name`");
    assert!(rule.check_method("first_name", true, true, "first_name", "&str").is_none());
}

#[test]
fn getter_rule_exempt_prefixes_follow_the_config() {
    let config = Config {
        extra_exempt_prefixes: vec!["make_".to_owned()],
        ignore_exempt_prefixes: vec!["clone_".to_owned()],
        measure_unmatched_names: true,
        exempt_tests: true,
    };
    let rule = CloningGetter::new(&config);
    assert!(!rule.is_getter("make_name", false));
    assert!(rule.is_getter("clone_name", false));
    assert!(!rule.is_getter("cloned_name", false));
}

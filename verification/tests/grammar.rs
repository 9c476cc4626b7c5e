use e4s_cl_completion::completable::profile_names;
use e4s_cl_completion::{
    ArgumentCount, Command, Completable, ExpectedType, Option_, Positional, Profile,
};

fn words(items: &[&str]) -> Vec<String> {
    items.iter().map(|item| item.to_string()).collect()
}

fn named(names: &[&str], values: &[&str], expected_type: ExpectedType) -> Option_ {
    Option_ {
        names: words(names),
        values: words(values),
        arguments: ArgumentCount::Fixed(1),
        expected_type,
    }
}

fn leaf(name: &str) -> Command {
    Command { name: name.to_string(), subcommands: vec![], positionals: vec![], options: vec![] }
}

fn positional(arguments: ArgumentCount, expected_type: ExpectedType) -> Positional {
    Positional { arguments, expected_type }
}

fn two_profiles() -> Vec<Profile> {
    vec![Profile { name: "dev".to_string() }, Profile { name: "prod".to_string() }]
}

fn tree() -> Command {
    Command {
        name: "tool".to_string(),
        subcommands: vec![leaf("launch"), leaf("rm"), leaf("launch")],
        positionals: vec![],
        options: vec![
            named(&["-p", "--profile"], &[], ExpectedType::Profile()),
            named(&["--backend", "-p"], &["docker", "podman"], ExpectedType::Unknown()),
        ],
    }
}

#[test]
fn is_option_finds_the_option_by_any_name() {
    let root = tree();
    assert_eq!(root.is_option("--profile").unwrap().names, words(&["-p", "--profile"]));
    assert_eq!(root.is_option("--backend").unwrap().names, words(&["--backend", "-p"]));
    assert_eq!(root.option_index("--backend"), Some(1));
}

#[test]
fn is_option_takes_the_first_of_two() {
    let root = tree();
    assert_eq!(root.option_index("-p"), Some(0));
    assert_eq!(root.is_option("-p").unwrap().expected_type, ExpectedType::Profile());
}

#[test]
fn is_option_knows_no_other_token() {
    let root = tree();
    assert!(root.is_option("--prof").is_none());
    assert!(root.is_option("").is_none());
    assert!(root.is_option("launch").is_none());
    assert_eq!(root.option_index("--profiles"), None);
}

#[test]
fn is_subcommand_finds_the_first_of_that_name() {
    let root = tree();
    assert_eq!(root.subcommand_index("launch"), Some(0));
    assert_eq!(root.subcommand_index("rm"), Some(1));
    assert_eq!(root.is_subcommand("rm").unwrap().name, "rm");
}

#[test]
fn is_subcommand_knows_no_other_token() {
    let root = tree();
    assert!(root.is_subcommand("laun").is_none());
    assert!(root.is_subcommand("--profile").is_none());
    assert!(root.is_subcommand("").is_none());
    assert_eq!(root.subcommand_index("tool"), None);
}

#[test]
fn positional_count_sums_the_arities() {
    let mut command = leaf("copy");
    assert_eq!(command.positional_count(), 0);
    command.positionals = vec![
        positional(ArgumentCount::Fixed(2), ExpectedType::Unknown()),
        positional(ArgumentCount::AtMostOne(), ExpectedType::Unknown()),
        positional(ArgumentCount::Fixed(0), ExpectedType::Unknown()),
    ];
    assert_eq!(command.positional_count(), 3);
}

#[test]
fn positional_count_has_no_bound_with_an_open_arity() {
    let mut command = leaf("copy");
    command.positionals = vec![
        positional(ArgumentCount::Fixed(2), ExpectedType::Unknown()),
        positional(ArgumentCount::Any(), ExpectedType::Unknown()),
    ];
    assert_eq!(command.positional_count(), usize::MAX);
    command.positionals = vec![
        positional(ArgumentCount::AtLeastOne(), ExpectedType::Unknown()),
        positional(ArgumentCount::AtLeastOne(), ExpectedType::Unknown()),
    ];
    assert_eq!(command.positional_count(), usize::MAX);
}

#[test]
fn positional_offers_the_profiles_or_nothing() {
    let profiles = two_profiles();
    let wants_profile = positional(ArgumentCount::Fixed(1), ExpectedType::Profile());
    assert_eq!(wants_profile.available(&profiles), words(&["dev", "prod"]));
    let wants_path = positional(ArgumentCount::Fixed(1), ExpectedType::Path());
    assert_eq!(wants_path.available(&profiles), Vec::<String>::new());
    let unknown = positional(ArgumentCount::Fixed(1), ExpectedType::Unknown());
    assert_eq!(unknown.available(&profiles), Vec::<String>::new());
}

#[test]
fn option_offers_the_profiles_or_its_values() {
    let profiles = two_profiles();
    let wants_profile = named(&["--profile"], &["ignored"], ExpectedType::Profile());
    assert_eq!(wants_profile.available(&profiles), words(&["dev", "prod"]));
    let literal = named(&["--backend"], &["docker", "podman"], ExpectedType::Unknown());
    assert_eq!(literal.available(&profiles), words(&["docker", "podman"]));
    let path = named(&["--image"], &[], ExpectedType::Path());
    assert_eq!(path.available(&profiles), Vec::<String>::new());
}

#[test]
fn command_offers_every_name_and_each_value_once() {
    let mut root = tree();
    root.positionals = vec![
        positional(ArgumentCount::Fixed(1), ExpectedType::Profile()),
        positional(ArgumentCount::Fixed(1), ExpectedType::Unknown()),
        positional(ArgumentCount::Any(), ExpectedType::Profile()),
    ];
    let profiles = vec![
        Profile { name: "dev".to_string() },
        Profile { name: "prod".to_string() },
        Profile { name: "dev".to_string() },
    ];
    assert_eq!(
        root.available(&profiles),
        words(&["-p", "--profile", "--backend", "-p", "launch", "rm", "launch", "dev", "prod"])
    );
}

#[test]
fn profile_names_keep_their_order() {
    assert_eq!(profile_names(&two_profiles()), words(&["dev", "prod"]));
    assert_eq!(profile_names(&Vec::new()), Vec::<String>::new());
}

#[test]
fn defaults_are_no_argument_and_unknown_type() {
    assert_eq!(ArgumentCount::default(), ArgumentCount::Fixed(0));
    assert_eq!(ExpectedType::default(), ExpectedType::Unknown());
}

#[test]
fn arity_tags_are_decoded() {
    assert_eq!(ArgumentCount::from_tag("ARGS_SOME"), Some(ArgumentCount::Any()));
    assert_eq!(ArgumentCount::from_tag("ARGS_ATLEASTONE"), Some(ArgumentCount::AtLeastOne()));
    assert_eq!(ArgumentCount::from_tag("ARGS_ATMOSTONE"), Some(ArgumentCount::AtMostOne()));
}

#[test]
fn unknown_arity_tag_is_refused() {
    assert_eq!(ArgumentCount::from_tag("ARGS_NONE"), None);
    assert_eq!(ArgumentCount::from_tag("args_some"), None);
    assert_eq!(ArgumentCount::from_tag(""), None);
}

#[test]
fn type_tags_are_decoded() {
    assert_eq!(ExpectedType::from_tag("DEFINED_PROFILE"), Some(ExpectedType::Profile()));
}

#[test]
fn unknown_type_tag_is_refused() {
    assert_eq!(ExpectedType::from_tag("NO_SUCH_TYPE"), None);
    assert_eq!(ExpectedType::from_tag("defined_profile"), None);
    assert_eq!(ExpectedType::from_tag(""), None);
}

#[test]
fn has_name_knows_each_name_of_the_option() {
    let option = named(&["-p", "--profile"], &["-x"], ExpectedType::Unknown());
    assert!(option.has_name(&"-p".to_string()));
    assert!(option.has_name(&"--profile".to_string()));
    assert!(!option.has_name(&"-x".to_string()));
    assert!(!option.has_name(&"".to_string()));
}

#[test]
fn subcommand_names_are_appended_in_order() {
    let mut target = words(&["first"]);
    tree().push_subcommand_names(&mut target);
    assert_eq!(target, words(&["first", "launch", "rm", "launch"]));
    leaf("alone").push_subcommand_names(&mut target);
    assert_eq!(target, words(&["first", "launch", "rm", "launch"]));
}

//! The command model and the argument cursor, exercised end to end.

use notion_agent::args::CommandArgs;
use notion_agent::command::{CommandType, NotionCommand};

#[test]
fn parse_succeeds_with_one_token() {
    let cmd = NotionCommand::from_string("whoami".to_string()).unwrap();
    assert!(matches!(cmd.command_type, CommandType::Whoami));
}

#[test]
fn parse_succeeds_with_many_tokens() {
    let cmd = NotionCommand::from_string("shell cat /etc/passwd".to_string()).unwrap();
    assert!(matches!(cmd.command_type, CommandType::Shell));
    assert_eq!(cmd.args.to_string(), "cat /etc/passwd");
}

#[test]
fn parse_fails_on_empty_instruction() {
    assert!(NotionCommand::from_string("".to_string()).is_err());
}

#[test]
fn parse_fails_on_whitespace_only_instruction() {
    assert!(NotionCommand::from_string("   ".to_string()).is_err());
}

#[test]
fn parse_fails_on_tab_only_instruction() {
    assert!(NotionCommand::from_string("\t".to_string()).is_err());
    assert!(NotionCommand::from_string(" \t \n ".to_string()).is_err());
}

#[test]
fn parse_error_carries_a_message() {
    let err = match NotionCommand::from_string("".to_string()) {
        Err(e) => e,
        Ok(_) => panic!("empty instruction should not parse"),
    };
    assert_eq!(err.message().as_str(), "Could not parse command!");
}

#[test]
fn unrecognized_verb_is_unknown_not_an_error() {
    let cmd = NotionCommand::from_string("frobnicate a b".to_string()).unwrap();
    assert!(matches!(cmd.command_type, CommandType::Unknown));
}

#[test]
fn verb_lookup_is_case_sensitive() {
    let cmd = NotionCommand::from_string("Shell id".to_string()).unwrap();
    assert!(matches!(cmd.command_type, CommandType::Unknown));
}

#[test]
fn cd_instruction_parses_into_kind_and_args() {
    let mut cmd = NotionCommand::from_string("cd ../tmp".to_string()).unwrap();
    assert!(matches!(cmd.command_type, CommandType::Cd));
    assert_eq!(cmd.args.next(), Some("../tmp".to_string()));
    assert_eq!(cmd.args.next(), None);
}

#[test]
fn every_vocabulary_verb_maps_to_its_kind() {
    let cases: Vec<(&str, CommandType)> = vec![
        ("azupload", CommandType::AzUpload),
        ("cd", CommandType::Cd),
        ("config", CommandType::Config),
        ("download", CommandType::Download),
        ("elevate", CommandType::Elevate),
        ("getprivs", CommandType::Getprivs),
        ("getsystem", CommandType::Getsystem),
        ("inject", CommandType::Inject),
        ("ls", CommandType::Ls),
        ("persist", CommandType::Persist),
        ("portscan", CommandType::Portscan),
        ("ps", CommandType::Ps),
        ("pwd", CommandType::Pwd),
        ("rev2self", CommandType::Rev2Self),
        ("runas", CommandType::Runas),
        ("s3upload", CommandType::S3Upload),
        ("save", CommandType::Save),
        ("selfdestruct", CommandType::Selfdestruct),
        ("shell", CommandType::Shell),
        ("shutdown", CommandType::Shutdown),
        ("sysinfo", CommandType::Sysinfo),
        ("whoami", CommandType::Whoami),
    ];
    for (verb, kind) in cases {
        let cmd = NotionCommand::from_string(verb.to_string()).unwrap();
        assert_eq!(cmd.command_type, kind);
    }
}

#[test]
fn cursor_consuming_past_the_end_always_yields_none() {
    let mut args = CommandArgs::from_string("a b c".to_string());
    assert_eq!(args.next(), Some("a".to_string()));
    assert_eq!(args.next(), Some("b".to_string()));
    assert_eq!(args.next(), Some("c".to_string()));
    assert_eq!(args.next(), None);
    assert_eq!(args.next(), None);
    assert_eq!(args.next(), None);
}

#[test]
fn cursor_on_no_tokens_yields_none_at_once() {
    let mut args = CommandArgs::from_string(" ".to_string());
    assert_eq!(args.next(), None);
}

#[test]
fn tokenization_discards_empty_fields_and_trims() {
    let mut args = CommandArgs::from_string("  one   two  ".to_string());
    assert_eq!(args.next(), Some("one".to_string()));
    assert_eq!(args.next(), Some("two".to_string()));
    assert_eq!(args.next(), None);
}

#[test]
fn tokens_are_never_empty_even_for_tab_fields() {
    let mut args = CommandArgs::from_string(" \t a \tb\t ".to_string());
    assert_eq!(args.next(), Some("a".to_string()));
    assert_eq!(args.next(), Some("b".to_string()));
    assert_eq!(args.next(), None);
}

#[test]
fn from_split_filters_and_trims_fields() {
    let fields = vec!["".to_string(), "alpha".to_string(), "".to_string(), "beta".to_string()];
    let mut args = CommandArgs::from_split(fields);
    assert_eq!(args.next(), Some("alpha".to_string()));
    assert_eq!(args.next(), Some("beta".to_string()));
    assert_eq!(args.next(), None);
}

#[test]
fn new_wraps_tokens_unchanged() {
    let mut args = CommandArgs::new(vec!["x y z".to_string()]);
    assert_eq!(args.next(), Some("x y z".to_string()));
    assert_eq!(args.next(), None);
}

#[test]
fn to_string_joins_all_tokens_with_spaces() {
    let args = CommandArgs::from_string("  cat   /tmp/f  ".to_string());
    assert_eq!(args.to_string(), "cat /tmp/f");
}

#[test]
fn to_string_rejoins_only_unconsumed_tokens() {
    let mut args = CommandArgs::from_string("cat /tmp/f extra".to_string());
    assert_eq!(args.next(), Some("cat".to_string()));
    assert_eq!(args.to_string(), "/tmp/f extra");
    assert_eq!(args.next(), Some("/tmp/f".to_string()));
    assert_eq!(args.to_string(), "extra");
}

#[test]
fn cd_argument_defaults_to_the_current_directory() {
    let mut args = CommandArgs::from_string("../tmp".to_string());
    assert_eq!(notion_agent::cd::path_argument(&mut args).as_str(), "../tmp");
    assert_eq!(notion_agent::cd::path_argument(&mut args).as_str(), ".");
    assert_eq!(
        notion_agent::cd::success_message("../tmp").as_str(),
        "Changed to ../tmp"
    );
}

#[test]
fn collect_remaining_drains_the_rest() {
    let mut args = CommandArgs::from_string("one two three".to_string());
    assert_eq!(args.next(), Some("one".to_string()));
    let rest = args.collect_remaining();
    assert_eq!(rest, vec!["two".to_string(), "three".to_string()]);
    assert_eq!(args.next(), None);
}

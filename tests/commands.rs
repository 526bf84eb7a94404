use oatmeal::command::SlashCommand;

#[test]
fn commands_without_arguments() {
    assert_eq!(SlashCommand::parse("/quit"), Some(SlashCommand::Quit));
    assert_eq!(SlashCommand::parse("  /help me"), Some(SlashCommand::Help));
    assert_eq!(SlashCommand::parse("/modellist"), Some(SlashCommand::ModelList));
}

#[test]
fn model_takes_a_trimmed_name() {
    assert_eq!(
        SlashCommand::parse(" /model  gpt-4o mini \t"),
        Some(SlashCommand::Model("gpt-4o mini".to_string()))
    );
    assert_eq!(SlashCommand::parse("/model   "), None);
}

#[test]
fn code_block_commands_take_a_number() {
    assert_eq!(SlashCommand::parse("/append 2"), Some(SlashCommand::Append(2)));
    assert_eq!(SlashCommand::parse("/replace 10 "), Some(SlashCommand::Replace(10)));
    assert_eq!(SlashCommand::parse("/copy 07"), Some(SlashCommand::Copy(7)));
    assert_eq!(SlashCommand::parse("/copy x"), None);
    assert_eq!(SlashCommand::parse("/copy"), None);
    assert_eq!(SlashCommand::parse("/copy -1"), None);
    assert_eq!(
        SlashCommand::parse("/replace 18446744073709551615"),
        Some(SlashCommand::Replace(usize::MAX))
    );
    assert_eq!(SlashCommand::parse("/replace 18446744073709551616"), None);
}

#[test]
fn other_text_is_no_command() {
    assert_eq!(SlashCommand::parse("hello /quit"), None);
    assert_eq!(SlashCommand::parse("/quitting"), None);
    assert_eq!(SlashCommand::parse(""), None);
    assert_eq!(SlashCommand::parse("/"), None);
}

use oatmeal::codeblock::{code_block, code_blocks_of};
use oatmeal::model::{Author, Message};

#[test]
fn fenced_blocks_are_extracted() {
    assert_eq!(
        code_blocks_of("look:\n```rust\nfn main() {}\nlet x = 1;\n```\ndone"),
        vec!["fn main() {}\nlet x = 1;".to_string()]
    );
    assert_eq!(code_blocks_of("```\na\nb"), vec!["a\nb".to_string()]);
    assert_eq!(code_blocks_of("```\n```"), vec![String::new()]);
    assert!(code_blocks_of("no code here").is_empty());
}

#[test]
fn blocks_are_numbered_across_the_conversation() {
    let messages = vec![
        Message::new(Author::Model, "```\nA\n```"),
        Message::new(Author::User, "thanks"),
        Message::new(Author::Model, "```py\nB\n```\nand\n```\nC\n```"),
    ];
    assert_eq!(code_block(&messages, 1), Some("A".to_string()));
    assert_eq!(code_block(&messages, 2), Some("B".to_string()));
    assert_eq!(code_block(&messages, 3), Some("C".to_string()));
    assert_eq!(code_block(&messages, 0), None);
    assert_eq!(code_block(&messages, 4), None);
}

use oatmeal::command::{dispatch, CommandAction};
use oatmeal::model::AcceptType;

#[test]
fn commands_become_actions() {
    let messages = vec![Message::new(Author::Model, "```\nA\n```\n```\nB\n```")];
    let act = |t: &str| dispatch(SlashCommand::parse(t), &messages);
    assert!(matches!(act("/quit"), CommandAction::Quit));
    assert!(matches!(act("/help"), CommandAction::Help));
    assert!(matches!(act("/modellist"), CommandAction::ListModels));
    assert!(matches!(act("/model x"), CommandAction::SwitchModel(m) if m == "x"));
    assert!(matches!(act("/append 2"), CommandAction::Accept(c, AcceptType::Append) if c == "B"));
    assert!(matches!(act("/replace 1"), CommandAction::Accept(c, AcceptType::Replace) if c == "A"));
    assert!(matches!(act("/copy 1"), CommandAction::CopyCode(c) if c == "A"));
    assert!(matches!(act("/copy 3"), CommandAction::NoSuchBlock(3)));
    assert!(matches!(act("/nope"), CommandAction::Unknown));
    assert!(matches!(act("hello"), CommandAction::Unknown));
}

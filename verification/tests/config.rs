use twitchvod::config::{parse_config, Action, CommandExecutor, ConfigEntry, Executor, ExecutorTable};
use twitchvod::error::Failure;
use twitchvod::substitutions::Substitutions;

fn texts(items: Vec<&str>) -> Vec<String> {
    items.into_iter().map(|s| s.to_string()).collect()
}

fn values(pairs: Vec<(&str, &str)>) -> Substitutions {
    let mut map = Substitutions::new();
    for (name, value) in pairs {
        map.insert(name, value.to_string());
    }
    map
}

fn command(items: Vec<&str>) -> CommandExecutor {
    match CommandExecutor::new(&texts(items)) {
        Ok(c) => c,
        Err(e) => panic!("refused: {:?}", e),
    }
}

#[test]
fn a_command_without_program_is_invalid() {
    assert!(matches!(CommandExecutor::new(&texts(vec![])), Err(Failure::InvalidCommand)));
}

#[test]
fn a_command_renders_to_its_command_line() {
    let line = command(vec!["echo", "${url}"]).command_line(&values(vec![("url", "X")]));
    assert_eq!(line, Ok(texts(vec!["echo", "X"])));
}

#[test]
fn a_command_line_keeps_the_order_of_the_templates() {
    let line = command(vec!["${player}", "--title=${title}", "${url}", "-"])
        .command_line(&values(vec![("player", "mpv"), ("title", "T"), ("url", "U")]));
    assert_eq!(line, Ok(texts(vec!["mpv", "--title=T", "U", "-"])));
}

#[test]
fn a_command_fails_on_a_name_without_value() {
    let line = command(vec!["echo", "${url}", "${nothing}"]).command_line(&values(vec![("url", "X")]));
    assert_eq!(line, Err(Failure::TemplateRenderError));
    let line = command(vec!["${nothing}"]).command_line(&values(vec![]));
    assert_eq!(line, Err(Failure::TemplateRenderError));
}

#[test]
fn printing_writes_the_url() {
    let action = Executor::Print.action(&values(vec![("url", "https://d/s/720p60/index-dvr.m3u8"), ("title", "t")]));
    match action {
        Ok(Action::Print(text)) => assert_eq!(text, "https://d/s/720p60/index-dvr.m3u8"),
        other => panic!("unexpected: {:?}", other),
    }
}

#[test]
fn a_command_runs_its_program_with_arguments() {
    let executor = Executor::from(command(vec!["mpv", "--force-media-title=${title}", "${url}"]));
    match executor.action(&values(vec![("url", "U"), ("title", "T")])) {
        Ok(Action::Run { program, arguments }) => {
            assert_eq!(program, "mpv");
            assert_eq!(arguments, texts(vec!["--force-media-title=T", "U"]));
        },
        other => panic!("unexpected: {:?}", other),
    }
}

#[test]
fn a_program_alone_has_no_arguments() {
    let executor = Executor::Command(command(vec!["true"]));
    match executor.action(&values(vec![])) {
        Ok(Action::Run { program, arguments }) => {
            assert_eq!(program, "true");
            assert!(arguments.is_empty());
        },
        other => panic!("unexpected: {:?}", other),
    }
}

#[test]
fn a_command_that_does_not_render_is_not_run() {
    let executor = Executor::from(command(vec!["mpv", "${url}"]));
    assert!(matches!(executor.action(&values(vec![("title", "T")])), Err(Failure::TemplateRenderError)));
}

#[test]
fn a_command_becomes_an_executor() {
    assert!(matches!(Executor::from(command(vec!["a"])), Executor::Command(_)));
}

#[test]
fn configuration_defines_executors() {
    let text = "mpv:\n  - mpv\n  - '--force-media-title=${title}'\n  - '${url}'\nvlc: [vlc, '${url}']\n";
    let table = match parse_config(text.as_bytes()) {
        Ok(table) => table,
        Err(e) => panic!("refused: {:?}", e),
    };
    assert_eq!(table.len(), 2);
    let executor = match table.take("mpv") {
        Ok(executor) => executor,
        Err(e) => panic!("refused: {:?}", e),
    };
    let line = executor.command_line(&values(vec![("url", "U"), ("title", "T")]));
    assert_eq!(line, Ok(texts(vec!["mpv", "--force-media-title=T", "U"])));
}

#[test]
fn configuration_with_an_empty_command_is_invalid() {
    assert!(matches!(parse_config("play: []\n".as_bytes()), Err(Failure::InvalidCommand)));
    assert!(matches!(
        parse_config("mpv: [mpv, '${url}']\nplay: []\n".as_bytes()),
        Err(Failure::InvalidCommand)
    ));
}

#[test]
fn configuration_that_is_malformed_is_refused() {
    assert!(matches!(parse_config("- a\n- b\n".as_bytes()), Err(Failure::ConfigParseError)));
    assert!(matches!(parse_config("mpv: just text\n".as_bytes()), Err(Failure::ConfigParseError)));
    assert!(matches!(parse_config("mpv: [a, [b]]\n".as_bytes()), Err(Failure::ConfigParseError)));
    assert!(matches!(parse_config("mpv: [a\n".as_bytes()), Err(Failure::ConfigParseError)));
    assert!(matches!(parse_config(&[0xff, 0xfe, 0x00][..]), Err(Failure::ConfigParseError)));
}

#[test]
fn configuration_that_gives_a_name_twice_keeps_the_later_command() {
    let table = match parse_config("play: [one]\nplay: [two, '${url}']\n".as_bytes()) {
        Ok(table) => table,
        Err(e) => panic!("refused: {:?}", e),
    };
    assert_eq!(table.len(), 1);
    let found = match table.take("play") {
        Ok(executor) => executor,
        Err(e) => panic!("refused: {:?}", e),
    };
    assert_eq!(found.command_line(&values(vec![("url", "U")])), Ok(texts(vec!["two", "U"])));
}

#[test]
fn configuration_without_executors() {
    let table = match parse_config("{}\n".as_bytes()) {
        Ok(table) => table,
        Err(e) => panic!("refused: {:?}", e),
    };
    assert_eq!(table.len(), 0);
    assert_eq!(ExecutorTable::new().len(), 0);
}

#[test]
fn an_executor_that_is_not_configured_is_unknown() {
    assert!(matches!(ExecutorTable::new().take("missing"), Err(Failure::UnknownExecutor)));
    let table = match parse_config("mpv: [mpv]\n".as_bytes()) {
        Ok(table) => table,
        Err(e) => panic!("refused: {:?}", e),
    };
    assert!(matches!(table.take("missing"), Err(Failure::UnknownExecutor)));
    let table = match parse_config("mpv: [mpv]\n".as_bytes()) {
        Ok(table) => table,
        Err(e) => panic!("refused: {:?}", e),
    };
    assert!(matches!(table.take("MPV"), Err(Failure::UnknownExecutor)));
}

#[test]
fn a_name_has_one_command() {
    let entries = vec![
        ConfigEntry { name: "b".to_string(), command: texts(vec!["one"]) },
        ConfigEntry { name: "a".to_string(), command: texts(vec!["two"]) },
        ConfigEntry { name: "b".to_string(), command: texts(vec!["three", "${url}"]) },
        ConfigEntry { name: "c".to_string(), command: texts(vec!["four"]) },
        ConfigEntry { name: "b".to_string(), command: texts(vec!["five"]) },
    ];
    for (name, expected) in [("a", "two"), ("b", "five"), ("c", "four")] {
        let table = match ExecutorTable::from_entries(&entries) {
            Ok(table) => table,
            Err(e) => panic!("refused: {:?}", e),
        };
        assert_eq!(table.len(), 3);
        let found = match table.take(name) {
            Ok(executor) => executor,
            Err(e) => panic!("refused: {:?}", e),
        };
        assert_eq!(found.command_line(&values(vec![])), Ok(texts(vec![expected])));
    }
}

#[test]
fn entries_become_a_table() {
    let entries = vec![
        ConfigEntry { name: "a".to_string(), command: texts(vec!["one", "${url}"]) },
        ConfigEntry { name: "b".to_string(), command: texts(vec!["two"]) },
        ConfigEntry { name: "a".to_string(), command: texts(vec!["three"]) },
    ];
    let table = match ExecutorTable::from_entries(&entries) {
        Ok(table) => table,
        Err(e) => panic!("refused: {:?}", e),
    };
    assert_eq!(table.len(), 2);
    let found = match table.take("a") {
        Ok(executor) => executor,
        Err(e) => panic!("refused: {:?}", e),
    };
    assert_eq!(found.command_line(&values(vec![("url", "U")])), Ok(texts(vec!["three"])));

    let entries = vec![
        ConfigEntry { name: "a".to_string(), command: texts(vec!["one"]) },
        ConfigEntry { name: "b".to_string(), command: texts(vec![]) },
    ];
    assert!(matches!(ExecutorTable::from_entries(&entries), Err(Failure::InvalidCommand)));
}

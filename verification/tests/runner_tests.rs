use toto::item::{SuggestionOpts, VariableMap};
use toto::picker::{Height, PickResult};
use toto::runner::{
    choose_suggestion, extract_column, interpolate, mapped_value, picked_value, placeholders, suggestion_command,
    suggestion_picker_config, variable_prompts, Interpolation, SuggestionChoice,
};

#[test]
fn extract_column_default() {
    let opts = SuggestionOpts::default();
    assert_eq!(extract_column("hello world", &opts), "hello world");
}

#[test]
fn extract_column_whitespace() {
    let opts = SuggestionOpts {
        column: Some(2),
        ..Default::default()
    };
    assert_eq!(extract_column("abc  def  ghi", &opts), "def");
}

#[test]
fn extract_column_delimiter() {
    let opts = SuggestionOpts {
        column: Some(2),
        delimiter: Some(";".to_string()),
        ..Default::default()
    };
    assert_eq!(extract_column("abc;def;ghi", &opts), "def");
}

#[test]
fn extract_column_out_of_range_and_zero() {
    let opts = SuggestionOpts { column: Some(5), ..Default::default() };
    assert_eq!(extract_column("  a b  ", &opts), "a b");
    let opts = SuggestionOpts { column: Some(0), ..Default::default() };
    assert_eq!(extract_column("  a b  ", &opts), "  a b  ");
    let opts = SuggestionOpts { column: Some(2), delimiter: Some(",".into()), ..Default::default() };
    assert_eq!(extract_column("x, y ,z", &opts), "y");
}

#[test]
fn var_regex_finds_variables() {
    let matches = placeholders("ssh <user>@<host> -p <port>");
    assert_eq!(matches, vec!["user", "host", "port"]);
}

#[test]
fn var_regex_no_match() {
    let matches = placeholders("echo hello world");
    assert!(matches.is_empty());
}

#[test]
fn placeholders_are_distinct_in_order() {
    let names = placeholders("cp <src> <dst> && ls <src> <a-b_1> <1x> <>");
    assert_eq!(names, vec!["src", "dst", "a-b_1", "1x"]);
}

#[test]
fn interpolate_replaces_every_occurrence() {
    let answers = vec![
        ("src".to_string(), Some("a.txt".to_string())),
        ("dst".to_string(), Some("b.txt".to_string())),
    ];
    assert_eq!(interpolate("cp <src> <dst>; ls <src>", &answers), Some("cp a.txt b.txt; ls a.txt".to_string()));
}

#[test]
fn interpolate_cancelled() {
    let answers = vec![
        ("src".to_string(), Some("a".to_string())),
        ("dst".to_string(), None),
    ];
    assert_eq!(interpolate("cp <src> <dst>", &answers), None);
}

#[test]
fn interpolate_without_answers_keeps_snippet() {
    assert_eq!(interpolate("echo <x>", &Vec::new()), Some("echo <x>".to_string()));
}

#[test]
fn prompts_carry_suggestions() {
    let mut vm = VariableMap::default();
    vm.insert_suggestion("git", "branch", ("git branch".into(), None));
    let prompts = variable_prompts("git checkout <branch> <file> <branch>", "git", &vm);
    assert_eq!(prompts.len(), 2);
    assert_eq!(prompts[0].name, "branch");
    assert_eq!(prompts[0].suggestion.as_ref().map(|s| s.0.clone()), Some("git branch".to_string()));
    assert_eq!(prompts[1].name, "file");
    assert!(prompts[1].suggestion.is_none());
}

#[test]
fn suggestion_command_is_trimmed() {
    assert_eq!(suggestion_command("  ls -1 "), Some("ls -1".to_string()));
    assert_eq!(suggestion_command("   "), None);
}

#[test]
fn suggestion_output_choices() {
    assert!(matches!(choose_suggestion("\n\n", &None), SuggestionChoice::Freeform));
    match choose_suggestion("a\n\nb\n", &None) {
        SuggestionChoice::Pick(items, q) => {
            assert_eq!(items, vec!["a".to_string(), "b".to_string()]);
            assert!(q.is_none());
        }
        _ => panic!("expected a pick"),
    }
    let opts = SuggestionOpts { filter: Some("b".into()), column: Some(2), ..Default::default() };
    match choose_suggestion("a 1\nb 2\nb 3\n", &Some(opts)) {
        SuggestionChoice::Value(v, m) => {
            assert_eq!(v, "2");
            assert!(m.is_none());
        }
        _ => panic!("expected a value"),
    }
    let opts = SuggestionOpts { filter: Some("z".into()), query: Some("q".into()), ..Default::default() };
    match choose_suggestion("a\nb\n", &Some(opts)) {
        SuggestionChoice::Pick(items, q) => {
            assert_eq!(items.len(), 2);
            assert_eq!(q, Some("q".to_string()));
        }
        _ => panic!("expected a pick"),
    }
}

#[test]
fn picker_result_gives_value() {
    let opts = Some(SuggestionOpts { column: Some(1), ..Default::default() });
    let r = PickResult::Selected(0, "x y".into());
    assert_eq!(picked_value(&r, &opts), Some(("x".to_string(), None)));
    assert_eq!(picked_value(&r, &None), Some(("x y".to_string(), None)));
    let mapped = Some(SuggestionOpts { map: Some("tr a-z A-Z".into()), ..Default::default() });
    assert_eq!(picked_value(&r, &mapped), Some(("x y".to_string(), Some("tr a-z A-Z".to_string()))));
    assert_eq!(mapped_value("ABC\r\n"), "ABC");
    assert_eq!(mapped_value("A\n\n"), "A\n");
    let opts2 = SuggestionOpts { filter: Some("b".into()), map: Some("rev".into()), ..Default::default() };
    match choose_suggestion("a\nb\n", &Some(opts2)) {
        SuggestionChoice::Value(v, m) => {
            assert_eq!(v, "b");
            assert_eq!(m, Some("rev".to_string()));
        }
        _ => panic!("expected a value"),
    }
    assert_eq!(picked_value(&PickResult::Cancelled, &opts), None);
    let cfg = suggestion_picker_config("host", &Some(SuggestionOpts { query: Some("lo".into()), ..Default::default() }));
    assert_eq!(cfg.prompt, "host");
    assert_eq!(cfg.height, Height::Full);
    assert_eq!(cfg.initial_query, Some("lo".to_string()));
    assert!(!cfg.edit_enabled);
}

#[test]
fn interpolation_session_prompts_each_name_once_in_order() {
    let vm = VariableMap::default();
    let mut s = Interpolation::start("ssh <user>@<host> -p <port> # <user>", "net", &vm);
    let mut asked = Vec::new();
    while let Some(p) = s.next_prompt() {
        let name = p.name.clone();
        asked.push(name.clone());
        s.answer(Some(format!("{name}!")));
    }
    assert_eq!(asked, vec!["user", "host", "port"]);
    assert_eq!(s.result(), Some(Some("ssh user!@host! -p port! # user!".to_string())));
}

#[test]
fn interpolation_session_stops_at_cancel() {
    let vm = VariableMap::default();
    let mut s = Interpolation::start("cp <a> <b>", "t", &vm);
    assert_eq!(s.result(), None);
    s.answer(None);
    assert!(s.next_prompt().is_none());
    assert_eq!(s.result(), Some(None));
}

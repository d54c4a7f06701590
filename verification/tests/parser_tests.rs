use toto::parser::{parse_lines, parse_opts, parse_variable_line, strip_markdown_inline, ParseResult, VarLineError};

/// Parse a string as a trick file.
fn parse(input: &str) -> ParseResult {
    let lines: Vec<String> = input.lines().map(|s| s.to_string()).collect();
    parse_lines(&lines, "test.trick.md").unwrap()
}

#[test]
fn strip_bold() {
    assert_eq!(strip_markdown_inline("**bold**"), "bold");
}

#[test]
fn strip_italic() {
    assert_eq!(strip_markdown_inline("*italic*"), "italic");
}

#[test]
fn strip_mixed() {
    assert_eq!(
        strip_markdown_inline("Run **this** and *that*"),
        "Run this and that"
    );
}

#[test]
fn strip_none() {
    assert_eq!(strip_markdown_inline("plain text"), "plain text");
}

#[test]
fn h1_becomes_tags() {
    let r = parse("# ssh\n\n## login\n\n```\nssh <host>\n```\n");
    assert_eq!(r.items.len(), 1);
    assert_eq!(r.items[0].tags, "ssh");
    assert_eq!(r.items[0].comment, "login");
    assert_eq!(r.items[0].snippet, "ssh <host>");
}

#[test]
fn multiple_h1_sections() {
    let r = parse(
        "# net\n\n## ping\n\n```\nping <h>\n```\n\n# files\n\n## ls\n\n```\nls -la\n```\n",
    );
    assert_eq!(r.items.len(), 2);
    assert_eq!(r.items[0].tags, "net");
    assert_eq!(r.items[1].tags, "files");
}

#[test]
fn multiple_snippets_under_h1() {
    let r = parse(
        "# podman\n\n## ps\n\n```\npodman ps\n```\n\n## stop\n\n```\npodman stop <id>\n```\n",
    );
    assert_eq!(r.items.len(), 2);
    assert_eq!(r.items[0].tags, "podman");
    assert_eq!(r.items[1].tags, "podman");
    assert_eq!(r.items[0].comment, "ps");
    assert_eq!(r.items[1].comment, "stop");
}

#[test]
fn prose_skipped_outside_code_blocks() {
    let r = parse("# tools\n\nSome intro prose.\n\n## dig\n\n```\ndig <d>\n```\n");
    assert_eq!(r.items.len(), 1);
    assert!(!r.items[0].snippet.contains("intro"));
}

#[test]
fn prose_becomes_comment_when_no_heading() {
    let r = parse("# net\n\nSends ICMP packets\n\n```\nping <h>\n```\n");
    assert_eq!(r.items.len(), 1);
    assert_eq!(r.items[0].comment, "Sends ICMP packets");
}

#[test]
fn h2_overrides_prose() {
    let r = parse("# net\n\n## Ping host\n\nExtra prose.\n\n```\nping <h>\n```\n");
    assert_eq!(r.items[0].comment, "Ping host");
    assert_eq!(r.items[0].detail.as_deref(), Some("Extra prose."));
}

#[test]
fn list_item_as_comment() {
    let r = parse("# tools\n\n- Test connectivity\n\n```\nping <h>\n```\n");
    assert_eq!(r.items[0].comment, "Test connectivity");
}

#[test]
fn detail_multiline_prose() {
    let r = parse(
        "# tools\n\n## Run scan\n\nThis does a full scan.\nIt may take a while.\n\n```\nnmap -p- <host>\n```\n",
    );
    assert_eq!(r.items[0].comment, "Run scan");
    assert_eq!(
        r.items[0].detail.as_deref(),
        Some("This does a full scan.\nIt may take a while.")
    );
}

#[test]
fn no_detail_when_no_prose() {
    let r = parse("# t\n\n## cmd\n\n```\necho hi\n```\n");
    assert!(r.items[0].detail.is_none());
}

#[test]
fn prose_without_heading_becomes_comment_not_detail() {
    let r = parse("# net\n\nSends ICMP packets\n\n```\nping <h>\n```\n");
    assert_eq!(r.items[0].comment, "Sends ICMP packets");
    assert!(r.items[0].detail.is_none());
}

#[test]
fn formatting_stripped_from_headings() {
    let r = parse("# **network** tools\n\n## Show *connected* devices\n\n```\narp -a\n```\n");
    assert_eq!(r.items[0].tags, "network tools");
    assert_eq!(r.items[0].comment, "Show connected devices");
}

#[test]
fn front_matter_tags() {
    let r = parse("---\ntags: [git, code]\n---\n\n## checkout\n\n```\ngit checkout <b>\n```\n");
    assert_eq!(r.items[0].tags, "git, code");
}

#[test]
fn front_matter_plain_tags() {
    let r = parse("---\ntags: podman, containers\n---\n\n## ps\n\n```\npodman ps\n```\n");
    assert_eq!(r.items[0].tags, "podman, containers");
}

#[test]
fn front_matter_quoted_tags() {
    let r = parse("---\ntags: [\"my tag\", 'other']\n---\n\n## test\n\n```\necho hi\n```\n");
    assert_eq!(r.items[0].tags, "my tag, other");
}

#[test]
fn variables_outside_code_block() {
    let r = parse("# ssh\n\n## login\n\n```\nssh <user>@<host>\n```\n\n$ user: echo root\n$ host: echo example.com\n");
    assert!(r.variables.get_suggestion("ssh", "user").is_some());
    assert!(r.variables.get_suggestion("ssh", "host").is_some());
}

#[test]
fn variables_inside_code_block() {
    let r = parse(
        "# tools\n\n## vars\n\n```\n$ domain: echo google.com\n$ host: echo 8.8.8.8\n```\n",
    );
    assert!(r.variables.get_suggestion("tools", "domain").is_some());
    assert!(r.variables.get_suggestion("tools", "host").is_some());
}

#[test]
fn multiline_variable() {
    let r =
        parse("# t\n\n## cmd\n\n```\necho <mv>\n```\n\n$ mv: echo xoo \\\n   | tr 'x' 'f'\n");
    assert!(r.variables.get_suggestion("t", "mv").is_some());
}

#[test]
fn variable_with_opts() {
    let r = parse("# t\n\n## cmd\n\n```\necho <x>\n```\n\n$ x: echo '1 2' | tr ' ' '\\n' --- --column 1 --prevent-extra\n");
    let s = r.variables.get_suggestion("t", "x").unwrap();
    let opts = s.1.as_ref().unwrap();
    assert_eq!(opts.column, Some(1));
    assert!(opts.prevent_extra);
}

#[test]
fn multiline_snippet() {
    let r = parse("# t\n\n## multi\n\n```bash\necho 1\necho 2\necho 3\n```\n");
    assert_eq!(r.items.len(), 1);
    assert!(r.items[0].snippet.contains("echo 1"));
    assert!(r.items[0].snippet.contains("echo 3"));
}

#[test]
fn empty_code_block_skipped() {
    let r = parse("# t\n\n## empty\n\n```\n```\n\n## real\n\n```\necho hi\n```\n");
    assert_eq!(r.items.len(), 1);
    assert_eq!(r.items[0].comment, "real");
}

#[test]
fn explicit_percent_tag() {
    let r = parse("% custom, tags\n\n## cmd\n\n```\necho hi\n```\n");
    assert_eq!(r.items[0].tags, "custom, tags");
}

#[test]
fn at_dependency() {
    let r = parse("# child\n\n@ parent\n\n## use var\n\n```\necho <x>\n```\n");
    assert_eq!(r.items[0].tags, "child");
}

#[test]
fn semicolon_metacomment_ignored() {
    let r = parse("# t\n\n; this is a comment\n\n## cmd\n\n```\necho hi\n```\n");
    assert_eq!(r.items.len(), 1);
}

#[test]
fn mid_file_dashes_not_front_matter() {
    let r = parse("# t\n\n---\n\n## cmd\n\n```\necho hi\n```\n");
    assert_eq!(r.items.len(), 1);
    assert_eq!(r.items[0].tags, "t");
}

#[test]
fn duplicate_items_deduplicated() {
    let r = parse("# t\n\n## dup\n\n```\necho hi\n```\n\n## dup\n\n```\necho hi\n```\n");
    assert_eq!(r.items.len(), 1);
}

#[test]
fn options_are_read() {
    let o = parse_opts("--column 2 --delimiter ';' --prevent-extra --query 'a b' --unknown").unwrap();
    assert_eq!(o.column, Some(2));
    assert_eq!(o.delimiter, Some(";".to_string()));
    assert!(o.prevent_extra);
    assert_eq!(o.query, Some("a b".to_string()));
}

#[test]
fn option_errors() {
    assert!(matches!(parse_opts("--column"), Err(VarLineError::MissingValue(f)) if f == "--column"));
    assert!(matches!(parse_opts("--column 300"), Err(VarLineError::NotU8(f)) if f == "--column"));
    assert!(matches!(parse_opts("--header-lines x"), Err(VarLineError::NotU8(f)) if f == "--header-lines"));
    assert!(matches!(parse_opts("--query 'open"), Err(VarLineError::MissingClosingQuote)));
}

#[test]
fn variable_line_errors() {
    let line: Vec<char> = "$ no colon here".chars().collect();
    assert!(matches!(parse_variable_line(&line), Err(VarLineError::Invalid(_))));
    let line: Vec<char> = "$ host : echo a --- --column 1".chars().collect();
    let (v, c, o) = parse_variable_line(&line).unwrap();
    assert_eq!(v.iter().collect::<String>(), "host");
    assert_eq!(c.iter().collect::<String>(), " echo a ");
    assert_eq!(o.unwrap().column, Some(1));
}

#[test]
fn bad_variable_line_fails_the_parse() {
    let lines: Vec<String> = "# t\n\n$ x: cmd --- --column\n".lines().map(|s| s.to_string()).collect();
    let err = parse_lines(&lines, "f.trick.md").err().unwrap();
    assert_eq!(err.line, 3);
    assert_eq!(err.source, "f.trick.md");
    assert!(matches!(err.cause, VarLineError::MissingValue(f) if f == "--column"));
    let lines: Vec<String> = vec!["$: nothing".to_string()];
    let err = parse_lines(&lines, "g").err().unwrap();
    assert_eq!(err.line, 1);
    assert!(matches!(err.cause, VarLineError::Invalid(_)));
}

#[test]
fn language_hint_comes_from_the_items_own_fence() {
    let r = parse("# t\n\n## a\n\n```bash\necho 1\n```\n\n## b\n\n```\necho 2\n```\n");
    assert_eq!(r.items.len(), 2);
    assert_eq!(r.items[0].lang, Some("bash".to_string()));
    assert_eq!(r.items[1].lang, None);
}

#[test]
fn unicode_white_space_is_trimmed() {
    let r = parse("#\u{3000}net\u{00a0}\n\n## ping\n\n```\nping <h>\n```\n");
    assert_eq!(r.items[0].tags, "net");
}

#[test]
fn option_errors_name_the_first_problem() {
    assert!(matches!(parse_opts("--delimiter , --query"), Err(VarLineError::MissingValue(f)) if f == "--query"));
    assert!(matches!(parse_opts("--map"), Err(VarLineError::MissingValue(f)) if f == "--map"));
    assert!(matches!(parse_opts("--headers 256"), Err(VarLineError::NotU8(f)) if f == "--header-lines"));
    assert!(matches!(parse_opts("--headers"), Err(VarLineError::MissingValue(f)) if f == "--header-lines"));
    assert!(matches!(parse_opts("--column x --query"), Err(VarLineError::NotU8(f)) if f == "--column"));
}

#[test]
fn option_values_and_unknown_words_never_fail() {
    let o = parse_opts("--query --column --whatever").unwrap();
    assert_eq!(o.query, Some("--column".to_string()));
    assert_eq!(o.column, None);
    let o = parse_opts("--foo bar baz").unwrap();
    assert_eq!(o.column, None);
    assert_eq!(o.query, None);
    assert_eq!(o.header_lines, 0);
}

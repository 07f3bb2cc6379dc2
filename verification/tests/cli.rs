use typy::cli::{is_block_end, is_valid_snake_case, needs_block, parse_args, validate_file_path, LineBuffer, ReplAction};

fn args(list: &[&str]) -> Vec<String> {
    list.iter().map(|s| s.to_string()).collect()
}

#[test]
fn block_openers_end_with_a_colon() {
    assert!(needs_block("if x:\n"));
    assert!(needs_block("else:   \t\n"));
    assert!(!needs_block("x = 1\n"));
    assert!(!needs_block(""));
    assert!(!needs_block(": x"));
}

#[test]
fn block_ends() {
    assert!(is_block_end("\n"));
    assert!(is_block_end("   \n"));
    assert!(!is_block_end("    x = 1\n"));
    assert!(!is_block_end("\tx = 1\n"));
    assert!(!is_block_end("else:\n"));
    assert!(!is_block_end("elif x:\n"));
    assert!(is_block_end("elifant\n"));
    assert!(is_block_end("x\n"));
    assert!(is_block_end("else: x\n"));
}

#[test]
fn snake_case_names() {
    assert!(is_valid_snake_case("main"));
    assert!(is_valid_snake_case("_private_2"));
    assert!(!is_valid_snake_case(""));
    assert!(!is_valid_snake_case("2fast"));
    assert!(!is_valid_snake_case("CamelCase"));
    assert!(!is_valid_snake_case("with-dash"));
}

#[test]
fn file_paths_need_tp_and_snake_case() {
    assert_eq!(validate_file_path("main.tp"), Ok(()));
    assert_eq!(validate_file_path("dir/sub/my_prog.tp"), Ok(()));
    assert_eq!(validate_file_path("main.py"), Err("Invalid file extension '.py'. Expected '.tp'".to_string()));
    assert_eq!(validate_file_path("main"), Err("File must have '.tp' extension".to_string()));
    assert_eq!(validate_file_path(".tp"), Err("File must have '.tp' extension".to_string()));
    assert_eq!(
        validate_file_path("MyProg.tp"),
        Err("Filename 'MyProg' must be in snake_case (lowercase letters, digits, underscores, cannot start with digit)".to_string())
    );
}

#[test]
fn arguments_select_debug_and_file() {
    let c = parse_args(&args(&["typy"])).unwrap();
    assert!(!c.debug);
    assert_eq!(c.file_path, None);
    let c = parse_args(&args(&["typy", "-d", "prog.tp"])).unwrap();
    assert!(c.debug);
    assert_eq!(c.file_path, Some("prog.tp".to_string()));
    let c = parse_args(&args(&["typy", "prog.tp", "--debug"])).unwrap();
    assert!(c.debug);
    assert_eq!(c.file_path, Some("prog.tp".to_string()));
}

#[test]
fn argument_errors() {
    assert_eq!(parse_args(&args(&["typy", "--fast"])).err(), Some("Unknown argument: --fast".to_string()));
    assert_eq!(
        parse_args(&args(&["typy", "a.tp", "b.tp"])).err(),
        Some("Only one file can be executed at a time".to_string())
    );
    assert_eq!(
        parse_args(&args(&["typy", "a.txt"])).err(),
        Some("Invalid file extension '.txt'. Expected '.tp'".to_string())
    );
}

#[test]
fn repl_gathers_blocks() {
    let mut b = LineBuffer::new();
    assert_eq!(b.prompt(), ">>> ");
    match b.feed("1 + 2\n".to_string()) {
        ReplAction::Run(s) => assert_eq!(s, "1 + 2\n"),
        _ => panic!("expected a run"),
    }
    assert!(matches!(b.feed("if x:\n".to_string()), ReplAction::ReadMore));
    assert_eq!(b.prompt(), "... ");
    assert!(matches!(b.feed("    y\n".to_string()), ReplAction::ReadMore));
    assert!(matches!(b.feed("else:\n".to_string()), ReplAction::ReadMore));
    assert!(matches!(b.feed("    z\n".to_string()), ReplAction::ReadMore));
    match b.feed("\n".to_string()) {
        ReplAction::Run(s) => assert_eq!(s, "if x:\n    y\nelse:\n    z\n\n"),
        _ => panic!("expected a run"),
    }
    assert_eq!(b.prompt(), ">>> ");
    assert!(matches!(b.feed(String::new()), ReplAction::Quit));
}

#[test]
fn file_names_split_at_their_last_dot() {
    assert_eq!(validate_file_path("dir/main.tp"), Ok(()));
    assert_eq!(validate_file_path("main.old.tp"), Err("Filename 'main.old' must be in snake_case (lowercase letters, digits, underscores, cannot start with digit)".to_string()));
    assert_eq!(validate_file_path(".tp"), Err("File must have '.tp' extension".to_string()));
    assert_eq!(validate_file_path("main."), Err("Invalid file extension '.'. Expected '.tp'".to_string()));
}

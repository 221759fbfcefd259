use mutemaanpa_lib::director::Director;
use mutemaanpa_lib::lexer::{Lexer, Token};
use mutemaanpa_lib::scripts::{Script, ScriptError, ScriptFileDataSource, ScriptRepository};

fn repo_with(name: &str, text: &str) -> ScriptRepository {
    let mut source = ScriptFileDataSource::new();
    source.insert_script(name, text.to_string());
    ScriptRepository::new(source)
}

#[test]
fn test_director_yields_lines_then_terminal() {
    let repo = repo_with("prologue", "; opening\n\"hello\"\n\"world\"\n");
    let mut director = Director::new(repo, "prologue").unwrap();
    assert_eq!(director.next_line(), "; opening");
    assert_eq!(director.next_line(), "\"hello\"");
    assert_eq!(director.next_line(), "\"world\"");
    assert_eq!(director.next_line(), "Game ended!");
}

#[test]
fn test_director_terminal_is_idempotent() {
    let repo = repo_with("prologue", "\"only line\"");
    let mut director = Director::new(repo, "prologue").unwrap();
    assert_eq!(director.next_line(), "\"only line\"");
    assert_eq!(director.next_line(), "Game ended!");
    assert_eq!(director.next_line(), "Game ended!");
    assert_eq!(director.next_line(), "Game ended!");
}

#[test]
fn test_director_empty_script_ends_at_once() {
    let repo = repo_with("prologue", "   \n  ");
    let mut director = Director::new(repo, "prologue").unwrap();
    assert_eq!(director.next_line(), "Game ended!");
    assert_eq!(director.next_line(), "Game ended!");
}

#[test]
fn test_director_missing_entry_script() {
    let repo = repo_with("prologue", "\"x\"");
    match Director::new(repo, "intermezzo") {
        Ok(_) => panic!("missing script must not resolve"),
        Err(e) => assert_eq!(e, ScriptError::ResourceNotFound),
    }
}

#[test]
fn test_director_error_sentinel_is_stable() {
    let repo = repo_with("prologue", "\"fine\" @oops");
    let mut director = Director::new(repo, "prologue").unwrap();
    assert_eq!(director.next_line(), "\"fine\"");
    assert_eq!(director.next_line(), "Script error!");
    assert_eq!(director.next_line(), "Script error!");
}

#[test]
fn test_director_reproduces_batch_lexer() {
    let text = "; a comment\n\"one\"\n; another\n\"two\" \"three\"\n";
    let repo = repo_with("prologue", text);
    let mut director = Director::new(repo, "prologue").unwrap();
    let mut lines = Vec::new();
    loop {
        let line = director.next_line();
        if line == "Game ended!" {
            break;
        }
        lines.push(line);
    }
    let batch: Vec<char> = text.chars().collect();
    let mut lexer = Lexer::new(&batch);
    let rendered: Vec<String> = lexer
        .parse_script()
        .unwrap()
        .into_iter()
        .map(|t| match t {
            Token::TextLine(s) => format!("\"{}\"", s),
            Token::Comment(s) => format!(";{}", s),
        })
        .collect();
    assert_eq!(lines, rendered);
}

#[test]
fn test_script_store_lookup() {
    let mut source = ScriptFileDataSource::new();
    source.insert_script("prologue", "one".to_string());
    source.insert_script("epilogue", "two".to_string());
    assert_eq!(source.get_script("prologue"), Some("one".to_string()));
    assert_eq!(source.get_script("epilogue"), Some("two".to_string()));
    assert_eq!(source.get_script("interlude"), None);
    // A later snapshot supersedes the earlier one.
    source.insert_script("prologue", "newer".to_string());
    assert_eq!(source.get_script("prologue"), Some("newer".to_string()));
}

#[test]
fn test_script_repository_copies_snapshot() {
    let repo = repo_with("prologue", "text body");
    let script = repo.get_script("prologue").unwrap();
    assert_eq!(script.0, "text body");
    assert_eq!(
        repo.get_script("missing").unwrap_err(),
        ScriptError::ResourceNotFound
    );
    let converted: Script = Script::from("direct".to_string());
    assert_eq!(converted.0, "direct");
}

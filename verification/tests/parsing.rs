use filebox::parser::Workflow;
use filebox::stages::{Form, Pattern, Target, Token};

fn tokens_of(src: &str) -> Option<Vec<Token>> {
    Workflow::new(src.to_string()).get_tokens()
}

#[test]
fn empty_source_parses_to_no_stages() {
    let tokens = tokens_of("").unwrap();
    assert_eq!(tokens.len(), 0);
}

#[test]
fn blank_lines_are_skipped() {
    let tokens = tokens_of("\n\nPATH=.\n\nTARGET=filename\n\n").unwrap();
    assert_eq!(tokens.len(), 2);
}

#[test]
fn path_declaration_keeps_the_rest_of_the_line() {
    let tokens = tokens_of("PATH=/some/dir with spaces\n").unwrap();
    assert_eq!(tokens.len(), 1);
    assert!(matches!(&tokens[0], Token::Path(p) if p == "/some/dir with spaces"));
}

#[test]
fn empty_path_is_rejected() {
    assert!(tokens_of("PATH=\n").is_none());
}

#[test]
fn target_declarations_parse() {
    let tokens = tokens_of("TARGET=filename\n").unwrap();
    assert!(matches!(&tokens[0], Token::Target(Target::Filename)));
    let tokens = tokens_of("TARGET=content\n").unwrap();
    assert!(matches!(&tokens[0], Token::Target(Target::Content)));
    assert!(tokens_of("TARGET=other\n").is_none());
}

#[test]
fn normalize_declarations_parse() {
    let tokens = tokens_of("NORMALIZE(NFD->NFC)\n").unwrap();
    assert!(
        matches!(&tokens[0], Token::Normalize(n) if matches!(n.from, Form::Nfd) && matches!(n.to, Form::Nfc))
    );
    let tokens = tokens_of("NORMALIZE(NFC->NFD)\n").unwrap();
    assert!(
        matches!(&tokens[0], Token::Normalize(n) if matches!(n.from, Form::Nfc) && matches!(n.to, Form::Nfd))
    );
    assert!(tokens_of("NORMALIZE(NFC->NFKD)\n").is_none());
    assert!(tokens_of("NORMALIZE(NFD NFC)\n").is_none());
}

#[test]
fn recode_auto_parses() {
    let tokens = tokens_of("RECODE(AUTO)\n").unwrap();
    assert!(matches!(&tokens[0], Token::Unbake(u) if u.encoding.is_none()));
}

#[test]
fn recode_pair_parses_verbatim_labels() {
    let tokens = tokens_of("RECODE(windows-1252->gbk)\n").unwrap();
    match &tokens[0] {
        Token::Unbake(u) => {
            let (from, to) = u.encoding.as_ref().unwrap();
            assert_eq!(from, "windows-1252");
            assert_eq!(to, "gbk");
        },
        _ => panic!("expected a recode stage"),
    }
}

#[test]
fn recode_pair_needs_both_labels() {
    assert!(tokens_of("RECODE(->gbk)\n").is_none());
    assert!(tokens_of("RECODE(gbk->)\n").is_none());
    assert!(tokens_of("RECODE(gbk)\n").is_none());
}

#[test]
fn rename_with_literal_patterns_parses_in_order() {
    let tokens = tokens_of("RENAME(remove,\"copy of \",\"(1)\")\n").unwrap();
    match &tokens[0] {
        Token::Rename(r) => {
            assert_eq!(r.patterns.len(), 2);
            assert!(matches!(&r.patterns[0], Pattern::Str(t) if t == "copy of "));
            assert!(matches!(&r.patterns[1], Pattern::Str(t) if t == "(1)"));
        },
        _ => panic!("expected a rename stage"),
    }
}

#[test]
fn rename_with_regex_pattern_parses_as_regex() {
    let tokens = tokens_of("RENAME(remove,/[0-9]+/)\n").unwrap();
    match &tokens[0] {
        Token::Rename(r) => {
            assert!(matches!(&r.patterns[0], Pattern::Regex(t) if t == "[0-9]+"));
        },
        _ => panic!("expected a rename stage"),
    }
}

#[test]
fn rename_without_patterns_parses_empty() {
    let tokens = tokens_of("RENAME(remove)\n").unwrap();
    assert!(matches!(&tokens[0], Token::Rename(r) if r.patterns.is_empty()));
}

#[test]
fn rename_with_unterminated_pattern_is_rejected() {
    assert!(tokens_of("RENAME(remove,\"open)\n").is_none());
}

#[test]
fn unknown_declaration_fails_the_whole_parse() {
    assert!(tokens_of("PATH=.\nFROB=yes\nTARGET=filename\n").is_none());
}

#[test]
fn declaration_order_is_stage_order() {
    let src = "PATH=.\nTARGET=filename\nRECODE(AUTO)\nNORMALIZE(NFD->NFC)\n";
    let tokens = tokens_of(src).unwrap();
    assert_eq!(tokens.len(), 4);
    assert!(matches!(&tokens[0], Token::Path(_)));
    assert!(matches!(&tokens[1], Token::Target(_)));
    assert!(matches!(&tokens[2], Token::Unbake(_)));
    assert!(matches!(&tokens[3], Token::Normalize(_)));
}

#[test]
fn source_without_trailing_newline_parses() {
    let tokens = tokens_of("PATH=.\nTARGET=filename").unwrap();
    assert_eq!(tokens.len(), 2);
}

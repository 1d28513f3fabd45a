use filebox::executor::{
    change_encoding, convert_to_nfc, convert_to_nfd, guess_is_cjk, latin1_to_utf8,
    remove_str_by_patterns, Executor,
};
use filebox::paths::{expand_home, is_hidden};
use filebox::stages::{Form, Normalize, Pattern, PipelineError, Token};

#[test]
fn nfc_filename_is_a_normalize_noop() {
    // already composed: the stage must not touch it
    let path = "root/caf\u{e9}.txt";
    assert_eq!(convert_to_nfc(path), path);
}

#[test]
fn ascii_filename_is_a_normalize_noop() {
    // ASCII is simultaneously NFC and NFD; conversion must be the identity
    let path = "root/plain.txt";
    assert_eq!(convert_to_nfc(path), path);
    assert_eq!(convert_to_nfd(path), path);
}

#[test]
fn nfd_filename_composes_to_canonical_nfc() {
    let decomposed = "root/cafe\u{301}.txt";
    let composed = convert_to_nfc(decomposed);
    assert_eq!(composed, "root/caf\u{e9}.txt");
    assert!(unicode_normalization::is_nfc("caf\u{e9}.txt"));
}

#[test]
fn nfc_filename_decomposes_to_canonical_nfd() {
    let composed = "root/caf\u{e9}.txt";
    let decomposed = convert_to_nfd(composed);
    assert_eq!(decomposed, "root/cafe\u{301}.txt");
    assert!(unicode_normalization::is_nfd("cafe\u{301}.txt"));
}

#[test]
fn only_the_filename_component_is_normalized() {
    // the directory part keeps its decomposed form
    let path = "de\u{301}pot/cafe\u{301}.txt";
    assert_eq!(convert_to_nfc(path), "de\u{301}pot/caf\u{e9}.txt");
}

#[test]
fn recode_round_trip_windows_1252_is_identity() {
    let path = "root/caf\u{e9}.txt";
    let out = change_encoding("windows-1252", "windows-1252", path).unwrap();
    assert_eq!(out, path);
}

#[test]
fn recode_round_trip_gbk_is_identity() {
    let path = "root/\u{4e2d}\u{6587}.txt";
    let out = change_encoding("gbk", "gbk", path).unwrap();
    assert_eq!(out, path);
}

#[test]
fn recode_round_trip_utf8_is_identity() {
    let path = "root/caf\u{e9} \u{4e2d}\u{6587}.txt";
    let out = change_encoding("utf-8", "utf-8", path).unwrap();
    assert_eq!(out, path);
}

#[test]
fn recode_round_trip_keeps_a_leading_byte_order_mark() {
    // the decoder reads the bytes strictly as the named charset: a name
    // that begins with U+FEFF keeps it through a UTF-8 round trip
    let path = "root/\u{feff}report.txt";
    let out = change_encoding("utf-8", "utf-8", path).unwrap();
    assert_eq!(out, path);
}

#[test]
fn recode_with_unknown_label_fails_the_run() {
    let r = change_encoding("no-such-charset", "gbk", "root/x.txt");
    assert!(matches!(r, Err(PipelineError::UnknownEncoding)));
    let r = change_encoding("gbk", "no-such-charset", "root/x.txt");
    assert!(matches!(r, Err(PipelineError::UnknownEncoding)));
}

#[test]
fn explicit_recode_repairs_mojibake() {
    let (bytes, _, _) = encoding_rs::GBK.encode("\u{4e2d}\u{6587}\u{540d}\u{5b57}");
    let (mojibake, _, _) = encoding_rs::WINDOWS_1252.decode(&bytes);
    let path = format!("root/{}", mojibake);
    let out = change_encoding("windows-1252", "gbk", &path).unwrap();
    assert_eq!(out, "root/\u{4e2d}\u{6587}\u{540d}\u{5b57}");
}

#[test]
fn auto_recode_repairs_mojibake() {
    let (bytes, _, _) = encoding_rs::GBK.encode("\u{4e2d}\u{6587}\u{540d}\u{5b57}");
    let (mojibake, _, _) = encoding_rs::WINDOWS_1252.decode(&bytes);
    let path = format!("root/{}", mojibake);
    let out = latin1_to_utf8(&path).unwrap();
    assert_eq!(out, "root/\u{4e2d}\u{6587}\u{540d}\u{5b57}");
}

#[test]
fn auto_recode_never_keeps_a_marker_bearing_repair() {
    // every Greek letter becomes a numeric character reference in
    // Windows-1252, so the repaired name would contain the marker and the
    // repair must be discarded
    let path = "root/\u{3b1}\u{3b2}\u{3b3}\u{3b4}\u{3b5}";
    assert!(latin1_to_utf8(path).is_none());
    if let Some(repaired) = latin1_to_utf8(path) {
        assert!(!repaired.contains("&#"));
    }
}

#[test]
fn auto_recode_leaves_cjk_names_alone() {
    let path = "root/\u{4e2d}\u{6587}\u{540d}\u{5b57}\u{4e2d}";
    assert!(latin1_to_utf8(path).is_none());
}

#[test]
fn cjk_guess_uses_four_fifths_by_integer_arithmetic() {
    assert!(guess_is_cjk("\u{4e2d}\u{6587}\u{4e2d}\u{6587}\u{4e2d}"));
    // the predicate counts ASCII among the CJK-ish code points, so an
    // all-ASCII name is guessed CJK and left alone by the auto repair
    assert!(guess_is_cjk("abcde"));
    // Greek is in none of the CJK-ish blocks: 0 below 5 / 5 * 4
    assert!(!guess_is_cjk("\u{3b1}\u{3b2}\u{3b3}\u{3b4}\u{3b5}"));
    // four characters: the threshold 4 / 5 * 4 is zero, so anything passes
    assert!(guess_is_cjk("\u{3b1}\u{3b2}\u{3b3}\u{3b4}"));
    assert!(guess_is_cjk(""));
    // four of five CJK-ish: 4 >= 5 / 5 * 4
    assert!(guess_is_cjk("\u{4e2d}\u{6587}\u{540d}\u{5b57}\u{3b1}"));
}

#[test]
fn literal_removal_removes_every_occurrence() {
    let patterns = vec![Pattern::Str("copy of ".to_string())];
    let out = remove_str_by_patterns(&patterns, "root/copy of copy of report.txt").unwrap();
    assert_eq!(out, "root/report.txt");
}

#[test]
fn literal_removal_is_idempotent_even_across_joins() {
    // removing "ab" from "aabb" cancels the occurrence that only forms
    // after the first removal; a second pass changes nothing
    let patterns = vec![Pattern::Str("ab".to_string())];
    let once = remove_str_by_patterns(&patterns, "root/aabb").unwrap();
    let twice = remove_str_by_patterns(&patterns, &once).unwrap();
    assert_eq!(once, twice);
    assert_eq!(once, "root/");
}

#[test]
fn literal_removal_applies_patterns_in_declaration_order() {
    // removing "ab" first finds no occurrence; removing "c" afterwards
    // leaves the "ab" that only forms then
    let forward = vec![
        Pattern::Str("ab".to_string()),
        Pattern::Str("c".to_string()),
    ];
    let out = remove_str_by_patterns(&forward, "root/acbc").unwrap();
    assert_eq!(out, "root/ab");
    // the opposite order removes "c" first, so "ab" forms in time
    let reverse = vec![
        Pattern::Str("c".to_string()),
        Pattern::Str("ab".to_string()),
    ];
    let out = remove_str_by_patterns(&reverse, "root/acbc").unwrap();
    assert_eq!(out, "root/");
}

#[test]
fn regex_pattern_raises_a_distinct_unsupported_error() {
    let patterns = vec![Pattern::Regex("[0-9]+".to_string())];
    let r = remove_str_by_patterns(&patterns, "root/x1.txt");
    assert!(matches!(r, Err(PipelineError::RegexUnsupported)));
}

#[test]
fn empty_pattern_removal_is_identity() {
    let patterns = vec![Pattern::Str(String::new())];
    let out = remove_str_by_patterns(&patterns, "root/keep.txt").unwrap();
    assert_eq!(out, "root/keep.txt");
}

#[test]
fn executor_folds_stages_left_to_right() {
    let mut ex = Executor::new();
    ex.add_task(Token::Normalize(Normalize { from: Form::Nfd, to: Form::Nfc }));
    ex.add_task(Token::Rename(filebox::stages::Rename {
        command: filebox::stages::Command::Remove,
        patterns: vec![Pattern::Str("copy of ".to_string())],
    }));
    let out = ex.exec("root/copy of cafe\u{301}.txt").unwrap();
    assert_eq!(out, "root/caf\u{e9}.txt");
}

#[test]
fn absurdly_long_paths_are_refused() {
    let mut ex = Executor::new();
    ex.add_task(Token::Normalize(Normalize { from: Form::Nfd, to: Form::Nfc }));
    let huge = "a".repeat(0x1000_0000);
    let r = ex.exec(&huge);
    assert!(matches!(r, Err(PipelineError::NameTooLong)));
}

#[test]
fn hidden_names_start_with_a_dot() {
    assert!(is_hidden(".git"));
    assert!(!is_hidden("git"));
    assert!(!is_hidden(""));
}

#[test]
fn home_shorthand_expands_only_at_a_component_boundary() {
    assert_eq!(expand_home("~", "/home/u"), "/home/u");
    assert_eq!(expand_home("~/d/x", "/home/u"), "/home/u/d/x");
    assert_eq!(expand_home("~user/x", "/home/u"), "~user/x");
    assert_eq!(expand_home("/abs/x", "/home/u"), "/abs/x");
}

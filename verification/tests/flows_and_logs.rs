use filebox::log::{is_replayable_log_name, parse_log, parse_log_entry, render_entry, render_log,
    replay_log, LogEntry};
use filebox::parser::Workflow;
use filebox::runner::{normalize_plan, plan, root_path_of, try_to_nfc_and_utf8, validate,
    FileEntry};
use filebox::stages::PipelineError;

fn file(path: &str) -> FileEntry {
    FileEntry { path: path.to_string(), is_dir: false }
}

fn dir(path: &str) -> FileEntry {
    FileEntry { path: path.to_string(), is_dir: true }
}

fn tokens_of(src: &str) -> Vec<filebox::stages::Token> {
    Workflow::new(src.to_string()).get_tokens().unwrap()
}

#[test]
fn scenario_nfd_directory_is_normalized_and_replayed() {
    // a directory holds `café` stored as NFD bytes
    let tokens = tokens_of("PATH=.\nTARGET=filename\nNORMALIZE(NFD->NFC)\n");
    let entries = vec![file("./cafe\u{301}")];
    let log = plan(&tokens, &entries).unwrap();
    assert_eq!(log.len(), 1);
    assert_eq!(log[0].from, "./cafe\u{301}");
    assert_eq!(log[0].to, "./caf\u{e9}");
    // replaying the written log leaves the disk holding the NFC name
    let names = vec!["./cafe\u{301}".to_string()];
    let (after, err) = replay_log(&names, &render_log(&log));
    assert!(err.is_none());
    assert_eq!(after, vec!["./caf\u{e9}".to_string()]);
}

#[test]
fn scenario_auto_recode_repairs_a_misread_name() {
    let (bytes, _, _) = encoding_rs::GBK.encode("\u{4e2d}\u{6587}\u{540d}\u{5b57}");
    let (mojibake, _, _) = encoding_rs::WINDOWS_1252.decode(&bytes);
    let tokens = tokens_of("PATH=.\nTARGET=filename\nRECODE(AUTO)\n");
    let entries = vec![file(&format!("./{}", mojibake))];
    let log = plan(&tokens, &entries).unwrap();
    assert_eq!(log.len(), 1);
    assert_eq!(log[0].to, "./\u{4e2d}\u{6587}\u{540d}\u{5b57}");
}

#[test]
fn scenario_auto_recode_keeps_names_whose_repair_would_reintroduce_the_marker() {
    // Greek letters are unmappable in Windows-1252, so the repair would be
    // full of numeric character references; expect no log entry
    let tokens = tokens_of("PATH=.\nTARGET=filename\nRECODE(AUTO)\n");
    let entries = vec![file("./\u{3b1}\u{3b2}\u{3b3}\u{3b4}\u{3b5}")];
    let log = plan(&tokens, &entries).unwrap();
    assert_eq!(log.len(), 0);
}

#[test]
fn scenario_rename_removes_the_declared_literal() {
    let tokens = tokens_of("PATH=.\nTARGET=filename\nRENAME(remove,\"copy of \")\n");
    let entries = vec![file("./copy of report.txt")];
    let log = plan(&tokens, &entries).unwrap();
    assert_eq!(log.len(), 1);
    assert_eq!(log[0].to, "./report.txt");
}

#[test]
fn scenario_missing_target_is_a_validation_error() {
    let tokens = tokens_of("PATH=.\nNORMALIZE(NFD->NFC)\n");
    let entries = vec![file("./cafe\u{301}")];
    let r = plan(&tokens, &entries);
    assert!(matches!(r, Err(PipelineError::MissingTarget)));
}

#[test]
fn scenario_replay_applies_log_lines_in_file_order() {
    let log = parse_log("a.txt=>b.txt\nb.txt=>c.txt\n").unwrap();
    assert_eq!(log.len(), 2);
    let names = vec!["a.txt".to_string()];
    let (after, err) = replay_log(&names, "a.txt=>b.txt\nb.txt=>c.txt\n");
    assert!(err.is_none());
    assert_eq!(after, vec!["c.txt".to_string()]);
}

#[test]
fn replay_stops_at_a_malformed_line_with_earlier_renames_applied() {
    // the first line has already been replayed when the bad line is hit;
    // the line after it is never read
    let names = vec!["a.txt".to_string()];
    let (after, err) = replay_log(&names, "a.txt=>b.txt\nbroken line\nb.txt=>c.txt\n");
    assert!(matches!(err, Some(PipelineError::LogFormat)));
    assert_eq!(after, vec!["b.txt".to_string()]);
}

#[test]
fn replay_reads_single_lines_as_the_writer_wrote_them() {
    let entry = LogEntry { from: "./x y".to_string(), to: "./xy".to_string() };
    let line = render_entry(&entry);
    assert_eq!(line, "./x y=>./xy\n");
    let back = parse_log_entry(line.trim_end_matches('\n')).unwrap();
    assert_eq!(back.from, "./x y");
    assert_eq!(back.to, "./xy");
    assert!(matches!(
        parse_log_entry("no delimiter"),
        Err(PipelineError::LogFormat)
    ));
    assert!(matches!(parse_log_entry("a=>b=>c"), Err(PipelineError::LogFormat)));
}

#[test]
fn validation_reports_each_structural_fault() {
    let entries: Vec<FileEntry> = Vec::new();
    let r = plan(&tokens_of("TARGET=filename\n"), &entries);
    assert!(matches!(r, Err(PipelineError::MissingRootPath)));
    let r = plan(&tokens_of("PATH=.\nPATH=.\nTARGET=filename\n"), &entries);
    assert!(matches!(r, Err(PipelineError::DuplicateRootPath)));
    let r = plan(&tokens_of("PATH=.\nTARGET=filename\nTARGET=filename\n"), &entries);
    assert!(matches!(r, Err(PipelineError::DuplicateTarget)));
    let r = plan(&tokens_of("PATH=.\nTARGET=content\n"), &entries);
    assert!(matches!(r, Err(PipelineError::ContentTargetUnsupported)));
    assert!(validate(&tokens_of("PATH=.\nTARGET=filename\n")).is_ok());
}

#[test]
fn validation_passes_stages_through_unchanged() {
    let tokens = tokens_of("PATH=.\nTARGET=filename\nRECODE(AUTO)\n");
    let before = tokens.len();
    validate(&tokens).unwrap();
    assert_eq!(tokens.len(), before);
}

#[test]
fn unknown_encoding_aborts_the_whole_run() {
    let tokens = tokens_of("PATH=.\nTARGET=filename\nRECODE(no-such-charset->gbk)\n");
    let entries = vec![file("./a.txt"), file("./b.txt")];
    let r = plan(&tokens, &entries);
    assert!(matches!(r, Err(PipelineError::UnknownEncoding)));
}

#[test]
fn regex_rename_aborts_the_whole_run() {
    let tokens = tokens_of("PATH=.\nTARGET=filename\nRENAME(remove,/x/)\n");
    let entries = vec![file("./a.txt")];
    let r = plan(&tokens, &entries);
    assert!(matches!(r, Err(PipelineError::RegexUnsupported)));
}

#[test]
fn hidden_entries_and_directories_never_reach_the_log() {
    let tokens = tokens_of("PATH=.\nTARGET=filename\nNORMALIZE(NFD->NFC)\n");
    let entries = vec![
        file("./.cafe\u{301}"),
        dir("./sub"),
        file("./cafe\u{301}"),
    ];
    let log = plan(&tokens, &entries).unwrap();
    assert_eq!(log.len(), 1);
    assert_eq!(log[0].from, "./cafe\u{301}");
}

#[test]
fn colliding_destinations_fail_the_run() {
    let tokens = tokens_of("PATH=.\nTARGET=filename\nRENAME(remove,\" \")\n");
    let entries = vec![file("./a b"), file("./a  b")];
    let r = plan(&tokens, &entries);
    assert!(matches!(r, Err(PipelineError::DestinationCollision)));
}

#[test]
fn unchanged_files_produce_no_log_entry() {
    let tokens = tokens_of("PATH=.\nTARGET=filename\nNORMALIZE(NFD->NFC)\n");
    let entries = vec![file("./caf\u{e9}"), file("./plain.txt")];
    let log = plan(&tokens, &entries).unwrap();
    assert_eq!(log.len(), 0);
}

#[test]
fn root_path_comes_from_the_first_path_stage() {
    let tokens = tokens_of("TARGET=filename\nPATH=/data\n");
    assert_eq!(root_path_of(&tokens).unwrap(), "/data");
    let tokens = tokens_of("TARGET=filename\n");
    assert!(root_path_of(&tokens).is_none());
}

#[test]
fn builtin_flow_normalizes_then_unbakes() {
    let out = try_to_nfc_and_utf8("./cafe\u{301}").unwrap();
    assert_eq!(out, "./caf\u{e9}");
    let entries = vec![file("./cafe\u{301}"), file("./.hidden e\u{301}")];
    let log = normalize_plan(&entries).unwrap();
    assert_eq!(log.len(), 1);
    assert_eq!(log[0].from, "./cafe\u{301}");
    assert_eq!(log[0].to, "./caf\u{e9}");
}

#[test]
fn log_render_writes_one_line_per_entry() {
    let entries = vec![
        LogEntry { from: "a".to_string(), to: "b".to_string() },
        LogEntry { from: "c d".to_string(), to: "e f".to_string() },
    ];
    assert_eq!(render_log(&entries), "a=>b\nc d=>e f\n");
    assert_eq!(render_log(&Vec::new()), "");
}

#[test]
fn log_parse_round_trips_what_render_wrote() {
    let entries = vec![
        LogEntry { from: "./x y".to_string(), to: "./xy".to_string() },
        LogEntry { from: "./cafe\u{301}".to_string(), to: "./caf\u{e9}".to_string() },
    ];
    let text = render_log(&entries);
    let back = parse_log(&text).unwrap();
    assert_eq!(back.len(), 2);
    assert_eq!(back[0].from, "./x y");
    assert_eq!(back[0].to, "./xy");
    assert_eq!(back[1].from, "./cafe\u{301}");
    assert_eq!(back[1].to, "./caf\u{e9}");
}

#[test]
fn malformed_log_lines_are_fatal() {
    assert!(matches!(parse_log("no delimiter here\n"), Err(PipelineError::LogFormat)));
    assert!(matches!(parse_log("a=>b=>c\n"), Err(PipelineError::LogFormat)));
    // a blank line is malformed too; only the final newline closes a line
    assert!(matches!(parse_log("a=>b\n\n"), Err(PipelineError::LogFormat)));
    assert!(parse_log("a=>b\n").is_ok());
    assert!(parse_log("a=>b").is_ok());
}

#[test]
fn replaying_a_missing_source_is_fatal() {
    let names = vec!["real".to_string()];
    let (after, err) = replay_log(&names, "real=>moved\nghost=>elsewhere\n");
    assert!(matches!(err, Some(PipelineError::RenameSourceMissing)));
    // the rename before the missing source has already happened
    assert_eq!(after, vec!["moved".to_string()]);
}

#[test]
fn only_normalize_logs_are_replayable() {
    assert!(is_replayable_log_name("normalize.filebox.commands"));
    assert!(is_replayable_log_name("logs/normalize.filebox.commands"));
    assert!(!is_replayable_log_name("rename.filebox.commands"));
    assert!(!is_replayable_log_name("workflow-results.olog"));
}

use netcheck::files::{
    filename_date_key, is_log_filename, sort_by_filename_date, FileSelection, ReportFileArgs,
};
use netcheck::log::{
    log_filename, needs_new_file, slot_accepts, LogError, LogMode, LoggerBuilder, RotatingLog,
    DEFAULT_FILE_PREFIX, DEFAULT_MAX_SIZE,
};

#[test]
fn rotation_splits_records_across_two_files() {
    let mut log = RotatingLog::new(10);
    log.append(b"aaaa".to_vec());
    log.append(b"bbbb".to_vec());
    assert_eq!(log.files.len(), 1);
    log.append(b"cccc".to_vec());
    assert_eq!(log.files.len(), 2);
    assert_eq!(log.files[0].index, 0);
    assert_eq!(log.files[1].index, 1);
    let mut recovered: Vec<Vec<u8>> = Vec::new();
    for f in &log.files {
        for r in &f.records {
            recovered.push(r.clone());
        }
    }
    assert_eq!(recovered, vec![b"aaaa".to_vec(), b"bbbb".to_vec(), b"cccc".to_vec()]);
}

#[test]
fn oversized_record_still_lands_in_one_file() {
    let mut log = RotatingLog::new(4);
    log.append(b"0123456789".to_vec());
    assert_eq!(log.files.len(), 1);
    log.append(b"x".to_vec());
    assert_eq!(log.files.len(), 2);
}

#[test]
fn builder_fills_defaults_and_requires_a_directory() {
    let missing = LoggerBuilder::default().build();
    assert_eq!(missing.err(), Some(LogError::MissingDir));
    assert_eq!(
        LogError::MissingDir.message(),
        "Log directory is required, but was not set!"
    );
    let config = LoggerBuilder::default().with_dir("/tmp/logs").build().unwrap();
    assert_eq!(config.dir, "/tmp/logs");
    assert_eq!(config.file_prefix, DEFAULT_FILE_PREFIX);
    assert_eq!(config.max_size, DEFAULT_MAX_SIZE);
    assert_eq!(config.mode, LogMode::All);
    let custom = LoggerBuilder::default()
        .with_dir("/tmp/x")
        .with_file_prefix("probe")
        .with_max_size(512)
        .with_mode(LogMode::Stdout)
        .build()
        .unwrap();
    assert_eq!(custom.file_prefix, "probe");
    assert_eq!(custom.max_size, 512);
    assert_eq!(custom.mode, LogMode::Stdout);
}

#[test]
fn log_modes_route_output() {
    assert!(LogMode::All.to_file() && LogMode::All.to_stdout());
    assert!(LogMode::File.to_file() && !LogMode::File.to_stdout());
    assert!(!LogMode::Stdout.to_file() && LogMode::Stdout.to_stdout());
    assert!(!LogMode::Silent.to_file() && !LogMode::Silent.to_stdout());
}

#[test]
fn file_names_carry_prefix_date_and_index() {
    assert_eq!(log_filename("netcheck", 2024, 1, 5, 0), "netcheck_2024-01-05_0.jsonl");
    assert_eq!(log_filename("p", 1999, 12, 31, 17), "p_1999-12-31_17.jsonl");
}

#[test]
fn rotation_decisions_match_the_writer() {
    assert!(needs_new_file(None, 0, "a", 100));
    let open_path = "netcheck_2024-01-05_0.jsonl".to_string();
    assert!(!needs_new_file(Some(&open_path), 50, "netcheck_2024-01-05_0.jsonl", 100));
    assert!(needs_new_file(Some(&open_path), 100, "netcheck_2024-01-05_0.jsonl", 100));
    assert!(needs_new_file(Some(&open_path), 10, "netcheck_2024-01-06_0.jsonl", 100));
    assert!(slot_accepts(false, 0, 100));
    assert!(slot_accepts(true, 99, 100));
    assert!(!slot_accepts(true, 100, 100));
}

#[test]
fn log_filenames_are_recognized() {
    assert!(is_log_filename("netcheck_2024-01-05_0.jsonl", "netcheck"));
    assert!(is_log_filename("netcheck_2024-01-05_123.jsonl", "netcheck"));
    assert!(!is_log_filename("netcheck_2024-01-05_.jsonl", "netcheck"));
    assert!(!is_log_filename("netcheck_2024-01-05_0.json", "netcheck"));
    assert!(!is_log_filename("other_2024-01-05_0.jsonl", "netcheck"));
    assert!(!is_log_filename("netcheck-2024-01-05_0.jsonl", "netcheck"));
}

#[test]
fn files_sort_newest_first_by_embedded_date() {
    assert_eq!(filename_date_key("netcheck_2024-01-05_0.jsonl"), 20240105);
    assert_eq!(filename_date_key("nodate.jsonl"), 0);
    let mut files = vec![
        "netcheck_2023-01-01_0.jsonl".to_string(),
        "nodate.jsonl".to_string(),
        "netcheck_2024-05-06_0.jsonl".to_string(),
    ];
    sort_by_filename_date(&mut files);
    assert_eq!(
        files,
        vec![
            "netcheck_2024-05-06_0.jsonl".to_string(),
            "netcheck_2023-01-01_0.jsonl".to_string(),
            "nodate.jsonl".to_string(),
        ]
    );
}

#[test]
fn selection_policies_pick_files() {
    let entries = vec![
        "netcheck_2023-01-01_0.jsonl".to_string(),
        "notes.txt".to_string(),
        "netcheck_2024-05-06_0.jsonl".to_string(),
    ];
    let all = ReportFileArgs { files: vec![], all: true, last: None, interactive: false };
    match all.logfiles(&entries) {
        FileSelection::Chosen(files) => {
            assert_eq!(
                files,
                vec![
                    "netcheck_2024-05-06_0.jsonl".to_string(),
                    "netcheck_2023-01-01_0.jsonl".to_string(),
                ]
            );
        },
        FileSelection::Prompt(_) => panic!("the all policy never prompts"),
    }
    let newest = ReportFileArgs { files: vec![], all: false, last: None, interactive: false };
    match newest.logfiles(&entries) {
        FileSelection::Chosen(files) => {
            assert_eq!(files, vec!["netcheck_2024-05-06_0.jsonl".to_string()]);
        },
        FileSelection::Prompt(_) => panic!("the default policy never prompts"),
    }
    let ask = ReportFileArgs { files: vec![], all: false, last: None, interactive: true };
    match ask.logfiles(&entries) {
        FileSelection::Chosen(_) => panic!("the interactive policy prompts"),
        FileSelection::Prompt(candidates) => assert_eq!(candidates.len(), 2),
    }
}

#[test]
fn last_policy_keeps_the_newest_files() {
    let entries = vec![
        "netcheck_2023-01-01_0.jsonl".to_string(),
        "netcheck_2024-05-06_0.jsonl".to_string(),
        "notes.txt".to_string(),
        "netcheck_2022-09-09_0.jsonl".to_string(),
    ];
    let last_two = ReportFileArgs { files: vec![], all: false, last: Some(2), interactive: false };
    match last_two.logfiles(&entries) {
        FileSelection::Chosen(files) => {
            assert_eq!(
                files,
                vec![
                    "netcheck_2024-05-06_0.jsonl".to_string(),
                    "netcheck_2023-01-01_0.jsonl".to_string(),
                ]
            );
        },
        FileSelection::Prompt(_) => panic!("the last policy never prompts"),
    }
    let explicit = ReportFileArgs {
        files: vec!["b_2021-01-01_0.jsonl".to_string(), "a_2025-01-01_0.jsonl".to_string()],
        all: false,
        last: None,
        interactive: false,
    };
    match explicit.logfiles(&entries) {
        FileSelection::Chosen(files) => {
            assert_eq!(
                files,
                vec!["a_2025-01-01_0.jsonl".to_string(), "b_2021-01-01_0.jsonl".to_string()]
            );
        },
        FileSelection::Prompt(_) => panic!("explicit files never prompt"),
    }
}

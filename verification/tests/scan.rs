use minigrep::run_file;
use minigrep::scan_step;
use minigrep::Config;
use minigrep::PathEvent;
use minigrep::ScanAction;

fn config(query: &str, filename: &str, case_sensitive: bool) -> Config {
    Config::new(query.to_string(), filename.to_string(), case_sensitive)
}

#[test]
fn config_keeps_its_settings() {
    let c = config("duct", "*.txt", true);
    assert_eq!("duct", c.query());
    assert_eq!("*.txt", c.filename());
    assert!(c.case_sensitive());
    let c = config("duct", "notes.md", false);
    assert!(!c.case_sensitive());
}

#[test]
fn matching_file_reports_decorated_path_then_lines() {
    let c = config("duct", "*", true);
    let contents = "Rust:\nsafe, fast, productive.\nPick three.\nDuct tape.";
    let report = run_file(&c, "poem.txt", contents).expect("one line matches");
    assert_eq!("\u{1b}[33mpoem.txt\u{1b}[0m", report.header);
    assert_eq!(vec!["safe, fast, productive.".to_string()], report.lines);
}

#[test]
fn file_without_matches_reports_nothing() {
    let c = config("monads", "*", true);
    let contents = "Rust:\nsafe, fast, productive.\nPick three.";
    assert!(run_file(&c, "poem.txt", contents).is_none());
}

#[test]
fn config_selects_the_matching_mode() {
    let contents = "Rust:\nTrust me.";
    let sensitive = config("rUsT", "*", true);
    assert!(run_file(&sensitive, "p", contents).is_none());
    let insensitive = config("rUsT", "*", false);
    let report = run_file(&insensitive, "p", contents).expect("folded matches");
    assert_eq!(
        vec!["Rust:".to_string(), "Trust me.".to_string()],
        report.lines
    );
}

#[test]
fn scanning_twice_reports_the_same() {
    let c = config("rust", "*", false);
    let contents = "Rust:\nsafe, fast, productive.\nTrust me.";
    let first = run_file(&c, "poem.txt", contents).expect("matches");
    let second = run_file(&c, "poem.txt", contents).expect("matches");
    assert_eq!(first.header, second.header);
    assert_eq!(first.lines, second.lines);
}

#[test]
fn unresolved_path_is_diagnosed_and_not_fatal() {
    let c = config("duct", "*", true);
    let event = PathEvent::Unresolved {
        cause: "permission denied reading dir".to_string(),
    };
    match scan_step(&c, event) {
        ScanAction::Diagnose { message } => {
            assert_eq!("Error: permission denied reading dir", message);
        }
        _ => panic!("an unresolved path must be diagnosed"),
    }
}

#[test]
fn unreadable_file_aborts_the_run() {
    let c = config("duct", "*", true);
    let event = PathEvent::Resolved {
        path: "poem.txt".to_string(),
        read: Err("permission denied".to_string()),
    };
    match scan_step(&c, event) {
        ScanAction::Abort { message } => assert_eq!("permission denied", message),
        _ => panic!("an unreadable file must abort the run"),
    }
}

#[test]
fn readable_file_with_matches_is_emitted() {
    let c = config("duct", "*", true);
    let bytes = b"Rust:\nsafe, fast, productive.\nPick three.\nDuct tape.".to_vec();
    let event = PathEvent::Resolved {
        path: "poem.txt".to_string(),
        read: Ok(bytes),
    };
    match scan_step(&c, event) {
        ScanAction::Emit { report } => {
            assert_eq!("\u{1b}[33mpoem.txt\u{1b}[0m", report.header);
            assert_eq!(vec!["safe, fast, productive.".to_string()], report.lines);
        }
        _ => panic!("a matching file must be emitted"),
    }
}

#[test]
fn readable_file_without_matches_is_skipped() {
    let c = config("monads", "*", true);
    let event = PathEvent::Resolved {
        path: "poem.txt".to_string(),
        read: Ok(b"Rust:\nPick three.".to_vec()),
    };
    match scan_step(&c, event) {
        ScanAction::Skip => {}
        _ => panic!("a file without matches prints nothing"),
    }
}

#[test]
fn invalid_bytes_are_replaced_not_fatal() {
    let c = config("tape", "*", true);
    let mut bytes = vec![0xff, 0xfe];
    bytes.extend_from_slice(b"Duct tape.\nPick three.");
    let event = PathEvent::Resolved {
        path: "poem.txt".to_string(),
        read: Ok(bytes),
    };
    match scan_step(&c, event) {
        ScanAction::Emit { report } => {
            assert_eq!(
                vec!["\u{fffd}\u{fffd}Duct tape.".to_string()],
                report.lines
            );
        }
        _ => panic!("lenient decoding must keep the scan going"),
    }
}

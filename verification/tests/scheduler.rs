use url_launcher::duration::Duration;
use url_launcher::entries::Entry;
use url_launcher::scheduler::{handle_urls_file, Action, LaunchError, Scheduler};

fn entry(url: &str) -> Entry {
    Entry { url: url.to_string(), browser: None }
}

fn entry_with(url: &str, browser: &str) -> Entry {
    Entry { url: url.to_string(), browser: Some(browser.to_string()) }
}

/// Drive a scheduler to completion; `fail_at` names the 1-based wait
/// numbers whose outcome is a failure. Returns the actions in order.
fn drive(s: &mut Scheduler, fail_at: &[usize]) -> Vec<Action> {
    let mut actions = Vec::new();
    while !s.is_finished() {
        let a = s.next_action();
        actions.push(a);
        match a {
            Action::Wait { num, .. } => {
                let outcome = if fail_at.contains(&num) {
                    Some(LaunchError::new(format!("boom {}", num)))
                } else {
                    None
                };
                s.advance(Some(outcome));
            }
            Action::Finished => break,
            _ => s.advance(None),
        }
    }
    actions
}

#[test]
fn dry_run_reports_and_never_launches_sleeps_or_waits() {
    let entries = vec![entry("http://a"), entry("http://b")];
    let mut s = Scheduler::new(entries, Some(Duration { secs: 1, nanos: 0 }), None, true);
    let actions = drive(&mut s, &[]);
    assert_eq!(
        actions,
        vec![
            Action::NoteWouldLaunch { num: 1, count: 2 },
            Action::NoteWouldSleep { num: 1, count: 2 },
            Action::NoteWouldLaunch { num: 2, count: 2 },
            Action::NoteWouldSleep { num: 2, count: 2 },
            Action::NoteWouldJoin { count: 2 },
        ]
    );
    assert!(s.result().is_ok());
}

#[test]
fn dry_run_twice_reports_the_same_sequence() {
    let first = {
        let entries = vec![entry("http://a"), entry("http://b"), entry("http://c")];
        let mut s = Scheduler::new(entries, Some(Duration { secs: 2, nanos: 0 }), None, true);
        drive(&mut s, &[])
    };
    let second = {
        let entries = vec![entry("http://a"), entry("http://b"), entry("http://c")];
        let mut s = Scheduler::new(entries, Some(Duration { secs: 2, nanos: 0 }), None, true);
        drive(&mut s, &[])
    };
    assert_eq!(first, second);
    assert!(!first.iter().any(|a| matches!(
        a,
        Action::Launch { .. } | Action::Sleep { .. } | Action::Wait { .. }
    )));
}

#[test]
fn success_only_after_all_handles_joined() {
    let entries = vec![entry("http://a"), entry("http://b"), entry("http://c")];
    let mut s = Scheduler::new(entries, None, None, false);
    let actions = drive(&mut s, &[]);
    let launches = actions.iter().filter(|a| matches!(a, Action::Launch { .. })).count();
    let waits = actions.iter().filter(|a| matches!(a, Action::Wait { .. })).count();
    assert_eq!(launches, 3);
    assert_eq!(waits, 3);
    assert!(s.result().is_ok());
    // every wait comes after every launch
    let last_launch = actions
        .iter()
        .rposition(|a| matches!(a, Action::Launch { .. }))
        .unwrap();
    let first_wait = actions
        .iter()
        .position(|a| matches!(a, Action::Wait { .. }))
        .unwrap();
    assert!(last_launch < first_wait);
}

#[test]
fn first_failure_wins_and_every_handle_is_still_joined() {
    let entries = vec![
        entry("http://1"),
        entry("http://2"),
        entry("http://3"),
        entry("http://4"),
        entry("http://5"),
    ];
    let mut s = Scheduler::new(entries, None, None, false);
    let actions = drive(&mut s, &[2, 4]);
    let wait_nums: Vec<usize> = actions
        .iter()
        .filter_map(|a| match a {
            Action::Wait { num, .. } => Some(*num),
            _ => None,
        })
        .collect();
    assert_eq!(wait_nums, vec![1, 2, 3, 4, 5]);
    let err = s.result().unwrap_err();
    assert_eq!(err.message, "boom 2");
}

#[test]
fn launches_are_staggered_by_one_sleep_each() {
    let entries = vec![entry("http://a"), entry("http://b"), entry("http://c")];
    let delay = Duration { secs: 0, nanos: 5_000_000 };
    let mut s = Scheduler::new(entries, Some(delay), None, false);
    let actions = drive(&mut s, &[]);
    assert_eq!(
        actions,
        vec![
            Action::Launch { num: 1, count: 3 },
            Action::Sleep { num: 1, count: 3 },
            Action::Launch { num: 2, count: 3 },
            Action::Sleep { num: 2, count: 3 },
            Action::Launch { num: 3, count: 3 },
            Action::Sleep { num: 3, count: 3 },
            Action::Wait { num: 1, count: 3 },
            Action::Wait { num: 2, count: 3 },
            Action::Wait { num: 3, count: 3 },
        ]
    );
    assert!(s.result().is_ok());
}

#[test]
fn no_configured_delay_means_no_sleep_step() {
    let entries = vec![entry("http://a"), entry("http://b")];
    let mut s = Scheduler::new(entries, None, None, false);
    let actions = drive(&mut s, &[]);
    assert!(!actions.iter().any(|a| matches!(
        a,
        Action::Sleep { .. } | Action::NoteWouldSleep { .. }
    )));
}

#[test]
fn browser_resolution_prefers_the_run_wide_override() {
    let entries = vec![entry("http://a"), entry_with("http://b", "lynx")];
    let s = Scheduler::new(entries, None, Some("chrome".to_string()), false);
    assert_eq!(s.launch_browser(0).map(String::as_str), Some("chrome"));
    assert_eq!(s.launch_browser(1).map(String::as_str), Some("chrome"));

    let entries = vec![entry("http://a"), entry_with("http://b", "lynx")];
    let s = Scheduler::new(entries, None, None, false);
    assert_eq!(s.launch_browser(0), None);
    assert_eq!(s.launch_browser(1).map(String::as_str), Some("lynx"));
    assert_eq!(s.launch_url(1).as_str(), "http://b");
}

#[test]
fn empty_entry_list_is_immediately_done() {
    let s = Scheduler::new(Vec::new(), None, None, false);
    assert!(s.is_finished());
    assert!(s.result().is_ok());

    let mut d = Scheduler::new(Vec::new(), None, None, true);
    let actions = drive(&mut d, &[]);
    assert_eq!(actions, vec![Action::NoteWouldJoin { count: 0 }]);
    assert!(d.result().is_ok());
}

#[test]
fn handle_urls_file_parses_delay_and_entries() {
    let lines: Vec<String> = "http://a.com\n# comment\n\nhttp://b.com;firefox\n"
        .lines()
        .map(String::from)
        .collect();
    let s = handle_urls_file(&lines, Some("2s".to_string()), None, false).unwrap();
    assert_eq!(s.delay, Some(Duration { secs: 2, nanos: 0 }));
    assert_eq!(s.entries.len(), 2);
    assert_eq!(s.entries[0].url, "http://a.com");
    assert_eq!(s.entries[1].browser.as_deref(), Some("firefox"));
    assert!(!s.is_finished());
}

#[test]
fn handle_urls_file_rejects_a_bad_delay_before_anything_else() {
    let lines: Vec<String> = vec!["http://a.com".to_string()];
    match handle_urls_file(&lines, Some("".to_string()), None, false) {
        Err(e) => assert_eq!(e.message(), "must specify time duration"),
        Ok(_) => panic!("an empty delay specification must be rejected"),
    }
    match handle_urls_file(&lines, Some("5x".to_string()), None, false) {
        Err(e) => assert_eq!(e.message(), "invalid time duration suffix"),
        Ok(_) => panic!("an unrecognized suffix must be rejected"),
    }
    let s = handle_urls_file(&lines, None, None, false).unwrap();
    assert_eq!(s.delay, None);
}

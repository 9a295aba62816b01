use red_js_interpreter::log::{DataLogger, FilterLogs, LastNLogs, LogLevel, Logger};
use std::cell::RefCell;
use std::collections::VecDeque;
use std::rc::Rc;

/// Keeps every line it is given, where the test can read them.
struct Collect {
    lines: Rc<RefCell<Vec<String>>>,
}

impl DataLogger for Collect {
    type LogData = String;

    fn prepare<F: Fn() -> String>(&self, level: LogLevel, message: &F) -> String {
        format!("{level:?}: {}", message())
    }

    fn logln_data(&mut self, data: String) {
        self.lines.borrow_mut().push(data);
    }
}

fn collect() -> (Collect, Rc<RefCell<Vec<String>>>) {
    let lines = Rc::new(RefCell::new(Vec::new()));
    (Collect { lines: lines.clone() }, lines)
}

fn seen(lines: &Rc<RefCell<Vec<String>>>) -> Vec<String> {
    lines.borrow().clone()
}

#[test]
fn levels_are_ordered_by_severity() {
    assert!(LogLevel::Fatal.at_least(&LogLevel::Error));
    assert!(LogLevel::Info.at_least(&LogLevel::Info));
    assert!(!LogLevel::Trace.at_least(&LogLevel::Info));
    assert!(LogLevel::Trace < LogLevel::Warning);
}

#[test]
fn filter_passes_levels_at_or_above_the_minimum() {
    let (c, lines) = collect();
    let mut f = FilterLogs::new(c, LogLevel::Warning);
    f.logln_str(LogLevel::Info, "dropped");
    f.logln_str(LogLevel::Warning, "kept");
    f.logln_str(LogLevel::Fatal, "also kept");
    assert_eq!(seen(&lines), vec!["Warning: kept".to_string(), "Fatal: also kept".to_string()]);
    let data = f.prepare(LogLevel::Trace, &|| "x".to_string());
    assert!(data.is_none());
    let data = f.prepare(LogLevel::Error, &|| "y".to_string());
    assert_eq!(data, Some("Error: y".to_string()));
}

#[test]
fn filter_does_not_make_dropped_messages() {
    let f = FilterLogs::new(collect().0, LogLevel::Error);
    let made = std::cell::Cell::new(false);
    let data = f.prepare(LogLevel::Info, &|| {
        made.set(true);
        "never".to_string()
    });
    assert!(data.is_none());
    assert!(!made.get());
}

#[test]
fn last_n_keeps_only_the_latest() {
    let (c, lines) = collect();
    let mut l = LastNLogs::new_empty(c, 2);
    l.logln_str(LogLevel::Info, "one");
    l.logln_str(LogLevel::Info, "two");
    l.logln_str(LogLevel::Error, "three");
    assert!(seen(&lines).is_empty());
    l.flush();
    assert_eq!(seen(&lines), vec!["Info: two".to_string(), "Error: three".to_string()]);
    l.logln_str(LogLevel::Info, "four");
    l.flush();
    l.flush();
    assert_eq!(
        seen(&lines),
        vec!["Info: two".to_string(), "Error: three".to_string(), "Info: four".to_string()]
    );
}

#[test]
fn last_n_with_initial_logs() {
    let mut logs = VecDeque::new();
    logs.push_back("Info: a".to_string());
    let (c, lines) = collect();
    let mut l = LastNLogs::new_custom(c, 1, logs);
    l.logln_str(LogLevel::Info, "b");
    l.flush();
    assert_eq!(seen(&lines), vec!["Info: b".to_string()]);
}

#[test]
fn logger_makes_the_message_once() {
    let (mut c, lines) = collect();
    c.logln(LogLevel::Trace, &|| format!("n={}", 3));
    assert_eq!(seen(&lines), vec!["Trace: n=3".to_string()]);
}

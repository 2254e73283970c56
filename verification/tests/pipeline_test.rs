use fast_log::appender::{Command, FastLogRecord, Level, LevelFilter};
use fast_log::config::Config;
use fast_log::fast_log::{exit, flush, format_batch, init, print, scan_exit, Logger};
use fast_log::filter::ModuleFilter;
use fast_log::formats::{FastLogFormat, FastLogFormatJson, TimeType};
use fast_log::plugin::console::MemAppender;
use fast_log::plugin::file::FileAppender;
use fast_log::plugin::file_split::MemFile;

fn pipe_rec(args: &str, module: &str, sec: u64) -> FastLogRecord {
    FastLogRecord {
        command: Command::CommandRecord,
        level: Level::Info,
        target: String::new(),
        args: args.to_string(),
        module: module.to_string(),
        file: "src/demo.rs".to_string(),
        line: Some(42),
        now_sec: sec,
        now_nano: 0,
        formated: String::new(),
    }
}

#[test]
fn test_plain_format_exact_line() {
    let fmt = FastLogFormat::new().set_time_type(TimeType::Utc, 0);
    let mut batch = vec![pipe_rec("hello", "mymod", 1704067200)];
    let exit_seen = format_batch(&fmt, &mut batch);
    assert!(!exit_seen);
    assert_eq!(
        batch[0].formated,
        "2024-01-01 00:00:00.000000000 INFO mymod - hello\n"
    );
}

#[test]
fn test_plain_format_shows_line_for_severe_records() {
    let fmt = FastLogFormat::new()
        .set_time_type(TimeType::Utc, 0)
        .set_display_line_level(LevelFilter::Info);
    let mut batch = vec![pipe_rec("boom", "mymod", 1704067200)];
    format_batch(&fmt, &mut batch);
    assert_eq!(
        batch[0].formated,
        "2024-01-01 00:00:00.000000000 INFO src/demo.rs:42 boom\n"
    );
}

#[test]
fn test_json_format_exact_line() {
    let fmt = FastLogFormatJson { time_type: TimeType::Utc, zone_offset_sec: 0 };
    let mut batch = vec![pipe_rec("hello", "mymod", 1704067200)];
    format_batch(&fmt, &mut batch);
    assert_eq!(
        batch[0].formated,
        "{\"args\":\"hello\",\"date\":\"2024-01-01 00:00:00.000000000\",\"file\":\"src/demo.rs\",\"level\":\"INFO\",\"line\":42}\n"
    );
}

#[test]
fn test_formatter_skips_prerendered_records() {
    let fmt = FastLogFormat::new().set_time_type(TimeType::Utc, 0);
    let mut rec = pipe_rec("ignored", "m", 0);
    rec.formated = "already\n".to_string();
    let mut batch = vec![rec];
    format_batch(&fmt, &mut batch);
    // a record the formatter already rendered once is not rendered again
    assert_eq!(batch[0].formated, "already\n");
}

#[test]
fn test_broadcast_order() {
    let fmt = FastLogFormat::new().set_time_type(TimeType::Utc, 0);
    let mut batch = vec![
        pipe_rec("A", "m", 1),
        pipe_rec("B", "m", 2),
        pipe_rec("C", "m", 3),
    ];
    format_batch(&fmt, &mut batch);
    let mut sink1 = MemAppender::new();
    let mut sink2 = MemAppender::new();
    sink1.write_batch(&batch);
    sink2.write_batch(&batch);
    // both appenders see the same ordered sequence
    assert_eq!(sink1.contents(), sink2.contents());
    let text = sink1.contents().clone();
    let pos_a = text.find(" - A\n").unwrap();
    let pos_b = text.find(" - B\n").unwrap();
    let pos_c = text.find(" - C\n").unwrap();
    assert!(pos_a < pos_b && pos_b < pos_c);
}

#[test]
fn test_k_records_k_lines() {
    let fmt = FastLogFormat::new().set_time_type(TimeType::Utc, 0);
    let k = 37;
    let mut batch: Vec<FastLogRecord> = Vec::new();
    for i in 0..k {
        batch.push(pipe_rec(&format!("message {}", i), "m", i as u64));
    }
    format_batch(&fmt, &mut batch);
    let mut sink = MemAppender::new();
    sink.write_batch(&batch);
    let lines = sink.contents().matches('\n').count();
    assert_eq!(lines, k);
}

#[test]
fn test_filter_drop() {
    let mut filter = ModuleFilter::new();
    filter.add("noisy");
    assert!(!filter.check("noisy"));
    assert!(filter.check("quiet"));
    let cfg = Config::new().console().add_filter(filter).chan_len(Some(100));
    let logger = init(cfg).unwrap();
    logger.log(pipe_rec("one", "noisy", 1)).unwrap();
    logger.log(pipe_rec("two", "quiet", 2)).unwrap();
    logger.log(pipe_rec("three", "noisy", 3)).unwrap();
    let recv = logger.recv.as_ref().unwrap();
    // only the record from the quiet module was enqueued
    let got = recv.try_recv().unwrap();
    assert_eq!(got.args, "two");
    assert!(recv.try_recv().is_err());
}

#[test]
fn test_init_requires_appenders() {
    let e = match init(Config::new()) {
        Ok(_) => panic!("a configuration without appenders must be refused"),
        Err(e) => e,
    };
    assert_eq!(e.message(), "[fast_log] appends can not be empty!");
}

#[test]
fn test_exit_idempotence() {
    let logger = init(Config::new().console()).unwrap();
    assert!(exit(&logger).is_ok());
    // a second exit enqueues a second sentinel; no panic either way
    assert!(exit(&logger).is_ok());
    let uninit = Logger::default();
    assert!(exit(&uninit).is_err());
}

#[test]
fn test_flush_enqueues_barrier() {
    let logger = init(Config::new().console()).unwrap();
    let wg = flush(&logger).unwrap();
    let recv = logger.recv.as_ref().unwrap();
    let rec = recv.try_recv().unwrap();
    assert_eq!(rec.command.to_i32(), 3);
    // both barrier holders released: dropping the record and waiting
    // on ours must not deadlock
    drop(rec);
    wg.wait();
}

#[test]
fn test_print_bypasses_formatter() {
    let logger = init(Config::new().console()).unwrap();
    print(&logger, "raw line\n".to_string()).unwrap();
    let recv = logger.recv.as_ref().unwrap();
    let rec = recv.try_recv().unwrap();
    assert_eq!(rec.formated, "raw line\n");
    assert_eq!(rec.command.to_i32(), 1);
    let uninit = Logger::default();
    assert!(print(&uninit, "x".to_string()).is_err());
}

#[test]
fn test_scan_exit() {
    let batch = vec![pipe_rec("a", "m", 0)];
    assert!(!scan_exit(&batch));
    let mut rec = pipe_rec("", "m", 0);
    rec.command = Command::CommandExit;
    let batch2 = vec![pipe_rec("a", "m", 0), rec];
    assert!(scan_exit(&batch2));
}

#[test]
fn test_flush_barrier_file_sink() {
    let fmt = FastLogFormat::new().set_time_type(TimeType::Utc, 0);
    let mut batch = vec![pipe_rec("A", "m", 1), pipe_rec("B", "m", 2)];
    format_batch(&fmt, &mut batch);
    let wg = crossbeam_utils::sync::WaitGroup::new();
    batch.push(FastLogRecord {
        command: Command::CommandFlush(wg.clone()),
        level: Level::Info,
        target: String::new(),
        args: String::new(),
        module: String::new(),
        file: String::new(),
        line: None,
        now_sec: 0,
        now_nano: 0,
        formated: String::new(),
    });
    let mut sink: FileAppender<MemFile> = FileAppender::new("t.log").unwrap();
    sink.write_batch(&batch);
    // when write_batch returns (and the barrier can be released), the
    // sink already holds exactly the rendered forms of A and B
    let mut expected = batch[0].formated.clone();
    expected.push_str(&batch[1].formated);
    drop(batch);
    wg.wait();
    let held = String::from_utf8(sink.read_sink()).unwrap();
    assert_eq!(held, expected);
    assert!(held.contains(" - A\n"));
    assert!(held.contains(" - B\n"));
}

#[test]
fn test_chan_len_sets_channel_bound() {
    let bounded = init(Config::new().console().chan_len(Some(7))).unwrap();
    assert_eq!(bounded.recv.as_ref().unwrap().capacity(), Some(7));
    let unbounded = init(Config::new().console()).unwrap();
    assert_eq!(unbounded.recv.as_ref().unwrap().capacity(), None);
}

#[test]
fn test_error_messages_tell_uninitialised_from_closed() {
    let uninit = Logger::default();
    assert_eq!(exit(&uninit).unwrap_err().message(), "not init");
    assert_eq!(flush(&uninit).unwrap_err().message(), "not init");
    assert_eq!(print(&uninit, "x".to_string()).unwrap_err().message(), "not init");
    // an initialised logger whose workers are gone fails with its own
    // message, never with `not init`
    let mut closed = init(Config::new().console()).unwrap();
    closed.recv = None;
    assert_eq!(exit(&closed).unwrap_err().message(), "[fast_log] exit fail!");
    assert_eq!(flush(&closed).unwrap_err().message(), "[fast_log] flush fail!");
    assert_eq!(
        print(&closed, "x".to_string()).unwrap_err().message(),
        "[fast_log] print fail!"
    );
}

#[test]
fn test_level_and_enabled() {
    let mut logger = Logger::default();
    logger.set_level(LevelFilter::Warn);
    assert_eq!(logger.get_level(), LevelFilter::Warn);
    assert!(logger.enabled(Level::Error));
    assert!(logger.enabled(Level::Warn));
    assert!(!logger.enabled(Level::Info));
}

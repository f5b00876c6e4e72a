use flexi_logger::config::FlexiLoggerError;
use flexi_logger::config::WriteMode;
use flexi_logger::deferred_now::DeferredNow;
use flexi_logger::deferred_now::Timestamp;
use flexi_logger::directory::Directory;
use flexi_logger::file_log_writer::FileLogWriter;
use flexi_logger::file_log_writer::LevelFilter;
use flexi_logger::filespec::number_infix;
use flexi_logger::filespec::timestamp_infix;
use flexi_logger::filespec::FileSpec;
use flexi_logger::parameters::Age;
use flexi_logger::parameters::Cleanup;
use flexi_logger::parameters::Criterion;
use flexi_logger::parameters::Naming;
use flexi_logger::siblings::idx_of_name_exec;
use flexi_logger::state::get_highest_rotate_idx;
use flexi_logger::state::IdxState;

fn spec() -> FileSpec {
    FileSpec::new("logs".to_string(), "app".to_string())
}

#[test]
fn number_infix_pads_to_five_digits() {
    assert_eq!(number_infix(0), "_r00000");
    assert_eq!(number_infix(7), "_r00007");
    assert_eq!(number_infix(12345), "_r12345");
    assert_eq!(number_infix(123456), "_r123456");
}

#[test]
fn timestamp_infix_renders_all_fields() {
    let ts = Timestamp::new(2021, 1, 27, 14, 41, 8, 8);
    assert_eq!(timestamp_infix(&ts), "_r2021-01-27T14:41:08+08");
    let ts2 = Timestamp::new(1999, 12, 31, 23, 59, 59, -5);
    assert_eq!(timestamp_infix(&ts2), "_r1999-12-31T23:59:59-05");
}

#[test]
fn paths_are_derived_from_the_spec() {
    let fs = spec().discriminant("alpha".to_string());
    assert_eq!(fs.as_pathbuf(None), "logs/app_alpha.log");
    assert_eq!(fs.as_pathbuf(Some("_rCURRENT")), "logs/app_alpha_rCURRENT.log");
    assert_eq!(
        fs.as_glob_pattern(Some("_r[0-9]*"), None),
        "logs/app_alpha_r[0-9]*.log"
    );
    assert_eq!(
        fs.as_glob_pattern(Some("_r[0-9]*"), Some("gz")),
        "logs/app_alpha_r[0-9]*.gz"
    );
    let plain = spec().suffix("txt".to_string());
    assert_eq!(plain.as_pathbuf(None), "logs/app.txt");
}

#[test]
fn index_parsing_reads_the_last_marker() {
    assert_eq!(idx_of_name_exec("logs/app_r00007.log"), 7);
    assert_eq!(idx_of_name_exec("logs/app_r00000.log"), 0);
    assert_eq!(idx_of_name_exec("logs/app_r12345.log"), 12345);
    // a compressed sibling's stem still ends in .log, so it reads as zero
    assert_eq!(idx_of_name_exec("logs/app_r00007.log.gz"), 0);
    // timestamped names hold no plain number
    assert_eq!(idx_of_name_exec("logs/app_r2021-01-27T14:41:08+08.log"), 0);
}

#[test]
fn discovery_takes_the_highest_index() {
    let mut dir = Directory::new();
    let fs = spec();
    assert!(matches!(get_highest_rotate_idx(&dir, &fs), IdxState::Start));
    for name in ["logs/app_r00000.log", "logs/app_r00007.log", "logs/app_r00003.log"] {
        dir.create_or_truncate(name);
    }
    assert!(matches!(get_highest_rotate_idx(&dir, &fs), IdxState::Idx(7)));
    // missing intermediates do not confuse the discovery
    dir.remove_file("logs/app_r00003.log");
    assert!(matches!(get_highest_rotate_idx(&dir, &fs), IdxState::Idx(7)));
}

#[test]
fn deferred_now_captures_once() {
    let mut now = DeferredNow::new();
    let first = now.now();
    let second = now.now();
    assert_eq!(first, second);
}

#[test]
fn day_number_packs_the_date() {
    let ts = Timestamp::new(2021, 3, 14, 0, 0, 0, 0);
    assert_eq!(ts.day_number(), 2021_03_14);
    let ts2 = Timestamp::new(1999, 12, 31, 0, 0, 0, 0);
    assert_eq!(ts2.day_number(), 1999_12_31);
}

#[test]
fn cleanup_knows_when_to_run() {
    assert!(!Cleanup::Never.do_cleanup());
    assert!(Cleanup::KeepLogFiles(3).do_cleanup());
    assert!(Cleanup::KeepCompressedFiles(3).do_cleanup());
    assert!(Cleanup::KeepLogAndCompressedFiles(2, 5).do_cleanup());
}

#[test]
fn buffersize_follows_the_write_mode() {
    assert_eq!(WriteMode::Direct.buffersize(), None);
    assert_eq!(WriteMode::BufferAndFlushWith(512, 100).buffersize(), Some(512));
    assert_eq!(WriteMode::BufferDontFlushWith(256).buffersize(), Some(256));
    let async_mode = WriteMode::AsyncWith {
        bufsize: 1024,
        pool_capa: 5,
        message_capa: 400,
        flush_interval: 0,
    };
    assert_eq!(async_mode.buffersize(), Some(1024));
}

#[test]
fn builder_refuses_unworkable_suffixes() {
    for bad in ["gz", "zip", "log.gz", "lo/g"] {
        let refused = FileLogWriter::builder(spec().suffix(bad.to_string())).try_build();
        assert!(refused.is_err());
        assert_eq!(refused.unwrap_err(), FlexiLoggerError::WriterSpec);
    }
    assert!(FileLogWriter::builder(spec()).try_build().is_ok());
}

#[test]
fn builder_refuses_an_offset_the_clock_cannot_express() {
    for bad in [26i8, -26, 127, -128] {
        let refused = FileLogWriter::builder(spec())
            .rotate(Criterion::Size(10), Naming::Timestamps(bad), Cleanup::Never)
            .try_build();
        assert!(refused.is_err());
        assert_eq!(refused.unwrap_err(), FlexiLoggerError::WriterSpec);
    }
    for good in [0i8, 8, 25, -25] {
        let accepted = FileLogWriter::builder(spec())
            .rotate(Criterion::Size(10), Naming::Timestamps(good), Cleanup::Never)
            .try_build();
        assert!(accepted.is_ok());
    }
}

#[test]
fn writer_exposes_its_configuration() {
    let flw = FileLogWriter::builder(spec())
        .format(42)
        .try_build()
        .unwrap();
    assert_eq!(flw.format(), 42);
    assert_eq!(flw.max_log_level(), LevelFilter::Trace);
    assert_eq!(flw.current_filename(), "logs/app.log");
    let rotating = FileLogWriter::builder(spec())
        .rotate(Criterion::Size(10), Naming::Numbers, Cleanup::Never)
        .try_build()
        .unwrap();
    assert_eq!(rotating.current_filename(), "logs/app_rCURRENT.log");
}

#[test]
fn write_appends_a_line_ending() {
    let mut dir = Directory::new();
    let mut flw = FileLogWriter::builder(spec()).try_build().unwrap();
    let mut now = DeferredNow::new();
    flw.write(&mut dir, &mut now, b"hello world").unwrap();
    flw.flush().unwrap();
    let content = dir.read("logs/app.log").unwrap();
    assert_eq!(content.as_slice(), b"hello world\n");
}

#[test]
fn age_criteria_share_their_day_cell() {
    let age = Age::new_with_splitting_at_every_new_day_by_offset_hour(8);
    match &age {
        Age::EveryNewDay(split) => {
            assert_eq!(split.offset_hour(), 8);
            split.store_day_number(2021_03_14);
            assert_eq!(split.load_day_number(), 2021_03_14);
            let shared = split.clone();
            shared.store_day_number(2021_03_15);
            assert_eq!(split.load_day_number(), 2021_03_15);
        },
        _ => unreachable!(),
    }
    let _sized = Criterion::AgeOrSize(age.clone(), 1000);
}

#[test]
fn size_counter_follows_writes() {
    // the counter equals the bytes written since the file was opened,
    // and starts over after a rotation
    let mut dir = Directory::new();
    let mut flw = FileLogWriter::builder(spec().discriminant("size".to_string()))
        .rotate(Criterion::Size(10), Naming::Numbers, Cleanup::Never)
        .try_build()
        .unwrap();
    let now = Timestamp::new(2021, 3, 14, 15, 9, 2, 1);
    flw.plain_write(&mut dir, &now, b"twelve bytes").unwrap();
    let active = flw.current_filename();
    assert_eq!(dir.read(&active).unwrap().len(), 12);
    // the next write overflows the limit, so it lands in a fresh file
    flw.plain_write(&mut dir, &now, b"again").unwrap();
    assert_eq!(dir.read(&active).unwrap().len(), 5);
    assert_eq!(
        dir.read("logs/app_size_r00000.log").unwrap().as_slice(),
        b"twelve bytes"
    );
}

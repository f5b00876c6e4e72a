use flexi_logger::cleanup::gzip_fast;
use std::io::Read;
use flexi_logger::deferred_now::Timestamp;
use flexi_logger::directory::Directory;
use flexi_logger::file_log_writer::FileLogWriter;
use flexi_logger::file_log_writer::FileLogWriterBuilder;
use flexi_logger::filespec::FileSpec;
use flexi_logger::siblings::list_of_log_and_compressed_files;
use flexi_logger::config::FlexiLoggerError;
use flexi_logger::config::WriteMode;
use flexi_logger::parameters::Cleanup;
use flexi_logger::parameters::Criterion;
use flexi_logger::parameters::Naming;

const DIRECTORY: &str = "log_files/rotate";
const ONE: &str = "ONE";
const TWO: &str = "TWO";
const THREE: &str = "THREE";
const FOUR: &str = "FOUR";
const FIVE: &str = "FIVE";
const SIX: &str = "SIX";
const SEVEN: &str = "SEVEN";
const EIGHT: &str = "EIGHT";
const NINE: &str = "NINE";

fn ts(second: u8) -> Timestamp {
    Timestamp::new(2021, 3, 14, 15, 9, second, 1)
}

fn file_spec(discr: &str) -> FileSpec {
    FileSpec::new(DIRECTORY.to_string(), "logger".to_string()).discriminant(discr.to_string())
}

fn get_file_log_writer(append: bool, naming: Naming, discr: &str) -> FileLogWriter {
    FileLogWriter::builder(file_spec(discr))
        .rotate(
            Criterion::Size(if append { 28 } else { 10 }),
            naming,
            Cleanup::Never,
        )
        .o_append(append)
        .try_build()
        .unwrap()
}

fn write_loglines(dir: &mut Directory, append: bool, naming: Naming, discr: &str, texts: &[&str]) {
    let mut flw = get_file_log_writer(append, naming, discr);
    let mut second: u8 = 0;
    for text in texts {
        let record = format!("ERROR [server] {}", text);
        let now = ts(second);
        let line = format!("{}\n", record);
        flw.plain_write(dir, &now, line.as_bytes()).unwrap();
        second = (second + 1) % 60;
    }
}

fn hackypath(discr: &str, infix: &str) -> String {
    format!("{}/logger_{}_r{}.log", DIRECTORY, discr, infix)
}

fn not_exists(dir: &Directory, discr: &str, infix: &str) -> bool {
    !dir.exists_file(&hackypath(discr, infix))
}

fn contains(dir: &Directory, discr: &str, infix: &str, text: &str) -> bool {
    match dir.read(&hackypath(discr, infix)) {
        None => false,
        Some(content) => {
            let s = String::from_utf8(content.clone()).unwrap();
            s.contains(text)
        },
    }
}

fn remove(dir: &mut Directory, discr: &str, infix: &str) {
    dir.remove_file(&hackypath(discr, infix));
}

fn list_rotated_files(dir: &Directory, discr: &str) -> Vec<String> {
    let prefix = format!("{}/logger_{}_r2", DIRECTORY, discr);
    dir.file_names()
        .into_iter()
        .filter(|n| n.starts_with(&prefix) && n.ends_with(".log"))
        .collect()
}

#[test]
fn test_rotate_no_append_numbers() {
    let mut dir = Directory::new();
    let ts_discr = "false-numbers";
    let naming = Naming::Numbers;

    assert!(not_exists(&dir, ts_discr, "00000"));
    assert!(not_exists(&dir, ts_discr, "00001"));
    assert!(not_exists(&dir, ts_discr, "CURRENT"));

    write_loglines(&mut dir, false, naming, ts_discr, &[ONE]);
    assert!(not_exists(&dir, ts_discr, "00000"));
    assert!(not_exists(&dir, ts_discr, "00001"));
    assert!(contains(&dir, ts_discr, "CURRENT", ONE));

    write_loglines(&mut dir, false, naming, ts_discr, &[TWO]);
    assert!(contains(&dir, ts_discr, "00000", ONE));
    assert!(not_exists(&dir, ts_discr, "00001"));
    assert!(contains(&dir, ts_discr, "CURRENT", TWO));

    remove(&mut dir, ts_discr, "CURRENT");
    assert!(not_exists(&dir, ts_discr, "CURRENT"));
    write_loglines(&mut dir, false, naming, ts_discr, &[TWO]);
    assert!(contains(&dir, ts_discr, "00000", ONE));
    assert!(not_exists(&dir, ts_discr, "00001"));
    assert!(contains(&dir, ts_discr, "CURRENT", TWO));

    write_loglines(&mut dir, false, naming, ts_discr, &[THREE]);
    assert!(contains(&dir, ts_discr, "00000", ONE));
    assert!(contains(&dir, ts_discr, "00001", TWO));
    assert!(contains(&dir, ts_discr, "CURRENT", THREE));
}

#[test]
fn test_rotate_with_append_numbers() {
    let mut dir = Directory::new();
    let ts_discr = "true-numbers";
    let naming = Naming::Numbers;

    assert!(not_exists(&dir, ts_discr, "00000"));
    assert!(not_exists(&dir, ts_discr, "00001"));
    assert!(not_exists(&dir, ts_discr, "CURRENT"));

    write_loglines(&mut dir, true, naming, ts_discr, &[ONE, TWO, THREE]);
    assert!(contains(&dir, ts_discr, "00000", ONE));
    assert!(contains(&dir, ts_discr, "00000", TWO));
    assert!(not_exists(&dir, ts_discr, "00001"));
    assert!(contains(&dir, ts_discr, "CURRENT", THREE));

    write_loglines(&mut dir, true, naming, ts_discr, &[FOUR, FIVE, SIX]);
    assert!(contains(&dir, ts_discr, "00000", ONE));
    assert!(contains(&dir, ts_discr, "00000", TWO));
    assert!(contains(&dir, ts_discr, "00001", THREE));
    assert!(contains(&dir, ts_discr, "00001", FOUR));
    assert!(contains(&dir, ts_discr, "CURRENT", FIVE));
    assert!(contains(&dir, ts_discr, "CURRENT", SIX));

    remove(&mut dir, ts_discr, "CURRENT");
    remove(&mut dir, ts_discr, "00001");
    assert!(not_exists(&dir, ts_discr, "CURRENT"));
    write_loglines(&mut dir, true, naming, ts_discr, &[THREE, FOUR, FIVE, SIX]);
    assert!(contains(&dir, ts_discr, "00000", ONE));
    assert!(contains(&dir, ts_discr, "00000", TWO));
    assert!(contains(&dir, ts_discr, "00001", THREE));
    assert!(contains(&dir, ts_discr, "00001", FOUR));
    assert!(contains(&dir, ts_discr, "CURRENT", FIVE));
    assert!(contains(&dir, ts_discr, "CURRENT", SIX));

    write_loglines(&mut dir, true, naming, ts_discr, &[SEVEN, EIGHT, NINE]);
    assert!(contains(&dir, ts_discr, "00002", FIVE));
    assert!(contains(&dir, ts_discr, "00002", SIX));
    assert!(contains(&dir, ts_discr, "00003", SEVEN));
    assert!(contains(&dir, ts_discr, "00003", EIGHT));
    assert!(contains(&dir, ts_discr, "CURRENT", NINE));
}

fn builder_with(discr: &str, write_mode: WriteMode) -> FileLogWriterBuilder {
    FileLogWriter::builder(file_spec(discr))
        .rotate(
            Criterion::Size(28),
            Naming::Numbers,
            Cleanup::KeepLogFiles(20),
        )
        .write_mode(write_mode)
}

#[test]
fn test_reset() {
    let write_mode = WriteMode::AsyncWith {
        bufsize: 6,
        pool_capa: 7,
        message_capa: 8,
        flush_interval: 0,
    };
    let mut dir = Directory::new();
    let mut flw = builder_with("test_reset-1", write_mode)
        .append()
        .try_build()
        .unwrap();

    let now = ts(1);
    flw.plain_write(&mut dir, &now, b"ERROR [server] test_reset-1\n")
        .unwrap();
    assert!(contains(&dir, "test_reset-1", "CURRENT", "test_reset-1"));

    flw.reset(builder_with("test_reset-2", write_mode)).unwrap();
    flw.plain_write(&mut dir, &now, b"ERROR [server] test_reset-2\n")
        .unwrap();
    assert!(contains(&dir, "test_reset-2", "CURRENT", "test_reset-2"));

    let denied = flw.reset(builder_with("test_reset-3", WriteMode::Direct));
    assert!(denied.is_err());
    assert_eq!(denied.unwrap_err(), FlexiLoggerError::Reset);
}

#[test]
fn timestamps_no_append_rotation() {
    // each new sink rotates the left-over active file to a timestamped name
    let mut dir = Directory::new();
    let discr = "false-timestamps";
    let naming = Naming::Timestamps(1);

    assert!(list_rotated_files(&dir, discr).is_empty());
    assert!(not_exists(&dir, discr, "CURRENT"));

    let mut w1 = get_file_log_writer(false, naming, discr);
    w1.plain_write(&mut dir, &ts(0), b"ERROR [server] ONE\n").unwrap();
    assert!(list_rotated_files(&dir, discr).is_empty());
    assert!(contains(&dir, discr, "CURRENT", ONE));

    let mut w2 = get_file_log_writer(false, naming, discr);
    w2.plain_write(&mut dir, &ts(2), b"ERROR [server] TWO\n").unwrap();
    assert_eq!(list_rotated_files(&dir, discr).len(), 1);
    assert!(contains(&dir, discr, "CURRENT", TWO));

    let mut w3 = get_file_log_writer(false, naming, discr);
    w3.plain_write(&mut dir, &ts(4), b"ERROR [server] THREE\n").unwrap();
    assert_eq!(list_rotated_files(&dir, discr).len(), 2);
    assert!(contains(&dir, discr, "CURRENT", THREE));
}

#[test]
fn timestamps_restart_tiebreak() {
    // two rotations within one second get distinct restart tie-breakers
    let mut dir = Directory::new();
    let discr = "tiebreak";
    let naming = Naming::Timestamps(1);

    let mut w1 = get_file_log_writer(false, naming, discr);
    w1.plain_write(&mut dir, &ts(7), b"ERROR [server] ONE\n").unwrap();

    let mut w2 = get_file_log_writer(false, naming, discr);
    w2.plain_write(&mut dir, &ts(7), b"ERROR [server] TWO\n").unwrap();

    let mut w3 = get_file_log_writer(false, naming, discr);
    w3.plain_write(&mut dir, &ts(7), b"ERROR [server] THREE\n").unwrap();

    let rotated = list_rotated_files(&dir, discr);
    assert_eq!(rotated.len(), 2);
    assert!(rotated.iter().any(|n| n.contains("_r2021-03-14T15:09:07+01.log")));
    assert!(rotated.iter().any(|n| n.contains(".restart-0000")));
}

#[test]
fn retention_counts_settle() {
    // writes at a growing clock; retention keeps two plain and five
    // compressed rotated files
    let mut dir = Directory::new();
    let discr = "retention";
    let mut flw = FileLogWriter::builder(file_spec(discr))
        .rotate(
            Criterion::Size(600),
            Naming::Timestamps(1),
            Cleanup::KeepLogAndCompressedFiles(2, 5),
        )
        .cleanup_in_background_thread(false)
        .try_build()
        .unwrap();
    let payload = "x".repeat(200);
    for i in 0..200u32 {
        let minute = ((i / 60) % 60) as u8;
        let second = (i % 60) as u8;
        let now = Timestamp::new(2021, 3, 14, 15, minute, second, 1);
        let line = format!("ERROR [server] {} {}\n", i, payload);
        flw.plain_write(&mut dir, &now, line.as_bytes()).unwrap();
    }
    flw.shutdown();
    let prefix = format!("{}/logger_{}_r2", DIRECTORY, discr);
    let logs = dir
        .file_names()
        .into_iter()
        .filter(|n| n.starts_with(&prefix) && n.ends_with(".log"))
        .count();
    let gzs = dir
        .file_names()
        .into_iter()
        .filter(|n| n.starts_with(&prefix) && n.ends_with(".gz"))
        .count();
    assert_eq!(logs, 2);
    assert_eq!(gzs, 5);
}

#[test]
fn compressed_files_decode_to_original() {
    // what retention compresses, flate2 decodes back to the original bytes
    let mut dir = Directory::new();
    let spec = file_spec("unzip");
    let old_name = spec.as_pathbuf(Some("_r00000"));
    let old_content = b"ERROR [server] vintage line\n".to_vec();
    dir.create_or_truncate(&old_name);
    dir.append_file(&old_name, &old_content);

    // a sink with compression-only retention compresses it at start-up
    let mut flw = FileLogWriter::builder(file_spec("unzip"))
        .rotate(
            Criterion::Size(10_000),
            Naming::Numbers,
            Cleanup::KeepLogAndCompressedFiles(0, 5),
        )
        .append()
        .cleanup_in_background_thread(false)
        .try_build()
        .unwrap();
    flw.plain_write(&mut dir, &ts(0), b"ERROR [server] fresh\n").unwrap();

    let gz_name = format!("{}.log.gz", old_name.trim_end_matches(".log"));
    let packed = dir.read(&gz_name).expect("compressed form missing").clone();
    assert_ne!(packed, old_content);
    let mut decoder = flate2::read::GzDecoder::new(packed.as_slice());
    let mut unpacked = Vec::new();
    decoder.read_to_end(&mut unpacked).unwrap();
    assert_eq!(unpacked, old_content);

    // and the library's own encoder round-trips the same way
    let direct = gzip_fast(b"some payload");
    let mut decoder2 = flate2::read::GzDecoder::new(direct.as_slice());
    let mut unpacked2 = Vec::new();
    decoder2.read_to_end(&mut unpacked2).unwrap();
    assert_eq!(unpacked2, b"some payload");
}

#[test]
fn listing_orders_siblings_newest_first() {
    // uncompressed siblings come first, then the compressed forms, each
    // group newest first
    let mut dir = Directory::new();
    let spec = file_spec("listing");
    for infix in ["_r00001", "_r00003", "_r00000"] {
        let name = spec.as_pathbuf(Some(infix));
        dir.create_or_truncate(&name);
        dir.append_file(&name, b"x");
    }
    for infix in ["_r00002", "_r00004"] {
        let name = format!(
            "{}.gz",
            spec.as_pathbuf(Some(infix)).trim_end_matches(".log")
        );
        dir.create_or_truncate(&name);
        dir.append_file(&name, b"x");
    }
    let listed = list_of_log_and_compressed_files(&dir, &spec);
    let expected: Vec<String> = vec![
        spec.as_pathbuf(Some("_r00003")),
        spec.as_pathbuf(Some("_r00001")),
        spec.as_pathbuf(Some("_r00000")),
        format!("{}.gz", spec.as_pathbuf(Some("_r00004")).trim_end_matches(".log")),
        format!("{}.gz", spec.as_pathbuf(Some("_r00002")).trim_end_matches(".log")),
    ];
    assert_eq!(listed, expected);
}

#[test]
fn shutdown_twice_is_harmless() {
    let mut dir = Directory::new();
    let mut flw = get_file_log_writer(false, Naming::Numbers, "shutdown");
    flw.plain_write(&mut dir, &ts(0), b"ERROR [server] ONE\n").unwrap();
    flw.shutdown();
    flw.shutdown();
    assert!(contains(&dir, "shutdown", "CURRENT", ONE));
    flw.plain_write(&mut dir, &ts(1), b"ERROR [server] TWO\n").unwrap();
    assert!(contains(&dir, "shutdown", "CURRENT", TWO));
}

#[test]
fn initialize_twice_keeps_state() {
    let mut dir = Directory::new();
    let mut flw = get_file_log_writer(false, Naming::Numbers, "init-twice");
    let now = ts(0);
    flw.state.initialize(&mut dir, &now).unwrap();
    let first_count = dir.count_files();
    let name_after_first = flw.current_filename();
    flw.state.initialize(&mut dir, &now).unwrap();
    assert_eq!(dir.count_files(), first_count);
    assert_eq!(flw.current_filename(), name_after_first);
}

#[test]
fn validate_logs_checks_lines_in_order() {
    let mut dir = Directory::new();
    let mut flw = get_file_log_writer(true, Naming::Numbers, "validate");
    let now = ts(0);
    flw.plain_write(&mut dir, &now, b"wizard [server] ONE\n").unwrap();
    flw.plain_write(&mut dir, &now, b"wizard [server] TWO\n").unwrap();

    let good = vec![
        ("wizard", "server", "ONE"),
        ("wizard", "server", "TWO"),
    ];
    assert!(flw.validate_logs(&mut dir, &now, &good));

    let wrong_order = vec![
        ("wizard", "server", "TWO"),
        ("wizard", "server", "ONE"),
    ];
    assert!(!flw.validate_logs(&mut dir, &now, &wrong_order));

    let too_few = vec![("wizard", "server", "ONE")];
    assert!(!flw.validate_logs(&mut dir, &now, &too_few));

    let too_many = vec![
        ("wizard", "server", "ONE"),
        ("wizard", "server", "TWO"),
        ("wizard", "server", "TWO"),
    ];
    assert!(!flw.validate_logs(&mut dir, &now, &too_many));
}

#[test]
fn retention_keeps_the_newest() {
    // four numbered siblings; a keep-two policy removes exactly the two
    // oldest and never rewrites the survivors
    let mut dir = Directory::new();
    let spec = file_spec("newest");
    for idx in 0..4u32 {
        let name = spec.as_pathbuf(Some(&format!("_r0000{}", idx)));
        dir.create_or_truncate(&name);
        dir.append_file(&name, format!("line {}\n", idx).as_bytes());
    }
    let mut flw = FileLogWriter::builder(file_spec("newest"))
        .rotate(Criterion::Size(10_000), Naming::Numbers, Cleanup::KeepLogFiles(2))
        .append()
        .cleanup_in_background_thread(false)
        .try_build()
        .unwrap();
    flw.plain_write(&mut dir, &ts(0), b"ERROR [server] fresh\n").unwrap();

    assert!(not_exists(&dir, "newest", "00000"));
    assert!(not_exists(&dir, "newest", "00001"));
    assert_eq!(
        dir.read(&spec.as_pathbuf(Some("_r00002"))).unwrap().as_slice(),
        b"line 2\n"
    );
    assert_eq!(
        dir.read(&spec.as_pathbuf(Some("_r00003"))).unwrap().as_slice(),
        b"line 3\n"
    );
}

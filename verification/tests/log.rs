use rustigc::decode::fix::Fix;
use rustigc::decode::{Record, DAY_MS};
use rustigc::error::DecodeError;
use rustigc::log::{first_backstep, Log};
use rustigc::rawlog::RawLog;

const MINIMAL: &[u8] = b"AFLA1BX\n\
                         HFDTE150120\n\
                         HFPLTPILOT:Tripoux Robert\n\
                         HFGTYGLIDERTYPE:Piegon 12\n\
                         I023638FXA3940SIU\n\
                         B1101355206343N00006198WA005870055801005\n\
                         LXXX This is a comment\n\
                         B1101365206345N00006200WA005890056004208\n\
                         B1101375206347N00006202WA005910056200212\n\
                         GNOWAYINHELLTHISISVALID\n";

#[test]
fn log_test_parse_minimal_igc_file() {
    let log = Log::new(MINIMAL).unwrap();

    assert_eq!(log.recorder.manufacturer, "FLA");
    assert_eq!(log.header("DTE").unwrap().text, "150120");
    assert_eq!(log.track.len(), 3);
    assert_eq!(log.track[0].timestamp, 39_695_000);
}

#[test]
fn log_from_recordless_rawlog() {
    let raw = RawLog { records: Vec::new() };

    assert_eq!(Log::try_from(raw).unwrap_err(), DecodeError::Empty);
}

#[test]
fn rawlog_test_parse_minimal_igc_file() {
    let raw = RawLog::new(MINIMAL).unwrap();
    assert_eq!(raw.records.len(), 10);
}

#[test]
fn datetime_without_dte() {
    let log = Log::new(b"AFLA1BX\nB1101354449144N00643725EA0058700558\n").unwrap();
    assert_eq!(log.datetime(), None);
}

#[test]
fn datetime_reads_dte() {
    let log = Log::new(b"AFLA1BX\nHFDTE150724\nB1101354449144N00643725EA0058700558\n").unwrap();
    assert_eq!(log.datetime().unwrap(), "2024-07-15T00:00:00.000Z");
}

#[test]
fn empty_input_reads_no_record() {
    assert_eq!(Log::new(b"").unwrap_err(), DecodeError::Parse { offset: 0 });
    assert_eq!(RawLog::new(b"").unwrap_err(), DecodeError::Parse { offset: 0 });
}

#[test]
fn mostly_garbage_is_refused() {
    let content = b"AFLA1BX\nxx\nyy\nzz\nww\n";
    assert_eq!(Log::new(content).unwrap_err(), DecodeError::TooManyBadRecords);
    // Three bad lines out of five stay under the limit.
    let content = b"AFLA1BX\nHFDTE150120\nxx\nyy\nzz\n";
    assert!(Log::new(content).is_ok());
}

#[test]
fn missing_recorder_is_synthesized() {
    let log = Log::new(b"HFDTE150120\n").unwrap();
    assert_eq!(log.recorder.manufacturer, "BAD");
    assert_eq!(log.recorder.uid, "123456789ABC");
}

#[test]
fn track_drops_invalid_and_backward_fixes() {
    let content = b"AFLA1BX\n\
                    B1101355206343N00006198WA0058700558\n\
                    B1101345206343N00006198WA0058700558\n\
                    B1101365206343N00006198WV0058700558\n\
                    B1101375206343N00006198WA0058700558\n";
    let log = Log::new(content).unwrap();
    let ts: Vec<u32> = log.track.iter().map(|f| f.timestamp).collect();
    assert_eq!(ts, vec![39_695_000, 39_697_000]);
}

#[test]
fn last_header_wins() {
    let log = Log::new(b"AFLA1BX\nHFPLTPILOT:One\nHFPLTPILOT:Two\n").unwrap();
    assert_eq!(log.header("PLT").unwrap().text, "Two");
    assert_eq!(log.headers.len(), 1);
    assert!(log.header("GTY").is_none());
}

#[test]
fn midnight_is_carried_over() {
    let content = b"AFLA1BX\n\
                    B2359595206343N00006198WA0058700558\n\
                    B0000015206343N00006198WA0058700558\n";
    let log = Log::new(content).unwrap();
    assert_eq!(log.track[0].timestamp, 86_399_000);
    assert_eq!(log.track[1].timestamp, DAY_MS + 1_000);
}

#[test]
fn written_back_reads_the_same() {
    let raw = RawLog::new(MINIMAL).unwrap();
    let out = raw.to_igc();
    // Long header names are not kept: the value is.
    let expected = String::from_utf8(MINIMAL.to_vec())
        .unwrap()
        .replace("PILOT:", "")
        .replace("GLIDERTYPE:", "");
    assert_eq!(out.as_slice(), expected.as_bytes());
    let again = RawLog::new(&out).unwrap();
    assert_eq!(again.records.len(), raw.records.len());
    assert_eq!(again.to_igc(), out);
}

#[test]
fn log_rewritten_as_records() {
    let log = Log::new(MINIMAL).unwrap();
    let fixes = log.track.len();
    let raw: RawLog = RawLog::from(log);
    // Recorder, three headers, three fixes, the closing mark.
    assert_eq!(raw.records.len(), 1 + 3 + fixes + 1);
    match &raw.records[0] {
        Record::A(r) => assert_eq!(r.manufacturer, "XRS"),
        _ => panic!("recorder first"),
    }
    match raw.records.last().unwrap() {
        Record::G(g) => assert_eq!(g.text, b"RUSTIGCLOGISNOTVALID"),
        _ => panic!("mark last"),
    }
    match &raw.records[4] {
        Record::B(b) => {
            assert!(b.valid);
            assert!(b.ext.is_empty());
            assert_eq!(
                b.fix,
                Fix { timestamp: 39_695_000, lat: 3_126_343, lon: -6_198, baro_alt: 587, gnss_alt: 558 }
            );
        }
        _ => panic!("fixes after the headers"),
    }
}

#[test]
fn rewritten_log_decodes_back() {
    let log = Log::new(MINIMAL).unwrap();
    let again = Log::try_from(RawLog::from(log.clone())).unwrap();
    assert_eq!(again.recorder.manufacturer, "XRS");
    assert_eq!(again.recorder.uid, log.recorder.uid);
    assert_eq!(again.headers, log.headers);
    assert_eq!(again.track, log.track);
    assert_eq!(again.task, log.task);
}

#[test]
fn raw_log_as_a_person_reads_it() {
    let raw = RawLog::new(b"AFLA1BX\nLXXX note\n").unwrap();
    assert_eq!(raw.to_human(), "Recorder FLA - 1BX - none\nComment XXX note\n");
}

#[test]
fn raw_log_writes_invalid_utf8_replaced() {
    let raw = RawLog::new(b"AFLA1BX\nLbad \xff byte\n").unwrap();
    assert_eq!(raw.to_igc(), "AFLA1BX\nLbad \u{fffd} byte\n".as_bytes().to_vec());
}

fn at_ms(timestamp: u32) -> Fix {
    Fix { timestamp, lat: 0, lon: 0, baro_alt: 0, gnss_alt: 0 }
}

#[test]
fn first_backstep_finds_the_first_fix_not_moving_forward() {
    assert_eq!(first_backstep(&[]), None);
    assert_eq!(first_backstep(&[at_ms(5)]), None);
    assert_eq!(first_backstep(&[at_ms(1), at_ms(2), at_ms(3)]), None);
    assert_eq!(first_backstep(&[at_ms(1), at_ms(2), at_ms(2), at_ms(1)]), Some(1));
    assert_eq!(first_backstep(&[at_ms(3), at_ms(1)]), Some(0));
}

#[test]
fn file_past_midnight_writes_back_byte_for_byte() {
    let file: &[u8] = b"AFLA1BX\n\
                        HFDTE150120\n\
                        B2359595206343N00006198WA0058700558\n\
                        B0000015206343N00006198WA0058700558\n\
                        LXXX note\n";
    let raw = RawLog::new(file).unwrap();
    assert_eq!(raw.to_igc(), file.to_vec());
}

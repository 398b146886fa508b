use rustigc::decode::event::{text_event, timed_event};
use rustigc::decode::extension::extensions;
use rustigc::decode::fields::{latitude, longitude, time};
use rustigc::decode::fix::b_record;
use rustigc::decode::header::{h_record, HeaderOrigin};
use rustigc::decode::recorder::a_record;
use rustigc::decode::task::{c_record, turnpoint};
use rustigc::decode::{parse_record, Record};

fn deg(v: i32) -> f64 {
    v as f64 / 60000.0
}

// ============= B-records =============

#[test]
fn fix_test_parse_valid_b_record() {
    let line = b"B1101355206300N00006180WA0058700558\n";
    let (rec, end) = b_record(line, 0).unwrap();
    assert_eq!(end, line.len());
    assert_eq!(rec.fix.timestamp, 39_695_000);
    assert_eq!(deg(rec.fix.lat), 52.105);
    assert_eq!(deg(rec.fix.lon), -0.103);
    assert_eq!(rec.fix.baro_alt, 587);
    assert_eq!(rec.fix.gnss_alt, 558);
    assert!(rec.valid);
}

#[test]
fn fix_test_parse_invalid_fix() {
    let line = b"B1200005012345N12034567WV0100001000\n";
    let (rec, end) = b_record(line, 0).unwrap();
    assert_eq!(end, line.len());
    assert!(!rec.valid);
}

#[test]
fn fix_test_parse_invalid_line_too_short() {
    assert!(b_record(b"B110135\n", 0).is_none());
}

#[test]
fn fix_test_parse_southern_eastern_negative_alt() {
    let line = b"B1200003000000S12000000EA-0100-0200\n";
    let (rec, end) = b_record(line, 0).unwrap();
    assert_eq!(end, line.len());
    assert_eq!(rec.fix.timestamp, 43_200_000);
    assert_eq!(deg(rec.fix.lat), -30.0);
    assert_eq!(deg(rec.fix.lon), 120.0);
    assert_eq!(rec.fix.baro_alt, -100);
    assert_eq!(rec.fix.gnss_alt, -200);
    assert!(rec.valid);
}

#[test]
fn fix_test_parse_with_extensions() {
    let line = b"B1200005012345N00012345WA00500005001234567890\n";
    let (rec, end) = b_record(line, 0).unwrap();
    assert_eq!(end, line.len());
    assert_eq!(rec.ext, b"1234567890");
    assert_eq!(rec.fix.timestamp, 43_200_000);
}

#[test]
fn fix_test_identity() {
    let line = b"B1200003000000N12000000EA0050000500\n";
    let (rec, _) = b_record(line, 0).unwrap();
    let mut out = Vec::new();
    rec.to_igc(&mut out);
    out.push(b'\n');
    assert_eq!(out.as_slice(), &line[1..]);
}

#[test]
fn test_parse_many_cr() {
    let line = b"B1639004549904N00256219EA0245602531 \r\r\n";
    let (rec, end) = b_record(line, 0).unwrap();
    assert_eq!(end, line.len());
    assert!(rec.valid);
}

// ============= I/J-records =============

#[test]
fn extension_test_parse_single_i_extension() {
    let line = b"I013638FXA\n";
    let (ext, end) = extensions(line, 0, b'I', 35).unwrap();
    assert_eq!(end, line.len());
    assert_eq!(ext.vext.len(), 1);
    assert_eq!(ext.vext[0].tlc, b"FXA");
    assert_eq!(ext.vext[0].start, 0);
    assert_eq!(ext.vext[0].finish, 3);
}

#[test]
fn extension_test_parse_multiple_i_extensions() {
    let line = b"I033638FXA3940SIU4143ENL\n";
    let (ext, _) = extensions(line, 0, b'I', 35).unwrap();
    assert_eq!(ext.vext.len(), 3);
    assert_eq!(ext.vext[0].tlc, b"FXA");
    assert_eq!(ext.vext[1].tlc, b"SIU");
    assert_eq!(ext.vext[2].tlc, b"ENL");
}

#[test]
fn extension_test_parse_j_extension() {
    let line = b"J010811HDT\n";
    let (ext, end) = extensions(line, 0, b'J', 7).unwrap();
    assert_eq!(end, line.len());
    assert_eq!(ext.vext.len(), 1);
    assert_eq!(ext.vext[0].tlc, b"HDT");
    assert_eq!(ext.vext[0].start, 0);
    assert_eq!(ext.vext[0].finish, 4);
}

#[test]
fn extension_test_i_identity() {
    let line = b"I033638FXA3940SIU4143ENL\n";
    let (ext, _) = extensions(line, 0, b'I', 35).unwrap();
    let mut out = Vec::new();
    ext.to_igc(&mut out);
    out.push(b'\n');
    assert_eq!(out.as_slice(), &line[1..]);
}

#[test]
fn extension_test_j_identity() {
    let line = b"J010811HDT\n";
    let (ext, _) = extensions(line, 0, b'J', 7).unwrap();
    let mut out = Vec::new();
    ext.to_igc(&mut out);
    out.push(b'\n');
    assert_eq!(out.as_slice(), &line[1..]);
}

#[test]
fn test_i_zero() {
    let (ext, end) = extensions(b"I00\n", 0, b'I', 35).unwrap();
    assert_eq!(end, 4);
    assert!(ext.vext.is_empty());
}

#[test]
fn extension_test_parse_invalid_count_mismatch() {
    assert!(extensions(b"I023638FXA\n", 0, b'I', 35).is_none());
}

#[test]
fn test_j_start_below_offset() {
    assert!(extensions(b"J010102HDT\n", 0, b'J', 7).is_none());
}

#[test]
fn test_i_finish_before_start() {
    assert!(extensions(b"I013836FXA\n", 0, b'I', 35).is_none());
}

// ============= H-records =============

#[test]
fn header_test_parse_valid_h_record() {
    let line = b"HFDTE150120\n";
    let (inner, end) = h_record(line, 0).unwrap();
    assert_eq!(end, line.len());
    assert_eq!(inner.key, "DTE");
    assert_eq!(inner.value.text, "150120");
    assert_eq!(inner.value.origin, HeaderOrigin::FlightRecorder);
}

#[test]
fn header_test_parse_valid_longh_record() {
    let line = b"HFPLTPILOTINCHARGE:Tripoux Robert\n";
    let (inner, _) = h_record(line, 0).unwrap();
    assert_eq!(inner.key, "PLT");
    assert_eq!(inner.value.text, "Tripoux Robert");
    assert_eq!(inner.value.origin, HeaderOrigin::FlightRecorder);
}

#[test]
fn header_test_parse_invalid_origin() {
    let (inner, _) = h_record(b"HXDTE150120\n", 0).unwrap();
    assert_eq!(inner.value.origin, HeaderOrigin::Unknown);
}

#[test]
fn header_test_parse_invalid_key_non_alphanum() {
    assert!(h_record(b"HFD  150120\n", 0).is_none());
}

#[test]
fn header_test_identity() {
    let line = b"HFDTE150120\n";
    let (inner, _) = h_record(line, 0).unwrap();
    let mut out = Vec::new();
    inner.to_igc(&mut out);
    out.push(b'\n');
    assert_eq!(out.as_slice(), &line[1..]);
}

// ============= A-records =============

#[test]
fn recorder_test_recorder_minimal() {
    let (rec, _) = a_record(b"AFLA1BX\n", 0).unwrap();
    assert_eq!(rec.manufacturer, "FLA");
    assert_eq!(rec.uid, "1BX");
}

#[test]
fn recorder_test_recorder_longer_uid() {
    let (rec, _) = a_record(b"AGCS0123456789ABCD\n", 0).unwrap();
    assert_eq!(rec.manufacturer, "GCS");
    assert_eq!(rec.uid, "0123456789ABCD");
}

#[test]
fn recorder_test_recorder_invalid_manufacturer() {
    assert!(a_record(b"AF A1BX\n", 0).is_none());
}

#[test]
fn recorder_test_identity() {
    let line = b"AFLA1BX\n";
    let (rec, _) = a_record(line, 0).unwrap();
    let mut out = Vec::new();
    rec.to_igc(&mut out);
    out.push(b'\n');
    assert_eq!(out.as_slice(), &line[1..]);
}

#[test]
fn test_recorder_crazy_carriage() {
    let line = b"AXSLGiveMeMyCarriageBack\r\r\n";
    let (rec, end) = a_record(line, 0).unwrap();
    assert_eq!(end, line.len());
    assert_eq!(rec.manufacturer, "XSL");
}

// ============= C-records =============

#[test]
fn task_test_parse_task_real_example() {
    let input = b"C050822090459000000000502\n\
                  C0000000N00000000E\n\
                  C5130000N00130000WLasham Finish North\n\
                  C5204577N00307663WHay-on-wye\n\
                  C5258317N00003531WBoston\n\
                  C5130000N00130000WLasham Finish North\n\
                  C0000000N00000000E\n";

    let (task, end) = c_record(input, 0).unwrap();
    assert_eq!(end, input.len());
    let d = task.declaration.unwrap();
    assert_eq!(d.date, "050822090459");
    assert_eq!(d.flight, "000000");
    assert_eq!(d.text, "");
    assert_eq!(task.turnpoints.len(), 6);

    assert_eq!(task.turnpoints[0].text, "");
    assert_eq!(deg(task.turnpoints[0].lat), 0.0);
    assert_eq!(deg(task.turnpoints[0].lon), 0.0);

    assert_eq!(task.turnpoints[1].text, "Lasham Finish North");
    assert_eq!(deg(task.turnpoints[1].lat), 51.5);
    assert_eq!(deg(task.turnpoints[1].lon), -1.5);

    assert_eq!(task.turnpoints[4].text, "Lasham Finish North");
    assert_eq!(deg(task.turnpoints[4].lat), 51.5);
    assert_eq!(deg(task.turnpoints[4].lon), -1.5);
}

#[test]
fn task_test_parse_turnpoint() {
    let input = b"C5200000N00130000WTurnpoint Name\n";
    let (tp, end) = turnpoint(input, 0).unwrap();
    assert_eq!(end, input.len());
    assert_eq!(deg(tp.lat), 52.0);
    assert_eq!(deg(tp.lon), -1.5);
    assert_eq!(tp.text, "Turnpoint Name");
}

#[test]
fn task_test_parse_bad_turnpoint_invalid_lat() {
    assert!(turnpoint(b"C9506343N00006198WBad latitude\n", 0).is_none());
}

#[test]
fn task_test_parse_bad_header_too_short() {
    assert!(c_record(b"C05082209045900000\n", 0).is_none());
}

#[test]
fn task_test_parse_bad_header_no_turnpoints() {
    assert!(c_record(b"C050822090459000000000502Task without turnpoints\n", 0).is_none());
}

// ============= Events =============

#[test]
fn l_record_keeps_its_text() {
    let line = b"LXGD GpsDumpLinux version 0.27\n";
    let (event, end) = text_event(line, 0, b'L').unwrap();
    assert_eq!(end, line.len());
    assert_eq!(event.text, b"XGD GpsDumpLinux version 0.27");
    let mut out = Vec::new();
    event.to_igc(&mut out);
    out.push(b'\n');
    assert_eq!(out.as_slice(), &line[1..]);
}

#[test]
fn g_record_keeps_its_text() {
    let line = b"G351E2000FC0D9C1B\n";
    let (event, _) = text_event(line, 0, b'G').unwrap();
    assert_eq!(event.text, b"351E2000FC0D9C1B");
}

#[test]
fn timed_events_count_milliseconds() {
    let (e, _) = timed_event(b"E101409PEV\n", 0, b'E').unwrap();
    assert_eq!(e.timestamp, 36_849_000);
    assert_eq!(e.text, b"PEV");

    let (e, _) = timed_event(b"E114734BFION AH\n", 0, b'E').unwrap();
    assert_eq!(e.timestamp, 42_454_000);
    assert_eq!(e.text, b"BFION AH");

    let (f, _) = timed_event(b"F09093227163023070801103221\n", 0, b'F').unwrap();
    assert_eq!(f.timestamp, 32_972_000);
    assert_eq!(f.text, b"27163023070801103221");

    let (k, _) = timed_event(b"K09115208100062\n", 0, b'K').unwrap();
    assert_eq!(k.timestamp, 33_112_000);
    assert_eq!(k.text, b"08100062");
}

#[test]
fn timed_events_write_back() {
    for (line, letter) in [
        (&b"E101409PEV\n"[..], b'E'),
        (&b"F09093227163023070801103221\n"[..], b'F'),
        (&b"K09115208100062\n"[..], b'K'),
    ] {
        let (e, _) = timed_event(line, 0, letter).unwrap();
        let mut out = Vec::new();
        e.to_igc(&mut out);
        out.push(b'\n');
        assert_eq!(out.as_slice(), &line[1..]);
    }
}

#[test]
fn timed_events_refuse_impossible_times() {
    assert!(timed_event(b"E999999PEV\n", 0, b'E').is_none());
    assert!(timed_event(b"F256030DATA\n", 0, b'F').is_none());
    assert!(timed_event(b"K123490DATA\n", 0, b'K').is_none());
}

// ============= Fields =============

#[test]
fn time_reads_milliseconds() {
    assert_eq!(time(b"101409", 0), Some((36_849_000, 6)));
    assert_eq!(time(b"235959", 0), Some((86_399_000, 6)));
    assert_eq!(time(b"240000", 0), None);
    assert_eq!(time(b"126000", 0), None);
    assert_eq!(time(b"12005", 0), None);
}

#[test]
fn coordinates_read_thousandths_of_minutes() {
    assert_eq!(latitude(b"5206343N", 0), Some((3_126_343, 8)));
    assert_eq!(latitude(b"5206343S", 0), Some((-3_126_343, 8)));
    assert_eq!(latitude(b"9006343N", 0), None);
    assert_eq!(latitude(b"5260343N", 0), None);
    assert_eq!(latitude(b"5206343X", 0), None);
    assert_eq!(longitude(b"00006198W", 0), Some((-6_198, 9)));
    assert_eq!(longitude(b"17959999E", 0), Some((10_799_999, 9)));
    assert_eq!(longitude(b"18000000E", 0), None);
}

// ============= Any record =============

#[test]
fn records_are_told_apart_by_letter() {
    let input = b"AFLA1BX\nHFDTE150120\nLcomment\n???\n";
    let (a, p) = parse_record(input, 0).unwrap();
    assert!(matches!(a, Record::A(_)));
    let (h, p) = parse_record(input, p).unwrap();
    assert!(matches!(h, Record::H(_)));
    let (l, p) = parse_record(input, p).unwrap();
    assert!(matches!(l, Record::L(_)));
    let (bad, p) = parse_record(input, p).unwrap();
    assert!(matches!(bad, Record::Bad(b"???\n")));
    assert_eq!(p, input.len());
    assert!(parse_record(input, p).is_none());
}

// ============= As a person reads them =============

fn human(line: &[u8]) -> String {
    parse_record(line, 0).unwrap().0.to_human()
}

#[test]
fn human_fix_with_extension() {
    assert_eq!(
        human(b"B1101355206343N00006198WA005870055801005\n"),
        "Fix OK - 39695000: [52.1057,-0.1033] - 587 - 558 - 01005"
    );
}

#[test]
fn human_fix_without_extension() {
    assert_eq!(
        human(b"B1101355206300N00006180WV0058700558\n"),
        "Fix KO - 39695000: [52.1050,-0.1030] - 587 - 558 - "
    );
}

#[test]
fn human_recorder_header_and_comment() {
    assert_eq!(human(b"AFLA1BX\n"), "Recorder FLA - 1BX - none");
    assert_eq!(human(b"HFPLTPILOT:Tripoux Robert\n"), "Header Flight Recorder PLT: Tripoux Robert");
    assert_eq!(human(b"LXXX This is a comment\n"), "Comment XXX This is a comment");
    assert_eq!(human(b"E110135PEV\n"), "Event 39695000: PEV");
}

#[test]
fn human_extensions() {
    assert_eq!(human(b"I023638FXA3940SIU\n"), "Fix Extensions FXA: 0->3, SIU: 3->5");
}

#[test]
fn human_task() {
    let c = b"C150701213841160701000002Task\nC5111359N00101898WTakeoff\nC5110178N00102644WLanding\n";
    assert_eq!(
        human(c),
        "Task 2 TP - 150701213841 - 160701 - Task\n TP - [51.1893,-1.0316]: Takeoff\n TP - [51.1696,-1.0441]: Landing"
    );
}

#[test]
fn human_bad_line() {
    assert_eq!(human(b"ZZZ\n"), "Invalid Record: ZZZ\n");
    assert_eq!(human(b"Z\xff\n"), "Invalid Record: Non ASCII");
}

#[test]
fn human_fix_alone() {
    let (rec, _) = b_record(b"B1101355206343S00006198EA-001200558\n", 0).unwrap();
    assert_eq!(rec.fix.to_human(), "39695000: [-52.1057,0.1033] - -12 - 558");
}

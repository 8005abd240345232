use std::collections::VecDeque;
use tufty_sysmon::slot::Latest;
use tufty_sysmon::columns::get_cpu_and_gpu_temp_pos_by_colname;
use tufty_sysmon::discover::newest_log;
use tufty_sysmon::error::TelemetryError;
use tufty_sysmon::measurement::{read_temperature, temperature_field, Measurement};
use tufty_sysmon::names::{cpu_display_name, finish_cpu_name, gpu_display_name, machine_names};
use tufty_sysmon::series::{RollingSeries, TEMPS_LENGTH_CAP};
use tufty_sysmon::snapshot::{format_clock, HwStats, SysInfo};
use tufty_sysmon::supervisor::{after_publish, PollAction, PublishOutcome, Watchdog, STALL_TICKS};
use tufty_sysmon::tailer::{strip_line_end, HwTemps, LogTail, TailCursor};
use tufty_sysmon::transport::{frame, Link, LinkAction, RECONNECT_BACKOFF_MS};

fn deque(v: &[i16]) -> VecDeque<i16> {
    v.iter().copied().collect()
}

#[test]
fn columns_from_plain_header() {
    assert_eq!(get_cpu_and_gpu_temp_pos_by_colname("Sensor,CPU Package,Aux,GPU Package"), (1, 3));
}

#[test]
fn columns_from_quoted_header() {
    let h = "\"Time\",\"GPU Package\",\"Fan\",\"CPU Package\"";
    assert_eq!(get_cpu_and_gpu_temp_pos_by_colname(h), (3, 1));
}

#[test]
fn columns_last_match_wins() {
    let h = "CPU Package,x,CPU Package,GPU Package,GPU Package";
    assert_eq!(get_cpu_and_gpu_temp_pos_by_colname(h), (2, 4));
}

#[test]
fn columns_absent_default_to_zero() {
    assert_eq!(get_cpu_and_gpu_temp_pos_by_colname("Time,CPU,GPU Core,Package"), (0, 0));
    assert_eq!(get_cpu_and_gpu_temp_pos_by_colname(""), (0, 0));
}

#[test]
fn parse_temperature_field() {
    assert_eq!(Measurement::parse_field("42.3°C"), Ok(Measurement::Temperature(423)));
    assert_eq!(Measurement::parse_field(" 55.0°C\n"), Ok(Measurement::Temperature(550)));
    assert_eq!(Measurement::parse_field("-3.25°C"), Ok(Measurement::Temperature(-33)));
    assert_eq!(Measurement::parse_field("42.34°C"), Ok(Measurement::Temperature(423)));
    assert_eq!(Measurement::parse_field("61°C"), Ok(Measurement::Temperature(610)));
}

#[test]
fn parse_rpm_field() {
    assert_eq!(Measurement::parse_field("1234RPM"), Ok(Measurement::Rpm(1234)));
    assert_eq!(Measurement::parse_field("70000RPM"), Err(TelemetryError::MalformedField));
}

#[test]
fn parse_percentage_field() {
    assert_eq!(Measurement::parse_field("87%"), Ok(Measurement::Percentage(8700)));
    assert_eq!(Measurement::parse_field("12.5%"), Ok(Measurement::Percentage(1250)));
}

#[test]
fn parse_other_field() {
    assert_eq!(
        Measurement::parse_field("  12:00:01 "),
        Ok(Measurement::Other("12:00:01".to_string()))
    );
}

#[test]
fn parse_malformed_number() {
    assert_eq!(Measurement::parse_field("abc°C"), Err(TelemetryError::MalformedField));
    assert_eq!(Measurement::parse_field("°C"), Err(TelemetryError::MalformedField));
    assert_eq!(Measurement::parse_field("1.2.3%"), Err(TelemetryError::MalformedField));
}

#[test]
fn parse_via_from_str() {
    let m: Measurement = "42.3°C".parse().unwrap();
    assert_eq!(m, Measurement::Temperature(423));
}

#[test]
fn temperature_of_other_kinds_mismatch() {
    assert_eq!(Measurement::Rpm(5).as_i16(), Err(TelemetryError::TypeMismatch));
    assert_eq!(Measurement::Temperature(423).as_i16(), Ok(423));
    assert_eq!(read_temperature("87%"), Err(TelemetryError::TypeMismatch));
    assert_eq!(read_temperature("42.3°C"), Ok(423));
}

#[test]
fn series_evicts_oldest_at_capacity() {
    let mut s = RollingSeries::new();
    for i in 0..TEMPS_LENGTH_CAP as i16 {
        s.push(i);
    }
    assert_eq!(s.len(), 60);
    s.push(100);
    assert_eq!(s.len(), 60);
    let d = s.to_deque();
    assert_eq!(d[0], 1);
    assert_eq!(d[58], 59);
    assert_eq!(d[59], 100);
}

#[test]
fn series_never_exceeds_capacity() {
    let mut s = RollingSeries::new();
    for i in 0..500 {
        s.push(i);
        assert!(s.len() <= 60);
    }
    let d = s.to_deque();
    assert_eq!(d, (440..500).collect::<VecDeque<i16>>());
}

#[test]
fn cursor_counts_backlog() {
    let mut c = TailCursor::start(100, 30);
    assert_eq!(c, TailCursor { remaining: 70, live: false });
    c.advance(70);
    assert_eq!(c, TailCursor { remaining: 0, live: false });
    c.advance(1);
    assert_eq!(c, TailCursor { remaining: 0, live: true });
}

#[test]
fn backlog_rows_are_not_published() {
    let header = "Sensor,CPU Package,Aux,GPU Package,Fan\n";
    let row = "t,42.3°C,x,55.0°C,900RPM\n";
    let hb = header.len() as u64;
    let rb = row.len() as u64;
    let mut tail = LogTail::prime(hb + 2 * rb, header, hb);
    assert!(tail.accept_line(row, rb).unwrap().is_none());
    assert!(tail.accept_line(row, rb).unwrap().is_none());
    let t = tail.accept_line("t,50.0°C,x,60.0°C,900RPM\n", rb).unwrap().unwrap();
    assert_eq!(t.cpu_temps, deque(&[423, 423, 500]));
    assert_eq!(t.gpu_temps, deque(&[550, 550, 600]));
}

#[test]
fn end_to_end_first_live_row() {
    let header = "Sensor,CPU Package,Aux,GPU Package";
    assert_eq!(get_cpu_and_gpu_temp_pos_by_colname(header), (1, 3));
    let mut tail = LogTail::prime(header.len() as u64, header, header.len() as u64);
    let row = "a,42.3°C,b,55.0°C,c\n";
    let t = tail.accept_line(row, row.len() as u64).unwrap().unwrap();
    assert_eq!(t.cpu_temps, deque(&[423]));
    assert_eq!(t.gpu_temps, deque(&[550]));
}

#[test]
fn end_of_file_read_changes_nothing() {
    let header = "CPU Package,GPU Package";
    let mut tail = LogTail::prime(0, header, header.len() as u64);
    assert!(tail.accept_line("", 0).unwrap().is_none());
    assert_eq!(tail.cpu.len(), 0);
}

#[test]
fn malformed_row_is_an_error() {
    let header = "CPU Package,GPU Package";
    let mut tail = LogTail::prime(0, header, 23);
    assert_eq!(tail.accept_line("4x.2°C,50.0°C\n", 15).err(), Some(TelemetryError::MalformedField));
    assert_eq!(tail.accept_line("40.0°C\n", 7).err(), Some(TelemetryError::MalformedField));
    assert_eq!(tail.accept_line("40.0°C,12%\n", 11).err(), Some(TelemetryError::TypeMismatch));
    assert_eq!(tail.cpu.len(), 0);
}

#[test]
fn slot_coalesces_to_latest() {
    let mut slot = Latest::new(0u32);
    let mut o = slot.subscribe();
    assert!(!o.has_changed(&slot));
    for v in 1..=5u32 {
        slot.publish(v);
    }
    assert!(o.has_changed(&slot));
    assert_eq!(*o.observe(&slot), 5);
    assert!(!o.has_changed(&slot));
}

#[test]
fn reconnect_sends_current_snapshot() {
    let mut slot = Latest::new(1u32);
    let mut link = Link::new(&slot);
    assert_eq!(link.on_wake(&slot).0, LinkAction::Open);
    assert_eq!(link.on_open(true), LinkAction::WaitForChange);
    slot.publish(2);
    let (a, v) = link.on_wake(&slot);
    assert_eq!(a, LinkAction::Send);
    assert_eq!(v.copied(), Some(2));
    assert_eq!(link.on_written(false), LinkAction::Backoff(RECONNECT_BACKOFF_MS));
    slot.publish(3);
    slot.publish(4);
    assert_eq!(link.on_wake(&slot).0, LinkAction::Open);
    assert_eq!(link.on_open(false), LinkAction::Backoff(1000));
    assert_eq!(link.on_open(true), LinkAction::WaitForChange);
    let (a, v) = link.on_wake(&slot);
    assert_eq!(a, LinkAction::Send);
    assert_eq!(v.copied(), Some(4));
    assert_eq!(link.on_wake(&slot).0, LinkAction::WaitForChange);
}

#[test]
fn frame_appends_line_feed() {
    assert_eq!(frame(b"{}".to_vec()), b"{}\n".to_vec());
}

#[test]
fn watchdog_restarts_after_stall() {
    let mut w = Watchdog::new();
    for _ in 0..STALL_TICKS - 1 {
        assert_eq!(w.on_poll(false), PollAction::Wait);
    }
    assert_eq!(w.on_poll(false), PollAction::Restart);
    assert_eq!(w.ticks_left, 100);
    w.on_poll(false);
    assert_eq!(w.on_poll(true), PollAction::Publish);
    assert_eq!(w.ticks_left, 100);
    assert_eq!(after_publish(true), PublishOutcome::Continue);
    assert_eq!(after_publish(false), PublishOutcome::Stop);
}

#[test]
fn newest_log_is_greatest_name() {
    let names = vec![
        "iCUE_2023-01-02.csv".to_string(),
        "iCUE_2023-11-30.csv".to_string(),
        "iCUE_2023-03-15.csv".to_string(),
    ];
    assert_eq!(newest_log(&names), Ok(1));
    assert_eq!(newest_log(&Vec::new()), Err(TelemetryError::NoLogFile));
}

#[test]
fn cpu_name_loses_core_count() {
    assert_eq!(cpu_display_name(" AMD Ryzen 9 5900X 12-Core Processor "), "AMD Ryzen 9 5900X");
    assert_eq!(cpu_display_name("Intel(R) Core(TM) i7"), "Intel(R) Core(TM) i7");
    assert_eq!(gpu_display_name("  NVIDIA GeForce RTX 3080 "), "NVIDIA GeForce RTX 3080");
    let info = machine_names(None, Some("GPU X "));
    assert_eq!(info.cpu_name, "CPU");
    assert_eq!(info.gpu_name, "GPU X");
}

#[test]
fn clock_is_zero_padded() {
    assert_eq!(format_clock(7, 5), "07:05");
    assert_eq!(format_clock(23, 59), "23:59");
}

#[test]
fn snapshot_carries_its_parts() {
    let info = SysInfo { cpu_name: "c".to_string(), gpu_name: "g".to_string() };
    let temps = HwTemps { cpu_temps: deque(&[1]), gpu_temps: deque(&[2]) };
    let s = HwStats::at(info, 9, 30, temps);
    assert_eq!(s.time, "09:30");
    assert_eq!(s.temps.cpu_temps, deque(&[1]));
    let info = SysInfo { cpu_name: "c".to_string(), gpu_name: "g".to_string() };
    let temps = HwTemps { cpu_temps: deque(&[]), gpu_temps: deque(&[]) };
    let n = HwStats::now(info, temps);
    assert_eq!(n.time.len(), 5);
    assert_eq!(&n.time[2..3], ":");
}

#[test]
fn temperature_field_round_trips() {
    assert_eq!(temperature_field(423), "42.3°C");
    assert_eq!(temperature_field(-33), "-3.3°C");
    assert_eq!(temperature_field(5), "0.5°C");
    for t in [-32768i16, -1, 0, 9, 10, 423, 550, 32767] {
        let f = temperature_field(t);
        assert_eq!(Measurement::parse_field(&f), Ok(Measurement::Temperature(t)));
        assert_eq!(read_temperature(&f), Ok(t));
    }
}

#[test]
fn header_as_read_keeps_last_column() {
    let header = "Sensor,CPU Package,Aux,GPU Package\n";
    let hb = header.len() as u64;
    let mut tail = LogTail::prime(hb, header, hb);
    assert_eq!((tail.cpu_col, tail.gpu_col), (1, 3));
    let row = "x,42.3°C,y,55.0°C,z\n";
    let t = tail.accept_line(row, row.len() as u64).unwrap().unwrap();
    assert_eq!(t.cpu_temps, deque(&[423]));
    assert_eq!(t.gpu_temps, deque(&[550]));
}

#[test]
fn header_with_crlf_keeps_last_column() {
    let header = "\"CPU Package\",\"GPU Package\"\r\n";
    let tail = LogTail::prime(0, header, header.len() as u64);
    assert_eq!((tail.cpu_col, tail.gpu_col), (0, 1));
}

#[test]
fn line_end_is_stripped() {
    assert_eq!(strip_line_end("a,b\r\n"), "a,b");
    assert_eq!(strip_line_end("a,b\n"), "a,b");
    assert_eq!(strip_line_end("a,b"), "a,b");
    assert_eq!(strip_line_end(""), "");
}

#[test]
fn finish_name_drops_flagged_tail() {
    assert_eq!(finish_cpu_name("Ryzen 7 12", &vec![false, false, false, false, false, false, true, false, true, true]), "Ryzen 7");
    assert_eq!(finish_cpu_name("ab", &vec![true, true]), "");
    assert_eq!(finish_cpu_name(" ab ", &vec![false, false, false, false]), "ab");
}

#[test]
fn parse_unknown_unit_and_bad_numbers() {
    let m: Measurement = " Sensor ".parse().unwrap();
    assert_eq!(m, Measurement::Other("Sensor".to_string()));
    assert_eq!("abcRPM".parse::<Measurement>(), Err(TelemetryError::MalformedField));
    assert_eq!("-5RPM".parse::<Measurement>(), Err(TelemetryError::MalformedField));
    assert_eq!("%".parse::<Measurement>(), Err(TelemetryError::MalformedField));
    assert_eq!("42.36°C".parse::<Measurement>(), Ok(Measurement::Temperature(424)));
    assert_eq!("-5.04°C".parse::<Measurement>(), Ok(Measurement::Temperature(-50)));
}

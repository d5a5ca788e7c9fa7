use fit_index::{
    extract_session_data, extract_timestamp_fast, get_files_in_range, is_activity_file_name,
    process_fit_directory, timestamp_in_file, ActivityIndex, FieldValue, FitField, FitRecord, Real,
    ScannedFile, TimestampProbe, FAST_PATH_BYTES,
};

fn scanned(path: &str, timestamp: Option<i64>) -> ScannedFile {
    let name = path.rsplit('/').next().unwrap_or(path);
    ScannedFile { path: path.to_string(), name: name.to_string(), timestamp }
}

fn sorted(mut v: Vec<(i64, String)>) -> Vec<(i64, String)> {
    v.sort();
    v
}

#[test]
fn activity_file_names() {
    assert!(is_activity_file_name("ride.fit"));
    assert!(is_activity_file_name("RIDE.FIT"));
    assert!(is_activity_file_name("run.Fit"));
    assert!(is_activity_file_name("a.b.fIT"));
    assert!(is_activity_file_name("..fit"));
    assert!(!is_activity_file_name(".fit"));
    assert!(!is_activity_file_name("fit"));
    assert!(!is_activity_file_name("ride.fits"));
    assert!(!is_activity_file_name("ride.fi"));
    assert!(!is_activity_file_name("ride.fit.bak"));
    assert!(!is_activity_file_name("ride."));
    assert!(!is_activity_file_name(""));
    assert!(!is_activity_file_name("ride.gpx"));
    assert!(!is_activity_file_name("ride.fït"));
}

#[test]
fn index_files_with_timestamps_only() {
    let files = vec![
        scanned("a.fit", Some(100)),
        scanned("b.fit", None),
        scanned("c.fit", Some(300)),
    ];
    let index = process_fit_directory(&files);
    assert_eq!(index.len(), 2);
    let all = sorted(get_files_in_range(&index, i64::MIN, i64::MAX));
    assert_eq!(all, vec![(100, "a.fit".to_string()), (300, "c.fit".to_string())]);
}

#[test]
fn later_file_wins_a_tie() {
    let files = vec![scanned("first.fit", Some(5)), scanned("second.fit", Some(5))];
    let index = process_fit_directory(&files);
    assert_eq!(index.len(), 1);
    assert_eq!(get_files_in_range(&index, 5, 5), vec![(5, "second.fit".to_string())]);
}

#[test]
fn range_bounds_are_inclusive() {
    let files: Vec<ScannedFile> = (0..10)
        .map(|i| scanned(&format!("f{}.fit", i), Some(i * 10)))
        .collect();
    let index = process_fit_directory(&files);
    let r = sorted(get_files_in_range(&index, 20, 50));
    let times: Vec<i64> = r.iter().map(|e| e.0).collect();
    assert_eq!(times, vec![20, 30, 40, 50]);
    assert_eq!(r[0].1, "f2.fit");
    assert!(get_files_in_range(&index, 21, 29).is_empty());
    assert!(get_files_in_range(&index, 50, 20).is_empty());
    assert!(get_files_in_range(&index, 1000, 2000).is_empty());
}

#[test]
fn empty_index() {
    let index = ActivityIndex::new();
    assert_eq!(index.len(), 0);
    assert!(get_files_in_range(&index, i64::MIN, i64::MAX).is_empty());
    assert_eq!(process_fit_directory(&Vec::new()).len(), 0);
}

#[test]
fn insert_replaces() {
    let mut index = ActivityIndex::new();
    index.insert(1, "x.fit".to_string());
    index.insert(2, "y.fit".to_string());
    index.insert(1, "z.fit".to_string());
    assert_eq!(index.len(), 2);
    assert_eq!(
        sorted(get_files_in_range(&index, 0, 3)),
        vec![(1, "z.fit".to_string()), (2, "y.fit".to_string())]
    );
}

#[test]
fn rescan_in_another_order_gives_the_same_index() {
    let a = vec![scanned("a.fit", Some(1)), scanned("b.fit", Some(2)), scanned("c.fit", None)];
    let b = vec![scanned("c.fit", None), scanned("b.fit", Some(2)), scanned("a.fit", Some(1))];
    let ia = sorted(get_files_in_range(&process_fit_directory(&a), i64::MIN, i64::MAX));
    let ib = sorted(get_files_in_range(&process_fit_directory(&b), i64::MIN, i64::MAX));
    assert_eq!(ia, ib);
}

// 2025-08-14T10:00:00Z.
const AUG_14_2025_10H: i64 = 1755165600;

/// The records that fitparser decodes the bytes to, in the library's form.
fn decode(bytes: &[u8]) -> Option<Vec<FitRecord>> {
    let msgs = fitparser::from_bytes(bytes).ok()?;
    Some(
        msgs.iter()
            .map(|m| FitRecord {
                is_session: m.kind() == fitparser::profile::MesgNum::Session,
                fields: m
                    .fields()
                    .iter()
                    .map(|f| FitField { name: f.name().to_string(), value: value_of(f.value()) })
                    .collect(),
            })
            .collect(),
    )
}

fn value_of(v: &fitparser::Value) -> FieldValue {
    match v {
        fitparser::Value::Float32(x) => FieldValue::Float32(x.to_bits()),
        fitparser::Value::Float64(x) => FieldValue::Float64(x.to_bits()),
        fitparser::Value::UInt16(n) => FieldValue::UInt16(*n),
        fitparser::Value::Timestamp(t) => FieldValue::Timestamp(t.timestamp()),
        _ => FieldValue::Other,
    }
}

/// The creation time by the two-tier rule: the leading bytes first, the
/// whole file only where those do not decode.
fn two_tier(bytes: &[u8]) -> Option<i64> {
    let prefix = &bytes[..bytes.len().min(FAST_PATH_BYTES)];
    match extract_timestamp_fast(&decode(prefix)) {
        TimestampProbe::Found(t) => Some(t),
        TimestampProbe::Absent => None,
        TimestampProbe::Undecodable => timestamp_in_file(&decode(bytes)),
    }
}

fn fit_crc(bytes: &[u8]) -> u16 {
    const TABLE: [u16; 16] = [
        0x0000, 0xCC01, 0xD801, 0x1400, 0xF001, 0x3C00, 0x2800, 0xE401, 0xA001, 0x6C00, 0x7800,
        0xB401, 0x5000, 0x9C01, 0x8801, 0x4400,
    ];
    let mut crc: u16 = 0;
    for &b in bytes {
        let tmp = TABLE[(crc & 0xF) as usize];
        crc = (crc >> 4) & 0x0FFF;
        crc = crc ^ tmp ^ TABLE[(b & 0xF) as usize];
        let tmp = TABLE[(crc & 0xF) as usize];
        crc = (crc >> 4) & 0x0FFF;
        crc = crc ^ tmp ^ TABLE[((b >> 4) & 0xF) as usize];
    }
    crc
}

/// One activity recorded at 2025-08-14T10:00:00Z: 5000 m, 300 calories.
fn recorded_activity() -> Vec<u8> {
    let mut messages = vec![0x40, 0, 0, 0, 0, 1, 4, 4, 0x86, 0x00];
    messages.extend_from_slice(&((AUG_14_2025_10H - 631065600) as u32).to_le_bytes());
    messages.extend_from_slice(&[0x41, 0, 0, 18, 0, 2, 9, 4, 0x86, 11, 2, 0x84, 0x01]);
    messages.extend_from_slice(&500000u32.to_le_bytes());
    messages.extend_from_slice(&300u16.to_le_bytes());
    let mut out = vec![14u8, 0x10, 0x54, 0x08];
    out.extend_from_slice(&(messages.len() as u32).to_le_bytes());
    out.extend_from_slice(b".FIT");
    out.extend_from_slice(&[0, 0]);
    out.extend_from_slice(&messages);
    let crc = fit_crc(&out);
    out.extend_from_slice(&crc.to_le_bytes());
    out
}

#[test]
fn one_recorded_activity_end_to_end() {
    let bytes = recorded_activity();
    let files = vec![scanned("rides/aug.fit", two_tier(&bytes))];
    let index = process_fit_directory(&files);
    assert_eq!(index.len(), 1);
    // 2025-08-01T00:00:00Z to 2025-08-31T00:00:00Z.
    let found = get_files_in_range(&index, 1754006400, 1756598400);
    assert_eq!(found, vec![(AUG_14_2025_10H, "rides/aug.fit".to_string())]);
    let stats = extract_session_data(&decode(&bytes)).unwrap();
    assert_eq!(stats.distance, Real::Double(5000.0f64.to_bits()));
    assert_eq!(stats.calories, 300);
}

#[test]
fn empty_and_foreign_files_stay_out_of_the_index() {
    let mut files = vec![scanned("empty.fit", two_tier(&[]))];
    for name in ["notes.txt", "ride.fit", "ride.fit.bak"] {
        files.push(scanned(name, two_tier(&recorded_activity())));
    }
    let index = process_fit_directory(&files);
    assert_eq!(index.len(), 1);
    assert_eq!(
        get_files_in_range(&index, i64::MIN, i64::MAX),
        vec![(AUG_14_2025_10H, "ride.fit".to_string())]
    );
}

#[test]
fn names_of_other_files_are_never_filed() {
    let files = vec![
        scanned("a/notes.txt", Some(1)),
        scanned("a/.fit", Some(2)),
        scanned("a/b.FIT", Some(3)),
        scanned("a/c.Fit", Some(4)),
    ];
    let index = process_fit_directory(&files);
    assert_eq!(
        sorted(get_files_in_range(&index, i64::MIN, i64::MAX)),
        vec![(3, "a/b.FIT".to_string()), (4, "a/c.Fit".to_string())]
    );
}

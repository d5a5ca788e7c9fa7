//! Decoded activity records, and what is read from them: the creation time of
//! a recording and the summary of its session.

use vstd::prelude::*;
use vstd::string::StringExecFns;

verus! {

/// How many leading bytes of a file the fast path decodes.
pub const FAST_PATH_BYTES: usize = 2048;

/// A field's value, in the kinds that are read here. Floating-point values
/// are kept as their IEEE 754 bit patterns.
#[derive(Clone, Copy, Debug, PartialEq, Eq, Structural)]
pub enum FieldValue {
    Float32(u32),
    Float64(u64),
    UInt16(u16),
    /// Seconds since the Unix epoch.
    Timestamp(i64),
    /// A value of any other kind.
    Other,
}

/// One named field of a record.
#[derive(Clone, Debug)]
pub struct FitField {
    pub name: String,
    pub value: FieldValue,
}

/// One decoded record: whether it is a session summary, and its fields in
/// the order in which they were decoded.
#[derive(Clone, Debug)]
pub struct FitRecord {
    pub is_session: bool,
    pub fields: Vec<FitField>,
}

/// What a field holds, as contracts see it.
pub struct FieldView {
    pub name: Seq<char>,
    pub value: FieldValue,
}

/// What a record holds, as contracts see it.
pub struct RecordView {
    pub is_session: bool,
    pub fields: Seq<FieldView>,
}

impl FitField {
    pub open spec fn view(&self) -> FieldView {
        FieldView { name: self.name@, value: self.value }
    }
}

impl FitRecord {
    pub open spec fn view(&self) -> RecordView {
        RecordView { is_session: self.is_session, fields: self.fields@.map_values(|f: FitField| f@) }
    }
}

pub open spec fn records_view(records: Seq<FitRecord>) -> Seq<RecordView> {
    records.map_values(|r: FitRecord| r@)
}

/// What came back from decoding a file's bytes: the records, or `None` where
/// they did not decode.
pub open spec fn decoded_view(decoded: Option<Vec<FitRecord>>) -> Option<Seq<RecordView>> {
    match decoded {
        Some(records) => Some(records_view(records@)),
        None => None,
    }
}

/// The value of the first field named `name`, if any.
pub open spec fn first_field_named(fields: Seq<FieldView>, name: Seq<char>) -> Option<FieldValue>
    decreases fields.len(),
{
    if fields.len() == 0 {
        None
    } else if fields[0].name == name {
        Some(fields[0].value)
    } else {
        first_field_named(fields.drop_first(), name)
    }
}

/// The creation time held by a list of records: taken from the first record
/// whose first field named `time_created` holds a timestamp.
pub open spec fn timestamp_in_records(records: Seq<RecordView>) -> Option<i64>
    decreases records.len(),
{
    if records.len() == 0 {
        None
    } else {
        match first_field_named(records[0].fields, "time_created"@) {
            Some(FieldValue::Timestamp(t)) => Some(t),
            _ => timestamp_in_records(records.drop_first()),
        }
    }
}

/// The creation time held by decoded records; none where nothing decoded.
pub open spec fn timestamp_in_decoded(decoded: Option<Seq<RecordView>>) -> Option<i64> {
    match decoded {
        Some(records) => timestamp_in_records(records),
        None => None,
    }
}

/// What decoding the first bytes of a file showed.
#[derive(Clone, Copy, Debug, PartialEq, Eq, Structural)]
pub enum TimestampProbe {
    /// They decoded and hold this creation time.
    Found(i64),
    /// They decoded and hold no creation time.
    Absent,
    /// They did not decode; the whole file has to be read.
    Undecodable,
}

/// The answer of the fast path, given what decoding the first bytes gave.
pub open spec fn probe_of(decoded: Option<Seq<RecordView>>) -> TimestampProbe {
    match decoded {
        Some(records) => match timestamp_in_records(records) {
            Some(t) => TimestampProbe::Found(t),
            None => TimestampProbe::Absent,
        },
        None => TimestampProbe::Undecodable,
    }
}

/// The creation time of a file by the two-tier rule, given what decoding its
/// first `FAST_PATH_BYTES` bytes gave and what decoding all of it gives: the
/// latter counts only where the former did not decode.
pub open spec fn two_tier_timestamp(
    prefix: Option<Seq<RecordView>>,
    whole: Option<Seq<RecordView>>,
) -> Option<i64> {
    match probe_of(prefix) {
        TimestampProbe::Found(t) => Some(t),
        TimestampProbe::Absent => None,
        TimestampProbe::Undecodable => timestamp_in_decoded(whole),
    }
}

/// The value of the first field of `fields` named `name`.
fn find_field(fields: &Vec<FitField>, name: &String) -> (r: Option<FieldValue>)
    ensures
        r == first_field_named(fields@.map_values(|f: FitField| f@), name@),
{
    let ghost all = fields@.map_values(|f: FitField| f@);
    assert(all.subrange(0, all.len() as int) =~= all);
    let mut i: usize = 0;
    while i < fields.len()
        invariant
            i <= fields@.len(),
            all == fields@.map_values(|f: FitField| f@),
            first_field_named(all, name@) == first_field_named(all.subrange(i as int, all.len() as int), name@),
        decreases fields@.len() - i,
    {
        let ghost rest = all.subrange(i as int, all.len() as int);
        assert(rest.drop_first() =~= all.subrange(i + 1, all.len() as int));
        assert(rest[0] == fields@[i as int]@);
        if fields[i].name == *name {
            return Some(fields[i].value);
        }
        i = i + 1;
    }
    None
}

/// The creation time held by `records`: from the first record whose first
/// field named `time_created` holds a timestamp.
pub fn find_ts_in_vec(records: &Vec<FitRecord>) -> (r: Option<i64>)
    ensures
        r == timestamp_in_records(records_view(records@)),
{
    let ghost all = records_view(records@);
    let name = String::from_str("time_created");
    assert(all.subrange(0, all.len() as int) =~= all);
    let mut i: usize = 0;
    while i < records.len()
        invariant
            i <= records@.len(),
            all == records_view(records@),
            name@ == "time_created"@,
            timestamp_in_records(all) == timestamp_in_records(all.subrange(i as int, all.len() as int)),
        decreases records@.len() - i,
    {
        let ghost rest = all.subrange(i as int, all.len() as int);
        assert(rest.drop_first() =~= all.subrange(i + 1, all.len() as int));
        assert(rest[0] == records@[i as int]@);
        match find_field(&records[i].fields, &name) {
            Some(FieldValue::Timestamp(t)) => return Some(t),
            _ => {},
        }
        i = i + 1;
    }
    None
}

/// The fast path: given what decoding the leading `FAST_PATH_BYTES` bytes of
/// a file gave, the creation time they hold, `Absent` where they hold none,
/// and `Undecodable` where they did not decode, so that the whole file has to
/// be decoded instead; any other answer is final.
pub fn extract_timestamp_fast(decoded_prefix: &Option<Vec<FitRecord>>) -> (r: TimestampProbe)
    ensures
        r == probe_of(decoded_view(*decoded_prefix)),
{
    match decoded_prefix {
        Some(records) => match find_ts_in_vec(records) {
            Some(t) => TimestampProbe::Found(t),
            None => TimestampProbe::Absent,
        },
        None => TimestampProbe::Undecodable,
    }
}

/// Given what decoding the whole of a file gave, the creation time it holds;
/// `None` where nothing decoded or it holds none.
pub fn timestamp_in_file(decoded: &Option<Vec<FitRecord>>) -> (r: Option<i64>)
    ensures
        r == timestamp_in_decoded(decoded_view(*decoded)),
{
    match decoded {
        Some(records) => find_ts_in_vec(records),
        None => None,
    }
}

/// The two-tier rule put together: the fast path's answer where it is final,
/// else the creation time found in the whole file.
pub proof fn lemma_two_tier_steps(prefix: Option<Seq<RecordView>>, whole: Option<Seq<RecordView>>)
    ensures
        probe_of(prefix) is Undecodable ==> two_tier_timestamp(prefix, whole) == timestamp_in_decoded(whole),
        probe_of(prefix) matches TimestampProbe::Found(t) ==> two_tier_timestamp(prefix, whole) == Some(t),
        probe_of(prefix) is Absent ==> two_tier_timestamp(prefix, whole) is None,
{
}

/// Where the leading bytes decode, the two-tier rule answers from them alone:
/// what the whole file decodes to is never consulted.
pub proof fn lemma_fast_path_is_final(
    prefix: Option<Seq<RecordView>>,
    whole: Option<Seq<RecordView>>,
    other: Option<Seq<RecordView>>,
)
    requires
        prefix.is_some(),
    ensures
        two_tier_timestamp(prefix, whole) == timestamp_in_records(prefix.unwrap()),
        two_tier_timestamp(prefix, whole) == two_tier_timestamp(prefix, other),
{
}

/// A floating-point reading, kept as the bit pattern it was decoded with;
/// `Zero` where none was read.
#[derive(Clone, Copy, Debug, PartialEq, Eq, Structural)]
pub enum Real {
    Zero,
    Single(u32),
    Double(u64),
}

/// The summary of one session: distance (meters), calories, elapsed time
/// (seconds), average speed (meters per second), ascent and descent (meters).
/// A field that was not read is zero.
#[derive(Clone, Copy, Debug, PartialEq, Eq, Structural)]
pub struct SessionStats {
    pub distance: Real,
    pub calories: u16,
    pub duration: Real,
    pub enhanced_speed: Real,
    pub ascent: u16,
    pub descent: u16,
}

pub open spec fn zero_stats() -> SessionStats {
    SessionStats {
        distance: Real::Zero,
        calories: 0,
        duration: Real::Zero,
        enhanced_speed: Real::Zero,
        ascent: 0,
        descent: 0,
    }
}

impl Default for SessionStats {
    fn default() -> (r: SessionStats)
        ensures
            r == zero_stats(),
    {
        SessionStats {
            distance: Real::Zero,
            calories: 0,
            duration: Real::Zero,
            enhanced_speed: Real::Zero,
            ascent: 0,
            descent: 0,
        }
    }
}

/// A floating-point field's value as a reading: zero for a value of any other
/// kind.
pub open spec fn real_of(v: FieldValue) -> Real {
    match v {
        FieldValue::Float32(b) => Real::Single(b),
        FieldValue::Float64(b) => Real::Double(b),
        _ => Real::Zero,
    }
}

/// An integer field's value as a count: zero for a value of any other kind.
pub open spec fn count_of(v: FieldValue) -> u16 {
    match v {
        FieldValue::UInt16(n) => n,
        _ => 0,
    }
}

/// The summary after reading field `f` into `s`.
pub open spec fn apply_field(s: SessionStats, f: FieldView) -> SessionStats {
    if f.name == "total_distance"@ {
        SessionStats { distance: real_of(f.value), ..s }
    } else if f.name == "total_calories"@ {
        SessionStats { calories: count_of(f.value), ..s }
    } else if f.name == "total_elapsed_time"@ {
        SessionStats { duration: real_of(f.value), ..s }
    } else if f.name == "enhanced_avg_speed"@ {
        SessionStats { enhanced_speed: real_of(f.value), ..s }
    } else if f.name == "total_ascent"@ {
        SessionStats { ascent: count_of(f.value), ..s }
    } else if f.name == "total_descent"@ {
        SessionStats { descent: count_of(f.value), ..s }
    } else {
        s
    }
}

/// The summary read from a session record's fields, in order.
pub open spec fn stats_from_fields(fields: Seq<FieldView>) -> SessionStats
    decreases fields.len(),
{
    if fields.len() == 0 {
        zero_stats()
    } else {
        apply_field(stats_from_fields(fields.drop_last()), fields.last())
    }
}

/// The summary held by a list of records: read from the first session
/// record, all zero where there is none.
pub open spec fn stats_in_records(records: Seq<RecordView>) -> SessionStats
    decreases records.len(),
{
    if records.len() == 0 {
        zero_stats()
    } else if records[0].is_session {
        stats_from_fields(records[0].fields)
    } else {
        stats_in_records(records.drop_first())
    }
}

/// Reads a session record's fields into a summary.
fn stats_of_session(fields: &Vec<FitField>) -> (r: SessionStats)
    ensures
        r == stats_from_fields(fields@.map_values(|f: FitField| f@)),
{
    let ghost all = fields@.map_values(|f: FitField| f@);
    let distance = String::from_str("total_distance");
    let calories = String::from_str("total_calories");
    let elapsed = String::from_str("total_elapsed_time");
    let speed = String::from_str("enhanced_avg_speed");
    let ascent = String::from_str("total_ascent");
    let descent = String::from_str("total_descent");
    let mut s = SessionStats::default();
    let mut i: usize = 0;
    while i < fields.len()
        invariant
            i <= fields@.len(),
            all == fields@.map_values(|f: FitField| f@),
            distance@ == "total_distance"@,
            calories@ == "total_calories"@,
            elapsed@ == "total_elapsed_time"@,
            speed@ == "enhanced_avg_speed"@,
            ascent@ == "total_ascent"@,
            descent@ == "total_descent"@,
            s == stats_from_fields(all.subrange(0, i as int)),
        decreases fields@.len() - i,
    {
        let f = &fields[i];
        proof {
            let next = all.subrange(0, i + 1);
            assert(next.drop_last() =~= all.subrange(0, i as int));
            assert(next.last() == f@);
        }
        let reading = match f.value {
            FieldValue::Float32(b) => Real::Single(b),
            FieldValue::Float64(b) => Real::Double(b),
            _ => Real::Zero,
        };
        let count = match f.value {
            FieldValue::UInt16(n) => n,
            _ => 0,
        };
        if f.name == distance {
            s.distance = reading;
        } else if f.name == calories {
            s.calories = count;
        } else if f.name == elapsed {
            s.duration = reading;
        } else if f.name == speed {
            s.enhanced_speed = reading;
        } else if f.name == ascent {
            s.ascent = count;
        } else if f.name == descent {
            s.descent = count;
        }
        i = i + 1;
    }
    assert(all.subrange(0, all.len() as int) =~= all);
    s
}

/// The session summary held by `records`: read from the first session
/// record, all zero where there is none.
pub fn session_stats_in(records: &Vec<FitRecord>) -> (r: SessionStats)
    ensures
        r == stats_in_records(records_view(records@)),
{
    let ghost all = records_view(records@);
    assert(all.subrange(0, all.len() as int) =~= all);
    let mut i: usize = 0;
    while i < records.len()
        invariant
            i <= records@.len(),
            all == records_view(records@),
            stats_in_records(all) == stats_in_records(all.subrange(i as int, all.len() as int)),
        decreases records@.len() - i,
    {
        let ghost rest = all.subrange(i as int, all.len() as int);
        assert(rest.drop_first() =~= all.subrange(i + 1, all.len() as int));
        assert(rest[0] == records@[i as int]@);
        if records[i].is_session {
            return stats_of_session(&records[i].fields);
        }
        i = i + 1;
    }
    SessionStats::default()
}

/// The session summary of an activity file, given what decoding all of it
/// gave: read from the first session record, all zero where there is none;
/// `None` where nothing decoded.
pub fn extract_session_data(decoded: &Option<Vec<FitRecord>>) -> (r: Option<SessionStats>)
    ensures
        r.is_some() == decoded.is_some(),
        r.is_some() ==> r.unwrap() == stats_in_records(records_view(decoded.unwrap()@)),
{
    match decoded {
        Some(records) => Some(session_stats_in(records)),
        None => None,
    }
}

} // verus!

//! An index of activity recordings keyed by creation time, range queries
//! over it, and the calendar windows ("last two weeks", "March of last
//! year") that those queries are usually asked for.

pub mod bucket;
pub mod calendar;
pub mod index;
pub mod records;

pub use bucket::{
    get_filtered_variants, get_time_range, offerable_variants_at, time_range_at, BucketKind,
    TimeBucket,
};
pub use calendar::CurrentInstant;
pub use index::{
    get_files_in_range, is_activity_file_name, process_fit_directory, ActivityIndex, ScannedFile,
};
pub use records::{
    extract_session_data, extract_timestamp_fast, find_ts_in_vec, session_stats_in,
    timestamp_in_file, FieldValue, FitField, FitRecord, Real, SessionStats,
    TimestampProbe, FAST_PATH_BYTES,
};

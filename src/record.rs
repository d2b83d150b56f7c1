//! The record accessor: one input line decoded through the `nmea` crate, and
//! the time value held in one of its data fields.
use vstd::prelude::*;

use crate::text::{fields, field_at};
use crate::time::TimeOfDay;

verus! {

/// What `nmea::parse_nmea_sentence` yields for a line: talker, sentence type,
/// data fields and the checksum written in the line; `None` when it fails.
pub uninterp spec fn nmea_parts_of(line: Seq<char>) -> Option<(Seq<char>, Seq<char>, Seq<char>, u8)>;

/// What `NmeaSentence::calc_checksum` computes over the parsed line.
pub uninterp spec fn nmea_checksum_of(line: Seq<char>) -> u8;

/// What chrono reads as a time of day (`%H%M%S%.f`) from one field, as
/// seconds since midnight and nanoseconds.
pub uninterp spec fn nmea_time_of(field: Seq<char>) -> Option<(u32, u32)>;

/// The parts of a sentence as the `nmea` crate hands them out.
struct RawSentence {
    talker: String,
    kind: String,
    data: String,
    declared: u8,
    computed: u8,
}

/// Relies on `nmea::parse_nmea_sentence` to split a line into talker,
/// sentence type, data and written checksum, and on
/// `NmeaSentence::calc_checksum` for the checksum of what was read.
#[verifier::external_body]
fn parse_sentence(line: &str) -> (r: Option<RawSentence>)
    ensures
        r is Some <==> nmea_parts_of(line@) is Some,
        r is Some ==> (r->0.talker@, r->0.kind@, r->0.data@, r->0.declared) == nmea_parts_of(
            line@,
        )->0,
        r is Some ==> r->0.computed == nmea_checksum_of(line@),
{
    match nmea::parse_nmea_sentence(line) {
        Ok(s) => Some(RawSentence {
            talker: s.talker_id.to_string(),
            kind: s.message_id.as_str().to_string(),
            data: s.data.to_string(),
            declared: s.checksum,
            computed: s.calc_checksum(),
        }),
        Err(_) => None,
    }
}

/// Relies on chrono's `NaiveTime::parse_from_str` with the NMEA layout
/// `hhmmss.sss`; seconds since midnight and nanoseconds are read back with
/// `Timelike`, whose documentation bounds them by a day and a leap second.
#[verifier::external_body]
fn parse_time(field: &str) -> (r: Option<TimeOfDay>)
    ensures
        r is Some <==> nmea_time_of(field@) is Some,
        r is Some ==> (r->0.secs, r->0.frac) == nmea_time_of(field@)->0,
        r is Some ==> r->0.wf(),
{
    match chrono::NaiveTime::parse_from_str(field, "%H%M%S%.f") {
        Ok(t) => Some(TimeOfDay {
            secs: chrono::Timelike::num_seconds_from_midnight(&t),
            frac: chrono::Timelike::nanosecond(&t),
        }),
        Err(_) => None,
    }
}

/// Whether the `nmea` crate could read the line as a sentence.
pub open spec fn decodes(line: Seq<char>) -> bool {
    nmea_parts_of(line) is Some
}

/// A line is valid when it decodes and its written checksum matches.
pub open spec fn is_valid_line(line: Seq<char>) -> bool {
    decodes(line) && {
        let (_, _, _, written) = nmea_parts_of(line)->0;
        written == nmea_checksum_of(line)
    }
}

/// The sender (talker) of a line; empty when it does not decode.
pub open spec fn sender_of(line: Seq<char>) -> Seq<char> {
    if decodes(line) {
        let (x, _, _, _) = nmea_parts_of(line)->0;
        x
    } else {
        Seq::empty()
    }
}

/// The category (sentence type) of a line; empty when it does not decode.
pub open spec fn category_of(line: Seq<char>) -> Seq<char> {
    if decodes(line) {
        let (_, x, _, _) = nmea_parts_of(line)->0;
        x
    } else {
        Seq::empty()
    }
}

/// The data part of a line; empty when it does not decode.
pub open spec fn data_of(line: Seq<char>) -> Seq<char> {
    if decodes(line) {
        let (_, _, x, _) = nmea_parts_of(line)->0;
        x
    } else {
        Seq::empty()
    }
}

/// The time held in data field `index`, when there is such a field and it reads
/// as a valid time of day.
pub open spec fn time_in_field(data: Seq<char>, index: nat) -> Option<TimeOfDay> {
    if index < fields(data).len() && nmea_time_of(fields(data)[index as int]) is Some {
        let (secs, frac) = nmea_time_of(fields(data)[index as int])->0;
        let t = TimeOfDay { secs, frac };
        if t.wf() {
            Some(t)
        } else {
            None
        }
    } else {
        None
    }
}

/// One decoded input line.
pub struct Record {
    /// The line could be read as a sentence at all.
    pub decoded: bool,
    /// It was read and its checksum matches.
    pub valid: bool,
    pub category: String,
    pub sender: String,
    pub data: String,
}

impl Record {
    /// The record describes `line`.
    pub open spec fn of_line(&self, line: Seq<char>) -> bool {
        &&& self.decoded == decodes(line)
        &&& self.valid == is_valid_line(line)
        &&& self.category@ == category_of(line)
        &&& self.sender@ == sender_of(line)
        &&& self.data@ == data_of(line)
    }

    /// Decodes one line; a line that cannot be read gives an invalid record
    /// with empty category and sender.
    pub fn decode(line: &str) -> (r: Record)
        ensures
            r.of_line(line@),
    {
        match parse_sentence(line) {
            Some(raw) => {
                let valid = raw.declared == raw.computed;
                Record {
                    decoded: true,
                    valid,
                    category: raw.kind,
                    sender: raw.talker,
                    data: raw.data,
                }
            },
            None => Record {
                decoded: false,
                valid: false,
                category: String::new(),
                sender: String::new(),
                data: String::new(),
            },
        }
    }

    /// The time in data field `index`, if it holds one.
    pub fn time_at(&self, index: usize) -> (r: Option<TimeOfDay>)
        ensures
            r == time_in_field(self.data@, index as nat),
            r is Some ==> r->0.wf(),
    {
        match field_at(self.data.as_str(), index) {
            Some(f) => parse_time(f),
            None => None,
        }
    }
}

} // verus!

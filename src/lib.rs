//! A single-pass filter over NMEA-0183 sentence streams.
//!
//! Each line is decoded into a record, the stream's current time is carried
//! forward from time-bearing sentences, and a record is emitted only when it is
//! valid, falls inside the time window, and passes the category and sender
//! gates. Distinct categories and senders can be collected for a sorted report.
pub mod filter;
pub mod gate;
pub mod record;
pub mod text;
pub mod time;
pub mod uniques;

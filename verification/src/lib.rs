//! Extraction of blood-glucose records from a health-data XML export.
//!
//! The library scans an XML document element by element, keeps the `Record`
//! elements whose `type` attribute names a blood-glucose measurement, copies a
//! fixed set of attributes out of each of them, and derives a human-readable
//! Eastern-time display string from the start timestamp. The result is the
//! ordered collection of extracted entries together with two counters: how
//! many `Record` elements were seen, and how many of them matched.

pub mod localizer;
pub mod models;
pub mod scanner;
pub mod xml;

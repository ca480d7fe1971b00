//! Extraction of dated headings from plain-text notes, and their ordering
//! by time.
//!
//! A heading is a line fragment such as `## Wed 04 Mar 2020   My Title`. Each
//! heading found becomes a [`note::Note`] that records where it was found, the
//! UTC instant of its date (at a fixed time of day) and its title. Notes from
//! many files are gathered by a [`walk::NoteCollector`] and handed out sorted
//! by timestamp.

pub mod date;
pub mod heading;
pub mod note;
pub mod walk;

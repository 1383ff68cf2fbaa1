//! Cataloguing and Live Photo linking for a personal photo library.
//!
//! The library keeps an in-memory catalog of media files and their XMP
//! sidecars, groups Live Photo images with their videos, and decides which
//! files to remove, synchronise, create or move. It never touches the disk:
//! every decision is handed back as plain data for the caller to carry out.

pub mod catalog;
pub mod error;
pub mod exiftool;
pub mod live_photo_linker;
pub mod metadata;
pub mod organizer;
pub mod seqs;
pub mod text;


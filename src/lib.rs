//! Verified extraction and parsing of the NTFS Master File Table.
//!
//! Extraction finds the NTFS volume on a disk (`locate`), decodes its boot sector (`boot`),
//! reads record 0 of the `$MFT` (`record`, `fixup`, `attrs`), follows its runlists and
//! `$ATTRIBUTE_LIST` extents (`runlist`, `extract`) and yields a checked, gap-free runlist.
//! Parsing gathers each logical record (`gather`), decodes its attributes (`attributes`,
//! `entry`), rebuilds paths (`path`), applies the timestamp heuristics (`timestamp`) and
//! produces one entry per base record (`parser`, `models`).
pub mod bytes;
pub mod boot;
pub mod runlist;
pub mod record;
pub mod fixup;
pub mod locate;
pub mod attrs;
pub mod extract;
pub mod path;
pub mod attributes;
pub mod timestamp;
pub mod gather;
pub mod entry;
pub mod models;
pub mod parser;
pub mod rules;

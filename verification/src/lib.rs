//! fnf: reading `dnf upgrade` output and laying out what it would upgrade.
//!
//! The library parses the transaction table that `dnf upgrade --assumeno`
//! prints, strictly: every line must be what the table allows at that
//! point, and the sections must add up to the Transaction Summary. It also
//! reads the size totals dnf reports on stderr, and decides how the
//! upgrade table is laid out and which package specs are passed back to
//! dnf.
pub mod display;
pub mod field_laws;
pub mod laws;
pub mod error;
pub mod number;
pub mod number_laws;
pub mod parser;
pub mod progress;
pub mod size;
pub mod sort;
pub mod table;
pub mod text;
pub mod text_laws;

pub use display::{
    column_widths, confirms_upgrade, display_rows, highlight_diff, shorten_repo, upgrade_specs,
    GroupBy,
};
pub use parser::{parse_update_lines, PackageUpdate, ParseError, TableParser};
pub use progress::{parse_disk_line, parse_download_line, SizeInfo};
pub use size::{parse_dnf_size, DnfSize, SizeUnit};

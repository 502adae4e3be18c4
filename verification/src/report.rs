//! The reports of a scan.
pub mod txt;
pub mod html;
pub mod layout;

pub use self::txt::generate_txt;
pub use self::html::{generate_html, html_escape, table_row};

//! Hardware inventory: parsers for what system tools and sysfs report about a server, and the
//! plain-text and HTML reports built from it.
pub mod text;
pub mod num;
pub mod sizes;
pub mod clock;
pub mod models;
pub mod collectors;
pub mod report;
pub mod output;

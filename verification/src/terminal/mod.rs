//! Terminal runtime decisions: capability detection, the raw-mode options,
//! and the image / hyperlink protocol encoders.
pub mod capabilities;
pub mod protocols;
pub mod lifecycle;

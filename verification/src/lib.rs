//! Display layouts read from the textual state report of the display tool:
//! the report parser, the monitor identity taken from EDID blocks, and the
//! reconciliation of a desired layout with the live outputs.

pub mod decimal;
pub mod edid;
pub mod layout;
pub mod model;
pub mod outputs;
pub mod profile;
pub mod report;
pub mod text;

pub use crate::edid::{read_identity, Descriptor, MonitorIdentity};
pub use crate::layout::{capture_layout, reconcile, Reconciliation};
pub use crate::model::{Geometry, MonitorConfig, Orientation, Output, OutputNames, ParseError};
pub use crate::outputs::ConnectedOutputs;
pub use crate::profile::{ConfigFile, Profile};
pub use crate::report::{orientation_from_word, parse_xrandr, ConfigAndXrandr};

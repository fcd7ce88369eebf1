//! The data that the library works on: the live outputs as the report
//! describes them, and the entries of a desired layout.

use vstd::prelude::*;

verus! {

/// Rotation of an active output.
#[derive(Clone, Copy, Debug, PartialEq, Eq, Structural, PartialOrd, Ord, Hash)]
pub enum Orientation {
    Normal,
    Left,
    Inverted,
    Right,
}

/// Pixel placement of an output that is part of the desktop. Width and
/// height are the extents after rotation.
#[derive(Clone, Copy, Debug, PartialEq, Eq, Structural, PartialOrd, Ord, Hash)]
pub struct Geometry {
    pub width: usize,
    pub height: usize,
    pub x_offset: usize,
    pub y_offset: usize,
    pub orientation: Orientation,
    pub is_primary: bool,
}

/// One connected port. `edid` is the monitor's descriptor block as the
/// report prints it, in hexadecimal; `connection_name` is the port's label,
/// which may change from one session to the next; `geometry` is absent
/// while the port is connected but not part of the desktop.
#[derive(Debug, PartialEq, Eq, PartialOrd, Ord, Hash)]
pub struct Output {
    pub edid: String,
    pub connection_name: String,
    pub geometry: Option<Geometry>,
}

/// What an [`Output`] holds, as plain values.
pub struct OutputView {
    pub edid: Seq<char>,
    pub connection_name: Seq<char>,
    pub geometry: Option<Geometry>,
}

impl View for Output {
    type V = OutputView;

    open spec fn view(&self) -> OutputView {
        OutputView {
            edid: self.edid@,
            connection_name: self.connection_name@,
            geometry: self.geometry,
        }
    }
}

impl Clone for Output {
    fn clone(&self) -> (r: Self)
        ensures
            r@ == self@,
    {
        Output {
            edid: self.edid.clone(),
            connection_name: self.connection_name.clone(),
            geometry: self.geometry,
        }
    }
}

/// One entry of a desired layout: where the monitor named `display_name`
/// is to stand. `mode` is `WIDTHxHEIGHT` before rotation, `position` is
/// `XxY`.
#[derive(Debug)]
pub struct MonitorConfig {
    pub display_name: String,
    pub mode: String,
    pub position: String,
    pub orientation: Orientation,
    pub primary: bool,
}

/// What a [`MonitorConfig`] holds, as plain values.
pub struct MonitorConfigView {
    pub display_name: Seq<char>,
    pub mode: Seq<char>,
    pub position: Seq<char>,
    pub orientation: Orientation,
    pub primary: bool,
}

impl View for MonitorConfig {
    type V = MonitorConfigView;

    open spec fn view(&self) -> MonitorConfigView {
        MonitorConfigView {
            display_name: self.display_name@,
            mode: self.mode@,
            position: self.position@,
            orientation: self.orientation,
            primary: self.primary,
        }
    }
}

impl Clone for MonitorConfig {
    fn clone(&self) -> (r: Self)
        ensures
            r@ == self@,
    {
        MonitorConfig {
            display_name: self.display_name.clone(),
            mode: self.mode.clone(),
            position: self.position.clone(),
            orientation: self.orientation,
            primary: self.primary,
        }
    }
}

/// The labels of all ports that the display subsystem names, connected or
/// not.
pub type OutputNames = Vec<String>;

/// The views of a list of strings.
pub open spec fn names_view(names: Seq<String>) -> Seq<Seq<char>> {
    Seq::new(names.len(), |i: int| names[i]@)
}

/// The views of a desired layout's entries.
pub open spec fn configs_view(configs: Seq<MonitorConfig>) -> Seq<MonitorConfigView> {
    Seq::new(configs.len(), |i: int| configs[i]@)
}

/// Why a report could not be read. No partial result is kept.
#[derive(Clone, Copy, Debug, PartialEq, Eq, Structural)]
pub enum ParseError {
    /// Nothing follows the screen headers.
    NoOutputs,
    /// The line of a port holds fewer words than its state asks for.
    MissingToken,
    /// The geometry word of an active port does not hold four numbers.
    BadGeometry,
    /// The lines below a connected port hold no EDID marker, or a line that
    /// is not indented comes first.
    MissingEdid,
    /// Fewer than sixteen lines follow the EDID marker, or they do not hold
    /// 512 characters.
    EdidLength,
    /// The EDID text is not hexadecimal.
    EdidHex,
    /// The EDID bytes do not decode.
    EdidDecode,
    /// The EDID block holds no product name.
    MissingProductName,
}

} // verus!

//! Plain value types that the netplay messages carry: control inputs and the
//! identifiers the package-sync phase speaks of. This core only stores and
//! compares these values; producing them is a collaborator's concern.

use vstd::prelude::*;

verus! {

/// One concurrently-held control: a button or an axis-threshold crossing.
/// The core treats a held input as an opaque, equality-comparable token.
#[derive(Clone, Copy, PartialEq, Eq, Structural, Debug, Hash)]
pub enum Input {
    DpadUp,
    DpadDown,
    DpadLeft,
    DpadRight,
    Confirm,
    Cancel,
    UseCard,
    Shoot,
    Special,
    ShoulderLeft,
    ShoulderRight,
    Pause,
}

/// Identifier of an installable package (player, card, augment, ...).
#[derive(Clone, PartialEq, Eq, Debug, Default, Hash)]
pub struct PackageId {
    pub id: String,
}

/// Which kind of package an identifier names.
#[derive(Clone, Copy, PartialEq, Eq, Structural, Debug, Hash)]
pub enum PackageCategory {
    Augment,
    Card,
    Encounter,
    Library,
    Player,
    Resource,
    Status,
    TileState,
}

/// Content hash of a package's files, used to decide whether two peers hold
/// the same bytes for the same package identifier.
#[derive(Clone, PartialEq, Eq, Debug, Default, Hash)]
pub struct FileHash {
    pub bytes: Vec<u8>,
}

/// A block part installed on a player's customization grid.
#[derive(Clone, PartialEq, Eq, Debug)]
pub struct InstalledBlock {
    pub package_id: PackageId,
    pub rotation: u8,
    pub x: i32,
    pub y: i32,
}

/// A switch drive part equipped by a player.
#[derive(Clone, PartialEq, Eq, Debug)]
pub struct InstalledSwitchDrive {
    pub package_id: PackageId,
    pub slot: u8,
}

} // verus!

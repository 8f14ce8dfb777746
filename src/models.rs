use std::collections::HashMap;
use vstd::prelude::*;

verus! {

/// The kinds of change that the live state announces.
#[derive(Debug, PartialEq, Eq, Structural)]
pub enum Topic {
    Session {},
    Timing,
    Drivers,
    Sectors,
    CarPositions,
    CarTelemetry,
    RadioMessages,
    RaceControlMessages,
}

#[derive(Debug, PartialEq, Eq, Structural)]
pub enum SessionType {
    Practice,
    SprintQualifying,
    SprintRace,
    Qualifying,
    Race,
}

pub struct Session {
    pub session_type: SessionType,
    pub session_name: String,
    pub session_nr: u8,
    pub start: u64,
    pub end: u64,
}

pub struct TimingDriver {}

pub struct Driver {
    pub nr: u8,
    pub name: String,
    pub family_name: String,
    pub short_name: String,
    pub team: String,
    pub team_color: String,
}

pub struct Timing {
    pub position: Option<u8>,
    pub interval: Option<i64>,
    pub leader_gap: Option<i64>,
    pub laps: Option<u8>,
    pub laptime: Option<i64>,
    pub last_laptime: Option<i64>,
    pub best_laptime: Option<i64>,
}

#[derive(Debug, PartialEq, Eq, Structural)]
pub enum TimeStatus {
    PersonalBest,
    BestOverall,
    Unmarked,
}

#[derive(Debug, PartialEq, Eq, Structural)]
pub enum MiniSector {
    PersonalBest,
    BestOverall,
    Pit,
    Unmarked,
}

pub struct Sector {
    pub nr: u8,
    pub time: u32,
    pub time_status: TimeStatus,
    pub mini_sectors: HashMap<u8, MiniSector>,
}

pub struct RadioMessage {
    pub nr: u8,
    pub path: String,
    pub utc: u64,
}

#[derive(Debug, PartialEq, Eq, Structural)]
pub enum Flag {
    Green,
    Yellow,
    Red,
    Blue,
    Checkered,
}

pub struct RaceControlMessage {
    pub nr: u8,
    pub message: String,
    pub flag: Flag,
    pub utc: u64,
}

} // verus!

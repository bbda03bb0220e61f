//! The event format: enter, exit and unwind events per thread, with the
//! pass that repairs wall-clock times that run backward.

pub mod call_trees;
pub mod call_trees_laws;
pub mod repair;
pub mod repair_laws;

use crate::platform::Platform;
use vstd::prelude::*;

verus! {

/// A thread of a trace.
#[derive(Debug, PartialEq, Eq)]
pub struct AndroidThread {
    pub id: u64,
    pub name: String,
}

/// A method that events refer to by its id.
#[derive(Debug, Default, PartialEq, Eq)]
pub struct AndroidMethod {
    pub class_name: String,
    pub data: Data,
    pub id: u64,
    pub inline_frames: Option<Vec<AndroidMethod>>,
    pub name: String,
    pub signature: String,
    pub source_file: String,
    pub source_line: Option<u32>,
    pub in_app: Option<bool>,
    pub platform: Option<Platform>,
}

/// What deobfuscation has left on a method.
#[derive(Debug, Default, PartialEq, Eq)]
pub struct Data {
    pub deobfuscation_status: Option<String>,
    pub js_symbolicated: Option<bool>,
    pub orig_in_app: Option<i8>,
}

/// A time in seconds and nanoseconds.
#[derive(Debug, Default, Clone, Copy, PartialEq, Eq)]
pub struct Duration {
    pub secs: Option<u64>,
    pub nanos: Option<u64>,
}

/// The times of an event by the clocks that start with the trace.
#[derive(Debug, Default, Clone, Copy, PartialEq, Eq)]
pub struct EventMonotonic {
    pub wall: Option<Duration>,
    pub cpu: Option<Duration>,
}

/// The times of an event.
#[derive(Debug, Default, Clone, Copy, PartialEq, Eq)]
pub struct EventTime {
    pub global: Option<Duration>,
    pub monotonic: Option<EventMonotonic>,
}

/// What an event reports of a method.
#[derive(Debug, Clone, Copy, PartialEq, Eq)]
pub enum Action {
    Enter,
    Exit,
    Unwind,
}

/// The clock that the times of a trace are meant by.
#[derive(Debug, Default, Clone, Copy, PartialEq, Eq)]
pub enum Clock {
    Global,
    Cpu,
    Wall,
    Dual,
    /// No clock was recorded.
    #[default]
    Unset,
}

/// One event: a thread enters or leaves a method at some time.
#[derive(Debug, PartialEq, Eq)]
pub struct AndroidEvent {
    pub action: Option<String>,
    pub thread_id: u64,
    pub method_id: u64,
    pub time: EventTime,
}

/// A trace: its events in the order in which they were recorded, and the
/// methods and threads that they refer to.
#[derive(Debug, Default, PartialEq, Eq)]
pub struct Android {
    pub clock: Clock,
    pub events: Vec<AndroidEvent>,
    pub methods: Vec<AndroidMethod>,
    pub start_time: u64,
    pub threads: Vec<AndroidThread>,
}

/// The nanoseconds of one second, which is also the step by which an event
/// that lies behind its thread is put after it.
pub const NANOS_PER_SECOND: u64 = 1_000_000_000;

} // verus!

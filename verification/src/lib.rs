use vstd::prelude::*;

pub mod text;
pub mod ch9329;
pub mod error;
pub mod numbers;
pub mod model;
pub mod dispatch;
pub mod discover;
pub mod ssh;
pub mod daemons;
pub mod doctor;
pub mod serial;
pub mod flash;
pub mod netif;
pub mod state;
pub mod netboot;
pub mod setup;
pub mod adb;
pub mod power;
pub mod video;
pub mod stubhttp;
pub mod platform;
pub mod cli;
pub mod tomldoc;
pub mod labfile;
pub mod skills;

verus! {

} // verus!

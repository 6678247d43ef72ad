//! An adaptive governor for the logical cores of a heterogeneous CPU.
//!
//! The library holds the decisions: it classifies the cores of a machine,
//! tracks the load over a sliding window, chooses how many logical cores
//! should run and says which ones. Reading and writing the operating system's
//! control files is left to the program around it.
//!
//! Loads are thousandths of a percent, times are milliseconds.

pub mod ascending;
pub mod changes;
pub mod clock;
pub mod cpu;
pub mod discovery;
pub mod discovery_laws;
pub mod epp;
pub mod id_order;
pub mod load_laws;
pub mod load_tracker;
pub mod manager;
pub mod plan_laws;
pub mod power;
pub mod scaling;
pub mod settings;
pub mod text;
pub mod topology;

pub use manager::CoreManager;
pub use settings::Settings;
pub use topology::CPUTopology;

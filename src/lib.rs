//! Drivers for an ECP5 FPGA's configuration port and for a few neighbouring devices.

pub mod driver;
pub mod ksz8463;
pub mod paths;
mod port;
pub mod sprockets;
pub mod types;

pub use driver::{load_compressed_bitstream, BitstreamSource, Ecp5, Ecp5Error, Ecp5Impl, RawBitstream};
pub use types::{BitstreamError, Command, Device, DeviceState, Id, Status};

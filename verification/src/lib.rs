//! Verified core pieces of a columnar array format: flatbuffer enum values,
//! aligned IPC message framing, temporal array validation, benchmark reporting
//! and file-format decisions.

pub mod fbs_array;
pub mod ipc_writer;
pub mod text;
pub mod tpch;
pub mod dispatcher;
pub mod file_format;
pub mod temporal;

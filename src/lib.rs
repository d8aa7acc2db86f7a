//! A codec for signals packed into the eight byte payload of CAN frames: bit fields
//! read and written in either byte order, payloads assembled from the raw values of a
//! message's signals, received frames decoded against a message layout, and the
//! parsing and display helpers of a CAN dump.

pub mod byte_view;
pub mod candump_parser;
pub mod codec;
pub mod decode;
pub mod generate;
pub mod layout;

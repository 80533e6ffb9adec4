//! Message handling for a WeChat Work (WXWork) group robot: reading the XML
//! notifications that the robot receives and packing the XML replies it sends.
pub mod base64;
pub mod digest;
pub mod document;
pub mod message;
pub mod pattern;
pub mod reply;
pub mod text;
pub mod xml;

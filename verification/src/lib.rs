pub mod buffer;
pub mod cli;
pub mod decode;
pub mod headers;
pub mod listener;
pub mod request;
pub mod response;
pub mod text;
pub mod worker;

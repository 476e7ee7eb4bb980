pub mod http;
pub mod url;

//! StaticDock: the logic of a small static resource server, with its
//! contracts: request targets and paths under the root, request and response
//! heads, ranges and entity tags, directory listings, QR codes, the upload
//! API, command-line options and LAN address discovery.

pub mod text;
pub mod decimal;
pub mod sorting;
pub mod strmap;
pub mod escape;
pub mod percent;
pub mod request;
pub mod http;
pub mod range;
pub mod mime;
pub mod http_date;
pub mod serve;
pub mod listing;
pub mod qr;
pub mod api;
pub mod paths;
pub mod upload;
pub mod config;
pub mod net;

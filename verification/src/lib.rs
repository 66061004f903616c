//! File URL and path conversion, and the decision logic of the Node.js
//! loader hooks and transform API, verified with Verus.
//!
//! * `text`, `percent`: UTF-8 validation and percent-decoding.
//! * `ipv4`, `ipv6`, `host`, `url_path`, `file_url`, `round_trip`: the
//!   `file:` URL rules, plain and Windows, and their round trips.
//! * `unix_path`, `windows_path`: the `std::path` rules on Unix and on
//!   Windows.
//! * `url_rules`: the plain or the Windows rules, which the hooks take as
//!   an argument.
//! * `tsconfig`, `transform_options`, `module_syntax`: which config
//!   applies, what its compiler options make of a transform, and when a
//!   file is an ES module.
//! * `oxc_pipeline`: source text to JavaScript and a source map through
//!   oxc, with the parse retried as a module where that is allowed.
//! * `resolve`, `load`, `json_module`: the resolve and load hooks.
//! * `wasm_types`: TypeScript declarations for WebAssembly exports.
//! * `hook_laws`: what holds across the hooks.

pub mod text;
pub mod percent;
pub mod ipv4;
pub mod ipv6;
pub mod host;
pub mod url_path;
pub mod file_url;
pub mod round_trip;
pub mod unix_path;
pub mod windows_path;
pub mod url_rules;
pub mod tsconfig;
pub mod resolve;
pub mod transform_options;
pub mod module_syntax;
pub mod load;
pub mod json_module;
pub mod oxc_pipeline;
pub mod wasm_types;
pub mod hook_laws;

//! Tokenizing front end of a template-markup engine: splits raw template
//! bytes into an ordered sequence of typed spans — plain-text runs and three
//! kinds of delimited tags (`{% %}`, `{{ }}`, `{# #}`) — tracking the
//! 1-based line each span begins on, and reconstructs the input's content by
//! writing each span's bytes back out verbatim.
pub mod model;
pub mod parse;
pub mod laws;
pub mod template;

pub use template::ParsedTemplate;
pub use template::Sink;
pub use template::SinkError;

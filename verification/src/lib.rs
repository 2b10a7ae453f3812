//! Interactive selection and variable-resolution core of a command-line
//! HTTP client: a templating engine over request definitions, a fuzzy
//! filter, the state machines of the definition picker and the variable
//! prompt, and a size-bounded history of previously entered values.

pub mod choice;
pub mod config;
pub mod environment;
pub mod fuzzy;
pub mod history;
pub mod interactive;
pub mod keyvalue;
pub mod prompt;
pub mod request_definition;
pub mod templating;
pub mod text;

pub use keyvalue::KeyValue;
pub use keyvalue::KeyValueParsingError;

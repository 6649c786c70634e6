//! A terminal key/value configuration editor core: a typed field store with
//! ordered entries, navigation that skips section headers, per-kind field
//! editors, cursor-centered list layout, and a JSON document codec for
//! persistence.

pub mod codec;
pub mod codec_laws;
pub mod digits;
pub mod edit;
pub mod layout;
pub mod model;
pub mod nav;
pub mod schema;
pub mod session;
pub mod store;
pub mod strutil;

pub use model::Config;
pub use model::Entry;
pub use model::Value;

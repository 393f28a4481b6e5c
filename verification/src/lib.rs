//! Translation of gettext message catalogs: diffing a template against an
//! existing translation, the request/response protocol with a translation
//! backend, and merging accepted translations back into a catalog.

pub mod catalog;
pub mod configs;
pub mod paths;
pub mod pipeline;
pub mod reply;
pub mod text;
pub mod translations;
pub mod translators;

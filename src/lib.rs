//! A toolkit for working with imaging sonar data: frame decoders for the
//! sonar file formats, a canonical record model, and the locker index that
//! addresses every record of a directory by kind, time and channel.
pub mod bytes;
pub mod model;
pub mod frame;
pub mod locker;
pub mod jsf;
pub mod imagenex81b;
pub mod xtf;
pub mod browse;
pub mod summary;

//! The verified core of Chilsonite, a rotating proxy.

pub mod address;
pub mod cicada;
pub mod garadama;
pub mod payload;
pub mod protocol;
pub mod reading;
pub mod request_map;
pub mod target;
pub mod text;
pub mod transfer;

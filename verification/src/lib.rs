//! Read-request servicing for a Bluetooth Low Energy GATT server.
//!
//! A remote peer reads a characteristic or a descriptor by its attribute
//! handle. The server finds the attribute among its services, obtains the
//! attribute's value and answers with one bounded fragment of it; a value
//! that is longer than one fragment is kept in a cache and handed out piece
//! by piece as the peer asks for growing offsets.
//!
//! Everything here works on plain values. Talking to the radio is left to
//! the caller, which turns transport events into [`event::ReadEvent`]s and
//! sends out the [`event::ReadResponse`]s it gets back.

pub mod attribute;
pub mod cache;
pub mod event;
pub mod fragment;
pub mod permissions;
pub mod profile;
pub mod server;

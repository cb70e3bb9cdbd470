//! The logic of an SLCAN / LAWICEL (CANUSB) CAN bridge over serial and TCP ports.
//!
//! * [`slcan`] is the line protocol, [`can`] the shared controller, [`transport`] one
//!   port on it and [`stream`] what a port makes of all that its host sends.
//! * [`config`] holds the persisted settings; [`form`], [`escape`], [`page`] and
//!   [`http`] are the web interface that shows and changes them, and [`reading`] says what
//!   can be read off it.
//! * [`url`], [`tls`] and [`autoconnect`] are the outbound connection.
//! * [`mdns`], [`led`], [`station`] and [`rng`] are the smaller devices.
//! * [`hex`] and [`text`] are shared by all of them.
//!
//! Sockets, the flash and the hardware are left to the caller. Where the work goes back
//! and forth between the two, a function takes what happened and says what to do next.

pub mod autoconnect;
pub mod can;
pub mod config;
pub mod escape;
pub mod form;
pub mod hex;
pub mod http;
pub mod led;
pub mod mdns;
pub mod page;
pub mod reading;
pub mod rng;
pub mod slcan;
pub mod station;
pub mod stream;
pub mod text;
pub mod tls;
pub mod transport;
pub mod url;

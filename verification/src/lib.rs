//! LANline radio-server library: the protocol decoders, frame builders and
//! fleet rules behind the receiver, with their contracts proved by Verus.

pub mod ais;
pub mod ais_link;
pub mod ax25;
pub mod aprs;
pub mod apt;
pub mod beast;
pub mod catalog;
pub mod deframe;
pub mod devices;
pub mod fleet;
pub mod fleet_view;
pub mod flight;
pub mod hdlc;
pub mod launch;
pub mod mode_s;
pub mod model;
pub mod net;
pub mod nmea;
pub mod recent;
pub mod text;
pub mod txaudio;
pub mod txlog;
pub mod wav;

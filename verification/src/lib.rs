//! Smart-card reading and decoding: APDU framing, card-reading protocols,
//! travel-document BAC and secure messaging, and decoding of the bytes read.
pub mod error;
pub mod hexfmt;
pub mod text;
pub mod apdu;
pub mod model;
pub mod passport;
pub mod atr;
pub mod aids;
pub mod helpers;
pub mod transit;
pub mod mifare;
pub mod felica;
pub mod emv;
pub mod cards;
pub mod parse;
pub mod traveldoc;
pub mod settings;
pub mod history;
pub mod reader;
pub mod app;
pub mod display;

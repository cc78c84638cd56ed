//! Travel documents (e-passports and mainland travel permits, ICAO Doc 9303): the
//! cryptography of BAC, the secure-messaging channel and the reading of data groups.
pub mod crypto;
pub mod sm;
pub mod read;

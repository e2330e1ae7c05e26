//! Client library for a cloud SMS gateway. It assembles the provider's
//! canonical, sorted, percent-encoded query string, derives the
//! string-to-sign, signs it with HMAC-SHA1 rendered in base64, pins the
//! final request URL byte for byte, and classifies the provider's reply.
//! The HTTP exchange itself is left to the surrounding application.

pub mod client;
pub mod encode;
pub mod order;
pub mod sign;
pub mod sms;

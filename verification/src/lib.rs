//! Control library for a Denon AV receiver speaking its CR-terminated,
//! ASCII, line-oriented control protocol over a byte stream.
//!
//! The heart of the crate is the protocol client: a codec that encodes and
//! decodes wire commands ([`parse`], [`state`]), a line framer that cuts a
//! raw byte stream into CR-terminated lines ([`denon_connection`]), a cache
//! of the last reported value per state key, and the sync loop that feeds
//! reports from the receiver into that cache.  The transport is abstracted
//! by the traits in [`stream`], with an in-memory implementation used by
//! proofs and tests; a TCP implementation lives outside the library.
//!
//! Around the client proper sit the parsing half of service discovery
//! ([`avahi`]) and a few smaller verified components: an integer matrix
//! ([`matrix`]), roman-numeral and distance rendering ([`romans`]), a
//! type-state HTTP response builder ([`html`]), compile-checked lock
//! ordering ([`mutex_ordering`]), a chunked buffer ([`multibuf`]), and
//! small string utilities ([`text`], [`makros`]).

pub mod avahi;
pub mod denon_connection;
pub mod html;
pub mod makros;
pub mod matrix;
pub mod multibuf;
pub mod mutex_ordering;
pub mod operation;
pub mod parse;
pub mod pulseaudio;
pub mod romans;
pub mod state;
pub mod stream;
pub mod text;

//! Core of a meeting speaking-time tracker: a start/stop timer with
//! whole-second accumulation, finalized speech records with categories,
//! a speaker roster with a FIFO turn queue, per-category totals, a CSV
//! export encoding, and a strict field-based persistence codec.

pub mod codec;
pub mod display;
pub mod session;
pub mod speakers;
pub mod speech;
pub mod timer;

pub use codec::DecodeError;
pub use display::to_display;
pub use display::to_display_h_m_s;
pub use session::TemplateApp;
pub use speakers::Order;
pub use speakers::Speaker;
pub use speakers::Speakers;
pub use speakers::TSpeakers;
pub use speech::Speech;
pub use timer::Timespan;

//! Driver for a 128x64, 4-bit-grayscale OLED panel behind an SSD1322
//! controller on a synchronous serial bus.
//!
//! The driver keeps a pair of packed pixel buffers (front and back), lets
//! callers draw into the back buffer, and on demand emits the controller's
//! addressing commands followed by the raw buffer bytes. The transport, the
//! two control lines and the delay source are abstracted as one-method
//! traits so the driver can be exercised against in-memory recording
//! implementations.

pub mod bus;
pub mod driver;
pub mod fakes;
pub mod frame;

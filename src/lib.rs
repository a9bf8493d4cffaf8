//! Client for the local camera stream of a networked device: the connection
//! descriptor, the wire formats of the control protocol, and the session
//! state machine that turns the byte stream into samples.
pub mod drive;
pub mod packet;
pub mod sample;
pub mod settings;
pub mod tunnel;

pub use drive::{IoOutcome, TickAction};
pub use packet::{CameraCmdFrameHeader, CameraCmdPacket};
pub use sample::BambuSample;
pub use settings::{LocalSettings, LocalSettingsParsingError};
pub use tunnel::{LocalTunnel, LocalTunnelError, LocalTunnelState, TransportError};

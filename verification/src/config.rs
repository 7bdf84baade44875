//! Connection configuration: compression modes, limits and presets.

use vstd::prelude::*;

verus! {

/// Compression mode for WebSocket connections.
#[derive(Debug, Clone, Copy, PartialEq, Eq, Structural)]
pub enum Compression {
    /// No compression
    Disabled,
    /// Dedicated compressor per connection (more memory, better ratio)
    Dedicated,
    /// Shared compressor across connections (less memory)
    Shared,
    /// Shared with 4KB sliding window
    Shared4KB,
    /// Shared with 8KB sliding window
    Shared8KB,
    /// Shared with 16KB sliding window
    Shared16KB,
}

impl Default for Compression {
    /// Compression is disabled unless asked for.
    fn default() -> (c: Self)
        ensures
            c == Compression::Disabled,
    {
        Compression::Disabled
    }
}

/// WebSocket server/client configuration. A field left at `None` keeps the
/// transport's own default.
#[derive(Debug, Clone, Copy)]
pub struct Config {
    /// Maximum message size in bytes (default: 64MB)
    pub max_message_size: Option<u32>,
    /// Maximum frame size in bytes (default: 16MB)
    pub max_frame_size: Option<u32>,
    /// Write buffer size in bytes (default: 16KB)
    pub write_buffer_size: Option<u32>,
    /// Compression mode (default: Disabled)
    pub compression: Option<Compression>,
    /// Idle timeout in seconds (default: 120, 0 = disabled)
    pub idle_timeout: Option<u32>,
    /// Maximum backpressure in bytes (default: 1MB)
    pub max_backpressure: Option<u32>,
    /// Enable automatic ping/pong (default: true)
    pub auto_ping: Option<bool>,
    /// Ping interval in seconds (default: 30)
    pub ping_interval: Option<u32>,
    /// High water mark for backpressure (default: 64KB)
    pub high_water_mark: Option<u32>,
    /// Low water mark for backpressure (default: 16KB)
    pub low_water_mark: Option<u32>,
}

/// The ten settings of a configuration, in field order.
pub open spec fn config_fields(c: Config) -> (
    Option<u32>,
    Option<u32>,
    Option<u32>,
    Option<Compression>,
    Option<u32>,
    Option<u32>,
    Option<bool>,
    Option<u32>,
    Option<u32>,
    Option<u32>,
) {
    (
        c.max_message_size,
        c.max_frame_size,
        c.write_buffer_size,
        c.compression,
        c.idle_timeout,
        c.max_backpressure,
        c.auto_ping,
        c.ping_interval,
        c.high_water_mark,
        c.low_water_mark,
    )
}

/// The maximum message size that a configuration read without that field
/// receives: 64MB.
pub fn default_max_message_size() -> (size: Option<u32>)
    ensures
        size == Some((64 * 1024 * 1024) as u32),
{
    Some(64 * 1024 * 1024)
}

/// The default configuration: every setting given, at its documented
/// default.
pub open spec fn spec_default_config() -> Config {
    Config {
        max_message_size: Some((64 * 1024 * 1024) as u32),
        max_frame_size: Some((16 * 1024 * 1024) as u32),
        write_buffer_size: Some((16 * 1024) as u32),
        compression: Some(Compression::Disabled),
        idle_timeout: Some(120u32),
        max_backpressure: Some((1024 * 1024) as u32),
        auto_ping: Some(true),
        ping_interval: Some(30u32),
        high_water_mark: Some((64 * 1024) as u32),
        low_water_mark: Some((16 * 1024) as u32),
    }
}

impl Default for Config {
    /// Every setting given, at its documented default.
    fn default() -> (c: Self)
        ensures
            c == spec_default_config(),
            config_fields(c) == (
                Some((64 * 1024 * 1024) as u32),
                Some((16 * 1024 * 1024) as u32),
                Some((16 * 1024) as u32),
                Some(Compression::Disabled),
                Some(120u32),
                Some((1024 * 1024) as u32),
                Some(true),
                Some(30u32),
                Some((64 * 1024) as u32),
                Some((16 * 1024) as u32),
            ),
    {
        Config {
            max_message_size: Some(64 * 1024 * 1024),
            max_frame_size: Some(16 * 1024 * 1024),
            write_buffer_size: Some(16 * 1024),
            compression: Some(Compression::Disabled),
            idle_timeout: Some(120),
            max_backpressure: Some(1024 * 1024),
            auto_ping: Some(true),
            ping_interval: Some(30),
            high_water_mark: Some(64 * 1024),
            low_water_mark: Some(16 * 1024),
        }
    }
}

/// A configuration for high-frequency trading: small messages, no
/// compression, aggressive timeouts and frequent pings.
pub fn hft_config() -> (c: Config)
    ensures
        config_fields(c) == (
            Some((64 * 1024) as u32),
            Some((64 * 1024) as u32),
            Some((16 * 1024) as u32),
            Some(Compression::Disabled),
            Some(5u32),
            Some((256 * 1024) as u32),
            Some(true),
            Some(5u32),
            Some((32 * 1024) as u32),
            Some((8 * 1024) as u32),
        ),
{
    Config {
        max_message_size: Some(64 * 1024),
        max_frame_size: Some(64 * 1024),
        write_buffer_size: Some(16 * 1024),
        compression: Some(Compression::Disabled),
        idle_timeout: Some(5),
        max_backpressure: Some(256 * 1024),
        auto_ping: Some(true),
        ping_interval: Some(5),
        high_water_mark: Some(32 * 1024),
        low_water_mark: Some(8 * 1024),
    }
}

/// A configuration for high throughput: large buffers, shared compression
/// and relaxed timeouts.
pub fn throughput_config() -> (c: Config)
    ensures
        config_fields(c) == (
            Some((128 * 1024 * 1024) as u32),
            Some((16 * 1024 * 1024) as u32),
            Some((64 * 1024) as u32),
            Some(Compression::Shared),
            Some(300u32),
            Some((16 * 1024 * 1024) as u32),
            Some(true),
            Some(60u32),
            Some((256 * 1024) as u32),
            Some((64 * 1024) as u32),
        ),
{
    Config {
        max_message_size: Some(128 * 1024 * 1024),
        max_frame_size: Some(16 * 1024 * 1024),
        write_buffer_size: Some(64 * 1024),
        compression: Some(Compression::Shared),
        idle_timeout: Some(300),
        max_backpressure: Some(16 * 1024 * 1024),
        auto_ping: Some(true),
        ping_interval: Some(60),
        high_water_mark: Some(256 * 1024),
        low_water_mark: Some(64 * 1024),
    }
}

/// A configuration matching uWebSockets' defaults, for easy migration.
pub fn uws_config() -> (c: Config)
    ensures
        config_fields(c) == (
            Some((16 * 1024) as u32),
            Some((16 * 1024) as u32),
            Some((16 * 1024) as u32),
            Some(Compression::Shared),
            Some(10u32),
            Some((1024 * 1024) as u32),
            Some(true),
            Some(30u32),
            Some((64 * 1024) as u32),
            Some((16 * 1024) as u32),
        ),
{
    Config {
        max_message_size: Some(16 * 1024),
        max_frame_size: Some(16 * 1024),
        write_buffer_size: Some(16 * 1024),
        compression: Some(Compression::Shared),
        idle_timeout: Some(10),
        max_backpressure: Some(1024 * 1024),
        auto_ping: Some(true),
        ping_interval: Some(30),
        high_water_mark: Some(64 * 1024),
        low_water_mark: Some(16 * 1024),
    }
}

} // verus!

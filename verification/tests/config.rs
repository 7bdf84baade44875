use sockudo_ws::config::{
    default_max_message_size, hft_config, throughput_config, uws_config, Compression, Config,
};

#[test]
fn default_config_values() {
    let c = Config::default();
    assert_eq!(c.max_message_size, Some(64 * 1024 * 1024));
    assert_eq!(c.max_frame_size, Some(16 * 1024 * 1024));
    assert_eq!(c.write_buffer_size, Some(16 * 1024));
    assert_eq!(c.compression, Some(Compression::Disabled));
    assert_eq!(c.idle_timeout, Some(120));
    assert_eq!(c.max_backpressure, Some(1024 * 1024));
    assert_eq!(c.auto_ping, Some(true));
    assert_eq!(c.ping_interval, Some(30));
    assert_eq!(c.high_water_mark, Some(64 * 1024));
    assert_eq!(c.low_water_mark, Some(16 * 1024));
}

#[test]
fn default_max_message_size_is_64mb() {
    assert_eq!(default_max_message_size(), Some(67_108_864));
}

#[test]
fn compression_defaults_to_disabled() {
    assert_eq!(Compression::default(), Compression::Disabled);
}

#[test]
fn hft_preset() {
    let c = hft_config();
    assert_eq!(c.max_message_size, Some(65_536));
    assert_eq!(c.max_frame_size, Some(65_536));
    assert_eq!(c.write_buffer_size, Some(16_384));
    assert_eq!(c.compression, Some(Compression::Disabled));
    assert_eq!(c.idle_timeout, Some(5));
    assert_eq!(c.max_backpressure, Some(262_144));
    assert_eq!(c.auto_ping, Some(true));
    assert_eq!(c.ping_interval, Some(5));
    assert_eq!(c.high_water_mark, Some(32_768));
    assert_eq!(c.low_water_mark, Some(8_192));
}

#[test]
fn throughput_preset() {
    let c = throughput_config();
    assert_eq!(c.max_message_size, Some(134_217_728));
    assert_eq!(c.max_frame_size, Some(16_777_216));
    assert_eq!(c.write_buffer_size, Some(65_536));
    assert_eq!(c.compression, Some(Compression::Shared));
    assert_eq!(c.idle_timeout, Some(300));
    assert_eq!(c.max_backpressure, Some(16_777_216));
    assert_eq!(c.auto_ping, Some(true));
    assert_eq!(c.ping_interval, Some(60));
    assert_eq!(c.high_water_mark, Some(262_144));
    assert_eq!(c.low_water_mark, Some(65_536));
}

#[test]
fn uws_preset() {
    let c = uws_config();
    assert_eq!(c.max_message_size, Some(16_384));
    assert_eq!(c.max_frame_size, Some(16_384));
    assert_eq!(c.write_buffer_size, Some(16_384));
    assert_eq!(c.compression, Some(Compression::Shared));
    assert_eq!(c.idle_timeout, Some(10));
    assert_eq!(c.max_backpressure, Some(1_048_576));
    assert_eq!(c.auto_ping, Some(true));
    assert_eq!(c.ping_interval, Some(30));
    assert_eq!(c.high_water_mark, Some(65_536));
    assert_eq!(c.low_water_mark, Some(16_384));
}

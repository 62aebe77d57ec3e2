use panel_protocol::counter::Counter;
use panel_protocol::rgb_led::{ws2812_symbols, U64Instant};
use panel_protocol::{Command, CommandReader, Error};

#[test]
fn single_bytes_build_one_command() {
    let mut reader = CommandReader::new();
    assert_eq!(reader.process_byte(0x41), Ok(None));
    assert_eq!(reader.process_byte(1), Ok(None));
    assert_eq!(reader.process_byte(1), Ok(Some(Command::PowerCycler { slot: 1, state: true })));
    assert_eq!(reader.process_byte(0x42), Ok(None));
    assert_eq!(reader.process_byte(0), Ok(None));
    assert_eq!(reader.process_byte(0x01), Ok(None));
    assert_eq!(
        reader.process_byte(0x00),
        Ok(Some(Command::Brightness { target: 0, value: 256 }))
    );
}

#[test]
fn single_byte_with_unknown_tag_is_malformed() {
    let mut reader = CommandReader::new();
    assert_eq!(reader.process_byte(0x00), Err(Error::MalformedMessage));
}

#[test]
fn single_bytes_fill_the_buffer() {
    let mut reader = CommandReader::new();
    for _ in 0..256 {
        assert_eq!(reader.process_byte(0x00), Err(Error::MalformedMessage));
    }
    assert_eq!(reader.process_byte(0x41), Err(Error::BufferFull));
}

#[test]
fn counter_reports_every_two_counts() {
    let mut counter = Counter::new(100);
    assert_eq!(counter.poll(101), None);
    assert_eq!(counter.poll(102), Some(1));
    assert_eq!(counter.poll(101), None);
    assert_eq!(counter.poll(98), Some(-2));
    assert_eq!(counter.poll(95), Some(-1));
}

#[test]
fn counter_follows_wraparound() {
    let mut counter = Counter::new(65535);
    assert_eq!(counter.poll(1), Some(1));
    assert_eq!(counter.poll(65533), Some(-2));
}

#[test]
fn counter_steps_keep_low_byte() {
    let mut counter = Counter::new(0);
    assert_eq!(counter.poll(600), Some(44));
}

#[test]
fn ws2812_symbols_two_bits_each() {
    assert_eq!(ws2812_symbols(0b11_01_10_00), [0xee, 0x8e, 0xe8, 0x88]);
    assert_eq!(ws2812_symbols(0), [0x88; 4]);
    assert_eq!(ws2812_symbols(255), [0xee; 4]);
}

#[test]
fn ticks_survive_timer_wraparound() {
    let mut instant = U64Instant::new(0xffff_fff0);
    assert_eq!(instant.elapsed(0xffff_fff8), 0xffff_fff8);
    assert_eq!(instant.elapsed(0x10), 0x1_0000_0010);
    assert_eq!(instant.ticks_so_far(), 0x1_0000_0010);
}

use handmade::platform::{
    decode_key_message, key_asks_to_quit, process_xinput_digital_button, GameButtonState, KeyState, SoundOutput,
    SoundWindow, VK_ESCAPE, VK_F4,
};

#[test]
fn button_is_down_when_its_bit_is_set() {
    let up = GameButtonState { half_transition_count: 0, ended_down: false };
    let down = GameButtonState { half_transition_count: 0, ended_down: true };
    let mut new_state = GameButtonState { half_transition_count: 77, ended_down: false };
    process_xinput_digital_button(0x1000, &up, 0x1000, &mut new_state);
    assert_eq!(new_state, GameButtonState { half_transition_count: 0, ended_down: true });
    process_xinput_digital_button(0x1000, &down, 0x1000, &mut new_state);
    assert_eq!(new_state, GameButtonState { half_transition_count: 1, ended_down: true });
    process_xinput_digital_button(0x2fff, &down, 0x1000, &mut new_state);
    assert_eq!(new_state, GameButtonState { half_transition_count: 0, ended_down: false });
    process_xinput_digital_button(0x0000, &up, 0x1000, &mut new_state);
    assert_eq!(new_state, GameButtonState { half_transition_count: 1, ended_down: false });
    process_xinput_digital_button(0x1000, &up, 0x3000, &mut new_state);
    assert_eq!(new_state, GameButtonState { half_transition_count: 1, ended_down: false });
}

#[test]
fn key_message_flags_are_read_from_their_bits() {
    assert_eq!(decode_key_message(0), KeyState { was_down: false, is_down: false, alt_down: false });
    assert_eq!(decode_key_message(1 << 30), KeyState { was_down: true, is_down: false, alt_down: false });
    assert_eq!(decode_key_message(1 << 31), KeyState { was_down: false, is_down: true, alt_down: false });
    assert_eq!(decode_key_message(1 << 29), KeyState { was_down: false, is_down: false, alt_down: true });
    assert_eq!(decode_key_message(0xffff_ffff), KeyState { was_down: true, is_down: true, alt_down: true });
    assert_eq!(decode_key_message(0x1fff_ffff), KeyState { was_down: false, is_down: false, alt_down: false });
}

#[test]
fn escape_and_alt_f4_ask_to_quit() {
    let down = KeyState { was_down: false, is_down: true, alt_down: false };
    let alt = KeyState { was_down: false, is_down: true, alt_down: true };
    let up = KeyState { was_down: true, is_down: false, alt_down: true };
    assert!(key_asks_to_quit(VK_ESCAPE, down));
    assert!(key_asks_to_quit(VK_ESCAPE, alt));
    assert!(!key_asks_to_quit(VK_ESCAPE, up));
    assert!(!key_asks_to_quit(VK_F4, down));
    assert!(key_asks_to_quit(VK_F4, alt));
    assert!(!key_asks_to_quit(VK_F4, up));
    assert!(!key_asks_to_quit(0x41, alt));
}

#[test]
fn sound_window_runs_from_the_write_position_to_the_target() {
    let output = SoundOutput {
        samples_per_second: 48_000,
        bytes_per_sample: 4,
        secondary_buffer_size: 192_000,
        running_sample_index: 0,
        latency_sample_count: 3_200,
    };
    assert_eq!(output.write_window(0), SoundWindow { byte_to_lock: 0, bytes_to_write: 12_800 });
    assert_eq!(output.write_window(1_000), SoundWindow { byte_to_lock: 0, bytes_to_write: 13_800 });
    let later = SoundOutput { running_sample_index: 10_000, ..output };
    assert_eq!(later.write_window(30_000), SoundWindow { byte_to_lock: 40_000, bytes_to_write: 2_800 });
    assert_eq!(later.write_window(27_200), SoundWindow { byte_to_lock: 40_000, bytes_to_write: 0 });
}

#[test]
fn sound_window_goes_around_the_end_of_the_ring() {
    let output = SoundOutput {
        samples_per_second: 48_000,
        bytes_per_sample: 4,
        secondary_buffer_size: 192_000,
        running_sample_index: 47_000,
        latency_sample_count: 3_200,
    };
    assert_eq!(output.write_window(180_000), SoundWindow { byte_to_lock: 188_000, bytes_to_write: 4_800 });
    assert_eq!(output.write_window(100_000), SoundWindow { byte_to_lock: 188_000, bytes_to_write: 116_800 });
    let wrapped = SoundOutput { running_sample_index: 48_000 * 5 + 7, ..output };
    assert_eq!(wrapped.write_window(0), SoundWindow { byte_to_lock: 28, bytes_to_write: 12_772 });
    let large = SoundOutput { running_sample_index: u32::MAX, bytes_per_sample: u32::MAX, latency_sample_count: u32::MAX, secondary_buffer_size: 1000, ..output };
    let window = large.write_window(u32::MAX);
    assert_eq!(window.byte_to_lock, ((u32::MAX as u64 * u32::MAX as u64) % 1000) as u32);
    assert_eq!(window.bytes_to_write, 295);
}

#[test]
fn written_samples_are_counted() {
    let mut output = SoundOutput {
        samples_per_second: 48_000,
        bytes_per_sample: 4,
        secondary_buffer_size: 192_000,
        running_sample_index: 10,
        latency_sample_count: 3_200,
    };
    output.advance(4_000);
    assert_eq!(output.running_sample_index, 1_010);
    output.advance(7);
    assert_eq!(output.running_sample_index, 1_011);
    output.advance(0);
    assert_eq!(output.running_sample_index, 1_011);
    output.running_sample_index = u32::MAX;
    output.advance(8);
    assert_eq!(output.running_sample_index, 1);
    assert_eq!(output.secondary_buffer_size, 192_000);
}

#[test]
fn sound_buffer_asks_for_the_samples_of_the_window() {
    let output = SoundOutput {
        samples_per_second: 48_000,
        bytes_per_sample: 4,
        secondary_buffer_size: 192_000,
        running_sample_index: 0,
        latency_sample_count: 3_200,
    };
    let buffer = output.sound_buffer(SoundWindow { byte_to_lock: 0, bytes_to_write: 12_803 });
    assert_eq!(buffer.sample_count, 3_200);
    assert_eq!(buffer.samples_per_second, 48_000);
    assert!(buffer.samples.is_empty());
    let none = output.sound_buffer(SoundWindow { byte_to_lock: 5, bytes_to_write: 3 });
    assert_eq!(none.sample_count, 0);
}

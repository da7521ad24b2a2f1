//! What the platform layer decides between its calls into the system:
//! the state of buttons, what a key message means, and which part of the
//! ring of sound is to be written next.

use vstd::prelude::*;

verus! {

/// Key code of the escape key.
pub const VK_ESCAPE: i32 = 0x1b;

/// Key code of the F4 key.
pub const VK_F4: i32 = 0x73;

/// A button over one step: whether it was down at the end of the step,
/// and the count of its transitions.
#[derive(Clone, Copy, Debug, PartialEq, Eq, Structural)]
pub struct GameButtonState {
    pub half_transition_count: u32,
    pub ended_down: bool,
}

/// Whether every bit of `button_bit` is set in `buttons`.
pub open spec fn button_is_down(buttons: u16, button_bit: u16) -> bool {
    buttons & button_bit == button_bit
}

/// The state of a button after a step, from the buttons that the pad
/// reports and the state before: the button is down if its bit is set;
/// the count is 1 where the button is as it was, and 0 where it changed.
pub fn process_xinput_digital_button(
    xinput_button_state: u16,
    old_state: &GameButtonState,
    button_bit: u16,
    new_state: &mut GameButtonState,
)
    ensures
        final(new_state).ended_down == button_is_down(xinput_button_state, button_bit),
        final(new_state).half_transition_count == if old_state.ended_down == button_is_down(
            xinput_button_state,
            button_bit,
        ) {
            1u32
        } else {
            0u32
        },
{
    new_state.ended_down = (xinput_button_state & button_bit) == button_bit;
    new_state.half_transition_count = if old_state.ended_down == new_state.ended_down {
        1
    } else {
        0
    };
}

/// What a key message says of its key.
#[derive(Clone, Copy, Debug, PartialEq, Eq, Structural)]
pub struct KeyState {
    pub was_down: bool,
    pub is_down: bool,
    pub alt_down: bool,
}

/// Whether bit `bit` of `value` is set.
pub open spec fn has_bit(value: u64, bit: u64) -> bool {
    value & (1u64 << bit) != 0
}

/// Reads the state of the key from the flags of a key message: bit 30
/// for "was down", bit 31 for "is down", bit 29 for the alt key.
pub fn decode_key_message(lparam: u64) -> (state: KeyState)
    ensures
        state.was_down == has_bit(lparam, 30),
        state.is_down == has_bit(lparam, 31),
        state.alt_down == has_bit(lparam, 29),
{
    KeyState {
        was_down: lparam & (1u64 << 30u64) != 0,
        is_down: lparam & (1u64 << 31u64) != 0,
        alt_down: lparam & (1u64 << 29u64) != 0,
    }
}

/// Whether a key message asks the program to end: the escape key, or F4
/// with the alt key, is reported down.
pub fn key_asks_to_quit(vk_code: i32, state: KeyState) -> (quit: bool)
    ensures
        quit == (state.is_down && (vk_code == VK_ESCAPE || (state.alt_down && vk_code == VK_F4))),
{
    state.is_down && (vk_code == VK_ESCAPE || state.alt_down && vk_code == VK_F4)
}

/// The ring of sound that the sound card plays: how large it is, how
/// many samples were written so far, and how far ahead of the play
/// cursor the game writes.
#[derive(Clone, Copy, Debug, PartialEq, Eq, Structural)]
pub struct SoundOutput {
    pub samples_per_second: u32,
    pub bytes_per_sample: u32,
    pub secondary_buffer_size: u32,
    pub running_sample_index: u32,
    pub latency_sample_count: u32,
}

/// The samples that the game is asked for in one step: `sample_count`
/// samples, each with a value for the left and one for the right.
pub struct GameSoundOutputBuffer {
    pub samples: Vec<i16>,
    pub sample_count: u32,
    pub samples_per_second: u32,
}

/// The part of the ring to write next: `bytes_to_write` bytes from
/// `byte_to_lock` on, around the end of the ring where they pass it.
#[derive(Clone, Copy, Debug, PartialEq, Eq, Structural)]
pub struct SoundWindow {
    pub byte_to_lock: u32,
    pub bytes_to_write: u32,
}

impl SoundOutput {
    /// Where in the ring the next sample is written.
    pub open spec fn write_position(self) -> int {
        (self.running_sample_index * self.bytes_per_sample) % (self.secondary_buffer_size as int)
    }

    /// Up to where in the ring the game writes, for a play cursor at
    /// `play_cursor`.
    pub open spec fn target_position(self, play_cursor: u32) -> int {
        (play_cursor + self.latency_sample_count * self.bytes_per_sample) % (
        self.secondary_buffer_size as int)
    }

    /// Number of bytes from the write position on, around the ring, to
    /// the target position.
    pub open spec fn bytes_ahead(self, play_cursor: u32) -> int {
        (self.target_position(play_cursor) - self.write_position()) % (
        self.secondary_buffer_size as int)
    }

    /// The part of the ring to write next, for a play cursor at
    /// `play_cursor`: from the write position on, up to the target
    /// position.
    pub fn write_window(&self, play_cursor: u32) -> (window: SoundWindow)
        requires
            self.secondary_buffer_size > 0,
        ensures
            window.byte_to_lock == self.write_position(),
            window.bytes_to_write == self.bytes_ahead(play_cursor),
            window.byte_to_lock < self.secondary_buffer_size,
            window.bytes_to_write < self.secondary_buffer_size,
    {
        let size: u64 = self.secondary_buffer_size as u64;
        assert(0 <= self.running_sample_index * self.bytes_per_sample <= 0xffff_ffff * 0xffff_ffff)
            by (nonlinear_arith)
            requires
                0 <= self.running_sample_index <= 0xffff_ffff,
                0 <= self.bytes_per_sample <= 0xffff_ffff,
        ;
        assert(0 <= self.latency_sample_count * self.bytes_per_sample <= 0xffff_ffff * 0xffff_ffff)
            by (nonlinear_arith)
            requires
                0 <= self.latency_sample_count <= 0xffff_ffff,
                0 <= self.bytes_per_sample <= 0xffff_ffff,
        ;
        let byte_to_lock: u64 = (self.running_sample_index as u64 * self.bytes_per_sample as u64)
            % size;
        let target_cursor: u64 = (play_cursor as u64 + self.latency_sample_count as u64
            * self.bytes_per_sample as u64) % size;
        let bytes_to_write: u64 = if byte_to_lock > target_cursor {
            (size - byte_to_lock) + target_cursor
        } else {
            target_cursor - byte_to_lock
        };
        proof {
            let d = target_cursor as int - byte_to_lock as int;
            if byte_to_lock > target_cursor {
                vstd::arithmetic::div_mod::lemma_fundamental_div_mod_converse(
                    d,
                    size as int,
                    -1,
                    bytes_to_write as int,
                );
            } else {
                vstd::arithmetic::div_mod::lemma_fundamental_div_mod_converse(
                    d,
                    size as int,
                    0,
                    bytes_to_write as int,
                );
            }
        }
        SoundWindow { byte_to_lock: byte_to_lock as u32, bytes_to_write: bytes_to_write as u32 }
    }

    /// An empty buffer for the samples that fill `window`.
    pub fn sound_buffer(&self, window: SoundWindow) -> (buffer: GameSoundOutputBuffer)
        requires
            self.bytes_per_sample > 0,
        ensures
            buffer.samples@.len() == 0,
            buffer.sample_count == window.bytes_to_write / self.bytes_per_sample,
            buffer.samples_per_second == self.samples_per_second,
    {
        GameSoundOutputBuffer {
            samples: Vec::new(),
            sample_count: window.bytes_to_write / self.bytes_per_sample,
            samples_per_second: self.samples_per_second,
        }
    }

    /// Counts the samples written into a region of `region_size` bytes of
    /// the ring. The count of samples wraps around at `2^32`.
    pub fn advance(&mut self, region_size: u32)
        requires
            old(self).bytes_per_sample > 0,
        ensures
            final(self).running_sample_index == (old(self).running_sample_index + region_size
                / old(self).bytes_per_sample) % 0x1_0000_0000,
            final(self).samples_per_second == old(self).samples_per_second,
            final(self).bytes_per_sample == old(self).bytes_per_sample,
            final(self).secondary_buffer_size == old(self).secondary_buffer_size,
            final(self).latency_sample_count == old(self).latency_sample_count,
    {
        let count: u32 = region_size / self.bytes_per_sample;
        self.running_sample_index = self.running_sample_index.wrapping_add(count);
    }
}

} // verus!

//! The immutable settings object that selects a wire representation for
//! byte buffers.

use vstd::prelude::*;

verus! {

/// Wire representation chosen for byte buffers.
#[derive(Clone, Copy, PartialEq, Eq, Structural, Debug)]
pub enum ByteMode {
    /// A JSON array of integers, one per byte, each in `0..=255`.
    Array,
    /// A JSON string of hex digit pairs, lowercase on output,
    /// `0x`-prefixed when the prefix option is on.
    Hex,
    /// A JSON string of standard base64 with `=` padding.
    Base64,
}

/// Immutable value object describing one encode or decode run: the wire
/// shape for byte buffers, and whether hex output carries a `0x` prefix.
///
/// Every combination of fields is valid; the prefix option simply has no
/// effect outside `Hex` mode.  Mutators return an updated copy and compose
/// by chaining.
#[derive(Clone, Copy, PartialEq, Eq, Structural, Debug)]
pub struct Config {
    pub byte_mode: ByteMode,
    pub hex_prefix_enabled: bool,
}

impl Config {
    /// The starting configuration: byte buffers as integer arrays, no prefix.
    pub fn new() -> (r: Config)
        ensures
            r == (Config { byte_mode: ByteMode::Array, hex_prefix_enabled: false }),
    {
        Config { byte_mode: ByteMode::Array, hex_prefix_enabled: false }
    }

    /// Selects hex strings for byte buffers; every other field is kept.
    pub fn set_bytes_hex(self) -> (r: Config)
        ensures
            r == (Config { byte_mode: ByteMode::Hex, hex_prefix_enabled: self.hex_prefix_enabled }),
    {
        Config { byte_mode: ByteMode::Hex, hex_prefix_enabled: self.hex_prefix_enabled }
    }

    /// Selects base64 strings for byte buffers; every other field is kept.
    pub fn set_bytes_base64(self) -> (r: Config)
        ensures
            r == (Config {
                byte_mode: ByteMode::Base64,
                hex_prefix_enabled: self.hex_prefix_enabled,
            }),
    {
        Config { byte_mode: ByteMode::Base64, hex_prefix_enabled: self.hex_prefix_enabled }
    }

    /// Selects integer arrays for byte buffers; every other field is kept.
    pub fn set_bytes_array(self) -> (r: Config)
        ensures
            r == (Config {
                byte_mode: ByteMode::Array,
                hex_prefix_enabled: self.hex_prefix_enabled,
            }),
    {
        Config { byte_mode: ByteMode::Array, hex_prefix_enabled: self.hex_prefix_enabled }
    }

    /// Turns the `0x` prefix on for hex output; every other field is kept.
    pub fn enable_hex_prefix(self) -> (r: Config)
        ensures
            r == (Config { byte_mode: self.byte_mode, hex_prefix_enabled: true }),
    {
        Config { byte_mode: self.byte_mode, hex_prefix_enabled: true }
    }

    /// Turns the `0x` prefix off for hex output; every other field is kept.
    pub fn disable_hex_prefix(self) -> (r: Config)
        ensures
            r == (Config { byte_mode: self.byte_mode, hex_prefix_enabled: false }),
    {
        Config { byte_mode: self.byte_mode, hex_prefix_enabled: false }
    }
}

impl Default for Config {
    /// Same value as [`Config::new`].
    fn default() -> (r: Config)
        ensures
            r == (Config { byte_mode: ByteMode::Array, hex_prefix_enabled: false }),
    {
        Config::new()
    }
}

} // verus!

//! The multi-byte conversion state carried between decoding calls. The
//! collation engine itself works on decoded scalar values; this state belongs
//! to the decoding collaborator's interface.

use vstd::prelude::*;

verus! {

/// Conversion state of a multi-byte decode in progress.
#[derive(Clone, Copy)]
pub struct MBState {
    /// The code point under construction.
    pub ch: u32,
    /// How many continuation bytes are still expected.
    pub bytesleft: usize,
    /// The partial scalar value accumulated so far.
    pub partial: u32,
    /// The smallest scalar value the pending form may encode.
    pub lowerbound: u32,
    /// Encoded bytes waiting to be handed out.
    pub u8_buffer: [u8; 4],
    /// How many of the buffered bytes were handed out.
    pub u8_position: usize,
    /// Encoded units waiting to be handed out.
    pub u16_buffer: [u16; 2],
    /// A pending high surrogate, or a value outside the surrogate range.
    pub u16_surrogate: u16,
}

/// A state with no conversion in progress and nothing buffered.
pub open spec fn spec_initial(s: MBState) -> bool {
    &&& s.ch == 0
    &&& s.bytesleft == 0
    &&& s.partial == 0
    &&& s.lowerbound == 0
    &&& s.u8_buffer@ == seq![0u8, 0u8, 0u8, 0u8]
    &&& s.u8_position == 0
    &&& s.u16_buffer@ == seq![0u16, 0u16]
    &&& s.u16_surrogate == 0
}

impl MBState {
    /// The initial conversion state.
    pub fn new() -> (s: MBState)
        ensures
            spec_initial(s),
    {
        let s = MBState {
            ch: 0,
            bytesleft: 0,
            partial: 0,
            lowerbound: 0,
            u8_buffer: [0, 0, 0, 0],
            u8_position: 0,
            u16_buffer: [0, 0],
            u16_surrogate: 0,
        };
        proof {
            assert(s.u8_buffer@ =~= seq![0u8, 0u8, 0u8, 0u8]);
            assert(s.u16_buffer@ =~= seq![0u16, 0u16]);
        }
        s
    }

    /// Whether the state describes no conversion in progress: nothing
    /// accumulated and no pending surrogate.
    pub fn is_initial(&self) -> (r: bool)
        ensures
            r == (self.ch == 0 && self.bytesleft == 0 && !(0xD800 <= self.u16_surrogate
                <= 0xDFFF)),
    {
        self.ch == 0 && self.bytesleft == 0 && (self.u16_surrogate < 0xD800 || self.u16_surrogate
            > 0xDFFF)
    }

    /// Returns the state to the initial one.
    pub fn reset(&mut self)
        ensures
            spec_initial(*final (self)),
    {
        self.ch = 0;
        self.bytesleft = 0;
        self.partial = 0;
        self.lowerbound = 0;
        self.u8_buffer = [0, 0, 0, 0];
        self.u8_position = 0;
        self.u16_buffer = [0, 0];
        self.u16_surrogate = 0;
        proof {
            assert(self.u8_buffer@ =~= seq![0u8, 0u8, 0u8, 0u8]);
            assert(self.u16_buffer@ =~= seq![0u16, 0u16]);
        }
    }
}

} // verus!

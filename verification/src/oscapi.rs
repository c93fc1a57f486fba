//! The host interface: constants, parameter blocks, the hook table and the
//! dispatch layer that binds an oscillator to it.

use vstd::prelude::*;

pub mod dispatch;
pub mod hooks;
pub mod lut;

verus! {

/// Samples per second of the host's audio path.
pub const SAMPLERATE: u32 = 48_000;

/// The parameter block that the host hands to the audio and note callbacks.
#[derive(Clone, Copy, Debug)]
pub struct UserOscParam {
    pub shape_lfo: i32,
    /// High byte: note number. Low byte: fine modulation towards the next note.
    pub pitch: u16,
    pub cutoff: u16,
    pub resonance: u16,
    pub reserved0: [u16; 3],
}

impl Default for UserOscParam {
    /// The block with every field zero.
    fn default() -> (params: Self)
        ensures
            params.shape_lfo == 0,
            params.pitch == 0,
            params.cutoff == 0,
            params.resonance == 0,
            params.reserved0@ == seq![0u16, 0u16, 0u16],
    {
        let params = UserOscParam {
            shape_lfo: 0,
            pitch: 0,
            cutoff: 0,
            resonance: 0,
            reserved0: [0, 0, 0],
        };
        assert(params.reserved0@ =~= seq![0u16, 0u16, 0u16]);
        params
    }
}

/// The size in bytes of the parameter block as the host lays it out.
pub const USER_OSC_PARAM_SIZE: usize = 16;

/// The 16-bit number whose bytes are `lo` and `hi`.
pub open spec fn le_u16(lo: u8, hi: u8) -> u16 {
    (lo + 0x100 * hi) as u16
}

/// The signed 32-bit number whose bytes, least significant first, are `b0` to `b3`.
pub open spec fn le_i32(b0: u8, b1: u8, b2: u8, b3: u8) -> i32 {
    let unsigned = b0 + 0x100 * b1 + 0x1_0000 * b2 + 0x100_0000 * b3;
    if unsigned >= 0x8000_0000 {
        (unsigned - 0x1_0000_0000) as i32
    } else {
        unsigned as i32
    }
}

/// The 16-bit number whose bytes are `lo` and `hi`.
fn read_u16(lo: u8, hi: u8) -> (x: u16)
    ensures
        x == le_u16(lo, hi),
{
    lo as u16 + 0x100 * (hi as u16)
}

impl UserOscParam {
    /// The block that the host lays out as `bytes`: the shape LFO in four
    /// bytes, then pitch, cutoff, resonance and three reserved numbers in two
    /// bytes each, every number least significant byte first.
    pub open spec fn parse(bytes: Seq<u8>) -> UserOscParam {
        UserOscParam {
            shape_lfo: le_i32(bytes[0], bytes[1], bytes[2], bytes[3]),
            pitch: le_u16(bytes[4], bytes[5]),
            cutoff: le_u16(bytes[6], bytes[7]),
            resonance: le_u16(bytes[8], bytes[9]),
            reserved0: [
                le_u16(bytes[10], bytes[11]),
                le_u16(bytes[12], bytes[13]),
                le_u16(bytes[14], bytes[15]),
            ],
        }
    }

    /// Reads the block as the host lays it out.
    pub fn from_bytes(bytes: &[u8; 16]) -> (params: Self)
        ensures
            params == Self::parse(bytes@),
    {
        let unsigned: u32 = bytes[0] as u32 + 0x100 * (bytes[1] as u32)
            + 0x1_0000 * (bytes[2] as u32) + 0x100_0000 * (bytes[3] as u32);
        let shape_lfo: i32 = if unsigned >= 0x8000_0000 {
            (unsigned - 0x8000_0000) as i32 + i32::MIN
        } else {
            unsigned as i32
        };
        let params = UserOscParam {
            shape_lfo,
            pitch: read_u16(bytes[4], bytes[5]),
            cutoff: read_u16(bytes[6], bytes[7]),
            resonance: read_u16(bytes[8], bytes[9]),
            reserved0: [
                read_u16(bytes[10], bytes[11]),
                read_u16(bytes[12], bytes[13]),
                read_u16(bytes[14], bytes[15]),
            ],
        };
        assert(params.reserved0 =~= Self::parse(bytes@).reserved0);
        params
    }

    /// The note number: the high byte of the pitch.
    pub open spec fn note_spec(&self) -> u8 {
        (self.pitch / 256) as u8
    }

    /// The fine modulation: the low byte of the pitch.
    pub open spec fn fine_spec(&self) -> u8 {
        (self.pitch % 256) as u8
    }

    /// The note number.
    pub fn note(&self) -> (note: u8)
        ensures
            note == self.note_spec(),
    {
        let pitch = self.pitch;
        assert(pitch >> 8 == pitch / 256) by (bit_vector);
        (pitch >> 8) as u8
    }

    /// The fine modulation.
    pub fn fine(&self) -> (fine: u8)
        ensures
            fine == self.fine_spec(),
    {
        let pitch = self.pitch;
        assert(pitch & 0xff == pitch % 256) by (bit_vector);
        (pitch & 0xff) as u8
    }
}

/// The hardware family a plugin is built for.
#[derive(Clone, Copy, Debug, PartialEq, Eq, Structural)]
pub enum Platform {
    Prologue,
    MinilogueXD,
    NutektDigital,
}

impl Platform {
    /// The byte by which the host identifies the family.
    pub open spec fn byte(self) -> u8 {
        match self {
            Platform::Prologue => 1,
            Platform::MinilogueXD => 2,
            Platform::NutektDigital => 3,
        }
    }

    /// The byte by which the host identifies the family.
    pub fn to_byte(&self) -> (b: u8)
        ensures
            b == self.byte(),
    {
        match *self {
            Platform::Prologue => 1,
            Platform::MinilogueXD => 2,
            Platform::NutektDigital => 3,
        }
    }
}

/// A parameter that the host can set.
#[derive(Clone, Copy, Debug, PartialEq, Eq, Structural)]
pub enum OscParam {
    Param1,
    Param2,
    Param3,
    Param4,
    Param5,
    Param6,
    ParamShape,
    ParamShiftShape,
}

impl OscParam {
    /// The index by which the host names the parameter.
    pub open spec fn index(self) -> u16 {
        match self {
            OscParam::Param1 => 0,
            OscParam::Param2 => 1,
            OscParam::Param3 => 2,
            OscParam::Param4 => 3,
            OscParam::Param5 => 4,
            OscParam::Param6 => 5,
            OscParam::ParamShape => 6,
            OscParam::ParamShiftShape => 7,
        }
    }

    /// The parameter that the host names by `x`, if it names one.
    pub open spec fn of_index(x: u16) -> Option<OscParam> {
        if x == 0 {
            Some(OscParam::Param1)
        } else if x == 1 {
            Some(OscParam::Param2)
        } else if x == 2 {
            Some(OscParam::Param3)
        } else if x == 3 {
            Some(OscParam::Param4)
        } else if x == 4 {
            Some(OscParam::Param5)
        } else if x == 5 {
            Some(OscParam::Param6)
        } else if x == 6 {
            Some(OscParam::ParamShape)
        } else if x == 7 {
            Some(OscParam::ParamShiftShape)
        } else {
            None
        }
    }
}

/// The host names eight parameters, by the indices 0 to 7, and each
/// parameter is the one that its own index names.
pub proof fn lemma_param_indices(x: u16, param: OscParam)
    ensures
        OscParam::of_index(x).is_some() <==> x <= 7,
        OscParam::of_index(x) == Some(param) <==> x == param.index(),
{
}

impl TryFrom<u16> for OscParam {
    type Error = ();

    /// The parameter that the host names by `x`, or an error for an index that names none.
    fn try_from(x: u16) -> (r: Result<OscParam, ()>) {
        match x {
            0 => Ok(OscParam::Param1),
            1 => Ok(OscParam::Param2),
            2 => Ok(OscParam::Param3),
            3 => Ok(OscParam::Param4),
            4 => Ok(OscParam::Param5),
            5 => Ok(OscParam::Param6),
            6 => Ok(OscParam::ParamShape),
            7 => Ok(OscParam::ParamShiftShape),
            _ => Err(()),
        }
    }
}

impl vstd::std_specs::convert::TryFromSpecImpl<u16> for OscParam {
    open spec fn obeys_try_from_spec() -> bool {
        true
    }

    open spec fn try_from_spec(x: u16) -> Result<OscParam, ()> {
        match OscParam::of_index(x) {
            Some(param) => Ok(param),
            None => Err(()),
        }
    }
}

/// An oscillator: what the host can ask of a plugin.
///
/// Each method comes with a relation that says what the method may do, and
/// the dispatch layer promises of each call what the relation of the called
/// method says. Unless an oscillator states otherwise, a call other than
/// `init` leaves the oscillator, and the buffer, as they were.
pub trait UserOsc: Sized {
    /// The family the oscillator is built for.
    const PLATFORM: Platform;

    /// What `init` may return for the host's platform and interface version.
    open spec fn init_ensures(platform: u32, api: u32, osc: Self) -> bool {
        true
    }

    /// What `cycle` may do to the oscillator and to the buffer.
    open spec fn cycle_ensures(
        self,
        params: UserOscParam,
        buf: Seq<i32>,
        after: Self,
        filled: Seq<i32>,
    ) -> bool {
        after == self && filled == buf
    }

    /// What `note_on` may do to the oscillator.
    open spec fn note_on_ensures(self, params: UserOscParam, after: Self) -> bool {
        after == self
    }

    /// What `note_off` may do to the oscillator.
    open spec fn note_off_ensures(self, params: UserOscParam, after: Self) -> bool {
        after == self
    }

    /// What `mute` may do to the oscillator.
    open spec fn mute_ensures(self, params: UserOscParam, after: Self) -> bool {
        after == self
    }

    /// What `value` may do to the oscillator.
    open spec fn value_ensures(self, value: u16, after: Self) -> bool {
        after == self
    }

    /// What `param` may do to the oscillator.
    open spec fn param_ensures(self, param: OscParam, value: u16, after: Self) -> bool {
        after == self
    }

    /// Builds the oscillator.
    fn init(platform: u32, api: u32) -> (osc: Self)
        ensures
            Self::init_ensures(platform, api, osc),
    ;

    /// Fills `buf` with the next samples.
    fn cycle(&mut self, params: &UserOscParam, buf: &mut [i32])
        ensures
            final(buf)@.len() == old(buf)@.len(),
            old(self).cycle_ensures(*params, old(buf)@, *final(self), final(buf)@),
    ;

    /// A note starts.
    fn note_on(&mut self, params: &UserOscParam)
        ensures
            old(self).note_on_ensures(*params, *final(self)),
    ;

    /// A note ends.
    fn note_off(&mut self, params: &UserOscParam)
        ensures
            old(self).note_off_ensures(*params, *final(self)),
    ;

    /// The host mutes the oscillator.
    fn mute(&mut self, params: &UserOscParam)
        ensures
            old(self).mute_ensures(*params, *final(self)),
    ;

    /// The host sets the oscillator's value.
    fn value(&mut self, value: u16)
        ensures
            old(self).value_ensures(value, *final(self)),
    ;

    /// The host sets a parameter.
    fn param(&mut self, param: OscParam, value: u16)
        ensures
            old(self).param_ensures(param, value, *final(self)),
    ;
}

} // verus!

//! An FSK modem sequencer: a byte buffer becomes one tone per output sample,
//! framed as asynchronous serial data with one start bit, eight data bits and
//! one stop bit.

use core::marker::PhantomData;
use vstd::arithmetic::div_mod::{
    lemma_div_denominator, lemma_fundamental_div_mod_converse,
};
use vstd::prelude::*;

use crate::oscapi::{UserOscParam, SAMPLERATE};

verus! {

/// One of the two tones of the modulation.
#[derive(Clone, Copy, Debug, PartialEq, Eq, Structural)]
pub enum Tone {
    /// The tone of a cleared bit, and of the start bit.
    Space,
    /// The tone of a set bit, of the stop bit, of the carrier and of an idle line.
    Mark,
}

/// Bits in the frame of one byte: start, eight data bits, stop.
pub const FRAME_BITS: usize = 10;

/// Samples of mark tone that precede the framed data of a transmission: 50 ms.
pub const CARRIER_SAMPLES: usize = (SAMPLERATE / 20) as usize;

/// The timing and the tones of a modem.
///
/// A tone is given by its frequency in cycles per sample, the increment of
/// the phase from one sample to the next: a single-precision number, held as
/// its bit pattern.
pub trait ModemParams {
    /// How many samples one bit is held for.
    const SAMPLES_PER_BIT: usize;

    /// The increment of the space tone.
    const ZERO_W0: u32;

    /// The increment of the mark tone.
    const ONE_W0: u32;
}

/// 300 bits per second at the host's sample rate, on the tones of the
/// calling modem: 1070 Hz for space, 1270 Hz for mark.
pub struct Bell103 {}

impl ModemParams for Bell103 {
    const SAMPLES_PER_BIT: usize = SAMPLERATE as usize / 300;

    const ZERO_W0: u32 = 0x3cb6_9d03;

    const ONE_W0: u32 = 0x3cd8_bf25;
}

/// The timing and the tones of `Bell103`.
pub proof fn lemma_bell103()
    ensures
        Bell103::SAMPLES_PER_BIT == 160,
        Bell103::ZERO_W0 == 0x3cb6_9d03,
        Bell103::ONE_W0 == 0x3cd8_bf25,
{
}

/// One sample per bit, with zero for space and one for mark, to read a
/// transmission bit by bit.
pub struct DebugModem {}

impl ModemParams for DebugModem {
    const SAMPLES_PER_BIT: usize = 1;

    const ZERO_W0: u32 = 0;

    const ONE_W0: u32 = 0x3f80_0000;
}

/// The timing and the tones of `DebugModem`.
pub proof fn lemma_debug_modem()
    ensures
        DebugModem::SAMPLES_PER_BIT == 1,
        DebugModem::ZERO_W0 == 0,
        DebugModem::ONE_W0 == 0x3f80_0000,
{
}

impl Tone {
    /// The increment of the tone in the modem `T`.
    pub open spec fn w0_spec<T: ModemParams>(self) -> u32 {
        match self {
            Tone::Space => T::ZERO_W0,
            Tone::Mark => T::ONE_W0,
        }
    }

    /// The increment of the tone in the modem `T`.
    pub fn w0<T: ModemParams>(self) -> (w0: u32)
        ensures
            w0 == self.w0_spec::<T>(),
    {
        match self {
            Tone::Space => T::ZERO_W0,
            Tone::Mark => T::ONE_W0,
        }
    }
}

/// Whether bit `k` of `byte` is set, bit 0 being the least significant.
pub open spec fn data_bit(byte: u8, k: u8) -> bool {
    (byte >> k) & 1 == 1
}

/// The tone of bit `bit` of the frame of `byte`: bit 0 is the start bit,
/// bits 1 to 8 are the data bits, least significant first, bit 9 is the stop bit.
pub open spec fn frame_bit(byte: u8, bit: int) -> Tone {
    if bit <= 0 {
        Tone::Space
    } else if bit <= 8 {
        if data_bit(byte, (bit - 1) as u8) {
            Tone::Mark
        } else {
            Tone::Space
        }
    } else {
        Tone::Mark
    }
}

/// The number of samples that the frames of `len` bytes take at `n` samples
/// per bit. At no samples per bit there is nothing to send.
pub open spec fn frame_samples(len: nat, n: nat) -> nat {
    len * 10 * n
}

/// The tone of sample `k` of the framed bytes `buf` at `n` samples per bit.
pub open spec fn tone_at(buf: Seq<u8>, n: nat, k: nat) -> Tone
    recommends
        n > 0,
        k < frame_samples(buf.len(), n),
{
    frame_bit(buf[(k / (10 * n)) as int], ((k / n) % 10) as int)
}

/// The framed bytes `buf` at `n` samples per bit, one tone per sample.
pub open spec fn encode(buf: Seq<u8>, n: nat) -> Seq<Tone> {
    Seq::new(frame_samples(buf.len(), n), |k: int| tone_at(buf, n, k as nat))
}

/// The place of a sample in the framed data, counted in samples from its start.
pub open spec fn sample_index(byte_off: nat, bit_off: nat, sample_off: nat, n: nat) -> nat {
    (byte_off * 10 + bit_off) * n + sample_off
}

/// Sample `sample_off` of bit `bit_off` of byte `byte_off` lies where its index says.
pub proof fn lemma_sample_index(byte_off: nat, bit_off: nat, sample_off: nat, n: nat)
    requires
        bit_off < 10,
        sample_off < n,
    ensures
        sample_index(byte_off, bit_off, sample_off, n) / (10 * n) == byte_off,
        (sample_index(byte_off, bit_off, sample_off, n) / n) % 10 == bit_off,
        sample_index(byte_off, bit_off, sample_off, n) < frame_samples(byte_off + 1, n),
{
    let k = sample_index(byte_off, bit_off, sample_off, n) as int;
    let q = (byte_off * 10 + bit_off) as int;
    assert(k == q * n + sample_off);
    assert(k == (n as int) * q + sample_off) by (nonlinear_arith)
        requires
            k == q * n + sample_off,
    ;
    lemma_fundamental_div_mod_converse(k, n as int, q, sample_off as int);
    assert(k / (n as int) == q);
    lemma_fundamental_div_mod_converse(q, 10, byte_off as int, bit_off as int);
    lemma_div_denominator(k, n as int, 10);
    assert((n as int) * 10 == 10 * n);
    assert(k < (byte_off + 1) * 10 * n) by (nonlinear_arith)
        requires
            k == q * n + sample_off,
            q == byte_off * 10 + bit_off,
            bit_off < 10,
            sample_off < n,
    ;
}

/// In the framed data, every bit of every frame is held for `n` samples:
/// sample `sample_off` of bit `bit_off` of byte `byte_off` has the tone of that bit.
pub proof fn lemma_tone_at(buf: Seq<u8>, n: nat, byte_off: nat, bit_off: nat, sample_off: nat)
    requires
        byte_off < buf.len(),
        bit_off < 10,
        sample_off < n,
    ensures
        sample_index(byte_off, bit_off, sample_off, n) < frame_samples(buf.len(), n),
        tone_at(buf, n, sample_index(byte_off, bit_off, sample_off, n)) == frame_bit(
            buf[byte_off as int],
            bit_off as int,
        ),
        encode(buf, n)[sample_index(byte_off, bit_off, sample_off, n) as int] == frame_bit(
            buf[byte_off as int],
            bit_off as int,
        ),
{
    lemma_sample_index(byte_off, bit_off, sample_off, n);
    let len = buf.len();
    assert((byte_off + 1) * 10 * n <= len * 10 * n) by (nonlinear_arith)
        requires
            byte_off + 1 <= len,
    ;
}

/// The position in a transmission: which sample of which bit of which byte comes next.
pub struct SampleIter<T: ModemParams> {
    buf: &'static [u8],
    byte_off: usize,
    bit_off: usize,
    sample_off: usize,
    params: PhantomData<T>,
}

impl<T: ModemParams> SampleIter<T> {
    /// The bytes under transmission.
    pub closed spec fn buffer(&self) -> Seq<u8> {
        self.buf@
    }

    /// How many samples have been produced.
    pub closed spec fn position(&self) -> nat {
        sample_index(
            self.byte_off as nat,
            self.bit_off as nat,
            self.sample_off as nat,
            T::SAMPLES_PER_BIT as nat,
        )
    }

    /// How many samples the whole transmission takes.
    pub open spec fn total(&self) -> nat {
        frame_samples(self.buffer().len(), T::SAMPLES_PER_BIT as nat)
    }

    /// The offsets name a sample of the transmission, or its end.
    pub closed spec fn wf(&self) -> bool {
        &&& self.sample_off <= T::SAMPLES_PER_BIT
        &&& self.bit_off < 10
        &&& self.byte_off <= self.buf@.len()
        &&& self.byte_off == self.buf@.len() ==> self.bit_off == 0 && self.sample_off == 0
    }

    /// The tones still to come.
    pub open spec fn remaining(&self) -> Seq<Tone> {
        encode(self.buffer(), T::SAMPLES_PER_BIT as nat).skip(self.position() as int)
    }

    /// A well-formed position lies within the transmission or at its end.
    pub proof fn lemma_position_bound(&self)
        requires
            self.wf(),
        ensures
            self.position() <= self.total(),
    {
        let n = T::SAMPLES_PER_BIT as nat;
        if self.byte_off < self.buf@.len() {
            let q = (self.byte_off * 10 + self.bit_off) as nat;
            let s = self.sample_off as nat;
            let len = self.buf@.len();
            assert(q * n + s <= len * 10 * n) by (nonlinear_arith)
                requires
                    q + 1 <= len * 10,
                    s <= n,
            ;
        } else {
            let len = self.buf@.len();
            assert((len * 10 + 0) * n + 0 == len * 10 * n) by (nonlinear_arith);
        }
    }

    /// Starts a transmission of `buf` at its first sample.
    pub fn new(buf: &'static [u8]) -> (iter: Self)
        ensures
            iter.wf(),
            iter.buffer() == buf@,
            iter.position() == 0,
    {
        let iter = SampleIter { buf, byte_off: 0, bit_off: 0, sample_off: 0, params: PhantomData };
        assert((0 * 10 + 0) * (T::SAMPLES_PER_BIT as nat) + 0 == 0) by (nonlinear_arith);
        iter
    }

    /// The tone of the next sample, or `None` once every byte has been sent.
    pub fn next(&mut self) -> (tone: Option<Tone>)
        requires
            old(self).wf(),
        ensures
            final(self).wf(),
            final(self).buffer() == old(self).buffer(),
            old(self).position() < old(self).total() ==> tone == Some(
                tone_at(old(self).buffer(), T::SAMPLES_PER_BIT as nat, old(self).position()),
            ) && final(self).position() == old(self).position() + 1,
            old(self).position() >= old(self).total() ==> tone.is_none()
                && final(self).position() == old(self).position(),
            old(self).remaining().len() > 0 ==> tone == Some(old(self).remaining()[0])
                && final(self).remaining() == old(self).remaining().skip(1),
            old(self).remaining().len() == 0 ==> tone.is_none()
                && final(self).remaining() == old(self).remaining(),
    {
        proof {
            old(self).lemma_position_bound();
        }
        let ghost n = T::SAMPLES_PER_BIT as nat;
        let ghost before = old(self).position();
        let ghost len = self.buf@.len();
        if T::SAMPLES_PER_BIT == 0 {
            // A bit that takes no sample leaves nothing to send.
            proof {
                let q = (self.byte_off * 10 + self.bit_off) as nat;
                assert(q * 0 + 0 == 0 && len * 10 * 0 == 0) by (nonlinear_arith);
            }
            return None;
        }
        let ghost (byte0, bit0, sample0) = (
            self.byte_off as nat,
            self.bit_off as nat,
            self.sample_off as nat,
        );

        // Roll over from the smallest unit to the largest.
        if self.sample_off == T::SAMPLES_PER_BIT {
            self.sample_off = 0;
            self.bit_off += 1;
        }
        if self.bit_off == FRAME_BITS {
            assert(byte0 < self.buf.len());
            self.bit_off = 0;
            self.byte_off += 1;
        }
        let ghost (byte1, bit1, sample1) = (
            self.byte_off as nat,
            self.bit_off as nat,
            self.sample_off as nat,
        );
        assert(sample_index(byte1, bit1, sample1, n) == before) by (nonlinear_arith)
            requires
                before == (byte0 * 10 + bit0) * n + sample0,
                sample0 == n ==> sample1 == 0 && (if bit0 == 9 {
                    bit1 == 0 && byte1 == byte0 + 1
                } else {
                    bit1 == bit0 + 1 && byte1 == byte0
                }),
                sample0 != n ==> sample1 == sample0 && bit1 == bit0 && byte1 == byte0,
        ;

        if self.byte_off >= self.buf.len() {
            proof {
                assert(before == len * 10 * n) by (nonlinear_arith)
                    requires
                        before == (byte1 * 10 + bit1) * n + sample1,
                        byte1 == len,
                        bit1 == 0,
                        sample1 == 0,
                ;
            }
            return None;
        }
        let current_byte = self.buf[self.byte_off];

        proof {
            lemma_sample_index(byte1, bit1, sample1, n);
            assert((byte1 + 1) * 10 * n <= len * 10 * n) by (nonlinear_arith)
                requires
                    byte1 + 1 <= len,
            ;
        }

        let tone = if self.bit_off == 0 {
            // Start bit.
            Tone::Space
        } else if self.bit_off <= 8 {
            // Data bit.
            let current_bit = (current_byte >> ((self.bit_off - 1) as u8)) & 0x1;
            if current_bit == 1 {
                Tone::Mark
            } else {
                Tone::Space
            }
        } else {
            // Stop bit.
            Tone::Mark
        };

        self.sample_off += 1;
        assert(self.position() == before + 1);
        Some(tone)
    }
}

/// `n` samples of unmodulated mark tone.
pub open spec fn carrier_tones(n: nat) -> Seq<Tone> {
    Seq::new(n, |i: int| Tone::Mark)
}

/// What a transmission of `buf` consists of: the carrier, then the framed bytes.
pub open spec fn transmission(buf: Seq<u8>, n: nat) -> Seq<Tone> {
    carrier_tones(CARRIER_SAMPLES as nat) + encode(buf, n)
}

/// The byte buffers that a note can ask the modem to send.
pub struct Payloads {
    /// Sent on note 60.
    pub schetzen: &'static [u8],
    /// Sent on note 61.
    pub cubicsat: &'static [u8],
    /// Sent on note 62.
    pub wave_a0: &'static [u8],
    /// Sent on note 63.
    pub wave_a1: &'static [u8],
}

/// The bytes that `note` asks for, if it asks for any.
pub open spec fn payload_for(note: u8, payloads: Payloads) -> Option<Seq<u8>> {
    if note == 60 {
        Some(payloads.schetzen@)
    } else if note == 61 {
        Some(payloads.cubicsat@)
    } else if note == 62 {
        Some(payloads.wave_a0@)
    } else if note == 63 {
        Some(payloads.wave_a1@)
    } else {
        None
    }
}

/// A modem: the carrier countdown and the transmission that follows it.
pub struct Modem<T: ModemParams> {
    carrier_samples: usize,
    current_iter: Option<SampleIter<T>>,
    params: PhantomData<T>,
}

impl<T: ModemParams> View for Modem<T> {
    type V = Seq<Tone>;

    /// The tones that the modem will produce before it falls idle.
    closed spec fn view(&self) -> Seq<Tone> {
        carrier_tones(self.carrier_samples as nat) + match self.current_iter {
            Some(iter) => iter.remaining(),
            None => Seq::empty(),
        }
    }
}

impl<T: ModemParams> Modem<T> {
    /// The transmission in flight, if there is one, is at a sample of its buffer or at its end.
    pub closed spec fn wf(&self) -> bool {
        self.current_iter matches Some(iter) ==> iter.wf()
    }

    /// An idle modem.
    pub fn new() -> (modem: Self)
        ensures
            modem.wf(),
            modem@ == Seq::<Tone>::empty(),
    {
        Modem { carrier_samples: 0, current_iter: None, params: PhantomData }
    }

    /// Starts a transmission of `buf`. One in flight is dropped where it stands.
    pub fn send(&mut self, buf: &'static [u8])
        ensures
            final(self).wf(),
            final(self)@ == transmission(buf@, T::SAMPLES_PER_BIT as nat),
    {
        self.carrier_samples = CARRIER_SAMPLES;
        self.current_iter = Some(SampleIter::new(buf));
    }

    /// Drops the carrier and the transmission in flight.
    pub fn reset(&mut self)
        ensures
            final(self).wf(),
            final(self)@ == Seq::<Tone>::empty(),
    {
        self.carrier_samples = 0;
        self.current_iter = None;
    }

    /// The tone of the next sample, or `None` when nothing is left to send.
    pub fn next(&mut self) -> (tone: Option<Tone>)
        requires
            old(self).wf(),
        ensures
            final(self).wf(),
            old(self)@.len() > 0 ==> tone == Some(old(self)@[0])
                && final(self)@ == old(self)@.skip(1),
            old(self)@.len() == 0 ==> tone.is_none() && final(self)@ == old(self)@,
    {
        if self.carrier_samples != 0 {
            self.carrier_samples -= 1;
            return Some(Tone::Mark);
        }
        match &mut self.current_iter {
            Some(iter) => {
                proof {
                    iter.lemma_position_bound();
                }
                iter.next()
            },
            None => None,
        }
    }

    /// The tone of the next sample, an idle modem holding the mark tone.
    pub fn next_or_mark(&mut self) -> (tone: Tone)
        requires
            old(self).wf(),
        ensures
            final(self).wf(),
            old(self)@.len() > 0 ==> tone == old(self)@[0] && final(self)@ == old(self)@.skip(1),
            old(self)@.len() == 0 ==> tone == Tone::Mark && final(self)@ == old(self)@,
    {
        match self.next() {
            Some(tone) => tone,
            None => Tone::Mark,
        }
    }

    /// A note starts the transmission of the buffer it names; any other note
    /// silences the modem.
    pub fn note_on(&mut self, params: &UserOscParam, payloads: &Payloads)
        ensures
            final(self).wf(),
            final(self)@ == match payload_for(params.note_spec(), *payloads) {
                Some(bytes) => transmission(bytes, T::SAMPLES_PER_BIT as nat),
                None => Seq::<Tone>::empty(),
            },
    {
        let note = params.note();
        if note == 60 {
            self.send(payloads.schetzen);
        } else if note == 61 {
            self.send(payloads.cubicsat);
        } else if note == 62 {
            self.send(payloads.wave_a0);
        } else if note == 63 {
            self.send(payloads.wave_a1);
        } else {
            self.reset();
        }
    }
}

} // verus!


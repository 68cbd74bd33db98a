use vstd::prelude::*;

verus! {

/// Smallest sample width in bits.
pub const MIN_BITS: u16 = 8;

/// Largest sample width in bits.
pub const MAX_BITS: u16 = 32;

/// A sample width is a whole number of bytes, from one to four.
pub open spec fn valid_bits(bits: u16) -> bool {
    MIN_BITS <= bits <= MAX_BITS && bits % 8 == 0
}

/// Bytes per encoded sample.
pub open spec fn width_of(bits: u16) -> nat {
    (bits / 8) as nat
}

/// `2^n` as a natural number.
pub open spec fn pow2(n: nat) -> nat
    decreases n,
{
    if n == 0 {
        1
    } else {
        2 * pow2((n - 1) as nat)
    }
}

/// The largest magnitude a sample of `bits` bits may take: `2^(bits-1) - 1`.
pub open spec fn max_amplitude_of(bits: u16) -> int {
    pow2((bits - 1) as nat) - 1
}

/// `raw` clamped into `[-max, max]`.
pub open spec fn clamp(raw: int, max: int) -> int {
    if raw > max {
        max
    } else if raw < -max {
        -max
    } else {
        raw
    }
}

/// The little-endian digits of `u` in base 256, `n` of them.
pub open spec fn le_digits(u: nat, n: nat) -> Seq<u8>
    decreases n,
{
    if n == 0 {
        Seq::empty()
    } else {
        seq![(u % 256) as u8] + le_digits(u / 256, (n - 1) as nat)
    }
}

/// The two's-complement little-endian encoding of `v` in `n` bytes.
pub open spec fn le_bytes(v: int, n: nat) -> Seq<u8> {
    if v < 0 {
        le_digits((v + pow2(8 * n)) as nat, n)
    } else {
        le_digits(v as nat, n)
    }
}

/// The bytes of one sample of `bits` bits: the raw value clamped, then encoded.
pub open spec fn sample_bytes(raw: int, bits: u16) -> Seq<u8> {
    le_bytes(clamp(raw, max_amplitude_of(bits)), width_of(bits))
}

/// `le_digits` yields exactly `n` bytes.
pub proof fn lemma_le_digits_len(u: nat, n: nat)
    ensures
        le_digits(u, n).len() == n,
    decreases n,
{
    if n > 0 {
        lemma_le_digits_len(u / 256, (n - 1) as nat);
    }
}

/// A sample takes `bits / 8` bytes.
pub proof fn lemma_sample_bytes_len(raw: int, bits: u16)
    ensures
        sample_bytes(raw, bits).len() == width_of(bits),
{
    let v = clamp(raw, max_amplitude_of(bits));
    if v < 0 {
        lemma_le_digits_len((v + pow2(8 * width_of(bits))) as nat, width_of(bits));
    } else {
        lemma_le_digits_len(v as nat, width_of(bits));
    }
}

proof fn lemma_pow2_values()
    ensures
        pow2(7) == 128,
        pow2(15) == 32768,
        pow2(23) == 8388608,
        pow2(31) == 2147483648,
        pow2(8) == 256,
        pow2(16) == 65536,
        pow2(24) == 16777216,
        pow2(32) == 4294967296,
{
    reveal_with_fuel(pow2, 33);
}

/// A valid width has a positive largest magnitude.
pub proof fn lemma_max_amplitude_positive(bits: u16)
    requires
        valid_bits(bits),
    ensures
        max_amplitude_of(bits) >= 1,
{
    lemma_max_amplitude_bounds(bits);
}

proof fn lemma_max_amplitude_bounds(bits: u16)
    requires
        valid_bits(bits),
    ensures
        1 <= max_amplitude_of(bits) <= 2147483647,
        2 * max_amplitude_of(bits) + 2 == pow2(8 * width_of(bits)),
{
    lemma_pow2_values();
    assert(bits == 8 || bits == 16 || bits == 24 || bits == 32);
}

/// The largest magnitude of a sample of `bits` bits.
pub fn max_amplitude(bits: u16) -> (r: i64)
    requires
        valid_bits(bits),
    ensures
        r == max_amplitude_of(bits),
        r >= 1,
{
    proof {
        lemma_pow2_values();
    }
    if bits == 8 {
        127
    } else if bits == 16 {
        32767
    } else if bits == 24 {
        8388607
    } else {
        2147483647
    }
}

/// Clamps a raw (already truncated) sample into the representable range
/// `[-max_amplitude, max_amplitude]` of a `bits`-bit sample.
pub fn quantize(raw: i64, bits: u16) -> (r: i64)
    requires
        valid_bits(bits),
    ensures
        r == clamp(raw as int, max_amplitude_of(bits)),
        -max_amplitude_of(bits) <= r <= max_amplitude_of(bits),
{
    let max = max_amplitude(bits);
    if raw > max {
        max
    } else if raw < -max {
        -max
    } else {
        raw
    }
}

/// Appends `n` little-endian base-256 digits of `u` to `out`.
fn push_le_digits(out: &mut Vec<u8>, u: u64, n: usize)
    requires
        n <= 8,
    ensures
        final(out)@ == old(out)@ + le_digits(u as nat, n as nat),
{
    let mut rest: u64 = u;
    let mut i: usize = 0;
    while i < n
        invariant
            i <= n,
            old(out)@ + le_digits(u as nat, n as nat) == out@ + le_digits(rest as nat, (n - i) as nat),
        decreases n - i,
    {
        let ghost before = out@;
        out.push((rest % 256) as u8);
        assert(le_digits(rest as nat, (n - i) as nat) == seq![(rest % 256) as u8] + le_digits(
            (rest / 256) as nat,
            (n - i - 1) as nat,
        ));
        assert(before + le_digits(rest as nat, (n - i) as nat) == out@ + le_digits(
            (rest / 256) as nat,
            (n - i - 1) as nat,
        ));
        rest = rest / 256;
        i = i + 1;
    }
}

/// Appends the encoding of one sample to `out`: `raw` is clamped into the
/// range of a `bits`-bit signed sample and written as `bits / 8` bytes,
/// two's complement, least significant byte first.
pub fn encode_sample(out: &mut Vec<u8>, raw: i64, bits: u16)
    requires
        valid_bits(bits),
    ensures
        final(out)@ == old(out)@ + sample_bytes(raw as int, bits),
{
    let v = quantize(raw, bits);
    let max = max_amplitude(bits);
    let width: usize = (bits / 8) as usize;
    proof {
        lemma_max_amplitude_bounds(bits);
    }
    // a negative sample is stored as `v + 2^bits`, and `2^bits == 2 * max + 2`
    let u: u64 = if v < 0 {
        (v + 2 * max + 2) as u64
    } else {
        v as u64
    };
    push_le_digits(out, u, width);
}

/// Why a set of render parameters was refused.
#[derive(Debug, Clone, Copy, PartialEq, Eq, Structural)]
pub enum InvalidParams {
    /// The sample width is not 8, 16, 24 or 32 bits.
    BitsPerSample,
    /// The sample rate is zero, or its byte rate does not fit in 32 bits.
    SampleRate,
    /// The duration is zero seconds.
    Duration,
}

/// Bits per sample, sample rate and duration of one render, checked once.
///
/// The linear amplitude scale is not held here: it only ever multiplies a
/// waveform value before truncation.
#[derive(Debug, Clone, Copy, PartialEq, Eq, Structural)]
pub struct RenderParams {
    bits_per_sample: u16,
    sample_rate: u32,
    duration: u8,
}

/// The byte rate of a mono stream: `rate * bits / 8`.
pub open spec fn byte_rate_of(rate: u32, bits: u16) -> int {
    rate * width_of(bits)
}

/// The parameters that a render accepts.
pub open spec fn params_ok(bits: u16, rate: u32, duration: u8) -> bool {
    &&& valid_bits(bits)
    &&& rate >= 1
    &&& byte_rate_of(rate, bits) <= u32::MAX
    &&& duration >= 1
}

impl RenderParams {
    pub closed spec fn bits_spec(&self) -> u16 {
        self.bits_per_sample
    }

    pub closed spec fn rate_spec(&self) -> u32 {
        self.sample_rate
    }

    pub closed spec fn duration_spec(&self) -> u8 {
        self.duration
    }

    /// The fields satisfy `params_ok`.
    pub open spec fn wf(&self) -> bool {
        params_ok(self.bits_spec(), self.rate_spec(), self.duration_spec())
    }

    /// Number of samples one voice or one mix produces: `rate * duration`.
    pub open spec fn sample_count_spec(&self) -> nat {
        (self.rate_spec() * self.duration_spec()) as nat
    }

    /// Checks the parameters: the width first, then the rate, then the duration.
    pub fn new(bits_per_sample: u16, sample_rate: u32, duration: u8) -> (r: Result<RenderParams, InvalidParams>)
        ensures
            r matches Ok(p) ==> p.wf() && p.bits_spec() == bits_per_sample && p.rate_spec() == sample_rate
                && p.duration_spec() == duration,
            r is Ok <==> params_ok(bits_per_sample, sample_rate, duration),
            r == Err::<RenderParams, InvalidParams>(InvalidParams::BitsPerSample) <==> !valid_bits(bits_per_sample),
            r == Err::<RenderParams, InvalidParams>(InvalidParams::SampleRate) <==> valid_bits(bits_per_sample)
                && (sample_rate < 1 || byte_rate_of(sample_rate, bits_per_sample) > u32::MAX),
            r == Err::<RenderParams, InvalidParams>(InvalidParams::Duration) <==> valid_bits(bits_per_sample)
                && sample_rate >= 1 && byte_rate_of(sample_rate, bits_per_sample) <= u32::MAX && duration < 1,
    {
        if bits_per_sample < MIN_BITS || bits_per_sample > MAX_BITS || bits_per_sample % 8 != 0 {
            return Err(InvalidParams::BitsPerSample);
        }
        let width: u64 = (bits_per_sample / 8) as u64;
        assert(sample_rate as u64 * width <= u32::MAX * 4) by (nonlinear_arith)
            requires
                width <= 4,
                sample_rate <= u32::MAX,
        ;
        if sample_rate < 1 || sample_rate as u64 * width > u32::MAX as u64 {
            return Err(InvalidParams::SampleRate);
        }
        if duration < 1 {
            return Err(InvalidParams::Duration);
        }
        Ok(RenderParams { bits_per_sample, sample_rate, duration })
    }

    pub fn bits_per_sample(&self) -> (r: u16)
        ensures
            r == self.bits_spec(),
    {
        self.bits_per_sample
    }

    pub fn sample_rate(&self) -> (r: u32)
        ensures
            r == self.rate_spec(),
    {
        self.sample_rate
    }

    pub fn duration(&self) -> (r: u8)
        ensures
            r == self.duration_spec(),
    {
        self.duration
    }

    /// Number of samples in one render: `sample_rate * duration`.
    pub fn sample_count(&self) -> (r: u64)
        ensures
            r == self.sample_count_spec(),
    {
        proof {
            assert(self.sample_rate * self.duration <= u32::MAX * 255) by (nonlinear_arith)
                requires
                    self.sample_rate <= u32::MAX,
                    self.duration <= 255,
            ;
        }
        self.sample_rate as u64 * self.duration as u64
    }

    /// Bytes per second of the mono stream.
    pub fn byte_rate(&self) -> (r: u32)
        requires
            self.wf(),
        ensures
            r == byte_rate_of(self.rate_spec(), self.bits_spec()),
    {
        self.sample_rate * ((self.bits_per_sample / 8) as u32)
    }

    /// Bytes per sample frame of the mono stream.
    pub fn block_align(&self) -> (r: u16)
        requires
            self.wf(),
        ensures
            r == width_of(self.bits_spec()),
    {
        self.bits_per_sample / 8
    }
}

} // verus!

use vstd::prelude::*;
use crate::pcm::{
    clamp, le_bytes, lemma_max_amplitude_positive, max_amplitude_of, lemma_le_digits_len, lemma_sample_bytes_len, le_digits, sample_bytes, valid_bits, width_of, byte_rate_of, encode_sample, RenderParams,
};

verus! {

/// Length of the fixed header, up to the first PCM byte.
pub const HEADER_LEN: usize = 44;

/// Largest container length in bytes, pad byte included, whose size fields
/// still fit in 32 bits.
pub const MAX_CONTAINER_LEN: usize = 4294967294;

/// Size of the format sub-chunk of an uncompressed stream.
pub const FMT_CHUNK_SIZE: u32 = 16;

/// Format code of uncompressed PCM.
pub const AUDIO_FORMAT_PCM: u16 = 1;

/// The stream is mono.
pub const NUM_CHANNELS: u16 = 1;

/// ASCII `RIFF`.
pub open spec fn riff_tag() -> Seq<u8> {
    seq![0x52u8, 0x49u8, 0x46u8, 0x46u8]
}

/// ASCII `WAVE`.
pub open spec fn wave_tag() -> Seq<u8> {
    seq![0x57u8, 0x41u8, 0x56u8, 0x45u8]
}

/// ASCII `fmt `.
pub open spec fn fmt_tag() -> Seq<u8> {
    seq![0x66u8, 0x6du8, 0x74u8, 0x20u8]
}

/// ASCII `data`.
pub open spec fn data_tag() -> Seq<u8> {
    seq![0x64u8, 0x61u8, 0x74u8, 0x61u8]
}

/// ASCII `----`: the four bytes that hold a size field's place until it is known.
pub open spec fn placeholder() -> Seq<u8> {
    seq![0x2du8, 0x2du8, 0x2du8, 0x2du8]
}

/// The 32 header bytes between the two size fields: `WAVE`, the format
/// sub-chunk of a mono uncompressed stream, and the `data` tag.
pub open spec fn format_fields(rate: u32, bits: u16) -> Seq<u8> {
    wave_tag() + fmt_tag() + le_digits(16, 4) + le_digits(1, 2) + le_digits(1, 2) + le_digits(rate as nat, 4)
        + le_digits(byte_rate_of(rate, bits) as nat, 4) + le_digits(width_of(bits), 2) + le_digits(
        bits as nat,
        2,
    ) + data_tag()
}

/// The header of a mono PCM container with the given size fields.
pub open spec fn header_with(rate: u32, bits: u16, total: Seq<u8>, data: Seq<u8>) -> Seq<u8> {
    riff_tag() + total + format_fields(rate, bits) + data
}

proof fn lemma_format_fields_len(rate: u32, bits: u16)
    ensures
        format_fields(rate, bits).len() == 32,
{
    lemma_le_digits_len(16, 4);
    lemma_le_digits_len(1, 2);
    lemma_le_digits_len(rate as nat, 4);
    lemma_le_digits_len(byte_rate_of(rate, bits) as nat, 4);
    lemma_le_digits_len(width_of(bits), 2);
    lemma_le_digits_len(bits as nat, 2);
}

/// The pad byte that follows a body of odd length.
pub open spec fn padding(body_len: nat) -> Seq<u8> {
    if body_len % 2 == 1 {
        seq![0u8]
    } else {
        Seq::empty()
    }
}

/// The finished container around a PCM body: the data size field holds the
/// body's length, the total size field the length of everything after it,
/// pad byte included.
pub open spec fn container_spec(rate: u32, bits: u16, body: Seq<u8>) -> Seq<u8> {
    let total = 36 + body.len() + padding(body.len()).len();
    header_with(rate, bits, le_digits(total, 4), le_digits(body.len(), 4)) + body + padding(body.len())
}

/// The PCM body made of the given raw samples, one after another.
pub open spec fn body_of(raws: Seq<i64>, bits: u16) -> Seq<u8>
    decreases raws.len(),
{
    if raws.len() == 0 {
        Seq::empty()
    } else {
        body_of(raws.drop_last(), bits) + sample_bytes(raws.last() as int, bits)
    }
}

/// The value of little-endian base-256 digits.
pub open spec fn le_value(s: Seq<u8>) -> nat
    decreases s.len(),
{
    if s.len() == 0 {
        0
    } else {
        s[0] as nat + 256 * le_value(s.drop_first())
    }
}

/// The total size field, read from bytes 4 to 8.
pub open spec fn declared_total_spec(file: Seq<u8>) -> nat {
    le_value(file.subrange(4, 8))
}

/// The data size field, read from bytes 40 to 44.
pub open spec fn declared_data_spec(file: Seq<u8>) -> nat {
    le_value(file.subrange(40, 44))
}

/// Appends the little-endian bytes of a `u16`.
fn push_u16(out: &mut Vec<u8>, v: u16)
    ensures
        final(out)@ == old(out)@ + le_digits(v as nat, 2),
{
    let ghost start = out@;
    out.push((v % 256) as u8);
    out.push((v / 256 % 256) as u8);
    assert(out@ =~= start + le_digits(v as nat, 2)) by {
        reveal_with_fuel(le_digits, 3);
    }
}

/// Appends the little-endian bytes of a `u32`.
fn push_u32(out: &mut Vec<u8>, v: u32)
    ensures
        final(out)@ == old(out)@ + le_digits(v as nat, 4),
{
    let ghost start = out@;
    out.push((v % 256) as u8);
    out.push((v / 256 % 256) as u8);
    out.push((v / 65536 % 256) as u8);
    out.push((v / 16777216 % 256) as u8);
    assert(out@ =~= start + le_digits(v as nat, 4)) by {
        reveal_with_fuel(le_digits, 5);
        assert(v as nat / 256 / 256 == v as nat / 65536);
        assert(v as nat / 256 / 256 / 256 == v as nat / 16777216);
    }
}

/// Appends four ASCII bytes.
fn push_tag(out: &mut Vec<u8>, a: u8, b: u8, c: u8, d: u8)
    ensures
        final(out)@ == old(out)@ + seq![a, b, c, d],
{
    let ghost start = out@;
    out.push(a);
    out.push(b);
    out.push(c);
    out.push(d);
    assert(out@ =~= start + seq![a, b, c, d]);
}

/// Overwrites the four bytes at `pos` with the little-endian bytes of `v`.
fn patch_u32(out: &mut Vec<u8>, pos: usize, v: u32)
    requires
        pos + 4 <= old(out)@.len(),
    ensures
        final(out)@ == old(out)@.subrange(0, pos as int) + le_digits(v as nat, 4) + old(out)@.subrange(
            pos + 4,
            old(out)@.len() as int,
        ),
{
    let ghost start = out@;
    let len = out.len();
    assert(pos + 4 <= len);
    let (p1, p2, p3) = (pos + 1, pos + 2, pos + 3);
    out.set(pos, (v % 256) as u8);
    out.set(p1, (v / 256 % 256) as u8);
    out.set(p2, (v / 65536 % 256) as u8);
    out.set(p3, (v / 16777216 % 256) as u8);
    assert(out@ =~= start.subrange(0, pos as int) + le_digits(v as nat, 4) + start.subrange(
        pos + 4,
        start.len() as int,
    )) by {
        reveal_with_fuel(le_digits, 5);
        assert(v as nat / 256 / 256 == v as nat / 65536);
        assert(v as nat / 256 / 256 / 256 == v as nat / 16777216);
    }
}

/// A container under construction: the header with both size fields still
/// holding placeholders, followed by the PCM body appended so far.
pub struct ContainerWriter {
    bytes: Vec<u8>,
    params: RenderParams,
    total_size_pos: usize,
    data_size_pos: usize,
}

impl ContainerWriter {
    pub closed spec fn params_spec(&self) -> RenderParams {
        self.params
    }

    /// The bytes written so far.
    pub closed spec fn bytes_spec(&self) -> Seq<u8> {
        self.bytes@
    }

    /// The PCM body appended so far.
    pub open spec fn body(&self) -> Seq<u8> {
        self.bytes_spec().subrange(HEADER_LEN as int, self.bytes_spec().len() as int)
    }

    pub open spec fn bits(&self) -> u16 {
        self.params_spec().bits_spec()
    }

    pub open spec fn rate(&self) -> u32 {
        self.params_spec().rate_spec()
    }

    /// Well-formed: valid parameters, the placeholder header in front, the two
    /// recorded positions on its size fields, and room left for a pad byte.
    pub closed spec fn wf(&self) -> bool {
        &&& self.params.wf()
        &&& self.total_size_pos == 4
        &&& self.data_size_pos == 40
        &&& HEADER_LEN <= self.bytes@.len() < MAX_CONTAINER_LEN
        &&& self.bytes@.subrange(0, HEADER_LEN as int) == header_with(
            self.rate(),
            self.bits(),
            placeholder(),
            placeholder(),
        )
    }

    /// Writes the fixed header, with placeholders where the two size fields go.
    pub fn begin(params: RenderParams) -> (w: ContainerWriter)
        requires
            params.wf(),
        ensures
            w.wf(),
            w.params_spec() == params,
            w.body() == Seq::<u8>::empty(),
    {
        let mut bytes: Vec<u8> = Vec::new();
        push_tag(&mut bytes, 0x52, 0x49, 0x46, 0x46);
        let total_size_pos = bytes.len();
        push_tag(&mut bytes, 0x2d, 0x2d, 0x2d, 0x2d);
        push_tag(&mut bytes, 0x57, 0x41, 0x56, 0x45);
        push_tag(&mut bytes, 0x66, 0x6d, 0x74, 0x20);
        push_u32(&mut bytes, FMT_CHUNK_SIZE);
        push_u16(&mut bytes, AUDIO_FORMAT_PCM);
        push_u16(&mut bytes, NUM_CHANNELS);
        push_u32(&mut bytes, params.sample_rate());
        push_u32(&mut bytes, params.byte_rate());
        push_u16(&mut bytes, params.block_align());
        push_u16(&mut bytes, params.bits_per_sample());
        push_tag(&mut bytes, 0x64, 0x61, 0x74, 0x61);
        let data_size_pos = bytes.len();
        push_tag(&mut bytes, 0x2d, 0x2d, 0x2d, 0x2d);
        proof {
            lemma_format_fields_len(params.rate_spec(), params.bits_spec());
            assert(bytes@ =~= header_with(
                params.rate_spec(),
                params.bits_spec(),
                placeholder(),
                placeholder(),
            ));
        }
        let w = ContainerWriter { bytes, params, total_size_pos, data_size_pos };
        assert(w.bytes@.subrange(0, HEADER_LEN as int) =~= w.bytes@);
        assert(w.body() =~= Seq::<u8>::empty());
        w
    }

    /// The parameters the container was begun with.
    pub fn params(&self) -> (r: RenderParams)
        ensures
            r == self.params_spec(),
    {
        self.params
    }

    /// Bytes written so far, header included.
    pub fn len(&self) -> (r: usize)
        requires
            self.wf(),
        ensures
            r == HEADER_LEN + self.body().len(),
    {
        self.bytes.len()
    }

    /// Whether `n` more samples fit, leaving room for a pad byte.
    pub fn has_room_for(&self, n: u64) -> (r: bool)
        requires
            self.wf(),
        ensures
            r == (HEADER_LEN + self.body().len() + n * width_of(self.bits()) < MAX_CONTAINER_LEN),
    {
        let width: u64 = (self.params.bits_per_sample() / 8) as u64;
        let used: u64 = self.bytes.len() as u64;
        let left: u64 = MAX_CONTAINER_LEN as u64 - used;
        // n * width < left, without forming the product
        if n == 0 {
            true
        } else {
            let most: u64 = (left - 1) / width;
            assert(n * width < left <==> n <= most) by (nonlinear_arith)
                requires
                    width >= 1,
                    left >= 1,
                    most == (left - 1) as int / width as int,
            ;
            n <= most
        }
    }

    /// Appends one sample: `raw` clamped to the sample range and encoded in
    /// `bits / 8` little-endian bytes.
    pub fn push_sample(&mut self, raw: i64)
        requires
            old(self).wf(),
            HEADER_LEN + old(self).body().len() + width_of(old(self).bits()) < MAX_CONTAINER_LEN,
        ensures
            final(self).wf(),
            final(self).params_spec() == old(self).params_spec(),
            final(self).body() == old(self).body() + sample_bytes(raw as int, old(self).bits()),
    {
        let ghost before = self.bytes@;
        proof {
            lemma_sample_bytes_len(raw as int, self.bits());
        }
        encode_sample(&mut self.bytes, raw, self.params.bits_per_sample());
        assert(self.bytes@.subrange(0, HEADER_LEN as int) =~= before.subrange(0, HEADER_LEN as int));
        assert(self.body() =~= before.subrange(HEADER_LEN as int, before.len() as int) + sample_bytes(
            raw as int,
            self.bits(),
        ));
    }

    /// Appends the given raw samples in order.
    pub fn push_samples(&mut self, raws: &Vec<i64>)
        requires
            old(self).wf(),
            HEADER_LEN + old(self).body().len() + raws@.len() * width_of(old(self).bits()) < MAX_CONTAINER_LEN,
        ensures
            final(self).wf(),
            final(self).params_spec() == old(self).params_spec(),
            final(self).body() == old(self).body() + body_of(raws@, old(self).bits()),
    {
        let ghost start = self.body();
        let ghost width = width_of(self.bits());
        let mut i: usize = 0;
        while i < raws.len()
            invariant
                self.wf(),
                self.params_spec() == old(self).params_spec(),
                i <= raws@.len(),
                self.body() == start + body_of(raws@.subrange(0, i as int), self.bits()),
                self.body().len() == start.len() + i * width,
                HEADER_LEN + start.len() + raws@.len() * width < MAX_CONTAINER_LEN,
                width == width_of(self.bits()),
            decreases raws@.len() - i,
        {
            assert(i * width + width <= raws@.len() * width) by (nonlinear_arith)
                requires
                    i < raws@.len(),
            ;
            self.push_sample(raws[i]);
            proof {
                lemma_sample_bytes_len(raws@[i as int] as int, self.bits());
            }
            assert(raws@.subrange(0, i + 1).drop_last() =~= raws@.subrange(0, i as int));
            assert(self.body() =~= start + body_of(raws@.subrange(0, i + 1), self.bits()));
            assert((i + 1) * width == i * width + width) by (nonlinear_arith);
            i = i + 1;
        }
        assert(raws@.subrange(0, i as int) =~= raws@);
    }

    /// Closes the container: pads a body of odd length with one zero byte,
    /// takes both sizes from the positions written, and overwrites the two
    /// placeholders with them.
    pub fn finish(self) -> (r: Vec<u8>)
        requires
            self.wf(),
        ensures
            r@ == container_spec(self.rate(), self.bits(), self.body()),
    {
        let ghost body = self.body();
        let mut bytes = self.bytes;
        let data_end = bytes.len();
        if (data_end - HEADER_LEN) % 2 == 1 {
            bytes.push(0u8);
        }
        let end_pos = bytes.len();
        let data_size: u32 = (data_end - self.data_size_pos - 4) as u32;
        let total_size: u32 = (end_pos - self.total_size_pos - 4) as u32;
        let ghost fields = format_fields(self.rate(), self.bits());
        let ghost pad = padding(body.len());
        proof {
            lemma_format_fields_len(self.rate(), self.bits());
            assert(self.bytes@ =~= self.bytes@.subrange(0, HEADER_LEN as int) + body);
            assert(bytes@ =~= riff_tag() + placeholder() + fields + placeholder() + body + pad);
        }
        patch_u32(&mut bytes, self.data_size_pos, data_size);
        assert(bytes@ =~= riff_tag() + placeholder() + fields + le_digits(data_size as nat, 4) + body + pad);
        patch_u32(&mut bytes, self.total_size_pos, total_size);
        assert(bytes@ =~= riff_tag() + le_digits(total_size as nat, 4) + fields + le_digits(data_size as nat, 4)
            + body + pad);
        bytes
    }
}

/// A whole container around the given raw samples: header, the samples
/// clamped and encoded in order, pad byte, size fields filled in.
pub fn render_container(params: RenderParams, raws: &Vec<i64>) -> (r: Vec<u8>)
    requires
        params.wf(),
        HEADER_LEN + raws@.len() * width_of(params.bits_spec()) < MAX_CONTAINER_LEN,
    ensures
        r@ == container_spec(params.rate_spec(), params.bits_spec(), body_of(raws@, params.bits_spec())),
{
    let mut w = ContainerWriter::begin(params);
    w.push_samples(raws);
    assert(w.body() =~= body_of(raws@, params.bits_spec()));
    w.finish()
}

/// `256^n`.
pub open spec fn pow256(n: nat) -> nat
    decreases n,
{
    if n == 0 {
        1
    } else {
        256 * pow256((n - 1) as nat)
    }
}

/// Reading back `n` little-endian digits gives the number they were made from.
pub proof fn lemma_le_round_trip(u: nat, n: nat)
    requires
        u < pow256(n),
    ensures
        le_value(le_digits(u, n)) == u,
    decreases n,
{
    if n > 0 {
        let p = pow256((n - 1) as nat);
        assert(u / 256 < p) by (nonlinear_arith)
            requires
                u < 256 * p,
        ;
        lemma_le_round_trip(u / 256, (n - 1) as nat);
        assert(le_digits(u, n).drop_first() =~= le_digits(u / 256, (n - 1) as nat));
        assert(u % 256 + 256 * (u / 256) == u) by (nonlinear_arith);
    }
}

/// Reads the little-endian `u32` at `pos`.
fn read_u32(buf: &Vec<u8>, pos: usize) -> (r: u32)
    requires
        pos + 4 <= buf@.len(),
    ensures
        r == le_value(buf@.subrange(pos as int, pos + 4)),
{
    let len = buf.len();
    assert(pos + 4 <= len);
    let b0 = buf[pos] as u32;
    let b1 = buf[pos + 1] as u32;
    let b2 = buf[pos + 2] as u32;
    let b3 = buf[pos + 3] as u32;
    let ghost s = buf@.subrange(pos as int, pos + 4);
    assert(le_value(s) == b0 + 256 * (b1 + 256 * (b2 + 256 * b3))) by {
        reveal_with_fuel(le_value, 5);
        assert(s.drop_first().drop_first().drop_first().drop_first().len() == 0);
    }
    b0 + 256 * b1 + 65536 * b2 + 16777216 * b3
}

/// The two size fields as a container declares them.
#[derive(Debug, Clone, Copy, PartialEq, Eq, Structural)]
pub struct DeclaredSizes {
    /// Bytes after the total size field: the file's length less 8.
    pub total: u32,
    /// Bytes of PCM data, pad byte excluded.
    pub data: u32,
}

/// Reads the total and data size fields of a container; `None` when it is
/// shorter than a header.
pub fn declared_sizes(file: &Vec<u8>) -> (r: Option<DeclaredSizes>)
    ensures
        r is None <==> file@.len() < HEADER_LEN,
        r matches Some(d) ==> d.total == declared_total_spec(file@) && d.data == declared_data_spec(file@),
{
    if file.len() < HEADER_LEN {
        None
    } else {
        Some(DeclaredSizes { total: read_u32(file, 4), data: read_u32(file, 40) })
    }
}

/// The PCM bodies a container can hold: its header, the body and a pad byte
/// stay within `MAX_CONTAINER_LEN`.
pub open spec fn body_fits(body: Seq<u8>) -> bool {
    HEADER_LEN + body.len() < MAX_CONTAINER_LEN
}

/// Header round trip: in a finished container the declared total size is the
/// file's length less 8, and the declared data size is the PCM body's length,
/// for bodies of even and of odd length alike.
pub proof fn lemma_header_round_trip(rate: u32, bits: u16, body: Seq<u8>)
    requires
        body_fits(body),
    ensures
        declared_total_spec(container_spec(rate, bits, body)) == container_spec(rate, bits, body).len() - 8,
        declared_data_spec(container_spec(rate, bits, body)) == body.len(),
{
    let pad = padding(body.len());
    let total = 36 + body.len() + pad.len();
    let c = container_spec(rate, bits, body);
    lemma_format_fields_len(rate, bits);
    lemma_le_digits_len(total, 4);
    lemma_le_digits_len(body.len(), 4);
    assert(pow256(4) == 4294967296) by {
        reveal_with_fuel(pow256, 5);
    }
    lemma_le_round_trip(total, 4);
    lemma_le_round_trip(body.len(), 4);
    assert(c.subrange(4, 8) =~= le_digits(total, 4));
    assert(c.subrange(40, 44) =~= le_digits(body.len(), 4));
}

/// Alignment: a body of odd length is followed by exactly one zero byte, which
/// the total size counts and the data size does not; a body of even length
/// gets no pad byte. The body itself starts right after the header.
pub proof fn lemma_padding(rate: u32, bits: u16, body: Seq<u8>)
    requires
        body_fits(body),
    ensures
        container_spec(rate, bits, body).subrange(HEADER_LEN as int, HEADER_LEN + body.len()) == body,
        body.len() % 2 == 1 ==> {
            &&& container_spec(rate, bits, body).len() == HEADER_LEN + body.len() + 1
            &&& container_spec(rate, bits, body).last() == 0
            &&& declared_data_spec(container_spec(rate, bits, body)) == body.len()
            &&& declared_total_spec(container_spec(rate, bits, body)) == 36 + body.len() + 1
        },
        body.len() % 2 == 0 ==> {
            &&& container_spec(rate, bits, body).len() == HEADER_LEN + body.len()
            &&& declared_total_spec(container_spec(rate, bits, body)) == 36 + body.len()
        },
{
    lemma_header_round_trip(rate, bits, body);
    lemma_format_fields_len(rate, bits);
    lemma_le_digits_len(36 + body.len() + padding(body.len()).len(), 4);
    lemma_le_digits_len(body.len(), 4);
    let c = container_spec(rate, bits, body);
    assert(c.subrange(HEADER_LEN as int, HEADER_LEN + body.len()) =~= body);
}

/// No sample overflows its width: for any raw values, the `i`-th
/// `bits / 8`-byte slot of the body encodes a value within
/// `[-max_amplitude, max_amplitude]`, namely the `i`-th raw value clamped.
pub proof fn lemma_samples_in_range(raws: Seq<i64>, bits: u16, i: int)
    requires
        valid_bits(bits),
        0 <= i < raws.len(),
    ensures
        body_of(raws, bits).len() == raws.len() * width_of(bits),
        body_of(raws, bits).subrange(i * width_of(bits), (i + 1) * width_of(bits)) == le_bytes(
            clamp(raws[i] as int, max_amplitude_of(bits)),
            width_of(bits),
        ),
        -max_amplitude_of(bits) <= clamp(raws[i] as int, max_amplitude_of(bits)) <= max_amplitude_of(bits),
    decreases raws.len(),
{
    let w = width_of(bits);
    lemma_body_len(raws.drop_last(), bits);
    lemma_sample_bytes_len(raws.last() as int, bits);
    assert(raws.len() * w == (raws.len() - 1) * w + w) by (nonlinear_arith);
    let front = body_of(raws.drop_last(), bits);
    if i < raws.len() - 1 {
        lemma_samples_in_range(raws.drop_last(), bits, i);
        assert((i + 1) * w <= (raws.len() - 1) * w) by (nonlinear_arith)
            requires
                i + 1 <= raws.len() - 1,
        ;
        assert(0 <= i * w <= (i + 1) * w) by (nonlinear_arith)
            requires
                i >= 0,
        ;
        assert(body_of(raws, bits) == front + sample_bytes(raws.last() as int, bits));
        assert(body_of(raws, bits).subrange(i * w, (i + 1) * w) =~= front.subrange(i * w, (i + 1) * w));
    } else {
        assert(i * w == (raws.len() - 1) * w);
        assert((i + 1) * w == i * w + w) by (nonlinear_arith);
        assert(body_of(raws, bits).subrange(i * w, (i + 1) * w) =~= sample_bytes(raws.last() as int, bits));
    }
    lemma_max_amplitude_positive(bits);
}

proof fn lemma_body_len(raws: Seq<i64>, bits: u16)
    ensures
        body_of(raws, bits).len() == raws.len() * width_of(bits),
    decreases raws.len(),
{
    if raws.len() > 0 {
        lemma_body_len(raws.drop_last(), bits);
        lemma_sample_bytes_len(raws.last() as int, bits);
        assert(raws.len() * width_of(bits) == (raws.len() - 1) * width_of(bits) + width_of(bits))
            by (nonlinear_arith);
    }
}

/// Determinism: two renders of the same samples with the same parameters give
/// byte-identical containers.
pub proof fn lemma_render_deterministic(params: RenderParams, raws: Seq<i64>, first: Seq<u8>, second: Seq<u8>)
    requires
        first == container_spec(params.rate_spec(), params.bits_spec(), body_of(raws, params.bits_spec())),
        second == container_spec(params.rate_spec(), params.bits_spec(), body_of(raws, params.bits_spec())),
    ensures
        first == second,
{
}

} // verus!

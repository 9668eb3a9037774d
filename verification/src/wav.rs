//! WAV files: a header of 44 bytes and the samples.

use vstd::prelude::*;

verus! {

// ---------------------------------------------------------------------------
//  Numbers in little-endian order
// ---------------------------------------------------------------------------

/// The two bytes of `n`, the lower one first.
pub open spec fn le16(n: int) -> Seq<u8> {
    seq![(n % 256) as u8, (n / 256 % 256) as u8]
}

/// The four bytes of `n`, the lowest one first.
pub open spec fn le32(n: int) -> Seq<u8> {
    seq![
        (n % 256) as u8,
        (n / 256 % 256) as u8,
        (n / 65536 % 256) as u8,
        (n / 16777216 % 256) as u8,
    ]
}

/// The number in the two bytes of `s` from `at` on.
pub open spec fn number16(s: Seq<u8>, at: int) -> int {
    s[at] + 256 * s[at + 1]
}

/// The number in the four bytes of `s` from `at` on.
pub open spec fn number32(s: Seq<u8>, at: int) -> int {
    s[at] + 256 * s[at + 1] + 65536 * s[at + 2] + 16777216 * s[at + 3]
}

/// A number is read where its two bytes stand.
proof fn lemma_number16(s: Seq<u8>, at: int, n: int)
    requires
        0 <= n <= u16::MAX,
        0 <= at <= s.len() - 2,
        s.subrange(at, at + 2) =~= le16(n),
    ensures
        number16(s, at) == n,
{
    let part = s.subrange(at, at + 2);
    assert(part[0] == s[at] && part[1] == s[at + 1]);
}

/// A number is read where its four bytes stand.
proof fn lemma_number32(s: Seq<u8>, at: int, n: int)
    requires
        0 <= n <= u32::MAX,
        0 <= at <= s.len() - 4,
        s.subrange(at, at + 4) =~= le32(n),
    ensures
        number32(s, at) == n,
{
    let part = s.subrange(at, at + 4);
    assert(part[0] == s[at] && part[1] == s[at + 1] && part[2] == s[at + 2] && part[3] == s[at
        + 3]);
}

fn push16(v: &mut Vec<u8>, n: u16)
    ensures
        final(v)@ == old(v)@ + le16(n as int),
{
    let ghost before = v@;
    v.push((n % 256) as u8);
    v.push((n / 256 % 256) as u8);
    assert(v@ =~= before + le16(n as int));
}

fn push32(v: &mut Vec<u8>, n: u32)
    ensures
        final(v)@ == old(v)@ + le32(n as int),
{
    let ghost before = v@;
    v.push((n % 256) as u8);
    v.push((n / 256 % 256) as u8);
    v.push((n / 65536 % 256) as u8);
    v.push((n / 16777216 % 256) as u8);
    assert(v@ =~= before + le32(n as int));
}

fn push4(v: &mut Vec<u8>, a: u8, b: u8, c: u8, d: u8)
    ensures
        final(v)@ == old(v)@ + seq![a, b, c, d],
{
    let ghost before = v@;
    v.push(a);
    v.push(b);
    v.push(c);
    v.push(d);
    assert(v@ =~= before + seq![a, b, c, d]);
}

// ---------------------------------------------------------------------------
//  The header
// ---------------------------------------------------------------------------

/// The letters `RIFF`.
pub open spec fn riff_tag() -> Seq<u8> {
    seq![0x52, 0x49, 0x46, 0x46]
}

/// The letters `WAVE`.
pub open spec fn wave_tag() -> Seq<u8> {
    seq![0x57, 0x41, 0x56, 0x45]
}

/// The letters `fmt` and a space.
pub open spec fn fmt_tag() -> Seq<u8> {
    seq![0x66, 0x6d, 0x74, 0x20]
}

/// The letters `data`.
pub open spec fn data_tag() -> Seq<u8> {
    seq![0x64, 0x61, 0x74, 0x61]
}

/// The header of `data` bytes of samples of `width` bytes each; `format` is 1
/// for integers and 3 for floating-point numbers.
#[verifier::opaque]
pub open spec fn header(format: int, width: int, rate: int, channels: int, data: int) -> Seq<u8> {
    riff_tag() + le32(36 + data) + wave_tag() + fmt_tag() + le32(16) + le16(format) + le16(
        channels,
    ) + le32(rate) + le32(rate * channels * width) + le16(channels * width) + le16(8 * width)
        + data_tag() + le32(data)
}

fn write_header(format: u16, width: u16, rate: u32, channels: u16, byte_rate: u32, data: u32) -> (h:
    Vec<u8>)
    requires
        width <= 4,
        byte_rate == rate * channels * width,
        channels * width <= u16::MAX,
        36 + data <= u32::MAX,
    ensures
        h@ == header(format as int, width as int, rate as int, channels as int, data as int),
{
    proof {
        reveal(header);
    }
    let mut h: Vec<u8> = Vec::with_capacity(44);
    push4(&mut h, 0x52, 0x49, 0x46, 0x46);
    push32(&mut h, 36 + data);
    push4(&mut h, 0x57, 0x41, 0x56, 0x45);
    push4(&mut h, 0x66, 0x6d, 0x74, 0x20);
    push32(&mut h, 16);
    push16(&mut h, format);
    push16(&mut h, channels);
    push32(&mut h, rate);
    push32(&mut h, byte_rate);
    push16(&mut h, channels * width);
    push16(&mut h, 8 * width);
    push4(&mut h, 0x64, 0x61, 0x74, 0x61);
    push32(&mut h, data);
    assert(h@ =~= header(
        format as int,
        width as int,
        rate as int,
        channels as int,
        data as int,
    ));
    h
}

/// The header of `data` bytes of samples of 16 bits.
pub open spec fn pcm_header(rate: int, channels: int, data: int) -> Seq<u8> {
    header(1, 2, rate, channels, data)
}

/// The header of `samples` floating-point samples of 32 bits in each channel.
pub open spec fn float_header(rate: int, channels: int, samples: int) -> Seq<u8> {
    header(3, 4, rate, channels, samples * channels * 4)
}

/// The header of `data_bytes` bytes of samples of 16 bits.
pub fn make_wav_header(sample_rate: u32, channels: u16, data_bytes: u32) -> (h: Vec<u8>)
    requires
        sample_rate * channels * 2 <= u32::MAX,
        channels * 2 <= u16::MAX,
        36 + data_bytes <= u32::MAX,
    ensures
        h@ == pcm_header(sample_rate as int, channels as int, data_bytes as int),
{
    assert(0 <= sample_rate * channels <= u32::MAX) by (nonlinear_arith)
        requires
            sample_rate * channels * 2 <= u32::MAX,
            0 <= sample_rate,
            0 <= channels,
    ;
    let byte_rate: u32 = sample_rate * channels as u32 * 2;
    write_header(1, 2, sample_rate, channels, byte_rate, data_bytes)
}

/// The header of `num_samples` floating-point samples of 32 bits in each
/// channel.
pub fn wav_header(sample_rate: u32, channels: u16, num_samples: u32) -> (h: Vec<u8>)
    requires
        sample_rate * channels * 4 <= u32::MAX,
        36 + num_samples * channels * 4 <= u32::MAX,
        channels * 4 <= u16::MAX,
    ensures
        h@ == float_header(sample_rate as int, channels as int, num_samples as int),
{
    assert(0 <= sample_rate * channels <= u32::MAX) by (nonlinear_arith)
        requires
            sample_rate * channels * 4 <= u32::MAX,
            0 <= sample_rate,
            0 <= channels,
    ;
    assert(0 <= num_samples * channels <= u32::MAX) by (nonlinear_arith)
        requires
            num_samples * channels * 4 <= u32::MAX,
            0 <= num_samples,
            0 <= channels,
    ;
    let byte_rate: u32 = sample_rate * channels as u32 * 4;
    let data_size: u32 = num_samples * channels as u32 * 4;
    write_header(3, 4, sample_rate, channels, byte_rate, data_size)
}

/// A reader of the header finds what was written: the tags in their places,
/// the size of what follows the first eight bytes, the format, and the size of
/// the samples.
pub proof fn law_header_fields(format: int, width: int, rate: int, channels: int, data: int)
    requires
        0 <= format <= u16::MAX,
        0 <= width <= 4,
        0 <= rate,
        0 <= channels,
        0 <= rate * channels * width <= u32::MAX,
        rate <= u32::MAX,
        channels <= u16::MAX,
        0 <= channels * width <= u16::MAX,
        0 <= data,
        36 + data <= u32::MAX,
    ensures
        ({
            let h = header(format, width, rate, channels, data);
            &&& h.len() == 44
            &&& h.subrange(0, 4) == riff_tag()
            &&& number32(h, 4) == h.len() - 8 + data
            &&& h.subrange(8, 12) == wave_tag()
            &&& h.subrange(12, 16) == fmt_tag()
            &&& number32(h, 16) == 16
            &&& number16(h, 20) == format
            &&& number16(h, 22) == channels
            &&& number32(h, 24) == rate
            &&& number32(h, 28) == rate * channels * width
            &&& number16(h, 32) == channels * width
            &&& number16(h, 34) == 8 * width
            &&& h.subrange(36, 40) == data_tag()
            &&& number32(h, 40) == data
        }),
{
    reveal(header);
    let h = header(format, width, rate, channels, data);
    assert(h.subrange(0, 4) =~= riff_tag());
    assert(h.subrange(8, 12) =~= wave_tag());
    assert(h.subrange(12, 16) =~= fmt_tag());
    assert(h.subrange(36, 40) =~= data_tag());
    lemma_number32(h, 4, 36 + data);
    lemma_number32(h, 16, 16);
    lemma_number16(h, 20, format);
    lemma_number16(h, 22, channels);
    lemma_number32(h, 24, rate);
    lemma_number32(h, 28, rate * channels * width);
    lemma_number16(h, 32, channels * width);
    lemma_number16(h, 34, 8 * width);
    lemma_number32(h, 40, data);
}

// ---------------------------------------------------------------------------
//  The samples
// ---------------------------------------------------------------------------

/// A signed sample as a number from 0 on: negative ones are wrapped round.
pub open spec fn wrapped(sample: i16) -> int {
    if sample < 0 {
        sample + 65536
    } else {
        sample as int
    }
}

/// The bytes of the samples, two for each.
pub open spec fn sample_bytes(samples: Seq<i16>) -> Seq<u8>
    decreases samples.len(),
{
    if samples.len() == 0 {
        Seq::empty()
    } else {
        sample_bytes(samples.drop_last()) + le16(wrapped(samples.last()))
    }
}

/// A file of the given samples of 16 bits. The header holds the size of the
/// samples in 32 bits.
pub open spec fn wav_file(rate: int, channels: int, samples: Seq<i16>) -> Seq<u8> {
    pcm_header(rate, channels, ((2 * samples.len()) as u32) as int) + sample_bytes(samples)
}

/// A file of the given samples of 16 bits.
pub fn make_wav_file(sample_rate: u32, channels: u16, samples: &Vec<i16>) -> (file: Vec<u8>)
    requires
        sample_rate * channels * 2 <= u32::MAX,
        channels * 2 <= u16::MAX,
        2 * samples@.len() <= usize::MAX,
        36 + ((2 * samples@.len()) as u32) <= u32::MAX,
    ensures
        file@ == wav_file(sample_rate as int, channels as int, samples@),
{
    let n: usize = samples.len();
    let data_bytes: u32 = (n * 2) as u32;
    let mut file = make_wav_header(sample_rate, channels, data_bytes);
    let ghost head = file@;
    let mut i: usize = 0;
    assert(sample_bytes(samples@.take(0)) =~= Seq::<u8>::empty());
    while i < n
        invariant
            i <= n,
            n == samples@.len(),
            file@ == head + sample_bytes(samples@.take(i as int)),
        decreases n - i,
    {
        let sample: i16 = samples[i];
        let bits: u16 = if sample < 0 {
            (sample as i32 + 65536) as u16
        } else {
            sample as u16
        };
        proof {
            let upto = samples@.take(i + 1);
            assert(upto.drop_last() =~= samples@.take(i as int));
            assert(upto.last() == sample);
        }
        push16(&mut file, bits);
        i += 1;
        assert(file@ =~= head + sample_bytes(samples@.take(i as int)));
    }
    assert(samples@.take(n as int) =~= samples@);
    file
}

/// The samples take two bytes each.
pub proof fn lemma_sample_bytes(samples: Seq<i16>, i: int)
    requires
        0 <= i < samples.len(),
    ensures
        sample_bytes(samples).len() == 2 * samples.len(),
        number16(sample_bytes(samples), 2 * i) == wrapped(samples[i]),
    decreases samples.len(),
{
    let rest = samples.drop_last();
    if rest.len() > 0 {
        lemma_sample_bytes(rest, if i < rest.len() {
            i
        } else {
            0
        });
    }
    assert(sample_bytes(samples) == sample_bytes(rest) + le16(wrapped(samples.last())));
}

/// A file whose size fits its header can be read back: both sizes in the
/// header are right, and each sample stands at its place behind the header.
pub proof fn law_samples_read_back(rate: u32, channels: u16, samples: Seq<i16>, i: int)
    requires
        rate * channels * 2 <= u32::MAX,
        channels * 2 <= u16::MAX,
        36 + 2 * samples.len() <= u32::MAX,
        0 <= i < samples.len(),
    ensures
        ({
            let file = wav_file(rate as int, channels as int, samples);
            &&& file.len() == 44 + 2 * samples.len()
            &&& number32(file, 4) == file.len() - 8
            &&& number32(file, 40) == 2 * samples.len()
            &&& number16(file, 44 + 2 * i) == wrapped(samples[i])
        }),
{
    assert(0 <= rate * channels * 2) by (nonlinear_arith)
        requires
            0 <= rate,
            0 <= channels,
    ;
    law_header_fields(1, 2, rate as int, channels as int, 2 * samples.len() as int);
    lemma_sample_bytes(samples, i);
}

/// Numbers are written with the lowest byte first.
pub proof fn law_little_endian(n: int)
    requires
        0 <= n <= u32::MAX,
    ensures
        n <= u16::MAX ==> le16(n).len() == 2 && le16(n)[0] + 256 * le16(n)[1] == n,
        le32(n).len() == 4,
        le32(n)[0] + 256 * le32(n)[1] + 65536 * le32(n)[2] + 16777216 * le32(n)[3] == n,
{
}

/// What every reader of a WAV file looks for: `RIFF`, `WAVE`, `fmt ` and `data`
/// at their places, the size of what follows the first eight bytes, the size
/// of the format, and how many bytes of samples follow.
pub open spec fn is_wav_header(h: Seq<u8>, data: int) -> bool {
    &&& h.len() == 44
    &&& h.subrange(0, 4) == seq![0x52u8, 0x49, 0x46, 0x46]
    &&& number32(h, 4) == 36 + data
    &&& h.subrange(8, 12) == seq![0x57u8, 0x41, 0x56, 0x45]
    &&& h.subrange(12, 16) == seq![0x66u8, 0x6d, 0x74, 0x20]
    &&& number32(h, 16) == 16
    &&& h.subrange(36, 40) == seq![0x64u8, 0x61, 0x74, 0x61]
    &&& number32(h, 40) == data
}

/// The header of a saved file tells of integers of 16 bits, and of the rate
/// and the channels that it was made for.
pub proof fn law_pcm_header(rate: int, channels: int, data: int)
    requires
        0 <= rate <= u32::MAX,
        0 <= channels,
        2 * channels <= u16::MAX,
        0 <= rate * channels * 2 <= u32::MAX,
        0 <= data,
        36 + data <= u32::MAX,
    ensures
        ({
            let h = pcm_header(rate, channels, data);
            &&& is_wav_header(h, data)
            &&& number16(h, 20) == 1
            &&& number16(h, 22) == channels
            &&& number32(h, 24) == rate
            &&& number32(h, 28) == rate * channels * 2
            &&& number16(h, 32) == 2 * channels
            &&& number16(h, 34) == 16
        }),
{
    law_header_fields(1, 2, rate, channels, data);
}

/// The header of floating-point samples tells of numbers of 32 bits, and of
/// the rate and the channels that it was made for; each sample takes four
/// bytes in each channel.
pub proof fn law_float_header(rate: int, channels: int, samples: int)
    requires
        0 <= rate <= u32::MAX,
        0 <= channels,
        4 * channels <= u16::MAX,
        0 <= rate * channels * 4 <= u32::MAX,
        0 <= samples * channels * 4,
        36 + samples * channels * 4 <= u32::MAX,
    ensures
        ({
            let h = float_header(rate, channels, samples);
            &&& is_wav_header(h, samples * channels * 4)
            &&& number16(h, 20) == 3
            &&& number16(h, 22) == channels
            &&& number32(h, 24) == rate
            &&& number32(h, 28) == rate * channels * 4
            &&& number16(h, 32) == 4 * channels
            &&& number16(h, 34) == 32
        }),
{
    law_header_fields(3, 4, rate, channels, samples * channels * 4);
}

/// The signed number that sixteen bits stand for.
pub open spec fn signed16(n: int) -> int {
    if n >= 32768 {
        n - 65536
    } else {
        n
    }
}

/// A reader of a file finds in its header the rate and the channels, and behind
/// it every sample in order and nothing else.
pub proof fn law_wav_file(rate: int, channels: int, samples: Seq<i16>)
    requires
        0 <= rate <= u32::MAX,
        0 <= channels,
        2 * channels <= u16::MAX,
        0 <= rate * channels * 2 <= u32::MAX,
        36 + ((2 * samples.len()) as u32) <= u32::MAX,
    ensures
        ({
            let file = wav_file(rate, channels, samples);
            &&& file.len() == 44 + 2 * samples.len()
            &&& is_wav_header(file.take(44), ((2 * samples.len()) as u32) as int)
            &&& number16(file, 20) == 1
            &&& number16(file, 22) == channels
            &&& number32(file, 24) == rate
            &&& number32(file, 28) == rate * channels * 2
            &&& number16(file, 32) == 2 * channels
            &&& number16(file, 34) == 16
            &&& forall|i: int|
                0 <= i < samples.len() ==> signed16(number16(file, 44 + 2 * i))
                    == #[trigger] samples[i]
        }),
{
    let data = ((2 * samples.len()) as u32) as int;
    let h = pcm_header(rate, channels, data);
    let file = wav_file(rate, channels, samples);
    law_pcm_header(rate, channels, data);
    assert(file.take(44) =~= h);
    if samples.len() == 0 {
        assert(sample_bytes(samples) =~= Seq::<u8>::empty());
    } else {
        lemma_sample_bytes(samples, 0);
    }
    assert forall|i: int| 0 <= i < samples.len() implies signed16(number16(file, 44 + 2 * i))
        == #[trigger] samples[i] by {
        lemma_sample_bytes(samples, i);
        let bytes = sample_bytes(samples);
        assert(file[44 + 2 * i] == bytes[2 * i] && file[44 + 2 * i + 1] == bytes[2 * i + 1]);
    }
}

} // verus!

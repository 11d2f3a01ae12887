//! The WAV format: 16-bit PCM, encoded by `hound`.

use vstd::prelude::*;

verus! {

/// A 16-bit number in little-endian order, negative ones in two's complement.
pub open spec fn le16(x: int) -> Seq<u8> {
    seq![(x % 256) as u8, (x / 256 % 256) as u8]
}

/// A 32-bit number in little-endian order.
pub open spec fn le32(x: int) -> Seq<u8> {
    le16(x) + le16(x / 65536)
}

/// The head of a WAV file with `size` bytes behind it: `RIFF`, size, `WAVE`.
pub open spec fn riff_head(size: int) -> Seq<u8> {
    seq![82u8, 73u8, 70u8, 70u8] + le32(size) + seq![87u8, 65u8, 86u8, 69u8]
}

/// The format chunk of 16-bit PCM: `fmt `, its size, the PCM tag, channels, rate,
/// bytes per second, bytes per frame, bits per sample.
pub open spec fn format_chunk(channels: int, rate: int) -> Seq<u8> {
    (seq![102u8, 109u8, 116u8, 32u8] + le32(16) + le16(1) + le16(channels) + le32(rate)) + (le32(
        rate * 2 * channels,
    ) + le16(2 * channels) + le16(16))
}

/// The head of a data chunk of `size` bytes: `data`, size.
pub open spec fn data_head(size: int) -> Seq<u8> {
    seq![100u8, 97u8, 116u8, 97u8] + le32(size)
}

/// Samples in little-endian order.
pub open spec fn sample_bytes(samples: Seq<i16>) -> Seq<u8> {
    Seq::new(2 * samples.len(), |i: int| le16(samples[i / 2] as int)[i % 2])
}

/// A 16-bit PCM WAV file.
#[verifier::opaque]
pub open spec fn wav_file(channels: int, rate: int, samples: Seq<i16>) -> Seq<u8> {
    let size = 2 * samples.len() as int;
    riff_head(36 + size) + format_chunk(channels, rate) + data_head(size) + sample_bytes(samples)
}

/// `hound::Error`: why `hound` could not encode.
#[verifier::external_type_specification]
#[verifier::external_body]
pub struct ExHoundError(hound::Error);

/// Encodes samples with `hound::WavWriter` on a buffer in memory: `new`, then
/// `get_i16_writer` with each sample handed to its `write_sample`, its `flush`, and
/// `finalize`.
///
/// Claimed of it: the bytes are those of [`wav_file`]; and the one failure is that
/// of an unfinished frame, when the number of samples is no multiple of the number
/// of channels. A buffer in memory takes every write and every seek. With more than
/// two channels `hound` writes another header, and past the sizes given here its
/// 32-bit counts overflow.
#[verifier::external_body]
pub(crate) fn encode_wav(channels: u16, rate: u32, samples: &Vec<i16>) -> (r: Result<Vec<u8>, hound::Error>)
    requires
        1 <= channels <= 2,
        1 <= rate,
        rate * 2 * channels <= u32::MAX,
        36 + 2 * samples@.len() <= u32::MAX,
    ensures
        r is Ok <==> samples@.len() % channels as nat == 0,
        r matches Ok(bytes) ==> bytes@ == wav_file(channels as int, rate as int, samples@),
{
    let sample_format = hound::SampleFormat::Int;
    let spec = hound::WavSpec { channels, sample_rate: rate, bits_per_sample: 16, sample_format };
    let mut file = std::io::Cursor::new(Vec::new());
    let mut writer = hound::WavWriter::new(&mut file, spec)?;
    let mut block = writer.get_i16_writer(samples.len() as u32);
    for sample in samples {
        block.write_sample(*sample);
    }
    block.flush()?;
    writer.finalize()?;
    Ok(file.into_inner())
}

/// The 16-bit number in little-endian order at `at`.
pub open spec fn read_le16(bytes: Seq<u8>, at: int) -> int {
    let raw = bytes[at] + 256 * bytes[at + 1];
    if raw < 32768 {
        raw
    } else {
        raw - 65536
    }
}

/// The 32-bit number in little-endian order at `at`.
pub open spec fn read_le32(bytes: Seq<u8>, at: int) -> int {
    bytes[at] + 256 * bytes[at + 1] + 65536 * bytes[at + 2] + 16777216 * bytes[at + 3]
}

proof fn lemma_le32_reads_back(bytes: Seq<u8>, at: int, x: int)
    requires
        0 <= at,
        at + 4 <= bytes.len(),
        bytes.subrange(at, at + 4) == le32(x),
        0 <= x <= u32::MAX,
    ensures
        read_le32(bytes, at) == x,
{
    let part = bytes.subrange(at, at + 4);
    assert(part[0] == bytes[at] && part[1] == bytes[at + 1] && part[2] == bytes[at + 2] && part[3]
        == bytes[at + 3]);
}

proof fn lemma_le16_reads_back(bytes: Seq<u8>, at: int, x: int)
    requires
        0 <= at,
        at + 2 <= bytes.len(),
        bytes[at] == le16(x)[0],
        bytes[at + 1] == le16(x)[1],
        -32768 <= x < 32768,
    ensures
        read_le16(bytes, at) == x,
{
}

proof fn lemma_format_chunk(channels: int, rate: int)
    ensures
        format_chunk(channels, rate).len() == 24,
        format_chunk(channels, rate).subrange(10, 12) == le16(channels),
        format_chunk(channels, rate).subrange(12, 16) == le32(rate),
        format_chunk(channels, rate).subrange(22, 24) == le16(16),
{
    let chunk = format_chunk(channels, rate);
    assert(chunk.subrange(10, 12) =~= le16(channels));
    assert(chunk.subrange(12, 16) =~= le32(rate));
    assert(chunk.subrange(22, 24) =~= le16(16));
}

/// Where the parts of a file lie.
proof fn lemma_wav_layout(channels: int, rate: int, samples: Seq<i16>)
    ensures
        ({
            let file = wav_file(channels, rate, samples);
            let size = 2 * samples.len() as int;
            &&& file.len() == 44 + size
            &&& file.subrange(0, 12) == riff_head(36 + size)
            &&& file.subrange(12, 36) == format_chunk(channels, rate)
            &&& file.subrange(36, 44) == data_head(size)
            &&& file.skip(44) == sample_bytes(samples)
        }),
{
    reveal(wav_file);
    let file = wav_file(channels, rate, samples);
    let size = 2 * samples.len() as int;
    lemma_format_chunk(channels, rate);
    assert(riff_head(36 + size).len() == 12 && data_head(size).len() == 8);
    assert(file.subrange(0, 12) =~= riff_head(36 + size));
    assert(file.subrange(12, 36) =~= format_chunk(channels, rate));
    assert(file.subrange(36, 44) =~= data_head(size));
    assert(file.skip(44) =~= sample_bytes(samples));
}

/// The fields of a head, from where its parts lie.
proof fn lemma_head_fields(
    file: Seq<u8>,
    riff: Seq<u8>,
    format: Seq<u8>,
    data: Seq<u8>,
    total: int,
    channels: int,
    rate: int,
    size: int,
)
    requires
        file.len() >= 44,
        file.subrange(0, 12) == riff,
        file.subrange(12, 36) == format,
        file.subrange(36, 44) == data,
        riff.subrange(4, 8) == le32(total),
        format.subrange(10, 12) == le16(channels),
        format.subrange(12, 16) == le32(rate),
        format.subrange(22, 24) == le16(16),
        data.subrange(4, 8) == le32(size),
        0 <= total <= u32::MAX,
        0 <= channels < 32768,
        0 <= rate <= u32::MAX,
        0 <= size <= u32::MAX,
    ensures
        read_le32(file, 4) == total,
        read_le16(file, 22) == channels,
        read_le32(file, 24) == rate,
        read_le16(file, 34) == 16,
        read_le32(file, 40) == size,
{
    assert(read_le32(file, 4) == total) by {
        assert(file.subrange(4, 8) =~= riff.subrange(4, 8));
        lemma_le32_reads_back(file, 4, total);
    }
    assert(read_le32(file, 24) == rate) by {
        assert(file.subrange(24, 28) =~= format.subrange(12, 16));
        lemma_le32_reads_back(file, 24, rate);
    }
    assert(read_le32(file, 40) == size) by {
        assert(file.subrange(40, 44) =~= data.subrange(4, 8));
        lemma_le32_reads_back(file, 40, size);
    }
    assert(read_le16(file, 22) == channels) by {
        let count = format.subrange(10, 12);
        assert(count[0] == file[22] && count[1] == file[23]);
        lemma_le16_reads_back(file, 22, channels);
    }
    assert(read_le16(file, 34) == 16) by {
        let width = format.subrange(22, 24);
        assert(width[0] == file[34] && width[1] == file[35]);
        lemma_le16_reads_back(file, 34, 16);
    }
}

/// Reading the head of an encoded file gives back its format and its size.
pub proof fn wav_head_reads_back(channels: int, rate: int, samples: Seq<i16>)
    requires
        0 <= channels < 32768,
        0 <= rate <= u32::MAX,
        36 + 2 * samples.len() <= u32::MAX,
    ensures
        ({
            let file = wav_file(channels, rate, samples);
            &&& file.len() == 44 + 2 * samples.len()
            &&& read_le32(file, 4) == file.len() - 8
            &&& read_le16(file, 22) == channels
            &&& read_le32(file, 24) == rate
            &&& read_le16(file, 34) == 16
            &&& read_le32(file, 40) == 2 * samples.len()
        }),
{
    let size = 2 * samples.len() as int;
    let riff = riff_head(36 + size);
    let data = data_head(size);
    lemma_wav_layout(channels, rate, samples);
    lemma_format_chunk(channels, rate);
    assert(riff.subrange(4, 8) =~= le32(36 + size));
    assert(data.subrange(4, 8) =~= le32(size));
    lemma_head_fields(
        wav_file(channels, rate, samples),
        riff,
        format_chunk(channels, rate),
        data,
        36 + size,
        channels,
        rate,
        size,
    );
}

/// Reading a sample of an encoded file gives back what was encoded.
pub proof fn wav_sample_reads_back(channels: int, rate: int, samples: Seq<i16>, i: int)
    requires
        0 <= i < samples.len(),
    ensures
        read_le16(wav_file(channels, rate, samples), 44 + 2 * i) == samples[i],
{
    let file = wav_file(channels, rate, samples);
    let tail = sample_bytes(samples);
    let j = 2 * i;
    lemma_wav_layout(channels, rate, samples);
    assert(j / 2 == i && (j + 1) / 2 == i && j % 2 == 0 && (j + 1) % 2 == 1);
    assert(file[44 + j] == file.skip(44)[j] && file[44 + j + 1] == file.skip(44)[j + 1]);
    assert(tail[j] == le16(samples[i] as int)[0] && tail[j + 1] == le16(samples[i] as int)[1]);
    lemma_le16_reads_back(file, 44 + j, samples[i] as int);
}

/// Every byte of the head of a file: `RIFF`, the size behind it, `WAVE`, `fmt `, 16 bytes
/// of format (tag 1, channels, rate, bytes per second, bytes per frame, 16 bits), `data`
/// and the size of the samples; and then two bytes per sample.
pub proof fn wav_head_byte_by_byte(channels: int, rate: int, samples: Seq<i16>)
    requires
        1 <= channels <= 2,
        0 <= rate,
        rate * 2 * channels <= u32::MAX,
        36 + 2 * samples.len() <= u32::MAX,
    ensures
        ({
            let f = wav_file(channels, rate, samples);
            &&& f.len() == 44 + 2 * samples.len()
            &&& f[0] == 82 && f[1] == 73 && f[2] == 70 && f[3] == 70
            &&& read_le32(f, 4) == 36 + 2 * samples.len()
            &&& f[8] == 87 && f[9] == 65 && f[10] == 86 && f[11] == 69
            &&& f[12] == 102 && f[13] == 109 && f[14] == 116 && f[15] == 32
            &&& f[16] == 16 && f[17] == 0 && f[18] == 0 && f[19] == 0
            &&& f[20] == 1 && f[21] == 0
            &&& f[22] == channels && f[23] == 0
            &&& read_le32(f, 24) == rate
            &&& read_le32(f, 28) == rate * 2 * channels
            &&& f[32] == 2 * channels && f[33] == 0
            &&& f[34] == 16 && f[35] == 0
            &&& f[36] == 100 && f[37] == 97 && f[38] == 116 && f[39] == 97
            &&& read_le32(f, 40) == 2 * samples.len()
        }),
{
    let f = wav_file(channels, rate, samples);
    let size = 2 * samples.len() as int;
    assert(rate <= u32::MAX) by (nonlinear_arith)
        requires
            rate * 2 * channels <= u32::MAX,
            1 <= channels,
            0 <= rate,
    ;
    lemma_wav_layout(channels, rate, samples);
    wav_head_reads_back(channels, rate, samples);
    let riff = f.subrange(0, 12);
    let format = f.subrange(12, 36);
    let data = f.subrange(36, 44);
    lemma_riff_bytes(36 + size);
    lemma_format_bytes(channels, rate);
    lemma_data_bytes(size);
    assert(forall|i: int| 0 <= i < 12 ==> f[i] == #[trigger] riff[i]);
    assert(forall|i: int| 0 <= i < 24 ==> #[trigger] format[i] == f[12 + i]);
    assert(forall|i: int| 0 <= i < 8 ==> #[trigger] data[i] == f[36 + i]);
    assert(riff[0] == f[0] && riff[1] == f[1] && riff[2] == f[2] && riff[3] == f[3]);
    assert(riff[8] == f[8] && riff[9] == f[9] && riff[10] == f[10] && riff[11] == f[11]);
    assert(format[0] == f[12] && format[1] == f[13] && format[2] == f[14] && format[3] == f[15]);
    assert(format[4] == f[16] && format[5] == f[17] && format[6] == f[18] && format[7] == f[19]);
    assert(format[8] == f[20] && format[9] == f[21] && format[10] == f[22] && format[11] == f[23]);
    assert(format[20] == f[32] && format[21] == f[33] && format[22] == f[34] && format[23] == f[35]);
    assert(data[0] == f[36] && data[1] == f[37] && data[2] == f[38] && data[3] == f[39]);
    assert(f.subrange(28, 32) =~= format.subrange(16, 20));
    lemma_le32_reads_back(f, 28, rate * 2 * channels);
}

proof fn lemma_riff_bytes(size: int)
    ensures
        ({
            let c = riff_head(size);
            &&& c[0] == 82 && c[1] == 73 && c[2] == 70 && c[3] == 70
            &&& c[8] == 87 && c[9] == 65 && c[10] == 86 && c[11] == 69
        }),
{
}

proof fn lemma_data_bytes(size: int)
    ensures
        ({
            let c = data_head(size);
            c[0] == 100 && c[1] == 97 && c[2] == 116 && c[3] == 97
        }),
{
}

proof fn lemma_format_bytes(channels: int, rate: int)
    requires
        1 <= channels <= 2,
    ensures
        ({
            let c = format_chunk(channels, rate);
            &&& c[0] == 102 && c[1] == 109 && c[2] == 116 && c[3] == 32
            &&& c[4] == 16 && c[5] == 0 && c[6] == 0 && c[7] == 0
            &&& c[8] == 1 && c[9] == 0
            &&& c[10] == channels && c[11] == 0
            &&& c[20] == 2 * channels && c[21] == 0
            &&& c[22] == 16 && c[23] == 0
            &&& c.subrange(16, 20) == le32(rate * 2 * channels)
        }),
{
    let c = format_chunk(channels, rate);
    assert(c.subrange(16, 20) =~= le32(rate * 2 * channels));
}

/// Each sample stands in two bytes, the low one first, and a negative one as its complement
/// to 65536.
pub proof fn wav_samples_byte_by_byte(channels: int, rate: int, samples: Seq<i16>, i: int)
    requires
        0 <= i < samples.len(),
    ensures
        ({
            let f = wav_file(channels, rate, samples);
            f[44 + 2 * i] + 256 * f[45 + 2 * i] == (if samples[i] < 0 {
                samples[i] + 65536
            } else {
                samples[i] as int
            })
        }),
{
    wav_sample_reads_back(channels, rate, samples, i);
}

/// Four bytes in little-endian order are read lowest first.
pub proof fn little_endian_reading(b: Seq<u8>, at: int)
    ensures
        read_le32(b, at) == b[at] + 0x100 * b[at + 1] + 0x1_0000 * b[at + 2] + 0x100_0000 * b[at + 3],
        read_le16(b, at) == b[at] + 0x100 * b[at + 1] || read_le16(b, at) == b[at] + 0x100 * b[at + 1]
            - 0x1_0000,
        -0x8000 <= read_le16(b, at) < 0x8000,
{
}

} // verus!

//! 16-bit PCM WAV framing: the RIFF/WAVE header followed by the samples of
//! all channels, interleaved frame by frame, each little-endian.

use vstd::prelude::*;

verus! {

/// `v` as two little-endian bytes.
pub open spec fn le16(v: u16) -> Seq<u8> {
    seq![(v % 256) as u8, (v / 256) as u8]
}

/// `v` as four little-endian bytes.
pub open spec fn le32(v: u32) -> Seq<u8> {
    seq![(v % 256) as u8, ((v / 256) % 256) as u8, ((v / 65536) % 256) as u8, (v / 16777216) as u8]
}

/// The channel count written to the header for `n` channels: at least one,
/// stored in 16 bits.
pub open spec fn header_channels(n: nat) -> u16 {
    ((if n == 0 {
        1
    } else {
        n
    }) % 65536) as u16
}

/// The longest channel's length.
pub open spec fn max_len(chs: Seq<Seq<i16>>) -> nat
    decreases chs.len(),
{
    if chs.len() == 0 {
        0
    } else {
        let m = max_len(chs.drop_last());
        if chs.last().len() > m {
            chs.last().len()
        } else {
            m
        }
    }
}

/// The 44-byte header for `n_channels` channels of `frames` frames each.
pub open spec fn wav_header(n_channels: nat, frames: nat, sample_rate: u32) -> Seq<u8> {
    let nc = header_channels(n_channels);
    let block_align = nc * 2;
    let data_len = frames * block_align;
    let byte_rate = sample_rate * block_align;
    seq![82u8, 73u8, 70u8, 70u8] + le32((36 + data_len) as u32) + seq![87u8, 65u8, 86u8, 69u8]
        + seq![102u8, 109u8, 116u8, 32u8] + le32(16) + le16(1) + le16(nc) + le32(sample_rate)
        + le32(byte_rate as u32) + le16(block_align as u16) + le16(16) + seq![
        100u8,
        97u8,
        116u8,
        97u8,
    ] + le32(data_len as u32)
}

/// Sample `i` of a channel, silence past its end.
pub open spec fn sample_at(ch: Seq<i16>, i: int) -> i16 {
    if 0 <= i < ch.len() {
        ch[i]
    } else {
        0
    }
}

/// Frame `i`: sample `i` of every channel, in channel order.
pub open spec fn frame_bytes(chs: Seq<Seq<i16>>, i: int) -> Seq<u8>
    decreases chs.len(),
{
    if chs.len() == 0 {
        seq![]
    } else {
        frame_bytes(chs.drop_last(), i) + le16(sample_at(chs.last(), i) as u16)
    }
}

/// The first `frames` frames, in order.
pub open spec fn data_bytes(chs: Seq<Seq<i16>>, frames: nat) -> Seq<u8>
    decreases frames,
{
    if frames == 0 {
        seq![]
    } else {
        data_bytes(chs, (frames - 1) as nat) + frame_bytes(chs, frames - 1)
    }
}

/// The whole file.
pub open spec fn wav_file(chs: Seq<Seq<i16>>, sample_rate: u32) -> Seq<u8> {
    wav_header(chs.len(), max_len(chs), sample_rate) + data_bytes(chs, max_len(chs))
}

proof fn lemma_frame_len(chs: Seq<Seq<i16>>, i: int)
    ensures
        frame_bytes(chs, i).len() == 2 * chs.len(),
    decreases chs.len(),
{
    if chs.len() > 0 {
        lemma_frame_len(chs.drop_last(), i);
    }
}

proof fn lemma_data_len(chs: Seq<Seq<i16>>, frames: nat)
    ensures
        data_bytes(chs, frames).len() == 2 * chs.len() * frames,
    decreases frames,
{
    if frames > 0 {
        let f = (frames - 1) as nat;
        lemma_data_len(chs, f);
        lemma_frame_len(chs, f as int);
        assert(data_bytes(chs, frames) == data_bytes(chs, f) + frame_bytes(chs, f as int));
        let l = chs.len();
        assert(2 * l * f + 2 * l == 2 * l * frames) by (nonlinear_arith)
            requires
                frames == f + 1,
        ;
    } else {
        assert(2 * chs.len() * frames == 0) by (nonlinear_arith)
            requires
                frames == 0,
        ;
    }
}

/// The file is the 44-byte header followed by two bytes per sample of the
/// longest channel's length, for every channel.
pub proof fn lemma_wav_file_len(chs: Seq<Seq<i16>>, sample_rate: u32)
    ensures
        wav_file(chs, sample_rate).len() == 44 + 2 * chs.len() * max_len(chs),
{
    lemma_data_len(chs, max_len(chs));
}

fn push_le16(out: &mut Vec<u8>, v: u16)
    ensures
        final(out)@ == old(out)@ + le16(v),
{
    out.push((v % 256) as u8);
    out.push((v / 256) as u8);
}

fn push_le32(out: &mut Vec<u8>, v: u32)
    ensures
        final(out)@ == old(out)@ + le32(v),
{
    out.push((v % 256) as u8);
    out.push(((v / 256) % 256) as u8);
    out.push(((v / 65536) % 256) as u8);
    out.push((v / 16777216) as u8);
}

fn push_tag(out: &mut Vec<u8>, a: u8, b: u8, c: u8, d: u8)
    ensures
        final(out)@ == old(out)@ + seq![a, b, c, d],
{
    out.push(a);
    out.push(b);
    out.push(c);
    out.push(d);
}

fn truncate_u32(x: u64) -> (r: u32)
    ensures
        r == x as u32,
{
    #[verifier::truncate]
    (x as u32)
}

/// Encode planar 16-bit channels as a PCM WAV file: the RIFF header, then
/// frame after frame, each holding one sample of every channel (silence past
/// a channel's end), all little-endian.
pub fn encode_wav_pcm16(channels: &Vec<Vec<i16>>, sample_rate: u32) -> (bytes: Vec<u8>)
    requires
        44 + 2 * channels@.len() * max_len(channels@.map_values(|c: Vec<i16>| c@)) <= usize::MAX,
    ensures
        bytes@ == wav_file(channels@.map_values(|c: Vec<i16>| c@), sample_rate),
{
    let ghost chs = channels@.map_values(|c: Vec<i16>| c@);
    let nch = channels.len();
    let num_ch: u16 = if nch == 0 {
        1
    } else {
        (nch % 65536) as u16
    };
    assert(num_ch == header_channels(nch as nat));

    // The longest channel.
    let mut frames: usize = 0;
    let mut c: usize = 0;
    while c < nch
        invariant
            nch == channels@.len(),
            chs == channels@.map_values(|c: Vec<i16>| c@),
            0 <= c <= nch,
            frames == max_len(chs.subrange(0, c as int)),
        decreases nch - c,
    {
        assert(chs.subrange(0, c + 1).drop_last() =~= chs.subrange(0, c as int));
        if channels[c].len() > frames {
            frames = channels[c].len();
        }
        c += 1;
    }
    assert(chs.subrange(0, nch as int) =~= chs);
    assert(frames == max_len(chs));

    let block_align: usize = num_ch as usize * 2;
    assert(frames * block_align <= 2 * nch * frames) by (nonlinear_arith)
        requires
            nch == 0 ==> frames == 0,
            nch > 0 ==> num_ch <= nch,
            block_align == num_ch * 2,
    ;
    assert(2 * nch * frames == 2 * channels@.len() * max_len(chs));
    let data_len: usize = frames * block_align;
    assert(sample_rate as u64 * block_align as u64 <= u64::MAX) by (nonlinear_arith)
        requires
            block_align <= 131070,
    ;
    let byte_rate: u32 = truncate_u32(sample_rate as u64 * block_align as u64);

    let mut w: Vec<u8> = Vec::with_capacity(44 + data_len);
    push_tag(&mut w, 82, 73, 70, 70);  // "RIFF"
    push_le32(&mut w, truncate_u32((36 + data_len) as u64));
    push_tag(&mut w, 87, 65, 86, 69);  // "WAVE"
    push_tag(&mut w, 102, 109, 116, 32);  // "fmt "
    push_le32(&mut w, 16);  // PCM fmt chunk size
    push_le16(&mut w, 1);  // PCM
    push_le16(&mut w, num_ch);
    push_le32(&mut w, sample_rate);
    push_le32(&mut w, byte_rate);
    push_le16(&mut w, #[verifier::truncate] (block_align as u16));
    push_le16(&mut w, 16);  // bits per sample
    push_tag(&mut w, 100, 97, 116, 97);  // "data"
    push_le32(&mut w, truncate_u32(data_len as u64));
    let ghost header = w@;
    assert(header =~= wav_header(chs.len(), frames as nat, sample_rate));

    let mut i: usize = 0;
    while i < frames
        invariant
            nch == channels@.len(),
            chs == channels@.map_values(|c: Vec<i16>| c@),
            frames == max_len(chs),
            0 <= i <= frames,
            w@ == header + data_bytes(chs, i as nat),
        decreases frames - i,
    {
        let ghost before = w@;
        let mut c: usize = 0;
        while c < nch
            invariant
                nch == channels@.len(),
                chs == channels@.map_values(|c: Vec<i16>| c@),
                0 <= c <= nch,
                0 <= i < frames,
                w@ == before + frame_bytes(chs.subrange(0, c as int), i as int),
            decreases nch - c,
        {
            let ch = &channels[c];
            let s: i16 = if i < ch.len() {
                ch[i]
            } else {
                0
            };
            proof {
                assert(chs.subrange(0, c + 1).drop_last() =~= chs.subrange(0, c as int));
                assert(chs.subrange(0, c + 1).last() == ch@);
            }
            push_le16(&mut w, #[verifier::truncate] (s as u16));
            assert(w@ =~= before + frame_bytes(chs.subrange(0, c + 1), i as int));
            c += 1;
        }
        assert(chs.subrange(0, nch as int) =~= chs);
        assert(w@ =~= header + data_bytes(chs, (i + 1) as nat));
        i += 1;
    }
    w
}

} // verus!

//! A track as FLAC: samples gathered into blocks, blocks encoded into frames, and
//! the totals written into the head of the file at the end.

use flacenc::bitsink::ByteSink;
use flacenc::component::BitRepr;
use flacenc::component::StreamInfo;
use flacenc::config::Encoder;
use flacenc::error::Verify;
use flacenc::source::Context;
use flacenc::source::Fill;
use flacenc::source::FrameBuf;
use vstd::prelude::*;
use vstd::string::StringExecFns;

use crate::bytes::ascii;
use crate::bytes::be16;
use crate::bytes::be24;
use crate::bytes::be64;
use crate::bytes::push_ascii;
use crate::bytes::push_be16;
use crate::bytes::push_be24;
use crate::bytes::push_be64;
use crate::bytes::push_bytes;
use crate::single::Single;

verus! {

/// Frames in a block.
pub const BLOCK_FRAMES: usize = 4096;

/// Where in the file the totals stand: behind the magic and a block header.
pub const STREAMINFO_OFFSET: u64 = 8;

/// Why a track could not be encoded.
#[derive(Debug)]
pub enum FlacError {
    TooManyChannels,
    Encode(String),
}

impl FlacError {
    /// What the error says.
    pub open spec fn says(&self) -> Seq<char> {
        "flac encode: "@ + match *self {
            FlacError::TooManyChannels => "too many channels"@,
            FlacError::Encode(text) => text@,
        }
    }

    /// What the error says.
    pub fn to_string(&self) -> (text: String)
        ensures
            text@ == self.says(),
    {
        let mut text: String = "flac encode: ".to_owned();
        match self {
            FlacError::TooManyChannels => text.append("too many channels"),
            FlacError::Encode(reason) => text.append(reason.as_str()),
        }
        text
    }
}

/// The totals in the head of a file.
pub ghost struct Totals {
    pub min_block: u16,
    pub max_block: u16,
    pub min_frame: u32,
    pub max_frame: u32,
    pub sample_rate: int,
    pub channels: int,
    pub bits: int,
    pub total: int,
    pub digest: Seq<u8>,
}

/// The rate in 20 bits, the channels less one in 3, the depth less one in 5, and
/// the number of frames in 36.
pub open spec fn packed(totals: Totals) -> u64 {
    (totals.sample_rate * 0x1000_0000_0000 + (totals.channels - 1) * 0x200_0000_0000 + (totals.bits
        - 1) * 0x10_0000_0000 + totals.total % 0x10_0000_0000) as u64
}

/// The totals as bytes.
pub open spec fn info_bytes(totals: Totals) -> Seq<u8> {
    be16(totals.min_block) + be16(totals.max_block) + be24(totals.min_frame) + be24(
        totals.max_frame,
    ) + be64(packed(totals)) + totals.digest
}

/// The totals of a file in which nothing was written.
pub open spec fn no_totals(sample_rate: int, channels: int, bits: int) -> Totals {
    Totals {
        min_block: u16::MAX,
        max_block: 0,
        min_frame: u32::MAX,
        max_frame: 0,
        sample_rate,
        channels,
        bits,
        total: 0,
        digest: Seq::new(16, |i: int| 0u8),
    }
}

/// Whether a stream can be encoded.
pub open spec fn can_encode(sample_rate: int, channels: int) -> bool {
    sample_rate <= 96_000 && 1 <= channels <= 8
}

/// `flacenc::component::StreamInfo::new` refuses rates above 96 kHz, more than
/// eight channels and none; its `write` puts the fields of a fresh stream into 34
/// bytes. Why it refused is not said.
#[verifier::external_body]
fn fresh_info(sample_rate: u32, channels: u8, bits: u8) -> (info: Result<Vec<u8>, String>)
    requires
        bits == 16 || bits == 24,
    ensures
        match info {
            Ok(bytes) => can_encode(sample_rate as int, channels as int) && bytes@ == info_bytes(
                no_totals(sample_rate as int, channels as int, bits as int),
            ),
            Err(_) => !can_encode(sample_rate as int, channels as int),
        },
{
    let info = StreamInfo::new(sample_rate as usize, channels as usize, bits as usize).map_err(|e| format!("{e:?}"))?;
    let mut sink = ByteSink::new();
    info.write(&mut sink).map_err(|e| format!("{e:?}"))?;
    Ok(sink.into_inner())
}

/// Whether samples lie in the range of a depth.
pub open spec fn in_depth(samples: Seq<i32>, bits: int) -> bool {
    let full: int = if bits == 16 {
        0x8000
    } else {
        0x80_0000
    };
    forall|i: int| 0 <= i < samples.len() ==> -full <= #[trigger] samples[i] < full
}

/// The whole frames at the head of a block.
pub open spec fn whole(block: Seq<i32>, channels: int) -> Seq<i32> {
    block.take(block.len() as int - block.len() as int % channels)
}

/// Whether a block can be encoded as the frame of a number.
pub open spec fn frame_fits(number: int, samples: Seq<i32>, bits: int) -> bool {
    number < 0x8000_0000 && in_depth(samples, bits)
}

/// What the bytes of a frame decode to, in a stream of so many channels and bits:
/// its number and its samples.
pub uninterp spec fn frame_says(frame: Seq<u8>, channels: u8, bits: u8) -> (int, Seq<i32>);

/// `flacenc::encode_fixed_size_frame` encodes the whole frames of a block as the
/// frame of a number. It refuses numbers of more than 31 bits and samples out of
/// range, and nothing else. The codec is lossless: the frame decodes to its number
/// and to the samples. Which bytes it chooses is not said: they rest on
/// floating-point analysis, which may come out differently from machine to machine.
/// Nor is the reason of a refusal. At most a block of frames, and at least one
/// frame, may be handed to it.
#[verifier::external_body]
fn encode_block(stream: (u32, u8, u8), number: usize, block: &Vec<i32>) -> (frame: Result<
    Vec<u8>,
    String,
>)
    requires
        can_encode(stream.0 as int, stream.1 as int),
        stream.2 == 16 || stream.2 == 24,
        stream.1 <= block@.len() <= BLOCK_FRAMES * stream.1,
    ensures
        frame is Ok <==> frame_fits(
            number as int,
            whole(block@, stream.1 as int),
            stream.2 as int,
        ),
        frame matches Ok(bytes) ==> frame_says(bytes@, stream.1, stream.2) == (
            number as int,
            whole(block@, stream.1 as int),
        ),
{
    let encode = || -> Result<Vec<u8>, Box<dyn std::error::Error>> {
        let info = StreamInfo::new(stream.0 as usize, stream.1 as usize, stream.2 as usize)?;
        let config = Encoder::default().into_verified().map_err(|e| e.1)?;
        let mut samples = FrameBuf::with_size(stream.1 as usize, BLOCK_FRAMES)?;
        samples.fill_interleaved(block)?;
        let mut sink = ByteSink::new();
        flacenc::encode_fixed_size_frame(&config, &samples, number, &info)?.write(&mut sink)?;
        Ok(sink.into_inner())
    };
    encode().map_err(|e| format!("{e:?}"))
}

/// The running digest of `flacenc`.
#[verifier::external_type_specification]
#[verifier::external_body]
pub struct ExContext(Context);

/// The samples that went into a digest.
pub uninterp spec fn digested(context: Context) -> Seq<i32>;

/// The bytes that each sample counts for.
pub uninterp spec fn sample_width(context: Context) -> nat;

/// The MD5 digest of samples, each as so many little-endian bytes.
pub uninterp spec fn md5_of(samples: Seq<i32>, width: nat) -> Seq<u8>;

/// `flacenc::source::Context::new` starts a digest of samples of a depth. Depths
/// above 32 bits make it panic.
#[verifier::external_body]
fn new_context(bits: u8, channels: u8) -> (context: Context)
    requires
        bits <= 32,
        channels > 0,
    ensures
        digested(context) == Seq::<i32>::empty(),
        sample_width(context) == (bits as nat + 7) / 8,
{
    Context::new(bits as usize, channels as usize)
}

/// `flacenc::source::Context::fill_interleaved` takes samples into the digest,
/// and never fails.
#[verifier::external_body]
fn digest_more(context: &mut Context, block: &Vec<i32>)
    ensures
        digested(*final(context)) == digested(*old(context)) + block@,
        sample_width(*final(context)) == sample_width(*old(context)),
{
    let _ = context.fill_interleaved(block);
}

/// `flacenc::source::Context::md5_digest`: the digest of what was taken in. It
/// depends on the samples and their width alone.
#[verifier::external_body]
fn digest_of(context: &Context) -> (digest: Vec<u8>)
    ensures
        digest@ == md5_of(digested(*context), sample_width(*context)),
{
    context.md5_digest().to_vec()
}

/// One track being encoded.
pub struct FlacTrackEncoder {
    pub context: Context,
    /// Samples of the block that is not full yet.
    pub pending: Vec<i32>,
    pub channels: u8,
    pub sample_rate: u32,
    pub bits: u8,
    pub frame_number: usize,
    pub min_frame: u32,
    pub max_frame: u32,
    pub total: u64,
    pub given: Ghost<Seq<i32>>,
    pub frames: Ghost<Seq<Seq<u8>>>,
}

/// What the first `n` frames of a stream decode to, one behind the other.
pub open spec fn stream_says(frames: Seq<Seq<u8>>, channels: u8, bits: u8, n: int) -> Seq<i32>
    decreases n,
{
    if n <= 0 {
        Seq::empty()
    } else {
        stream_says(frames, channels, bits, n - 1) + frame_says(frames[n - 1], channels, bits).1
    }
}

/// Whether the frames of a stream are numbered through from the first.
pub open spec fn numbered_through(frames: Seq<Seq<u8>>, channels: u8, bits: u8) -> bool {
    forall|i: int|
        0 <= i < frames.len() ==> frame_says(#[trigger] frames[i], channels, bits).0 == i
}

proof fn lemma_stream_prefix(
    frames: Seq<Seq<u8>>,
    more: Seq<u8>,
    channels: u8,
    bits: u8,
    n: int,
)
    requires
        0 <= n <= frames.len(),
    ensures
        stream_says(frames.push(more), channels, bits, n) == stream_says(frames, channels, bits, n),
    decreases n,
{
    if n > 0 {
        lemma_stream_prefix(frames, more, channels, bits, n - 1);
    }
}

/// The smaller and the larger length after one frame more.
pub open spec fn sizes_after(min: u32, max: u32, length: nat) -> (u32, u32) {
    let size = (length % 0x1_0000_0000) as u32;
    (
        if size < min {
            size
        } else {
            min
        },
        if size > max {
            size
        } else {
            max
        },
    )
}

impl FlacTrackEncoder {
    /// Every sample that the encoder was given, in order.
    pub open spec fn given(&self) -> Seq<i32> {
        self.given@
    }

    /// Every frame that the encoder gave out, in order.
    pub open spec fn frames(&self) -> Seq<Seq<u8>> {
        self.frames@
    }

    /// What the frames decode to, one behind the other.
    pub open spec fn says(&self) -> Seq<i32> {
        stream_says(self.frames(), self.channels, self.bits, self.frames().len() as int)
    }

    /// Every sample is in the digest, and in the frames, or waits in the open block,
    /// which is not full. The frames are numbered through.
    pub open spec fn wf(&self) -> bool {
        &&& can_encode(self.sample_rate as int, self.channels as int)
        &&& self.bits == 16 || self.bits == 24
        &&& sample_width(self.context) == self.bits as nat / 8
        &&& self.given() == digested(self.context) + self.pending@
        &&& self.pending@.len() < BLOCK_FRAMES * self.channels
        &&& self.says() == digested(self.context)
        &&& numbered_through(self.frames(), self.channels, self.bits)
        &&& self.frames().len() == self.frame_number
    }

    /// An encoder, and what its file starts with.
    pub fn create(channels: u16, sample_rate: u32, bits: u8) -> (made: Result<
        (FlacTrackEncoder, Vec<u8>),
        FlacError,
    >)
        requires
            bits == 16 || bits == 24,
        ensures
            match made {
                Ok((encoder, head)) => can_encode(sample_rate as int, channels as int)
                    && encoder.wf() && encoder.given() == Seq::<i32>::empty() && encoder.frames()
                    == Seq::<Seq<u8>>::empty() && encoder.channels
                    == channels && encoder.sample_rate == sample_rate && encoder.bits == bits
                    && encoder.frame_number == 0 && encoder.min_frame == u32::MAX
                    && encoder.max_frame == 0 && encoder.total == 0 && head@ == ascii("fLaC"@)
                    + seq![0x80u8, 0, 0, 34] + info_bytes(
                    no_totals(sample_rate as int, channels as int, bits as int),
                ),
                Err(e) => !can_encode(sample_rate as int, channels as int) && (e is TooManyChannels
                    <==> channels > 255),
            },
    {
        if channels > 255 {
            return Err(FlacError::TooManyChannels);
        }
        let width: u8 = channels as u8;
        let info: Vec<u8> = match fresh_info(sample_rate, width, bits) {
            Ok(info) => info,
            Err(reason) => {
                return Err(FlacError::Encode(reason));
            },
        };
        let mut head: Vec<u8> = Vec::new();
        push_ascii(&mut head, "fLaC");
        head.push(0x80);
        head.push(0);
        head.push(0);
        head.push(34);
        push_bytes(&mut head, &info);
        assert(head@ =~= ascii("fLaC"@) + seq![0x80u8, 0, 0, 34] + info@);
        let encoder: FlacTrackEncoder = FlacTrackEncoder {
            context: new_context(bits, width),
            pending: Vec::new(),
            channels: width,
            sample_rate,
            bits,
            frame_number: 0,
            min_frame: 0xFFFF_FFFF,
            max_frame: 0,
            total: 0,
            given: Ghost(Seq::empty()),
            frames: Ghost(Seq::empty()),
        };
        assert(encoder.given() =~= digested(encoder.context) + encoder.pending@);
        Ok((encoder, head))
    }

    /// Takes a sample in; the encoded frame where it fills a block. After an
    /// error the encoder is of no more use.
    pub fn write_sample(&mut self, sample: i32) -> (frame: Result<Option<Vec<u8>>, FlacError>)
        requires
            old(self).wf(),
            old(self).frame_number < usize::MAX,
            old(self).total <= u64::MAX - BLOCK_FRAMES,
        ensures
            final(self).channels == old(self).channels,
            final(self).sample_rate == old(self).sample_rate,
            final(self).bits == old(self).bits,
            final(self).given() == old(self).given().push(sample),
            ({
                let full = old(self).pending@.len() + 1 == BLOCK_FRAMES * old(self).channels;
                let block = old(self).pending@.push(sample);
                let fits = frame_fits(old(self).frame_number as int, block, old(self).bits as int);
                match frame {
                    Ok(Some(bytes)) => full && fits && frame_says(
                        bytes@,
                        old(self).channels,
                        old(self).bits,
                    ) == (old(self).frame_number as int, block) && final(self).frames() == old(
                        self,
                    ).frames().push(bytes@) && final(self).wf() && final(self).pending@
                        == Seq::<i32>::empty() && final(self).frame_number == old(
                        self,
                    ).frame_number + 1 && final(self).total == old(self).total + BLOCK_FRAMES && (
                    final(self).min_frame, final(self).max_frame) == sizes_after(
                        old(self).min_frame,
                        old(self).max_frame,
                        bytes@.len(),
                    ),
                    Ok(None) => !full && final(self).wf() && final(self).pending@ == old(
                        self,
                    ).pending@.push(sample) && final(self).frames() == old(self).frames()
                        && final(self).frame_number == old(self).frame_number
                        && final(self).total == old(self).total && final(self).min_frame == old(
                        self,
                    ).min_frame && final(self).max_frame == old(self).max_frame,
                    Err(_) => full && !fits,
                }
            }),
    {
        let ghost before = *self;
        self.pending.push(sample);
        proof {
            self.given@ = before.given().push(sample);
            assert(self.given() =~= digested(self.context) + self.pending@);
        }
        if self.pending.len() == BLOCK_FRAMES * self.channels as usize {
            proof {
                let n = before.channels as int;
                assert(BLOCK_FRAMES * n / n == BLOCK_FRAMES && BLOCK_FRAMES * n % n == 0)
                    by (nonlinear_arith)
                    requires
                        n > 0,
                ;
                assert(whole(self.pending@, n) =~= before.pending@.push(sample));
            }
            match self.encode_pending() {
                Ok(bytes) => Ok(Some(bytes)),
                Err(e) => Err(e),
            }
        } else {
            Ok(None)
        }
    }

    /// Encodes what is pending, which is at least one frame and at most a block.
    fn encode_pending(&mut self) -> (frame: Result<Vec<u8>, FlacError>)
        requires
            can_encode(old(self).sample_rate as int, old(self).channels as int),
            old(self).bits == 16 || old(self).bits == 24,
            sample_width(old(self).context) == old(self).bits as nat / 8,
            old(self).given() == digested(old(self).context) + old(self).pending@,
            old(self).channels <= old(self).pending@.len() <= BLOCK_FRAMES * old(self).channels,
            old(self).frame_number < usize::MAX,
            old(self).total <= u64::MAX - BLOCK_FRAMES,
            old(self).says() == digested(old(self).context),
            numbered_through(old(self).frames(), old(self).channels, old(self).bits),
            old(self).frames().len() == old(self).frame_number,
        ensures
            final(self).channels == old(self).channels,
            final(self).sample_rate == old(self).sample_rate,
            final(self).bits == old(self).bits,
            final(self).given() == old(self).given(),
            ({
                let samples = whole(old(self).pending@, old(self).channels as int);
                &&& frame is Ok <==> frame_fits(
                    old(self).frame_number as int,
                    samples,
                    old(self).bits as int,
                )
                &&& frame matches Ok(bytes) ==> frame_says(
                    bytes@,
                    old(self).channels,
                    old(self).bits,
                ) == (old(self).frame_number as int, samples) && final(self).frames() == old(
                    self,
                ).frames().push(bytes@)
            }),
            digested(final(self).context) == old(self).given(),
            sample_width(final(self).context) == sample_width(old(self).context),
            frame matches Ok(bytes) ==> old(self).pending@.len() as int
                % old(self).channels as int == 0 ==> final(self).wf(),
            frame matches Ok(bytes) ==> final(self).pending@ == Seq::<
                i32,
            >::empty() && final(self).frame_number == old(self).frame_number + 1
                && final(self).total == old(self).total + old(self).pending@.len() as int
                / old(self).channels as int && (final(self).min_frame, final(self).max_frame)
                == sizes_after(old(self).min_frame, old(self).max_frame, bytes@.len()),
    {
        let ghost before = *self;
        digest_more(&mut self.context, &self.pending);
        let stream: (u32, u8, u8) = (self.sample_rate, self.channels, self.bits);
        match encode_block(stream, self.frame_number, &self.pending) {
            Ok(bytes) => {
                let length: u64 = bytes.len() as u64;
                let size: u32 = (length % 0x1_0000_0000) as u32;
                if size < self.min_frame {
                    self.min_frame = size;
                }
                if size > self.max_frame {
                    self.max_frame = size;
                }
                let frames: usize = self.pending.len() / self.channels as usize;
                proof {
                    let n = before.channels as int;
                    let p = before.pending@.len() as int;
                    assert(p / n <= BLOCK_FRAMES) by (nonlinear_arith)
                        requires
                            n > 0,
                            p <= BLOCK_FRAMES * n,
                    ;
                }
                self.total = self.total + frames as u64;
                self.frame_number = self.frame_number + 1;
                self.pending = Vec::new();
                proof {
                    self.frames@ = before.frames().push(bytes@);
                    lemma_stream_prefix(
                        before.frames(),
                        bytes@,
                        before.channels,
                        before.bits,
                        before.frames().len() as int,
                    );
                    if before.pending@.len() as int % before.channels as int == 0 {
                        assert(whole(before.pending@, before.channels as int) =~= before.pending@);
                    }
                }
                assert(self.given() =~= digested(self.context) + self.pending@);
                Ok(bytes)
            },
            Err(reason) => Err(FlacError::Encode(reason)),
        }
    }

    /// The last frame, where samples are pending, and the totals to put into the
    /// head of the file. The stream is declared as one of equal blocks, so that
    /// its frames can be found by number; the shorter last one does not count.
    pub fn finalize(self) -> (ended: Result<(Option<Vec<u8>>, Vec<u8>), FlacError>)
        requires
            self.wf(),
            self.pending@.len() == 0 || self.pending@.len() >= self.channels,
            self.frame_number < usize::MAX,
            self.total <= u64::MAX - BLOCK_FRAMES,
        ensures
            match ended {
                Ok((tail, info)) => (tail is Some <==> self.pending@.len() > 0) && (
                tail matches Some(bytes) ==> frame_says(bytes@, self.channels, self.bits) == (
                    self.frame_number as int,
                    whole(self.pending@, self.channels as int),
                )) && info@ == info_bytes(
                    Totals {
                        min_block: BLOCK_FRAMES as u16,
                        max_block: BLOCK_FRAMES as u16,
                        min_frame: match tail {
                            Some(bytes) => sizes_after(
                                self.min_frame,
                                self.max_frame,
                                bytes@.len(),
                            ).0,
                            None => self.min_frame,
                        },
                        max_frame: match tail {
                            Some(bytes) => sizes_after(
                                self.min_frame,
                                self.max_frame,
                                bytes@.len(),
                            ).1,
                            None => self.max_frame,
                        },
                        sample_rate: self.sample_rate as int,
                        channels: self.channels as int,
                        bits: self.bits as int,
                        total: self.total + self.pending@.len() as int / self.channels as int,
                        digest: md5_of(self.given(), self.bits as nat / 8),
                    },
                ),
                Err(_) => self.pending@.len() > 0,
            },
            self.pending@.len() > 0 ==> (ended is Ok <==> frame_fits(
                self.frame_number as int,
                whole(self.pending@, self.channels as int),
                self.bits as int,
            )),
    {
        let mut encoder: FlacTrackEncoder = self;
        let tail: Option<Vec<u8>> = if encoder.pending.len() > 0 {
            match encoder.encode_pending() {
                Ok(bytes) => Some(bytes),
                Err(e) => {
                    return Err(e);
                },
            }
        } else {
            proof {
                let n = self.channels as int;
                assert(0int / n == 0) by (nonlinear_arith)
                    requires
                        n > 0,
                ;
            }
            None
        };
        assert(encoder.given() =~= digested(encoder.context));
        let digest: Vec<u8> = digest_of(&encoder.context);
        let mut info: Vec<u8> = Vec::new();
        push_be16(&mut info, BLOCK_FRAMES as u16);
        push_be16(&mut info, BLOCK_FRAMES as u16);
        push_be24(&mut info, encoder.min_frame);
        push_be24(&mut info, encoder.max_frame);
        let rate: u64 = encoder.sample_rate as u64;
        let channels: u64 = encoder.channels as u64;
        let bits: u64 = encoder.bits as u64;
        push_be64(
            &mut info,
            rate * 0x1000_0000_0000 + (channels - 1) * 0x200_0000_0000 + (bits - 1)
                * 0x10_0000_0000 + encoder.total % 0x10_0000_0000,
        );
        push_bytes(&mut info, &digest);
        assert(info@ =~= be16(BLOCK_FRAMES as u16) + be16(BLOCK_FRAMES as u16) + be24(
            encoder.min_frame,
        ) + be24(encoder.max_frame) + be64(
            (rate * 0x1000_0000_0000 + (channels - 1) * 0x200_0000_0000 + (bits - 1)
                * 0x10_0000_0000 + encoder.total as int % 0x10_0000_0000) as u64,
        ) + digest@);
        Ok((tail, info))
    }
}

/// The frames of a file: those of the full blocks, then the shorter last one.
pub open spec fn with_tail(frames: Seq<Seq<u8>>, tail: Option<Seq<u8>>) -> Seq<Seq<u8>> {
    match tail {
        Some(frame) => frames.push(frame),
        None => frames,
    }
}

/// A track reads back: once its encoder is finalized, the frames of its file are
/// numbered through and decode to every sample that the encoder was given, as long
/// as those are whole frames.
pub proof fn a_track_reads_back(encoder: FlacTrackEncoder, tail: Option<Seq<u8>>)
    requires
        encoder.wf(),
        encoder.pending@.len() as int % encoder.channels as int == 0,
        tail is Some <==> encoder.pending@.len() > 0,
        tail matches Some(frame) ==> frame_says(frame, encoder.channels, encoder.bits) == (
            encoder.frame_number as int,
            whole(encoder.pending@, encoder.channels as int),
        ),
    ensures
        ({
            let all = with_tail(encoder.frames(), tail);
            &&& stream_says(all, encoder.channels, encoder.bits, all.len() as int)
                == encoder.given()
            &&& numbered_through(all, encoder.channels, encoder.bits)
        }),
{
    match tail {
        Some(frame) => {
            lemma_stream_prefix(
                encoder.frames(),
                frame,
                encoder.channels,
                encoder.bits,
                encoder.frames().len() as int,
            );
            assert(whole(encoder.pending@, encoder.channels as int) =~= encoder.pending@);
        },
        None => {
            assert(encoder.given() =~= encoder.says());
        },
    }
}

/// What a FLAC file says of itself.
#[derive(Debug, Clone, Copy, PartialEq, Eq, Structural)]
pub struct FlacInfo {
    pub frames: u64,
    pub channels: u16,
    pub sample_rate: u32,
    pub bits: u16,
}

/// Samples to drop after a seek that landed in front of its target.
pub fn samples_to_skip(target: u64, landed: i64, channels: u16) -> (skip: u128)
    ensures
        ({
            let at = if landed > 0 {
                landed as int
            } else {
                0
            };
            skip == if target > at {
                (target - at) * channels
            } else {
                0
            }
        }),
{
    let at: u64 = if landed > 0 {
        landed as u64
    } else {
        0
    };
    if target > at {
        let short: u128 = (target - at) as u128;
        let wide: u128 = channels as u128;
        assert(short * wide <= 0xFFFF_FFFF_FFFF_FFFF * 0xFFFF) by (nonlinear_arith)
            requires
                short <= 0xFFFF_FFFF_FFFF_FFFF,
                wide <= 0xFFFF,
        ;
        short * wide
    } else {
        0
    }
}

/// Decoded samples on their way out. Those in front of the place that was asked
/// for are dropped.
pub struct SampleFeed {
    buf: Vec<Single>,
    pos: usize,
    skip: u128,
    first: Ghost<int>,
    loaded: Ghost<Seq<Single>>,
    given: Ghost<Seq<Single>>,
}

impl SampleFeed {
    /// Everything that was decoded, in order.
    pub closed spec fn loaded(&self) -> Seq<Single> {
        self.loaded@
    }

    /// Everything that was given out, in order.
    pub closed spec fn given(&self) -> Seq<Single> {
        self.given@
    }

    /// How many samples are dropped first.
    pub closed spec fn first(&self) -> int {
        self.first@
    }

    /// Whether everything that was decoded was dropped or given out.
    pub closed spec fn drained(&self) -> bool {
        self.pos == self.buf@.len()
    }

    spec fn used(&self) -> int {
        self.loaded@.len() - (self.buf@.len() - self.pos)
    }

    /// What was given out is what was decoded behind the samples to drop.
    pub closed spec fn wf(&self) -> bool {
        &&& 0 <= self.first@
        &&& self.pos <= self.buf@.len() <= self.loaded@.len()
        &&& self.buf@ == self.loaded@.skip(self.loaded@.len() - self.buf@.len())
        &&& if self.used() <= self.first@ {
            self.skip == self.first@ - self.used() && self.given@.len() == 0
        } else {
            self.skip == 0 && self.given@ == self.loaded@.subrange(
                self.first@,
                self.used(),
            )
        }
    }

    /// A feed that drops so many samples first.
    pub fn new(skip: u128) -> (feed: SampleFeed)
        ensures
            feed.wf(),
            feed.drained(),
            feed.loaded() == Seq::<Single>::empty(),
            feed.given() == Seq::<Single>::empty(),
            feed.first() == skip,
    {
        let feed = SampleFeed {
            buf: Vec::new(),
            pos: 0,
            skip,
            first: Ghost(skip as int),
            loaded: Ghost(Seq::empty()),
            given: Ghost(Seq::empty()),
        };
        assert(feed.buf@ =~= feed.loaded@.skip(0));
        feed
    }

    /// The next sample, if one is left.
    pub fn next(&mut self) -> (sample: Option<Single>)
        requires
            old(self).wf(),
        ensures
            final(self).wf(),
            final(self).loaded() == old(self).loaded(),
            final(self).first() == old(self).first(),
            sample is Some <==> old(self).first() + old(self).given().len() < old(
                self,
            ).loaded().len(),
            match sample {
                Some(sample) => {
                    &&& sample == old(self).loaded()[old(self).first() + old(self).given().len()]
                    &&& final(self).given() == old(self).given().push(sample)
                },
                None => final(self).given() == old(self).given() && final(self).drained(),
            },
    {
        let ghost before = *self;
        while self.pos < self.buf.len()
            invariant
                before == *old(self),
                self.wf(),
                before.wf(),
                self.loaded@ == before.loaded@,
                self.first@ == before.first@,
                self.given@ == before.given@,
            decreases self.buf@.len() - self.pos,
        {
            let sample: Single = self.buf[self.pos];
            assert(sample == self.loaded@[self.used()]);
            self.pos = self.pos + 1;
            if self.skip == 0 {
                proof {
                    self.given@ = self.given@.push(sample);
                    let first = self.first@;
                    assert(self.given@ =~= self.loaded@.subrange(first, self.used()));
                }
                return Some(sample);
            }
            self.skip = self.skip - 1;
            assert(self.given@ =~= self.loaded@.subrange(self.used(), self.used()));
        }
        None
    }

    /// Takes up what was decoded next.
    pub fn load(&mut self, samples: Vec<Single>)
        requires
            old(self).wf(),
            old(self).drained(),
        ensures
            final(self).wf(),
            final(self).loaded() == old(self).loaded() + samples@,
            final(self).given() == old(self).given(),
            final(self).first() == old(self).first(),
    {
        let ghost before = *self;
        proof {
            self.loaded@ = self.loaded@ + samples@;
        }
        self.buf = samples;
        self.pos = 0;
        proof {
            assert(self.buf@ =~= self.loaded@.skip(self.loaded@.len() - self.buf@.len()));
            assert(self.used() == before.used());
            if self.used() > self.first@ {
                assert(self.given@ =~= self.loaded@.subrange(self.first@, self.used()));
            }
        }
    }
}

/// What a feed gave out stands in what was decoded, right behind the samples that
/// were dropped.
pub proof fn a_feed_gives_what_was_decoded(feed: SampleFeed)
    requires
        feed.wf(),
    ensures
        feed.given().len() > 0 ==> feed.given() == feed.loaded().subrange(
            feed.first(),
            feed.first() + feed.given().len(),
        ),
{
}

} // verus!

//! A minimal but valid SoundFont, built in memory: one preset that plays one
//! looped sine across the whole keyboard.

use vstd::prelude::*;

use crate::bytes::ascii;
use crate::bytes::le16;
use crate::bytes::le32;
use crate::bytes::push_ascii;
use crate::bytes::push_bytes;
use crate::bytes::push_le16;
use crate::bytes::push_le32;
use crate::bytes::push_zeros;
use crate::bytes::zeros;

verus! {

/// Samples in one turn of the sine: 750 Hz at 48 kHz.
pub const PERIOD: usize = 64;

/// Samples of the sine, a whole number of turns.
pub const SAMPLE_FRAMES: usize = 1024;

/// Silent samples behind the sine.
pub const GUARD_FRAMES: usize = 46;

/// One turn of a sine at half scale, in two's complement.
pub const SINE_TURN: [u16; 64] = [
    0x0000, 0x0645, 0x0C7C, 0x1293, 0x187D, 0x1E2B, 0x238E, 0x2899,
    0x2D40, 0x3178, 0x3536, 0x3870, 0x3B20, 0x3D3E, 0x3EC4, 0x3FB0,
    0x3FFF, 0x3FB0, 0x3EC4, 0x3D3E, 0x3B20, 0x3870, 0x3536, 0x3178,
    0x2D40, 0x2899, 0x238E, 0x1E2B, 0x187D, 0x1293, 0x0C7C, 0x0645,
    0x0000, 0xF9BB, 0xF384, 0xED6D, 0xE783, 0xE1D5, 0xDC72, 0xD767,
    0xD2C0, 0xCE88, 0xCACA, 0xC790, 0xC4E0, 0xC2C2, 0xC13C, 0xC050,
    0xC001, 0xC050, 0xC13C, 0xC2C2, 0xC4E0, 0xC790, 0xCACA, 0xCE88,
    0xD2C0, 0xD767, 0xDC72, 0xE1D5, 0xE783, 0xED6D, 0xF384, 0xF9BB,
];

/// A chunk: its four letters, its size and its payload.
pub open spec fn chunk(id: Seq<char>, payload: Seq<u8>) -> Seq<u8> {
    ascii(id) + le32(payload.len() as u32) + payload
}

/// A chunk that holds a form and what belongs to it.
pub open spec fn list(form: Seq<char>, payload: Seq<u8>) -> Seq<u8> {
    chunk("LIST"@, ascii(form) + payload)
}

/// A name in a field of twenty bytes.
pub open spec fn name20(name: Seq<char>) -> Seq<u8> {
    ascii(name) + zeros((20 - name.len()) as nat)
}

/// Two numbers that make up one entry of a list.
pub open spec fn pair(a: u16, b: u16) -> Seq<u8> {
    le16(a) + le16(b)
}

/// The first `n` samples of the sine.
pub open spec fn sine_bytes(n: int) -> Seq<u8>
    decreases n,
{
    if n <= 0 {
        Seq::empty()
    } else {
        sine_bytes(n - 1) + le16(SINE_TURN@[(n - 1) % (PERIOD as int)])
    }
}

/// Version, engine and name of the bank.
#[verifier::opaque]
pub open spec fn info_bytes() -> Seq<u8> {
    chunk("ifil"@, seq![2u8, 0, 1, 0]) + chunk("isng"@, ascii("EMU8000"@) + zeros(1)) + chunk(
        "INAM"@,
        ascii("Tributary test"@) + zeros(2),
    )
}

/// The samples and the guard.
#[verifier::opaque]
pub open spec fn sample_bytes() -> Seq<u8> {
    chunk("smpl"@, sine_bytes(SAMPLE_FRAMES as int) + zeros((GUARD_FRAMES * 2) as nat))
}

/// One preset header: name, program and bank 0, its first bag, and twelve bytes
/// that nobody reads.
pub open spec fn preset_header(name: Seq<char>, bag: u16) -> Seq<u8> {
    name20(name) + le16(0) + le16(0) + le16(bag) + zeros(12)
}

/// The presets.
pub open spec fn phdr_bytes() -> Seq<u8> {
    preset_header("Sine"@, 0) + preset_header("EOP"@, 1)
}

/// The instruments.
pub open spec fn inst_bytes() -> Seq<u8> {
    name20("Sine"@) + le16(0) + name20("EOI"@) + le16(1)
}

/// The sample headers: the sine loops from its start to its end, at 48 kHz and
/// key 78.
pub open spec fn shdr_bytes() -> Seq<u8> {
    name20("Sine"@) + le32(0) + le32(SAMPLE_FRAMES as u32) + le32(0) + le32(SAMPLE_FRAMES as u32)
        + le32(48_000) + seq![78u8, 0] + le16(0) + le16(1) + name20("EOS"@) + zeros(26)
}

/// Everything about presets, instruments and samples. Every list has one
/// record and a terminator.
#[verifier::opaque]
pub open spec fn articulation_bytes() -> Seq<u8> {
    chunk("phdr"@, phdr_bytes()) + chunk("pbag"@, pair(0, 0) + pair(1, 0)) + chunk(
        "pmod"@,
        zeros(10),
    ) + chunk("pgen"@, pair(41, 0) + pair(0, 0)) + chunk("inst"@, inst_bytes()) + chunk(
        "ibag"@,
        pair(0, 0) + pair(2, 0),
    ) + chunk("imod"@, zeros(10)) + chunk("igen"@, pair(54, 1) + pair(53, 0) + pair(0, 0)) + chunk(
        "shdr"@,
        shdr_bytes(),
    )
}

/// The whole file.
pub open spec fn soundfont_bytes() -> Seq<u8> {
    chunk(
        "RIFF"@,
        ascii("sfbk"@) + list("INFO"@, info_bytes()) + list("sdta"@, sample_bytes()) + list(
            "pdta"@,
            articulation_bytes(),
        ),
    )
}

fn push_chunk(out: &mut Vec<u8>, id: &str, payload: &Vec<u8>)
    requires
        payload@.len() <= u32::MAX,
    ensures
        final(out)@ == old(out)@ + chunk(id@, payload@),
{
    let ghost before = out@;
    push_ascii(out, id);
    push_le32(out, payload.len() as u32);
    push_bytes(out, payload);
    assert(out@ =~= before + chunk(id@, payload@));
}

fn push_list(out: &mut Vec<u8>, form: &str, payload: &Vec<u8>)
    requires
        form@.len() + payload@.len() <= u32::MAX,
    ensures
        final(out)@ == old(out)@ + list(form@, payload@),
{
    let mut inner: Vec<u8> = Vec::new();
    push_ascii(&mut inner, form);
    push_bytes(&mut inner, payload);
    assert(inner@ =~= ascii(form@) + payload@);
    push_chunk(out, "LIST", &inner);
}

fn push_name20(out: &mut Vec<u8>, name: &str, length: usize)
    requires
        name@.len() == length <= 20,
    ensures
        final(out)@ == old(out)@ + name20(name@),
{
    let ghost before = out@;
    push_ascii(out, name);
    push_zeros(out, 20 - length);
    assert(out@ =~= before + name20(name@));
}

fn push_pair(out: &mut Vec<u8>, a: u16, b: u16)
    ensures
        final(out)@ == old(out)@ + pair(a, b),
{
    let ghost before = out@;
    push_le16(out, a);
    push_le16(out, b);
    assert(out@ =~= before + pair(a, b));
}

fn info() -> (out: Vec<u8>)
    ensures
        out@ == info_bytes(),
        out@.len() == 52,
{
    reveal(info_bytes);
    let mut out: Vec<u8> = Vec::new();
    let mut version: Vec<u8> = Vec::new();
    version.push(2);
    version.push(0);
    version.push(1);
    version.push(0);
    assert(version@ =~= seq![2u8, 0, 1, 0]);
    let mut engine: Vec<u8> = Vec::new();
    push_ascii(&mut engine, "EMU8000");
    push_zeros(&mut engine, 1);
    let mut name: Vec<u8> = Vec::new();
    push_ascii(&mut name, "Tributary test");
    push_zeros(&mut name, 2);
    proof {
        reveal_strlit("EMU8000");
        reveal_strlit("Tributary test");
        reveal_strlit("ifil");
        reveal_strlit("isng");
        reveal_strlit("INAM");
        assert(engine@ =~= ascii("EMU8000"@) + zeros(1));
        assert(name@ =~= ascii("Tributary test"@) + zeros(2));
    }
    push_chunk(&mut out, "ifil", &version);
    push_chunk(&mut out, "isng", &engine);
    push_chunk(&mut out, "INAM", &name);
    assert(out@ =~= info_bytes());
    out
}

fn samples() -> (out: Vec<u8>)
    ensures
        out@ == sample_bytes(),
        out@.len() == 8 + 2 * (SAMPLE_FRAMES + GUARD_FRAMES),
{
    reveal(sample_bytes);
    let mut wave: Vec<u8> = Vec::new();
    let mut frame: usize = 0;
    while frame < SAMPLE_FRAMES
        invariant
            frame <= SAMPLE_FRAMES,
            wave@ == sine_bytes(frame as int),
            wave@.len() == 2 * frame,
        decreases SAMPLE_FRAMES - frame,
    {
        push_le16(&mut wave, SINE_TURN[frame % PERIOD]);
        frame = frame + 1;
    }
    push_zeros(&mut wave, GUARD_FRAMES * 2);
    let mut out: Vec<u8> = Vec::new();
    push_chunk(&mut out, "smpl", &wave);
    proof {
        reveal_strlit("smpl");
        assert(out@ =~= sample_bytes());
    }
    out
}

fn push_preset_header(out: &mut Vec<u8>, name: &str, length: usize, bag: u16)
    requires
        name@.len() == length <= 20,
    ensures
        final(out)@ == old(out)@ + preset_header(name@, bag),
        final(out)@.len() == old(out)@.len() + 38,
{
    let ghost before = out@;
    push_name20(out, name, length);
    push_le16(out, 0);
    push_le16(out, 0);
    push_le16(out, bag);
    push_zeros(out, 12);
    assert(out@ =~= before + preset_header(name@, bag));
}

fn presets() -> (out: Vec<u8>)
    ensures
        out@ == phdr_bytes(),
        out@.len() == 76,
{
    proof {
        reveal_strlit("Sine");
        reveal_strlit("EOP");
    }
    let mut out: Vec<u8> = Vec::new();
    push_preset_header(&mut out, "Sine", 4, 0);
    push_preset_header(&mut out, "EOP", 3, 1);
    assert(out@ =~= phdr_bytes());
    out
}

fn instruments() -> (out: Vec<u8>)
    ensures
        out@ == inst_bytes(),
        out@.len() == 44,
{
    proof {
        reveal_strlit("Sine");
        reveal_strlit("EOI");
    }
    let mut out: Vec<u8> = Vec::new();
    push_name20(&mut out, "Sine", 4);
    push_le16(&mut out, 0);
    push_name20(&mut out, "EOI", 3);
    push_le16(&mut out, 1);
    assert(out@ =~= inst_bytes());
    out
}

fn sample_headers() -> (out: Vec<u8>)
    ensures
        out@ == shdr_bytes(),
        out@.len() == 92,
{
    proof {
        reveal_strlit("Sine");
        reveal_strlit("EOS");
    }
    let end: u32 = SAMPLE_FRAMES as u32;
    let mut out: Vec<u8> = Vec::new();
    push_name20(&mut out, "Sine", 4);
    push_le32(&mut out, 0);
    push_le32(&mut out, end);
    push_le32(&mut out, 0);
    push_le32(&mut out, end);
    push_le32(&mut out, 48_000);
    out.push(78);
    out.push(0);
    push_le16(&mut out, 0);
    push_le16(&mut out, 1);
    push_name20(&mut out, "EOS", 3);
    push_zeros(&mut out, 26);
    assert(out@ =~= shdr_bytes());
    out
}

fn articulation() -> (out: Vec<u8>)
    ensures
        out@ == articulation_bytes(),
        out@.len() <= 1000,
{
    reveal(articulation_bytes);
    let mut pbag: Vec<u8> = Vec::new();
    push_pair(&mut pbag, 0, 0);
    push_pair(&mut pbag, 1, 0);
    let mut modulators: Vec<u8> = Vec::new();
    push_zeros(&mut modulators, 10);
    let mut pgen: Vec<u8> = Vec::new();
    push_pair(&mut pgen, 41, 0);
    push_pair(&mut pgen, 0, 0);
    let mut ibag: Vec<u8> = Vec::new();
    push_pair(&mut ibag, 0, 0);
    push_pair(&mut ibag, 2, 0);
    let mut igen: Vec<u8> = Vec::new();
    push_pair(&mut igen, 54, 1);
    push_pair(&mut igen, 53, 0);
    push_pair(&mut igen, 0, 0);
    proof {
        assert(pbag@ =~= pair(0, 0) + pair(1, 0));
        assert(modulators@ =~= zeros(10));
        assert(pgen@ =~= pair(41, 0) + pair(0, 0));
        assert(ibag@ =~= pair(0, 0) + pair(2, 0));
        assert(igen@ =~= pair(54, 1) + pair(53, 0) + pair(0, 0));
        reveal_strlit("phdr");
        reveal_strlit("pbag");
        reveal_strlit("pmod");
        reveal_strlit("pgen");
        reveal_strlit("inst");
        reveal_strlit("ibag");
        reveal_strlit("imod");
        reveal_strlit("igen");
        reveal_strlit("shdr");
    }
    let mut out: Vec<u8> = Vec::new();
    push_chunk(&mut out, "phdr", &presets());
    push_chunk(&mut out, "pbag", &pbag);
    push_chunk(&mut out, "pmod", &modulators);
    push_chunk(&mut out, "pgen", &pgen);
    push_chunk(&mut out, "inst", &instruments());
    push_chunk(&mut out, "ibag", &ibag);
    push_chunk(&mut out, "imod", &modulators);
    push_chunk(&mut out, "igen", &igen);
    push_chunk(&mut out, "shdr", &sample_headers());
    assert(out@ =~= articulation_bytes());
    out
}

/// One preset, "Sine", on bank 0 and program 0.
pub fn sine_soundfont() -> (file: Vec<u8>)
    ensures
        file@ == soundfont_bytes(),
{
    proof {
        reveal_strlit("sfbk");
        reveal_strlit("LIST");
        reveal_strlit("INFO");
        reveal_strlit("sdta");
        reveal_strlit("pdta");
    }
    let mut body: Vec<u8> = Vec::new();
    push_ascii(&mut body, "sfbk");
    push_list(&mut body, "INFO", &info());
    push_list(&mut body, "sdta", &samples());
    push_list(&mut body, "pdta", &articulation());
    let mut file: Vec<u8> = Vec::new();
    assert(body@ =~= ascii("sfbk"@) + list("INFO"@, info_bytes()) + list("sdta"@, sample_bytes())
        + list("pdta"@, articulation_bytes()));
    push_chunk(&mut file, "RIFF", &body);
    assert(file@ =~= soundfont_bytes());
    file
}

/// The tone is the turn of a sine, sixteen bits a frame, over and over again.
pub proof fn the_tone_repeats(n: int, k: int)
    requires
        0 <= k < n,
    ensures
        sine_bytes(n).len() == 2 * n,
        sine_bytes(n).subrange(2 * k, 2 * k + 2) == le16(SINE_TURN@[k % 64]),
    decreases n,
{
    if n == 1 {
        assert(sine_bytes(0).len() == 0);
    } else if k < n - 1 {
        the_tone_repeats(n - 1, k);
        assert(sine_bytes(n).subrange(2 * k, 2 * k + 2) =~= sine_bytes(n - 1).subrange(
            2 * k,
            2 * k + 2,
        ));
    } else {
        the_tone_repeats(n - 1, 0);
    }
    if k == n - 1 {
        assert(sine_bytes(n).subrange(2 * k, 2 * k + 2) =~= le16(SINE_TURN@[k % 64]));
    }
}

} // verus!

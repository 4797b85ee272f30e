//! Cloud speech-to-text over the OpenAI-audio multipart shape
//! (`/audio/transcriptions` with `file`, `model`, `language`, `prompt`): the
//! request plan, the WAV container for the upload, and the messages for each
//! way the upload can fail. The upload itself, and the decision whether it
//! is allowed, are the caller's.
use vstd::prelude::*;
use vstd::string::StringExecFns;
use crate::llm::MIN_TIMEOUT_SECS;
use crate::stt_profiles::SttProfile;
use crate::strs::{
    from_chars, slice_to_vec, str_eq, to_chars, trim, trim_bounds, trim_end_class, trim_str,
    CharClass,
};

verus! {

/// Sample rate of the audio the transcriber takes, in Hz.
pub const WHISPER_SAMPLE_RATE: u32 = 16000;

/// Bytes of the WAV header before the samples.
pub const WAV_HEADER_LEN: usize = 44;

/// What to send for one cloud transcription: a multipart form with the WAV
/// file, the model, `response_format=json`, and the language and prompt
/// where there are any.
#[derive(Debug, Clone, PartialEq, Eq)]
pub struct CloudSttPlan {
    pub url: String,
    pub model: String,
    pub language: Option<String>,
    pub prompt: Option<String>,
    pub timeout_secs: u64,
    /// Bearer token, where the profile has a key.
    pub bearer: Option<String>,
}

pub open spec fn cloud_url_spec(base_url: Seq<char>) -> Seq<char> {
    trim_end_class(base_url, CharClass::Slash) + "/audio/transcriptions"@
}

pub open spec fn cloud_plan_ok(
    p: SttProfile,
    language: Seq<char>,
    prompt: Option<Seq<char>>,
    r: CloudSttPlan,
) -> bool {
    &&& r.url@ == cloud_url_spec(p.base_url@)
    &&& r.model@ == p.model@
    &&& (language == "auto"@ <==> r.language is None)
    &&& (r.language matches Some(l) ==> l@ == language)
    &&& (prompt is None <==> r.prompt is None)
    &&& (r.prompt matches Some(q) ==> prompt == Some(q@))
    &&& r.timeout_secs == (if p.timeout_secs < MIN_TIMEOUT_SECS {
        MIN_TIMEOUT_SECS
    } else {
        p.timeout_secs
    })
    &&& (trim(p.api_key@).len() == 0 <==> r.bearer is None)
    &&& (r.bearer matches Some(k) ==> k@ == trim(p.api_key@))
}

/// Plans the upload for a profile. The base URL already carries its path
/// (`/v1`, `/openai/v1`); `/audio/transcriptions` is appended after its
/// trailing slashes. The language is sent unless it is "auto"; the timeout
/// is never under five seconds; a non-blank key is sent trimmed as bearer
/// token.
pub fn plan_cloud_transcription(profile: &SttProfile, language: &str, prompt: Option<&str>) -> (r:
    CloudSttPlan)
    ensures
        cloud_plan_ok(
            *profile,
            language@,
            match prompt {
                Some(q) => Some(q@),
                None => None,
            },
            r,
        ),
{
    let v = to_chars(profile.base_url.as_str());
    let (_lo, hi) = trim_bounds(v.as_slice(), CharClass::Slash);
    let mut u = slice_to_vec(v.as_slice(), 0, hi);
    assert(u@ =~= trim_end_class(profile.base_url@, CharClass::Slash));
    let mut url = from_chars(u.as_slice());
    url.append("/audio/transcriptions");
    let lang = if str_eq(language, "auto") {
        None
    } else {
        Some(String::from_str(language))
    };
    let p = match prompt {
        Some(q) => Some(String::from_str(q)),
        None => None,
    };
    let key = trim_str(profile.api_key.as_str());
    let bearer = if key.as_str().is_empty() {
        None
    } else {
        Some(key)
    };
    let timeout_secs = if profile.timeout_secs < MIN_TIMEOUT_SECS {
        MIN_TIMEOUT_SECS
    } else {
        profile.timeout_secs
    };
    CloudSttPlan {
        url,
        model: profile.model.clone(),
        language: lang,
        prompt: p,
        timeout_secs,
        bearer,
    }
}

/// Why a cloud transcription failed, as the caller observed it.
#[derive(Debug, Clone, PartialEq, Eq)]
pub enum CloudSttFailure {
    /// The multipart body could not be built, by its message.
    Upload(String),
    /// The request did not complete, by its message.
    Request(String),
    /// A non-success status, by its status line.
    Status(String),
    /// The body was not a transcription, by the parser's message.
    Response(String),
}

pub open spec fn cloud_failure_message_spec(f: CloudSttFailure) -> Seq<char> {
    match f {
        CloudSttFailure::Upload(e) => "could not build the audio upload: "@ + e@,
        CloudSttFailure::Request(e) => "cloud transcription request failed: "@ + e@,
        CloudSttFailure::Status(s) => "cloud transcription failed ("@ + s@ + ")"@,
        CloudSttFailure::Response(e) => "cloud transcription response was invalid: "@ + e@,
    }
}

/// The message the user reads for a failed cloud transcription.
pub fn cloud_failure_message(f: &CloudSttFailure) -> (r: String)
    ensures
        r@ == cloud_failure_message_spec(*f),
{
    match f {
        CloudSttFailure::Upload(e) => {
            let mut s = String::from_str("could not build the audio upload: ");
            s.append(e.as_str());
            s
        },
        CloudSttFailure::Request(e) => {
            let mut s = String::from_str("cloud transcription request failed: ");
            s.append(e.as_str());
            s
        },
        CloudSttFailure::Status(st) => {
            let mut s = String::from_str("cloud transcription failed (");
            s.append(st.as_str());
            s.append(")");
            s
        },
        CloudSttFailure::Response(e) => {
            let mut s = String::from_str("cloud transcription response was invalid: ");
            s.append(e.as_str());
            s
        },
    }
}

/// The transcript of a successful response: its text, trimmed.
pub fn cloud_transcript(text: &str) -> (r: String)
    ensures
        r@ == trim(text@),
{
    trim_str(text)
}

/// The little-endian bytes of a 16-bit value.
pub open spec fn le16(x: nat) -> Seq<u8> {
    seq![(x % 256) as u8, ((x / 256) % 256) as u8]
}

/// The little-endian bytes of a 32-bit value.
pub open spec fn le32(x: nat) -> Seq<u8> {
    seq![
        (x % 256) as u8,
        ((x / 256) % 256) as u8,
        ((x / 65536) % 256) as u8,
        ((x / 16777216) % 256) as u8,
    ]
}

/// The header of a 16-bit PCM mono WAV at the transcriber's sample rate,
/// for `sample_count` samples.
pub open spec fn wav_header_spec(sample_count: nat) -> Seq<u8> {
    let data_size = sample_count * 2;
    "RIFF"@.map_values(|c: char| c as u8) + le32(36 + data_size) + "WAVE"@.map_values(
        |c: char| c as u8,
    ) + "fmt "@.map_values(|c: char| c as u8) + le32(16) + le16(1) + le16(1) + le32(
        WHISPER_SAMPLE_RATE as nat,
    ) + le32(WHISPER_SAMPLE_RATE as nat * 2) + le16(2) + le16(16) + "data"@.map_values(
        |c: char| c as u8,
    ) + le32(data_size)
}

/// The little-endian 16-bit value at byte `i`.
pub open spec fn u16_at(h: Seq<u8>, i: int) -> int {
    h[i] + 256 * h[i + 1]
}

/// The little-endian 32-bit value at byte `i`.
pub open spec fn u32_at(h: Seq<u8>, i: int) -> int {
    h[i] + 256 * h[i + 1] + 65536 * h[i + 2] + 16777216 * h[i + 3]
}

/// The four ASCII bytes of a chunk tag.
pub open spec fn tag_bytes(a: char, b: char, c: char, d: char) -> Seq<u8> {
    seq![a as u8, b as u8, c as u8, d as u8]
}

proof fn lemma_le16_reads_back(x: nat)
    requires
        x < 65536,
    ensures
        le16(x).len() == 2,
        le16(x)[0] + 256 * le16(x)[1] == x,
{
    let b0 = x % 256;
    let b1 = (x / 256) % 256;
    assert(x == b0 + 256 * b1) by (nonlinear_arith)
        requires
            x < 65536,
            b0 == x % 256,
            b1 == (x / 256) % 256,
    ;
}

proof fn lemma_le32_reads_back(x: nat)
    requires
        x < 0x1_0000_0000,
    ensures
        le32(x).len() == 4,
        le32(x)[0] + 256 * le32(x)[1] + 65536 * le32(x)[2] + 16777216 * le32(x)[3] == x,
{
    let b0 = x % 256;
    let b1 = (x / 256) % 256;
    let b2 = (x / 65536) % 256;
    let b3 = (x / 16777216) % 256;
    assert(x == b0 + 256 * b1 + 65536 * b2 + 16777216 * b3) by (nonlinear_arith)
        requires
            x < 0x1_0000_0000,
            b0 == x % 256,
            b1 == (x / 256) % 256,
            b2 == (x / 65536) % 256,
            b3 == (x / 16777216) % 256,
    ;
}

/// The header describes what the upload holds, read back field by field:
/// `RIFF`/`WAVE` framing whose size counts the rest of the file, a 16-byte
/// PCM `fmt ` chunk for one channel of 16-bit samples at 16 kHz, whose byte
/// rate and block size agree with those three, and a `data` chunk of
/// exactly the samples' bytes.
pub proof fn law_wav_header_describes_mono_pcm(sample_count: nat)
    requires
        36 + sample_count * 2 <= u32::MAX,
    ensures
        ({
            let h = wav_header_spec(sample_count);
            let channels = u16_at(h, 22);
            let rate = u32_at(h, 24);
            let bits = u16_at(h, 34);
            &&& h.len() == 44
            &&& h.subrange(0, 4) == tag_bytes('R', 'I', 'F', 'F')
            &&& h.subrange(8, 12) == tag_bytes('W', 'A', 'V', 'E')
            &&& h.subrange(12, 16) == tag_bytes('f', 'm', 't', ' ')
            &&& h.subrange(36, 40) == tag_bytes('d', 'a', 't', 'a')
            &&& u32_at(h, 16) == 16
            &&& u16_at(h, 20) == 1
            &&& channels == 1
            &&& rate == 16000
            &&& bits == 16
            &&& u32_at(h, 28) == rate * channels * bits / 8
            &&& u16_at(h, 32) == channels * bits / 8
            &&& u32_at(h, 40) == sample_count * channels * bits / 8
            &&& u32_at(h, 4) == 36 + u32_at(h, 40)
        }),
{
    reveal_strlit("RIFF");
    reveal_strlit("WAVE");
    reveal_strlit("fmt ");
    reveal_strlit("data");
    let n = sample_count;
    let ds = n * 2;
    lemma_le32_reads_back(36 + ds);
    lemma_le32_reads_back(16);
    lemma_le16_reads_back(1);
    lemma_le16_reads_back(2);
    lemma_le16_reads_back(16);
    lemma_le32_reads_back(16000);
    lemma_le32_reads_back(32000);
    lemma_le32_reads_back(ds);
    let riff = "RIFF"@.map_values(|c: char| c as u8);
    let wave = "WAVE"@.map_values(|c: char| c as u8);
    let fmt = "fmt "@.map_values(|c: char| c as u8);
    let data = "data"@.map_values(|c: char| c as u8);
    let h = wav_header_spec(n);
    assert(h =~= riff + le32(36 + ds) + wave + fmt + le32(16) + le16(1) + le16(1) + le32(16000)
        + le32(32000) + le16(2) + le16(16) + data + le32(ds));
    assert(riff =~= tag_bytes('R', 'I', 'F', 'F'));
    assert(wave =~= tag_bytes('W', 'A', 'V', 'E'));
    assert(fmt =~= tag_bytes('f', 'm', 't', ' '));
    assert(data =~= tag_bytes('d', 'a', 't', 'a'));
    assert(h.subrange(0, 4) =~= riff);
    assert(h.subrange(8, 12) =~= wave);
    assert(h.subrange(12, 16) =~= fmt);
    assert(h.subrange(36, 40) =~= data);
    assert(h[4] == le32(36 + ds)[0] && h[5] == le32(36 + ds)[1] && h[6] == le32(36 + ds)[2] && h[7]
        == le32(36 + ds)[3]);
    assert(h[16] == le32(16)[0] && h[17] == le32(16)[1] && h[18] == le32(16)[2] && h[19] == le32(
        16,
    )[3]);
    assert(h[20] == le16(1)[0] && h[21] == le16(1)[1]);
    assert(h[22] == le16(1)[0] && h[23] == le16(1)[1]);
    assert(h[24] == le32(16000)[0] && h[25] == le32(16000)[1] && h[26] == le32(16000)[2] && h[27]
        == le32(16000)[3]);
    assert(h[28] == le32(32000)[0] && h[29] == le32(32000)[1] && h[30] == le32(32000)[2] && h[31]
        == le32(32000)[3]);
    assert(h[32] == le16(2)[0] && h[33] == le16(2)[1]);
    assert(h[34] == le16(16)[0] && h[35] == le16(16)[1]);
    assert(h[40] == le32(ds)[0] && h[41] == le32(ds)[1] && h[42] == le32(ds)[2] && h[43] == le32(
        ds,
    )[3]);
}

fn push_le16(out: &mut Vec<u8>, x: u32)
    requires
        x < 65536,
    ensures
        final(out)@ == old(out)@ + le16(x as nat),
{
    out.push((x % 256) as u8);
    out.push(((x / 256) % 256) as u8);
    assert(final(out)@ =~= old(out)@ + le16(x as nat));
}

fn push_le32(out: &mut Vec<u8>, x: u32)
    ensures
        final(out)@ == old(out)@ + le32(x as nat),
{
    out.push((x % 256) as u8);
    out.push(((x / 256) % 256) as u8);
    out.push(((x / 65536) % 256) as u8);
    out.push(((x / 16777216) % 256) as u8);
    assert(final(out)@ =~= old(out)@ + le32(x as nat));
}

fn push_tag(out: &mut Vec<u8>, a: u8, b: u8, c: u8, d: u8)
    ensures
        final(out)@ == old(out)@ + seq![a, b, c, d],
{
    out.push(a);
    out.push(b);
    out.push(c);
    out.push(d);
    assert(final(out)@ =~= old(out)@ + seq![a, b, c, d]);
}

/// The WAV header for an upload of `sample_count` samples; the caller
/// appends each sample as a little-endian 16-bit value.
pub fn wav_header(sample_count: usize) -> (r: Vec<u8>)
    requires
        36 + sample_count * 2 <= u32::MAX,
    ensures
        r@ == wav_header_spec(sample_count as nat),
        r@.len() == WAV_HEADER_LEN,
{
    let data_size: u32 = (sample_count * 2) as u32;
    let mut out: Vec<u8> = Vec::new();
    push_tag(&mut out, 82, 73, 70, 70);
    push_le32(&mut out, 36 + data_size);
    push_tag(&mut out, 87, 65, 86, 69);
    push_tag(&mut out, 102, 109, 116, 32);
    push_le32(&mut out, 16);
    push_le16(&mut out, 1);
    push_le16(&mut out, 1);
    push_le32(&mut out, WHISPER_SAMPLE_RATE);
    push_le32(&mut out, WHISPER_SAMPLE_RATE * 2);
    push_le16(&mut out, 2);
    push_le16(&mut out, 16);
    push_tag(&mut out, 100, 97, 116, 97);
    push_le32(&mut out, data_size);
    proof {
        reveal_strlit("RIFF");
        reveal_strlit("WAVE");
        reveal_strlit("fmt ");
        reveal_strlit("data");
        assert("RIFF"@.map_values(|c: char| c as u8) =~= seq![82u8, 73u8, 70u8, 70u8]);
        assert("WAVE"@.map_values(|c: char| c as u8) =~= seq![87u8, 65u8, 86u8, 69u8]);
        assert("fmt "@.map_values(|c: char| c as u8) =~= seq![102u8, 109u8, 116u8, 32u8]);
        assert("data"@.map_values(|c: char| c as u8) =~= seq![100u8, 97u8, 116u8, 97u8]);
        assert(out@ =~= wav_header_spec(sample_count as nat));
    }
    out
}

} // verus!

//! Audio captchas: the container format picks the file suffix handed to the
//! speech-to-text tool, and the transcript is reduced to its letters and digits.
use vstd::prelude::*;

use crate::solver::{is_transcribe_outcome, SolveError, SolveStep};
use crate::strings::{chars_of, spec_trim, string_of, trim};

verus! {

/// Suffix for the audio file, judged from its first bytes: a RIFF header is WAV,
/// an MPEG frame sync (`FF`, then the top three bits set) is MP3, `OggS` is Ogg,
/// and anything else is taken for WAV.
pub open spec fn spec_detect_format(b: Seq<u8>) -> Seq<char> {
    if b.len() >= 4 && b[0] == 0x52u8 && b[1] == 0x49u8 && b[2] == 0x46u8 && b[3] == 0x46u8 {
        ".wav"@
    } else if b.len() > 2 && b[0] == 0xFFu8 && (b[1] & 0xE0u8) == 0xE0u8 {
        ".mp3"@
    } else if b.len() >= 4 && b[0] == 0x4Fu8 && b[1] == 0x67u8 && b[2] == 0x67u8 && b[3] == 0x53u8 {
        ".ogg"@
    } else {
        ".wav"@
    }
}

/// File suffix for audio `bytes`: ".wav", ".mp3" or ".ogg".
pub fn detect_format(bytes: &[u8]) -> (r: &'static str)
    ensures
        r@ == spec_detect_format(bytes@),
{
    if bytes.len() >= 4 && bytes[0] == 0x52u8 && bytes[1] == 0x49u8 && bytes[2] == 0x46u8 && bytes[3] == 0x46u8 {
        ".wav"
    } else if bytes.len() > 2 && bytes[0] == 0xFFu8 && (bytes[1] & 0xE0u8) == 0xE0u8 {
        ".mp3"
    } else if bytes.len() >= 4 && bytes[0] == 0x4Fu8 && bytes[1] == 0x67u8 && bytes[2] == 0x67u8 && bytes[3] == 0x53u8 {
        ".ogg"
    } else {
        ".wav"
    }
}

/// Solves an audio captcha (wav/mp3/ogg bytes) up to speech-to-text: names the
/// file suffix for the transcription tool.
pub fn solve(audio_bytes: &[u8]) -> (r: Result<SolveStep, SolveError>)
    ensures
        is_transcribe_outcome(audio_bytes@, r),
{
    Ok(SolveStep::Transcribe { suffix: detect_format(audio_bytes).to_string() })
}

/// Whether std's `char::is_alphanumeric` holds of `c` (Unicode `Alphabetic` or
/// `Numeric`).
pub uninterp spec fn unicode_alphanumeric(c: char) -> bool;

/// ASCII letter or digit.
pub open spec fn is_ascii_alphanumeric(c: char) -> bool {
    ('0' <= c <= '9') || ('a' <= c <= 'z') || ('A' <= c <= 'Z')
}

/// std's `char::is_alphanumeric`. Trusted: the result is
/// `unicode_alphanumeric(c)`, and for an ASCII character it is true exactly of
/// letters and digits, as std documents; the Unicode tables beyond ASCII are not
/// stated.
#[verifier::external_body]
pub(crate) fn is_alphanumeric(c: char) -> (b: bool)
    ensures
        b == unicode_alphanumeric(c),
        (c as u32) < 128 ==> (b <==> is_ascii_alphanumeric(c)),
{
    c.is_alphanumeric()
}

/// The transcript reduced to its alphanumeric characters (captchas are short
/// codes), after trimming.
pub open spec fn spec_clean_transcript(t: Seq<char>) -> Seq<char> {
    spec_trim(t).filter(|c: char| unicode_alphanumeric(c))
}

/// Answer to an audio captcha from the speech-to-text transcript.
pub fn finish(transcript: &str) -> (r: String)
    ensures
        r@ == spec_clean_transcript(transcript@),
        forall|i: int| 0 <= i < r@.len() ==> unicode_alphanumeric(#[trigger] r@[i]),
{
    let chars = chars_of(transcript);
    let t = trim(&chars);
    let mut kept: Vec<char> = Vec::new();
    let mut i: usize = 0;
    while i < t.len()
        invariant
            i <= t.len(),
            kept@ == t@.take(i as int).filter(|c: char| unicode_alphanumeric(c)),
        decreases t.len() - i,
    {
        let c = t[i];
        proof {
            reveal_with_fuel(Seq::<_>::filter, 1);
            assert(t@.take(i + 1).drop_last() == t@.take(i as int));
        }
        if is_alphanumeric(c) {
            kept.push(c);
        }
        i = i + 1;
    }
    assert(t@.take(t.len() as int) == t@);
    proof {
        let f = |c: char| unicode_alphanumeric(c);
        assert forall|i: int| 0 <= i < kept@.len() implies unicode_alphanumeric(#[trigger] kept@[i]) by {
            t@.lemma_filter_pred(f, i);
        }
    }
    string_of(&kept)
}

} // verus!

//! Audio frame assembly: the metadata header lines, the sentinel introducing
//! the escaped payload, and the closing status line, as one byte block that
//! the channel writes verbatim.
//!
//! The header carries the bit depth (sample width in bytes times eight), the
//! channel count, the sample rate, and the sample count, which is the payload
//! length in bytes divided by the sample width — never a count of frames.
use vstd::prelude::*;

verus! {

use crate::bytes::{lit, ascii_lit, dec_digits, u64_dec, push_all};
use crate::codec::{escape, encode_payload};
use vstd::string::is_ascii;

/// The newline that terminates every protocol line.
pub open spec fn nl() -> Seq<u8> {
    seq![0x0au8]
}

/// One whole audio frame as it crosses the channel: four metadata lines, the
/// sentinel line with its marker byte, the escaped payload, a closing newline,
/// and the terminating status line.
pub open spec fn spec_frame(audio: Seq<u8>, width: nat, channels: nat, rate: nat) -> Seq<u8> {
    lit("705-bits="@) + dec_digits(width * 8) + nl() + lit("705-num_channels="@) + dec_digits(
        channels,
    ) + nl() + lit("705-sample_rate="@) + dec_digits(rate) + nl() + lit("705-num_samples="@)
        + dec_digits(audio.len() / width) + nl() + lit("705-AUDIO"@) + seq![0x00u8] + escape(audio)
        + nl() + lit("705 AUDIO"@) + nl()
}

/// Builds the byte block of one audio frame. The sample width is in bytes and
/// must be positive, as the sample count divides by it.
pub fn encode_frame(audio: &Vec<u8>, width: u32, channels: u32, rate: u32) -> (r: Vec<u8>)
    requires
        width > 0,
    ensures
        r@ == spec_frame(audio@, width as nat, channels as nat, rate as nat),
{
    proof {
        reveal_strlit("705-bits=");
        reveal_strlit("705-num_channels=");
        reveal_strlit("705-sample_rate=");
        reveal_strlit("705-num_samples=");
        reveal_strlit("705-AUDIO");
        reveal_strlit("705 AUDIO");
        assert(is_ascii("705-bits="));
        assert(is_ascii("705-num_channels="));
        assert(is_ascii("705-sample_rate="));
        assert(is_ascii("705-num_samples="));
        assert(is_ascii("705-AUDIO"));
        assert(is_ascii("705 AUDIO"));
    }
    let mut r = ascii_lit("705-bits=");
    let bits = u64_dec((width as u64) * 8);
    push_all(&mut r, &bits);
    r.push(0x0a);

    let tag = ascii_lit("705-num_channels=");
    push_all(&mut r, &tag);
    let chs = u64_dec(channels as u64);
    push_all(&mut r, &chs);
    r.push(0x0a);

    let tag = ascii_lit("705-sample_rate=");
    push_all(&mut r, &tag);
    let rt = u64_dec(rate as u64);
    push_all(&mut r, &rt);
    r.push(0x0a);

    let tag = ascii_lit("705-num_samples=");
    push_all(&mut r, &tag);
    let samples = (audio.len() as u64) / (width as u64);
    let ns = u64_dec(samples);
    push_all(&mut r, &ns);
    r.push(0x0a);

    let tag = ascii_lit("705-AUDIO");
    push_all(&mut r, &tag);
    r.push(0x00);
    let payload = encode_payload(audio);
    push_all(&mut r, &payload);
    r.push(0x0a);

    let tag = ascii_lit("705 AUDIO");
    push_all(&mut r, &tag);
    r.push(0x0a);

    proof {
        assert(samples as nat == audio@.len() / (width as nat));
        assert(r@ =~= spec_frame(audio@, width as nat, channels as nat, rate as nat));
    }
    r
}

} // verus!

//! The audio frame codec: raw PCM bytes become transmission-safe inside the
//! line-oriented protocol. A byte equal to the newline (0x0a) or to the escape
//! marker (0x7d) has bit 5 flipped and is preceded by an inserted marker byte;
//! every other byte passes through unchanged. The transform is exactly
//! invertible, and its output carries no raw newline or marker byte outside a
//! (marker, flipped-original) pair.
use vstd::prelude::*;

verus! {

/// True of the two bytes that are structurally significant to the protocol
/// and must not appear raw inside a payload.
pub open spec fn must_escape(b: u8) -> bool {
    b == 0x0a || b == 0x7d
}

/// The escaped form of one byte.
pub open spec fn escape_byte(b: u8) -> Seq<u8> {
    if must_escape(b) {
        seq![0x7du8, (b ^ 0x20) as u8]
    } else {
        seq![b]
    }
}

/// The escaped form of a whole buffer, byte by byte.
pub open spec fn escape(s: Seq<u8>) -> Seq<u8>
    decreases s.len(),
{
    if s.len() == 0 {
        Seq::empty()
    } else {
        escape_byte(s[0]) + escape(s.drop_first())
    }
}

/// The inverse transform: a marker byte flips bit 5 of its successor back; any
/// other byte stands for itself. A trailing lone marker stands for itself.
pub open spec fn unescape(s: Seq<u8>) -> Seq<u8>
    decreases s.len(),
{
    if s.len() == 0 {
        Seq::empty()
    } else if s[0] == 0x7d && s.len() >= 2 {
        seq![(s[1] ^ 0x20) as u8] + unescape(s.skip(2))
    } else {
        seq![s[0]] + unescape(s.drop_first())
    }
}

/// A well-escaped sequence: no raw newline anywhere, and every marker byte
/// introduces a pair whose second byte is a flipped newline or marker.
pub open spec fn well_escaped(s: Seq<u8>) -> bool
    decreases s.len(),
{
    if s.len() == 0 {
        true
    } else if s[0] == 0x7d {
        s.len() >= 2 && must_escape((s[1] ^ 0x20) as u8) && well_escaped(s.skip(2))
    } else {
        s[0] != 0x0a && well_escaped(s.drop_first())
    }
}

/// Appending one byte to a buffer appends its escaped form to the escape.
proof fn lemma_escape_push(s: Seq<u8>, b: u8)
    ensures
        escape(s.push(b)) == escape(s) + escape_byte(b),
    decreases s.len(),
{
    if s.len() == 0 {
        assert(s.push(b)[0] == b);
        assert(s.push(b).drop_first() =~= Seq::<u8>::empty());
        assert(escape(s.push(b)) == escape_byte(b) + escape(Seq::<u8>::empty()));
        assert(escape(s.push(b)) =~= escape(s) + escape_byte(b));
    } else {
        assert(s.push(b)[0] == s[0]);
        assert(s.push(b).drop_first() =~= s.drop_first().push(b));
        lemma_escape_push(s.drop_first(), b);
        assert(escape(s.push(b)) == escape_byte(s[0]) + (escape(s.drop_first()) + escape_byte(
            b,
        )));
        assert(escape(s.push(b)) =~= escape(s) + escape_byte(b));
    }
}

/// Escapes a byte buffer for inline transmission.
pub fn encode_payload(audio: &Vec<u8>) -> (r: Vec<u8>)
    ensures
        r@ == escape(audio@),
{
    let n = audio.len();
    let mut r: Vec<u8> = Vec::new();
    let mut i: usize = 0;
    while i < n
        invariant
            n == audio@.len(),
            i <= n,
            r@ == escape(audio@.take(i as int)),
        decreases n - i,
    {
        let b = audio[i];
        if b == 0x0a || b == 0x7d {
            r.push(0x7d);
            r.push(b ^ 0x20);
        } else {
            r.push(b);
        }
        proof {
            lemma_escape_push(audio@.take(i as int), b);
            assert(audio@.take(i + 1 as int) =~= audio@.take(i as int).push(b));
            assert(r@ =~= escape(audio@.take(i as int)) + escape_byte(b));
        }
        i += 1;
    }
    proof {
        assert(audio@.take(n as int) =~= audio@);
    }
    r
}

/// Undoes the escaping transform; the host's side of the codec, kept here so
/// that the inversion can be stated and exercised.
pub fn decode_payload(wire: &Vec<u8>) -> (r: Vec<u8>)
    ensures
        r@ == unescape(wire@),
{
    let n = wire.len();
    let mut r: Vec<u8> = Vec::new();
    let mut i: usize = 0;
    proof {
        assert(wire@.skip(0) =~= wire@);
        assert(r@ + unescape(wire@) =~= unescape(wire@));
    }
    while i < n
        invariant
            n == wire@.len(),
            i <= n,
            r@ + unescape(wire@.skip(i as int)) == unescape(wire@),
        decreases n - i,
    {
        let b = wire[i];
        let ghost rem = wire@.skip(i as int);
        if b == 0x7d && i + 1 < n {
            proof {
                assert(rem[0] == 0x7d && rem.len() >= 2);
                assert(rem.skip(2) =~= wire@.skip(i + 2 as int));
                assert(unescape(rem) == seq![(rem[1] ^ 0x20) as u8] + unescape(
                    wire@.skip(i + 2 as int),
                ));
            }
            r.push(wire[i + 1] ^ 0x20);
            proof {
                assert(rem[1] == wire@[i + 1 as int]);
                assert(r@ + unescape(wire@.skip(i + 2 as int)) =~= unescape(wire@));
            }
            i += 2;
        } else {
            proof {
                assert(rem[0] == b && !(b == 0x7d && rem.len() >= 2));
                assert(rem.drop_first() =~= wire@.skip(i + 1 as int));
                assert(unescape(rem) == seq![b] + unescape(wire@.skip(i + 1 as int)));
            }
            r.push(b);
            proof {
                assert(r@ + unescape(wire@.skip(i + 1 as int)) =~= unescape(wire@));
            }
            i += 1;
        }
    }
    proof {
        assert(r@ =~= unescape(wire@));
    }
    r
}

/// Escaping round-trip, first half: decoding an encoded buffer returns the
/// buffer, for every byte buffer.
pub proof fn lemma_escape_round_trip(s: Seq<u8>)
    ensures
        unescape(escape(s)) == s,
    decreases s.len(),
{
    if s.len() == 0 {
        assert(unescape(escape(s)) =~= s);
    } else {
        lemma_escape_round_trip(s.drop_first());
        let b = s[0];
        if must_escape(b) {
            assert((b ^ 0x20) ^ 0x20 == b) by (bit_vector);
            assert(escape(s).skip(2) =~= escape(s.drop_first()));
            assert(unescape(escape(s)) =~= s);
        } else {
            assert(b != 0x7d);
            assert(escape(s).drop_first() =~= escape(s.drop_first()));
            assert(unescape(escape(s)) =~= s);
        }
    }
}

/// Escaping round-trip, second half: an encoded buffer carries no raw newline
/// or marker byte outside a valid (marker, flipped-original) pair.
pub proof fn lemma_escape_well_escaped(s: Seq<u8>)
    ensures
        well_escaped(escape(s)),
    decreases s.len(),
{
    if s.len() == 0 {
    } else {
        lemma_escape_well_escaped(s.drop_first());
        let b = s[0];
        if must_escape(b) {
            assert((b ^ 0x20) ^ 0x20 == b) by (bit_vector);
            assert(b == 0x0a || b == 0x7d ==> must_escape((((b ^ 0x20) as u8) ^ 0x20) as u8));
            assert(escape(s).skip(2) =~= escape(s.drop_first()));
        } else {
            assert(b != 0x0a && b != 0x7d);
            assert(escape(s).drop_first() =~= escape(s.drop_first()));
        }
    }
}

} // verus!

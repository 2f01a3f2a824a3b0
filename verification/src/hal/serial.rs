//! Text output over the serial line.
use vstd::prelude::*;

verus! {

/// `text` as sent on the serial line: every line feed is preceded by a
/// carriage return.
pub open spec fn serial_encoding(text: Seq<u8>) -> Seq<u8>
    decreases text.len(),
{
    if text.len() == 0 {
        Seq::empty()
    } else {
        serial_encoding(text.drop_last()) + if text.last() == 10u8 {
            seq![13u8, 10u8]
        } else {
            seq![text.last()]
        }
    }
}

/// Handle to the serial console.
pub struct Serial;

impl Serial {
    /// Bytes to send for `text`, with each `\n` expanded to `\r\n`.
    pub fn encode(&self, text: &[u8]) -> (bytes: Vec<u8>)
        ensures
            bytes@ == serial_encoding(text@),
    {
        let mut bytes: Vec<u8> = Vec::new();
        let mut i: usize = 0;
        while i < text.len()
            invariant
                i <= text@.len(),
                bytes@ == serial_encoding(text@.subrange(0, i as int)),
            decreases text@.len() - i,
        {
            assert(text@.subrange(0, i as int + 1).drop_last() =~= text@.subrange(0, i as int));
            let byte = text[i];
            if byte == 10u8 {
                bytes.push(13u8);
            }
            bytes.push(byte);
            i = i + 1;
            proof {
                let s = text@.subrange(0, i as int);
                assert(s.last() == byte);
            }
        }
        assert(text@.subrange(0, text@.len() as int) =~= text@);
        bytes
    }
}

/// The encoding works byte by byte: encoding a concatenation gives the
/// encodings of the parts, one after the other.
pub proof fn lemma_encoding_concatenates(s: Seq<u8>, t: Seq<u8>)
    ensures
        serial_encoding(s + t) == serial_encoding(s) + serial_encoding(t),
    decreases t.len(),
{
    if t.len() == 0 {
        assert(s + t =~= s);
        assert(serial_encoding(s) + serial_encoding(t) =~= serial_encoding(s));
    } else {
        let u = s + t;
        assert(u.drop_last() =~= s + t.drop_last());
        assert(u.last() == t.last());
        lemma_encoding_concatenates(s, t.drop_last());
        assert(serial_encoding(s) + serial_encoding(t) =~= serial_encoding(s) + serial_encoding(
            t.drop_last(),
        ) + (if t.last() == 10u8 {
            seq![13u8, 10u8]
        } else {
            seq![t.last()]
        }));
    }
}

/// A line feed is sent as carriage return then line feed; every other byte is
/// sent unchanged. With `lemma_encoding_concatenates`, the output is the
/// input with a carriage return inserted before each line feed and nothing
/// else changed.
pub proof fn lemma_encoding_of_one_byte(b: u8)
    ensures
        b == 10u8 ==> serial_encoding(seq![b]) == seq![13u8, 10u8],
        b != 10u8 ==> serial_encoding(seq![b]) == seq![b],
{
    let s = seq![b];
    assert(s.drop_last() =~= Seq::<u8>::empty());
    assert(serial_encoding(Seq::<u8>::empty()) == Seq::<u8>::empty());
    if b == 10u8 {
        assert(serial_encoding(s) =~= seq![13u8, 10u8]);
    } else {
        assert(serial_encoding(s) =~= seq![b]);
    }
}

/// The encoding is one byte longer than the input for each line feed.
pub proof fn lemma_encoding_length(s: Seq<u8>)
    ensures
        serial_encoding(s).len() == s.len() + s.filter(|b: u8| b == 10u8).len(),
    decreases s.len(),
{
    if s.len() > 0 {
        lemma_encoding_length(s.drop_last());
        s.drop_last().lemma_filter_push(s.last(), |b: u8| b == 10u8);
        assert(s.drop_last().push(s.last()) =~= s);
    }
}

} // verus!

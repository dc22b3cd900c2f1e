//! The binary record of a puzzle and its URL-safe code.
//!
//! The record lists the twenty strings of a puzzle in order (the yellow theme
//! and words, then blue, purple and green). Each string is its UTF-8 length as
//! an unsigned LEB128 varint, followed by its UTF-8 bytes. The code of a
//! puzzle is the record, gzip-compressed at the best level, in the URL-safe
//! base64 alphabet.
use crate::puzzle::{ConnectionPuzzle, ConnectionSet};
use base64::Engine;
use std::io::Write;
use vstd::arithmetic::div_mod::lemma_fundamental_div_mod_converse;
use vstd::prelude::*;
use vstd::utf8::{decode_utf8, encode_utf8, valid_utf8};

verus! {

/// The unsigned LEB128 varint of a number: seven bits per byte, low bits
/// first, the high bit set on every byte but the last.
pub open spec fn varint(n: nat) -> Seq<u8>
    decreases n,
{
    if n < 128 {
        seq![n as u8]
    } else {
        seq![(n % 128 + 128) as u8] + varint(n / 128)
    }
}

proof fn lemma_low_and_high(n: nat, low: nat, high: nat)
    requires
        low < 128,
        n == low + 128 * high,
    ensures
        n % 128 == low,
        n / 128 == high,
        high >= 1 ==> n >= 128,
{
    lemma_fundamental_div_mod_converse(n as int, 128, high as int, low as int);
}

/// Appends the varint of `n`.
fn write_varint(out: &mut Vec<u8>, n: usize)
    ensures
        final(out)@ == old(out)@ + varint(n as nat),
{
    let ghost start = out@;
    let mut m: usize = n;
    while m >= 128
        invariant
            out@ + varint(m as nat) == start + varint(n as nat),
        decreases m,
    {
        let ghost before = out@;
        out.push((m % 128 + 128) as u8);
        assert(varint(m as nat) == seq![(m % 128 + 128) as u8] + varint((m / 128) as nat));
        assert(out@ + varint((m / 128) as nat) =~= before + varint(m as nat));
        m = m / 128;
    }
    out.push(m as u8);
    assert(out@ =~= start + varint(n as nat));
}

/// Reads the varint that starts at `pos`, if there is one and its value fits
/// in a `usize`; the result is the value and the position after the varint.
fn read_varint(b: &Vec<u8>, pos: usize) -> (r: Option<(usize, usize)>)
    requires
        pos <= b.len(),
    ensures
        r matches Some((n, next)) ==> pos < next <= b.len() && b@.subrange(pos as int, next as int)
            == varint(n as nat),
        forall|n: nat|
            n <= usize::MAX && (#[trigger] varint(n)).is_prefix_of(b@.subrange(pos as int, b.len() as int))
                ==> r == Some((n as usize, (pos + varint(n).len()) as usize)),
    decreases b.len() - pos,
{
    if pos >= b.len() {
        return None;
    }
    let d = b[pos];
    let ghost rest = b@.subrange(pos as int, b.len() as int);
    if d < 128 {
        assert(b@.subrange(pos as int, pos + 1) =~= varint(d as nat));
        assert forall|n: nat|
            n <= usize::MAX && (#[trigger] varint(n)).is_prefix_of(rest) implies n == d as nat
                && varint(n).len() == 1 by {
            assert(varint(n)[0] == rest[0]);
            if n >= 128 {
                lemma_low_and_high(n, n % 128, n / 128);
            }
        }
        return Some((d as usize, pos + 1));
    }
    let ghost tail = b@.subrange(pos + 1, b.len() as int);
    let low: usize = (d - 128) as usize;
    // every varint that could start here has a high part, whose varint follows
    assert forall|n: nat|
        n <= usize::MAX && (#[trigger] varint(n)).is_prefix_of(rest) implies n >= 128 && n % 128
            == low && varint(n / 128).is_prefix_of(tail) && n / 128 >= 1 by {
        assert(varint(n)[0] == rest[0]);
        if n < 128 {
        } else {
            assert(varint(n) == seq![(n % 128 + 128) as u8] + varint(n / 128));
            assert(varint(n / 128) =~= varint(n).subrange(1, varint(n).len() as int));
            assert(tail.subrange(0, varint(n / 128).len() as int) =~= rest.subrange(
                1,
                varint(n).len() as int,
            ));
            assert(n / 128 >= 1);
        }
    }
    match read_varint(b, pos + 1) {
        None => None,
        Some((high, next)) => {
            if high == 0 {
                return None;
            }
            if high > (usize::MAX - low) / 128 {
                proof {
                    let x = (usize::MAX - low) as int;
                    vstd::arithmetic::div_mod::lemma_fundamental_div_mod(x, 128);
                    assert forall|n: nat|
                        n <= usize::MAX && (#[trigger] varint(n)).is_prefix_of(rest) implies false by {
                        lemma_low_and_high(n, n % 128, n / 128);
                        assert(n / 128 == high);
                        assert(high * 128 >= (x / 128) * 128 + 128) by (nonlinear_arith)
                            requires
                                high > x / 128,
                        ;
                    }
                }
                return None;
            }
            let n: usize;
            proof {
                let x = (usize::MAX - low) as int;
                vstd::arithmetic::div_mod::lemma_fundamental_div_mod(x, 128);
                assert(high * 128 <= (x / 128) * 128) by (nonlinear_arith)
                    requires
                        high <= x / 128,
                ;
            }
            n = low + 128 * high;
            proof {
                lemma_low_and_high(n as nat, low as nat, high as nat);
                assert(varint(n as nat) == seq![(n % 128 + 128) as u8] + varint(high as nat));
                assert(b@.subrange(pos as int, next as int) =~= seq![d] + b@.subrange(
                    pos + 1,
                    next as int,
                ));
                assert forall|m: nat|
                    m <= usize::MAX && (#[trigger] varint(m)).is_prefix_of(rest) implies m == n
                        && varint(m).len() == varint(n as nat).len() by {
                    lemma_low_and_high(m, m % 128, m / 128);
                }
            }
            Some((n, next))
        },
    }
}

/// The UTF-8 length of a string followed by its UTF-8 bytes.
pub open spec fn frame(s: Seq<char>) -> Seq<u8> {
    varint(encode_utf8(s).len()) + encode_utf8(s)
}

/// The frames of a list of strings, one after the other.
pub open spec fn record(fields: Seq<Seq<char>>) -> Seq<u8>
    decreases fields.len(),
{
    if fields.len() == 0 {
        Seq::empty()
    } else {
        record(fields.drop_last()) + frame(fields.last())
    }
}

/// The views of a list of strings.
pub open spec fn views(v: Seq<String>) -> Seq<Seq<char>> {
    v.map_values(|s: String| s@)
}

proof fn lemma_record_prefix(f: Seq<Seq<char>>, i: int)
    requires
        0 <= i <= f.len(),
    ensures
        record(f.take(i)).is_prefix_of(record(f)),
    decreases f.len() - i,
{
    if i < f.len() {
        lemma_record_prefix(f, i + 1);
        assert(f.take(i + 1).drop_last() =~= f.take(i));
    } else {
        assert(f.take(i) =~= f);
    }
}

/// Appends the frame of a string.
fn write_field(out: &mut Vec<u8>, s: &String)
    ensures
        final(out)@ == old(out)@ + frame(s@),
{
    let bytes = s.as_str().as_bytes();
    write_varint(out, bytes.len());
    let ghost start = out@;
    let mut i: usize = 0;
    while i < bytes.len()
        invariant
            i <= bytes.len(),
            bytes@ == encode_utf8(s@),
            out@ == start + bytes@.take(i as int),
        decreases bytes.len() - i,
    {
        out.push(bytes[i]);
        i = i + 1;
        assert(out@ =~= start + bytes@.take(i as int));
    }
    assert(bytes@.take(i as int) =~= bytes@);
    assert(out@ =~= old(out)@ + frame(s@));
}

/// Relies on std's `String::from_utf8`: it accepts exactly the valid UTF-8
/// byte strings and keeps their characters.
#[verifier::external_body]
fn utf8_string(bytes: Vec<u8>) -> (r: Option<String>)
    ensures
        r is Some <==> valid_utf8(bytes@),
        r is Some ==> r->Some_0@ == decode_utf8(bytes@),
{
    String::from_utf8(bytes).ok()
}

/// The strings of a record: the twenty strings whose record starts `raw`, if
/// there are such strings.
pub open spec fn record_fields(raw: Seq<u8>) -> Option<Seq<Seq<char>>> {
    if exists|f: Seq<Seq<char>>| f.len() == 20 && (#[trigger] record(f)).is_prefix_of(raw) {
        Some(choose|f: Seq<Seq<char>>| f.len() == 20 && (#[trigger] record(f)).is_prefix_of(raw))
    } else {
        None
    }
}

/// Reads the twenty strings of a record from the start of `raw`; bytes after
/// the record are ignored.
pub fn read_record(raw: &Vec<u8>) -> (r: Option<Vec<String>>)
    ensures
        r matches Some(v) ==> v.len() == 20 && record(views(v@)).is_prefix_of(raw@),
        forall|f: Seq<Seq<char>>|
            f.len() == 20 && (#[trigger] record(f)).is_prefix_of(raw@) ==> (r matches Some(v)
                && views(v@) == f),
        r matches Some(v) ==> record_fields(raw@) == Some(views(v@)),
        r is None ==> record_fields(raw@) is None,
{
    let mut pos: usize = 0;
    let mut out: Vec<String> = Vec::new();
    while out.len() < 20
        invariant
            out.len() <= 20,
            pos <= raw.len(),
            record(views(out@)) == raw@.take(pos as int),
            forall|f: Seq<Seq<char>>|
                f.len() == 20 && (#[trigger] record(f)).is_prefix_of(raw@) ==> views(out@)
                    == f.take(out.len() as int),
        decreases 20 - out.len(),
    {
        let ghost i = out.len() as int;
        // a record that starts `raw` has its next frame at `pos`
        assert forall|f: Seq<Seq<char>>|
            f.len() == 20 && (#[trigger] record(f)).is_prefix_of(raw@) implies frame(f[i]).is_prefix_of(
                raw@.subrange(pos as int, raw.len() as int),
            ) by {
            lemma_record_prefix(f, i + 1);
            assert(f.take(i + 1).drop_last() =~= f.take(i));
            assert(record(f.take(i)) == raw@.take(pos as int));
            let fr = frame(f[i]);
            let big = record(f.take(i + 1));
            assert(big == raw@.take(pos as int) + fr);
            assert forall|k: int| 0 <= k < big.len() implies big[k] == raw@[k] by {
                assert(big[k] == record(f)[k]);
            }
            assert(raw@.subrange(pos as int, raw.len() as int).subrange(0, fr.len() as int)
                =~= fr) by {
                assert forall|k: int| 0 <= k < fr.len() implies raw@[pos + k] == fr[k] by {
                    assert(big[pos + k] == fr[k]);
                }
            }
        }
        let read = read_varint(raw, pos);
        let (len, next) = match read {
            None => {
                proof {
                    assert forall|f: Seq<Seq<char>>|
                        f.len() == 20 && (#[trigger] record(f)).is_prefix_of(raw@) implies false by {
                        let e = encode_utf8(f[i]);
                        let fr = frame(f[i]);
                        assert(varint(e.len()) =~= fr.subrange(0, varint(e.len()).len() as int));
                        assert(varint(e.len()).is_prefix_of(
                            raw@.subrange(pos as int, raw.len() as int),
                        ));
                    }
                }
                return None;
            },
            Some(x) => x,
        };
        if len > raw.len() - next {
            proof {
                assert forall|f: Seq<Seq<char>>|
                    f.len() == 20 && (#[trigger] record(f)).is_prefix_of(raw@) implies false by {
                    let e = encode_utf8(f[i]);
                    let fr = frame(f[i]);
                    assert(varint(e.len()) =~= fr.subrange(0, varint(e.len()).len() as int));
                    assert(varint(e.len()).is_prefix_of(
                        raw@.subrange(pos as int, raw.len() as int),
                    ));
                }
            }
            return None;
        }
        let mut bytes: Vec<u8> = Vec::new();
        let mut j: usize = next;
        while j < next + len
            invariant
                next <= j <= next + len <= raw.len(),
                bytes@ == raw@.subrange(next as int, j as int),
            decreases next + len - j,
        {
            bytes.push(raw[j]);
            j = j + 1;
            assert(bytes@ =~= raw@.subrange(next as int, j as int));
        }
        let ghost field_bytes = bytes@;
        proof {
            assert forall|f: Seq<Seq<char>>|
                f.len() == 20 && (#[trigger] record(f)).is_prefix_of(raw@) implies encode_utf8(f[i])
                    == field_bytes by {
                let e = encode_utf8(f[i]);
                let rest = raw@.subrange(pos as int, raw.len() as int);
                let fr = frame(f[i]);
                let vl = varint(e.len()).len() as int;
                assert(varint(e.len()).is_prefix_of(rest)) by {
                    assert(varint(e.len()) =~= fr.subrange(0, vl));
                }
                assert(next == pos + vl);
                assert(len == e.len());
                assert forall|k: int| 0 <= k < e.len() implies field_bytes[k] == e[k] by {
                    assert(fr[vl + k] == e[k]);
                    assert(rest.subrange(0, fr.len() as int)[vl + k] == fr[vl + k]);
                }
                assert(field_bytes =~= e);
            }
        }
        match utf8_string(bytes) {
            None => {
                proof {
                    assert forall|f: Seq<Seq<char>>|
                        f.len() == 20 && (#[trigger] record(f)).is_prefix_of(raw@) implies false by {
                        vstd::utf8::encode_utf8_valid_utf8(f[i]);
                    }
                }
                return None;
            },
            Some(s) => {
                proof {
                    vstd::utf8::decode_utf8_encode_utf8(field_bytes);
                    assert(raw@.take((next + len) as int) =~= raw@.take(pos as int)
                        + raw@.subrange(pos as int, next as int) + field_bytes);
                }
                let ghost old_out = out@;
                out.push(s);
                proof {
                    assert(views(out@).drop_last() =~= views(old_out));
                    assert(record(views(out@)) =~= raw@.take((next + len) as int));
                    assert forall|f: Seq<Seq<char>>|
                        f.len() == 20 && (#[trigger] record(f)).is_prefix_of(raw@) implies views(
                            out@,
                        ) == f.take(out.len() as int) by {
                        vstd::utf8::encode_utf8_decode_utf8(f[i]);
                        assert(views(out@) =~= f.take(out.len() as int));
                    }
                }
                pos = next + len;
            },
        }
    }
    proof {
        assert(record(views(out@)).is_prefix_of(raw@));
        assert forall|f: Seq<Seq<char>>|
            f.len() == 20 && (#[trigger] record(f)).is_prefix_of(raw@) implies views(out@) == f by {
            assert(f.take(20) =~= f);
        }
    }
    Some(out)
}

/// Why a code does not decode to a puzzle.
#[derive(Copy, Clone, PartialEq, Eq, Structural, Debug)]
pub enum TranscodingError {
    /// The code is not URL-safe base64 text.
    Base64,
    /// The decoded bytes are not a gzip stream.
    Decompress,
    /// The decompressed bytes do not start with the record of twenty strings.
    Deserialize,
}

/// The gzip compression of a byte string at the best level.
pub uninterp spec fn gzip_best(bytes: Seq<u8>) -> Seq<u8>;

/// What gzip decompression makes of a byte string, if it is a gzip stream.
pub uninterp spec fn gunzip(bytes: Seq<u8>) -> Option<Seq<u8>>;

/// The padded URL-safe base64 text of a byte string.
pub uninterp spec fn url_safe_base64(bytes: Seq<u8>) -> Seq<char>;

/// A character of the URL-safe base64 alphabet, or the padding character.
pub open spec fn is_url_safe_char(c: char) -> bool {
    ('A' <= c <= 'Z') || ('a' <= c <= 'z') || ('0' <= c <= '9') || c == '-' || c == '_' || c
        == '='
}

/// Relies on flate2's `GzEncoder` at `Compression::best()`, writing into a
/// `Vec`: the result depends on the input bytes alone.
#[verifier::external_body]
fn compress(bytes: &Vec<u8>) -> (r: Vec<u8>)
    ensures
        r@ == gzip_best(bytes@),
{
    let mut encoder = flate2::write::GzEncoder::new(Vec::new(), flate2::Compression::best());
    encoder.write_all(bytes).expect("writing into a Vec does not fail");
    encoder.finish().expect("writing into a Vec does not fail")
}

/// Relies on flate2's `write::GzDecoder`, writing into a `Vec`: the result
/// depends on the input bytes alone, and a stream that `GzEncoder` made
/// decompresses to the bytes it was made from.
#[verifier::external_body]
fn decompress(bytes: &Vec<u8>) -> (r: Option<Vec<u8>>)
    ensures
        r is Some ==> gunzip(bytes@) == Some(r->Some_0@),
        r is None ==> gunzip(bytes@) is None,
        forall|p: Seq<u8>| #[trigger] gzip_best(p) == bytes@ ==> (r is Some && r->Some_0@ == p),
{
    let mut decoder = flate2::write::GzDecoder::new(Vec::new());
    decoder.write_all(bytes).ok()?;
    decoder.finish().ok()
}

/// Relies on base64's `URL_SAFE` engine (`Engine::encode`): padded output in
/// the URL-safe alphabet.
#[verifier::external_body]
fn to_base64(bytes: &Vec<u8>) -> (r: String)
    ensures
        r@ == url_safe_base64(bytes@),
        forall|i: int| 0 <= i < r@.len() ==> is_url_safe_char(#[trigger] r@[i]),
{
    base64::engine::general_purpose::URL_SAFE.encode(bytes)
}

/// Relies on base64's `URL_SAFE` engine (`Engine::decode`), which requires
/// canonical padding and no trailing bits: it accepts exactly the texts that
/// its `encode` returns, and gives back the bytes they were made from.
#[verifier::external_body]
fn from_base64(code: &str) -> (r: Option<Vec<u8>>)
    ensures
        r is Some ==> url_safe_base64(r->Some_0@) == code@,
        forall|b: Seq<u8>| #[trigger] url_safe_base64(b) == code@ ==> (r is Some && r->Some_0@ == b),
{
    base64::engine::general_purpose::URL_SAFE.decode(code).ok()
}

/// The code of a puzzle with the given twenty strings.
pub open spec fn encoded(fields: Seq<Seq<char>>) -> Seq<char> {
    url_safe_base64(gzip_best(record(fields)))
}

/// What decoding a code gives: the twenty strings of a puzzle, or the first
/// stage that fails.
pub open spec fn decoded(code: Seq<char>) -> Result<Seq<Seq<char>>, TranscodingError> {
    if !(exists|b: Seq<u8>| #[trigger] url_safe_base64(b) == code) {
        Err(TranscodingError::Base64)
    } else {
        let b = choose|b: Seq<u8>| #[trigger] url_safe_base64(b) == code;
        match gunzip(b) {
            None => Err(TranscodingError::Decompress),
            Some(raw) => match record_fields(raw) {
                None => Err(TranscodingError::Deserialize),
                Some(f) => Ok(f),
            },
        }
    }
}

impl ConnectionPuzzle {
    /// One of the twenty strings of the puzzle, in the order of its view.
    pub fn field(&self, index: usize) -> (r: &String)
        requires
            index < 20,
        ensures
            r@ == self@[index as int],
    {
        let set = if index < 5 {
            &self.yellow
        } else if index < 10 {
            &self.blue
        } else if index < 15 {
            &self.purple
        } else {
            &self.green
        };
        let k = index % 5;
        if k == 0 {
            &set.theme
        } else {
            &set.words[k - 1]
        }
    }

    /// The binary record of the puzzle.
    pub fn record_bytes(&self) -> (r: Vec<u8>)
        ensures
            r@ == record(self@),
    {
        let mut out: Vec<u8> = Vec::new();
        let mut i: usize = 0;
        while i < 20
            invariant
                i <= 20,
                self@.len() == 20,
                out@ == record(self@.take(i as int)),
            decreases 20 - i,
        {
            write_field(&mut out, self.field(i));
            i = i + 1;
            assert(self@.take(i as int).drop_last() =~= self@.take(i - 1));
        }
        assert(self@.take(20) =~= self@);
        out
    }

    /// The URL-safe code of the puzzle: its record, gzip-compressed, in
    /// URL-safe base64.
    pub fn encode(&self) -> (r: String)
        ensures
            r@ == encoded(self@),
            forall|i: int| 0 <= i < r@.len() ==> is_url_safe_char(#[trigger] r@[i]),
    {
        let raw = self.record_bytes();
        let compressed = compress(&raw);
        to_base64(&compressed)
    }

    /// The puzzle of a code. Decoding the code of a puzzle gives that puzzle
    /// back.
    pub fn decode(code: &str) -> (r: Result<ConnectionPuzzle, TranscodingError>)
        ensures
            r matches Ok(p) ==> decoded(code@) == Ok::<Seq<Seq<char>>, TranscodingError>(p@),
            r matches Err(e) ==> decoded(code@) == Err::<Seq<Seq<char>>, TranscodingError>(e),
            forall|f: Seq<Seq<char>>|
                f.len() == 20 && code@ == #[trigger] encoded(f) ==> (r matches Ok(p) && p@ == f),
    {
        let bytes = match from_base64(code) {
            None => return Err(TranscodingError::Base64),
            Some(b) => b,
        };
        let raw = match decompress(&bytes) {
            None => return Err(TranscodingError::Decompress),
            Some(v) => v,
        };
        match read_record(&raw) {
            None => Err(TranscodingError::Deserialize),
            Some(fields) => Ok(ConnectionPuzzle::from_fields(fields)),
        }
    }

    /// The puzzle of twenty strings: the yellow theme and words, then blue,
    /// purple and green.
    pub fn from_fields(fields: Vec<String>) -> (r: ConnectionPuzzle)
        requires
            fields.len() == 20,
        ensures
            r@ == views(fields@),
    {
        let mut fields = fields;
        let ghost all = views(fields@);
        let yellow = take_set(&mut fields);
        let blue = take_set(&mut fields);
        let purple = take_set(&mut fields);
        let green = take_set(&mut fields);
        let r = ConnectionPuzzle { yellow, blue, purple, green };
        assert(r@ =~= all) by {
            assert(all =~= all.take(5) + all.skip(5).take(5) + all.skip(10).take(5) + all.skip(
                15,
            ).take(5));
            assert(all.skip(5).skip(5) =~= all.skip(10));
            assert(all.skip(10).skip(5) =~= all.skip(15));
        }
        r
    }
}

/// Takes the first five strings of a list as a group.
fn take_set(fields: &mut Vec<String>) -> (r: ConnectionSet)
    requires
        old(fields).len() >= 5,
    ensures
        r@ == views(old(fields)@).take(5),
        views(final(fields)@) == views(old(fields)@).skip(5),
        final(fields).len() == old(fields).len() - 5,
{
    let ghost start = views(fields@);
    let theme = fields.remove(0);
    let w0 = fields.remove(0);
    let w1 = fields.remove(0);
    let w2 = fields.remove(0);
    let w3 = fields.remove(0);
    let r = ConnectionSet { theme, words: [w0, w1, w2, w3] };
    assert(r@ =~= start.take(5));
    assert(views(fields@) =~= start.skip(5));
    r
}

} // verus!

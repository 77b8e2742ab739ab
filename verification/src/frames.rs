//! Screen frames as the dashboard shows them: JPEG bytes inside a
//! `data:image/jpeg;base64,` URL, and back to bytes for the evidence log.

use base64::Engine;
use image::codecs::jpeg::JpegEncoder;
use crate::text::{append_str, push_char};
use vstd::prelude::*;

verus! {

/// What the base64 crate's `STANDARD` engine decodes a text to, if it is
/// valid base64.
pub uninterp spec fn base64_decoding(text: Seq<char>) -> Option<Seq<u8>>;

/// The character of the standard base64 alphabet (RFC 4648) for a six-bit
/// value: `A`-`Z`, `a`-`z`, `0`-`9`, `+`, `/`.
pub open spec fn base64_digit(v: int) -> char {
    if v < 26 {
        (65 + v) as char
    } else if v < 52 {
        (97 + v - 26) as char
    } else if v < 62 {
        (48 + v - 52) as char
    } else if v == 62 {
        '+'
    } else {
        '/'
    }
}

/// Standard base64 with padding (RFC 4648): every three bytes become four
/// characters of six bits each; a final one or two bytes become four
/// characters ended by `==` or `=`.
pub open spec fn base64_text(b: Seq<u8>) -> Seq<char>
    decreases b.len(),
{
    if b.len() == 0 {
        Seq::empty()
    } else if b.len() == 1 {
        seq![base64_digit(b[0] as int / 4), base64_digit((b[0] % 4) * 16), '=', '=']
    } else if b.len() == 2 {
        seq![
            base64_digit(b[0] as int / 4),
            base64_digit((b[0] % 4) * 16 + b[1] / 16),
            base64_digit((b[1] % 16) * 4),
            '=',
        ]
    } else {
        seq![
            base64_digit(b[0] as int / 4),
            base64_digit((b[0] % 4) * 16 + b[1] / 16),
            base64_digit((b[1] % 16) * 4 + b[2] / 64),
            base64_digit(b[2] as int % 64),
        ] + base64_text(b.subrange(3, b.len() as int))
    }
}

/// A character of the standard base64 alphabet, or the `=` pad.
pub open spec fn is_base64_char(c: char) -> bool {
    let u = c as u32;
    ||| 0x41 <= u <= 0x5a
    ||| 0x61 <= u <= 0x7a
    ||| 0x30 <= u <= 0x39
    ||| c == '+'
    ||| c == '/'
    ||| c == '='
}

proof fn lemma_base64_digit(v: int)
    requires
        0 <= v < 64,
    ensures
        is_base64_char(base64_digit(v)),
{
}

/// Base64 text is made of alphabet characters and `=` only; in particular
/// it holds no comma.
pub proof fn lemma_base64_alphabet(b: Seq<u8>)
    ensures
        forall|i: int| 0 <= i < base64_text(b).len() ==> is_base64_char(#[trigger] base64_text(b)[i]),
    decreases b.len(),
{
    if b.len() == 0 {
    } else if b.len() == 1 {
        lemma_base64_digit(b[0] as int / 4);
        lemma_base64_digit((b[0] % 4) * 16);
    } else if b.len() == 2 {
        lemma_base64_digit(b[0] as int / 4);
        lemma_base64_digit((b[0] % 4) * 16 + b[1] / 16);
        lemma_base64_digit((b[1] % 16) * 4);
    } else {
        lemma_base64_digit(b[0] as int / 4);
        lemma_base64_digit((b[0] % 4) * 16 + b[1] / 16);
        lemma_base64_digit((b[1] % 16) * 4 + b[2] / 64);
        lemma_base64_digit(b[2] as int % 64);
        let rest = b.subrange(3, b.len() as int);
        lemma_base64_alphabet(rest);
        let head = seq![
            base64_digit(b[0] as int / 4),
            base64_digit((b[0] % 4) * 16 + b[1] / 16),
            base64_digit((b[1] % 16) * 4 + b[2] / 64),
            base64_digit(b[2] as int % 64),
        ];
        assert forall|i: int| 0 <= i < base64_text(b).len() implies is_base64_char(
            #[trigger] base64_text(b)[i],
        ) by {
            if i >= 4 {
                assert(base64_text(b)[i] == base64_text(rest)[i - 4]);
            } else {
                assert(base64_text(b)[i] == head[i]);
            }
        }
    }
}

/// `general_purpose::STANDARD.encode`: standard base64 with padding.
#[verifier::external_body]
fn base64_encode(bytes: &[u8]) -> (r: String)
    requires
        bytes@.len() <= isize::MAX,
    ensures
        r@ == base64_text(bytes@),
{
    base64::engine::general_purpose::STANDARD.encode(bytes)
}

/// `general_purpose::STANDARD.decode`, with the error dropped: the named
/// decoding of the text; decoding what the engine encodes gives back the
/// encoded bytes. Which other texts decode, and to what, is not written out.
#[verifier::external_body]
fn base64_decode(text: &str) -> (r: Option<Vec<u8>>)
    ensures
        match r {
            Some(v) => base64_decoding(text@) == Some(v@),
            None => base64_decoding(text@) is None,
        },
        forall|b: Seq<u8>| text@ == base64_text(b) ==> (r is Some && r->Some_0@ == b),
{
    base64::engine::general_purpose::STANDARD.decode(text).ok()
}

/// `data:image/jpeg;base64,`
pub open spec fn jpeg_data_url_prefix() -> Seq<char> {
    seq![
        'd', 'a', 't', 'a', ':', 'i', 'm', 'a', 'g', 'e', '/', 'j', 'p', 'e', 'g', ';', 'b', 'a',
        's', 'e', '6', '4', ',',
    ]
}

/// The data URL of a JPEG frame.
pub open spec fn jpeg_data_url(jpeg: Seq<u8>) -> Seq<char> {
    jpeg_data_url_prefix() + base64_text(jpeg)
}

/// The data URL under which a tile shows a JPEG frame.
pub fn image_data_url(jpeg: &[u8]) -> (r: String)
    requires
        jpeg@.len() <= isize::MAX,
    ensures
        r@ == jpeg_data_url(jpeg@),
{
    let prefix = "data:image/jpeg;base64,";
    proof {
        reveal_strlit("data:image/jpeg;base64,");
    }
    assert(prefix@ =~= jpeg_data_url_prefix());
    let mut url = prefix.to_owned();
    let encoded = base64_encode(jpeg);
    append_str(&mut url, encoded.as_str());
    url
}

/// The second comma-separated field of a text, as `split(',').nth(1)`
/// gives it: the field and how many commas were met (at most 2).
pub open spec fn comma_fields(s: Seq<char>) -> (Seq<char>, nat)
    decreases s.len(),
{
    if s.len() == 0 {
        (Seq::empty(), 0)
    } else {
        let (f, n) = comma_fields(s.drop_last());
        let c = s.last();
        if c == ',' {
            (f, if n < 2 {
                n + 1
            } else {
                2
            })
        } else if n == 1 {
            (f.push(c), n)
        } else {
            (f, n)
        }
    }
}

pub open spec fn second_field(s: Seq<char>) -> Option<Seq<char>> {
    let (f, n) = comma_fields(s);
    if n >= 1 {
        Some(f)
    } else {
        None
    }
}

/// The bytes that a data URL carries: the base64 text after its first comma
/// (up to the next one), decoded.
pub open spec fn data_url_bytes(url: Seq<char>) -> Option<Seq<u8>> {
    match second_field(url) {
        Some(f) => base64_decoding(f),
        None => None,
    }
}

proof fn lemma_comma_fields_extend(s: Seq<char>, t: Seq<char>)
    requires
        forall|i: int| 0 <= i < t.len() ==> t[i] != ',',
    ensures
        ({
            let (f, n) = comma_fields(s);
            comma_fields(s + t) == if n == 1 {
                (f + t, n)
            } else {
                (f, n)
            }
        }),
    decreases t.len(),
{
    let (f, n) = comma_fields(s);
    if t.len() == 0 {
        assert(s + t =~= s);
        assert(f + t =~= f);
    } else {
        lemma_comma_fields_extend(s, t.drop_last());
        assert((s + t).drop_last() =~= s + t.drop_last());
        assert((f + t.drop_last()).push(t.last()) =~= f + t);
    }
}

/// The base64 text of a frame's data URL is found again as its second
/// comma-separated field.
pub proof fn lemma_data_url_field(encoded: Seq<char>)
    requires
        forall|i: int| 0 <= i < encoded.len() ==> is_base64_char(#[trigger] encoded[i]),
    ensures
        second_field(jpeg_data_url_prefix() + encoded) == Some(encoded),
{
    let p = jpeg_data_url_prefix();
    let head = p.drop_last();
    assert forall|i: int| 0 <= i < head.len() implies head[i] != ',' by {}
    lemma_comma_fields_extend(Seq::empty(), head);
    assert(Seq::<char>::empty() + head =~= head);
    assert(comma_fields(Seq::<char>::empty()) == (Seq::<char>::empty(), 0nat));
    assert(p.drop_last() =~= head);
    assert(comma_fields(p) == (Seq::<char>::empty(), 1nat));
    assert forall|i: int| 0 <= i < encoded.len() implies encoded[i] != ',' by {
        assert(is_base64_char(encoded[i]));
    }
    lemma_comma_fields_extend(p, encoded);
    assert(Seq::<char>::empty() + encoded =~= encoded);
}

/// Reads the JPEG bytes back out of a frame's data URL. A data URL made by
/// `image_data_url` gives back exactly the frame it was made from; one
/// without a comma gives nothing.
pub fn decode_data_url(data_url: &str) -> (r: Option<Vec<u8>>)
    ensures
        match r {
            Some(v) => data_url_bytes(data_url@) == Some(v@),
            None => data_url_bytes(data_url@) is None,
        },
        forall|jpeg: Seq<u8>|
            #![trigger jpeg_data_url(jpeg)]
            data_url@ == jpeg_data_url(jpeg) ==> (r is Some && r->Some_0@ == jpeg),
{
    let ghost chars = data_url@;
    let mut field = String::new();
    let mut commas: usize = 0;
    for c in iter: data_url.chars()
        invariant
            iter.seq() == chars,
            comma_fields(chars.take(iter.index() as int)) == (field@, commas as nat),
            commas <= 2,
    {
        proof {
            let next = chars.take(iter.index() + 1);
            assert(next.drop_last() =~= chars.take(iter.index() as int));
            assert(next.last() == c);
        }
        if c == ',' {
            if commas < 2 {
                commas = commas + 1;
            }
        } else if commas == 1 {
            push_char(&mut field, c);
        }
    }
    proof {
        assert(chars.take(chars.len() as int) =~= chars);
    }
    if commas == 0 {
        proof {
            assert forall|jpeg: Seq<u8>| #![trigger jpeg_data_url(jpeg)]
                data_url@ == jpeg_data_url(jpeg) implies false by {
                lemma_base64_alphabet(jpeg);
                lemma_data_url_field(base64_text(jpeg));
            }
        }
        return None;
    }
    let decoded = base64_decode(field.as_str());
    proof {
        assert forall|jpeg: Seq<u8>| #![trigger jpeg_data_url(jpeg)]
            data_url@ == jpeg_data_url(jpeg) implies (decoded is Some && decoded->Some_0@
                == jpeg) by {
            lemma_base64_alphabet(jpeg);
            lemma_data_url_field(base64_text(jpeg));
        }
    }
    decoded
}

/// What the image crate's JPEG encoder makes of an RGB image (rows of
/// `width` pixels, three bytes each) at a quality; `None` where it reports
/// an error.
pub uninterp spec fn jpeg_encoding(pixels: Seq<u8>, width: u32, height: u32, quality: u8) -> Option<
    Seq<u8>,
>;

/// `JpegEncoder::new_with_quality(..).encode(.., ColorType::Rgb8)` into a
/// fresh buffer. The result is the named encoding. A side longer than 65535
/// pixels is refused (the JPEG frame header holds 16-bit sizes); otherwise
/// encoding succeeds, since writing into a `Vec` cannot fail. The encoder
/// panics when the buffer does not hold exactly `width * height` pixels, so
/// that is required.
#[verifier::external_body]
fn jpeg_encode_rgb(pixels: &[u8], width: u32, height: u32, quality: u8) -> (r: Option<Vec<u8>>)
    requires
        pixels@.len() == width as int * height as int * 3,
    ensures
        match r {
            Some(v) => jpeg_encoding(pixels@, width, height, quality) == Some(v@),
            None => jpeg_encoding(pixels@, width, height, quality) is None,
        },
        r is None <==> (width > 65535 || height > 65535),
{
    let mut out: Vec<u8> = Vec::new();
    let result = JpegEncoder::new_with_quality(&mut out, quality).encode(
        pixels,
        width,
        height,
        image::ColorType::Rgb8,
    );
    match result {
        Ok(()) => Some(out),
        Err(_) => None,
    }
}

/// Encodes an RGB image as JPEG. A buffer that does not hold exactly
/// `width * height` pixels is refused, and so is a side longer than 65535
/// pixels; every other image is encoded.
pub fn encode_jpeg(pixels: &[u8], width: u32, height: u32, quality: u8) -> (r: Option<Vec<u8>>)
    ensures
        pixels@.len() != width as int * height as int * 3 ==> r is None,
        pixels@.len() == width as int * height as int * 3 ==> match r {
            Some(v) => jpeg_encoding(pixels@, width, height, quality) == Some(v@),
            None => jpeg_encoding(pixels@, width, height, quality) is None,
        },
        width > 65535 || height > 65535 ==> r is None,
        pixels@.len() == width as int * height as int * 3 && width <= 65535 && height <= 65535
            ==> r is Some,
{
    let w = width as u128;
    let h = height as u128;
    assert(w * h <= 0xffff_ffff_ffff_ffff * 1) by (nonlinear_arith)
        requires
            w <= 0xffff_ffff,
            h <= 0xffff_ffff,
    ;
    let expected: u128 = w * h * 3;
    if pixels.len() as u128 != expected {
        return None;
    }
    jpeg_encode_rgb(pixels, width, height, quality)
}

} // verus!

//! The identity a student sends when joining: `joinCode|name|studentID`.
//!
//! `|` separates the fields, so it is replaced by a space inside each field:
//! a student called "Smith | Jr" cannot shift the fields.

use crate::protocol::DEVICE_ID_PREFIX;
use crate::text::{lossy_text, push_char, starts_with, text_of_bytes, trim, trim_spec, utf8_bytes};
use vstd::prelude::*;
use vstd::utf8::*;

verus! {

broadcast use {encode_utf8_valid_utf8, encode_utf8_decode_utf8};

/// A field with every `|` replaced by a space.
pub open spec fn replace_pipes(s: Seq<char>) -> Seq<char> {
    s.map_values(|c: char| if c == '|' { ' ' } else { c })
}

/// The text of an identity payload: the three cleaned fields joined by `|`.
pub open spec fn identity_text(join_code: Seq<char>, name: Seq<char>, student_id: Seq<char>) -> Seq<
    char,
> {
    replace_pipes(join_code) + seq!['|'] + replace_pipes(name) + seq!['|'] + replace_pipes(
        student_id,
    )
}

/// Splits text at `|` into at most three fields, as `str::splitn(3, '|')`
/// does: the result holds the three fields and how many separators were
/// consumed (0, 1 or 2). After the second separator every `|` belongs to
/// the third field.
pub open spec fn split_identity(s: Seq<char>) -> (Seq<char>, Seq<char>, Seq<char>, nat)
    decreases s.len(),
{
    if s.len() == 0 {
        (Seq::empty(), Seq::empty(), Seq::empty(), 0)
    } else {
        let (a, b, c, n) = split_identity(s.drop_last());
        let ch = s.last();
        if ch == '|' && n < 2 {
            (a, b, c, n + 1)
        } else if n == 0 {
            (a.push(ch), b, c, n)
        } else if n == 1 {
            (a, b.push(ch), c, n)
        } else {
            (a, b, c.push(ch), n)
        }
    }
}

/// The name shown for a student whose identity carries no name field.
pub open spec fn unknown_name() -> Seq<char> {
    seq!['U', 'n', 'k', 'n', 'o', 'w', 'n']
}

/// The (join code, name, student ID) that a server reads from identity text.
/// A missing name reads as "Unknown", a missing code or ID as empty.
pub open spec fn identity_fields(text: Seq<char>) -> (Seq<char>, Seq<char>, Seq<char>) {
    let (a, b, c, n) = split_identity(text);
    (a, if n >= 1 {
        b
    } else {
        unknown_name()
    }, c)
}

fn push_clean(out: &mut String, s: &str)
    ensures
        final(out)@ == old(out)@ + replace_pipes(s@),
{
    let ghost start = out@;
    let ghost chars = s@;
    for c in iter: s.chars()
        invariant
            iter.seq() == chars,
            out@ == start + replace_pipes(chars.take(iter.index() as int)),
    {
        proof {
            assert(chars.take(iter.index() + 1) == chars.take(iter.index() as int).push(c));
            assert(replace_pipes(chars.take(iter.index() + 1)) =~= replace_pipes(
                chars.take(iter.index() as int),
            ).push(if c == '|' { ' ' } else { c }));
        }
        if c == '|' {
            push_char(out, ' ');
        } else {
            push_char(out, c);
        }
        proof {
            assert(out@ =~= start + replace_pipes(chars.take(iter.index() + 1)));
        }
    }
    proof {
        assert(chars.take(chars.len() as int) == chars);
    }
}

/// The payload of a `Name` packet: the UTF-8 bytes of
/// `joinCode|name|studentID`, each field with `|` replaced by a space.
pub fn identity_payload(join_code: &str, student_name: &str, student_id: &str) -> (r: Vec<u8>)
    ensures
        r@ == encode_utf8(identity_text(join_code@, student_name@, student_id@)),
{
    let mut text = String::new();
    push_clean(&mut text, join_code);
    push_char(&mut text, '|');
    push_clean(&mut text, student_name);
    push_char(&mut text, '|');
    push_clean(&mut text, student_id);
    assert(text@ =~= identity_text(join_code@, student_name@, student_id@));
    utf8_bytes(text.as_str())
}

/// Reads (join code, name, student ID) from the payload of a `Name` packet.
///
/// The payload is decoded as `String::from_utf8_lossy` does and split at the
/// first two `|`. A payload without a separator is all join code, with name
/// "Unknown" and an empty ID.
pub fn parse_identity(payload: &[u8]) -> (r: (String, String, String))
    ensures
        (r.0@, r.1@, r.2@) == identity_fields(text_of_bytes(payload@)),
{
    let text = lossy_text(payload);
    let ghost chars = text@;
    let mut code = String::new();
    let mut name = String::new();
    let mut id = String::new();
    let mut seps: usize = 0;
    for ch in iter: text.as_str().chars()
        invariant
            iter.seq() == chars,
            split_identity(chars.take(iter.index() as int)) == (code@, name@, id@, seps as nat),
            seps <= 2,
    {
        proof {
            let next = chars.take(iter.index() + 1);
            assert(next.drop_last() == chars.take(iter.index() as int));
            assert(next.last() == ch);
        }
        if ch == '|' && seps < 2 {
            seps = seps + 1;
        } else if seps == 0 {
            push_char(&mut code, ch);
        } else if seps == 1 {
            push_char(&mut name, ch);
        } else {
            push_char(&mut id, ch);
        }
    }
    proof {
        assert(chars.take(chars.len() as int) == chars);
    }
    let name = if seps >= 1 {
        name
    } else {
        let unknown = "Unknown";
        proof {
            reveal_strlit("Unknown");
        }
        assert(unknown@ =~= unknown_name());
        unknown.to_owned()
    };
    (code, name, id)
}

/// Appending text without a `|` extends the field that is currently open.
proof fn lemma_split_extend(s: Seq<char>, t: Seq<char>)
    requires
        forall|i: int| 0 <= i < t.len() ==> t[i] != '|',
    ensures
        ({
            let (a, b, c, n) = split_identity(s);
            split_identity(s + t) == if n == 0 {
                (a + t, b, c, n)
            } else if n == 1 {
                (a, b + t, c, n)
            } else {
                (a, b, c + t, n)
            }
        }),
    decreases t.len(),
{
    let (a, b, c, n) = split_identity(s);
    if t.len() == 0 {
        assert(s + t =~= s);
        assert(a + t =~= a);
        assert(b + t =~= b);
        assert(c + t =~= c);
    } else {
        lemma_split_extend(s, t.drop_last());
        assert((s + t).drop_last() =~= s + t.drop_last());
        assert((a + t.drop_last()).push(t.last()) =~= a + t);
        assert((b + t.drop_last()).push(t.last()) =~= b + t);
        assert((c + t.drop_last()).push(t.last()) =~= c + t);
        let n2 = split_identity(s + t.drop_last()).3;
        assert(n2 == n);
    }
}

proof fn lemma_no_pipes(s: Seq<char>)
    ensures
        forall|i: int| 0 <= i < replace_pipes(s).len() ==> replace_pipes(s)[i] != '|',
{
}

/// A server reads back exactly the fields a client put into its identity,
/// each with `|` replaced by a space.
pub proof fn lemma_identity_round_trip(join_code: Seq<char>, name: Seq<char>, student_id: Seq<char>)
    ensures
        identity_fields(text_of_bytes(encode_utf8(identity_text(join_code, name, student_id))))
            == (replace_pipes(join_code), replace_pipes(name), replace_pipes(student_id)),
{
    let c = replace_pipes(join_code);
    let n = replace_pipes(name);
    let i = replace_pipes(student_id);
    let text = identity_text(join_code, name, student_id);
    assert(text_of_bytes(encode_utf8(text)) == text);
    lemma_no_pipes(join_code);
    lemma_no_pipes(name);
    lemma_no_pipes(student_id);
    let e = Seq::<char>::empty();
    assert(split_identity(e) == (e, e, e, 0nat));
    lemma_split_extend(e, c);
    assert(e + c =~= c);
    assert(e + e =~= e);
    assert(split_identity(c) == (c, e, e, 0nat));
    let s1 = c.push('|');
    assert(s1.drop_last() =~= c);
    assert(split_identity(s1) == (c, e, e, 1nat));
    lemma_split_extend(s1, n);
    assert(split_identity(s1 + n) == (c, n, e, 1nat));
    let s2 = (s1 + n).push('|');
    assert(s2.drop_last() =~= s1 + n);
    assert(split_identity(s2) == (c, n, e, 2nat));
    lemma_split_extend(s2, i);
    assert(text =~= s2 + i);
}

/// How a student is recognised across reconnects: the student ID when one
/// was sent, otherwise the name without surrounding whitespace.
pub fn identity_key(name: &str, student_id: &str) -> (r: String)
    ensures
        r@ == if student_id@.len() == 0 {
            trim_spec(name@)
        } else {
            student_id@
        },
{
    if student_id.is_empty() {
        trim(name).to_owned()
    } else {
        student_id.to_owned()
    }
}

/// Whether a student ID is a generated device id rather than a real one.
pub open spec fn is_device_id(student_id: Seq<char>) -> bool {
    DEVICE_ID_PREFIX@.len() <= student_id.len() && student_id.subrange(
        0,
        DEVICE_ID_PREFIX@.len() as int,
    ) == DEVICE_ID_PREFIX@
}

/// The label under which a student's evidence is filed: a real student ID
/// when there is one, otherwise the trimmed name. Generated device ids are
/// for matching, not for reading.
pub fn evidence_label(name: &str, student_id: &str) -> (r: String)
    ensures
        r@ == if student_id@.len() == 0 || is_device_id(student_id@) {
            trim_spec(name@)
        } else {
            student_id@
        },
{
    if student_id.is_empty() || starts_with(student_id, DEVICE_ID_PREFIX) {
        trim(name).to_owned()
    } else {
        student_id.to_owned()
    }
}

} // verus!

//! Class codes: how a room's code is generated and how the port its room
//! listens on is derived from it.

use crate::text::{
    ascii_uppercase, is_ascii_text, is_white_space, lemma_ascii_uppercase, lemma_trim_is_inner,
    lemma_trim_of_inner, to_uppercase, trim, trim_spec, unicode_uppercase,
};
use vstd::prelude::*;
use vstd::utf8::encode_utf8;

verus! {

/// Letters and digits a join code is made of; 0, O, 1 and I are left out so
/// a code read aloud cannot be mistaken.
pub const JOIN_CODE_ALPHABET: [char; 32] = [
    'A', 'B', 'C', 'D', 'E', 'F', 'G', 'H', 'J', 'K', 'L', 'M', 'N', 'P', 'Q', 'R',
    'S', 'T', 'U', 'V', 'W', 'X', 'Y', 'Z', '2', '3', '4', '5', '6', '7', '8', '9',
];

/// Number of characters in a join code.
pub const JOIN_CODE_LEN: usize = 4;

/// Lowest port a room can listen on.
pub const FIRST_ROOM_PORT: u16 = 20000;

/// Number of ports rooms are spread over.
pub const ROOM_PORT_SPAN: u32 = 25000;

pub const FNV_OFFSET_BASIS: u32 = 2166136261;

pub const FNV_PRIME: u32 = 16777619;

/// 32-bit FNV-1a hash of a byte string.
pub open spec fn fnv1a(bytes: Seq<u8>) -> u32
    decreases bytes.len(),
{
    if bytes.len() == 0 {
        FNV_OFFSET_BASIS
    } else {
        (((fnv1a(bytes.drop_last()) ^ (bytes.last() as u32)) as nat * FNV_PRIME as nat)
            % 0x1_0000_0000nat) as u32
    }
}

/// The port a room with this class code listens on: FNV-1a of the UTF-8
/// bytes of the trimmed, uppercased code, mapped into 20000..=44999.
pub open spec fn port_for_text(code: Seq<char>) -> u16 {
    (FIRST_ROOM_PORT + fnv1a(encode_utf8(unicode_uppercase(trim_spec(code)))) % ROOM_PORT_SPAN) as u16
}

/// The port of an ASCII class code: FNV-1a of the trimmed code with `a` to
/// `z` uppercased, mapped into 20000..=44999.
pub open spec fn ascii_port(code: Seq<char>) -> u16 {
    (FIRST_ROOM_PORT + fnv1a(encode_utf8(ascii_uppercase(trim_spec(code)))) % ROOM_PORT_SPAN) as u16
}

/// Trimming keeps a text ASCII.
proof fn lemma_trim_ascii(s: Seq<char>)
    requires
        is_ascii_text(s),
    ensures
        is_ascii_text(trim_spec(s)),
{
    lemma_trim_is_inner(s);
    let t = trim_spec(s);
    let k = choose|k: int| 0 <= k && k + t.len() <= s.len() && #[trigger] s.subrange(k, k + t.len()) == t;
    assert forall|i: int| 0 <= i < t.len() implies (#[trigger] t[i] as u32) < 128 by {
        assert(t[i] == s[k + i]);
    }
}

/// Normalising an ASCII class code (trimming it and uppercasing it) does not
/// change its port, so a code typed either way reaches the same room.
pub proof fn lemma_normalised_code_keeps_port(code: Seq<char>)
    requires
        is_ascii_text(code),
    ensures
        is_ascii_text(ascii_uppercase(trim_spec(code))),
        ascii_port(ascii_uppercase(trim_spec(code))) == ascii_port(code),
{
    let t = trim_spec(code);
    lemma_trim_ascii(code);
    lemma_trim_is_inner(code);
    lemma_ascii_uppercase(t);
    let u = ascii_uppercase(t);
    if u.len() > 0 {
        assert(is_white_space(u[0]) == is_white_space(t[0]));
        assert(u.last() == u[u.len() - 1]);
        assert(is_white_space(u[u.len() - 1]) == is_white_space(t[t.len() - 1]));
    }
    lemma_trim_of_inner(u);
}

/// Maps a class code to the port its room listens on, so that students only
/// need the code. Surrounding whitespace and letter case do not matter.
pub fn port_for_code(code: &str) -> (port: u16)
    ensures
        port == port_for_text(code@),
        is_ascii_text(code@) ==> port == ascii_port(code@),
        FIRST_ROOM_PORT <= port <= 44999,
{
    proof {
        if is_ascii_text(code@) {
            lemma_trim_ascii(code@);
        }
    }
    let upper = to_uppercase(trim(code));
    let bytes = upper.as_str().as_bytes();
    let mut hash: u32 = FNV_OFFSET_BASIS;
    let mut i: usize = 0;
    while i < bytes.len()
        invariant
            0 <= i <= bytes@.len(),
            hash == fnv1a(bytes@.subrange(0, i as int)),
        decreases bytes@.len() - i,
    {
        proof {
            let next = bytes@.subrange(0, i + 1);
            assert(next.drop_last() =~= bytes@.subrange(0, i as int));
            assert(next.last() == bytes@[i as int]);
        }
        hash = hash ^ (bytes[i] as u32);
        hash = hash.wrapping_mul(FNV_PRIME);
        i = i + 1;
    }
    assert(bytes@.subrange(0, bytes@.len() as int) =~= bytes@);
    FIRST_ROOM_PORT + ((hash % ROOM_PORT_SPAN) as u16)
}

/// Every class code maps to a port in 20000..=44999: above the privileged
/// ports, below the ephemeral range.
pub proof fn lemma_port_in_range(code: Seq<char>)
    ensures
        FIRST_ROOM_PORT <= port_for_text(code) <= 44999,
{
}

/// Codes that differ only in surrounding whitespace share a port.
pub proof fn lemma_port_ignores_padding(a: Seq<char>, b: Seq<char>)
    requires
        trim_spec(a) == trim_spec(b),
    ensures
        port_for_text(a) == port_for_text(b),
{
}

/// Codes whose trimmed forms have the same uppercase share a port.
pub proof fn lemma_port_ignores_case(a: Seq<char>, b: Seq<char>)
    requires
        unicode_uppercase(trim_spec(a)) == unicode_uppercase(trim_spec(b)),
    ensures
        port_for_text(a) == port_for_text(b),
{
}

/// One xorshift64 step.
pub open spec fn xorshift(s: u64) -> u64 {
    let a = s ^ (s << 13u64);
    let b = a ^ (a >> 7u64);
    b ^ (b << 17u64)
}

fn xorshift_exec(s: u64) -> (r: u64)
    ensures
        r == xorshift(s),
{
    let a = s ^ (s << 13u64);
    let b = a ^ (a >> 7u64);
    b ^ (b << 17u64)
}

/// The join code that a seed gives: four xorshift64 steps, each picking
/// the alphabet letter at the state modulo 32.
pub open spec fn join_code_for_seed(seed: u64) -> Seq<char> {
    let s1 = xorshift(seed);
    let s2 = xorshift(s1);
    let s3 = xorshift(s2);
    let s4 = xorshift(s3);
    seq![
        JOIN_CODE_ALPHABET@[(s1 % 32) as int],
        JOIN_CODE_ALPHABET@[(s2 % 32) as int],
        JOIN_CODE_ALPHABET@[(s3 % 32) as int],
        JOIN_CODE_ALPHABET@[(s4 % 32) as int],
    ]
}

/// Whether a code is four letters of the join-code alphabet.
pub open spec fn is_join_code(code: Seq<char>) -> bool {
    &&& code.len() == JOIN_CODE_LEN
    &&& forall|i: int| 0 <= i < code.len() ==> JOIN_CODE_ALPHABET@.contains(#[trigger] code[i])
}

/// Every code a seed gives is four letters of the alphabet.
pub proof fn lemma_seed_gives_join_code(seed: u64)
    ensures
        is_join_code(join_code_for_seed(seed)),
{
    let code = join_code_for_seed(seed);
    assert forall|i: int| 0 <= i < code.len() implies JOIN_CODE_ALPHABET@.contains(
        #[trigger] code[i],
    ) by {
        let s1 = xorshift(seed);
        let s2 = xorshift(s1);
        let s3 = xorshift(s2);
        let s4 = xorshift(s3);
        let k = if i == 0 {
            (s1 % 32) as int
        } else if i == 1 {
            (s2 % 32) as int
        } else if i == 2 {
            (s3 % 32) as int
        } else {
            (s4 % 32) as int
        };
        assert(code[i] == JOIN_CODE_ALPHABET@[k]);
    }
}

/// The join code a seed gives.
pub fn join_code_from_seed(seed: u64) -> (code: String)
    ensures
        code@ == join_code_for_seed(seed),
        is_join_code(code@),
{
    let mut state = seed;
    let mut code = String::new();
    let ghost s1 = xorshift(seed);
    let ghost s2 = xorshift(s1);
    let ghost s3 = xorshift(s2);
    let ghost s4 = xorshift(s3);
    let ghost states = seq![s1, s2, s3, s4];
    let mut i: usize = 0;
    while i < JOIN_CODE_LEN
        invariant
            i <= JOIN_CODE_LEN,
            states == seq![s1, s2, s3, s4],
            s1 == xorshift(seed),
            s2 == xorshift(s1),
            s3 == xorshift(s2),
            s4 == xorshift(s3),
            i == 0 ==> state == seed,
            i > 0 ==> state == states[i - 1],
            code@ == join_code_for_seed(seed).subrange(0, i as int),
        decreases JOIN_CODE_LEN - i,
    {
        state = xorshift_exec(state);
        assert(state == states[i as int]);
        crate::text::push_char(&mut code, JOIN_CODE_ALPHABET[(state % 32) as usize]);
        i = i + 1;
        assert(code@ =~= join_code_for_seed(seed).subrange(0, i as int));
    }
    assert(join_code_for_seed(seed).subrange(0, 4) =~= join_code_for_seed(seed));
    proof {
        lemma_seed_gives_join_code(seed);
    }
    code
}

/// `SystemTime::now()` as nanoseconds since the Unix epoch, or `None` when
/// the clock stands before the epoch. Nothing is claimed of the value.
#[verifier::external_body]
fn unix_time_nanos() -> (r: Option<u128>) {
    std::time::SystemTime::now().duration_since(std::time::UNIX_EPOCH).ok().map(|d| d.as_nanos())
}

/// The seed a clock reading gives: the low 64 bits of the nanoseconds since
/// the epoch with the lowest bit set, or 1 when the clock stands before the
/// epoch.
pub open spec fn clock_seed(nanos: Option<u128>) -> u64 {
    match nanos {
        Some(n) => (n as u64) | 1u64,
        None => 1,
    }
}

/// The join code for a clock reading (nanoseconds since the epoch, `None`
/// before the epoch).
pub fn join_code_from_clock(nanos: Option<u128>) -> (code: String)
    ensures
        code@ == join_code_for_seed(clock_seed(nanos)),
        clock_seed(nanos) % 2 == 1,
        is_join_code(code@),
{
    let low: u64 = match nanos {
        Some(n) => #[verifier::truncate] (n as u64),
        None => 1,
    };
    let seed = low | 1;
    assert(seed % 2 == 1 && (low == 1 ==> seed == 1)) by (bit_vector)
        requires
            seed == low | 1,
    ;
    join_code_from_seed(seed)
}

/// Generates a 4-character room join code, seeded from the clock (see
/// `join_code_from_clock`). Equal clock readings give equal codes.
pub fn generate_join_code() -> (code: String)
    ensures
        exists|nanos: Option<u128>| code@ == join_code_for_seed(clock_seed(nanos)),
        is_join_code(code@),
{
    let nanos = unix_time_nanos();
    join_code_from_clock(nanos)
}

/// Why a student's class code cannot be used.
#[derive(Clone, Copy, Debug, PartialEq, Eq, Structural)]
pub enum JoinCodeError {
    /// Nothing but whitespace was entered.
    Empty,
}

impl JoinCodeError {
    pub fn message(&self) -> (r: &'static str)
        ensures
            r@ == "enter the class code shown on the teacher's screen"@,
    {
        match self {
            JoinCodeError::Empty => "enter the class code shown on the teacher's screen",
        }
    }
}

/// A room the client can look for: its normalised code and its port.
pub struct JoinTarget {
    pub join_code: String,
    pub port: u16,
}

/// Normalises the class code a student typed (trimmed, uppercased) and
/// derives the room's port from it. An empty code is refused.
pub fn prepare_join_code(raw: &str) -> (r: Result<JoinTarget, JoinCodeError>)
    ensures
        ({
            let code = unicode_uppercase(trim_spec(raw@));
            &&& code.len() == 0 ==> r == Err::<JoinTarget, JoinCodeError>(JoinCodeError::Empty)
            &&& code.len() > 0 ==> r is Ok && r->Ok_0.join_code@ == code && r->Ok_0.port
                == port_for_text(code)
            &&& is_ascii_text(raw@) && r is Ok ==> r->Ok_0.join_code@ == ascii_uppercase(
                trim_spec(raw@),
            ) && r->Ok_0.port == ascii_port(raw@)
        }),
{
    proof {
        if is_ascii_text(raw@) {
            lemma_trim_ascii(raw@);
            lemma_normalised_code_keeps_port(raw@);
        }
    }
    let code = to_uppercase(trim(raw));
    if code.as_str().is_empty() {
        return Err(JoinCodeError::Empty);
    }
    let port = port_for_code(code.as_str());
    Ok(JoinTarget { join_code: code, port })
}

} // verus!

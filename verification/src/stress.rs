//! The load-testing tool: its command line, and the synthetic screen
//! frames its simulated students send.

use crate::frames::{encode_jpeg, jpeg_encoding};
use crate::text::append_str;
use vstd::prelude::*;

verus! {

pub open spec fn is_digit(c: char) -> bool {
    '0' <= c <= '9'
}

pub open spec fn digit_value(c: char) -> nat {
    (c as u32 - '0' as u32) as nat
}

/// The number a string of decimal digits stands for.
pub open spec fn digits_value(d: Seq<char>) -> nat
    decreases d.len(),
{
    if d.len() == 0 {
        0
    } else {
        digits_value(d.drop_last()) * 10 + digit_value(d.last())
    }
}

/// The digits of an unsigned number as `str::parse` reads it: an optional
/// leading `+`, then the digits.
pub open spec fn unsigned_digits(s: Seq<char>) -> Seq<char> {
    if s.len() > 0 && s[0] == '+' {
        s.drop_first()
    } else {
        s
    }
}

/// What `str::parse` gives for an unsigned integer type whose largest
/// value is `max`: the value of one or more decimal digits after an optional
/// `+`, if it does not exceed `max`.
pub open spec fn parsed_unsigned(s: Seq<char>, max: u64) -> Option<u64> {
    let d = unsigned_digits(s);
    if d.len() > 0 && (forall|i: int| 0 <= i < d.len() ==> is_digit(#[trigger] d[i]))
        && digits_value(d) <= max {
        Some(digits_value(d) as u64)
    } else {
        None
    }
}

pub proof fn lemma_digits_value_grows(d: Seq<char>, c: char)
    requires
        is_digit(c),
    ensures
        digits_value(d.push(c)) == digits_value(d) * 10 + digit_value(c),
        digits_value(d.push(c)) >= digits_value(d),
{
    assert(d.push(c).drop_last() =~= d);
}

proof fn lemma_digits_value_prefix(d: Seq<char>, k: int)
    requires
        0 <= k <= d.len(),
        forall|i: int| 0 <= i < d.len() ==> is_digit(#[trigger] d[i]),
    ensures
        digits_value(d.subrange(0, k)) <= digits_value(d),
    decreases d.len() - k,
{
    if k < d.len() {
        lemma_digits_value_prefix(d, k + 1);
        let p = d.subrange(0, k);
        assert(d.subrange(0, k + 1) =~= p.push(d[k]));
        lemma_digits_value_grows(p, d[k]);
    } else {
        assert(d.subrange(0, k) =~= d);
    }
}

/// Parses an unsigned decimal number no larger than `max`, as `str::parse`
/// does for unsigned integer types.
pub fn parse_unsigned(s: &str, max: u64) -> (r: Option<u64>)
    ensures
        r == parsed_unsigned(s@, max),
{
    let ghost chars = s@;
    let ghost d = unsigned_digits(chars);
    let mut value: u64 = 0;
    let ghost mut count: int = 0;
    let mut seen_digit = false;
    let mut first = true;
    let mut skipped_plus = false;
    for c in iter: s.chars()
        invariant
            iter.seq() == chars,
            chars == s@,
            d == unsigned_digits(chars),
            first == (iter.index() == 0),
            skipped_plus == (chars.len() > 0 && chars[0] == '+' && iter.index() > 0),
            seen_digit == (count > 0),
            count == if skipped_plus {
                iter.index() - 1
            } else {
                iter.index() as int
            },
            forall|i: int| 0 <= i < count ==> is_digit(#[trigger] d[i]),
            value == digits_value(d.subrange(0, count)),
            value <= max,
    {
        proof {
            if chars.len() > 0 && chars[0] == '+' {
                assert(d =~= chars.drop_first());
            } else {
                assert(d =~= chars);
            }
        }
        if first && c == '+' {
            first = false;
            skipped_plus = true;
        } else {
            first = false;
            proof {
                assert(d[count] == c);
            }
            if !('0' <= c && c <= '9') {
                assert(!is_digit(d[count]));
                assert(!(forall|i: int| 0 <= i < d.len() ==> is_digit(#[trigger] d[i])));
                return None;
            }
            let digit = (c as u32 - '0' as u32) as u64;
            proof {
                assert(d[count] == c);
                assert(d.subrange(0, count + 1) =~= d.subrange(0, count).push(c));
                lemma_digits_value_grows(d.subrange(0, count), c);
            }
            if digit > max || value > (max - digit) / 10 {
                proof {
                    assert(digits_value(d.subrange(0, count + 1)) > max) by (nonlinear_arith)
                        requires
                            digits_value(d.subrange(0, count + 1)) == value * 10 + digit,
                            digit > max || value > (max - digit) / 10,
                            value >= 0,
                    ;
                    if forall|i: int| 0 <= i < d.len() ==> is_digit(#[trigger] d[i]) {
                        lemma_digits_value_prefix(d, count + 1);
                    }
                }
                return None;
            }
            value = value * 10 + digit;
            seen_digit = true;
            proof {
                count = count + 1;
            }
        }
    }
    proof {
        if chars.len() > 0 && chars[0] == '+' {
            assert(d =~= chars.drop_first());
        } else {
            assert(d =~= chars);
        }
        assert(d.subrange(0, count) =~= d);
    }
    if !seen_digit {
        return None;
    }
    Some(value)
}


/// Settings of a load test.
#[derive(Clone, Debug)]
pub struct StressConfig {
    pub host: String,
    pub port: u16,
    pub clients: usize,
    pub fps: u64,
    pub seconds: u64,
    pub width: u32,
    pub height: u32,
    pub quality: u8,
    pub code: String,
}

/// Settings of a load test, as plain values.
pub struct StressSettings {
    pub host: Seq<char>,
    pub port: u16,
    pub clients: usize,
    pub fps: u64,
    pub seconds: u64,
    pub width: u32,
    pub height: u32,
    pub quality: u8,
    pub code: Seq<char>,
}

impl View for StressConfig {
    type V = StressSettings;

    open spec fn view(&self) -> StressSettings {
        StressSettings {
            host: self.host@,
            port: self.port,
            clients: self.clients,
            fps: self.fps,
            seconds: self.seconds,
            width: self.width,
            height: self.height,
            quality: self.quality,
            code: self.code@,
        }
    }
}

/// 20 clients at 5 frames a second for 60 s, 720x405 JPEG at quality 60,
/// against 127.0.0.1:1234 without a class code.
pub open spec fn default_settings() -> StressSettings {
    StressSettings {
        host: "127.0.0.1"@,
        port: 1234,
        clients: 20,
        fps: 5,
        seconds: 60,
        width: 720,
        height: 405,
        quality: 60,
        code: Seq::empty(),
    }
}

impl StressConfig {
    pub fn default_config() -> (r: Self)
        ensures
            r@ == default_settings(),
    {
        let r = StressConfig {
            host: "127.0.0.1".to_owned(),
            port: 1234,
            clients: 20,
            fps: 5,
            seconds: 60,
            width: 720,
            height: 405,
            quality: 60,
            code: String::new(),
        };
        assert(r@.code =~= Seq::<char>::empty());
        r
    }
}

/// Why a command line was refused.
pub enum ArgsError {
    /// A flag that takes a value came last.
    MissingValue(String),
    /// A numeric flag's value is not a number of the right size; the text
    /// is the complaint (such as "--port must be a u16").
    InvalidNumber(String),
    UnknownArgument(String),
    NoClients,
    NoFps,
    EmptyFrame,
}

/// Why a command line was refused, as plain values.
pub enum ArgsProblem {
    MissingValue(Seq<char>),
    InvalidNumber(Seq<char>),
    UnknownArgument(Seq<char>),
    NoClients,
    NoFps,
    EmptyFrame,
}

impl View for ArgsError {
    type V = ArgsProblem;

    open spec fn view(&self) -> ArgsProblem {
        match self {
            ArgsError::MissingValue(a) => ArgsProblem::MissingValue(a@),
            ArgsError::InvalidNumber(m) => ArgsProblem::InvalidNumber(m@),
            ArgsError::UnknownArgument(a) => ArgsProblem::UnknownArgument(a@),
            ArgsError::NoClients => ArgsProblem::NoClients,
            ArgsError::NoFps => ArgsProblem::NoFps,
            ArgsError::EmptyFrame => ArgsProblem::EmptyFrame,
        }
    }
}

impl ArgsError {
    /// The message the tool prints.
    pub fn message(&self) -> (r: String)
        ensures
            match self@ {
                ArgsProblem::MissingValue(a) => r@ == "missing value after "@ + a,
                ArgsProblem::InvalidNumber(m) => r@ == m,
                ArgsProblem::UnknownArgument(a) => r@ == "unknown argument: "@ + a,
                ArgsProblem::NoClients => r@ == "--clients must be greater than zero"@,
                ArgsProblem::NoFps => r@ == "--fps must be greater than zero"@,
                ArgsProblem::EmptyFrame => r@ == "--width and --height must be greater than zero"@,
            },
    {
        match self {
            ArgsError::MissingValue(a) => {
                let mut m = "missing value after ".to_owned();
                append_str(&mut m, a.as_str());
                m
            },
            ArgsError::InvalidNumber(m) => m.clone(),
            ArgsError::UnknownArgument(a) => {
                let mut m = "unknown argument: ".to_owned();
                append_str(&mut m, a.as_str());
                m
            },
            ArgsError::NoClients => "--clients must be greater than zero".to_owned(),
            ArgsError::NoFps => "--fps must be greater than zero".to_owned(),
            ArgsError::EmptyFrame => "--width and --height must be greater than zero".to_owned(),
        }
    }
}

/// What a command line asks for.
pub enum ArgsOutcome {
    Run(StressConfig),
    Help,
}

/// What a command line asks for, as plain values.
pub enum ArgsResult {
    Run(StressSettings),
    Help,
    Refused(ArgsProblem),
}

/// Flags that take a value.
pub open spec fn takes_value(flag: Seq<char>) -> bool {
    ||| flag == "--host"@
    ||| flag == "--port"@
    ||| flag == "--clients"@
    ||| flag == "--fps"@
    ||| flag == "--seconds"@
    ||| flag == "--width"@
    ||| flag == "--height"@
    ||| flag == "--quality"@
    ||| flag == "--code"@
}

/// The settings after one `flag value` pair, or the complaint about the value.
pub open spec fn with_flag(c: StressSettings, flag: Seq<char>, v: Seq<char>) -> Result<
    StressSettings,
    Seq<char>,
> {
    if flag == "--host"@ {
        Ok(StressSettings { host: v, ..c })
    } else if flag == "--code"@ {
        Ok(StressSettings { code: v, ..c })
    } else if flag == "--port"@ {
        match parsed_unsigned(v, 65535) {
            Some(n) => Ok(StressSettings { port: n as u16, ..c }),
            None => Err("--port must be a u16"@),
        }
    } else if flag == "--clients"@ {
        match parsed_unsigned(v, usize::MAX as u64) {
            Some(n) => Ok(StressSettings { clients: n as usize, ..c }),
            None => Err("--clients must be a number"@),
        }
    } else if flag == "--fps"@ {
        match parsed_unsigned(v, u64::MAX) {
            Some(n) => Ok(StressSettings { fps: n, ..c }),
            None => Err("--fps must be a number"@),
        }
    } else if flag == "--seconds"@ {
        match parsed_unsigned(v, u64::MAX) {
            Some(n) => Ok(StressSettings { seconds: n, ..c }),
            None => Err("--seconds must be a number"@),
        }
    } else if flag == "--width"@ {
        match parsed_unsigned(v, 0xffff_ffff) {
            Some(n) => Ok(StressSettings { width: n as u32, ..c }),
            None => Err("--width must be a number"@),
        }
    } else if flag == "--height"@ {
        match parsed_unsigned(v, 0xffff_ffff) {
            Some(n) => Ok(StressSettings { height: n as u32, ..c }),
            None => Err("--height must be a number"@),
        }
    } else {
        match parsed_unsigned(v, 255) {
            Some(n) => Ok(StressSettings { quality: n as u8, ..c }),
            None => Err("--quality must be a number"@),
        }
    }
}

/// The checks made once every argument is read.
pub open spec fn checked(c: StressSettings) -> ArgsResult {
    if c.clients == 0 {
        ArgsResult::Refused(ArgsProblem::NoClients)
    } else if c.fps == 0 {
        ArgsResult::Refused(ArgsProblem::NoFps)
    } else if c.width == 0 || c.height == 0 {
        ArgsResult::Refused(ArgsProblem::EmptyFrame)
    } else {
        ArgsResult::Run(c)
    }
}

/// Reads the arguments from position `i` on, starting from settings `c`:
/// each flag that takes a value consumes the next argument; `--help` and
/// `-h` end the reading at once.
pub open spec fn read_args(args: Seq<Seq<char>>, i: int, c: StressSettings) -> ArgsResult
    decreases args.len() - i,
{
    if i < 0 || i >= args.len() {
        checked(c)
    } else {
        let a = args[i];
        if takes_value(a) {
            if i + 1 >= args.len() {
                ArgsResult::Refused(ArgsProblem::MissingValue(a))
            } else {
                match with_flag(c, a, args[i + 1]) {
                    Ok(c2) => read_args(args, i + 2, c2),
                    Err(m) => ArgsResult::Refused(ArgsProblem::InvalidNumber(m)),
                }
            }
        } else if a == "--help"@ || a == "-h"@ {
            ArgsResult::Help
        } else {
            ArgsResult::Refused(ArgsProblem::UnknownArgument(a))
        }
    }
}

/// A command line of one flag and its value changes exactly that setting:
/// the tool runs with the value given for that flag and every other
/// setting at its default (127.0.0.1:1234, 20 clients, 5 frames a second
/// for 60 s, 720x405, quality 60, no class code).
/// A command line of one flag that takes a value, and that value.
proof fn lemma_read_one_flag(flag: Seq<char>, v: Seq<char>, c: StressSettings)
    requires
        takes_value(flag),
        with_flag(default_settings(), flag, v) == Ok::<StressSettings, Seq<char>>(c),
    ensures
        read_args(seq![flag, v], 0, default_settings()) == checked(c),
{
    let args = seq![flag, v];
    assert(args[0] == flag && args[1] == v && args.len() == 2);
    reveal_with_fuel(read_args, 2);
}

#[verifier::spinoff_prover]
proof fn lemma_flag_host(v: Seq<char>)
    requires
    ensures
        read_args(seq!["--host"@, v], 0, default_settings()) == ArgsResult::Run(StressSettings { host: v, port: 1234, clients: 20, fps: 5, seconds: 60, width: 720, height: 405, quality: 60, code: Seq::<char>::empty() }),
{
    reveal_strlit("--host");
    reveal_strlit("--port");
    reveal_strlit("--clients");
    reveal_strlit("--fps");
    reveal_strlit("--seconds");
    reveal_strlit("--width");
    reveal_strlit("--height");
    reveal_strlit("--quality");
    reveal_strlit("--code");
    reveal_strlit("--help");
    reveal_strlit("-h");
    reveal_strlit("127.0.0.1");
    assert("--host"@[2] != "--port"@[2]);
    assert("--host"@.len() != "--clients"@.len());
    assert("--host"@.len() != "--fps"@.len());
    assert("--host"@.len() != "--seconds"@.len());
    assert("--host"@.len() != "--width"@.len());
    assert("--host"@.len() != "--height"@.len());
    assert("--host"@.len() != "--quality"@.len());
    assert("--host"@[2] != "--code"@[2]);
    assert("--host"@[3] != "--help"@[3]);
    assert("--host"@.len() != "-h"@.len());
    assert(takes_value("--host"@));
    let c = StressSettings { host: v, port: 1234, clients: 20, fps: 5, seconds: 60, width: 720, height: 405, quality: 60, code: Seq::<char>::empty() };
    assert(with_flag(default_settings(), "--host"@, v) == Ok::<StressSettings, Seq<char>>(c));
    assert(checked(c) == ArgsResult::Run(c));
    lemma_read_one_flag("--host"@, v, c);
}

#[verifier::spinoff_prover]
proof fn lemma_flag_port(v: Seq<char>)
    requires
        parsed_unsigned(v, 65535) is Some,
    ensures
        read_args(seq!["--port"@, v], 0, default_settings()) == ArgsResult::Run(StressSettings { host: "127.0.0.1"@, port: parsed_unsigned(v, 65535)->Some_0 as u16, clients: 20, fps: 5, seconds: 60, width: 720, height: 405, quality: 60, code: Seq::<char>::empty() }),
{
    reveal_strlit("--port");
    reveal_strlit("--host");
    reveal_strlit("--clients");
    reveal_strlit("--fps");
    reveal_strlit("--seconds");
    reveal_strlit("--width");
    reveal_strlit("--height");
    reveal_strlit("--quality");
    reveal_strlit("--code");
    reveal_strlit("--help");
    reveal_strlit("-h");
    reveal_strlit("127.0.0.1");
    assert("--port"@[2] != "--host"@[2]);
    assert("--port"@.len() != "--clients"@.len());
    assert("--port"@.len() != "--fps"@.len());
    assert("--port"@.len() != "--seconds"@.len());
    assert("--port"@.len() != "--width"@.len());
    assert("--port"@.len() != "--height"@.len());
    assert("--port"@.len() != "--quality"@.len());
    assert("--port"@[2] != "--code"@[2]);
    assert("--port"@[2] != "--help"@[2]);
    assert("--port"@.len() != "-h"@.len());
    assert(takes_value("--port"@));
    let c = StressSettings { host: "127.0.0.1"@, port: parsed_unsigned(v, 65535)->Some_0 as u16, clients: 20, fps: 5, seconds: 60, width: 720, height: 405, quality: 60, code: Seq::<char>::empty() };
    assert(with_flag(default_settings(), "--port"@, v) == Ok::<StressSettings, Seq<char>>(c));
    assert(checked(c) == ArgsResult::Run(c));
    lemma_read_one_flag("--port"@, v, c);
}

#[verifier::spinoff_prover]
proof fn lemma_flag_clients(v: Seq<char>)
    requires
        parsed_unsigned(v, usize::MAX as u64) is Some,
        parsed_unsigned(v, usize::MAX as u64)->Some_0 > 0,
    ensures
        read_args(seq!["--clients"@, v], 0, default_settings()) == ArgsResult::Run(StressSettings { host: "127.0.0.1"@, port: 1234, clients: parsed_unsigned(v, usize::MAX as u64)->Some_0 as usize, fps: 5, seconds: 60, width: 720, height: 405, quality: 60, code: Seq::<char>::empty() }),
{
    reveal_strlit("--clients");
    reveal_strlit("--host");
    reveal_strlit("--port");
    reveal_strlit("--fps");
    reveal_strlit("--seconds");
    reveal_strlit("--width");
    reveal_strlit("--height");
    reveal_strlit("--quality");
    reveal_strlit("--code");
    reveal_strlit("--help");
    reveal_strlit("-h");
    reveal_strlit("127.0.0.1");
    assert("--clients"@.len() != "--host"@.len());
    assert("--clients"@.len() != "--port"@.len());
    assert("--clients"@.len() != "--fps"@.len());
    assert("--clients"@[2] != "--seconds"@[2]);
    assert("--clients"@.len() != "--width"@.len());
    assert("--clients"@.len() != "--height"@.len());
    assert("--clients"@[2] != "--quality"@[2]);
    assert("--clients"@.len() != "--code"@.len());
    assert("--clients"@.len() != "--help"@.len());
    assert("--clients"@.len() != "-h"@.len());
    assert(takes_value("--clients"@));
    let c = StressSettings { host: "127.0.0.1"@, port: 1234, clients: parsed_unsigned(v, usize::MAX as u64)->Some_0 as usize, fps: 5, seconds: 60, width: 720, height: 405, quality: 60, code: Seq::<char>::empty() };
    assert(with_flag(default_settings(), "--clients"@, v) == Ok::<StressSettings, Seq<char>>(c));
    assert(checked(c) == ArgsResult::Run(c));
    lemma_read_one_flag("--clients"@, v, c);
}

#[verifier::spinoff_prover]
proof fn lemma_flag_fps(v: Seq<char>)
    requires
        parsed_unsigned(v, u64::MAX) is Some,
        parsed_unsigned(v, u64::MAX)->Some_0 > 0,
    ensures
        read_args(seq!["--fps"@, v], 0, default_settings()) == ArgsResult::Run(StressSettings { host: "127.0.0.1"@, port: 1234, clients: 20, fps: parsed_unsigned(v, u64::MAX)->Some_0, seconds: 60, width: 720, height: 405, quality: 60, code: Seq::<char>::empty() }),
{
    reveal_strlit("--fps");
    reveal_strlit("--host");
    reveal_strlit("--port");
    reveal_strlit("--clients");
    reveal_strlit("--seconds");
    reveal_strlit("--width");
    reveal_strlit("--height");
    reveal_strlit("--quality");
    reveal_strlit("--code");
    reveal_strlit("--help");
    reveal_strlit("-h");
    reveal_strlit("127.0.0.1");
    assert("--fps"@.len() != "--host"@.len());
    assert("--fps"@.len() != "--port"@.len());
    assert("--fps"@.len() != "--clients"@.len());
    assert("--fps"@.len() != "--seconds"@.len());
    assert("--fps"@.len() != "--width"@.len());
    assert("--fps"@.len() != "--height"@.len());
    assert("--fps"@.len() != "--quality"@.len());
    assert("--fps"@.len() != "--code"@.len());
    assert("--fps"@.len() != "--help"@.len());
    assert("--fps"@.len() != "-h"@.len());
    assert(takes_value("--fps"@));
    let c = StressSettings { host: "127.0.0.1"@, port: 1234, clients: 20, fps: parsed_unsigned(v, u64::MAX)->Some_0, seconds: 60, width: 720, height: 405, quality: 60, code: Seq::<char>::empty() };
    assert(with_flag(default_settings(), "--fps"@, v) == Ok::<StressSettings, Seq<char>>(c));
    assert(checked(c) == ArgsResult::Run(c));
    lemma_read_one_flag("--fps"@, v, c);
}

#[verifier::spinoff_prover]
proof fn lemma_flag_seconds(v: Seq<char>)
    requires
        parsed_unsigned(v, u64::MAX) is Some,
    ensures
        read_args(seq!["--seconds"@, v], 0, default_settings()) == ArgsResult::Run(StressSettings { host: "127.0.0.1"@, port: 1234, clients: 20, fps: 5, seconds: parsed_unsigned(v, u64::MAX)->Some_0, width: 720, height: 405, quality: 60, code: Seq::<char>::empty() }),
{
    reveal_strlit("--seconds");
    reveal_strlit("--host");
    reveal_strlit("--port");
    reveal_strlit("--clients");
    reveal_strlit("--fps");
    reveal_strlit("--width");
    reveal_strlit("--height");
    reveal_strlit("--quality");
    reveal_strlit("--code");
    reveal_strlit("--help");
    reveal_strlit("-h");
    reveal_strlit("127.0.0.1");
    assert("--seconds"@.len() != "--host"@.len());
    assert("--seconds"@.len() != "--port"@.len());
    assert("--seconds"@[2] != "--clients"@[2]);
    assert("--seconds"@.len() != "--fps"@.len());
    assert("--seconds"@.len() != "--width"@.len());
    assert("--seconds"@.len() != "--height"@.len());
    assert("--seconds"@[2] != "--quality"@[2]);
    assert("--seconds"@.len() != "--code"@.len());
    assert("--seconds"@.len() != "--help"@.len());
    assert("--seconds"@.len() != "-h"@.len());
    assert(takes_value("--seconds"@));
    let c = StressSettings { host: "127.0.0.1"@, port: 1234, clients: 20, fps: 5, seconds: parsed_unsigned(v, u64::MAX)->Some_0, width: 720, height: 405, quality: 60, code: Seq::<char>::empty() };
    assert(with_flag(default_settings(), "--seconds"@, v) == Ok::<StressSettings, Seq<char>>(c));
    assert(checked(c) == ArgsResult::Run(c));
    lemma_read_one_flag("--seconds"@, v, c);
}

#[verifier::spinoff_prover]
proof fn lemma_flag_width(v: Seq<char>)
    requires
        parsed_unsigned(v, 0xffff_ffff) is Some,
        parsed_unsigned(v, 0xffff_ffff)->Some_0 > 0,
    ensures
        read_args(seq!["--width"@, v], 0, default_settings()) == ArgsResult::Run(StressSettings { host: "127.0.0.1"@, port: 1234, clients: 20, fps: 5, seconds: 60, width: parsed_unsigned(v, 0xffff_ffff)->Some_0 as u32, height: 405, quality: 60, code: Seq::<char>::empty() }),
{
    reveal_strlit("--width");
    reveal_strlit("--host");
    reveal_strlit("--port");
    reveal_strlit("--clients");
    reveal_strlit("--fps");
    reveal_strlit("--seconds");
    reveal_strlit("--height");
    reveal_strlit("--quality");
    reveal_strlit("--code");
    reveal_strlit("--help");
    reveal_strlit("-h");
    reveal_strlit("127.0.0.1");
    assert("--width"@.len() != "--host"@.len());
    assert("--width"@.len() != "--port"@.len());
    assert("--width"@.len() != "--clients"@.len());
    assert("--width"@.len() != "--fps"@.len());
    assert("--width"@.len() != "--seconds"@.len());
    assert("--width"@.len() != "--height"@.len());
    assert("--width"@.len() != "--quality"@.len());
    assert("--width"@.len() != "--code"@.len());
    assert("--width"@.len() != "--help"@.len());
    assert("--width"@.len() != "-h"@.len());
    assert(takes_value("--width"@));
    let c = StressSettings { host: "127.0.0.1"@, port: 1234, clients: 20, fps: 5, seconds: 60, width: parsed_unsigned(v, 0xffff_ffff)->Some_0 as u32, height: 405, quality: 60, code: Seq::<char>::empty() };
    assert(with_flag(default_settings(), "--width"@, v) == Ok::<StressSettings, Seq<char>>(c));
    assert(checked(c) == ArgsResult::Run(c));
    lemma_read_one_flag("--width"@, v, c);
}

#[verifier::spinoff_prover]
proof fn lemma_flag_height(v: Seq<char>)
    requires
        parsed_unsigned(v, 0xffff_ffff) is Some,
        parsed_unsigned(v, 0xffff_ffff)->Some_0 > 0,
    ensures
        read_args(seq!["--height"@, v], 0, default_settings()) == ArgsResult::Run(StressSettings { host: "127.0.0.1"@, port: 1234, clients: 20, fps: 5, seconds: 60, width: 720, height: parsed_unsigned(v, 0xffff_ffff)->Some_0 as u32, quality: 60, code: Seq::<char>::empty() }),
{
    reveal_strlit("--height");
    reveal_strlit("--host");
    reveal_strlit("--port");
    reveal_strlit("--clients");
    reveal_strlit("--fps");
    reveal_strlit("--seconds");
    reveal_strlit("--width");
    reveal_strlit("--quality");
    reveal_strlit("--code");
    reveal_strlit("--help");
    reveal_strlit("-h");
    reveal_strlit("127.0.0.1");
    assert("--height"@.len() != "--host"@.len());
    assert("--height"@.len() != "--port"@.len());
    assert("--height"@.len() != "--clients"@.len());
    assert("--height"@.len() != "--fps"@.len());
    assert("--height"@.len() != "--seconds"@.len());
    assert("--height"@.len() != "--width"@.len());
    assert("--height"@.len() != "--quality"@.len());
    assert("--height"@.len() != "--code"@.len());
    assert("--height"@.len() != "--help"@.len());
    assert("--height"@.len() != "-h"@.len());
    assert(takes_value("--height"@));
    let c = StressSettings { host: "127.0.0.1"@, port: 1234, clients: 20, fps: 5, seconds: 60, width: 720, height: parsed_unsigned(v, 0xffff_ffff)->Some_0 as u32, quality: 60, code: Seq::<char>::empty() };
    assert(with_flag(default_settings(), "--height"@, v) == Ok::<StressSettings, Seq<char>>(c));
    assert(checked(c) == ArgsResult::Run(c));
    lemma_read_one_flag("--height"@, v, c);
}

#[verifier::spinoff_prover]
proof fn lemma_flag_quality(v: Seq<char>)
    requires
        parsed_unsigned(v, 255) is Some,
    ensures
        read_args(seq!["--quality"@, v], 0, default_settings()) == ArgsResult::Run(StressSettings { host: "127.0.0.1"@, port: 1234, clients: 20, fps: 5, seconds: 60, width: 720, height: 405, quality: parsed_unsigned(v, 255)->Some_0 as u8, code: Seq::<char>::empty() }),
{
    reveal_strlit("--quality");
    reveal_strlit("--host");
    reveal_strlit("--port");
    reveal_strlit("--clients");
    reveal_strlit("--fps");
    reveal_strlit("--seconds");
    reveal_strlit("--width");
    reveal_strlit("--height");
    reveal_strlit("--code");
    reveal_strlit("--help");
    reveal_strlit("-h");
    reveal_strlit("127.0.0.1");
    assert("--quality"@.len() != "--host"@.len());
    assert("--quality"@.len() != "--port"@.len());
    assert("--quality"@[2] != "--clients"@[2]);
    assert("--quality"@.len() != "--fps"@.len());
    assert("--quality"@[2] != "--seconds"@[2]);
    assert("--quality"@.len() != "--width"@.len());
    assert("--quality"@.len() != "--height"@.len());
    assert("--quality"@.len() != "--code"@.len());
    assert("--quality"@.len() != "--help"@.len());
    assert("--quality"@.len() != "-h"@.len());
    assert(takes_value("--quality"@));
    let c = StressSettings { host: "127.0.0.1"@, port: 1234, clients: 20, fps: 5, seconds: 60, width: 720, height: 405, quality: parsed_unsigned(v, 255)->Some_0 as u8, code: Seq::<char>::empty() };
    assert(with_flag(default_settings(), "--quality"@, v) == Ok::<StressSettings, Seq<char>>(c));
    assert(checked(c) == ArgsResult::Run(c));
    lemma_read_one_flag("--quality"@, v, c);
}

#[verifier::spinoff_prover]
proof fn lemma_flag_code(v: Seq<char>)
    requires
    ensures
        read_args(seq!["--code"@, v], 0, default_settings()) == ArgsResult::Run(StressSettings { host: "127.0.0.1"@, port: 1234, clients: 20, fps: 5, seconds: 60, width: 720, height: 405, quality: 60, code: v }),
{
    reveal_strlit("--code");
    reveal_strlit("--host");
    reveal_strlit("--port");
    reveal_strlit("--clients");
    reveal_strlit("--fps");
    reveal_strlit("--seconds");
    reveal_strlit("--width");
    reveal_strlit("--height");
    reveal_strlit("--quality");
    reveal_strlit("--help");
    reveal_strlit("-h");
    reveal_strlit("127.0.0.1");
    assert("--code"@[2] != "--host"@[2]);
    assert("--code"@[2] != "--port"@[2]);
    assert("--code"@.len() != "--clients"@.len());
    assert("--code"@.len() != "--fps"@.len());
    assert("--code"@.len() != "--seconds"@.len());
    assert("--code"@.len() != "--width"@.len());
    assert("--code"@.len() != "--height"@.len());
    assert("--code"@.len() != "--quality"@.len());
    assert("--code"@[2] != "--help"@[2]);
    assert("--code"@.len() != "-h"@.len());
    assert(takes_value("--code"@));
    let c = StressSettings { host: "127.0.0.1"@, port: 1234, clients: 20, fps: 5, seconds: 60, width: 720, height: 405, quality: 60, code: v };
    assert(with_flag(default_settings(), "--code"@, v) == Ok::<StressSettings, Seq<char>>(c));
    assert(checked(c) == ArgsResult::Run(c));
    lemma_read_one_flag("--code"@, v, c);
}

pub proof fn lemma_one_flag_sets_its_setting(v: Seq<char>)
    ensures
        read_args(seq!["--host"@, v], 0, default_settings()) == ArgsResult::Run(StressSettings { host: v, port: 1234, clients: 20, fps: 5, seconds: 60, width: 720, height: 405, quality: 60, code: Seq::<char>::empty() }),
        parsed_unsigned(v, 65535) is Some ==> read_args(seq!["--port"@, v], 0, default_settings())
                == ArgsResult::Run(StressSettings { host: "127.0.0.1"@, port: parsed_unsigned(v, 65535)->Some_0 as u16, clients: 20, fps: 5, seconds: 60, width: 720, height: 405, quality: 60, code: Seq::<char>::empty() }),
        parsed_unsigned(v, usize::MAX as u64) is Some && parsed_unsigned(v, usize::MAX as u64)->Some_0 > 0 ==> read_args(seq!["--clients"@, v], 0, default_settings())
                == ArgsResult::Run(StressSettings { host: "127.0.0.1"@, port: 1234, clients: parsed_unsigned(v, usize::MAX as u64)->Some_0 as usize, fps: 5, seconds: 60, width: 720, height: 405, quality: 60, code: Seq::<char>::empty() }),
        parsed_unsigned(v, u64::MAX) is Some && parsed_unsigned(v, u64::MAX)->Some_0 > 0 ==> read_args(seq!["--fps"@, v], 0, default_settings())
                == ArgsResult::Run(StressSettings { host: "127.0.0.1"@, port: 1234, clients: 20, fps: parsed_unsigned(v, u64::MAX)->Some_0, seconds: 60, width: 720, height: 405, quality: 60, code: Seq::<char>::empty() }),
        parsed_unsigned(v, u64::MAX) is Some ==> read_args(seq!["--seconds"@, v], 0, default_settings())
                == ArgsResult::Run(StressSettings { host: "127.0.0.1"@, port: 1234, clients: 20, fps: 5, seconds: parsed_unsigned(v, u64::MAX)->Some_0, width: 720, height: 405, quality: 60, code: Seq::<char>::empty() }),
        parsed_unsigned(v, 0xffff_ffff) is Some && parsed_unsigned(v, 0xffff_ffff)->Some_0 > 0 ==> read_args(seq!["--width"@, v], 0, default_settings())
                == ArgsResult::Run(StressSettings { host: "127.0.0.1"@, port: 1234, clients: 20, fps: 5, seconds: 60, width: parsed_unsigned(v, 0xffff_ffff)->Some_0 as u32, height: 405, quality: 60, code: Seq::<char>::empty() }),
        parsed_unsigned(v, 0xffff_ffff) is Some && parsed_unsigned(v, 0xffff_ffff)->Some_0 > 0 ==> read_args(seq!["--height"@, v], 0, default_settings())
                == ArgsResult::Run(StressSettings { host: "127.0.0.1"@, port: 1234, clients: 20, fps: 5, seconds: 60, width: 720, height: parsed_unsigned(v, 0xffff_ffff)->Some_0 as u32, quality: 60, code: Seq::<char>::empty() }),
        parsed_unsigned(v, 255) is Some ==> read_args(seq!["--quality"@, v], 0, default_settings())
                == ArgsResult::Run(StressSettings { host: "127.0.0.1"@, port: 1234, clients: 20, fps: 5, seconds: 60, width: 720, height: 405, quality: parsed_unsigned(v, 255)->Some_0 as u8, code: Seq::<char>::empty() }),
        read_args(seq!["--code"@, v], 0, default_settings()) == ArgsResult::Run(StressSettings { host: "127.0.0.1"@, port: 1234, clients: 20, fps: 5, seconds: 60, width: 720, height: 405, quality: 60, code: v }),
{
    lemma_flag_host(v);
    if parsed_unsigned(v, 65535) is Some {
        lemma_flag_port(v);
    }
    if parsed_unsigned(v, usize::MAX as u64) is Some && parsed_unsigned(v, usize::MAX as u64)->Some_0 > 0 {
        lemma_flag_clients(v);
    }
    if parsed_unsigned(v, u64::MAX) is Some && parsed_unsigned(v, u64::MAX)->Some_0 > 0 {
        lemma_flag_fps(v);
    }
    if parsed_unsigned(v, u64::MAX) is Some {
        lemma_flag_seconds(v);
    }
    if parsed_unsigned(v, 0xffff_ffff) is Some && parsed_unsigned(v, 0xffff_ffff)->Some_0 > 0 {
        lemma_flag_width(v);
    }
    if parsed_unsigned(v, 0xffff_ffff) is Some && parsed_unsigned(v, 0xffff_ffff)->Some_0 > 0 {
        lemma_flag_height(v);
    }
    if parsed_unsigned(v, 255) is Some {
        lemma_flag_quality(v);
    }
    lemma_flag_code(v);
}

pub open spec fn args_view(args: Seq<String>) -> Seq<Seq<char>> {
    Seq::new(args.len(), |i: int| args[i]@)
}

fn same(a: &String, lit: &str) -> (r: bool)
    ensures
        r == (a@ == lit@),
{
    let other = lit.to_owned();
    *a == other
}

fn number_or(v: &String, max: u64, complaint: &str) -> (r: Result<u64, ArgsError>)
    ensures
        match parsed_unsigned(v@, max) {
            Some(n) => r matches Ok(m) && m == n,
            None => r matches Err(e) && e@ == ArgsProblem::InvalidNumber(complaint@),
        },
{
    match parse_unsigned(v.as_str(), max) {
        Some(n) => Ok(n),
        None => Err(ArgsError::InvalidNumber(complaint.to_owned())),
    }
}

/// Applies one `flag value` pair to the settings.
fn apply_flag(config: &mut StressConfig, flag: &String, v: &String) -> (r: Result<(), ArgsError>)
    requires
        takes_value(flag@),
    ensures
        match with_flag(old(config)@, flag@, v@) {
            Ok(c2) => r is Ok && final(config)@ == c2,
            Err(m) => r matches Err(e) && e@ == ArgsProblem::InvalidNumber(m),
        },
{
    if same(flag, "--host") {
        config.host = v.clone();
        Ok(())
    } else if same(flag, "--code") {
        config.code = v.clone();
        Ok(())
    } else if same(flag, "--port") {
        let n = number_or(v, 65535, "--port must be a u16")?;
        config.port = n as u16;
        Ok(())
    } else if same(flag, "--clients") {
        let n = number_or(v, usize::MAX as u64, "--clients must be a number")?;
        config.clients = n as usize;
        Ok(())
    } else if same(flag, "--fps") {
        let n = number_or(v, u64::MAX, "--fps must be a number")?;
        config.fps = n;
        Ok(())
    } else if same(flag, "--seconds") {
        let n = number_or(v, u64::MAX, "--seconds must be a number")?;
        config.seconds = n;
        Ok(())
    } else if same(flag, "--width") {
        let n = number_or(v, 0xffff_ffff, "--width must be a number")?;
        config.width = n as u32;
        Ok(())
    } else if same(flag, "--height") {
        let n = number_or(v, 0xffff_ffff, "--height must be a number")?;
        config.height = n as u32;
        Ok(())
    } else {
        let n = number_or(v, 255, "--quality must be a number")?;
        config.quality = n as u8;
        Ok(())
    }
}

fn is_value_flag(a: &String) -> (r: bool)
    ensures
        r == takes_value(a@),
{
    same(a, "--host") || same(a, "--port") || same(a, "--clients") || same(a, "--fps") || same(
        a,
        "--seconds",
    ) || same(a, "--width") || same(a, "--height") || same(a, "--quality") || same(a, "--code")
}

impl StressConfig {
    /// Reads the tool's command line (without the program name).
    pub fn from_args(args: &Vec<String>) -> (r: Result<ArgsOutcome, ArgsError>)
        ensures
            match read_args(args_view(args@), 0, default_settings()) {
                ArgsResult::Run(c) => r matches Ok(ArgsOutcome::Run(cfg)) && cfg@ == c,
                ArgsResult::Help => r matches Ok(ArgsOutcome::Help),
                ArgsResult::Refused(p) => r matches Err(e) && e@ == p,
            },
    {
        let ghost av = args_view(args@);
        let mut config = StressConfig::default_config();
        let mut i: usize = 0;
        while i < args.len()
            invariant
                0 <= i <= args@.len(),
                av == args_view(args@),
                read_args(av, i as int, config@) == read_args(av, 0, default_settings()),
            decreases args@.len() - i,
        {
            let a = &args[i];
            assert(av[i as int] == a@);
            if is_value_flag(a) {
                if i + 1 >= args.len() {
                    return Err(ArgsError::MissingValue(a.clone()));
                }
                let v = &args[i + 1];
                assert(av[i + 1] == v@);
                match apply_flag(&mut config, a, v) {
                    Ok(()) => {},
                    Err(e) => return Err(e),
                }
                i = i + 2;
            } else if same(a, "--help") || same(a, "-h") {
                return Ok(ArgsOutcome::Help);
            } else {
                return Err(ArgsError::UnknownArgument(a.clone()));
            }
        }
        if config.clients == 0 {
            return Err(ArgsError::NoClients);
        }
        if config.fps == 0 {
            return Err(ArgsError::NoFps);
        }
        if config.width == 0 || config.height == 0 {
            return Err(ArgsError::EmptyFrame);
        }
        Ok(ArgsOutcome::Run(config))
    }
}


/// The seed a simulated student's frame is patterned with.
pub open spec fn frame_seed(ci: u32, fi: u32) -> int {
    ci * 37 + fi * 13
}

/// Whether the arithmetic of a synthetic frame stays within `u32` (and
/// the image within memory): the tool panics on overflow otherwise. Sides
/// must be at least one pixel.
pub open spec fn frame_fits(ci: u32, fi: u32, w: u32, h: u32) -> bool {
    let seed = frame_seed(ci, fi);
    &&& w > 0
    &&& h > 0
    &&& w as int * h as int * 3 <= usize::MAX
    &&& ci * 37 <= u32::MAX
    &&& fi * 19 <= u32::MAX
    &&& ci * 31 <= u32::MAX
    &&& 2 * seed + h <= u32::MAX
    &&& 119 + seed <= u32::MAX
    &&& (w - 1) / 48 + (h - 1) / 36 + seed <= u32::MAX
    &&& w + fi * 9 <= u32::MAX
    &&& w + seed <= u32::MAX
    &&& w + if w / 5 > 80 { w / 5 } else { 80 } <= u32::MAX
    &&& h + if h / 8 > 36 { h / 8 } else { 36 } <= u32::MAX
}

/// The moving marker of a synthetic frame: left, top, right and bottom
/// (exclusive) edges.
pub open spec fn marker_box(ci: u32, fi: u32, w: u32, h: u32) -> (int, int, int, int) {
    let mw: int = if w / 5 > 80 { (w / 5) as int } else { 80 };
    let mh: int = if h / 8 > 36 { (h / 8) as int } else { 36 };
    let wx: int = if w >= mw { w - mw } else { 0 };
    let hy: int = if h >= mh { h - mh } else { 0 };
    let x0: int = if (fi * 11) % (w as int) < wx { (fi * 11) % (w as int) } else { wx };
    let y0: int = if (ci * 23) % (h as int) < hy { (ci * 23) % (h as int) } else { hy };
    let x1: int = if x0 + mw < w { x0 + mw } else { w as int };
    let y1: int = if y0 + mh < h { y0 + mh } else { h as int };
    (x0, y0, x1, y1)
}

/// Colour of pixel (x, y) of a synthetic frame: a moving block pattern,
/// with a marker (white border, per-student colour) drawn over it.
pub open spec fn synthetic_pixel(ci: u32, fi: u32, w: u32, h: u32, x: int, y: int) -> Seq<u8> {
    let (x0, y0, x1, y1) = marker_box(ci, fi, w, h);
    if x0 <= x < x1 && y0 <= y < y1 {
        if y == y0 || x == x0 || y == y1 - 1 || x == x1 - 1 {
            seq![255u8, 255u8, 255u8]
        } else {
            seq![((ci * 31) % 255) as u8, ((fi * 19) % 255) as u8, 220u8]
        }
    } else {
        let seed = frame_seed(ci, fi);
        let block = (x / 48 + y / 36 + seed) % 8;
        let base: int = if (x + fi * 9) % (w as int) < w / 4 { 180 } else { 40 };
        seq![
            (base + (block * 17 + seed) % 70) as u8,
            (50 + (x + seed) % 130) as u8,
            (70 + (y + 2 * seed) % 110) as u8,
        ]
    }
}

/// The RGB bytes of a synthetic frame, row by row.
pub open spec fn synthetic_image(ci: u32, fi: u32, w: u32, h: u32) -> Seq<u8> {
    Seq::new(
        (w * h * 3) as nat,
        |k: int| synthetic_pixel(ci, fi, w, h, (k / 3) % (w as int), (k / 3) / (w as int))[k % 3],
    )
}

proof fn lemma_pixel_index(w: int, x: int, y: int, c: int)
    requires
        0 <= x < w,
        0 <= y,
        0 <= c < 3,
    ensures
        ((y * w + x) * 3 + c) / 3 == y * w + x,
        ((y * w + x) * 3 + c) % 3 == c,
        (y * w + x) % w == x,
        (y * w + x) / w == y,
{
    vstd::arithmetic::div_mod::lemma_fundamental_div_mod_converse((y * w + x) * 3 + c, 3, y * w + x, c);
    assert(y * w + x == y * w + x);
    vstd::arithmetic::div_mod::lemma_fundamental_div_mod_converse(y * w + x, w, y, x);
}

/// Milliseconds between two frames of a simulated student sending `fps`
/// frames a second (at least one a second is assumed, so 0 counts as 1).
pub fn frame_interval_ms(fps: u64) -> (r: u64)
    ensures
        r == 1000u64 / (if fps == 0 {
            1u64
        } else {
            fps
        }),
        r <= 1000,
{
    let per_second: u64 = if fps == 0 {
        1
    } else {
        fps
    };
    1000 / per_second
}

/// Whether a synthetic frame's arithmetic fits (see `frame_fits`).
pub fn synthetic_frame_fits(client_index: usize, frame_index: u64, width: u32, height: u32) -> (r: bool)
    ensures
        r == frame_fits(client_index as u32, frame_index as u32, width, height),
{
    let ci = client_index as u32 as u128;
    let fi = frame_index as u32 as u128;
    let w = width as u128;
    let h = height as u128;
    let max = 0xffff_ffffu128;
    let seed = ci * 37 + fi * 13;
    let mw = if w / 5 > 80 { w / 5 } else { 80 };
    let mh = if h / 8 > 36 { h / 8 } else { 36 };
    if w == 0 || h == 0 {
        return false;
    }
    assert(w * h <= 0xffff_ffff_ffff_ffff * 1) by (nonlinear_arith)
        requires
            w <= 0xffff_ffff,
            h <= 0xffff_ffff,
    ;
    w * h * 3 <= usize::MAX as u128 && ci * 37 <= max && fi * 19 <= max && ci * 31 <= max && 2 * seed
        + h <= max && 119 + seed <= max && (w - 1) / 48 + (h - 1) / 36 + seed <= max && w + fi * 9
        <= max && w + seed <= max && w + mw <= max && h + mh <= max
}

fn background_pixel(ci: u32, fi: u32, w: u32, h: u32, x: u32, y: u32) -> (r: (u8, u8, u8))
    requires
        frame_fits(ci, fi, w, h),
        x < w,
        y < h,
    ensures
        ({
            let seed = frame_seed(ci, fi);
            let block = (x / 48 + y / 36 + seed) % 8;
            let base: int = if (x + fi * 9) % (w as int) < w / 4 { 180 } else { 40 };
            r.0 == base + (block * 17 + seed) % 70 && r.1 == 50 + (x + seed) % 130 && r.2 == 70 + (y
                + 2 * seed) % 110
        }),
{
    let seed: u32 = ci * 37 + fi * 13;
    let block = (x / 48 + y / 36 + seed) % 8;
    let motion = (x + fi * 9) % w < w / 4;
    let base: u8 = if motion { 180 } else { 40 };
    (
        base.saturating_add(((block * 17 + seed) % 70) as u8),
        50u8.saturating_add(((x + seed) % 130) as u8),
        70u8.saturating_add(((y + seed * 2) % 110) as u8),
    )
}

/// The RGB bytes of the synthetic frame number `frame_index` of simulated
/// student `client_index` (both taken modulo 2^32).
pub fn synthetic_frame_pixels(client_index: usize, frame_index: u64, width: u32, height: u32) -> (r:
    Vec<u8>)
    requires
        frame_fits(client_index as u32, frame_index as u32, width, height),
    ensures
        r@ == synthetic_image(client_index as u32, frame_index as u32, width, height),
{
    let ci = client_index as u32;
    let fi = frame_index as u32;
    let mw: u32 = if width / 5 > 80 { width / 5 } else { 80 };
    let mh: u32 = if height / 8 > 36 { height / 8 } else { 36 };
    let wx = width.saturating_sub(mw);
    let hy = height.saturating_sub(mh);
    let x0 = if (fi * 11) % width < wx { (fi * 11) % width } else { wx };
    let y0 = if (ci * 23) % height < hy { (ci * 23) % height } else { hy };
    let x1 = if x0 + mw < width { x0 + mw } else { width };
    let y1 = if y0 + mh < height { y0 + mh } else { height };
    assert((x0 as int, y0 as int, x1 as int, y1 as int) == marker_box(ci, fi, width, height));
    let marker_red = ((ci * 31) % 255) as u8;
    let marker_green = ((fi * 19) % 255) as u8;
    let ghost image = synthetic_image(ci, fi, width, height);
    let mut out: Vec<u8> = Vec::new();
    let mut y: u32 = 0;
    while y < height
        invariant
            frame_fits(ci, fi, width, height),
            image == synthetic_image(ci, fi, width, height),
            (x0 as int, y0 as int, x1 as int, y1 as int) == marker_box(ci, fi, width, height),
            marker_red == ((ci * 31) % 255) as u8,
            marker_green == ((fi * 19) % 255) as u8,
            y <= height,
            out@.len() == y as int * width as int * 3,
            forall|k: int| 0 <= k < out@.len() ==> out@[k] == image[k],
        decreases height - y,
    {
        let mut x: u32 = 0;
        while x < width
            invariant
                frame_fits(ci, fi, width, height),
                image == synthetic_image(ci, fi, width, height),
                (x0 as int, y0 as int, x1 as int, y1 as int) == marker_box(ci, fi, width, height),
                marker_red == ((ci * 31) % 255) as u8,
                marker_green == ((fi * 19) % 255) as u8,
                y < height,
                x <= width,
                out@.len() == (y as int * width as int + x as int) * 3,
                forall|k: int| 0 <= k < out@.len() ==> out@[k] == image[k],
            decreases width - x,
        {
            let pixel = if x0 <= x && x < x1 && y0 <= y && y < y1 {
                if y == y0 || x == x0 || y == y1 - 1 || x == x1 - 1 {
                    (255u8, 255u8, 255u8)
                } else {
                    (marker_red, marker_green, 220u8)
                }
            } else {
                background_pixel(ci, fi, width, height, x, y)
            };
            let ghost expected = synthetic_pixel(ci, fi, width, height, x as int, y as int);
            assert(expected == seq![pixel.0, pixel.1, pixel.2]);
            proof {
                assert((y as int) * (width as int) + (x as int) < (width as int) * (height as int)) by (nonlinear_arith)
                    requires
                        x < width,
                        y < height,
                ;
                lemma_pixel_index(width as int, x as int, y as int, 0);
                lemma_pixel_index(width as int, x as int, y as int, 1);
                lemma_pixel_index(width as int, x as int, y as int, 2);
            }
            let ghost base = (y as int * width as int + x as int) * 3;
            out.push(pixel.0);
            out.push(pixel.1);
            out.push(pixel.2);
            assert(out@[base] == image[base]);
            assert(out@[base + 1] == image[base + 1]);
            assert(out@[base + 2] == image[base + 2]);
            x = x + 1;
        }
        y = y + 1;
        assert(out@.len() == y as int * width as int * 3) by (nonlinear_arith)
            requires
                out@.len() == ((y - 1) as int * width as int + width as int) * 3,
        ;
    }
    assert((height as int) * (width as int) * 3 == (width as int) * (height as int) * 3)
        by (nonlinear_arith);
    assert(out@.len() == image.len());
    assert(out@ =~= image);
    out
}

/// A synthetic JPEG screen frame for a load test: the frame's pixels,
/// encoded at `quality`. `None` exactly when a side is longer than 65535
/// pixels, which JPEG cannot describe.
pub fn synthetic_jpeg_frame(
    client_index: usize,
    frame_index: u64,
    width: u32,
    height: u32,
    quality: u8,
) -> (r: Option<Vec<u8>>)
    requires
        frame_fits(client_index as u32, frame_index as u32, width, height),
    ensures
        match r {
            Some(v) => jpeg_encoding(
                synthetic_image(client_index as u32, frame_index as u32, width, height),
                width,
                height,
                quality,
            ) == Some(v@),
            None => jpeg_encoding(
                synthetic_image(client_index as u32, frame_index as u32, width, height),
                width,
                height,
                quality,
            ) is None,
        },
        r is None <==> (width > 65535 || height > 65535),
{
    let pixels = synthetic_frame_pixels(client_index, frame_index, width, height);
    encode_jpeg(pixels.as_slice(), width, height, quality)
}

} // verus!

//! Parsing one line of a candump log: `(<seconds>.<fraction>) <interface> <id>#<data>`.
use vstd::prelude::*;

verus! {

/// The time stamp of a log line, as the two decimal numbers around its dot.
#[derive(Clone, Copy, Debug, PartialEq, Eq, Structural)]
pub struct Timestamp {
    pub seconds: u64,
    pub nanos: u64,
}

/// The frame of a log line: its hexadecimal identifier and hexadecimal payload.
#[derive(Clone, Copy, Debug, PartialEq, Eq, Structural)]
pub struct CanFrame {
    pub frame_id: u32,
    pub frame_body: u64,
}

/// One parsed log line.
#[derive(Debug)]
pub struct DumpEntry {
    pub timestamp: Timestamp,
    pub can_interface: String,
    pub can_frame: CanFrame,
}

impl DumpEntry {
    pub fn timestamp(&self) -> (r: &Timestamp)
        ensures
            *r == self.timestamp,
    {
        &self.timestamp
    }

    pub fn can_interface(&self) -> (r: &str)
        ensures
            r@ == self.can_interface@,
    {
        self.can_interface.as_str()
    }

    pub fn can_frame(&self) -> (r: &CanFrame)
        ensures
            *r == self.can_frame,
    {
        &self.can_frame
    }
}

impl PartialEq for DumpEntry {
    fn eq(&self, other: &DumpEntry) -> (r: bool)
        ensures
            r == (self.timestamp == other.timestamp && self.can_interface@
                == other.can_interface@ && self.can_frame == other.can_frame),
    {
        self.timestamp == other.timestamp && self.can_interface == other.can_interface
            && self.can_frame == other.can_frame
    }
}

impl vstd::std_specs::cmp::PartialEqSpecImpl for DumpEntry {
    open spec fn obeys_eq_spec() -> bool {
        true
    }

    open spec fn eq_spec(&self, other: &DumpEntry) -> bool {
        self.timestamp == other.timestamp && self.can_interface@ == other.can_interface@
            && self.can_frame == other.can_frame
    }
}

/// A line that does not have the shape of a log line, or whose numbers do not fit.
#[derive(Clone, Copy, Debug, PartialEq, Eq, Structural)]
pub enum ParseError {
    Malformed,
}

/// The classes of characters that the line is made of.
#[derive(Clone, Copy, Debug, PartialEq, Eq, Structural)]
pub enum CharClass {
    Decimal,
    Hex,
    AlphaNumeric,
    Blank,
}

pub open spec fn is_decimal(c: char) -> bool {
    '0' <= c <= '9'
}

pub open spec fn in_class(c: char, class: CharClass) -> bool {
    match class {
        CharClass::Decimal => is_decimal(c),
        CharClass::Hex => is_decimal(c) || ('a' <= c <= 'f') || ('A' <= c <= 'F'),
        CharClass::AlphaNumeric => is_decimal(c) || ('a' <= c <= 'z') || ('A' <= c <= 'Z'),
        CharClass::Blank => c == ' ' || c == '\t',
    }
}

/// The end of the longest run of characters of one class that starts at `i`.
pub open spec fn run_end(s: Seq<char>, i: int, class: CharClass) -> int
    decreases s.len() - i,
{
    if 0 <= i < s.len() && in_class(s[i], class) {
        run_end(s, i + 1, class)
    } else {
        i
    }
}

/// The value of a decimal or hexadecimal digit.
pub open spec fn digit_value(c: char) -> nat {
    if is_decimal(c) {
        (c as u32 - '0' as u32) as nat
    } else if 'a' <= c <= 'f' {
        (c as u32 - 'a' as u32 + 10) as nat
    } else {
        (c as u32 - 'A' as u32 + 10) as nat
    }
}

/// The number that the digits `s[i..j]` write in the given base.
pub open spec fn number_value(s: Seq<char>, i: int, j: int, base: nat) -> nat
    decreases j - i,
{
    if j <= i {
        0
    } else {
        number_value(s, i, j - 1, base) * base + digit_value(s[j - 1])
    }
}

/// What a log line holds: the text left after the entry, the time stamp, the
/// interface name and the frame.
pub struct EntryParts {
    pub rest: Seq<char>,
    pub seconds: nat,
    pub nanos: nat,
    pub interface: Seq<char>,
    pub frame_id: nat,
    pub frame_body: nat,
}

/// The entry at the start of `s`, if `s` starts with one: `(`, decimal digits, `.`,
/// decimal digits, `)`, blanks, an alphanumeric name, blanks, hexadecimal digits, `#`,
/// hexadecimal digits. Each run of digits or name characters is as long as it can be.
pub open spec fn entry_parts(s: Seq<char>) -> Option<EntryParts> {
    let a = 1int;
    let b = run_end(s, a, CharClass::Decimal);
    let c = b + 1;
    let d = run_end(s, c, CharClass::Decimal);
    let e = run_end(s, d + 1, CharClass::Blank);
    let f = run_end(s, e, CharClass::AlphaNumeric);
    let g = run_end(s, f, CharClass::Blank);
    let h = run_end(s, g, CharClass::Hex);
    let k = h + 1;
    let l = run_end(s, k, CharClass::Hex);
    if s.len() >= 1 && s[0] == '(' && b > a && b < s.len() && s[b] == '.' && d > c && d < s.len()
        && s[d] == ')' && f > e && h > g && h < s.len() && s[h] == '#' && l > k {
        Some(
            EntryParts {
                rest: s.subrange(l, s.len() as int),
                seconds: number_value(s, a, b, 10),
                nanos: number_value(s, c, d, 10),
                interface: s.subrange(e, f),
                frame_id: number_value(s, g, h, 16),
                frame_body: number_value(s, k, l, 16),
            },
        )
    } else {
        None
    }
}

/// The entry's numbers fit their fields.
pub open spec fn parts_fit(p: EntryParts) -> bool {
    p.seconds <= u64::MAX && p.nanos <= u64::MAX && p.frame_id <= u32::MAX && p.frame_body
        <= u64::MAX
}

fn char_in_class(c: char, class: CharClass) -> (r: bool)
    ensures
        r == in_class(c, class),
{
    match class {
        CharClass::Decimal => '0' <= c && c <= '9',
        CharClass::Hex => ('0' <= c && c <= '9') || ('a' <= c && c <= 'f') || ('A' <= c && c
            <= 'F'),
        CharClass::AlphaNumeric => ('0' <= c && c <= '9') || ('a' <= c && c <= 'z') || ('A' <= c
            && c <= 'Z'),
        CharClass::Blank => c == ' ' || c == '\t',
    }
}

/// The end of the longest run of characters of one class that starts at `i`.
fn scan_run(s: &str, len: usize, i: usize, class: CharClass) -> (r: usize)
    requires
        len == s@.len(),
        i <= len,
    ensures
        r as int == run_end(s@, i as int, class),
        i <= r <= len,
{
    let mut j: usize = i;
    while j < len && char_in_class(s.get_char(j), class)
        invariant
            len == s@.len(),
            i <= j <= len,
            run_end(s@, i as int, class) == run_end(s@, j as int, class),
        decreases len - j,
    {
        j = j + 1;
    }
    proof {
        r_is_end(s@, j as int, class);
    }
    j
}

proof fn r_is_end(s: Seq<char>, j: int, class: CharClass)
    requires
        0 <= j <= s.len(),
        j == s.len() || !in_class(s[j], class),
    ensures
        run_end(s, j, class) == j,
{
}

fn digit_of(c: char) -> (r: u64)
    requires
        in_class(c, CharClass::Hex),
    ensures
        r == digit_value(c),
        r < 16,
{
    if '0' <= c && c <= '9' {
        (c as u32 - '0' as u32) as u64
    } else if 'a' <= c && c <= 'f' {
        (c as u32 - 'a' as u32 + 10) as u64
    } else {
        (c as u32 - 'A' as u32 + 10) as u64
    }
}

proof fn lemma_number_value_grows(s: Seq<char>, i: int, k: int, j: int, base: nat)
    requires
        i <= k <= j,
        base >= 1,
    ensures
        number_value(s, i, k, base) <= number_value(s, i, j, base),
    decreases j - k,
{
    if k < j {
        lemma_number_value_grows(s, i, k, j - 1, base);
        let v = number_value(s, i, j - 1, base);
        assert(v <= v * base) by (nonlinear_arith)
            requires
                base >= 1,
        ;
    }
}

/// Reads the digits `s[i..j]` in base 10 or 16, or none where the number is over `limit`.
fn read_number(s: &str, i: usize, j: usize, base: u64, limit: u64) -> (r: Option<u64>)
    requires
        i <= j <= s@.len(),
        base == 10 || base == 16,
        forall|k: int| i <= k < j ==> in_class(#[trigger] s@[k], CharClass::Hex),
    ensures
        number_value(s@, i as int, j as int, base as nat) <= limit <==> r is Some,
        r is Some ==> r->Some_0 == number_value(s@, i as int, j as int, base as nat),
{
    let mut acc: u64 = 0;
    let mut k: usize = i;
    while k < j
        invariant
            i <= k <= j <= s@.len(),
            base == 10 || base == 16,
            forall|m: int| i <= m < j ==> in_class(#[trigger] s@[m], CharClass::Hex),
            acc == number_value(s@, i as int, k as int, base as nat),
            acc <= limit,
        decreases j - k,
    {
        let d = digit_of(s.get_char(k));
        if d > limit {
            proof {
                assert(acc * base + d > limit) by (nonlinear_arith)
                    requires
                        d > limit,
                ;
                lemma_number_value_grows(s@, i as int, k as int + 1, j as int, base as nat);
            }
            return None;
        }
        let q: u64 = (limit - d) / base;
        let rem: u64 = (limit - d) % base;
        proof {
            vstd::arithmetic::div_mod::lemma_fundamental_div_mod((limit - d) as int, base as int);
        }
        if acc > q {
            proof {
                assert(acc * base + d > limit) by (nonlinear_arith)
                    requires
                        acc > q,
                        limit - d == base * q + rem,
                        rem < base,
                        d <= limit,
                ;
                lemma_number_value_grows(s@, i as int, k as int + 1, j as int, base as nat);
            }
            return None;
        }
        proof {
            assert(acc * base + d <= limit) by (nonlinear_arith)
                requires
                    acc <= q,
                    limit - d == base * q + rem,
                    base >= 1,
                    d <= limit,
            ;
        }
        acc = acc * base + d;
        k = k + 1;
    }
    Some(acc)
}

proof fn lemma_run_in_class(s: Seq<char>, i: int, class: CharClass)
    requires
        0 <= i,
    ensures
        i <= run_end(s, i, class),
        forall|m: int| i <= m < run_end(s, i, class) ==> in_class(#[trigger] s[m], class),
        forall|m: int| i <= m < run_end(s, i, class) ==> in_class(#[trigger] s[m], CharClass::Hex)
            || class != CharClass::Decimal,
    decreases s.len() - i,
{
    if 0 <= i < s.len() && in_class(s[i], class) {
        lemma_run_in_class(s, i + 1, class);
    }
}

/// Parses the log line entry at the start of `s` and hands back the text after it.
pub fn dump_entry<'a>(s: &'a str) -> (r: Result<(&'a str, DumpEntry), ParseError>)
    ensures
        r is Ok <==> entry_parts(s@) is Some && parts_fit(entry_parts(s@)->Some_0),
        r is Err ==> r->Err_0 == ParseError::Malformed,
        r is Ok ==> {
            let p = entry_parts(s@)->Some_0;
            let e = r->Ok_0.1;
            &&& r->Ok_0.0@ == p.rest
            &&& e.timestamp.seconds == p.seconds
            &&& e.timestamp.nanos == p.nanos
            &&& e.can_interface@ == p.interface
            &&& e.can_frame.frame_id == p.frame_id
            &&& e.can_frame.frame_body == p.frame_body
        },
{
    let len = s.unicode_len();
    if len == 0 || s.get_char(0) != '(' {
        return Err(ParseError::Malformed);
    }
    let a: usize = 1;
    let b = scan_run(s, len, a, CharClass::Decimal);
    if b == a || b >= len || s.get_char(b) != '.' {
        return Err(ParseError::Malformed);
    }
    let c = b + 1;
    let d = scan_run(s, len, c, CharClass::Decimal);
    if d == c || d >= len || s.get_char(d) != ')' {
        return Err(ParseError::Malformed);
    }
    let e = scan_run(s, len, d + 1, CharClass::Blank);
    let f = scan_run(s, len, e, CharClass::AlphaNumeric);
    if f == e {
        return Err(ParseError::Malformed);
    }
    let g = scan_run(s, len, f, CharClass::Blank);
    let h = scan_run(s, len, g, CharClass::Hex);
    if h == g || h >= len || s.get_char(h) != '#' {
        return Err(ParseError::Malformed);
    }
    let k = h + 1;
    let l = scan_run(s, len, k, CharClass::Hex);
    if l == k {
        return Err(ParseError::Malformed);
    }
    proof {
        lemma_run_in_class(s@, a as int, CharClass::Decimal);
        lemma_run_in_class(s@, c as int, CharClass::Decimal);
        lemma_run_in_class(s@, g as int, CharClass::Hex);
        lemma_run_in_class(s@, k as int, CharClass::Hex);
    }
    let seconds = match read_number(s, a, b, 10, u64::MAX) {
        Some(v) => v,
        None => {
            return Err(ParseError::Malformed);
        },
    };
    let nanos = match read_number(s, c, d, 10, u64::MAX) {
        Some(v) => v,
        None => {
            return Err(ParseError::Malformed);
        },
    };
    let frame_id = match read_number(s, g, h, 16, 0xffff_ffffu64) {
        Some(v) => v as u32,
        None => {
            return Err(ParseError::Malformed);
        },
    };
    let frame_body = match read_number(s, k, l, 16, u64::MAX) {
        Some(v) => v,
        None => {
            return Err(ParseError::Malformed);
        },
    };
    let can_interface = s.substring_char(e, f).to_owned();
    let rest = s.substring_char(l, len);
    Ok(
        (
            rest,
            DumpEntry {
                timestamp: Timestamp { seconds, nanos },
                can_interface,
                can_frame: CanFrame { frame_id, frame_body },
            },
        ),
    )
}

} // verus!

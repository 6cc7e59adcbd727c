use vstd::prelude::*;
use vstd::string::StringSliceAdditionalSpecFns;

use super::commands::string_push;

verus! {

/// Stage minor number of the initial program loader.
pub const STAGE_MINOR_IPL: u8 = 0;
/// Stage minor number of the secondary program loader.
pub const STAGE_MINOR_SPL: u8 = 8;
/// Stage minor number of the tertiary program loader.
pub const STAGE_MINOR_TPL: u8 = 16;

/// Amlogic SoC ID parsed from the identify response.
#[derive(Debug, Clone)]
pub struct SocId {
    raw: Vec<u8>,
}

impl View for SocId {
    type V = Seq<u8>;

    closed spec fn view(&self) -> Seq<u8> {
        self.raw@
    }
}

/// The character of decimal digit `d`.
pub open spec fn digit_char(d: nat) -> char {
    (0x30 + d) as char
}

/// The decimal digits of `n`, most significant first.
pub open spec fn decimal(n: nat) -> Seq<char>
    decreases n,
{
    if n < 10 {
        seq![digit_char(n)]
    } else {
        decimal(n / 10).push(digit_char(n % 10))
    }
}

/// `-` and the decimal digits of each byte, in order.
pub open spec fn dashed_decimals(bytes: Seq<u8>) -> Seq<char>
    decreases bytes.len(),
{
    if bytes.len() == 0 {
        Seq::empty()
    } else {
        dashed_decimals(bytes.drop_last()) + seq!['-'] + decimal(bytes.last() as nat)
    }
}

/// The name of the boot stage with these numbers.
pub open spec fn stage_name(stage_major: u8, stage_minor: u8) -> Seq<char> {
    if stage_major == 0 && stage_minor == STAGE_MINOR_IPL {
        seq!['I', 'P', 'L']
    } else if stage_major == 0 && stage_minor == STAGE_MINOR_SPL {
        seq!['S', 'P', 'L']
    } else if stage_major == 0 && stage_minor == STAGE_MINOR_TPL {
        seq!['T', 'P', 'L']
    } else {
        seq!['U', 'N', 'K', 'N', 'O', 'W', 'N']
    }
}

/// How a SoC ID reads: `major-minor-stage_major-stage_minor`, then `-` and
/// each further byte, then the stage name in brackets.
pub open spec fn socid_text(raw: Seq<u8>) -> Seq<char> {
    decimal(raw[0] as nat) + seq!['-'] + decimal(raw[1] as nat) + seq!['-'] + decimal(
        raw[2] as nat,
    ) + seq!['-'] + decimal(raw[3] as nat) + dashed_decimals(raw.skip(4)) + seq![' ', '('] + stage_name(
        raw[2],
        raw[3],
    ) + seq![')']
}

/// Appends the decimal digits of `n` to `s`.
fn push_decimal(s: &mut String, n: u8)
    ensures
        final(s)@ == old(s)@ + decimal(n as nat),
{
    reveal_with_fuel(decimal, 3);
    if n >= 100 {
        string_push(s, (0x30u8 + n / 100) as char);
    }
    if n >= 10 {
        string_push(s, (0x30u8 + (n / 10) % 10) as char);
    }
    string_push(s, (0x30u8 + n % 10) as char);
    proof {
        let m = n as nat;
        if m >= 100 {
            assert(decimal(m) =~= seq![digit_char(m / 100), digit_char((m / 10) % 10), digit_char(m % 10)]);
        } else if m >= 10 {
            assert(decimal(m) =~= seq![digit_char(m / 10), digit_char(m % 10)]);
        }
    }
    assert(final(s)@ =~= old(s)@ + decimal(n as nat));
}

/// Appends `c` and then `d` to `s`.
fn push_pair(s: &mut String, c: char, d: char)
    ensures
        final(s)@ == old(s)@ + seq![c, d],
{
    string_push(s, c);
    string_push(s, d);
    assert(final(s)@ =~= old(s)@ + seq![c, d]);
}

impl SocId {
    /// The SoC ID whose bytes are those of `data`.
    pub fn new(data: &str) -> (id: Self)
        ensures
            id@ == data.spec_bytes(),
    {
        SocId { raw: vstd::slice::slice_to_vec(data.as_bytes()) }
    }

    /// The SoC ID whose bytes are `data`.
    pub fn from_bytes(data: &[u8]) -> (id: Self)
        ensures
            id@ == data@,
    {
        SocId { raw: vstd::slice::slice_to_vec(data) }
    }

    /// The number of bytes of the ID.
    pub fn len(&self) -> (n: usize)
        ensures
            n == self@.len(),
    {
        self.raw.len()
    }

    /// Major ROM version: byte 0.
    pub fn major(&self) -> (b: u8)
        requires
            self@.len() > 0,
        ensures
            b == self@[0],
    {
        self.raw[0]
    }

    /// Minor ROM version: byte 1.
    pub fn minor(&self) -> (b: u8)
        requires
            self@.len() > 1,
        ensures
            b == self@[1],
    {
        self.raw[1]
    }

    /// Major boot stage: byte 2.
    pub fn stage_major(&self) -> (b: u8)
        requires
            self@.len() > 2,
        ensures
            b == self@[2],
    {
        self.raw[2]
    }

    /// Minor boot stage: byte 3.
    pub fn stage_minor(&self) -> (b: u8)
        requires
            self@.len() > 3,
        ensures
            b == self@[3],
    {
        self.raw[3]
    }

    /// Whether the SoC wants a password: byte 4 is not zero.
    pub fn need_password(&self) -> (b: bool)
        requires
            self@.len() > 4,
        ensures
            b == (self@[4] != 0),
    {
        self.raw[4] != 0
    }

    /// Whether the password was accepted: byte 5 is not zero.
    pub fn password_ok(&self) -> (b: bool)
        requires
            self@.len() > 5,
        ensures
            b == (self@[5] != 0),
    {
        self.raw[5] != 0
    }

    /// The ID as text, for instance `0-11-0-16-0-0 (TPL)`.
    pub fn to_string(&self) -> (s: String)
        requires
            self@.len() >= 4,
        ensures
            s@ == socid_text(self@),
    {
        let mut s = String::new();
        push_decimal(&mut s, self.major());
        string_push(&mut s, '-');
        push_decimal(&mut s, self.minor());
        string_push(&mut s, '-');
        push_decimal(&mut s, self.stage_major());
        string_push(&mut s, '-');
        push_decimal(&mut s, self.stage_minor());
        let ghost head = s@;
        let len = self.raw.len();
        let mut i: usize = 4;
        while i < len
            invariant
                4 <= i <= len,
                len == self.raw@.len(),
                s@ == head + dashed_decimals(self.raw@.subrange(4, i as int)),
            decreases len - i,
        {
            string_push(&mut s, '-');
            push_decimal(&mut s, self.raw[i]);
            assert(self.raw@.subrange(4, i + 1).drop_last() =~= self.raw@.subrange(4, i as int));
            assert(s@ =~= head + dashed_decimals(self.raw@.subrange(4, i + 1)));
            i = i + 1;
        }
        assert(self.raw@.subrange(4, len as int) =~= self.raw@.skip(4));
        push_pair(&mut s, ' ', '(');
        let major = self.stage_major();
        let minor = self.stage_minor();
        if major == 0 && minor == STAGE_MINOR_IPL {
            push_pair(&mut s, 'I', 'P');
            string_push(&mut s, 'L');
        } else if major == 0 && minor == STAGE_MINOR_SPL {
            push_pair(&mut s, 'S', 'P');
            string_push(&mut s, 'L');
        } else if major == 0 && minor == STAGE_MINOR_TPL {
            push_pair(&mut s, 'T', 'P');
            string_push(&mut s, 'L');
        } else {
            push_pair(&mut s, 'U', 'N');
            push_pair(&mut s, 'K', 'N');
            push_pair(&mut s, 'O', 'W');
            string_push(&mut s, 'N');
        }
        string_push(&mut s, ')');
        assert(s@ =~= socid_text(self@));
        s
    }
}

} // verus!

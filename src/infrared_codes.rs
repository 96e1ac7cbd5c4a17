use vstd::prelude::*;

use crate::timing::TICK_MICROS;

verus! {

/// Why a line of text is not a pulse train.
#[derive(Clone, Copy, Debug, PartialEq, Eq, Structural)]
pub enum DecodeError {
    /// The text is empty or its length is not a multiple of four.
    MalformedGroupLength,
    /// A character is not a hexadecimal digit.
    InvalidHexDigit,
}

/// Upper-case hexadecimal digit for a value below sixteen.
pub open spec fn hex_char(d: int) -> char {
    if d < 10 {
        (d + 48) as char
    } else {
        (d + 55) as char
    }
}

/// Digits that encoding writes.
pub open spec fn is_upper_hex(c: char) -> bool {
    ('0' <= c && c <= '9') || ('A' <= c && c <= 'F')
}

/// Digits accepted when decoding: either case.
pub open spec fn is_hex_char(c: char) -> bool {
    ('0' <= c && c <= '9') || ('A' <= c && c <= 'F') || ('a' <= c && c <= 'f')
}

/// Value of a digit accepted when decoding.
pub open spec fn hex_value(c: char) -> int {
    if '0' <= c && c <= '9' {
        c as int - 48
    } else if 'A' <= c && c <= 'F' {
        c as int - 55
    } else {
        c as int - 87
    }
}

/// One sample as four digits: low byte first, each byte high nibble first.
pub open spec fn encode_sample(n: u16) -> Seq<char> {
    let lo = n as int % 256;
    let hi = n as int / 256;
    seq![hex_char(lo / 16), hex_char(lo % 16), hex_char(hi / 16), hex_char(hi % 16)]
}

/// The text form of a pulse train: its samples' digits, concatenated.
pub open spec fn encode_seq(s: Seq<u16>) -> Seq<char>
    decreases s.len(),
{
    if s.len() == 0 {
        Seq::empty()
    } else {
        encode_seq(s.drop_last()) + encode_sample(s.last())
    }
}

/// The sample that the group of four digits starting at `4 * g` stands for.
pub open spec fn decode_group(s: Seq<char>, g: int) -> int {
    (hex_value(s[4 * g]) * 16 + hex_value(s[4 * g + 1])) + 256 * (hex_value(s[4 * g + 2]) * 16
        + hex_value(s[4 * g + 3]))
}

/// What a line of text decodes to.
pub open spec fn decode_seq(s: Seq<char>) -> Result<Seq<u16>, DecodeError> {
    if s.len() == 0 || s.len() % 4 != 0 {
        Err(DecodeError::MalformedGroupLength)
    } else if exists|i: int| 0 <= i < s.len() && !is_hex_char(#[trigger] s[i]) {
        Err(DecodeError::InvalidHexDigit)
    } else {
        Ok(Seq::new((s.len() / 4) as nat, |g: int| decode_group(s, g) as u16))
    }
}

proof fn lemma_hex_char(d: int)
    requires
        0 <= d < 16,
    ensures
        is_upper_hex(hex_char(d)),
        is_hex_char(hex_char(d)),
        hex_value(hex_char(d)) == d,
{
}

proof fn lemma_encode_sample(n: u16)
    ensures
        encode_sample(n).len() == 4,
        forall|k: int| 0 <= k < 4 ==> is_upper_hex(#[trigger] encode_sample(n)[k]),
        (hex_value(encode_sample(n)[0]) * 16 + hex_value(encode_sample(n)[1])) + 256 * (hex_value(
            encode_sample(n)[2],
        ) * 16 + hex_value(encode_sample(n)[3])) == n as int,
{
    let lo = n as int % 256;
    let hi = n as int / 256;
    lemma_hex_char(lo / 16);
    lemma_hex_char(lo % 16);
    lemma_hex_char(hi / 16);
    lemma_hex_char(hi % 16);
    assert forall|k: int| 0 <= k < 4 implies is_upper_hex(#[trigger] encode_sample(n)[k]) by {
        if k == 0 {
        } else if k == 1 {
        } else if k == 2 {
        } else {
        }
    }
}

proof fn lemma_encode_seq_index(s: Seq<u16>)
    ensures
        encode_seq(s).len() == 4 * s.len(),
        forall|g: int, k: int|
            0 <= g < s.len() && 0 <= k < 4 ==> #[trigger] encode_seq(s)[4 * g + k]
                == #[trigger] encode_sample(s[g])[k],
    decreases s.len(),
{
    if s.len() > 0 {
        let p = s.drop_last();
        lemma_encode_seq_index(p);
        lemma_encode_sample(s.last());
        assert forall|g: int, k: int| 0 <= g < s.len() && 0 <= k < 4 implies #[trigger] encode_seq(
            s,
        )[4 * g + k] == #[trigger] encode_sample(s[g])[k] by {
            if g < p.len() {
                assert(p[g] == s[g]);
                assert(encode_seq(p)[4 * g + k] == encode_sample(p[g])[k]);
            }
        }
    }
}

/// The text form of a pulse train has four characters per sample, each an
/// upper-case hexadecimal digit.
pub proof fn lemma_encode_shape(s: Seq<u16>)
    ensures
        encode_seq(s).len() == 4 * s.len(),
        forall|i: int| 0 <= i < encode_seq(s).len() ==> is_upper_hex(#[trigger] encode_seq(s)[i]),
{
    lemma_encode_seq_index(s);
    assert forall|i: int| 0 <= i < encode_seq(s).len() implies is_upper_hex(
        #[trigger] encode_seq(s)[i],
    ) by {
        let g = i / 4;
        let k = i % 4;
        assert(i == 4 * g + k);
        lemma_encode_sample(s[g]);
        assert(encode_seq(s)[4 * g + k] == encode_sample(s[g])[k]);
    }
}

/// Decoding the text form of a non-empty pulse train gives the train back.
pub proof fn lemma_round_trip(codes: InfraredCodes)
    requires
        codes@.len() >= 1,
    ensures
        decode_seq(encode_seq(codes@)) == Ok::<Seq<u16>, DecodeError>(codes@),
{
    let s = codes@;
    let e = encode_seq(s);
    lemma_encode_shape(s);
    lemma_encode_seq_index(s);
    assert(e.len() % 4 == 0);
    assert forall|i: int| 0 <= i < e.len() implies is_hex_char(#[trigger] e[i]) by {
        assert(is_upper_hex(e[i]));
    }
    let d = Seq::new((e.len() / 4) as nat, |g: int| decode_group(e, g) as u16);
    assert forall|g: int| 0 <= g < s.len() implies d[g] == s[g] by {
        lemma_encode_sample(s[g]);
        assert(e[4 * g + 0] == encode_sample(s[g])[0]);
        assert(e[4 * g + 1] == encode_sample(s[g])[1]);
        assert(e[4 * g + 2] == encode_sample(s[g])[2]);
        assert(e[4 * g + 3] == encode_sample(s[g])[3]);
    }
    assert(d =~= s);
}

/// Relies on std's `String::push`: the character is appended at the end.
#[verifier::external_body]
fn push_char(s: &mut String, c: char)
    ensures
        final(s)@ == old(s)@.push(c),
{
    s.push(c);
}

fn hex_digit(d: u16) -> (c: char)
    requires
        d < 16,
    ensures
        c == hex_char(d as int),
{
    if d < 10 {
        ((d as u8) + 48) as char
    } else {
        ((d as u8) + 55) as char
    }
}

fn digit_value(c: char) -> (r: Option<u16>)
    ensures
        is_hex_char(c) <==> r is Some,
        r matches Some(v) ==> v == hex_value(c) && v < 16,
{
    if '0' <= c && c <= '9' {
        Some((c as u32 - 48) as u16)
    } else if 'A' <= c && c <= 'F' {
        Some((c as u32 - 55) as u16)
    } else if 'a' <= c && c <= 'f' {
        Some((c as u32 - 87) as u16)
    } else {
        None
    }
}

/// A pulse train: tick counts of alternating mark and space, starting with
/// a mark.
pub struct InfraredCodes(Vec<u16>);

impl View for InfraredCodes {
    type V = Seq<u16>;

    closed spec fn view(&self) -> Seq<u16> {
        self.0@
    }
}

impl InfraredCodes {
    /// An empty train, to be filled by a capture.
    pub fn new() -> (r: InfraredCodes)
        ensures
            r@ == Seq::<u16>::empty(),
    {
        InfraredCodes(Vec::new())
    }

    /// The text form of the train: four upper-case hex digits per sample,
    /// low byte first.
    pub fn to_hexdump(&self) -> (r: String)
        ensures
            r@ == encode_seq(self@),
            r@.len() == 4 * self@.len(),
            forall|i: int| 0 <= i < r@.len() ==> is_upper_hex(#[trigger] r@[i]),
    {
        let mut r = String::new();
        let mut i: usize = 0;
        while i < self.0.len()
            invariant
                i <= self@.len(),
                r@ == encode_seq(self@.subrange(0, i as int)),
            decreases self@.len() - i,
        {
            let n = self.0[i];
            let lo = n % 256;
            let hi = n / 256;
            push_char(&mut r, hex_digit(lo / 16));
            push_char(&mut r, hex_digit(lo % 16));
            push_char(&mut r, hex_digit(hi / 16));
            push_char(&mut r, hex_digit(hi % 16));
            proof {
                let next = self@.subrange(0, i + 1);
                assert(next.drop_last() =~= self@.subrange(0, i as int));
                assert(r@ =~= encode_seq(next));
            }
            i = i + 1;
        }
        proof {
            assert(self@.subrange(0, self@.len() as int) =~= self@);
            lemma_encode_shape(self@);
        }
        r
    }

    /// The samples as tick counts.
    pub fn to_counts(&self) -> (r: &[u16])
        ensures
            r@ == self@,
    {
        self.0.as_slice()
    }

    /// The samples scaled to microseconds.
    pub fn to_micro_seconds(&self) -> (r: Vec<u32>)
        ensures
            r@.len() == self@.len(),
            forall|i: int| 0 <= i < r@.len() ==> r@[i] == self@[i] as u32 * TICK_MICROS,
    {
        let mut r: Vec<u32> = Vec::new();
        let mut i: usize = 0;
        while i < self.0.len()
            invariant
                i <= self@.len(),
                r@.len() == i,
                forall|j: int| 0 <= j < i ==> r@[j] == self@[j] as u32 * TICK_MICROS,
            decreases self@.len() - i,
        {
            r.push(self.0[i] as u32 * TICK_MICROS);
            i = i + 1;
        }
        r
    }

    /// Empties the train.
    pub fn clear(&mut self)
        ensures
            final(self)@ == Seq::<u16>::empty(),
    {
        self.0.clear();
    }

    /// Appends one sample.
    pub fn push(&mut self, v: u16)
        ensures
            final(self)@ == old(self)@.push(v),
    {
        self.0.push(v);
    }

    /// Decodes a line of text: groups of four hex digits, each group a
    /// sample written low byte first.
    pub fn from_hexdump(hexdump: &str) -> (r: Result<InfraredCodes, DecodeError>)
        ensures
            match r {
                Ok(c) => decode_seq(hexdump@) == Ok::<Seq<u16>, DecodeError>(c@),
                Err(e) => decode_seq(hexdump@) == Err::<Seq<u16>, DecodeError>(e),
            },
            hexdump@.len() % 4 != 0 ==> r == Err::<InfraredCodes, DecodeError>(
                DecodeError::MalformedGroupLength,
            ),
    {
        let n = hexdump.unicode_len();
        if n == 0 || n % 4 != 0 {
            return Err(DecodeError::MalformedGroupLength);
        }
        let ghost s = hexdump@;
        let mut v: Vec<u16> = Vec::new();
        let mut g: usize = 0;
        while g < n / 4
            invariant
                s == hexdump@,
                n == s.len(),
                n > 0 && n % 4 == 0,
                g <= n / 4,
                forall|i: int| 0 <= i < 4 * g ==> is_hex_char(#[trigger] s[i]),
                v@ =~= Seq::new(g as nat, |k: int| decode_group(s, k) as u16),
            decreases n / 4 - g,
        {
            assert(4 * g + 4 <= n) by (nonlinear_arith)
                requires
                    g < n / 4,
                    n % 4 == 0,
            ;
            let mut digits: [u16; 4] = [0, 0, 0, 0];
            let mut k: usize = 0;
            while k < 4
                invariant
                    s == hexdump@,
                    n == s.len(),
                    n > 0 && n % 4 == 0,
                    g < n / 4,
                    4 * g + 4 <= n,
                    k <= 4,
                    forall|i: int| 0 <= i < 4 * g + k ==> is_hex_char(#[trigger] s[i]),
                    forall|j: int| 0 <= j < k ==> digits[j] == hex_value(s[4 * g + j]) && digits[j] < 16,
                decreases 4 - k,
            {
                let c = hexdump.get_char(4 * g + k);
                match digit_value(c) {
                    Some(d) => {
                        digits[k] = d;
                    },
                    None => {
                        assert(!is_hex_char(s[4 * g + k]));
                        return Err(DecodeError::InvalidHexDigit);
                    },
                }
                k = k + 1;
            }
            let sample = (digits[0] * 16 + digits[1]) + 256 * (digits[2] * 16 + digits[3]);
            v.push(sample);
            g = g + 1;
        }
        assert(!exists|i: int| 0 <= i < s.len() && !is_hex_char(#[trigger] s[i]));
        Ok(InfraredCodes(v))
    }
}

} // verus!

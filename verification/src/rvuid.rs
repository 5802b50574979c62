//! Content-addressed, human-transcribable identifiers.
//!
//! An identifier is a 128-bit value derived from raw file bytes by a
//! name-based hash, shown as hyphenated groups over a 32-symbol alphabet
//! (digits and upper-case letters without I, L, O and U, which are easy to
//! misread when handwritten). A full identifier covers all 128 bits; a
//! partial one, written down by hand, covers only the top 40 bits.

use vstd::prelude::*;

use crate::error::PsiError;

verus! {

/// The character standing for one 5-bit symbol value.
pub open spec fn spec_sym(v: int) -> char {
    if v == 0 { '0' }
    else if v == 1 { '1' }
    else if v == 2 { '2' }
    else if v == 3 { '3' }
    else if v == 4 { '4' }
    else if v == 5 { '5' }
    else if v == 6 { '6' }
    else if v == 7 { '7' }
    else if v == 8 { '8' }
    else if v == 9 { '9' }
    else if v == 10 { 'A' }
    else if v == 11 { 'B' }
    else if v == 12 { 'C' }
    else if v == 13 { 'D' }
    else if v == 14 { 'E' }
    else if v == 15 { 'F' }
    else if v == 16 { 'G' }
    else if v == 17 { 'H' }
    else if v == 18 { 'J' }
    else if v == 19 { 'K' }
    else if v == 20 { 'M' }
    else if v == 21 { 'N' }
    else if v == 22 { 'P' }
    else if v == 23 { 'Q' }
    else if v == 24 { 'R' }
    else if v == 25 { 'S' }
    else if v == 26 { 'T' }
    else if v == 27 { 'V' }
    else if v == 28 { 'W' }
    else if v == 29 { 'X' }
    else if v == 30 { 'Y' }
    else { 'Z' }
}

/// The 5-bit value of an alphabet character, or `None` for a character
/// outside the alphabet.
pub open spec fn spec_sym_val(c: char) -> Option<u8> {
    match c {
        '0' => Some(0u8),
        '1' => Some(1u8),
        '2' => Some(2u8),
        '3' => Some(3u8),
        '4' => Some(4u8),
        '5' => Some(5u8),
        '6' => Some(6u8),
        '7' => Some(7u8),
        '8' => Some(8u8),
        '9' => Some(9u8),
        'A' => Some(10u8),
        'B' => Some(11u8),
        'C' => Some(12u8),
        'D' => Some(13u8),
        'E' => Some(14u8),
        'F' => Some(15u8),
        'G' => Some(16u8),
        'H' => Some(17u8),
        'J' => Some(18u8),
        'K' => Some(19u8),
        'M' => Some(20u8),
        'N' => Some(21u8),
        'P' => Some(22u8),
        'Q' => Some(23u8),
        'R' => Some(24u8),
        'S' => Some(25u8),
        'T' => Some(26u8),
        'V' => Some(27u8),
        'W' => Some(28u8),
        'X' => Some(29u8),
        'Y' => Some(30u8),
        'Z' => Some(31u8),
        _ => None,
    }
}

/// Looking a symbol's character back up yields the symbol.
pub proof fn lemma_sym_roundtrip(v: int)
    requires
        0 <= v < 32,
    ensures
        spec_sym_val(spec_sym(v)) == Some(v as u8),
{
}

/// A character in the alphabet decodes to the symbol that encodes to it;
/// the hyphen is not in the alphabet.
pub proof fn lemma_sym_val_inverse(c: char)
    requires
        spec_sym_val(c) is Some,
    ensures
        spec_sym(spec_sym_val(c)->Some_0 as int) == c,
        c != '-',
{
}

fn sym_char(v: u8) -> (c: char)
    requires
        v < 32,
    ensures
        c == spec_sym(v as int),
{
    match v {
        0 => '0',
        1 => '1',
        2 => '2',
        3 => '3',
        4 => '4',
        5 => '5',
        6 => '6',
        7 => '7',
        8 => '8',
        9 => '9',
        10 => 'A',
        11 => 'B',
        12 => 'C',
        13 => 'D',
        14 => 'E',
        15 => 'F',
        16 => 'G',
        17 => 'H',
        18 => 'J',
        19 => 'K',
        20 => 'M',
        21 => 'N',
        22 => 'P',
        23 => 'Q',
        24 => 'R',
        25 => 'S',
        26 => 'T',
        27 => 'V',
        28 => 'W',
        29 => 'X',
        30 => 'Y',
        _ => 'Z',
    }
}

fn sym_value(c: char) -> (v: Option<u8>)
    ensures
        v == spec_sym_val(c),
{
    match c {
        '0' => Some(0),
        '1' => Some(1),
        '2' => Some(2),
        '3' => Some(3),
        '4' => Some(4),
        '5' => Some(5),
        '6' => Some(6),
        '7' => Some(7),
        '8' => Some(8),
        '9' => Some(9),
        'A' => Some(10),
        'B' => Some(11),
        'C' => Some(12),
        'D' => Some(13),
        'E' => Some(14),
        'F' => Some(15),
        'G' => Some(16),
        'H' => Some(17),
        'J' => Some(18),
        'K' => Some(19),
        'M' => Some(20),
        'N' => Some(21),
        'P' => Some(22),
        'Q' => Some(23),
        'R' => Some(24),
        'S' => Some(25),
        'T' => Some(26),
        'V' => Some(27),
        'W' => Some(28),
        'X' => Some(29),
        'Y' => Some(30),
        'Z' => Some(31),
        _ => None,
    }
}

/// 32 raised to `k`, for the eight symbol weights of a 40-bit group.
pub open spec fn pow32(k: int) -> int {
    if k <= 0 { 1 }
    else if k == 1 { 32 }
    else if k == 2 { 0x400 }
    else if k == 3 { 0x8000 }
    else if k == 4 { 0x100000 }
    else if k == 5 { 0x2000000 }
    else if k == 6 { 0x40000000 }
    else { 0x800000000 }
}

/// The base-32 digit of `g` at weight `32^k` (so `k == 7` is the most
/// significant digit of a 40-bit group).
pub open spec fn spec_digit40(g: u64, k: int) -> u8 {
    ((g as int / pow32(k)) % 32) as u8
}

/// The eight symbol values of a 40-bit group, most significant first.
pub open spec fn spec_group_digits(g: u64) -> Seq<u8> {
    Seq::new(8, |i: int| spec_digit40(g, 7 - i))
}

/// The eight characters of a 40-bit group, most significant first.
pub open spec fn spec_group_syms(g: u64) -> Seq<char> {
    Seq::new(8, |i: int| spec_sym(spec_digit40(g, 7 - i) as int))
}

/// The two symbol values encoding the final byte of a full identifier:
/// its top five bits, then its low three bits padded with two zero bits.
pub open spec fn spec_tail_digits(b: u8) -> Seq<u8> {
    seq![(b / 8) as u8, ((b % 8) * 4) as u8]
}

/// The two characters encoding the final byte of a full identifier.
pub open spec fn spec_tail_syms(b: u8) -> Seq<char> {
    seq![spec_sym((b / 8) as int), spec_sym(((b % 8) * 4) as int)]
}

/// Five bytes packed big-endian into a 40-bit value.
pub open spec fn spec_pack40(b: Seq<u8>) -> int {
    b[0] * 0x1_0000_0000 + b[1] * 0x100_0000 + b[2] * 0x1_0000 + b[3] * 0x100 + b[4]
}

/// A 40-bit value split big-endian into five bytes.
pub open spec fn spec_unpack40(g: u64) -> Seq<u8> {
    seq![
        (g as int / 0x1_0000_0000 % 0x100) as u8,
        (g as int / 0x100_0000 % 0x100) as u8,
        (g as int / 0x1_0000 % 0x100) as u8,
        (g as int / 0x100 % 0x100) as u8,
        (g as int % 0x100) as u8,
    ]
}

/// The value of eight big-endian base-32 digits.
pub open spec fn spec_dec8(d: Seq<u8>) -> int {
    ((((((d[0] * 32 + d[1]) * 32 + d[2]) * 32 + d[3]) * 32 + d[4]) * 32 + d[5]) * 32 + d[6]) * 32
        + d[7]
}

/// Recombining the eight digits of a 40-bit group restores the group.
pub proof fn lemma_group_digits_value(g: u64)
    requires
        g < 0x100_0000_0000,
    ensures
        spec_dec8(spec_group_digits(g)) == g,
{
    assert(
        ((((((((g as int / 0x800000000 % 32) * 32 + g as int / 0x40000000 % 32) * 32
            + g as int / 0x2000000 % 32) * 32 + g as int / 0x100000 % 32) * 32
            + g as int / 0x8000 % 32) * 32 + g as int / 0x400 % 32) * 32
            + g as int / 32 % 32) * 32 + g as int % 32) == g
    ) by (bit_vector)
        requires
            g < 0x100_0000_0000,
    ;
}

/// Unpacking the packed value of five bytes restores the bytes.
pub proof fn lemma_unpack_pack40(b: Seq<u8>)
    requires
        b.len() == 5,
    ensures
        0 <= spec_pack40(b) < 0x100_0000_0000,
        spec_unpack40(spec_pack40(b) as u64) =~= b,
{
    let b0 = b[0];
    let b1 = b[1];
    let b2 = b[2];
    let b3 = b[3];
    let b4 = b[4];
    let g = spec_pack40(b);
    assert(g == b0 * 0x1_0000_0000 + b1 * 0x100_0000 + b2 * 0x1_0000 + b3 * 0x100 + b4);
    assert({
        let p = b0 * 0x1_0000_0000 + b1 * 0x100_0000 + b2 * 0x1_0000 + b3 * 0x100 + b4;
        &&& 0 <= p < 0x100_0000_0000
        &&& p / 0x1_0000_0000 % 0x100 == b0
        &&& p / 0x100_0000 % 0x100 == b1
        &&& p / 0x1_0000 % 0x100 == b2
        &&& p / 0x100 % 0x100 == b3
        &&& p % 0x100 == b4
    }) by (bit_vector);
}

/// The 16 digest bytes that the name-based hash assigns to a byte
/// sequence. The digest is a pure function of the bytes alone, the same in
/// every process and on every machine.
pub uninterp spec fn digest_of(data: Seq<u8>) -> Seq<u8>;

/// Relies on uuid::Uuid::new_v5: a name-based (hash-derived) UUID computed
/// from a fixed namespace and the given bytes; a pure function of its
/// arguments, always 16 bytes.
#[verifier::external_body]
fn uuid5_digest(data: &[u8]) -> (r: Vec<u8>)
    ensures
        r@ == digest_of(data@),
        r@.len() == 16,
{
    let ns = uuid::Uuid::from_bytes([82, 86, 0, 0, 0, 0, 0, 0, 0, 0, 0, 0, 0, 0, 0, 0]);
    uuid::Uuid::new_v5(&ns, data).as_bytes().to_vec()
}

fn pow32_exec(k: usize) -> (p: u64)
    requires
        k < 8,
    ensures
        p as int == pow32(k as int),
        p > 0,
{
    match k {
        0 => 1,
        1 => 32,
        2 => 0x400,
        3 => 0x8000,
        4 => 0x100000,
        5 => 0x2000000,
        6 => 0x40000000,
        _ => 0x800000000,
    }
}

fn group_digit(g: u64, k: usize) -> (d: u8)
    requires
        k < 8,
    ensures
        d == spec_digit40(g, k as int),
        d < 32,
{
    let p: u64 = pow32_exec(k);
    ((g / p) % 32) as u8
}

fn group_value(b: &Vec<u8>, start: usize) -> (g: u64)
    requires
        start + 5 <= b@.len(),
    ensures
        g == spec_pack40(b@.subrange(start as int, start as int + 5)),
        g < 0x100_0000_0000,
{
    let n: usize = b.len();
    assert(n == b@.len());
    let g: u64 = (b[start] as u64) * 0x1_0000_0000 + (b[start + 1] as u64) * 0x100_0000
        + (b[start + 2] as u64) * 0x1_0000 + (b[start + 3] as u64) * 0x100
        + (b[start + 4] as u64);
    proof {
        let s = b@.subrange(start as int, start as int + 5);
        assert(s[0] == b@[start as int] && s[1] == b@[start as int + 1]
            && s[2] == b@[start as int + 2] && s[3] == b@[start as int + 3]
            && s[4] == b@[start as int + 4]);
    }
    g
}

fn push_group_syms(s: &mut String, g: u64, from: usize, to: usize)
    requires
        from <= to <= 8,
    ensures
        final(s)@ == old(s)@ + spec_group_syms(g).subrange(from as int, to as int),
{
    let mut i: usize = from;
    while i < to
        invariant
            from <= i <= to <= 8,
            s@ == old(s)@ + spec_group_syms(g).subrange(from as int, i as int),
        decreases to - i,
    {
        let d: u8 = group_digit(g, 7 - i);
        crate::text::push_char(s, sym_char(d));
        i = i + 1;
        assert(s@ =~= old(s)@ + spec_group_syms(g).subrange(from as int, i as int));
    }
}

fn push_tail_syms(s: &mut String, b: u8)
    ensures
        final(s)@ == old(s)@ + spec_tail_syms(b),
{
    crate::text::push_char(s, sym_char(b / 8));
    crate::text::push_char(s, sym_char((b % 8) * 4));
    assert(s@ =~= old(s)@ + spec_tail_syms(b));
}

/// The 26 symbol characters encoding 16 bytes: three 40-bit groups of
/// eight symbols, then two symbols for the final byte.
pub open spec fn spec_syms_full(b: Seq<u8>) -> Seq<char> {
    spec_group_syms(spec_pack40(b.subrange(0, 5)) as u64)
        + spec_group_syms(spec_pack40(b.subrange(5, 10)) as u64)
        + spec_group_syms(spec_pack40(b.subrange(10, 15)) as u64)
        + spec_tail_syms(b[15])
}

/// The canonical display text of an identifier: the `R-` marker and
/// hyphen-separated symbol groups of 4, 4 and (for a full identifier) 18
/// characters. A partial identifier shows only the first eight symbols,
/// which encode its top 40 bits.
pub open spec fn spec_display_of(b: Seq<u8>, partial: bool) -> Seq<char> {
    let s = spec_syms_full(b);
    if partial {
        seq!['R', '-'] + s.subrange(0, 4) + seq!['-'] + s.subrange(4, 8)
    } else {
        seq!['R', '-'] + s.subrange(0, 4) + seq!['-'] + s.subrange(4, 8) + seq!['-']
            + s.subrange(8, 26)
    }
}

/// The mathematical content of an identifier: its 16 bytes and whether
/// only the top 40 bits are meaningful.
pub struct RvuidView {
    pub bytes: Seq<u8>,
    pub partial: bool,
}

/// A content-derived, human-transcribable identifier.
///
/// Holds the 16 raw bytes, the canonical display text, whether the value
/// is only a 40-bit prefix written down by hand, and that prefix as an
/// integer for quick comparison.
#[derive(Debug)]
pub struct Rvuid {
    uuid: Vec<u8>,
    rvuid: String,
    missing_bits: bool,
    prefix40: u64,
}

impl View for Rvuid {
    type V = RvuidView;

    closed spec fn view(&self) -> RvuidView {
        RvuidView { bytes: self.uuid@, partial: self.missing_bits }
    }
}

impl Rvuid {
    /// Encode 16 identifier bytes as display text; with `missing_bits` only
    /// the first 40 bits are shown, in the short two-group form.
    pub fn rvuid_from_uuid(bytes: &Vec<u8>, missing_bits: bool) -> (r: String)
        requires
            bytes@.len() == 16,
        ensures
            r@ == spec_display_of(bytes@, missing_bits),
    {
        let ghost full = spec_syms_full(bytes@);
        let g0: u64 = group_value(bytes, 0);
        let mut s = String::new();
        crate::text::push_char(&mut s, 'R');
        crate::text::push_char(&mut s, '-');
        proof {
            assert(s@ =~= seq!['R', '-']);
            assert(full.subrange(0, 4) =~= spec_group_syms(g0).subrange(0, 4));
            assert(full.subrange(4, 8) =~= spec_group_syms(g0).subrange(4, 8));
        }
        push_group_syms(&mut s, g0, 0, 4);
        crate::text::push_char(&mut s, '-');
        push_group_syms(&mut s, g0, 4, 8);
        if missing_bits {
            assert(s@ =~= spec_display_of(bytes@, true));
            s
        } else {
            crate::text::push_char(&mut s, '-');
            let g1: u64 = group_value(bytes, 5);
            let g2: u64 = group_value(bytes, 10);
            push_group_syms(&mut s, g1, 0, 8);
            push_group_syms(&mut s, g2, 0, 8);
            push_tail_syms(&mut s, bytes[15]);
            proof {
                assert(spec_group_syms(g1) =~= spec_group_syms(g1).subrange(0, 8));
                assert(spec_group_syms(g2) =~= spec_group_syms(g2).subrange(0, 8));
                assert(full.subrange(8, 26) =~= spec_group_syms(g1) + spec_group_syms(g2)
                    + spec_tail_syms(bytes@[15]));
                assert(s@ =~= spec_display_of(bytes@, false));
            }
            s
        }
    }

    /// The cached 40-bit prefix.
    pub closed spec fn spec_prefix(self) -> int {
        self.prefix40 as int
    }

    /// The display text.
    pub closed spec fn spec_display(self) -> Seq<char> {
        self.rvuid@
    }

    /// Well-formedness: 16 bytes; the cached prefix and the display text
    /// agree with the bytes; a partial identifier zero-fills the 88 bits
    /// past its prefix, which must never be trusted as real data.
    pub open spec fn wf(self) -> bool {
        &&& self@.bytes.len() == 16
        &&& self.spec_prefix() == spec_pack40(self@.bytes.subrange(0, 5))
        &&& (self@.partial ==> forall|i: int| 5 <= i < 16 ==> self@.bytes[i] == 0)
        &&& self.spec_display() == spec_display_of(self@.bytes, self@.partial)
    }

    /// Build an identifier from its 16 raw bytes. When `missing_bits` is
    /// set the bytes past the 40-bit prefix are zero-filled.
    pub fn new(uuid: Vec<u8>, missing_bits: bool) -> (r: Rvuid)
        requires
            uuid@.len() == 16,
        ensures
            r.wf(),
            r@.partial == missing_bits,
            r@.bytes.subrange(0, 5) == uuid@.subrange(0, 5),
            !missing_bits ==> r@.bytes == uuid@,
            r.spec_prefix() == spec_pack40(uuid@.subrange(0, 5)),
            r.spec_display() == spec_display_of(r@.bytes, missing_bits),
    {
        let mut b = uuid;
        if missing_bits {
            let ghost orig = b@;
            let mut i: usize = 5;
            while i < 16
                invariant
                    5 <= i <= 16,
                    b@.len() == 16,
                    b@.subrange(0, 5) == orig.subrange(0, 5),
                    forall|j: int| 5 <= j < i ==> b@[j] == 0,
                decreases 16 - i,
            {
                b[i] = 0;
                assert(b@.subrange(0, 5) =~= orig.subrange(0, 5));
                i = i + 1;
            }
        }
        let rvuid = Self::rvuid_from_uuid(&b, missing_bits);
        let prefix40: u64 = Self::prefix40_from_uuid(&b);
        proof {
            assert(b@.subrange(0, 5) =~= uuid@.subrange(0, 5));
        }
        Rvuid { uuid: b, rvuid, missing_bits, prefix40 }
    }

    /// The cached top-40-bits value, packed big-endian from the first
    /// five bytes.
    pub fn prefix40_from_uuid(bytes: &Vec<u8>) -> (p: u64)
        requires
            bytes@.len() >= 5,
        ensures
            p == spec_pack40(bytes@.subrange(0, 5)),
            p < 0x100_0000_0000,
    {
        group_value(bytes, 0)
    }

    /// Derive the full identifier of a byte sequence: its digest bytes,
    /// encoded. Deriving is deterministic; the same bytes always give the
    /// same identifier and the same display text.
    pub fn from_bytes(data: &[u8]) -> (r: Rvuid)
        ensures
            r.wf(),
            !r@.partial,
            r@.bytes == digest_of(data@),
            r.spec_display() == spec_display_of(digest_of(data@), false),
    {
        let d = uuid5_digest(data);
        Rvuid::new(d, false)
    }

    /// The identifier's display text, owned.
    pub fn display(&self) -> (r: String)
        ensures
            r@ == self.spec_display(),
    {
        self.rvuid.clone()
    }

    /// The identifier's display text, borrowed.
    pub fn display_str(&self) -> (r: &str)
        ensures
            r@ == self.spec_display(),
    {
        self.rvuid.as_str()
    }

    /// Whether only the top 40 bits are meaningful.
    pub fn is_partial(&self) -> (r: bool)
        ensures
            r == self@.partial,
    {
        self.missing_bits
    }

    /// The 16 raw bytes.
    pub fn bytes(&self) -> (r: &Vec<u8>)
        ensures
            r@ == self@.bytes,
    {
        &self.uuid
    }

    /// The packed top-40-bits value.
    pub fn prefix40(&self) -> (r: u64)
        ensures
            r as int == self.spec_prefix(),
    {
        self.prefix40
    }
}

fn u8_vec_eq(a: &Vec<u8>, b: &Vec<u8>) -> (r: bool)
    ensures
        r <==> a@ == b@,
{
    let n: usize = a.len();
    if n != b.len() {
        assert(a@.len() != b@.len());
        return false;
    }
    let mut i: usize = 0;
    while i < n
        invariant
            i <= n,
            n == a@.len() && n == b@.len(),
            forall|j: int| 0 <= j < i ==> a@[j] == b@[j],
        decreases n - i,
    {
        if a[i] != b[i] {
            return false;
        }
        i = i + 1;
    }
    assert(a@ =~= b@);
    true
}

/// The identifier equality rule: prefix-only comparison when either
/// side is partial, full 128-bit comparison otherwise.
pub open spec fn spec_rvuid_eq(a: Rvuid, b: Rvuid) -> bool {
    if a@.partial || b@.partial {
        a.spec_prefix() == b.spec_prefix()
    } else {
        a@.bytes == b@.bytes
    }
}

fn rvuid_eq_impl(a: &Rvuid, b: &Rvuid) -> (r: bool)
    ensures
        r == spec_rvuid_eq(*a, *b),
{
    if a.missing_bits || b.missing_bits {
        a.prefix40 == b.prefix40
    } else {
        u8_vec_eq(&a.uuid, &b.uuid)
    }
}

impl PartialEq for Rvuid {
    /// If either side is a hand-written 40-bit prefix, compare prefixes
    /// only; otherwise compare the full 128-bit value.
    fn eq(&self, other: &Rvuid) -> (r: bool) {
        rvuid_eq_impl(self, other)
    }
}

impl vstd::std_specs::cmp::PartialEqSpecImpl for Rvuid {
    open spec fn obeys_eq_spec() -> bool {
        true
    }

    open spec fn eq_spec(&self, other: &Rvuid) -> bool {
        spec_rvuid_eq(*self, *other)
    }
}

impl Clone for Rvuid {
    fn clone(&self) -> (r: Self)
        ensures
            r@ == self@,
            r.spec_prefix() == self.spec_prefix(),
            r.spec_display() == self.spec_display(),
    {
        let uuid = self.uuid.clone();
        assert(uuid@ =~= self.uuid@);
        Rvuid {
            uuid,
            rvuid: self.rvuid.clone(),
            missing_bits: self.missing_bits,
            prefix40: self.prefix40,
        }
    }
}

impl Rvuid {
    /// The bytes to use as an exact hash key. A partial identifier cannot
    /// take part in exact-membership structures without risking silent
    /// prefix collisions, so asking for its key fails fast with
    /// `InvariantViolation` instead of handing back incomplete data.
    pub fn hash_bytes(&self) -> (r: Result<&Vec<u8>, PsiError>)
        ensures
            self@.partial ==> r is Err && r->Err_0 == PsiError::InvariantViolation,
            !self@.partial ==> r is Ok && r->Ok_0@ == self@.bytes,
    {
        if self.missing_bits {
            Err(PsiError::InvariantViolation)
        } else {
            Ok(&self.uuid)
        }
    }
}

/// Deriving is deterministic: any two identifiers derived from the same
/// byte sequence carry the same 128-bit value and the same display text,
/// and compare equal.
pub proof fn lemma_derive_deterministic(data: Seq<u8>, r1: Rvuid, r2: Rvuid)
    requires
        r1.wf(),
        !r1@.partial,
        r1@.bytes == digest_of(data),
        r2.wf(),
        !r2@.partial,
        r2@.bytes == digest_of(data),
    ensures
        r1@.bytes == r2@.bytes,
        r1.spec_display() == r2.spec_display(),
        spec_rvuid_eq(r1, r2),
{
}

/// Identifier equality is reflexive.
pub proof fn lemma_eq_reflexive(a: Rvuid)
    ensures
        spec_rvuid_eq(a, a),
{
}

/// Identifier equality is symmetric.
pub proof fn lemma_eq_symmetric(a: Rvuid, b: Rvuid)
    ensures
        spec_rvuid_eq(a, b) == spec_rvuid_eq(b, a),
{
}

/// Identifier equality is deliberately not transitive: a full identifier
/// equals its own 40-bit truncation, and that truncation equals any full
/// identifier that merely shares the same 40-bit prefix, while the two
/// full identifiers differ.
pub proof fn lemma_eq_not_transitive(a: Rvuid, p: Rvuid, b: Rvuid)
    requires
        a.wf(),
        p.wf(),
        b.wf(),
        !a@.partial,
        !b@.partial,
        p@.partial,
        p@.bytes.subrange(0, 5) == a@.bytes.subrange(0, 5),
        b@.bytes.subrange(0, 5) == a@.bytes.subrange(0, 5),
        a@.bytes != b@.bytes,
    ensures
        spec_rvuid_eq(a, p),
        spec_rvuid_eq(p, b),
        !spec_rvuid_eq(a, b),
{
}

/// Display text with every leading `R-` marker pair removed.
pub open spec fn spec_strip_markers(s: Seq<char>) -> Seq<char>
    decreases s.len(),
{
    if s.len() >= 2 && s[0] == 'R' && s[1] == '-' {
        spec_strip_markers(s.skip(2))
    } else {
        s
    }
}

/// Scan text for symbol values, skipping hyphens; `None` as soon as a
/// character is neither a hyphen nor in the alphabet.
pub open spec fn spec_scan_digits(t: Seq<char>) -> Option<Seq<u8>>
    decreases t.len(),
{
    if t.len() == 0 {
        Some(Seq::empty())
    } else {
        match spec_scan_digits(t.drop_last()) {
            Option::None => None,
            Option::Some(d) => {
                if t.last() == '-' {
                    Some(d)
                } else {
                    match spec_sym_val(t.last()) {
                        Option::None => None,
                        Option::Some(v) => Some(d.push(v)),
                    }
                }
            },
        }
    }
}

/// Once the scan has failed on a prefix, it fails on the whole text.
proof fn lemma_scan_none_extends(t: Seq<char>, k: int)
    requires
        0 <= k <= t.len(),
        spec_scan_digits(t.take(k)) is None,
    ensures
        spec_scan_digits(t) is None,
    decreases t.len() - k,
{
    if k < t.len() {
        assert(t.take(k + 1).drop_last() =~= t.take(k));
        lemma_scan_none_extends(t, k + 1);
    } else {
        assert(t.take(k) =~= t);
    }
}

/// The scan of concatenated texts is the concatenation of the scans.
proof fn lemma_scan_append(t1: Seq<char>, t2: Seq<char>, d1: Seq<u8>, d2: Seq<u8>)
    requires
        spec_scan_digits(t1) == Some(d1),
        spec_scan_digits(t2) == Some(d2),
    ensures
        spec_scan_digits(t1 + t2) == Some(d1 + d2),
    decreases t2.len(),
{
    if t2.len() == 0 {
        assert(t1 + t2 =~= t1);
        assert(d1 + d2 =~= d1);
    } else {
        let c = t2.last();
        if c == '-' {
            lemma_scan_append(t1, t2.drop_last(), d1, d2);
            assert((t1 + t2).drop_last() =~= t1 + t2.drop_last());
        } else {
            let v = spec_sym_val(c)->Some_0;
            assert(spec_scan_digits(t2.drop_last()) == Some(d2.drop_last()));
            lemma_scan_append(t1, t2.drop_last(), d1, d2.drop_last());
            assert((t1 + t2).drop_last() =~= t1 + t2.drop_last());
            assert((d1 + d2.drop_last()).push(v) =~= d1 + d2);
        }
    }
}

/// A text of alphabet characters alone scans to its symbol values.
proof fn lemma_scan_syms(t: Seq<char>)
    requires
        forall|i: int| 0 <= i < t.len() ==> spec_sym_val(t[i]) is Some,
    ensures
        spec_scan_digits(t) is Some,
        spec_scan_digits(t)->Some_0 =~= t.map_values(|c: char| spec_sym_val(c)->Some_0),
    decreases t.len(),
{
    if t.len() > 0 {
        lemma_scan_syms(t.drop_last());
        lemma_sym_val_inverse(t.last());
        assert(t.drop_last().map_values(|c: char| spec_sym_val(c)->Some_0).push(
            spec_sym_val(t.last())->Some_0,
        ) =~= t.map_values(|c: char| spec_sym_val(c)->Some_0));
    }
}

/// The 16 bytes encoded by 26 symbol values: three 40-bit groups and a
/// final byte rebuilt from the last two symbols (whose two padding bits
/// must be zero).
pub open spec fn spec_bytes_of_26(d: Seq<u8>) -> Seq<u8> {
    spec_unpack40(spec_dec8(d.subrange(0, 8)) as u64)
        + spec_unpack40(spec_dec8(d.subrange(8, 16)) as u64)
        + spec_unpack40(spec_dec8(d.subrange(16, 24)) as u64)
        + seq![(d[24] * 8 + d[25] / 4) as u8]
}

/// The 16 bytes a partial identifier stands for: the five prefix bytes of
/// its eight symbols, zero-filled past the 40-bit prefix.
pub open spec fn spec_bytes_of_8(d: Seq<u8>) -> Seq<u8> {
    spec_unpack40(spec_dec8(d) as u64) + Seq::new(11, |i: int| 0u8)
}

/// What identifier text means. `None` unless the text starts with the
/// `R-` marker and, after dropping leading markers and all hyphens, holds
/// exactly 26 alphabet symbols covering 128 bits (full form, with the two
/// trailing padding bits zero) or exactly 8 symbols covering the top 40
/// bits (partial form).
pub open spec fn spec_decode(s: Seq<char>) -> Option<RvuidView> {
    if !(s.len() >= 2 && s[0] == 'R' && s[1] == '-') {
        None
    } else {
        match spec_scan_digits(spec_strip_markers(s)) {
            Option::None => None,
            Option::Some(d) => {
                if d.len() == 26 {
                    if d[25] % 4 == 0 {
                        Some(RvuidView { bytes: spec_bytes_of_26(d), partial: false })
                    } else {
                        None
                    }
                } else if d.len() == 8 {
                    Some(RvuidView { bytes: spec_bytes_of_8(d), partial: true })
                } else {
                    None
                }
            },
        }
    }
}

fn horner8(d: &Vec<u8>, start: usize) -> (g: u64)
    requires
        start + 8 <= d@.len(),
        forall|i: int| 0 <= i < d@.len() ==> d@[i] < 32,
    ensures
        g == spec_dec8(d@.subrange(start as int, start as int + 8)),
        g < 0x100_0000_0000,
{
    let n: usize = d.len();
    assert(n == d@.len());
    let mut g: u64 = d[start] as u64;
    g = g * 32 + d[start + 1] as u64;
    g = g * 32 + d[start + 2] as u64;
    g = g * 32 + d[start + 3] as u64;
    g = g * 32 + d[start + 4] as u64;
    g = g * 32 + d[start + 5] as u64;
    g = g * 32 + d[start + 6] as u64;
    g = g * 32 + d[start + 7] as u64;
    proof {
        let s = d@.subrange(start as int, start as int + 8);
        assert(forall|i: int| 0 <= i < 8 ==> s[i] == d@[start as int + i]);
    }
    g
}

fn unpack40_push(v: &mut Vec<u8>, g: u64)
    requires
        g < 0x100_0000_0000,
    ensures
        final(v)@ == old(v)@ + spec_unpack40(g),
{
    v.push((g / 0x1_0000_0000) as u8);
    v.push((g / 0x100_0000 % 0x100) as u8);
    v.push((g / 0x1_0000 % 0x100) as u8);
    v.push((g / 0x100 % 0x100) as u8);
    v.push((g % 0x100) as u8);
    assert(v@ =~= old(v)@ + spec_unpack40(g));
}

fn strip_and_scan(cs: &Vec<char>) -> (r: Option<Vec<u8>>)
    requires
        cs@.len() >= 2,
        cs@[0] == 'R',
        cs@[1] == '-',
    ensures
        r is Some ==> spec_scan_digits(spec_strip_markers(cs@)) == Some(r->Some_0@),
        r is None ==> spec_scan_digits(spec_strip_markers(cs@)) is None,
        r is Some ==> forall|k: int| 0 <= k < r->Some_0@.len() ==> r->Some_0@[k] < 32,
{
    let n: usize = cs.len();
    assert(n == cs@.len());
    proof {
        assert(cs@.skip(0) =~= cs@);
    }
    let mut i: usize = 0;
    while i < n - 1 && cs[i] == 'R' && cs[i + 1] == '-'
        invariant
            0 <= i <= n,
            n == cs@.len(),
            n >= 2,
            spec_strip_markers(cs@) == spec_strip_markers(cs@.skip(i as int)),
        decreases n - i,
    {
        proof {
            assert(cs@.skip(i as int).skip(2) =~= cs@.skip(i as int + 2));
        }
        i = i + 2;
    }
    proof {
        assert(spec_strip_markers(cs@.skip(i as int)) == cs@.skip(i as int));
    }
    let ghost t = cs@.skip(i as int);
    let mut digits: Vec<u8> = Vec::new();
    let mut j: usize = i;
    while j < n
        invariant
            i <= j <= n,
            n == cs@.len(),
            t == cs@.skip(i as int),
            spec_strip_markers(cs@) == t,
            spec_scan_digits(t.take(j - i as int)) == Some(digits@),
            forall|k: int| 0 <= k < digits@.len() ==> digits@[k] < 32,
        decreases n - j,
    {
        let c = cs[j];
        proof {
            assert(t.take(j + 1 - i as int).drop_last() =~= t.take(j - i as int));
            assert(t.take(j + 1 - i as int).last() == c);
        }
        if c == '-' {
        } else {
            match sym_value(c) {
                Option::Some(v) => {
                    proof {
                        lemma_sym_val_inverse(c);
                    }
                    digits.push(v);
                },
                Option::None => {
                    proof {
                        lemma_scan_none_extends(t, j + 1 - i as int);
                    }
                    return None;
                },
            }
        }
        j = j + 1;
    }
    proof {
        assert(t.take(n - i as int) =~= t);
    }
    Some(digits)
}

impl Rvuid {
    /// Parse identifier text. Fails with `FormatError` unless the text
    /// starts with the `R-` marker and its symbols decode to exactly 16
    /// bytes (full form) or exactly 5 bytes (partial form, zero-padded
    /// internally and flagged partial).
    pub fn decode(s: &str) -> (r: Result<Rvuid, PsiError>)
        ensures
            spec_decode(s@) is None <==> (r is Err && r->Err_0 == PsiError::FormatError),
            spec_decode(s@) is Some ==> r is Ok && r->Ok_0.wf() && r->Ok_0@ == spec_decode(
                s@,
            )->Some_0,
    {
        let cs = crate::text::chars_vec(s);
        let n: usize = cs.len();
        if n < 2 {
            return Err(PsiError::FormatError);
        }
        if !(cs[0] == 'R' && cs[1] == '-') {
            return Err(PsiError::FormatError);
        }
        let digits: Vec<u8> = match strip_and_scan(&cs) {
            Option::Some(d) => d,
            Option::None => {
                return Err(PsiError::FormatError);
            },
        };
        let d_len: usize = digits.len();
        if d_len == 26 {
            if digits[25] % 4 != 0 {
                return Err(PsiError::FormatError);
            }
            let g0: u64 = horner8(&digits, 0);
            let g1: u64 = horner8(&digits, 8);
            let g2: u64 = horner8(&digits, 16);
            let mut bytes: Vec<u8> = Vec::new();
            unpack40_push(&mut bytes, g0);
            unpack40_push(&mut bytes, g1);
            unpack40_push(&mut bytes, g2);
            bytes.push(digits[24] * 8 + digits[25] / 4);
            proof {
                assert(bytes@ =~= spec_bytes_of_26(digits@));
            }
            let id = Rvuid::new(bytes, false);
            proof {
                assert(id@ == spec_decode(s@)->Some_0);
            }
            Ok(id)
        } else if d_len == 8 {
            let g0: u64 = horner8(&digits, 0);
            let mut bytes: Vec<u8> = Vec::new();
            unpack40_push(&mut bytes, g0);
            let mut z: usize = 0;
            while z < 11
                invariant
                    z <= 11,
                    bytes@.len() == 5 + z,
                    bytes@.subrange(0, 5) == spec_unpack40(g0),
                    forall|k: int| 5 <= k < bytes@.len() ==> bytes@[k] == 0,
                decreases 11 - z,
            {
                bytes.push(0);
                assert(bytes@.subrange(0, 5) =~= spec_unpack40(g0));
                z = z + 1;
            }
            proof {
                assert(digits@.subrange(0, 8) =~= digits@);
                assert(bytes@ =~= spec_bytes_of_8(digits@));
            }
            let id = Rvuid::new(bytes, true);
            proof {
                assert(id@.bytes =~= spec_bytes_of_8(digits@));
                assert(id@ == spec_decode(s@)->Some_0);
            }
            Ok(id)
        } else {
            Err(PsiError::FormatError)
        }
    }
}

proof fn lemma_group_syms_scan(g: u64, a: int, b: int)
    requires
        0 <= a <= b <= 8,
    ensures
        spec_scan_digits(spec_group_syms(g).subrange(a, b)) == Some(
            spec_group_digits(g).subrange(a, b),
        ),
{
    let t = spec_group_syms(g).subrange(a, b);
    assert forall|i: int| 0 <= i < t.len() implies spec_sym_val(t[i]) is Some by {
        lemma_sym_roundtrip(spec_digit40(g, 7 - (a + i)) as int);
    }
    lemma_scan_syms(t);
    assert forall|i: int| 0 <= i < t.len() implies spec_sym_val(t[i])->Some_0
        == spec_group_digits(g).subrange(a, b)[i] by {
        lemma_sym_roundtrip(spec_digit40(g, 7 - (a + i)) as int);
    }
    assert(t.map_values(|c: char| spec_sym_val(c)->Some_0) =~= spec_group_digits(g).subrange(
        a,
        b,
    ));
}

proof fn lemma_tail_syms_scan(b: u8)
    ensures
        spec_scan_digits(spec_tail_syms(b)) == Some(spec_tail_digits(b)),
{
    let t = spec_tail_syms(b);
    assert forall|i: int| 0 <= i < t.len() implies spec_sym_val(t[i]) is Some by {
        lemma_sym_roundtrip((b / 8) as int);
        lemma_sym_roundtrip(((b % 8) * 4) as int);
    }
    lemma_scan_syms(t);
    lemma_sym_roundtrip((b / 8) as int);
    lemma_sym_roundtrip(((b % 8) * 4) as int);
    assert(t.map_values(|c: char| spec_sym_val(c)->Some_0) =~= spec_tail_digits(b));
}

proof fn lemma_dash_scan()
    ensures
        spec_scan_digits(seq!['-']) == Some(Seq::<u8>::empty()),
{
    let t: Seq<char> = seq!['-'];
    assert(spec_scan_digits(Seq::<char>::empty()) == Some(Seq::<u8>::empty()));
    assert(t.drop_last() =~= Seq::<char>::empty());
    assert(t.last() == '-');
}

/// The display text begins with exactly one marker pair; what follows it
/// holds no further marker, so stripping removes just those two
/// characters.
proof fn lemma_strip_display(b: Seq<u8>, partial: bool)
    requires
        b.len() == 16,
    ensures
        spec_display_of(b, partial).len() >= 2,
        spec_display_of(b, partial)[0] == 'R',
        spec_display_of(b, partial)[1] == '-',
        spec_strip_markers(spec_display_of(b, partial)) == spec_display_of(b, partial).skip(2),
{
    let s = spec_display_of(b, partial);
    let g0: u64 = spec_pack40(b.subrange(0, 5)) as u64;
    let u = s.skip(2);
    assert(u[0] == spec_syms_full(b).subrange(0, 4)[0]);
    assert(u[0] == spec_group_syms(g0)[0]);
    lemma_sym_roundtrip(spec_digit40(g0, 7) as int);
    lemma_sym_val_inverse(u[0]);
    if u.len() >= 2 && u[0] == 'R' && u[1] == '-' {
        assert(u[1] == spec_group_syms(g0)[1]);
        lemma_sym_roundtrip(spec_digit40(g0, 6) as int);
        lemma_sym_val_inverse(u[1]);
        assert(false);
    }
    assert(spec_strip_markers(s) == spec_strip_markers(u));
}

/// The symbol part of a partial display scans to the eight digits of the
/// 40-bit prefix group.
proof fn lemma_scan_display_partial(b: Seq<u8>)
    requires
        b.len() == 16,
    ensures
        spec_scan_digits(spec_display_of(b, true).skip(2)) == Some(
            spec_group_digits(spec_pack40(b.subrange(0, 5)) as u64),
        ),
{
    let g0: u64 = spec_pack40(b.subrange(0, 5)) as u64;
    let full = spec_syms_full(b);
    let s04 = full.subrange(0, 4);
    let s48 = full.subrange(4, 8);
    assert(s04 =~= spec_group_syms(g0).subrange(0, 4));
    assert(s48 =~= spec_group_syms(g0).subrange(4, 8));
    let dash: Seq<char> = seq!['-'];
    lemma_dash_scan();
    lemma_group_syms_scan(g0, 0, 4);
    lemma_group_syms_scan(g0, 4, 8);
    let d04 = spec_group_digits(g0).subrange(0, 4);
    let d48 = spec_group_digits(g0).subrange(4, 8);
    lemma_scan_append(s04, dash, d04, Seq::empty());
    lemma_scan_append(s04 + dash, s48, d04 + Seq::empty(), d48);
    assert(d04 + Seq::<u8>::empty() + d48 =~= spec_group_digits(g0));
    assert(spec_display_of(b, true).skip(2) =~= s04 + dash + s48);
}

/// The symbol part of a full display scans to all 26 digits.
proof fn lemma_scan_display_full(b: Seq<u8>)
    requires
        b.len() == 16,
    ensures
        spec_scan_digits(spec_display_of(b, false).skip(2)) == Some(
            spec_group_digits(spec_pack40(b.subrange(0, 5)) as u64) + spec_group_digits(
                spec_pack40(b.subrange(5, 10)) as u64,
            ) + spec_group_digits(spec_pack40(b.subrange(10, 15)) as u64) + spec_tail_digits(
                b[15],
            ),
        ),
{
    let g0: u64 = spec_pack40(b.subrange(0, 5)) as u64;
    let g1: u64 = spec_pack40(b.subrange(5, 10)) as u64;
    let g2: u64 = spec_pack40(b.subrange(10, 15)) as u64;
    let full = spec_syms_full(b);
    let s04 = full.subrange(0, 4);
    let s48 = full.subrange(4, 8);
    assert(s04 =~= spec_group_syms(g0).subrange(0, 4));
    assert(s48 =~= spec_group_syms(g0).subrange(4, 8));
    let dash: Seq<char> = seq!['-'];
    lemma_dash_scan();
    lemma_group_syms_scan(g0, 0, 4);
    lemma_group_syms_scan(g0, 4, 8);
    let d04 = spec_group_digits(g0).subrange(0, 4);
    let d48 = spec_group_digits(g0).subrange(4, 8);
    lemma_scan_append(s04, dash, d04, Seq::empty());
    lemma_scan_append(s04 + dash, s48, d04 + Seq::empty(), d48);
    assert(d04 + Seq::<u8>::empty() + d48 =~= spec_group_digits(g0));
    let p1 = s04 + dash + s48;
    let dg0 = spec_group_digits(g0);
    lemma_group_syms_scan(g1, 0, 8);
    lemma_group_syms_scan(g2, 0, 8);
    lemma_tail_syms_scan(b[15]);
    assert(spec_group_syms(g1).subrange(0, 8) =~= spec_group_syms(g1));
    assert(spec_group_syms(g2).subrange(0, 8) =~= spec_group_syms(g2));
    assert(spec_group_digits(g1).subrange(0, 8) =~= spec_group_digits(g1));
    assert(spec_group_digits(g2).subrange(0, 8) =~= spec_group_digits(g2));
    lemma_scan_append(p1, dash, dg0, Seq::empty());
    assert(dg0 + Seq::<u8>::empty() =~= dg0);
    lemma_scan_append(p1 + dash, spec_group_syms(g1), dg0, spec_group_digits(g1));
    lemma_scan_append(
        p1 + dash + spec_group_syms(g1),
        spec_group_syms(g2),
        dg0 + spec_group_digits(g1),
        spec_group_digits(g2),
    );
    lemma_scan_append(
        p1 + dash + spec_group_syms(g1) + spec_group_syms(g2),
        spec_tail_syms(b[15]),
        dg0 + spec_group_digits(g1) + spec_group_digits(g2),
        spec_tail_digits(b[15]),
    );
    assert(spec_display_of(b, false).skip(2) =~= p1 + dash + spec_group_syms(g1)
        + spec_group_syms(g2) + spec_tail_syms(b[15]));
}

/// Round trip: decoding the display text of a well-formed identifier
/// yields back exactly the identifier's value — its bytes and its
/// partial flag — so for full identifiers `decode(encode(i)) == i` under
/// exact 128-bit equality.
#[verifier::rlimit(50)]
pub proof fn lemma_decode_encode_roundtrip(id: Rvuid)
    requires
        id.wf(),
    ensures
        spec_decode(id.spec_display()) == Some(id@),
{
    let b = id@.bytes;
    let partial = id@.partial;
    let s = id.spec_display();
    let g0: u64 = spec_pack40(b.subrange(0, 5)) as u64;
    let g1: u64 = spec_pack40(b.subrange(5, 10)) as u64;
    let g2: u64 = spec_pack40(b.subrange(10, 15)) as u64;
    lemma_unpack_pack40(b.subrange(0, 5));
    lemma_unpack_pack40(b.subrange(5, 10));
    lemma_unpack_pack40(b.subrange(10, 15));
    lemma_strip_display(b, partial);
    if partial {
        lemma_scan_display_partial(b);
        let d = spec_group_digits(g0);
        assert(d.len() == 8);
        lemma_group_digits_value(g0);
        assert(d.subrange(0, 8) =~= d);
        assert(spec_dec8(d) == g0);
        assert(spec_bytes_of_8(d) =~= b);
        assert(spec_decode(s)->Some_0 == id@);
    } else {
        lemma_scan_display_full(b);
        let d = spec_group_digits(g0) + spec_group_digits(g1) + spec_group_digits(g2)
            + spec_tail_digits(b[15]);
        assert(d.len() == 26);
        assert(d[25] == (b[15] % 8) * 4);
        assert(d[25] % 4 == 0);
        lemma_group_digits_value(g0);
        lemma_group_digits_value(g1);
        lemma_group_digits_value(g2);
        assert(d.subrange(0, 8) =~= spec_group_digits(g0));
        assert(d.subrange(8, 16) =~= spec_group_digits(g1));
        assert(d.subrange(16, 24) =~= spec_group_digits(g2));
        assert(d[24] == b[15] / 8);
        assert(d[24] * 8 + d[25] / 4 == b[15]);
        assert(spec_bytes_of_26(d) =~= b);
        assert(spec_decode(s)->Some_0 == id@);
    }
}

} // verus!

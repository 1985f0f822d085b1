//! USTAR header fields.
//!
//! The mathematical reading of a 512-byte tar header block (name field,
//! octal size field, zero end-of-archive block) together with the
//! executable routines that decode them.
use vstd::prelude::*;
use vstd::string::StringSliceAdditionalSpecFns;
use vstd::utf8::*;

verus! {

broadcast use vstd::seq_lib::group_seq_properties;

/// Size in bytes of a tar block (headers and padded file data).
pub const BLOCK: usize = 512;

/// Offset and length of the file name field in a header.
pub const NAME_START: usize = 0;
pub const NAME_END: usize = 100;

/// Offset and length of the octal size field in a header.
pub const SIZE_START: usize = 124;
pub const SIZE_END: usize = 136;

/// Every byte of `s` is zero.
pub open spec fn is_zero_block(s: Seq<u8>) -> bool {
    forall|i: int| 0 <= i < s.len() ==> s[i] == 0
}

/// `s` with its leading NUL bytes removed.
pub open spec fn trim_leading_nul(s: Seq<u8>) -> Seq<u8>
    decreases s.len(),
{
    if s.len() > 0 && s[0] == 0 {
        trim_leading_nul(s.drop_first())
    } else {
        s
    }
}

/// `s` with its trailing NUL bytes removed.
pub open spec fn trim_trailing_nul(s: Seq<u8>) -> Seq<u8>
    decreases s.len(),
{
    if s.len() > 0 && s.last() == 0 {
        trim_trailing_nul(s.drop_last())
    } else {
        s
    }
}

/// `s` with NUL bytes removed at both ends.
pub open spec fn trim_nul(s: Seq<u8>) -> Seq<u8> {
    trim_trailing_nul(trim_leading_nul(s))
}

/// A byte that ends the digits of the octal size field: NUL or space.
pub open spec fn ends_digits(b: u8) -> bool {
    b == 0 || b == 32
}

/// The digit bytes of a size field: its bytes up to the first NUL or space.
pub open spec fn octal_digits(f: Seq<u8>) -> Seq<u8>
    decreases f.len(),
{
    if f.len() == 0 || ends_digits(f[0]) {
        Seq::empty()
    } else {
        seq![f[0]] + octal_digits(f.drop_first())
    }
}

/// Each digit byte is at least `'0'`, so that subtracting `'0'` stays in range.
pub open spec fn digits_in_range(d: Seq<u8>) -> bool {
    forall|i: int| 0 <= i < d.len() ==> d[i] >= 48
}

/// The value of digit bytes read in base 8, each digit being the byte minus `'0'`.
pub open spec fn octal_value(d: Seq<u8>) -> nat
    decreases d.len(),
{
    if d.len() == 0 {
        0
    } else {
        octal_value(d.drop_last()) * 8 + ((d.last() - 48) as nat)
    }
}

/// An upper bound for the octal value of `n` digit bytes.
pub open spec fn octal_bound(n: nat) -> nat
    decreases n,
{
    if n == 0 {
        0
    } else {
        octal_bound((n - 1) as nat) * 8 + 207
    }
}

/// The name field of a header.
pub open spec fn name_field(h: Seq<u8>) -> Seq<u8> {
    h.subrange(NAME_START as int, NAME_END as int)
}

/// The size field of a header.
pub open spec fn size_field(h: Seq<u8>) -> Seq<u8> {
    h.subrange(SIZE_START as int, SIZE_END as int)
}

/// The header names its file with valid UTF-8.
pub open spec fn name_valid(h: Seq<u8>) -> bool {
    valid_utf8(name_field(h))
}

/// The header's size digits are all decodable.
pub open spec fn size_valid(h: Seq<u8>) -> bool {
    digits_in_range(octal_digits(size_field(h)))
}

/// The file size a header declares.
pub open spec fn header_size(h: Seq<u8>) -> nat {
    octal_value(octal_digits(size_field(h)))
}

/// The file name a header declares, as bytes: the name field without NUL padding.
pub open spec fn header_name(h: Seq<u8>) -> Seq<u8> {
    trim_nul(name_field(h))
}

/// `n` rounded up to a whole number of blocks.
pub open spec fn round_up_block(n: int) -> int {
    ((n + 511) / 512) * 512
}

proof fn lemma_trim_leading(s: Seq<u8>, a: int)
    requires
        0 <= a <= s.len(),
        forall|i: int| 0 <= i < a ==> s[i] == 0,
        a == s.len() || s[a] != 0,
    ensures
        trim_leading_nul(s) == s.subrange(a, s.len() as int),
    decreases a,
{
    if a == 0 {
        assert(s.subrange(0, s.len() as int) =~= s);
    } else {
        let t = s.drop_first();
        lemma_trim_leading(t, a - 1);
        assert(t.subrange(a - 1, t.len() as int) =~= s.subrange(a, s.len() as int));
    }
}

proof fn lemma_trim_trailing(s: Seq<u8>, b: int)
    requires
        0 <= b <= s.len(),
        forall|i: int| b <= i < s.len() ==> s[i] == 0,
        b == 0 || s[b - 1] != 0,
    ensures
        trim_trailing_nul(s) == s.subrange(0, b),
    decreases s.len() - b,
{
    if b == s.len() {
        assert(s.subrange(0, b) =~= s);
    } else {
        let t = s.drop_last();
        lemma_trim_trailing(t, b);
        assert(t.subrange(0, b) =~= s.subrange(0, b));
    }
}

proof fn lemma_zeros_valid_utf8(z: Seq<u8>)
    requires
        is_zero_block(z),
    ensures
        valid_utf8(z),
{
    assert(z.subrange(0, 0) =~= Seq::<u8>::empty());
    assert(partial_valid_utf8(z, 0));
    partial_valid_utf8_extend_ascii_block(z, 0, z.len() as int);
    assert(z.subrange(0, z.len() as int) =~= z);
}

/// Removing NUL bytes at both ends keeps a byte sequence valid UTF-8, and
/// leaves it invalid where it was invalid.
proof fn lemma_trim_valid_utf8(f: Seq<u8>, a: int, b: int)
    requires
        0 <= a <= b <= f.len(),
        forall|i: int| 0 <= i < a ==> f[i] == 0,
        forall|i: int| b <= i < f.len() ==> f[i] == 0,
    ensures
        valid_utf8(f) <==> valid_utf8(f.subrange(a, b)),
{
    let head = f.subrange(0, a);
    let mid = f.subrange(a, b);
    let tail = f.subrange(b, f.len() as int);
    let g = f.subrange(a, f.len() as int);
    lemma_zeros_valid_utf8(head);
    lemma_zeros_valid_utf8(tail);
    if valid_utf8(mid) {
        valid_utf8_concat(mid, tail);
        assert(mid + tail =~= g);
        valid_utf8_concat(head, g);
        assert(head + g =~= f);
    }
    if valid_utf8(f) {
        assert(f.subrange(0, a) =~= head);
        if !valid_utf8(g) {
            partial_valid_partial_invalid_utf8(f, a);
        }
        assert(valid_utf8(g));
        let k = b - a;
        if k < g.len() {
            assert(g[k] == 0);
            is_char_boundary_iff_not_is_continuation_byte(g, k);
        } else {
            is_char_boundary_start_end_of_seq(g);
        }
        valid_utf8_split(g, k);
        assert(g.subrange(0, k) =~= mid);
    }
}

proof fn lemma_digits_split(f: Seq<u8>, i: int)
    requires
        0 <= i <= f.len(),
        forall|j: int| 0 <= j < i ==> !ends_digits(f[j]),
    ensures
        octal_digits(f) == f.subrange(0, i) + octal_digits(f.subrange(i, f.len() as int)),
    decreases i,
{
    if i == 0 {
        assert(f.subrange(0, 0) + octal_digits(f) =~= octal_digits(f));
        assert(f.subrange(0, f.len() as int) =~= f);
    } else {
        let t = f.drop_first();
        lemma_digits_split(t, i - 1);
        assert(t.subrange(i - 1, t.len() as int) =~= f.subrange(i, f.len() as int));
        assert(seq![f[0]] + t.subrange(0, i - 1) =~= f.subrange(0, i));
    }
}

proof fn lemma_octal_bound_mono(m: nat, n: nat)
    requires
        m <= n,
    ensures
        octal_bound(m) <= octal_bound(n),
    decreases n,
{
    if m < n {
        lemma_octal_bound_mono(m, (n - 1) as nat);
    }
}

proof fn lemma_octal_bound_12()
    ensures
        octal_bound(12) < 0x1_0000_0000_0000,
{
    reveal_with_fuel(octal_bound, 13);
}

/// Whether the block `h` is made only of zero bytes.
pub fn is_zero(h: &[u8]) -> (r: bool)
    ensures
        r == is_zero_block(h@),
{
    let mut i: usize = 0;
    while i < h.len()
        invariant
            i <= h@.len(),
            forall|j: int| 0 <= j < i ==> h@[j] == 0,
        decreases h@.len() - i,
    {
        if h[i] != 0 {
            return false;
        }
        i = i + 1;
    }
    true
}

/// The bounds `(a, b)` of the name without its NUL padding: `field[a..b]`.
pub fn trimmed_bounds(field: &[u8]) -> (r: (usize, usize))
    ensures
        r.0 <= r.1 <= field@.len(),
        field@.subrange(r.0 as int, r.1 as int) == trim_nul(field@),
        forall|i: int| 0 <= i < r.0 ==> field@[i] == 0,
        forall|i: int| r.1 <= i < field@.len() ==> field@[i] == 0,
{
    let mut a: usize = 0;
    while a < field.len() && field[a] == 0
        invariant
            a <= field@.len(),
            forall|i: int| 0 <= i < a ==> field@[i] == 0,
        decreases field@.len() - a,
    {
        a = a + 1;
    }
    let mut b: usize = field.len();
    while b > a && field[b - 1] == 0
        invariant
            a <= b <= field@.len(),
            forall|i: int| b <= i < field@.len() ==> field@[i] == 0,
        decreases b,
    {
        b = b - 1;
    }
    proof {
        lemma_trim_leading(field@, a as int);
        let g = field@.subrange(a as int, field@.len() as int);
        assert forall|i: int| (b - a) <= i < g.len() implies g[i] == 0 by {
            assert(g[i] == field@[a + i]);
        }
        if b > a {
            assert(g[b - a - 1] == field@[b - 1]);
        }
        lemma_trim_trailing(g, (b - a) as int);
        assert(g.subrange(0, (b - a) as int) =~= field@.subrange(a as int, b as int));
    }
    (a, b)
}

/// Decodes the octal size field `f`; `None` when a digit byte lies below `'0'`.
pub fn parse_size(f: &[u8]) -> (r: Option<u64>)
    requires
        f@.len() == SIZE_END - SIZE_START,
    ensures
        r is Some <==> digits_in_range(octal_digits(f@)),
        r matches Some(v) ==> v == octal_value(octal_digits(f@)),
        r matches Some(v) ==> v < 0x1_0000_0000_0000,
{
    let mut value: u64 = 0;
    let mut i: usize = 0;
    while i < f.len()
        invariant_except_break
            i <= f@.len(),
            f@.len() == 12,
            forall|j: int| 0 <= j < i ==> !ends_digits(f@[j]),
            digits_in_range(f@.subrange(0, i as int)),
            value == octal_value(f@.subrange(0, i as int)),
            value <= octal_bound(i as nat),
        ensures
            i <= f@.len(),
            forall|j: int| 0 <= j < i ==> !ends_digits(f@[j]),
            i == f@.len() || ends_digits(f@[i as int]),
            digits_in_range(f@.subrange(0, i as int)),
            value == octal_value(f@.subrange(0, i as int)),
            value <= octal_bound(i as nat),
        decreases f@.len() - i,
    {
        let byte = f[i];
        if byte == 0 || byte == 32 {
            break;
        }
        proof {
            lemma_octal_bound_mono((i + 1) as nat, 12);
            lemma_octal_bound_12();
        }
        if byte < 48 {
            proof {
                lemma_digits_split(f@, i as int);
                let rest = f@.subrange(i as int, f@.len() as int);
                assert(octal_digits(rest)[0] == byte);
                assert(octal_digits(f@)[i as int] == byte);
            }
            return None;
        }
        proof {
            let p = f@.subrange(0, i as int + 1);
            assert(p.drop_last() =~= f@.subrange(0, i as int));
            assert(p.last() == byte);
        }
        value = value * 8 + (byte - 48) as u64;
        i = i + 1;
    }
    proof {
        lemma_digits_split(f@, i as int);
        assert(octal_digits(f@.subrange(i as int, f@.len() as int)) =~= Seq::<u8>::empty());
        assert(octal_digits(f@) =~= f@.subrange(0, i as int));
        lemma_octal_bound_mono(i as nat, 12);
        lemma_octal_bound_12();
    }
    Some(value)
}

/// Decodes a name field whose NUL padding is removed; `None` when the field
/// is not valid UTF-8.
pub fn parse_name(field: &[u8]) -> (r: Option<&str>)
    ensures
        r is Some <==> valid_utf8(field@),
        r matches Some(s) ==> s.spec_bytes() == trim_nul(field@),
{
    let (a, b) = trimmed_bounds(field);
    proof {
        lemma_trim_valid_utf8(field@, a as int, b as int);
    }
    str_from_utf8(&field[a..b])
}

/// Reads `bytes` as UTF-8 through `core::str::from_utf8`.
///
/// Trusted: `from_utf8` succeeds exactly on valid UTF-8 and the string it
/// returns is made of the given bytes, as its documentation states.
#[verifier::external_body]
fn str_from_utf8(bytes: &[u8]) -> (r: Option<&str>)
    ensures
        r is Some <==> valid_utf8(bytes@),
        r matches Some(s) ==> s.spec_bytes() == bytes@,
{
    core::str::from_utf8(bytes).ok()
}

/// Compares two strings byte by byte.
pub fn str_equal(a: &str, b: &str) -> (r: bool)
    ensures
        r == (a.spec_bytes() == b.spec_bytes()),
{
    let x = a.as_bytes();
    let y = b.as_bytes();
    if x.len() != y.len() {
        proof {
            assert(x@.len() != y@.len());
        }
        return false;
    }
    let mut i: usize = 0;
    while i < x.len()
        invariant
            x@ == a.spec_bytes(),
            y@ == b.spec_bytes(),
            x@.len() == y@.len(),
            i <= x@.len(),
            forall|j: int| 0 <= j < i ==> x@[j] == y@[j],
        decreases x@.len() - i,
    {
        if x[i] != y[i] {
            proof {
                assert(x@[i as int] != y@[i as int]);
            }
            return false;
        }
        i = i + 1;
    }
    proof {
        assert(x@ =~= y@);
    }
    true
}

/// Size digits are read in base 8, most significant first: one digit is
/// its own value (the byte minus `'0'`), and the digits `a` followed by
/// `b` are worth `a` shifted left by three bits per digit of `b`, plus `b`.
pub proof fn lemma_octal_positional(a: Seq<u8>, b: Seq<u8>, d: u8)
    requires
        d >= 48,
    ensures
        octal_value(seq![d]) == d - 48,
        octal_value(a + b) == octal_value(a) * vstd::arithmetic::power::pow(8, b.len()) + octal_value(b),
    decreases b.len(),
{
    assert(seq![d].drop_last() =~= Seq::<u8>::empty());
    assert(seq![d].last() == d);
    assert(octal_value(Seq::<u8>::empty()) == 0);
    vstd::arithmetic::power::lemma_pow0(8);
    if b.len() == 0 {
        assert(a + b =~= a);
    } else {
        lemma_octal_positional(a, b.drop_last(), d);
        assert((a + b).drop_last() =~= a + b.drop_last());
        assert((a + b).last() == b.last());
        vstd::arithmetic::power::lemma_pow_adds(8, (b.len() - 1) as nat, 1);
        vstd::arithmetic::power::lemma_pow1(8);
        let p = vstd::arithmetic::power::pow(8, (b.len() - 1) as nat);
        let x = octal_value(a);
        assert(x * (p * 8) == (x * p) * 8) by (nonlinear_arith);
    }
}

} // verus!

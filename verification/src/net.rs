//! IPv4 addresses as the standard library reads and writes them, and the
//! subnet arithmetic of masks, networks and broadcasts.
use vstd::prelude::*;

use crate::error::{cat3, outcome, PtError};
use crate::text::{
    chars_of, digit, int_str, nat_chars, nat_str, push_all, single, split_chars, split_on,
    string_of, trim, trimmed,
};

verus! {

pub open spec fn is_digit(c: char) -> bool {
    48 <= (c as u32) <= 57
}

/// The number the decimal digits `s` write.
pub open spec fn digits_value(s: Seq<char>) -> nat
    decreases s.len(),
{
    if s.len() == 0 {
        0
    } else {
        digits_value(s.drop_last()) * 10 + ((s.last() as u32) - 48) as nat
    }
}

/// One dotted-quad part: one to three digits, no leading zero, at most 255.
pub open spec fn octet(s: Seq<char>) -> Option<nat> {
    if 1 <= s.len() <= 3 && (forall|i: int| 0 <= i < s.len() ==> is_digit(s[i])) && !(s.len() > 1
        && s[0] == '0') && digits_value(s) <= 255 {
        Some(digits_value(s))
    } else {
        None
    }
}

/// The address a dotted quad writes, as `Ipv4Addr`'s parser reads it: four
/// octets separated by dots and nothing else.
pub open spec fn ipv4_of(s: Seq<char>) -> Option<u32> {
    let parts = split_on(s, '.');
    if parts.len() == 4 && octet(parts[0]) is Some && octet(parts[1]) is Some && octet(
        parts[2],
    ) is Some && octet(parts[3]) is Some {
        Some(
            (octet(parts[0])->0 * 16777216 + octet(parts[1])->0 * 65536 + octet(parts[2])->0 * 256
                + octet(parts[3])->0) as u32,
        )
    } else {
        None
    }
}

/// The dotted quad of an address (`Display` for `Ipv4Addr`).
pub open spec fn ipv4_str(a: u32) -> Seq<char> {
    nat_str((a / 16777216) as nat) + seq!['.'] + nat_str(((a / 65536) % 256) as nat) + seq!['.']
        + nat_str(((a / 256) % 256) as nat) + seq!['.'] + nat_str((a % 256) as nat)
}

fn octet_value(s: &[char]) -> (r: Option<u32>)
    ensures
        r matches Some(v) ==> octet(s@) == Some(v as nat),
        r is None ==> octet(s@) is None,
{
    if s.len() < 1 || s.len() > 3 {
        return None;
    }
    if s.len() > 1 && s[0] == '0' {
        return None;
    }
    let mut v: u32 = 0;
    let mut i: usize = 0;
    while i < s.len()
        invariant
            1 <= s@.len() <= 3,
            i <= s@.len(),
            v as nat == digits_value(s@.take(i as int)),
            v < (if i == 0 {
                1int
            } else if i == 1 {
                10
            } else if i == 2 {
                100
            } else {
                1000
            }),
            forall|j: int| 0 <= j < i ==> is_digit(s@[j]),
        decreases s.len() - i,
    {
        let c = s[i] as u32;
        if c < 48 || c > 57 {
            return None;
        }
        assert(s@.take(i + 1).drop_last() =~= s@.take(i as int));
        v = v * 10 + (c - 48);
        i += 1;
    }
    assert(s@.take(i as int) =~= s@);
    if v > 255 {
        return None;
    }
    Some(v)
}

/// Reads a dotted-quad IPv4 address.
pub fn parse_ipv4(s: &str) -> (r: Option<u32>)
    ensures
        r == ipv4_of(s@),
{
    let chars = chars_of(s);
    let parts = split_chars(&chars, '.');
    let ghost views = parts@.map_values(|p: Vec<char>| p@);
    if parts.len() != 4 {
        return None;
    }
    assert(views[0] == parts@[0]@ && views[1] == parts@[1]@ && views[2] == parts@[2]@ && views[3]
        == parts@[3]@);
    let a = match octet_value(&parts[0]) {
        Some(v) => v,
        None => return None,
    };
    let b = match octet_value(&parts[1]) {
        Some(v) => v,
        None => return None,
    };
    let c = match octet_value(&parts[2]) {
        Some(v) => v,
        None => return None,
    };
    let d = match octet_value(&parts[3]) {
        Some(v) => v,
        None => return None,
    };
    Some(a * 16777216 + b * 65536 + c * 256 + d)
}

/// The dotted quad of an address.
pub fn ipv4_text(a: u32) -> (s: String)
    ensures
        s@ == ipv4_str(a),
{
    let mut v = nat_chars((a / 16777216) as u64);
    v.push('.');
    push_all(&mut v, &nat_chars(((a / 65536) % 256) as u64));
    v.push('.');
    push_all(&mut v, &nat_chars(((a / 256) % 256) as u64));
    v.push('.');
    push_all(&mut v, &nat_chars((a % 256) as u64));
    string_of(&v)
}

/// The address a request gives for `field`, read after trimming; the error
/// names the field and quotes the text as given.
pub open spec fn read_address(field: Seq<char>, text: Seq<char>) -> Result<u32, Seq<char>> {
    match ipv4_of(trim(text)) {
        Some(a) => Ok(a),
        None => Err(field + " `"@ + text + "` is not an IPv4 address"@),
    }
}

/// An optional address of a request: none stays none.
pub open spec fn read_optional(field: Seq<char>, text: Option<Seq<char>>) -> Result<
    Option<u32>,
    Seq<char>,
> {
    match text {
        None => Ok(None),
        Some(t) => match read_address(field, t) {
            Ok(a) => Ok(Some(a)),
            Err(m) => Err(m),
        },
    }
}

/// Reads the address a request gives for `field`.
pub fn parse_field(field: &str, text: &str) -> (r: Result<u32, PtError>)
    ensures
        outcome(r, read_address(field@, text@)),
{
    let t = string_of(&trimmed(&chars_of(text)));
    match parse_ipv4(t.as_str()) {
        Some(a) => Ok(a),
        None => {
            let mut m = cat3(field, " `", text);
            m.append("` is not an IPv4 address");
            Err(PtError::InvalidInput(m))
        },
    }
}

/// 2 to the power `e`.
pub open spec fn two_pow(e: nat) -> nat
    decreases e,
{
    if e == 0 {
        1
    } else {
        2 * two_pow((e - 1) as nat)
    }
}

/// The subnet mask with `n` leading ones.
pub open spec fn mask_of(n: nat) -> int {
    4294967296 - two_pow((32 - n) as nat)
}

/// The prefix length of a mask, searching lengths from `n` up.
pub open spec fn prefix_from(mask: u32, n: nat) -> Option<nat>
    decreases 33 - n,
{
    if n > 32 {
        None
    } else if mask as int == mask_of(n) {
        Some(n)
    } else {
        prefix_from(mask, n + 1)
    }
}

/// The prefix length of a mask: the `n` with `n` leading ones and zeros after
/// them, or none for a mask with a hole.
pub open spec fn prefix_of(mask: u32) -> Option<nat> {
    prefix_from(mask, 0)
}

/// The prefix length of a subnet mask.
pub fn prefix_length(mask: u32) -> (r: Option<u32>)
    ensures
        r matches Some(n) ==> prefix_of(mask) == Some(n as nat),
        r is None ==> prefix_of(mask) is None,
        r matches Some(n) ==> n <= 32 && mask as int == shifted_mask(n as nat),
        r is None ==> forall|n: nat| n <= 32 ==> mask as int != #[trigger] shifted_mask(n),
{
    let r = prefix_search(mask);
    proof {
        if let Some(n) = r {
            lemma_prefix_is_leading_ones(mask, n as nat);
        } else {
            assert forall|n: nat| n <= 32 implies mask as int != #[trigger] shifted_mask(n) by {
                lemma_prefix_is_leading_ones(mask, n);
            }
        }
    }
    r
}

fn prefix_search(mask: u32) -> (r: Option<u32>)
    ensures
        r matches Some(n) ==> prefix_of(mask) == Some(n as nat),
        r is None ==> prefix_of(mask) is None,
{
    let mut n: u32 = 0;
    let mut p: u64 = 4294967296;
    assert(two_pow(32) == 4294967296) by {
        reveal_with_fuel(two_pow, 33);
    }
    while n <= 32
        invariant
            n <= 33,
            p <= 4294967296,
            n <= 32 ==> p as nat == two_pow((32 - n) as nat),
            prefix_of(mask) == prefix_from(mask, n as nat),
        decreases 33 - n,
    {
        if mask as u64 == 4294967296 - p {
            return Some(n);
        }
        if n < 32 {
            assert(two_pow((32 - n) as nat) == 2 * two_pow((32 - (n + 1)) as nat));
        }
        p = p / 2;
        n += 1;
    }
    None
}

/// The network address of `ip` under `mask`.
pub open spec fn network(ip: u32, mask: u32) -> u32 {
    ip & mask
}

/// The broadcast address of `ip` under `mask`.
pub open spec fn broadcast(ip: u32, mask: u32) -> u32 {
    ip | !mask
}

pub fn network_of(ip: u32, mask: u32) -> (r: u32)
    ensures
        r == network(ip, mask),
{
    ip & mask
}

pub fn broadcast_of(ip: u32, mask: u32) -> (r: u32)
    ensures
        r == broadcast(ip, mask),
{
    ip | !mask
}

/// `network/prefix` in the usual notation.
pub open spec fn subnet_str(network: u32, prefix: nat) -> Seq<char> {
    ipv4_str(network) + seq!['/'] + nat_str(prefix)
}

/// `network/prefix` in the usual notation.
pub fn subnet_text(network: u32, prefix: u32) -> (s: String)
    ensures
        s@ == subnet_str(network, prefix as nat),
{
    let mut v = chars_of(ipv4_text(network).as_str());
    v.push('/');
    push_all(&mut v, &nat_chars(prefix as u64));
    string_of(&v)
}

/// The decimal notation of a number: digits only, worth the number, without
/// a leading zero, and at most three digits below 1000.
pub proof fn lemma_nat_str(n: nat)
    ensures
        nat_str(n).len() >= 1,
        forall|i: int| 0 <= i < nat_str(n).len() ==> is_digit(#[trigger] nat_str(n)[i]),
        digits_value(nat_str(n)) == n,
        n > 0 ==> nat_str(n)[0] != '0',
        n < 10 ==> nat_str(n).len() == 1,
        n < 100 ==> nat_str(n).len() <= 2,
        n < 1000 ==> nat_str(n).len() <= 3,
    decreases n,
{
    if n < 10 {
        assert(nat_str(n) == seq![digit(n)]);
        assert(digit(n) as u32 == n + 48);
        assert(nat_str(n).drop_last() =~= Seq::<char>::empty());
        assert(digits_value(nat_str(n)) == digits_value(nat_str(n).drop_last()) * 10 + ((
        nat_str(n).last() as u32) - 48) as nat);
    } else {
        lemma_nat_str(n / 10);
        let t = nat_str(n / 10);
        let d = n % 10;
        assert(nat_str(n) == t.push(digit(d)));
        assert(digit(d) as u32 == d + 48);
        assert(t.push(digit(d)).drop_last() =~= t);
        assert(forall|i: int| 0 <= i < t.len() ==> t.push(digit(d))[i] == t[i]);
        assert(digits_value(nat_str(n)) == digits_value(t) * 10 + d);
        assert((n / 10) * 10 + d == n);
    }
}

/// Cutting `x`, a separator and `y` at that separator gives `x` first when
/// `x` holds none.
pub proof fn lemma_split_first(x: Seq<char>, sep: char, y: Seq<char>)
    requires
        forall|i: int| 0 <= i < x.len() ==> x[i] != sep,
    ensures
        split_on(x + seq![sep] + y, sep) == seq![x] + split_on(y, sep),
{
    let s = x + seq![sep] + y;
    lemma_find_at(s, sep, x.len() as int, 0);
    assert(s.take(x.len() as int) =~= x);
    assert(s.skip(x.len() as int + 1) =~= y);
}

/// A text without the separator is one piece.
pub proof fn lemma_split_none(x: Seq<char>, sep: char)
    requires
        forall|i: int| 0 <= i < x.len() ==> x[i] != sep,
    ensures
        split_on(x, sep) == seq![x],
{
    lemma_find_absent(x, sep, 0);
}

proof fn lemma_find_at(s: Seq<char>, c: char, k: int, i: int)
    requires
        0 <= i <= k < s.len(),
        s[k] == c,
        forall|j: int| 0 <= j < k ==> s[j] != c,
    ensures
        crate::text::find_from(s, seq![c], i) == Some(k),
    decreases k - i,
{
    if i < k {
        assert(s.subrange(i, i + 1)[0] == s[i]);
        assert(!crate::text::occurs_at(s, seq![c], i));
        lemma_find_at(s, c, k, i + 1);
    } else {
        assert(s.subrange(k, k + 1) =~= seq![c]);
    }
}

proof fn lemma_find_absent(s: Seq<char>, c: char, i: int)
    requires
        0 <= i,
        forall|j: int| 0 <= j < s.len() ==> s[j] != c,
    ensures
        crate::text::find_from(s, seq![c], i) is None,
    decreases s.len() + 1 - i,
{
    if i + 1 <= s.len() {
        assert(s.subrange(i, i + 1)[0] == s[i]);
        assert(!crate::text::occurs_at(s, seq![c], i));
        lemma_find_absent(s, c, i + 1);
    }
}

/// Every number up to 255 is read back from its decimal notation.
pub proof fn lemma_octet_round_trip(n: nat)
    requires
        n <= 255,
    ensures
        octet(nat_str(n)) == Some(n),
{
    lemma_nat_str(n);
}

/// Reading the dotted quad of an address gives the address back.
pub proof fn lemma_ipv4_round_trip(a: u32)
    ensures
        ipv4_of(ipv4_str(a)) == Some(a),
{
    let p0 = nat_str((a / 16777216) as nat);
    let p1 = nat_str(((a / 65536) % 256) as nat);
    let p2 = nat_str(((a / 256) % 256) as nat);
    let p3 = nat_str((a % 256) as nat);
    lemma_nat_str((a / 16777216) as nat);
    lemma_nat_str(((a / 65536) % 256) as nat);
    lemma_nat_str(((a / 256) % 256) as nat);
    lemma_nat_str((a % 256) as nat);
    assert(forall|i: int| 0 <= i < p0.len() ==> p0[i] != '.');
    assert(forall|i: int| 0 <= i < p1.len() ==> p1[i] != '.');
    assert(forall|i: int| 0 <= i < p2.len() ==> p2[i] != '.');
    assert(forall|i: int| 0 <= i < p3.len() ==> p3[i] != '.');
    let rest2 = p2 + seq!['.'] + p3;
    let rest1 = p1 + seq!['.'] + rest2;
    assert(ipv4_str(a) =~= p0 + seq!['.'] + rest1);
    lemma_split_first(p0, '.', rest1);
    lemma_split_first(p1, '.', rest2);
    lemma_split_first(p2, '.', p3);
    lemma_split_none(p3, '.');
    let parts = split_on(ipv4_str(a), '.');
    assert(parts =~= seq![p0, p1, p2, p3]);
    assert(a / 16777216 <= 255) by (nonlinear_arith);
    lemma_octet_round_trip((a / 16777216) as nat);
    lemma_octet_round_trip(((a / 65536) % 256) as nat);
    lemma_octet_round_trip(((a / 256) % 256) as nat);
    lemma_octet_round_trip((a % 256) as nat);
    assert((a / 16777216) * 16777216 + ((a / 65536) % 256) * 65536 + ((a / 256) % 256) * 256 + a
        % 256 == a) by (nonlinear_arith);
}

proof fn lemma_two_pow_grows(a: nat, b: nat)
    requires
        a < b,
    ensures
        1 <= two_pow(a) < two_pow(b),
    decreases b,
{
    if b == a + 1 {
        lemma_two_pow_positive(a);
    } else {
        lemma_two_pow_grows(a, (b - 1) as nat);
    }
}

proof fn lemma_two_pow_positive(a: nat)
    ensures
        two_pow(a) >= 1,
    decreases a,
{
    if a > 0 {
        lemma_two_pow_positive((a - 1) as nat);
    }
}

proof fn lemma_mask_range(n: nat)
    requires
        n <= 32,
    ensures
        0 <= mask_of(n) <= u32::MAX,
{
    lemma_two_pow_positive((32 - n) as nat);
    if n > 0 {
        lemma_two_pow_grows((32 - n) as nat, 32);
    }
    assert(two_pow(32) == 4294967296) by {
        reveal_with_fuel(two_pow, 33);
    }
}

proof fn lemma_prefix_search(n: nat, m: nat)
    requires
        m <= n <= 32,
    ensures
        prefix_from(mask_of(n) as u32, m) == Some(n),
    decreases n - m,
{
    lemma_mask_range(n);
    assert((mask_of(n) as u32) as int == mask_of(n));
    if m < n {
        lemma_two_pow_grows((32 - n) as nat, (32 - m) as nat);
        lemma_prefix_search(n, m + 1);
    }
}

proof fn lemma_prefix_from_found(mask: u32, m: nat)
    ensures
        prefix_from(mask, m) matches Some(n) ==> m <= n <= 32 && mask as int == mask_of(n),
    decreases 33 - m,
{
    if m <= 32 && mask as int != mask_of(m) {
        lemma_prefix_from_found(mask, m + 1);
    }
}

proof fn lemma_two_pow_shift(s: u64)
    requires
        s < 64,
    ensures
        two_pow(s as nat) == (1u64 << s) as nat,
    decreases s,
{
    if s == 0 {
        assert(1u64 << 0u64 == 1u64) by (bit_vector);
    } else {
        lemma_two_pow_shift((s - 1) as u64);
        let t: u64 = (s - 1) as u64;
        assert((1u64 << s) == 2 * (1u64 << t)) by (bit_vector)
            requires
                t < 63,
                s == t + 1,
        ;
    }
}

/// The mask of `n` leading ones, as a shift of all ones.
pub open spec fn shifted_mask(n: nat) -> int {
    if n == 0 {
        0
    } else {
        (u32::MAX << ((32 - n) as u32)) as int
    }
}

/// A mask has prefix length `n` exactly when it is all ones shifted left by
/// `32 - n` bits (zero for `n == 0`); a mask whose ones are not contiguous
/// from the top has none.
pub proof fn lemma_prefix_is_leading_ones(mask: u32, n: nat)
    ensures
        prefix_of(mask) == Some(n) <==> (n <= 32 && mask as int == shifted_mask(n)),
{
    lemma_prefix_from_found(mask, 0);
    if n <= 32 {
        lemma_mask_range(n);
        if n == 0 {
            assert(two_pow(32) == 4294967296) by {
                reveal_with_fuel(two_pow, 33);
            }
        } else {
            let s: u32 = (32 - n) as u32;
            lemma_two_pow_shift(s as u64);
            assert((u32::MAX << s) as int == 4294967296 - (1u64 << (s as u64)) as int) by (bit_vector)
                requires
                    s < 32,
            ;
        }
        assert(mask_of(n) == shifted_mask(n));
        if mask as int == mask_of(n) {
            lemma_prefix_of_mask(n);
            assert(mask == mask_of(n) as u32);
        }
    }
}

/// The mask of a prefix length reads back as that length.
pub proof fn lemma_prefix_of_mask(n: nat)
    requires
        n <= 32,
    ensures
        0 <= mask_of(n) <= u32::MAX,
        prefix_of(mask_of(n) as u32) == Some(n),
{
    lemma_mask_range(n);
    lemma_prefix_search(n, 0);
}

} // verus!

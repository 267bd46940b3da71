//! IPv6 addresses in text, read and written as the standard library's
//! `Ipv6Addr` does, and the IPv6 settings of a host's port.
use vstd::prelude::*;
use vstd::string::StringExecFns;

use crate::error::{cat3, PtError};
use crate::net::{digits_value, ipv4_of, ipv4_str, ipv4_text, is_digit, parse_ipv4};
use crate::text::{
    chars_of, find, find_chars, int_str, int_text, join, lemma_find, nat_str, occurs_at,
    slice_range, split_chars, split_on, string_of, trim, trim_text,
};
use crate::workspace::{hex_char, hex_char_of, hex_digit, hex_digits};

verus! {

broadcast use vstd::seq::Seq::lemma_push_map_commute;

/// A group of an address: one to four hexadecimal digits.
pub open spec fn hex_group(p: Seq<char>) -> Option<u16> {
    if 1 <= p.len() <= 4 && hex_digits(p) is Some {
        Some(hex_digits(p)->0 as u16)
    } else {
        None
    }
}

/// The pieces of a text between colons; an empty text has none.
pub open spec fn colon_pieces(t: Seq<char>) -> Seq<Seq<char>> {
    if t.len() == 0 {
        Seq::empty()
    } else {
        split_on(t, ':')
    }
}

/// Groups, every piece one.
pub open spec fn hex_groups(ps: Seq<Seq<char>>) -> Option<Seq<u16>>
    decreases ps.len(),
{
    if ps.len() == 0 {
        Some(Seq::empty())
    } else {
        match (hex_groups(ps.drop_last()), hex_group(ps.last())) {
            (Some(g), Some(v)) => Some(g.push(v)),
            _ => None,
        }
    }
}

/// Groups, every piece one, except that the last may be a dotted-quad IPv4
/// address standing for two groups when `v4_last` allows it.
pub open spec fn groups_of(ps: Seq<Seq<char>>, v4_last: bool) -> Option<Seq<u16>> {
    if ps.len() == 0 {
        Some(Seq::empty())
    } else {
        match hex_groups(ps.drop_last()) {
            None => None,
            Some(g) => match hex_group(ps.last()) {
                Some(v) => Some(g.push(v)),
                None => if v4_last {
                    match ipv4_of(ps.last()) {
                        Some(a) => Some(g.push((a / 65536) as u16).push((a % 65536) as u16)),
                        None => None,
                    }
                } else {
                    None
                },
            },
        }
    }
}

/// `n` zero groups.
pub open spec fn zero_groups(n: nat) -> Seq<u16> {
    Seq::new(n, |i: int| 0u16)
}

/// The eight groups an IPv6 text writes, as `Ipv6Addr`'s parser reads it:
/// eight groups between colons, the last two of which may be a dotted quad;
/// or fewer, with one `::` standing for at least one zero group, where only
/// the part after it may end in a dotted quad.
pub open spec fn ipv6_of(s: Seq<char>) -> Option<Seq<u16>> {
    match find(s, seq![':', ':']) {
        None => match groups_of(split_on(s, ':'), true) {
            Some(g) => if g.len() == 8 {
                Some(g)
            } else {
                None
            },
            None => None,
        },
        Some(k) => match (
            groups_of(colon_pieces(s.take(k)), false),
            groups_of(colon_pieces(s.skip(k + 2)), true),
        ) {
            (Some(h), Some(t)) => if h.len() + t.len() <= 7 {
                Some(h + zero_groups((8 - h.len() - t.len()) as nat) + t)
            } else {
                None
            },
            _ => None,
        },
    }
}

fn hex_group_value(p: &[char]) -> (r: Option<u16>)
    ensures
        r == hex_group(p@),
{
    if p.len() < 1 || p.len() > 4 {
        return None;
    }
    let mut v: u32 = 0;
    let mut i: usize = 0;
    while i < p.len()
        invariant
            1 <= p@.len() <= 4,
            i <= p@.len(),
            hex_digits(p@.take(i as int)) == Some(v as int),
            v < (if i == 0 {
                1int
            } else if i == 1 {
                16
            } else if i == 2 {
                256
            } else if i == 3 {
                4096
            } else {
                65536
            }),
        decreases p.len() - i,
    {
        assert(p@.take(i + 1).drop_last() =~= p@.take(i as int));
        assert(p@.take(i + 1).last() == p@[i as int]);
        let c = p[i] as u32;
        let d: u32 = if 48 <= c && c <= 57 {
            c - 48
        } else if 97 <= c && c <= 102 {
            c - 87
        } else if 65 <= c && c <= 70 {
            c - 55
        } else {
            proof {
                lemma_no_digits(p@, i as int + 1);
            }
            return None;
        };
        v = v * 16 + d;
        i += 1;
    }
    assert(p@.take(i as int) =~= p@);
    Some(v as u16)
}

proof fn lemma_no_digits(s: Seq<char>, k: int)
    requires
        0 < k <= s.len(),
        hex_digit(s[k - 1]) is None,
    ensures
        hex_digits(s) is None,
    decreases s.len(),
{
    if s.len() > k {
        lemma_no_digits(s.drop_last(), k);
    }
}

/// The texts of a list of character vectors.
pub open spec fn piece_views(ps: Seq<Vec<char>>) -> Seq<Seq<char>> {
    ps.map_values(|p: Vec<char>| p@)
}

fn hex_groups_value(ps: &Vec<Vec<char>>, n: usize) -> (r: Option<Vec<u16>>)
    requires
        n <= ps@.len(),
    ensures
        match hex_groups(piece_views(ps@).take(n as int)) {
            Some(g) => r matches Some(v) && v@ == g,
            None => r is None,
        },
{
    let mut out: Vec<u16> = Vec::new();
    let mut i: usize = 0;
    while i < n
        invariant
            i <= n <= ps@.len(),
            hex_groups(piece_views(ps@).take(i as int)) == Some(out@),
        decreases n - i,
    {
        let ghost pv = piece_views(ps@);
        assert(pv.take(i + 1).drop_last() =~= pv.take(i as int));
        assert(pv.take(i + 1).last() == ps@[i as int]@);
        match hex_group_value(&ps[i]) {
            Some(v) => {
                out.push(v);
            },
            None => {
                proof {
                    lemma_groups_miss(pv.take(n as int), i as int + 1);
                    assert(pv.take(n as int).take(i + 1) =~= pv.take(i + 1));
                }
                return None;
            },
        }
        i += 1;
    }
    Some(out)
}

proof fn lemma_groups_miss(ps: Seq<Seq<char>>, k: int)
    requires
        0 < k <= ps.len(),
        hex_groups(ps.take(k)) is None,
    ensures
        hex_groups(ps) is None,
    decreases ps.len(),
{
    if ps.len() > k {
        assert(ps.drop_last().take(k) =~= ps.take(k));
        lemma_groups_miss(ps.drop_last(), k);
    } else {
        assert(ps.take(k) =~= ps);
    }
}

fn groups_value(ps: &Vec<Vec<char>>, v4_last: bool) -> (r: Option<Vec<u16>>)
    ensures
        match groups_of(piece_views(ps@), v4_last) {
            Some(g) => r matches Some(v) && v@ == g,
            None => r is None,
        },
{
    let ghost pv = piece_views(ps@);
    if ps.len() == 0 {
        return Some(Vec::new());
    }
    let last = ps.len() - 1;
    assert(pv.take(last as int) =~= pv.drop_last());
    let mut out = match hex_groups_value(ps, last) {
        Some(g) => g,
        None => return None,
    };
    assert(pv.last() == ps@[last as int]@);
    match hex_group_value(&ps[last]) {
        Some(v) => {
            out.push(v);
            Some(out)
        },
        None => {
            if !v4_last {
                return None;
            }
            let text = string_of(&ps[last]);
            match parse_ipv4(text.as_str()) {
                Some(a) => {
                    out.push((a / 65536) as u16);
                    out.push((a % 65536) as u16);
                    Some(out)
                },
                None => None,
            }
        },
    }
}

fn pieces_value(t: &[char]) -> (r: Vec<Vec<char>>)
    ensures
        piece_views(r@) == colon_pieces(t@),
{
    if t.len() == 0 {
        let none: Vec<Vec<char>> = Vec::new();
        assert(piece_views(none@) =~= Seq::<Seq<char>>::empty());
        none
    } else {
        split_chars(t, ':')
    }
}

/// An address read from text has eight groups.
pub proof fn lemma_eight_groups(s: Seq<char>)
    ensures
        ipv6_of(s) matches Some(g) ==> g.len() == 8,
{
}

/// Reads an IPv6 address as `ipv6_of` describes it.
pub fn parse_ipv6(s: &str) -> (r: Option<Vec<u16>>)
    ensures
        match ipv6_of(s@) {
            Some(g) => r matches Some(v) && v@ == g,
            None => r is None,
        },
        r matches Some(v) ==> v@.len() == 8,
{
    let chars = chars_of(s);
    let pair = vec![':', ':'];
    assert(pair@ =~= seq![':', ':']);
    match find_chars(&chars, &pair) {
        None => {
            let ps = split_chars(&chars, ':');
            match groups_value(&ps, true) {
                Some(g) => {
                    if g.len() == 8 {
                        Some(g)
                    } else {
                        None
                    }
                },
                None => None,
            }
        },
        Some(k) => {
            proof {
                lemma_find(chars@, pair@);
                assert(occurs_at(chars@, pair@, k as int));
            }
            assert(k + 2 <= chars@.len());
            assert(chars@.len() == chars.len());
            let head_text = slice_range(&chars, 0, k);
            let tail_text = slice_range(&chars, k + 2, chars.len());
            assert(head_text@ =~= s@.take(k as int));
            assert(tail_text@ =~= s@.skip(k + 2));
            let head_pieces = pieces_value(&head_text);
            let tail_pieces = pieces_value(&tail_text);
            let head = match groups_value(&head_pieces, false) {
                Some(g) => g,
                None => return None,
            };
            let tail = match groups_value(&tail_pieces, true) {
                Some(g) => g,
                None => return None,
            };
            if head.len() > 7 || tail.len() > 7 - head.len() {
                return None;
            }
            let mut out = head;
            let ghost h = out@;
            let zeros = 8 - out.len() - tail.len();
            let mut i: usize = 0;
            while i < zeros
                invariant
                    i <= zeros,
                    out@ == h + zero_groups(i as nat),
                decreases zeros - i,
            {
                out.push(0);
                i += 1;
                assert(out@ =~= h + zero_groups(i as nat));
            }
            let mut j: usize = 0;
            while j < tail.len()
                invariant
                    j <= tail@.len(),
                    out@ == h + zero_groups(zeros as nat) + tail@.take(j as int),
                decreases tail.len() - j,
            {
                out.push(tail[j]);
                j += 1;
                assert(out@ =~= h + zero_groups(zeros as nat) + tail@.take(j as int));
            }
            assert(tail@.take(j as int) =~= tail@);
            Some(out)
        },
    }
}

/// A group in lower-case hexadecimal without leading zeros (`{:x}`).
pub open spec fn hex_str(n: nat) -> Seq<char>
    decreases n,
{
    if n < 16 {
        seq![hex_char(n as int)]
    } else {
        hex_str(n / 16).push(hex_char((n % 16) as int))
    }
}

/// Groups written in hexadecimal between colons.
pub open spec fn groups_str(g: Seq<u16>) -> Seq<char> {
    join(g.map_values(|x: u16| hex_str(x as nat)), ":"@)
}

/// How many zero groups follow from `i` on.
pub open spec fn zeros_from(g: Seq<u16>, i: int) -> nat
    decreases g.len() - i,
{
    if 0 <= i < g.len() && g[i] == 0 {
        1 + zeros_from(g, i + 1)
    } else {
        0
    }
}

/// The first position from `i` on where the longest run of zero groups
/// starts.
pub open spec fn longest_from(g: Seq<u16>, i: int) -> int
    decreases g.len() - i,
{
    if i >= g.len() - 1 {
        i
    } else {
        let j = longest_from(g, i + 1);
        if zeros_from(g, i) >= zeros_from(g, j) {
            i
        } else {
            j
        }
    }
}

/// An address is an IPv4 address mapped into IPv6 (`::ffff:a.b.c.d`).
pub open spec fn is_v4_mapped(g: Seq<u16>) -> bool {
    g.len() == 8 && g[0] == 0 && g[1] == 0 && g[2] == 0 && g[3] == 0 && g[4] == 0 && g[5] == 0xffff
}

/// The text of an address (`Display` for `Ipv6Addr`): a mapped IPv4 address
/// as `::ffff:` and its dotted quad; otherwise the groups in hexadecimal, the
/// first longest run of two or more zero groups written `::`.
pub open spec fn ipv6_str(g: Seq<u16>) -> Seq<char> {
    if is_v4_mapped(g) {
        "::ffff:"@ + ipv4_str((g[6] * 65536 + g[7]) as u32)
    } else {
        let s = longest_from(g, 0);
        let n = zeros_from(g, s);
        if n > 1 {
            groups_str(g.take(s)) + "::"@ + groups_str(g.skip(s + n))
        } else {
            groups_str(g)
        }
    }
}

fn hex_chars(n: u16) -> (r: Vec<char>)
    ensures
        r@ == hex_str(n as nat),
    decreases n,
{
    if n < 16 {
        let mut v: Vec<char> = Vec::new();
        v.push(hex_char_of(n as i32));
        assert(v@ =~= seq![hex_char(n as int)]);
        v
    } else {
        let mut v = hex_chars(n / 16);
        v.push(hex_char_of((n % 16) as i32));
        v
    }
}

fn groups_chars(g: &Vec<u16>, from: usize, to: usize) -> (r: Vec<char>)
    requires
        from <= to <= g@.len(),
    ensures
        r@ == groups_str(g@.subrange(from as int, to as int)),
{
    let mut out: Vec<char> = Vec::new();
    let mut i = from;
    assert(g@.subrange(from as int, from as int).map_values(|x: u16| hex_str(x as nat)) =~= Seq::<
        Seq<char>,
    >::empty());
    while i < to
        invariant
            from <= i <= to <= g@.len(),
            out@ == groups_str(g@.subrange(from as int, i as int)),
        decreases to - i,
    {
        let ghost before = g@.subrange(from as int, i as int);
        let ghost after = g@.subrange(from as int, i + 1);
        assert(after =~= before.push(g@[i as int]));
        let ghost parts = before.map_values(|x: u16| hex_str(x as nat));
        assert(after.map_values(|x: u16| hex_str(x as nat)) =~= parts.push(hex_str(g@[i as int] as nat)));
        if i > from {
            out.push(':');
        }
        let h = hex_chars(g[i]);
        crate::text::push_all(&mut out, &h);
        proof {
            reveal_strlit(":");
            let ps = parts.push(hex_str(g@[i as int] as nat));
            assert(ps.drop_last() =~= parts);
            if i > from {
                assert(out@ =~= join(parts, ":"@) + ":"@ + hex_str(g@[i as int] as nat));
            } else {
                assert(out@ =~= hex_str(g@[i as int] as nat));
            }
        }
        i += 1;
    }
    out
}

/// Writes an address as `ipv6_str` does.
pub fn ipv6_text(g: &Vec<u16>) -> (r: String)
    requires
        g@.len() == 8,
    ensures
        r@ == ipv6_str(g@),
{
    if g[0] == 0 && g[1] == 0 && g[2] == 0 && g[3] == 0 && g[4] == 0 && g[5] == 0xffff {
        let mut r = "::ffff:".to_owned();
        r.append(ipv4_text((g[6] as u32) * 65536 + g[7] as u32).as_str());
        return r;
    }
    let mut i: usize = 7;
    let mut run: usize = if g[7] == 0 {
        1
    } else {
        0
    };
    assert(zeros_from(g@, 8) == 0);
    let mut best: usize = 7;
    let mut best_len: usize = run;
    while i > 0
        invariant
            i <= 7,
            g@.len() == 8,
            run == zeros_from(g@, i as int),
            run <= 8 - i,
            best == longest_from(g@, i as int),
            i <= best < 8,
            best_len == zeros_from(g@, best as int),
            best_len <= 8 - best,
        decreases i,
    {
        i -= 1;
        run = if g[i] == 0 {
            run + 1
        } else {
            0
        };
        if run >= best_len {
            best = i;
            best_len = run;
        }
    }
    let out = if best_len > 1 {
        let mut v = groups_chars(g, 0, best);
        v.push(':');
        v.push(':');
        let tail = groups_chars(g, best + best_len, 8);
        crate::text::push_all(&mut v, &tail);
        assert(g@.subrange(0, best as int) =~= g@.take(best as int));
        assert(g@.subrange((best + best_len) as int, 8) =~= g@.skip((best + best_len) as int));
        proof {
            reveal_strlit("::");
        }
        assert(v@ =~= groups_str(g@.take(best as int)) + "::"@ + groups_str(
            g@.skip((best + best_len) as int),
        ));
        v
    } else {
        let v = groups_chars(g, 0, 8);
        assert(g@.subrange(0, 8) =~= g@);
        v
    };
    string_of(&out)
}

/// An address a host can have: not all zeros, not multicast (`ff00::/8`),
/// not link-local (`fe80::/10`).
pub open spec fn is_host(g: Seq<u16>) -> bool {
    &&& !(forall|i: int| 0 <= i < g.len() ==> g[i] == 0)
    &&& g[0] / 256 != 255
    &&& g[0] / 64 != 1018
}

/// Every character is a decimal digit.
pub open spec fn all_digits(s: Seq<char>) -> bool {
    forall|i: int| 0 <= i < s.len() ==> is_digit(s[i])
}

/// A prefix length as `i32`'s parser reads it and the range allows: an
/// optional `+`, then decimal digits worth 1 to 128.
pub open spec fn prefix_of(t: Seq<char>) -> Option<i32> {
    let d = if t.len() > 0 && t[0] == '+' {
        t.drop_first()
    } else {
        t
    };
    if d.len() > 0 && all_digits(d) && 1 <= digits_value(d) <= 128 {
        Some(digits_value(d) as i32)
    } else {
        None
    }
}

fn prefix_value(t: &[char]) -> (r: Option<i32>)
    ensures
        r == prefix_of(t@),
{
    let start: usize = if t.len() > 0 && t[0] == '+' {
        1
    } else {
        0
    };
    let ghost d = t@.skip(start as int);
    assert(d =~= (if t@.len() > 0 && t@[0] == '+' {
        t@.drop_first()
    } else {
        t@
    }));
    if start >= t.len() {
        return None;
    }
    let mut v: u32 = 0;
    let mut i = start;
    while i < t.len()
        invariant
            start <= i <= t@.len(),
            start < t@.len(),
            d == t@.skip(start as int),
            d == (if t@.len() > 0 && t@[0] == '+' {
                t@.drop_first()
            } else {
                t@
            }),
            forall|j: int| start <= j < i ==> is_digit(t@[j]),
            v == (if digits_value(t@.subrange(start as int, i as int)) < 1000 {
                digits_value(t@.subrange(start as int, i as int))
            } else {
                1000
            }),
        decreases t.len() - i,
    {
        let c = t[i] as u32;
        if c < 48 || c > 57 {
            assert(d[i - start] == t@[i as int]);
            assert(!is_digit(d[i - start]));
            assert(!all_digits(d));
            return None;
        }
        let ghost before = digits_value(t@.subrange(start as int, i as int));
        assert(t@.subrange(start as int, i + 1).drop_last() =~= t@.subrange(start as int, i as int));
        assert(digits_value(t@.subrange(start as int, i + 1)) == before * 10 + (c - 48));
        if v >= 1000 {
            assert(before * 10 + (c - 48) >= 1000) by (nonlinear_arith)
                requires
                    before >= 1000,
                    c >= 48,
            ;
        } else {
            v = v * 10 + (c - 48);
            if v > 1000 {
                v = 1000;
            }
        }
        i += 1;
    }
    assert(t@.subrange(start as int, i as int) =~= d);
    assert(forall|j: int| 0 <= j < d.len() ==> d[j] == t@[j + start]);
    if v >= 1 && v <= 128 {
        Some(v as i32)
    } else {
        None
    }
}

/// The address and prefix length of `address/prefix`, or why they cannot
/// be a host's.
pub open spec fn address_of(text: Seq<char>) -> Result<(Seq<u16>, i32), Seq<char>> {
    match find(text, seq!['/']) {
        None => Err("`"@ + text + "` needs a prefix length, for example 2001:db8:10::20/64"@),
        Some(k) => {
            let a = text.take(k);
            let p = text.skip(k + 1);
            match ipv6_of(a) {
                None => Err("address `"@ + a + "` is not an IPv6 address"@),
                Some(g) => match prefix_of(p) {
                    None => Err("prefix `/"@ + p + "` must be between 1 and 128"@),
                    Some(n) => if is_host(g) {
                        Ok((g, n))
                    } else {
                        Err(
                            ipv6_str(g)
                                + " cannot be a host's address; use a global or unique local address (link-local addresses are set automatically)"@,
                        )
                    },
                },
            }
        },
    }
}

/// Reads `address/prefix` as `address_of` describes it.
pub fn parse_address(text: &str) -> (r: Result<(Vec<u16>, i32), PtError>)
    ensures
        match address_of(text@) {
            Ok((g, n)) => r matches Ok(v) && v.0@ == g && v.1 == n,
            Err(e) => r matches Err(PtError::InvalidInput(m)) && m@ == e,
        },
        r matches Ok(v) ==> v.0@.len() == 8,
{
    let chars = chars_of(text);
    let slash = vec!['/'];
    assert(slash@ =~= seq!['/']);
    let k = match find_chars(&chars, &slash) {
        Some(k) => k,
        None => {
            let mut m = cat3("`", text, "` needs a prefix length, for example 2001:db8:10::20/64");
            return Err(PtError::InvalidInput(m));
        },
    };
    proof {
        lemma_find(chars@, slash@);
        assert(occurs_at(chars@, slash@, k as int));
    }
    assert(chars@.len() == chars.len());
    let a = slice_range(&chars, 0, k);
    let p = slice_range(&chars, k + 1, chars.len());
    assert(a@ =~= text@.take(k as int));
    assert(p@ =~= text@.skip(k + 1));
    let a_text = string_of(&a);
    let g = match parse_ipv6(a_text.as_str()) {
        Some(g) => g,
        None => {
            let m = cat3("address `", a_text.as_str(), "` is not an IPv6 address");
            return Err(PtError::InvalidInput(m));
        },
    };
    let n = match prefix_value(&p) {
        Some(n) => n,
        None => {
            let mut m = "prefix `/".to_owned();
            m.append(string_of(&p).as_str());
            m.append("` must be between 1 and 128");
            return Err(PtError::InvalidInput(m));
        },
    };
    let mut all_zero = true;
    let mut i: usize = 0;
    while i < 8
        invariant
            g@.len() == 8,
            i <= 8,
            all_zero == (forall|j: int| 0 <= j < i ==> g@[j] == 0),
        decreases 8 - i,
    {
        if g[i] != 0 {
            all_zero = false;
        }
        i += 1;
    }
    if all_zero || g[0] / 256 == 255 || g[0] / 64 == 1018 {
        let mut m = ipv6_text(&g);
        m.append(
            " cannot be a host's address; use a global or unique local address (link-local addresses are set automatically)",
        );
        return Err(PtError::InvalidInput(m));
    }
    Ok((g, n))
}

/// How a port gets its IPv6 address.
#[derive(Debug, Clone, Copy, Default, PartialEq, Eq)]
pub enum Ipv6Mode {
    /// A fixed address, like the Static button of IP Configuration.
    #[default]
    Static,
    /// Stateless autoconfiguration (SLAAC) from the router's advertisements.
    Auto,
    /// IPv6 switched off on the port.
    Off,
}

/// What `configure_ipv6` is asked for.
#[derive(Debug, Clone, Default, PartialEq, Eq)]
pub struct Ipv6Request {
    /// PC, laptop or server name.
    pub device: String,
    /// Network port to configure; `FastEthernet0` when none is given.
    pub port: Option<String>,
    pub mode: Ipv6Mode,
    /// Static address with its prefix length, such as `2001:db8:10::20/64`.
    pub address: Option<String>,
    /// Default gateway, usually the router's link-local address.
    pub gateway: Option<String>,
    /// IPv6 DNS server.
    pub dns: Option<String>,
}

/// The IPv6 settings of a port after `configure_ipv6`.
#[derive(Debug, Clone, PartialEq, Eq)]
pub struct Ipv6Config {
    pub device: String,
    pub port: String,
    pub mode: Ipv6Mode,
    /// Addresses on the port as `address/prefix`, read back from Packet Tracer.
    pub addresses: Vec<String>,
    pub gateway: Option<String>,
    pub dns: Option<String>,
}

/// The checked addresses of a request.
#[derive(Debug, Clone, PartialEq, Eq)]
pub struct Ipv6Plan {
    /// The static address and its prefix length.
    pub address: Option<(Vec<u16>, i32)>,
    pub gateway: Option<Vec<u16>>,
    pub dns: Option<Vec<u16>>,
}

/// The groups of an optional address.
pub open spec fn groups_opt(a: Option<Vec<u16>>) -> Option<Seq<u16>> {
    match a {
        Some(g) => Some(g@),
        None => None,
    }
}

impl Ipv6Plan {
    /// Every address has eight groups.
    pub open spec fn wf(&self) -> bool {
        &&& self.address matches Some((g, _)) ==> g@.len() == 8
        &&& self.gateway matches Some(g) ==> g@.len() == 8
        &&& self.dns matches Some(g) ==> g@.len() == 8
    }
}

impl View for Ipv6Plan {
    type V = (Option<(Seq<u16>, i32)>, Option<Seq<u16>>, Option<Seq<u16>>);

    open spec fn view(&self) -> (Option<(Seq<u16>, i32)>, Option<Seq<u16>>, Option<Seq<u16>>) {
        (
            match self.address {
                Some((g, n)) => Some((g@, n)),
                None => None,
            },
            groups_opt(self.gateway),
            groups_opt(self.dns),
        )
    }
}

/// An optional address of a request, read after trimming.
pub open spec fn optional_of(field: Seq<char>, text: Option<String>) -> Result<
    Option<Seq<u16>>,
    Seq<char>,
> {
    match text {
        None => Ok(None),
        Some(t) => match ipv6_of(trim(t@)) {
            Some(g) => Ok(Some(g)),
            None => Err(field + " `"@ + trim(t@) + "` is not an IPv6 address"@),
        },
    }
}

/// The checked addresses of a request, or why it is refused: a static mode
/// needs an address, other modes take none; then the gateway and the DNS
/// server, in that order.
pub open spec fn ipv6_plan_of(request: Ipv6Request) -> Result<
    (Option<(Seq<u16>, i32)>, Option<Seq<u16>>, Option<Seq<u16>>),
    Seq<char>,
> {
    let address: Result<Option<(Seq<u16>, i32)>, Seq<char>> = match request.mode {
        Ipv6Mode::Static => match request.address {
            Some(t) => match address_of(trim(t@)) {
                Ok(a) => Ok(Some(a)),
                Err(e) => Err(e),
            },
            None => Err(
                "a static IPv6 configuration needs `address`, for example 2001:db8:10::20/64"@,
            ),
        },
        _ => match request.address {
            Some(_) => Err("`address` only goes with mode `static`"@),
            None => Ok(None),
        },
    };
    match address {
        Err(e) => Err(e),
        Ok(a) => match optional_of("gateway"@, request.gateway) {
            Err(e) => Err(e),
            Ok(g) => match optional_of("dns"@, request.dns) {
                Err(e) => Err(e),
                Ok(d) => Ok((a, g, d)),
            },
        },
    }
}

fn optional_address(field: &str, text: &Option<String>) -> (r: Result<Option<Vec<u16>>, PtError>)
    ensures
        match optional_of(field@, *text) {
            Ok(g) => r matches Ok(v) && groups_opt(v) == g,
            Err(e) => r matches Err(PtError::InvalidInput(m)) && m@ == e,
        },
        r matches Ok(Some(g)) ==> g@.len() == 8,
{
    match text {
        None => Ok(None),
        Some(t) => {
            let trimmed = trim_text(t.as_str());
            match parse_ipv6(trimmed.as_str()) {
                Some(g) => Ok(Some(g)),
                None => {
                    let mut m = cat3(field, " `", trimmed.as_str());
                    m.append("` is not an IPv6 address");
                    Err(PtError::InvalidInput(m))
                },
            }
        },
    }
}

/// Checks a request's addresses before anything is sent to Packet Tracer.
pub fn plan(request: &Ipv6Request) -> (r: Result<Ipv6Plan, PtError>)
    ensures
        match ipv6_plan_of(*request) {
            Ok(p) => r matches Ok(x) && x@ == p,
            Err(e) => r matches Err(PtError::InvalidInput(m)) && m@ == e,
        },
        r matches Ok(x) ==> x.wf(),
{
    let address = match request.mode {
        Ipv6Mode::Static => match &request.address {
            Some(t) => {
                let trimmed = trim_text(t.as_str());
                match parse_address(trimmed.as_str()) {
                    Ok(a) => Some(a),
                    Err(e) => return Err(e),
                }
            },
            None => {
                return Err(
                    PtError::InvalidInput(
                        "a static IPv6 configuration needs `address`, for example 2001:db8:10::20/64".to_owned(),
                    ),
                );
            },
        },
        _ => match &request.address {
            Some(_) => {
                return Err(
                    PtError::InvalidInput("`address` only goes with mode `static`".to_owned()),
                );
            },
            None => None,
        },
    };
    let gateway = optional_address("gateway", &request.gateway)?;
    let dns = optional_address("dns", &request.dns)?;
    Ok(Ipv6Plan { address, gateway, dns })
}

/// One call that sets up IPv6 on a port.
#[derive(Debug, Clone, PartialEq, Eq)]
pub enum Ipv6Step {
    /// `setIpv6Enabled`.
    Enable(bool),
    /// `removeAllIpv6Addresses`.
    RemoveAll,
    /// `setIpv6AddressAutoConfig`.
    AutoConfig(bool),
    /// `addIpv6Address` with a unicast address and its prefix length; its
    /// reply says whether Packet Tracer took it.
    AddAddress(Vec<u16>, i32),
    /// `setv6DefaultGateway`.
    Gateway(Vec<u16>),
    /// `setv6ServerIp`.
    Dns(Vec<u16>),
}

/// A setup call, with the groups of its addresses.
pub enum Ipv6StepView {
    Enable(bool),
    RemoveAll,
    AutoConfig(bool),
    AddAddress(Seq<u16>, i32),
    Gateway(Seq<u16>),
    Dns(Seq<u16>),
}

impl View for Ipv6Step {
    type V = Ipv6StepView;

    open spec fn view(&self) -> Ipv6StepView {
        match self {
            Ipv6Step::Enable(b) => Ipv6StepView::Enable(*b),
            Ipv6Step::RemoveAll => Ipv6StepView::RemoveAll,
            Ipv6Step::AutoConfig(b) => Ipv6StepView::AutoConfig(*b),
            Ipv6Step::AddAddress(g, n) => Ipv6StepView::AddAddress(g@, *n),
            Ipv6Step::Gateway(g) => Ipv6StepView::Gateway(g@),
            Ipv6Step::Dns(g) => Ipv6StepView::Dns(g@),
        }
    }
}

/// The calls that set a port up, in order: IPv6 on unless the mode is off;
/// the addresses cleared, with autoconfiguration switched on for `auto`, or
/// off before the static address is added; then the gateway and the DNS
/// server when given.
pub open spec fn ipv6_steps_of(
    mode: Ipv6Mode,
    plan: (Option<(Seq<u16>, i32)>, Option<Seq<u16>>, Option<Seq<u16>>),
) -> Seq<Ipv6StepView> {
    seq![Ipv6StepView::Enable(!(mode is Off))] + match mode {
        Ipv6Mode::Off => seq![Ipv6StepView::RemoveAll],
        Ipv6Mode::Auto => seq![Ipv6StepView::RemoveAll, Ipv6StepView::AutoConfig(true)],
        Ipv6Mode::Static => seq![Ipv6StepView::AutoConfig(false), Ipv6StepView::RemoveAll]
            + match plan.0 {
            Some((g, n)) => seq![Ipv6StepView::AddAddress(g, n)],
            None => Seq::empty(),
        },
    } + match plan.1 {
        Some(g) => seq![Ipv6StepView::Gateway(g)],
        None => Seq::empty(),
    } + match plan.2 {
        Some(g) => seq![Ipv6StepView::Dns(g)],
        None => Seq::empty(),
    }
}

/// The views of a list of steps.
pub open spec fn step_views(steps: Seq<Ipv6Step>) -> Seq<Ipv6StepView> {
    steps.map_values(|s: Ipv6Step| s@)
}

fn copy_groups(g: &Vec<u16>) -> (r: Vec<u16>)
    ensures
        r@ == g@,
{
    let mut out: Vec<u16> = Vec::new();
    let mut i: usize = 0;
    while i < g.len()
        invariant
            i <= g@.len(),
            out@ == g@.take(i as int),
        decreases g.len() - i,
    {
        out.push(g[i]);
        i += 1;
        assert(out@ =~= g@.take(i as int));
    }
    assert(g@.take(i as int) =~= g@);
    out
}

/// The calls that set a port up for a mode and checked addresses.
pub fn ipv6_steps(mode: Ipv6Mode, plan: &Ipv6Plan) -> (r: Vec<Ipv6Step>)
    ensures
        step_views(r@) == ipv6_steps_of(mode, plan@),
{
    let mut steps: Vec<Ipv6Step> = Vec::new();
    steps.push(Ipv6Step::Enable(!matches!(mode, Ipv6Mode::Off)));
    let ghost first = seq![Ipv6StepView::Enable(!(mode is Off))];
    assert(step_views(steps@) =~= first);
    match mode {
        Ipv6Mode::Off => {
            steps.push(Ipv6Step::RemoveAll);
        },
        Ipv6Mode::Auto => {
            steps.push(Ipv6Step::RemoveAll);
            steps.push(Ipv6Step::AutoConfig(true));
        },
        Ipv6Mode::Static => {
            steps.push(Ipv6Step::AutoConfig(false));
            steps.push(Ipv6Step::RemoveAll);
            if let Some((g, n)) = &plan.address {
                steps.push(Ipv6Step::AddAddress(copy_groups(g), *n));
            }
        },
    }
    let ghost middle = step_views(steps@);
    assert(middle =~= ipv6_steps_of(mode, (plan@.0, None, None)));
    if let Some(g) = &plan.gateway {
        steps.push(Ipv6Step::Gateway(copy_groups(g)));
    }
    let ghost later = step_views(steps@);
    assert(later =~= middle + match plan@.1 {
        Some(g) => seq![Ipv6StepView::Gateway(g)],
        None => Seq::empty(),
    });
    if let Some(g) = &plan.dns {
        steps.push(Ipv6Step::Dns(copy_groups(g)));
    }
    assert(step_views(steps@) =~= later + match plan@.2 {
        Some(g) => seq![Ipv6StepView::Dns(g)],
        None => Seq::empty(),
    });
    steps
}

/// What Packet Tracer's reply to `addIpv6Address` means: `false` is a
/// refusal that names the address and the port.
pub fn address_added(accepted: bool, address: &Vec<u16>, prefix: i32, port: &str) -> (r: Result<
    (),
    PtError,
>)
    requires
        address@.len() == 8,
    ensures
        accepted ==> r is Ok,
        !accepted ==> (r matches Err(PtError::Rejected(m)) && m@ == "Packet Tracer did not accept "@
            + ipv6_str(address@) + "/"@ + int_str(prefix as int) + " on "@ + port@),
{
    if accepted {
        return Ok(());
    }
    let mut m = "Packet Tracer did not accept ".to_owned();
    m.append(ipv6_text(address).as_str());
    m.append("/");
    m.append(int_text(prefix as i64).as_str());
    m.append(" on ");
    m.append(port);
    Err(PtError::Rejected(m))
}

/// An address on a port as `address/prefix`.
pub fn address_entry(address: &Vec<u16>, prefix: i64) -> (r: String)
    requires
        address@.len() == 8,
    ensures
        r@ == ipv6_str(address@) + "/"@ + int_str(prefix as int),
{
    let mut r = ipv6_text(address);
    r.append("/");
    r.append(int_text(prefix).as_str());
    r
}

/// How many times an empty address list is read again while a port waits
/// for its autoconfigured address.
pub const AUTO_CONFIG_POLLS: u32 = 10;

/// Whether to wait and read the addresses again: only in `auto` mode, while
/// none has come and the polls are not used up.
pub fn keep_polling(mode: Ipv6Mode, found: usize, polls: u32) -> (r: bool)
    ensures
        r == (mode is Auto && found == 0 && polls < AUTO_CONFIG_POLLS),
{
    matches!(mode, Ipv6Mode::Auto) && found == 0 && polls < AUTO_CONFIG_POLLS
}

/// The text of an optional address.
pub open spec fn text_of_groups(g: Option<Seq<u16>>) -> Option<Seq<char>> {
    match g {
        Some(a) => Some(ipv6_str(a)),
        None => None,
    }
}

fn optional_text(g: &Option<Vec<u16>>) -> (r: Option<String>)
    requires
        g matches Some(a) ==> a@.len() == 8,
    ensures
        crate::text::text_opt(r) == text_of_groups(groups_opt(*g)),
{
    match g {
        Some(a) => Some(ipv6_text(a)),
        None => None,
    }
}

/// The settings reported after setup: the addresses read back, and the
/// gateway and DNS server as the request gave them, written out.
pub fn ipv6_config(device: String, port: String, mode: Ipv6Mode, addresses: Vec<String>, plan: &Ipv6Plan) -> (r:
    Ipv6Config)
    requires
        plan.wf(),
    ensures
        r.device == device,
        r.port == port,
        r.mode == mode,
        r.addresses == addresses,
        crate::text::text_opt(r.gateway) == text_of_groups(plan@.1),
        crate::text::text_opt(r.dns) == text_of_groups(plan@.2),
{
    Ipv6Config {
        device,
        port,
        mode,
        addresses,
        gateway: optional_text(&plan.gateway),
        dns: optional_text(&plan.dns),
    }
}

} // verus!

verus! {

/// A group's hexadecimal text: one to four digits, worth the group.
pub proof fn lemma_hex_str(v: nat)
    requires
        v < 65536,
    ensures
        1 <= hex_str(v).len() <= 4,
        forall|i: int| 0 <= i < hex_str(v).len() ==> hex_digit(#[trigger] hex_str(v)[i]) is Some,
        hex_digits(hex_str(v)) == Some(v as int),
        hex_group(hex_str(v)) == Some(v as u16),
        v < 16 ==> hex_str(v).len() == 1,
        v < 256 ==> hex_str(v).len() <= 2,
        v < 4096 ==> hex_str(v).len() <= 3,
    decreases v,
{
    if v < 16 {
        assert(hex_str(v) =~= seq![hex_char(v as int)]);
        assert(hex_str(v).drop_last() =~= Seq::<char>::empty());
        assert(hex_digit(hex_char(v as int)) == Some(v as int));
        assert(hex_digits(Seq::<char>::empty()) == Some(0int));
        assert(hex_digits(hex_str(v)) == Some(0int * 16 + v as int));
    } else {
        lemma_hex_str(v / 16);
        let t = hex_str(v / 16);
        let d = v % 16;
        assert(hex_str(v) == t.push(hex_char(d as int)));
        assert(t.push(hex_char(d as int)).drop_last() =~= t);
        assert(hex_digit(hex_char(d as int)) == Some(d as int));
        assert(forall|i: int| 0 <= i < t.len() ==> t.push(hex_char(d as int))[i] == t[i]);
        assert((v / 16) * 16 + d == v);
        assert(hex_digits(hex_str(v)) == Some((v / 16) as int * 16 + d as int));
    }
}

/// No hexadecimal digit is a colon or a dot.
proof fn lemma_hex_digit_not_separator(c: char)
    requires
        hex_digit(c) is Some,
    ensures
        c != ':',
        c != '.',
{
}

/// The texts of groups.
pub open spec fn hex_texts(g: Seq<u16>) -> Seq<Seq<char>> {
    g.map_values(|x: u16| hex_str(x as nat))
}

/// What written groups are made of: hexadecimal digits and single colons,
/// starting and ending with a digit, cut back at the colons into the groups'
/// texts.
proof fn lemma_groups_text(g: Seq<u16>)
    requires
        g.len() >= 1,
    ensures
        groups_str(g).len() >= 1,
        hex_digit(groups_str(g)[0]) is Some,
        hex_digit(groups_str(g).last()) is Some,
        forall|i: int| 0 <= i < groups_str(g).len() ==> #[trigger] groups_str(g)[i] != '.',
        forall|i: int|
            0 <= i < groups_str(g).len() - 1 ==> !(#[trigger] groups_str(g)[i] == ':' && groups_str(
                g,
            )[i + 1] == ':'),
        split_on(groups_str(g), ':') == hex_texts(g),
    decreases g.len(),
{
    reveal_strlit(":");
    let first = hex_str(g[0] as nat);
    lemma_hex_str(g[0] as nat);
    assert forall|i: int| 0 <= i < first.len() implies first[i] != ':' && first[i] != '.' by {
        lemma_hex_digit_not_separator(first[i]);
    }
    if g.len() == 1 {
        assert(hex_texts(g) =~= seq![first]);
        assert(groups_str(g) == first);
        crate::net::lemma_split_none(first, ':');
    } else {
        let rest = g.drop_first();
        lemma_groups_text(rest);
        assert(hex_texts(g).drop_first() =~= hex_texts(rest));
        crate::text::lemma_join_front(hex_texts(g), ":"@);
        let tail = groups_str(rest);
        assert(groups_str(g) == first + seq![':'] + tail);
        crate::net::lemma_split_first(first, ':', tail);
        assert(hex_texts(g) =~= seq![first] + hex_texts(rest));
        let s = groups_str(g);
        assert(forall|i: int| 0 <= i < first.len() ==> s[i] == first[i]);
        assert(s[first.len() as int] == ':');
        assert(forall|i: int| 0 <= i < tail.len() ==> s[first.len() + 1 + i] == tail[i]);
        assert forall|i: int| 0 <= i < s.len() implies #[trigger] s[i] != '.' by {
            if i > first.len() {
                assert(s[i] == tail[i - first.len() - 1]);
            }
        }
        assert forall|i: int| 0 <= i < s.len() - 1 implies !(#[trigger] s[i] == ':' && s[i + 1]
            == ':') by {
            if i < first.len() - 1 {
            } else if i == first.len() - 1 {
            } else if i == first.len() as int {
                assert(s[i + 1] == tail[0]);
                lemma_hex_digit_not_separator(tail[0]);
            } else {
                assert(s[i] == tail[i - first.len() - 1]);
                assert(s[i + 1] == tail[i - first.len()]);
            }
        }
        assert(s.last() == tail.last());
    }
}

/// Reading the groups' texts back gives the groups.
proof fn lemma_hex_groups_back(g: Seq<u16>)
    ensures
        hex_groups(hex_texts(g)) == Some(g),
    decreases g.len(),
{
    if g.len() > 0 {
        lemma_hex_groups_back(g.drop_last());
        assert(hex_texts(g).drop_last() =~= hex_texts(g.drop_last()));
        lemma_hex_str(g.last() as nat);
        assert(g.drop_last().push(g.last()) =~= g);
    }
}

/// Written groups read back, with a dotted quad allowed at the end or not.
proof fn lemma_groups_back(g: Seq<u16>, v4_last: bool)
    ensures
        groups_of(colon_pieces(groups_str(g)), v4_last) == Some(g),
{
    if g.len() == 0 {
        assert(hex_texts(g) =~= Seq::<Seq<char>>::empty());
        assert(groups_str(g) =~= Seq::<char>::empty());
    } else {
        lemma_groups_text(g);
        let ps = hex_texts(g);
        lemma_hex_groups_back(g.drop_last());
        assert(ps.drop_last() =~= hex_texts(g.drop_last()));
        lemma_hex_str(g.last() as nat);
        assert(g.drop_last().push(g.last()) =~= g);
    }
}

/// The zero groups counted from `i` are zero and within the address.
proof fn lemma_zeros_from(g: Seq<u16>, i: int)
    requires
        0 <= i <= g.len(),
    ensures
        i + zeros_from(g, i) <= g.len(),
        forall|k: int| i <= k < i + zeros_from(g, i) ==> g[k] == 0,
    decreases g.len() - i,
{
    if i < g.len() && g[i] == 0 {
        lemma_zeros_from(g, i + 1);
    }
}

/// The run `longest_from` picks starts within the address.
proof fn lemma_longest_in(g: Seq<u16>, i: int)
    requires
        0 <= i < g.len(),
    ensures
        i <= longest_from(g, i) < g.len(),
    decreases g.len() - i,
{
    if i < g.len() - 1 {
        lemma_longest_in(g, i + 1);
    }
}

/// The first `::` of `a`, two colons and `b` is right after `a`, when `a`
/// holds none and does not end with a colon.
proof fn lemma_find_pair(a: Seq<char>, b: Seq<char>)
    requires
        forall|i: int| 0 <= i < a.len() - 1 ==> !(#[trigger] a[i] == ':' && a[i + 1] == ':'),
        a.len() > 0 ==> a.last() != ':',
    ensures
        find(a + seq![':', ':'] + b, seq![':', ':']) == Some(a.len() as int),
{
    let s = a + seq![':', ':'] + b;
    assert(s.subrange(0, a.len() as int) =~= a);
    lemma_find_pair_from(s, a, 0);
}

proof fn lemma_find_pair_from(s: Seq<char>, a: Seq<char>, i: int)
    requires
        0 <= i <= a.len(),
        s.len() >= a.len() + 2,
        s.subrange(0, a.len() as int) == a,
        s[a.len() as int] == ':',
        s[a.len() as int + 1] == ':',
        forall|j: int| 0 <= j < a.len() - 1 ==> !(#[trigger] a[j] == ':' && a[j + 1] == ':'),
        a.len() > 0 ==> a.last() != ':',
    ensures
        crate::text::find_from(s, seq![':', ':'], i) == Some(a.len() as int),
    decreases a.len() - i,
{
    if i < a.len() {
        assert(s[i] == a[i]);
        if i + 1 < a.len() {
            assert(s[i + 1] == a[i + 1]);
        }
        assert(s.subrange(i, i + 2)[0] == s[i]);
        assert(s.subrange(i, i + 2)[1] == s[i + 1]);
        assert(!crate::text::occurs_at(s, seq![':', ':'], i));
        lemma_find_pair_from(s, a, i + 1);
    } else {
        assert(s.subrange(i, i + 2) =~= seq![':', ':']);
    }
}

/// A text without `::` has none to find.
proof fn lemma_no_pair(s: Seq<char>, i: int)
    requires
        0 <= i,
        forall|j: int| 0 <= j < s.len() - 1 ==> !(#[trigger] s[j] == ':' && s[j + 1] == ':'),
    ensures
        crate::text::find_from(s, seq![':', ':'], i) is None,
    decreases s.len() + 1 - i,
{
    if i + 2 <= s.len() {
        assert(s.subrange(i, i + 2)[0] == s[i]);
        assert(s.subrange(i, i + 2)[1] == s[i + 1]);
        assert(!crate::text::occurs_at(s, seq![':', ':'], i));
        lemma_no_pair(s, i + 1);
    }
}

} // verus!

verus! {

/// A dotted quad holds no colon and has at least seven characters.
proof fn lemma_quad_text(a: u32)
    ensures
        forall|i: int| 0 <= i < ipv4_str(a).len() ==> #[trigger] ipv4_str(a)[i] != ':',
        ipv4_str(a).len() >= 7,
{
    let p0 = crate::text::nat_str((a / 16777216) as nat);
    let p1 = crate::text::nat_str(((a / 65536) % 256) as nat);
    let p2 = crate::text::nat_str(((a / 256) % 256) as nat);
    let p3 = crate::text::nat_str((a % 256) as nat);
    crate::net::lemma_nat_str((a / 16777216) as nat);
    crate::net::lemma_nat_str(((a / 65536) % 256) as nat);
    crate::net::lemma_nat_str(((a / 256) % 256) as nat);
    crate::net::lemma_nat_str((a % 256) as nat);
    let q = ipv4_str(a);
    assert(q =~= p0 + seq!['.'] + p1 + seq!['.'] + p2 + seq!['.'] + p3);
    assert forall|i: int| 0 <= i < q.len() implies #[trigger] q[i] != ':' by {
        let o1 = p0.len() + 1;
        let o2 = o1 + p1.len() + 1;
        let o3 = o2 + p2.len() + 1;
        if i < p0.len() {
            assert(q[i] == p0[i]);
        } else if i < o1 {
        } else if i < o1 + p1.len() {
            assert(q[i] == p1[i - o1]);
        } else if i < o2 {
        } else if i < o2 + p2.len() {
            assert(q[i] == p2[i - o2]);
        } else if i < o3 {
        } else {
            assert(q[i] == p3[i - o3]);
        }
    }
}

proof fn lemma_ffff()
    ensures
        hex_group(seq!['f', 'f', 'f', 'f']) == Some(65535u16),
{
    let ffff = seq!['f', 'f', 'f', 'f'];
    assert(hex_digit('f') == Some(15int));
    assert(hex_digits(Seq::<char>::empty()) == Some(0int));
    assert(hex_digits(ffff.take(1)) == Some(15int)) by {
        assert(ffff.take(1).drop_last() =~= Seq::<char>::empty());
        assert(ffff.take(1).last() == 'f');
    }
    assert(hex_digits(ffff.take(2)) == Some(255int)) by {
        assert(ffff.take(2).drop_last() =~= ffff.take(1));
        assert(ffff.take(2).last() == 'f');
    }
    assert(hex_digits(ffff.take(3)) == Some(4095int)) by {
        assert(ffff.take(3).drop_last() =~= ffff.take(2));
        assert(ffff.take(3).last() == 'f');
    }
    assert(hex_digits(ffff) == Some(65535int)) by {
        assert(ffff.drop_last() =~= ffff.take(3));
    }
}

proof fn lemma_mapped_tail(a: u32)
    ensures
        groups_of(colon_pieces(seq!['f', 'f', 'f', 'f'] + seq![':'] + ipv4_str(a)), true) == Some(
            seq![65535u16, (a / 65536) as u16, (a % 65536) as u16],
        ),
{
    let ffff = seq!['f', 'f', 'f', 'f'];
    let q = ipv4_str(a);
    lemma_quad_text(a);
    crate::net::lemma_ipv4_round_trip(a);
    lemma_ffff();
    let tail = ffff + seq![':'] + q;
    crate::net::lemma_split_first(ffff, ':', q);
    crate::net::lemma_split_none(q, ':');
    let pieces = colon_pieces(tail);
    assert(pieces =~= seq![ffff, q]);
    assert(pieces.drop_last() =~= seq![ffff]);
    assert(seq![ffff].drop_last() =~= Seq::<Seq<char>>::empty());
    assert(seq![ffff].last() == ffff);
    assert(hex_groups(Seq::<Seq<char>>::empty()) == Some(Seq::<u16>::empty()));
    assert(Seq::<u16>::empty().push(65535u16) =~= seq![65535u16]);
    assert(hex_groups(seq![ffff]) == Some(seq![65535u16]));
    assert(hex_group(q) is None);
    assert(seq![65535u16].push((a / 65536) as u16).push((a % 65536) as u16) =~= seq![
        65535u16,
        (a / 65536) as u16,
        (a % 65536) as u16,
    ]);
}

proof fn lemma_round_trip_mapped(g: Seq<u16>)
    requires
        g.len() == 8,
        is_v4_mapped(g),
    ensures
        ipv6_of(ipv6_str(g)) == Some(g),
{
    reveal_strlit("::ffff:");
    let a: u32 = (g[6] * 65536 + g[7]) as u32;
    let ffff = seq!['f', 'f', 'f', 'f'];
    let tail = ffff + seq![':'] + ipv4_str(a);
    let text = ipv6_str(g);
    assert(text == "::ffff:"@ + ipv4_str(a));
    assert(text =~= Seq::<char>::empty() + seq![':', ':'] + tail);
    lemma_find_pair(Seq::<char>::empty(), tail);
    assert(text.take(0) =~= Seq::<char>::empty());
    assert(text.skip(2) =~= tail);
    lemma_mapped_tail(a);
    assert(a / 65536 == g[6] && a % 65536 == g[7]) by (nonlinear_arith)
        requires
            a == g[6] * 65536 + g[7],
            g[7] < 65536,
            g[6] < 65536,
    ;
    assert(colon_pieces(Seq::<char>::empty()) =~= Seq::<Seq<char>>::empty());
    assert(zero_groups(5) + seq![65535u16, (a / 65536) as u16, (a % 65536) as u16] =~= g);
}

proof fn lemma_round_trip_compressed(g: Seq<u16>)
    requires
        g.len() == 8,
        !is_v4_mapped(g),
        zeros_from(g, longest_from(g, 0)) > 1,
    ensures
        ipv6_of(ipv6_str(g)) == Some(g),
{
    reveal_strlit("::");
    let s = longest_from(g, 0);
    let n = zeros_from(g, s);
    lemma_longest_in(g, 0);
    lemma_zeros_from(g, s);
    let text = ipv6_str(g);
    let h = g.take(s);
    let t = g.skip(s + n);
    let a = groups_str(h);
    let b = groups_str(t);
    assert(text =~= a + seq![':', ':'] + b);
    if h.len() > 0 {
        lemma_groups_text(h);
        lemma_hex_digit_not_separator(a.last());
    } else {
        assert(hex_texts(h) =~= Seq::<Seq<char>>::empty());
        assert(a =~= Seq::<char>::empty());
    }
    lemma_find_pair(a, b);
    assert(text.take(a.len() as int) =~= a);
    assert(text.skip(a.len() as int + 2) =~= b);
    lemma_groups_back(h, false);
    lemma_groups_back(t, true);
    assert(h + zero_groups((8 - h.len() - t.len()) as nat) + t =~= g);
}

proof fn lemma_round_trip_plain(g: Seq<u16>)
    requires
        g.len() == 8,
        !is_v4_mapped(g),
        zeros_from(g, longest_from(g, 0)) <= 1,
    ensures
        ipv6_of(ipv6_str(g)) == Some(g),
{
    let text = ipv6_str(g);
    assert(text == groups_str(g));
    lemma_groups_text(g);
    lemma_no_pair(text, 0);
    lemma_groups_back(g, true);
}

/// Reading the text of an address gives the address back: what
/// `ipv6_text` writes, `parse_ipv6` reads as the same eight groups.
pub proof fn lemma_ipv6_round_trip(g: Seq<u16>)
    requires
        g.len() == 8,
    ensures
        ipv6_of(ipv6_str(g)) == Some(g),
{
    if is_v4_mapped(g) {
        lemma_round_trip_mapped(g);
    } else if zeros_from(g, longest_from(g, 0)) > 1 {
        lemma_round_trip_compressed(g);
    } else {
        lemma_round_trip_plain(g);
    }
}

} // verus!

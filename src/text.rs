//! Building blocks of the record format: lower-case hex for byte strings,
//! decimal for integers, and tokens joined by a separator byte.
use vstd::prelude::*;

verus! {

/// The hex digit for a nibble, lower case.
pub open spec fn hex_digit(n: u8) -> u8 {
    if n < 10 {
        (48 + n) as u8
    } else {
        (87 + n) as u8
    }
}

/// The value of a lower-case hex digit, if it is one.
pub open spec fn hex_value(c: u8) -> Option<u8> {
    if 48 <= c <= 57 {
        Some((c - 48) as u8)
    } else if 97 <= c <= 102 {
        Some((c - 87) as u8)
    } else {
        None
    }
}

/// Two lower-case hex digits per byte, high nibble first.
pub open spec fn hex(b: Seq<u8>) -> Seq<u8>
    decreases b.len(),
{
    if b.len() == 0 {
        Seq::empty()
    } else {
        hex(b.drop_last()) + seq![hex_digit(b.last() / 16), hex_digit(b.last() % 16)]
    }
}

/// The decimal digits of `n`, most significant first, with no leading zero.
pub open spec fn dec(n: nat) -> Seq<u8>
    decreases n,
{
    if n < 10 {
        seq![(48 + n) as u8]
    } else {
        dec(n / 10).push((48 + n % 10) as u8)
    }
}

/// The number that a string of decimal digits spells.
pub open spec fn dec_value(s: Seq<u8>) -> nat
    decreases s.len(),
{
    if s.len() == 0 {
        0
    } else {
        dec_value(s.drop_last()) * 10 + (s.last() - 48) as nat
    }
}

pub open spec fn is_digit(c: u8) -> bool {
    48 <= c <= 57
}

/// The tokens joined, with `sep` between each two of them.
pub open spec fn join(ts: Seq<Seq<u8>>, sep: u8) -> Seq<u8>
    decreases ts.len(),
{
    if ts.len() == 0 {
        Seq::empty()
    } else if ts.len() == 1 {
        ts[0]
    } else {
        join(ts.drop_last(), sep) + seq![sep] + ts.last()
    }
}

pub open spec fn free_of(s: Seq<u8>, c: u8) -> bool {
    forall|i: int| 0 <= i < s.len() ==> s[i] != c
}

pub open spec fn all_free_of(ts: Seq<Seq<u8>>, c: u8) -> bool {
    forall|k: int| 0 <= k < ts.len() ==> free_of(#[trigger] ts[k], c)
}

pub proof fn lemma_hex_len(b: Seq<u8>)
    ensures
        hex(b).len() == 2 * b.len(),
    decreases b.len(),
{
    if b.len() > 0 {
        lemma_hex_len(b.drop_last());
    }
}

pub proof fn lemma_hex_index(b: Seq<u8>, k: int)
    requires
        0 <= k < b.len(),
    ensures
        hex(b).len() == 2 * b.len(),
        hex(b)[2 * k] == hex_digit(b[k] / 16),
        hex(b)[2 * k + 1] == hex_digit(b[k] % 16),
    decreases b.len(),
{
    lemma_hex_len(b);
    lemma_hex_len(b.drop_last());
    if k < b.len() - 1 {
        lemma_hex_index(b.drop_last(), k);
    }
}

pub proof fn lemma_hex_chars(b: Seq<u8>, c: u8)
    requires
        hex_value(c) is None,
    ensures
        free_of(hex(b), c),
{
    lemma_hex_len(b);
    assert forall|i: int| 0 <= i < hex(b).len() implies hex(b)[i] != c by {
        let k = i / 2;
        lemma_hex_index(b, k);
        if i % 2 == 0 {
            assert(i == 2 * k);
        } else {
            assert(i == 2 * k + 1);
        }
    }
}

pub proof fn lemma_dec_digits(n: nat)
    ensures
        dec(n).len() > 0,
        forall|i: int| 0 <= i < dec(n).len() ==> is_digit(#[trigger] dec(n)[i]),
        dec_value(dec(n)) == n,
    decreases n,
{
    if n >= 10 {
        lemma_dec_digits(n / 10);
        assert(dec(n).drop_last() =~= dec(n / 10));
        vstd::arithmetic::div_mod::lemma_fundamental_div_mod(n as int, 10);
        let d = (48 + n % 10) as u8;
        assert(dec(n).last() == d);
        assert(d - 48 == n % 10);
        assert(dec_value(dec(n)) == dec_value(dec(n / 10)) * 10 + (n % 10));
        assert(dec_value(dec(n / 10)) == n / 10);
        assert(n == (n / 10) * 10 + n % 10);
        assert(dec_value(dec(n)) == n);
    } else {
        assert(dec(n).drop_last() =~= Seq::<u8>::empty());
        let d = (48 + n) as u8;
        assert(dec(n).last() == d);
        assert(d - 48 == n);
        assert(dec_value(dec(n).drop_last()) == 0);
        assert(dec_value(dec(n)) == n);
    }
}

pub proof fn lemma_dec_value_prefix(s: Seq<u8>, i: int)
    requires
        0 <= i <= s.len(),
    ensures
        dec_value(s.subrange(0, i)) <= dec_value(s),
    decreases s.len() - i,
{
    if i < s.len() {
        lemma_dec_value_prefix(s, i + 1);
        assert(s.subrange(0, i + 1).drop_last() =~= s.subrange(0, i));
    } else {
        assert(s.subrange(0, i) =~= s);
    }
}

pub proof fn lemma_join_push(ts: Seq<Seq<u8>>, t: Seq<u8>, sep: u8)
    requires
        ts.len() > 0,
    ensures
        join(ts.push(t), sep) == join(ts, sep) + seq![sep] + t,
{
    assert(ts.push(t).drop_last() =~= ts);
}

/// A separator never occurs inside a token, so the joined text gives its tokens back.
pub proof fn lemma_join_injective(a: Seq<Seq<u8>>, b: Seq<Seq<u8>>, sep: u8)
    requires
        a.len() > 0,
        b.len() > 0,
        all_free_of(a, sep),
        all_free_of(b, sep),
        join(a, sep) == join(b, sep),
    ensures
        a == b,
    decreases a.len() + b.len(),
{
    let s = join(a, sep);
    if a.len() == 1 && b.len() == 1 {
        assert(a =~= b);
    } else if a.len() == 1 {
        let p = join(b.drop_last(), sep).len() as int;
        assert(s[p] == sep);
        assert(free_of(a[0], sep));
    } else if b.len() == 1 {
        let p = join(a.drop_last(), sep).len() as int;
        assert(s[p] == sep);
        assert(free_of(b[0], sep));
    } else {
        let la = a.last();
        let lb = b.last();
        let n = s.len() as int;
        assert(free_of(la, sep));
        assert(free_of(lb, sep));
        if la.len() < lb.len() {
            let p = n - la.len() - 1;
            assert(s[p] == sep);
            assert(s[p] == lb[p - (n - lb.len())]);
        } else if lb.len() < la.len() {
            let p = n - lb.len() - 1;
            assert(s[p] == sep);
            assert(s[p] == la[p - (n - la.len())]);
        }
        assert(la =~= s.subrange(n - la.len(), n));
        assert(lb =~= s.subrange(n - lb.len(), n));
        let pa = join(a.drop_last(), sep);
        let pb = join(b.drop_last(), sep);
        assert(pa =~= s.subrange(0, pa.len() as int));
        assert(pb =~= s.subrange(0, pb.len() as int));
        assert(all_free_of(a.drop_last(), sep)) by {
            assert forall|k: int| 0 <= k < a.drop_last().len() implies free_of(
                #[trigger] a.drop_last()[k],
                sep,
            ) by {
                assert(a.drop_last()[k] == a[k]);
            }
        }
        assert(all_free_of(b.drop_last(), sep)) by {
            assert forall|k: int| 0 <= k < b.drop_last().len() implies free_of(
                #[trigger] b.drop_last()[k],
                sep,
            ) by {
                assert(b.drop_last()[k] == b[k]);
            }
        }
        lemma_join_injective(a.drop_last(), b.drop_last(), sep);
        assert(a =~= b.drop_last().push(lb));
        assert(b =~= b.drop_last().push(lb));
    }
}

/// Appends the hex text of `b`.
pub fn push_hex(out: &mut Vec<u8>, b: &[u8])
    ensures
        final(out)@ == old(out)@ + hex(b@),
{
    let ghost start = out@;
    let mut i: usize = 0;
    while i < b.len()
        invariant
            i <= b.len(),
            out@ == start + hex(b@.subrange(0, i as int)),
        decreases b.len() - i,
    {
        let x = b[i];
        let hi = x / 16;
        let lo = x % 16;
        out.push(if hi < 10 { 48 + hi } else { 87 + hi });
        out.push(if lo < 10 { 48 + lo } else { 87 + lo });
        proof {
            assert(b@.subrange(0, i + 1).drop_last() =~= b@.subrange(0, i as int));
        }
        i = i + 1;
        proof {
            assert(out@ =~= start + hex(b@.subrange(0, i as int)));
        }
    }
    proof {
        assert(b@.subrange(0, b.len() as int) =~= b@);
    }
}

fn nibble(c: u8) -> (r: Option<u8>)
    ensures
        r == hex_value(c),
{
    if 48 <= c && c <= 57 {
        Some(c - 48)
    } else if 97 <= c && c <= 102 {
        Some(c - 87)
    } else {
        None
    }
}

/// Reads hex text back into bytes: whatever `push_hex` wrote is read back as it was.
pub fn parse_hex(t: &[u8]) -> (r: Option<Vec<u8>>)
    ensures
        forall|b: Seq<u8>| t@ == hex(b) ==> (r matches Some(v) && v@ == b),
{
    if t.len() % 2 != 0 {
        proof {
            assert forall|b: Seq<u8>| t@ == hex(b) implies false by {
                lemma_hex_len(b);
            }
        }
        return None;
    }
    let mut out: Vec<u8> = Vec::new();
    let mut i: usize = 0;
    while i < t.len() / 2
        invariant
            t.len() % 2 == 0,
            i <= t.len() / 2,
            out@.len() == i,
            forall|b: Seq<u8>|
                t@ == hex(b) ==> #[trigger] out@ =~= b.subrange(0, i as int),
        decreases t.len() / 2 - i,
    {
        let hi = nibble(t[2 * i]);
        let lo = nibble(t[2 * i + 1]);
        match (hi, lo) {
            (Some(h), Some(l)) => {
                let ghost prev = out@;
                out.push(h * 16 + l);
                proof {
                    assert forall|b: Seq<u8>| t@ == hex(b) implies #[trigger] out@ =~= b.subrange(
                        0,
                        i + 1,
                    ) by {
                        lemma_hex_len(b);
                        lemma_hex_index(b, i as int);
                        let x = b[i as int];
                        assert(hex_value(hex_digit(x / 16)) == Some(x / 16));
                        assert(hex_value(hex_digit(x % 16)) == Some(x % 16));
                        assert(prev =~= b.subrange(0, i as int));
                    }
                }
            },
            _ => {
                proof {
                    assert forall|b: Seq<u8>| t@ == hex(b) implies false by {
                        lemma_hex_len(b);
                        lemma_hex_index(b, i as int);
                        let x = b[i as int];
                        assert(hex_value(hex_digit(x / 16)) == Some(x / 16));
                        assert(hex_value(hex_digit(x % 16)) == Some(x % 16));
                    }
                }
                return None;
            },
        }
        i = i + 1;
    }
    proof {
        assert forall|b: Seq<u8>| t@ == hex(b) implies out@ == b by {
            lemma_hex_len(b);
            assert(out@ =~= b.subrange(0, i as int));
            assert(b.subrange(0, i as int) =~= b);
        }
    }
    Some(out)
}

/// Appends the decimal digits of `n`.
pub fn push_dec(out: &mut Vec<u8>, n: u64)
    ensures
        final(out)@ == old(out)@ + dec(n as nat),
    decreases n,
{
    if n >= 10 {
        push_dec(out, n / 10);
    }
    out.push(48 + (n % 10) as u8);
    proof {
        if n < 10 {
            assert(final(out)@ =~= old(out)@ + dec(n as nat));
        } else {
            assert(final(out)@ =~= old(out)@ + dec(n as nat));
        }
    }
}

/// Reads decimal digits back into a number: whatever `push_dec` wrote is read back as it was.
pub fn parse_dec(t: &[u8]) -> (r: Option<u64>)
    ensures
        forall|n: u64| t@ == dec(n as nat) ==> r == Some(n),
{
    if t.len() == 0 {
        proof {
            assert forall|n: u64| t@ == dec(n as nat) implies false by {
                lemma_dec_digits(n as nat);
            }
        }
        return None;
    }
    let mut v: u64 = 0;
    let mut i: usize = 0;
    while i < t.len()
        invariant
            i <= t.len(),
            v as nat == dec_value(t@.subrange(0, i as int)),
        decreases t.len() - i,
    {
        let c = t[i];
        proof {
            assert(t@.subrange(0, i + 1).drop_last() =~= t@.subrange(0, i as int));
        }
        if c < 48 || c > 57 {
            proof {
                assert forall|n: u64| t@ == dec(n as nat) implies false by {
                    lemma_dec_digits(n as nat);
                    assert(is_digit(dec(n as nat)[i as int]));
                }
            }
            return None;
        }
        match v.checked_mul(10) {
            Some(m) => match m.checked_add((c - 48) as u64) {
                Some(w) => {
                    v = w;
                },
                None => {
                    proof {
                        assert forall|n: u64| t@ == dec(n as nat) implies false by {
                            lemma_dec_digits(n as nat);
                            lemma_dec_value_prefix(t@, i + 1);
                        }
                    }
                    return None;
                },
            },
            None => {
                proof {
                    assert forall|n: u64| t@ == dec(n as nat) implies false by {
                        lemma_dec_digits(n as nat);
                        lemma_dec_value_prefix(t@, i + 1);
                    }
                }
                return None;
            },
        }
        i = i + 1;
    }
    proof {
        assert(t@.subrange(0, i as int) =~= t@);
        assert forall|n: u64| t@ == dec(n as nat) implies v == n by {
            lemma_dec_digits(n as nat);
        }
    }
    Some(v)
}

/// Cuts `s` at every `sep`: the pieces hold no `sep`, and joined they give `s` back.
pub fn split(s: &[u8], sep: u8) -> (r: Vec<Vec<u8>>)
    ensures
        r@.len() > 0,
        all_free_of(r@.map_values(|v: Vec<u8>| v@), sep),
        join(r@.map_values(|v: Vec<u8>| v@), sep) == s@,
{
    let mut done: Vec<Vec<u8>> = Vec::new();
    let mut cur: Vec<u8> = Vec::new();
    let mut i: usize = 0;
    while i < s.len()
        invariant
            i <= s.len(),
            free_of(cur@, sep),
            all_free_of(done@.map_values(|v: Vec<u8>| v@), sep),
            join(done@.map_values(|v: Vec<u8>| v@).push(cur@), sep) == s@.subrange(0, i as int),
        decreases s.len() - i,
    {
        let ghost pieces = done@.map_values(|v: Vec<u8>| v@);
        let c = s[i];
        if c == sep {
            let piece = cur;
            cur = Vec::new();
            done.push(piece);
            proof {
                let now = done@.map_values(|v: Vec<u8>| v@);
                assert(now =~= pieces.push(piece@));
                lemma_join_push(now, cur@, sep);
                assert(join(now.push(cur@), sep) =~= s@.subrange(0, i + 1));
            }
        } else {
            let ghost old_cur = cur@;
            cur.push(c);
            proof {
                assert(cur@ =~= old_cur.push(c));
                assert(s@.subrange(0, i + 1) =~= s@.subrange(0, i as int).push(c));
                if pieces.len() == 0 {
                    assert(pieces.push(cur@).len() == 1);
                    assert(pieces.push(old_cur).len() == 1);
                    assert(join(pieces.push(cur@), sep) == cur@);
                    assert(join(pieces.push(old_cur), sep) == old_cur);
                } else {
                    lemma_join_push(pieces, cur@, sep);
                    lemma_join_push(pieces, old_cur, sep);
                }
                assert(join(pieces.push(cur@), sep) =~= s@.subrange(0, i + 1));
            }
        }
        i = i + 1;
    }
    let ghost pieces = done@.map_values(|v: Vec<u8>| v@);
    done.push(cur);
    proof {
        assert(done@.map_values(|v: Vec<u8>| v@) =~= pieces.push(cur@));
        assert(s@.subrange(0, s.len() as int) =~= s@);
    }
    done
}

/// Byte-wise equality of two slices.
pub fn same_bytes(a: &[u8], b: &[u8]) -> (r: bool)
    ensures
        r == (a@ == b@),
{
    if a.len() != b.len() {
        return false;
    }
    let mut i: usize = 0;
    while i < a.len()
        invariant
            i <= a.len(),
            a.len() == b.len(),
            forall|k: int| 0 <= k < i ==> a@[k] == b@[k],
        decreases a.len() - i,
    {
        if a[i] != b[i] {
            return false;
        }
        i = i + 1;
    }
    proof {
        assert(a@ =~= b@);
    }
    true
}

} // verus!

//! Byte-level text primitives: line splitting, trimming, tokenising, and
//! decimal conversion. All specifications are stated over `Seq<u8>` views.
use vstd::prelude::*;
use vstd::slice::slice_to_vec;
use vstd::string::StringSliceAdditionalSpecFns;

verus! {

/// Line feed.
pub open spec fn nl() -> u8 {
    '\n' as u8
}

/// ASCII whitespace: tab, line feed, vertical tab, form feed, carriage return, space.
pub open spec fn is_ws(b: u8) -> bool {
    b == 9 || b == 10 || b == 11 || b == 12 || b == 13 || b == 32
}

pub open spec fn is_digit(b: u8) -> bool {
    ('0' as u8) <= b <= ('9' as u8)
}

pub fn is_ws_byte(b: u8) -> (r: bool)
    ensures
        r == is_ws(b),
{
    b == 9 || b == 10 || b == 11 || b == 12 || b == 13 || b == 32
}

pub fn is_digit_byte(b: u8) -> (r: bool)
    ensures
        r == is_digit(b),
{
    48 <= b && b <= 57
}

/// The bytes of a string, as a vector.
pub fn str_bytes(s: &str) -> (v: Vec<u8>)
    ensures
        v@ == s.spec_bytes(),
{
    slice_to_vec(s.as_bytes())
}

/// Equality of two byte strings.
pub fn bytes_eq(a: &[u8], b: &[u8]) -> (r: bool)
    ensures
        r == (a@ == b@),
{
    if a.len() != b.len() {
        assert(a@ != b@) by {
            assert(a@.len() != b@.len());
        }
        return false;
    }
    let n = a.len();
    let mut i: usize = 0;
    while i < n
        invariant
            n == a@.len() == b@.len(),
            0 <= i <= n,
            forall|j: int| 0 <= j < i ==> a@[j] == b@[j],
        decreases n - i,
    {
        if a[i] != b[i] {
            return false;
        }
        i += 1;
    }
    assert(a@ =~= b@);
    true
}

/// Appends the bytes of `src` to `dst`.
pub fn push_bytes(dst: &mut Vec<u8>, src: &[u8])
    ensures
        final(dst)@ == old(dst)@ + src@,
{
    let n = src.len();
    let mut i: usize = 0;
    while i < n
        invariant
            n == src@.len(),
            0 <= i <= n,
            dst@ == old(dst)@ + src@.take(i as int),
        decreases n - i,
    {
        dst.push(src[i]);
        assert(src@.take(i + 1) =~= src@.take(i as int).push(src@[i as int]));
        i += 1;
    }
    assert(src@.take(n as int) =~= src@);
}

/// The input without leading ASCII whitespace.
pub open spec fn trim_start_spec(s: Seq<u8>) -> Seq<u8>
    decreases s.len(),
{
    if s.len() > 0 && is_ws(s[0]) {
        trim_start_spec(s.drop_first())
    } else {
        s
    }
}

/// The input without trailing ASCII whitespace.
pub open spec fn trim_end_spec(s: Seq<u8>) -> Seq<u8>
    decreases s.len(),
{
    if s.len() > 0 && is_ws(s.last()) {
        trim_end_spec(s.drop_last())
    } else {
        s
    }
}

/// The input without leading or trailing ASCII whitespace.
pub open spec fn trim_spec(s: Seq<u8>) -> Seq<u8> {
    trim_end_spec(trim_start_spec(s))
}

/// Trims ASCII whitespace from both ends.
pub fn trim_bytes(s: &[u8]) -> (v: Vec<u8>)
    ensures
        v@ == trim_spec(s@),
{
    let n = s.len();
    let mut lo: usize = 0;
    assert(s@.skip(0) =~= s@);
    while lo < n && is_ws_byte(s[lo])
        invariant
            n == s@.len(),
            0 <= lo <= n,
            trim_start_spec(s@) == trim_start_spec(s@.skip(lo as int)),
        decreases n - lo,
    {
        assert(s@.skip(lo as int).drop_first() =~= s@.skip(lo + 1));
        lo += 1;
    }
    assert(trim_start_spec(s@.skip(lo as int)) == s@.skip(lo as int));
    let mut hi: usize = n;
    while hi > lo && is_ws_byte(s[hi - 1])
        invariant
            n == s@.len(),
            0 <= lo <= hi <= n,
            trim_start_spec(s@) == s@.skip(lo as int),
            trim_end_spec(s@.skip(lo as int)) == trim_end_spec(s@.subrange(lo as int, hi as int)),
        decreases hi,
    {
        assert(s@.subrange(lo as int, hi as int).drop_last() =~= s@.subrange(
            lo as int,
            hi - 1,
        ));
        hi -= 1;
    }
    assert(trim_end_spec(s@.subrange(lo as int, hi as int)) == s@.subrange(lo as int, hi as int));
    let mut v: Vec<u8> = Vec::new();
    let mut i: usize = lo;
    while i < hi
        invariant
            n == s@.len(),
            0 <= lo <= i <= hi <= n,
            v@ == s@.subrange(lo as int, i as int),
        decreases hi - i,
    {
        v.push(s[i]);
        assert(s@.subrange(lo as int, i + 1) =~= s@.subrange(lo as int, i as int).push(
            s@[i as int],
        ));
        i += 1;
    }
    v
}

/// The lines of `s` followed by the pending partial line `cur`, where lines
/// are separated by line feeds and a final line feed opens no further line.
pub open spec fn lines_from(s: Seq<u8>, cur: Seq<u8>) -> Seq<Seq<u8>>
    decreases s.len(),
{
    if s.len() == 0 {
        if cur.len() == 0 {
            Seq::empty()
        } else {
            seq![cur]
        }
    } else if s[0] == nl() {
        seq![cur] + lines_from(s.drop_first(), Seq::empty())
    } else {
        lines_from(s.drop_first(), cur.push(s[0]))
    }
}

/// The lines of a byte string.
pub open spec fn lines_spec(s: Seq<u8>) -> Seq<Seq<u8>> {
    lines_from(s, Seq::empty())
}

/// Splits a byte string into lines.
pub fn split_lines(data: &[u8]) -> (r: Vec<Vec<u8>>)
    ensures
        r@.map_values(|l: Vec<u8>| l@) == lines_spec(data@),
{
    let n = data.len();
    let mut out: Vec<Vec<u8>> = Vec::new();
    let mut cur: Vec<u8> = Vec::new();
    let mut i: usize = 0;
    assert(data@.skip(0) =~= data@);
    assert(out@.map_values(|l: Vec<u8>| l@) =~= Seq::<Seq<u8>>::empty());
    assert(Seq::<Seq<u8>>::empty() + lines_from(data@, Seq::empty()) =~= lines_spec(data@));
    while i < n
        invariant
            n == data@.len(),
            0 <= i <= n,
            lines_spec(data@) == out@.map_values(|l: Vec<u8>| l@) + lines_from(
                data@.skip(i as int),
                cur@,
            ),
        decreases n - i,
    {
        assert(data@.skip(i as int).drop_first() =~= data@.skip(i + 1));
        let ghost rest = data@.skip(i as int);
        let b = data[i];
        if b == 10 {
            let ghost prev = out@.map_values(|l: Vec<u8>| l@);
            let done = cur;
            cur = Vec::new();
            out.push(done);
            proof {
                assert(rest[0] == nl());
                assert(lines_from(rest, done@) == seq![done@] + lines_from(
                    data@.skip(i + 1),
                    Seq::empty(),
                ));
                assert(out@.map_values(|l: Vec<u8>| l@) =~= prev + seq![done@]);
                assert(prev + (seq![done@] + lines_from(data@.skip(i + 1), Seq::empty())) =~= (prev
                    + seq![done@]) + lines_from(data@.skip(i + 1), Seq::empty()));
            }
        } else {
            let ghost prev_cur = cur@;
            cur.push(b);
            assert(lines_from(rest, prev_cur) == lines_from(data@.skip(i + 1), cur@)) by {
                assert(rest[0] != nl());
                assert(cur@ == prev_cur.push(rest[0]));
            }
        }
        i += 1;
    }
    assert(data@.skip(n as int) =~= Seq::<u8>::empty());
    if cur.len() > 0 {
        let ghost prev = out@.map_values(|l: Vec<u8>| l@);
        let done = cur;
        out.push(done);
        assert(out@.map_values(|l: Vec<u8>| l@) =~= prev + seq![done@]);
    }
    out
}

/// The whitespace-separated tokens of `s`, with `cur` the pending token.
pub open spec fn tokens_from(s: Seq<u8>, cur: Seq<u8>) -> Seq<Seq<u8>>
    decreases s.len(),
{
    if s.len() == 0 {
        if cur.len() == 0 {
            Seq::empty()
        } else {
            seq![cur]
        }
    } else if is_ws(s[0]) {
        if cur.len() == 0 {
            tokens_from(s.drop_first(), Seq::empty())
        } else {
            seq![cur] + tokens_from(s.drop_first(), Seq::empty())
        }
    } else {
        tokens_from(s.drop_first(), cur.push(s[0]))
    }
}

/// The whitespace-separated tokens of a byte string.
pub open spec fn tokens_spec(s: Seq<u8>) -> Seq<Seq<u8>> {
    tokens_from(s, Seq::empty())
}

/// Splits a byte string into whitespace-separated tokens.
pub fn split_tokens(data: &[u8]) -> (r: Vec<Vec<u8>>)
    ensures
        r@.map_values(|l: Vec<u8>| l@) == tokens_spec(data@),
{
    let n = data.len();
    let mut out: Vec<Vec<u8>> = Vec::new();
    let mut cur: Vec<u8> = Vec::new();
    let mut i: usize = 0;
    assert(data@.skip(0) =~= data@);
    assert(out@.map_values(|l: Vec<u8>| l@) =~= Seq::<Seq<u8>>::empty());
    assert(Seq::<Seq<u8>>::empty() + tokens_from(data@, Seq::empty()) =~= tokens_spec(data@));
    while i < n
        invariant
            n == data@.len(),
            0 <= i <= n,
            tokens_spec(data@) == out@.map_values(|l: Vec<u8>| l@) + tokens_from(
                data@.skip(i as int),
                cur@,
            ),
        decreases n - i,
    {
        assert(data@.skip(i as int).drop_first() =~= data@.skip(i + 1));
        let ghost rest = data@.skip(i as int);
        let ghost prev_cur = cur@;
        let b = data[i];
        if is_ws_byte(b) {
            assert(is_ws(rest[0]));
            if cur.len() > 0 {
                let ghost prev = out@.map_values(|l: Vec<u8>| l@);
                let done = cur;
                cur = Vec::new();
                out.push(done);
                proof {
                    assert(tokens_from(rest, done@) == seq![done@] + tokens_from(
                        data@.skip(i + 1),
                        Seq::empty(),
                    ));
                    assert(out@.map_values(|l: Vec<u8>| l@) =~= prev + seq![done@]);
                    assert(prev + (seq![done@] + tokens_from(data@.skip(i + 1), Seq::empty()))
                        =~= (prev + seq![done@]) + tokens_from(data@.skip(i + 1), Seq::empty()));
                }
            } else {
                assert(prev_cur =~= Seq::<u8>::empty());
                assert(tokens_from(rest, prev_cur) == tokens_from(
                    data@.skip(i + 1),
                    Seq::empty(),
                ));
            }
        } else {
            cur.push(b);
            assert(tokens_from(rest, prev_cur) == tokens_from(data@.skip(i + 1), cur@)) by {
                assert(!is_ws(rest[0]));
                assert(cur@ == prev_cur.push(rest[0]));
            }
        }
        i += 1;
    }
    assert(data@.skip(n as int) =~= Seq::<u8>::empty());
    if cur.len() > 0 {
        let ghost prev = out@.map_values(|l: Vec<u8>| l@);
        let done = cur;
        out.push(done);
        assert(out@.map_values(|l: Vec<u8>| l@) =~= prev + seq![done@]);
    }
    out
}

/// The value of the decimal digit string `s` appended to the accumulator `acc`.
pub open spec fn dec_val_from(s: Seq<u8>, acc: nat) -> nat
    decreases s.len(),
{
    if s.len() == 0 {
        acc
    } else {
        dec_val_from(s.drop_first(), (acc * 10 + (s[0] - ('0' as u8))) as nat)
    }
}

pub open spec fn all_digits(s: Seq<u8>) -> bool {
    forall|i: int| 0 <= i < s.len() ==> is_digit(s[i])
}

/// The numeric value of a decimal digit string.
pub open spec fn dec_val(s: Seq<u8>) -> nat {
    dec_val_from(s, 0)
}

/// A byte string parses as a `u32` when it is nonempty, all digits, and its
/// value fits.
pub open spec fn parse_u32_spec(s: Seq<u8>) -> Option<u32> {
    if s.len() > 0 && all_digits(s) && dec_val(s) <= u32::MAX {
        Some(dec_val(s) as u32)
    } else {
        None
    }
}

proof fn lemma_dec_val_from_lower(s: Seq<u8>, acc: nat)
    requires
        all_digits(s),
    ensures
        dec_val_from(s, acc) >= acc,
    decreases s.len(),
{
    if s.len() > 0 {
        assert(is_digit(s[0]));
        assert(all_digits(s.drop_first())) by {
            assert(forall|i: int|
                0 <= i < s.drop_first().len() ==> s.drop_first()[i] == s[i + 1]);
        }
        lemma_dec_val_from_lower(s.drop_first(), (acc * 10 + (s[0] - ('0' as u8))) as nat);
        assert(acc * 10 >= acc) by (nonlinear_arith);
    }
}

/// Parses a byte string as an unsigned decimal number.
pub fn parse_u32(s: &[u8]) -> (r: Option<u32>)
    ensures
        r == parse_u32_spec(s@),
{
    let n = s.len();
    if n == 0 {
        return None;
    }
    let mut acc: u64 = 0;
    let mut i: usize = 0;
    assert(s@.skip(0) =~= s@);
    while i < n
        invariant
            n == s@.len(),
            0 <= i <= n,
            acc <= u32::MAX,
            forall|j: int| 0 <= j < i ==> is_digit(s@[j]),
            dec_val(s@) == dec_val_from(s@.skip(i as int), acc as nat),
        decreases n - i,
    {
        assert(s@.skip(i as int).drop_first() =~= s@.skip(i + 1));
        let b = s[i];
        if !is_digit_byte(b) {
            return None;
        }
        acc = acc * 10 + (b - 48) as u64;
        i += 1;
        if acc > u32::MAX as u64 {
            proof {
                if all_digits(s@) {
                    assert(all_digits(s@.skip(i as int))) by {
                        assert(forall|j: int|
                            0 <= j < s@.skip(i as int).len() ==> s@.skip(i as int)[j] == s@[j
                                + i]);
                    }
                    lemma_dec_val_from_lower(s@.skip(i as int), acc as nat);
                }
            }
            return None;
        }
    }
    assert(s@.skip(n as int) =~= Seq::<u8>::empty());
    Some(acc as u32)
}

/// The decimal digit string of `n`.
pub open spec fn dec_rep(n: nat) -> Seq<u8>
    decreases n,
{
    if n < 10 {
        seq![(('0' as u8) + n) as u8]
    } else {
        dec_rep(n / 10).push((('0' as u8) + n % 10) as u8)
    }
}

/// Writes `n` in decimal.
pub fn u32_to_dec(n: u32) -> (v: Vec<u8>)
    ensures
        v@ == dec_rep(n as nat),
{
    u64_to_dec(n as u64)
}

/// Writes `n` in decimal.
pub fn u64_to_dec(n: u64) -> (v: Vec<u8>)
    ensures
        v@ == dec_rep(n as nat),
{
    let mut rev: Vec<u8> = Vec::new();
    let mut m: u64 = n;
    while m >= 10
        invariant
            dec_rep(n as nat) =~= dec_rep(m as nat) + rev@.reverse(),
        decreases m,
    {
        let ghost prev = rev@;
        let d: u8 = 48 + (m % 10) as u8;
        rev.push(d);
        proof {
            assert(dec_rep(m as nat) =~= dec_rep((m as nat) / 10).push(
                (48 + (m as nat) % 10) as u8,
            ));
            assert(rev@.reverse() =~= seq![d] + prev.reverse());
            assert(dec_rep((m as nat) / 10) + rev@.reverse() =~= dec_rep(m as nat)
                + prev.reverse());
        }
        m = m / 10;
    }
    let ghost prev = rev@;
    let d: u8 = 48 + m as u8;
    rev.push(d);
    proof {
        assert(dec_rep(m as nat) =~= seq![d]);
        assert(rev@.reverse() =~= seq![d] + prev.reverse());
        assert(dec_rep(n as nat) =~= rev@.reverse());
    }
    let len = rev.len();
    let mut v: Vec<u8> = Vec::new();
    let mut i: usize = 0;
    while i < len
        invariant
            len == rev@.len(),
            0 <= i <= len,
            v@ =~= rev@.reverse().take(i as int),
        decreases len - i,
    {
        v.push(rev[len - 1 - i]);
        assert(rev@.reverse().take(i + 1) =~= rev@.reverse().take(i as int).push(
            rev@.reverse()[i as int],
        ));
        i += 1;
    }
    assert(rev@.reverse().take(len as int) =~= rev@.reverse());
    v
}

/// A decimal representation is nonempty and all digits.
pub proof fn lemma_dec_rep_digits(n: nat)
    ensures
        dec_rep(n).len() >= 1,
        all_digits(dec_rep(n)),
    decreases n,
{
    if n < 10 {
        assert(is_digit(dec_rep(n)[0]));
    } else {
        lemma_dec_rep_digits(n / 10);
        let prefix = dec_rep(n / 10);
        let d = ((('0' as u8) + n % 10)) as u8;
        assert forall|i: int| 0 <= i < dec_rep(n).len() implies is_digit(
            #[trigger] dec_rep(n)[i],
        ) by {
            if i < prefix.len() {
                assert(dec_rep(n)[i] == prefix[i]);
            } else {
                assert(dec_rep(n)[i] == d);
            }
        }
    }
}

proof fn lemma_dec_val_from_push(s: Seq<u8>, d: u8, acc: nat)
    requires
        all_digits(s),
        is_digit(d),
    ensures
        dec_val_from(s.push(d), acc) == dec_val_from(s, acc) * 10 + (d - ('0' as u8)),
    decreases s.len(),
{
    assert(is_digit(d));
    assert(d >= ('0' as u8));
    if s.len() == 0 {
        assert(s.push(d)[0] == d);
        assert(s.push(d).drop_first() =~= Seq::<u8>::empty());
        assert(dec_val_from(s.push(d), acc) == dec_val_from(
            Seq::<u8>::empty(),
            (acc * 10 + (d - ('0' as u8))) as nat,
        ));
        assert((acc * 10 + (d - ('0' as u8))) as nat == acc * 10 + (d - ('0' as u8)));
    } else {
        assert(is_digit(s[0]));
        assert(s.push(d)[0] == s[0]);
        assert(s.push(d).drop_first() =~= s.drop_first().push(d));
        assert(all_digits(s.drop_first())) by {
            assert(forall|i: int|
                0 <= i < s.drop_first().len() ==> s.drop_first()[i] == s[i + 1]);
        }
        let acc2 = (acc * 10 + (s[0] - ('0' as u8))) as nat;
        assert(acc2 == acc * 10 + (s[0] - ('0' as u8)));
        lemma_dec_val_from_push(s.drop_first(), d, acc2);
        assert(dec_val_from(s.push(d), acc) == dec_val_from(s.drop_first().push(d), acc2));
        assert(dec_val_from(s, acc) == dec_val_from(s.drop_first(), acc2));
    }
}

/// Reading a decimal representation back gives the number it wrote.
pub proof fn lemma_dec_rep_val(n: nat)
    ensures
        dec_val(dec_rep(n)) == n,
    decreases n,
{
    if n < 10 {
        let c = ((('0' as u8) + n)) as u8;
        assert(c == 48 + n);
        assert(dec_rep(n) =~= seq![c]);
        assert(dec_rep(n).drop_first() =~= Seq::<u8>::empty());
        assert(dec_val_from(seq![c], 0) == dec_val_from(
            Seq::<u8>::empty(),
            (0 * 10 + (c - ('0' as u8))) as nat,
        ));
        assert((0 * 10 + (c - ('0' as u8))) as nat == n);
    } else {
        lemma_dec_rep_val(n / 10);
        lemma_dec_rep_digits(n / 10);
        let d = ((('0' as u8) + n % 10)) as u8;
        assert(d == 48 + n % 10);
        assert(is_digit(d));
        lemma_dec_val_from_push(dec_rep(n / 10), d, 0);
        assert(dec_val(dec_rep(n)) == dec_val(dec_rep(n / 10)) * 10 + (d - ('0' as u8)));
        assert((n / 10) * 10 + n % 10 == n);
    }
}

/// A nonempty string without whitespace is one single token.
pub proof fn lemma_tokens_single(s: Seq<u8>, cur: Seq<u8>)
    requires
        forall|i: int| 0 <= i < s.len() ==> !is_ws(#[trigger] s[i]),
        cur.len() + s.len() > 0,
    ensures
        tokens_from(s, cur) == seq![cur + s],
    decreases s.len(),
{
    if s.len() == 0 {
        assert(cur + s =~= cur);
    } else {
        assert(!is_ws(s[0]));
        assert(forall|i: int|
            0 <= i < s.drop_first().len() ==> s.drop_first()[i] == s[i + 1]);
        lemma_tokens_single(s.drop_first(), cur.push(s[0]));
        assert(cur.push(s[0]) + s.drop_first() =~= cur + s);
    }
}

/// A chunk without line feeds, a line feed, then the rest: the chunk closes
/// the pending line and the rest follows.
pub proof fn lemma_lines_chunk(d: Seq<u8>, rest: Seq<u8>, cur: Seq<u8>)
    requires
        forall|i: int| 0 <= i < d.len() ==> #[trigger] d[i] != nl(),
    ensures
        lines_from(d + seq![nl()] + rest, cur) == seq![cur + d] + lines_from(rest, Seq::empty()),
    decreases d.len(),
{
    let whole = d + seq![nl()] + rest;
    if d.len() == 0 {
        assert(whole[0] == nl());
        assert(whole.drop_first() =~= rest);
        assert(cur + d =~= cur);
    } else {
        assert(whole[0] == d[0]);
        assert(whole.drop_first() =~= d.drop_first() + seq![nl()] + rest);
        assert(forall|i: int|
            0 <= i < d.drop_first().len() ==> d.drop_first()[i] == d[i + 1]);
        lemma_lines_chunk(d.drop_first(), rest, cur.push(d[0]));
        assert(cur.push(d[0]) + d.drop_first() =~= cur + d);
    }
}

/// Trimming moves nothing from a string without whitespace.
pub proof fn lemma_trim_no_ws(s: Seq<u8>)
    requires
        forall|i: int| 0 <= i < s.len() ==> !is_ws(#[trigger] s[i]),
    ensures
        trim_spec(s) == s,
{
    assert(trim_start_spec(s) == s);
    assert(trim_end_spec(s) == s);
}

} // verus!

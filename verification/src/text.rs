//! Byte-string helpers. The library carries all text as UTF-8 bytes in
//! `Vec<u8>` values; string literals enter through [`lit_bytes`] and their
//! UTF-8 encoding (`spec_bytes`).

use vstd::prelude::*;
use vstd::string::StringSliceAdditionalSpecFns;

verus! {

/// A one-byte whitespace token: the ASCII whitespace characters.
pub open spec fn is_ws(b: u8) -> bool {
    b == 32 || (9 <= b <= 13)
}

/// The bytes of a string literal.
pub fn lit_bytes(s: &str) -> (r: Vec<u8>)
    ensures
        r@ == s.spec_bytes(),
{
    vstd::slice::slice_to_vec(s.as_bytes())
}

/// Append the bytes of a string literal.
pub fn push_lit(out: &mut Vec<u8>, s: &str)
    ensures
        final(out)@ == old(out)@ + s.spec_bytes(),
{
    let b = s.as_bytes();
    let n: usize = b.len();
    let mut i: usize = 0;
    while i < n
        invariant
            b@.len() == n,
            b@ == s.spec_bytes(),
            i <= n,
            out@ == old(out)@ + b@.take(i as int),
        decreases n - i,
    {
        out.push(*vstd::slice::slice_index_get(b, i));
        proof {
            assert(out@ =~= old(out)@ + b@.take(i as int + 1));
        }
        i = i + 1;
    }
    proof {
        assert(old(out)@ + b@.take(n as int) =~= old(out)@ + s.spec_bytes());
    }
}

/// Append a byte string.
pub fn push_bytes(out: &mut Vec<u8>, s: &Vec<u8>)
    ensures
        final(out)@ == old(out)@ + s@,
{
    let n: usize = s.len();
    let mut i: usize = 0;
    while i < n
        invariant
            s@.len() == n,
            i <= n,
            out@ == old(out)@ + s@.take(i as int),
        decreases n - i,
    {
        out.push(s[i]);
        proof {
            assert(out@ =~= old(out)@ + s@.take(i as int + 1));
        }
        i = i + 1;
    }
    proof {
        assert(old(out)@ + s@.take(n as int) =~= old(out)@ + s@);
    }
}

/// An owned copy of a byte string.
pub fn clone_bytes(s: &Vec<u8>) -> (r: Vec<u8>)
    ensures
        r@ == s@,
{
    let mut r: Vec<u8> = Vec::new();
    push_bytes(&mut r, s);
    proof {
        assert(r@ =~= s@);
    }
    r
}

/// Whether two byte strings hold the same bytes.
pub fn bytes_eq(a: &Vec<u8>, b: &Vec<u8>) -> (r: bool)
    ensures
        r <==> a@ == b@,
{
    if a.len() != b.len() {
        proof {
            assert(a@.len() != b@.len());
        }
        return false;
    }
    let n: usize = a.len();
    let mut i: usize = 0;
    while i < n
        invariant
            a@.len() == n,
            b@.len() == n,
            i <= n,
            forall|j: int| 0 <= j < i ==> a@[j] == b@[j],
        decreases n - i,
    {
        if a[i] != b[i] {
            return false;
        }
        i = i + 1;
    }
    proof {
        assert(a@ =~= b@);
    }
    true
}

/// Whether a byte string holds exactly the bytes of a string literal.
pub fn eq_lit(a: &Vec<u8>, s: &str) -> (r: bool)
    ensures
        r <==> a@ == s.spec_bytes(),
{
    let b = s.as_bytes();
    if a.len() != b.len() {
        proof {
            assert(a@.len() != s.spec_bytes().len());
        }
        return false;
    }
    let n: usize = a.len();
    let mut i: usize = 0;
    while i < n
        invariant
            a@.len() == n,
            b@.len() == n,
            b@ == s.spec_bytes(),
            i <= n,
            forall|j: int| 0 <= j < i ==> a@[j] == b@[j],
        decreases n - i,
    {
        if a[i] != *vstd::slice::slice_index_get(b, i) {
            return false;
        }
        i = i + 1;
    }
    proof {
        assert(a@ =~= s.spec_bytes());
    }
    true
}

/// Whether the byte string starts with the given byte.
pub fn starts_byte(s: &Vec<u8>, c: u8) -> (r: bool)
    ensures
        r <==> s@.len() > 0 && s@[0] == c,
{
    s.len() > 0 && s[0] == c
}

/// Whether bytes `a`, `b` occur adjacently in `s`.
pub open spec fn contains_pair(s: Seq<u8>, a: u8, b: u8) -> bool {
    exists|i: int| 0 <= i && i + 1 < s.len() && #[trigger] s[i] == a && s[i + 1] == b
}

pub fn has_pair(s: &Vec<u8>, a: u8, b: u8) -> (r: bool)
    ensures
        r <==> contains_pair(s@, a, b),
{
    if s.len() < 2 {
        return false;
    }
    let n: usize = s.len();
    let mut i: usize = 0;
    while i + 1 < n
        invariant
            s@.len() == n,
            i + 1 <= n,
            forall|j: int| 0 <= j && j + 1 < i + 1 ==> !(#[trigger] s@[j] == a && s@[j + 1] == b),
        decreases n - i,
    {
        if s[i] == a && s[i + 1] == b {
            return true;
        }
        i = i + 1;
    }
    false
}

/// A two-byte UTF-8 whitespace token: the next-line and no-break-space
/// characters.
pub open spec fn is_ws2(a: u8, b: u8) -> bool {
    a == 0xC2 && (b == 0x85 || b == 0xA0)
}

/// A three-byte UTF-8 whitespace token: the ogham space mark, the en-quad
/// through hair-space range, the line and paragraph separators, the
/// narrow no-break and medium mathematical spaces, and the ideographic space.
pub open spec fn is_ws3(a: u8, b: u8, c: u8) -> bool {
    ||| (a == 0xE1 && b == 0x9A && c == 0x80)
    ||| (a == 0xE2 && b == 0x80 && ((0x80 <= c <= 0x8A) || c == 0xA8 || c == 0xA9 || c == 0xAF))
    ||| (a == 0xE2 && b == 0x81 && c == 0x9F)
    ||| (a == 0xE3 && b == 0x80 && c == 0x80)
}

/// The length of the whitespace token at the front of `s`, or zero. On valid
/// UTF-8 these tokens are exactly the encodings of the Unicode whitespace
/// characters, so trimming them trims as `str::trim` does.
pub open spec fn ws_front(s: Seq<u8>) -> int {
    if s.len() >= 1 && is_ws(s[0]) {
        1
    } else if s.len() >= 2 && is_ws2(s[0], s[1]) {
        2
    } else if s.len() >= 3 && is_ws3(s[0], s[1], s[2]) {
        3
    } else {
        0
    }
}

/// The length of the whitespace token at the back of `s`, or zero. In valid
/// UTF-8 this is unambiguous: the lead bytes of the tokens can never be
/// continuation bytes of a longer character.
pub open spec fn ws_back(s: Seq<u8>) -> int {
    if s.len() >= 1 && is_ws(s[s.len() - 1]) {
        1
    } else if s.len() >= 2 && is_ws2(s[s.len() - 2], s[s.len() - 1]) {
        2
    } else if s.len() >= 3 && is_ws3(s[s.len() - 3], s[s.len() - 2], s[s.len() - 1]) {
        3
    } else {
        0
    }
}

/// A byte string with leading whitespace removed.
pub open spec fn trim_front(s: Seq<u8>) -> Seq<u8>
    decreases s.len(),
{
    if ws_front(s) > 0 {
        trim_front(s.skip(ws_front(s)))
    } else {
        s
    }
}

/// A byte string with trailing whitespace removed.
pub open spec fn trim_back(s: Seq<u8>) -> Seq<u8>
    decreases s.len(),
{
    if ws_back(s) > 0 {
        trim_back(s.take(s.len() - ws_back(s)))
    } else {
        s
    }
}

/// A byte string with whitespace removed from both ends.
pub open spec fn trim_spec(s: Seq<u8>) -> Seq<u8> {
    trim_back(trim_front(s))
}

/// The whitespace token at position `i`, as the front token of the suffix.
fn ws_front_at(s: &Vec<u8>, i: usize) -> (k: usize)
    requires
        i <= s@.len(),
    ensures
        k as int == ws_front(s@.skip(i as int)),
        i + k <= s@.len(),
{
    let n: usize = s.len();
    proof {
        assert forall|j: int| 0 <= j < n - i implies #[trigger] s@.skip(i as int)[j] == s@[
            i + j
        ] by {}
    }
    if n - i >= 1 && (s[i] == 32 || (9 <= s[i] && s[i] <= 13)) {
        1
    } else if n - i >= 2 && s[i] == 0xC2 && (s[i + 1] == 0x85 || s[i + 1] == 0xA0) {
        2
    } else if n - i >= 3 && ((s[i] == 0xE1 && s[i + 1] == 0x9A && s[i + 2] == 0x80) || (s[i]
        == 0xE2 && s[i + 1] == 0x80 && ((0x80 <= s[i + 2] && s[i + 2] <= 0x8A) || s[i + 2] == 0xA8
        || s[i + 2] == 0xA9 || s[i + 2] == 0xAF)) || (s[i] == 0xE2 && s[i + 1] == 0x81 && s[i + 2]
        == 0x9F) || (s[i] == 0xE3 && s[i + 1] == 0x80 && s[i + 2] == 0x80)) {
        3
    } else {
        0
    }
}

/// The whitespace token ending at `hi`, as the back token of the prefix that
/// starts at `lo`.
fn ws_back_range(s: &Vec<u8>, lo: usize, hi: usize) -> (k: usize)
    requires
        lo <= hi <= s@.len(),
    ensures
        k as int == ws_back(s@.subrange(lo as int, hi as int)),
        k <= hi - lo,
{
    proof {
        assert forall|j: int| 0 <= j < hi - lo implies #[trigger] s@.subrange(
            lo as int,
            hi as int,
        )[j] == s@[lo + j] by {}
    }
    if hi - lo >= 1 && (s[hi - 1] == 32 || (9 <= s[hi - 1] && s[hi - 1] <= 13)) {
        1
    } else if hi - lo >= 2 && s[hi - 2] == 0xC2 && (s[hi - 1] == 0x85 || s[hi - 1] == 0xA0) {
        2
    } else if hi - lo >= 3 && ((s[hi - 3] == 0xE1 && s[hi - 2] == 0x9A && s[hi - 1] == 0x80) || (
    s[hi - 3] == 0xE2 && s[hi - 2] == 0x80 && ((0x80 <= s[hi - 1] && s[hi - 1] <= 0x8A) || s[hi
        - 1] == 0xA8 || s[hi - 1] == 0xA9 || s[hi - 1] == 0xAF)) || (s[hi - 3] == 0xE2 && s[hi - 2]
        == 0x81 && s[hi - 1] == 0x9F) || (s[hi - 3] == 0xE3 && s[hi - 2] == 0x80 && s[hi - 1]
        == 0x80)) {
        3
    } else {
        0
    }
}

/// Remove Unicode whitespace from both ends of a UTF-8 byte string.
pub fn trim_bytes(s: &Vec<u8>) -> (r: Vec<u8>)
    ensures
        r@ == trim_spec(s@),
{
    let n: usize = s.len();
    proof {
        assert(s@.skip(0) =~= s@);
    }
    let mut lo: usize = 0;
    loop
        invariant
            s@.len() == n,
            lo <= n,
            trim_front(s@) == trim_front(s@.skip(lo as int)),
        ensures
            lo <= n,
            trim_front(s@) == s@.skip(lo as int),
        decreases n - lo,
    {
        let k = ws_front_at(s, lo);
        if k == 0 {
            proof {
                assert(trim_front(s@.skip(lo as int)) == s@.skip(lo as int));
            }
            break ;
        }
        proof {
            assert(s@.skip(lo as int).skip(k as int) =~= s@.skip(lo as int + k));
        }
        lo = lo + k;
    }
    let mut hi: usize = n;
    proof {
        assert(s@.subrange(lo as int, n as int) =~= s@.skip(lo as int));
    }
    loop
        invariant
            s@.len() == n,
            lo <= hi <= n,
            trim_front(s@) == s@.skip(lo as int),
            trim_back(s@.skip(lo as int)) == trim_back(s@.subrange(lo as int, hi as int)),
        ensures
            lo <= hi <= n,
            trim_spec(s@) == s@.subrange(lo as int, hi as int),
        decreases hi,
    {
        let k = ws_back_range(s, lo, hi);
        if k == 0 {
            proof {
                assert(trim_back(s@.subrange(lo as int, hi as int)) == s@.subrange(
                    lo as int,
                    hi as int,
                ));
            }
            break ;
        }
        proof {
            assert(s@.subrange(lo as int, hi as int).take(hi - lo - k) =~= s@.subrange(
                lo as int,
                hi as int - k,
            ));
        }
        hi = hi - k;
    }
    let mut r: Vec<u8> = Vec::new();
    let mut i: usize = lo;
    while i < hi
        invariant
            s@.len() == n,
            lo <= i <= hi <= n,
            r@ =~= s@.subrange(lo as int, i as int),
        decreases hi - i,
    {
        r.push(s[i]);
        proof {
            assert(r@ =~= s@.subrange(lo as int, i as int + 1));
        }
        i = i + 1;
    }
    proof {
        assert(r@ =~= s@.subrange(lo as int, hi as int));
    }
    r
}

/// A byte mapped to its ASCII lower-case form.
pub open spec fn lower_byte(b: u8) -> u8 {
    if 65 <= b <= 90 {
        (b + 32) as u8
    } else {
        b
    }
}

/// A byte string mapped to ASCII lower case.
pub open spec fn lower_seq(s: Seq<u8>) -> Seq<u8> {
    Seq::new(s.len(), |i: int| lower_byte(s[i]))
}

/// A byte string mapped to ASCII lower case, byte for byte; bytes outside
/// `A`..`Z` (including every byte of a multi-byte UTF-8 sequence) are kept.
pub fn lower_bytes(s: &Vec<u8>) -> (r: Vec<u8>)
    ensures
        r@ == lower_seq(s@),
        r@.len() == s@.len(),
        forall|i: int| 0 <= i < s@.len() ==> r@[i] == lower_byte(s@[i]),
{
    let n: usize = s.len();
    let mut r: Vec<u8> = Vec::new();
    let mut i: usize = 0;
    while i < n
        invariant
            s@.len() == n,
            i <= n,
            r@.len() == i,
            forall|j: int| 0 <= j < i ==> r@[j] == lower_byte(s@[j]),
        decreases n - i,
    {
        let b = s[i];
        if 65 <= b && b <= 90 {
            r.push(b + 32);
        } else {
            r.push(b);
        }
        i = i + 1;
    }
    proof {
        assert(r@ =~= lower_seq(s@));
    }
    r
}

/// The decimal digits of a non-negative number, most significant first.
pub open spec fn dec_digits(n: int) -> Seq<u8>
    decreases n,
{
    if n < 10 {
        seq![(48 + n) as u8]
    } else {
        dec_digits(n / 10) + seq![(48 + n % 10) as u8]
    }
}

/// Append the decimal digits of `n`.
pub fn push_dec(out: &mut Vec<u8>, n: u64)
    ensures
        final(out)@ == old(out)@ + dec_digits(n as int),
    decreases n,
{
    if n < 10 {
        out.push(48 + n as u8);
        proof {
            assert(final(out)@ =~= old(out)@ + dec_digits(n as int));
        }
    } else {
        push_dec(out, n / 10);
        out.push(48 + (n % 10) as u8);
        proof {
            assert(final(out)@ =~= old(out)@ + dec_digits(n as int));
        }
    }
}

/// The number of decimal digits of `n`.
pub fn dec_len(n: u64) -> (r: usize)
    ensures
        r == dec_digits(n as int).len(),
        1 <= r <= 20,
    decreases n,
{
    if n < 10 {
        1
    } else {
        let d = dec_len(n / 10);
        if d < 20 {
            d + 1
        } else {
            proof {
                lemma_dec_digits_short(n as int);
            }
            20
        }
    }
}

/// At most 20 digits suffice for a 64-bit value.
proof fn lemma_dec_digits_short(n: int)
    requires
        0 <= n <= u64::MAX,
    ensures
        dec_digits(n).len() <= 20,
{
    reveal_with_fuel(pow10, 21);
    assert(pow10(20) > u64::MAX);
    lemma_dec_digits_len_bounded(n, 20);
}

proof fn lemma_dec_digits_len_bounded(n: int, k: int)
    requires
        k >= 1,
        0 <= n,
        n < pow10(k),
    ensures
        dec_digits(n).len() <= k,
    decreases k,
{
    if n >= 10 {
        assert(n / 10 < pow10(k - 1)) by (nonlinear_arith)
            requires
                n < pow10(k),
                pow10(k) == 10 * pow10(k - 1),
                n >= 10,
                pow10(k - 1) >= 1,
        ;
        lemma_dec_digits_len_bounded(n / 10, k - 1);
    }
}

pub open spec fn pow10(k: int) -> int
    decreases k,
{
    if k <= 0 {
        1
    } else {
        10 * pow10(k - 1)
    }
}

/// The decimal digits of `n`, left-padded with zeros to at least `width`
/// digits.
pub open spec fn dec_padded(n: int, width: int) -> Seq<u8> {
    if dec_digits(n).len() >= width {
        dec_digits(n)
    } else {
        Seq::new((width - dec_digits(n).len()) as nat, |i: int| 48u8) + dec_digits(n)
    }
}

/// Append the decimal digits of `n`, zero-padded to at least `width` digits.
pub fn push_dec_padded(out: &mut Vec<u8>, n: u64, width: usize)
    requires
        width <= 100,
    ensures
        final(out)@ == old(out)@ + dec_padded(n as int, width as int),
{
    let d = dec_len(n);
    let mut k: usize = d;
    while k < width
        invariant
            d == dec_digits(n as int).len(),
            k >= d,
            width <= 100,
            k <= 100,
            d >= width || k <= width,
            d >= width ==> k == d,
            out@ =~= old(out)@ + Seq::new((k - d) as nat, |i: int| 48u8),
        decreases width - k,
    {
        out.push(48);
        proof {
            assert(out@ =~= old(out)@ + Seq::new((k + 1 - d) as nat, |i: int| 48u8));
        }
        k = k + 1;
    }
    proof {
        assert(k == (if d >= width { d as int } else { width as int }));
        assert(out@ =~= old(out)@ + Seq::new((k - d) as nat, |i: int| 48u8));
    }
    let ghost mid = out@;
    push_dec(out, n);
    proof {
        assert(out@ == mid + dec_digits(n as int));
        if d >= width {
            assert(dec_padded(n as int, width as int) == dec_digits(n as int));
            assert(out@ =~= old(out)@ + dec_padded(n as int, width as int));
        } else {
            assert(dec_padded(n as int, width as int) == Seq::new(
                (width - dec_digits(n as int).len()) as nat,
                |i: int| 48u8,
            ) + dec_digits(n as int));
            assert(out@ =~= old(out)@ + dec_padded(n as int, width as int));
        }
    }
}

/// The first position of `sep` at or after `from`, if any.
pub fn find_byte(s: &Vec<u8>, sep: u8, from: usize) -> (r: Option<usize>)
    requires
        from <= s@.len(),
    ensures
        match r {
            Some(i) => from <= i < s@.len() && s@[i as int] == sep && forall|j: int|
                from <= j < i ==> s@[j] != sep,
            None => forall|j: int| from <= j < s@.len() ==> s@[j] != sep,
        },
{
    let n: usize = s.len();
    let mut i: usize = from;
    while i < n
        invariant
            s@.len() == n,
            from <= i <= n,
            forall|j: int| from <= j < i ==> s@[j] != sep,
        decreases n - i,
    {
        if s[i] == sep {
            return Some(i);
        }
        i = i + 1;
    }
    None
}

/// A byte string split on a separator byte, empty parts kept: one part when
/// the separator is absent, and one more part per separator.
pub open spec fn split_seq(s: Seq<u8>, sep: u8) -> Seq<Seq<u8>>
    decreases s.len(),
{
    if s.len() == 0 {
        seq![Seq::empty()]
    } else if s[0] == sep {
        seq![Seq::<u8>::empty()] + split_seq(s.drop_first(), sep)
    } else {
        let rest = split_seq(s.drop_first(), sep);
        seq![seq![s[0]] + rest[0]] + rest.drop_first()
    }
}

/// Splitting never yields an empty list.
pub proof fn lemma_split_nonempty(s: Seq<u8>, sep: u8)
    ensures
        split_seq(s, sep).len() >= 1,
    decreases s.len(),
{
    if s.len() > 0 {
        lemma_split_nonempty(s.drop_first(), sep);
    }
}

/// Appending a byte extends the last part, or begins a new empty part when the
/// byte is the separator.
proof fn lemma_split_push(s: Seq<u8>, sep: u8, b: u8)
    ensures
        split_seq(s.push(b), sep) =~~= (if b == sep {
            split_seq(s, sep).push(Seq::empty())
        } else {
            split_seq(s, sep).update(
                split_seq(s, sep).len() - 1,
                split_seq(s, sep).last().push(b),
            )
        }),
    decreases s.len(),
{
    lemma_split_nonempty(s, sep);
    let sp = split_seq(s.push(b), sep);
    assert(s.push(b).len() == s.len() + 1);
    if s.len() == 0 {
        assert(s.push(b)[0] == b);
        assert(s.push(b).drop_first() =~= Seq::<u8>::empty());
        assert(split_seq(s.push(b).drop_first(), sep) == split_seq(Seq::<u8>::empty(), sep));
        if b == sep {
            assert(sp == seq![Seq::<u8>::empty()] + split_seq(s.push(b).drop_first(), sep));
            assert(sp =~~= split_seq(s, sep).push(Seq::empty()));
        } else {
            let rest = split_seq(s.push(b).drop_first(), sep);
            assert(rest == seq![Seq::<u8>::empty()]);
            assert(sp == seq![seq![b] + rest[0]] + rest.drop_first());
            assert(sp =~~= split_seq(s, sep).update(
                split_seq(s, sep).len() - 1,
                split_seq(s, sep).last().push(b),
            ));
        }
    } else {
        lemma_split_push(s.drop_first(), sep, b);
        lemma_split_nonempty(s.drop_first(), sep);
        assert(s.push(b).drop_first() =~= s.drop_first().push(b));
        assert(s.push(b)[0] == s[0]);
        let restp = split_seq(s.drop_first().push(b), sep);
        if s[0] == sep {
            assert(split_seq(s, sep) == seq![Seq::<u8>::empty()] + split_seq(s.drop_first(), sep));
            assert(sp == seq![Seq::<u8>::empty()] + restp);
            if b == sep {
                assert(sp =~~= split_seq(s, sep).push(Seq::empty()));
            } else {
                assert(sp =~~= split_seq(s, sep).update(
                    split_seq(s, sep).len() - 1,
                    split_seq(s, sep).last().push(b),
                ));
            }
        } else {
            let rest = split_seq(s.drop_first(), sep);
            assert(split_seq(s, sep) == seq![seq![s[0]] + rest[0]] + rest.drop_first());
            assert(sp == seq![seq![s[0]] + restp[0]] + restp.drop_first());
            if b == sep {
                assert(restp =~~= rest.push(Seq::empty()));
                assert(restp[0] =~= rest[0]) by {
                    assert(rest.len() >= 1);
                }
                assert(sp =~~= split_seq(s, sep).push(Seq::empty()));
            } else {
                assert(restp =~~= rest.update(rest.len() - 1, rest.last().push(b)));
                if rest.len() == 1 {
                    assert(sp =~~= split_seq(s, sep).update(
                        split_seq(s, sep).len() - 1,
                        split_seq(s, sep).last().push(b),
                    ));
                } else {
                    assert(restp[0] =~= rest[0]);
                    assert(sp =~~= split_seq(s, sep).update(
                        split_seq(s, sep).len() - 1,
                        split_seq(s, sep).last().push(b),
                    ));
                }
            }
        }
    }
}

/// Split a byte string on a separator byte, empty parts kept.
pub fn split_on(s: &Vec<u8>, sep: u8) -> (r: Vec<Vec<u8>>)
    ensures
        r.deep_view() == split_seq(s@, sep),
        r@.len() >= 1,
{
    let n: usize = s.len();
    let mut parts: Vec<Vec<u8>> = Vec::new();
    let mut cur: Vec<u8> = Vec::new();
    let mut i: usize = 0;
    while i < n
        invariant
            s@.len() == n,
            i <= n,
            parts.deep_view().push(cur@) =~~= split_seq(s@.take(i as int), sep),
        decreases n - i,
    {
        let b = s[i];
        proof {
            assert(s@.take(i as int + 1) =~= s@.take(i as int).push(s@[i as int]));
            lemma_split_push(s@.take(i as int), sep, s@[i as int]);
            lemma_split_nonempty(s@.take(i as int), sep);
        }
        if b == sep {
            let ghost pdv = parts.deep_view();
            let done = cur;
            cur = Vec::new();
            parts.push(done);
            proof {
                assert(parts.deep_view() =~~= pdv.push(done@));
                assert(parts.deep_view().push(cur@) =~~= split_seq(s@.take(i as int + 1), sep));
            }
        } else {
            cur.push(b);
            proof {
                assert(parts.deep_view().push(cur@) =~~= split_seq(s@.take(i as int + 1), sep));
            }
        }
        i = i + 1;
    }
    let ghost pdv = parts.deep_view();
    let ghost cv = cur@;
    parts.push(cur);
    proof {
        assert(parts.deep_view() =~~= pdv.push(cv));
        assert(s@.take(n as int) =~= s@);
        assert(parts.deep_view() =~~= split_seq(s@, sep));
        lemma_split_nonempty(s@, sep);
    }
    parts
}

} // verus!

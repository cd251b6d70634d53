//! Byte strings: searching, splitting, decimal numerals and UTF-8.

use vstd::prelude::*;
use vstd::utf8::{encode_utf8, valid_utf8};

verus! {

/// The UTF-8 bytes of a string.
pub open spec fn text(s: &str) -> Seq<u8> {
    encode_utf8(s@)
}

/// `needle` stands in `hay` at position `i`.
pub open spec fn matches_at(hay: Seq<u8>, needle: Seq<u8>, i: int) -> bool {
    &&& 0 <= i
    &&& i + needle.len() <= hay.len()
    &&& hay.subrange(i, i + needle.len()) == needle
}

/// `i` is the leftmost position at which `needle` stands in `hay`.
pub open spec fn first_match(hay: Seq<u8>, needle: Seq<u8>, i: int) -> bool {
    &&& matches_at(hay, needle, i)
    &&& forall|j: int| 0 <= j < i ==> !#[trigger] matches_at(hay, needle, j)
}

/// The leftmost position of `needle` in `hay`, if it occurs there.
pub open spec fn find_spec(hay: Seq<u8>, needle: Seq<u8>) -> Option<int> {
    if exists|i: int| first_match(hay, needle, i) {
        Some(choose|i: int| first_match(hay, needle, i))
    } else {
        None
    }
}

/// The leftmost match is unique.
pub proof fn lemma_find_some(hay: Seq<u8>, needle: Seq<u8>, i: int)
    requires
        first_match(hay, needle, i),
    ensures
        find_spec(hay, needle) == Some(i),
{
    let k = choose|k: int| first_match(hay, needle, k);
    assert(first_match(hay, needle, k));
    assert(!(k < i) && !(i < k));
}

/// Where there is a match there is a leftmost one.
pub proof fn lemma_first_match_exists(hay: Seq<u8>, needle: Seq<u8>, i: int)
    requires
        matches_at(hay, needle, i),
    ensures
        exists|k: int| 0 <= k <= i && first_match(hay, needle, k),
    decreases i,
{
    if forall|j: int| 0 <= j < i ==> !#[trigger] matches_at(hay, needle, j) {
        assert(first_match(hay, needle, i));
    } else {
        let j = choose|j: int| 0 <= j < i && #[trigger] matches_at(hay, needle, j);
        lemma_first_match_exists(hay, needle, j);
    }
}

/// What `find_spec` says: a leftmost match, or no match at all.
pub proof fn lemma_find(hay: Seq<u8>, needle: Seq<u8>)
    ensures
        match find_spec(hay, needle) {
            Some(i) => first_match(hay, needle, i),
            None => forall|i: int| !#[trigger] matches_at(hay, needle, i),
        },
{
    if find_spec(hay, needle) is None {
        assert forall|i: int| !#[trigger] matches_at(hay, needle, i) by {
            if matches_at(hay, needle, i) {
                lemma_first_match_exists(hay, needle, i);
            }
        }
    }
}

/// A leftmost match stays the leftmost one whatever is appended.
pub proof fn lemma_find_prefix(hay: Seq<u8>, more: Seq<u8>, needle: Seq<u8>)
    requires
        find_spec(hay, needle) is Some,
    ensures
        find_spec(hay + more, needle) == find_spec(hay, needle),
{
    lemma_find(hay, needle);
    let i = find_spec(hay, needle)->0;
    let all = hay + more;
    assert forall|j: int| 0 <= j <= i implies #[trigger] matches_at(all, needle, j) == matches_at(
        hay,
        needle,
        j,
    ) by {
        if j + needle.len() <= hay.len() {
            assert(all.subrange(j, j + needle.len()) =~= hay.subrange(j, j + needle.len()));
        }
    }
    assert(first_match(all, needle, i));
    lemma_find_some(all, needle, i);
}

/// Finds the leftmost occurrence of `needle` in `hay`.
pub fn find(hay: &[u8], needle: &[u8]) -> (r: Option<usize>)
    ensures
        match r {
            Some(i) => find_spec(hay@, needle@) == Some(i as int),
            None => find_spec(hay@, needle@) is None,
        },
{
    if needle.len() > hay.len() {
        proof {
            lemma_find(hay@, needle@);
        }
        return None;
    }
    let n: usize = hay.len();
    let last: usize = n - needle.len();
    let mut i: usize = 0;
    loop
        invariant
            n == hay@.len(),
            last == n - needle@.len(),
            i <= last,
            forall|j: int| 0 <= j < i ==> !#[trigger] matches_at(hay@, needle@, j),
        decreases last - i,
    {
        let mut k: usize = 0;
        while k < needle.len() && hay[i + k] == needle[k]
            invariant
                n == hay@.len(),
                last == n - needle@.len(),
                i <= last,
                k <= needle@.len(),
                forall|j: int| 0 <= j < k ==> hay@[i + j] == needle@[j],
            decreases needle@.len() - k,
        {
            k += 1;
        }
        if k == needle.len() {
            proof {
                assert(hay@.subrange(i as int, i + needle@.len()) =~= needle@);
                lemma_find_some(hay@, needle@, i as int);
            }
            return Some(i);
        }
        assert(!matches_at(hay@, needle@, i as int)) by {
            assert(hay@.subrange(i as int, i + needle@.len())[k as int] == hay@[i + k]);
        }
        if i == last {
            proof {
                lemma_find(hay@, needle@);
            }
            return None;
        }
        i += 1;
    }
}

/// The pieces of `s` between the separators `sep`; one more than there are separators.
pub open spec fn split_spec(s: Seq<u8>, sep: u8) -> Seq<Seq<u8>>
    decreases s.len(),
{
    if s.len() == 0 {
        seq![Seq::empty()]
    } else {
        let before = split_spec(s.drop_last(), sep);
        if s.last() == sep {
            before.push(Seq::empty())
        } else {
            before.drop_last().push(before.last().push(s.last()))
        }
    }
}

/// The pieces of `s` that the ranges `r` cut out.
pub open spec fn pieces(s: Seq<u8>, r: Seq<(usize, usize)>) -> Seq<Seq<u8>> {
    r.map_values(|p: (usize, usize)| s.subrange(p.0 as int, p.1 as int))
}

/// Every range lies inside a sequence of length `len`.
pub open spec fn ranges_in(r: Seq<(usize, usize)>, len: nat) -> bool {
    forall|i: int| 0 <= i < r.len() ==> (#[trigger] r[i]).0 <= r[i].1 <= len
}

pub proof fn lemma_split_nonempty(s: Seq<u8>, sep: u8)
    ensures
        split_spec(s, sep).len() >= 1,
    decreases s.len(),
{
    if s.len() > 0 {
        lemma_split_nonempty(s.drop_last(), sep);
    }
}

/// Splits `s` at each `sep` into the ranges of its pieces.
pub fn split(s: &[u8], sep: u8) -> (r: Vec<(usize, usize)>)
    ensures
        ranges_in(r@, s@.len()),
        pieces(s@, r@) == split_spec(s@, sep),
        r@.len() >= 1,
{
    let mut r: Vec<(usize, usize)> = Vec::new();
    let mut start: usize = 0;
    let mut i: usize = 0;
    assert(s@.take(0) =~= Seq::empty());
    assert(pieces(s@, r@).push(s@.subrange(0, 0)) =~= split_spec(s@.take(0), sep));
    while i < s.len()
        invariant
            start <= i <= s@.len(),
            ranges_in(r@, i as nat),
            pieces(s@, r@).push(s@.subrange(start as int, i as int)) == split_spec(
                s@.take(i as int),
                sep,
            ),
        decreases s@.len() - i,
    {
        let ghost r0 = r@;
        let ghost before = split_spec(s@.take(i as int), sep);
        assert(s@.take(i + 1).drop_last() =~= s@.take(i as int));
        assert(s@.take(i + 1).last() == s@[i as int]);
        if s[i] == sep {
            r.push((start, i));
            start = i + 1;
            assert(pieces(s@, r@) =~= pieces(s@, r0).push(
                s@.subrange(r@.last().0 as int, i as int),
            ));
            assert(s@.subrange(start as int, i + 1) =~= Seq::empty());
            assert(pieces(s@, r@).push(s@.subrange(start as int, i + 1)) =~= before.push(
                Seq::empty(),
            ));
        } else {
            assert(s@.subrange(start as int, i + 1) =~= s@.subrange(start as int, i as int).push(
                s@[i as int],
            ));
            assert(before.drop_last() =~= pieces(s@, r@));
            assert(before.last() == s@.subrange(start as int, i as int));
        }
        i += 1;
    }
    let ghost r0 = r@;
    r.push((start, i));
    proof {
        assert(s@.take(i as int) =~= s@);
        assert(pieces(s@, r@) =~= pieces(s@, r0).push(s@.subrange(start as int, i as int)));
    }
    r
}

/// Whether two byte strings are equal.
pub fn same(a: &[u8], b: &[u8]) -> (r: bool)
    ensures
        r == (a@ == b@),
{
    if a.len() != b.len() {
        return false;
    }
    let mut i: usize = 0;
    while i < a.len()
        invariant
            i <= a@.len(),
            a@.len() == b@.len(),
            forall|j: int| 0 <= j < i ==> a@[j] == b@[j],
        decreases a@.len() - i,
    {
        if a[i] != b[i] {
            return false;
        }
        i += 1;
    }
    assert(a@ =~= b@);
    true
}

/// `s` with every leading `sep` taken off.
pub open spec fn trim_start_spec(s: Seq<u8>, sep: u8) -> Seq<u8>
    decreases s.len(),
{
    if s.len() > 0 && s[0] == sep {
        trim_start_spec(s.skip(1), sep)
    } else {
        s
    }
}

/// Nothing is left to take off a trimmed string.
pub proof fn lemma_trimmed(s: Seq<u8>, sep: u8)
    ensures
        trim_start_spec(s, sep).len() == 0 || trim_start_spec(s, sep)[0] != sep,
    decreases s.len(),
{
    if s.len() > 0 && s[0] == sep {
        lemma_trimmed(s.skip(1), sep);
    }
}

/// Takes every leading `sep` off `s`.
pub fn trim_start(s: &[u8], sep: u8) -> (r: &[u8])
    ensures
        r@ == trim_start_spec(s@, sep),
{
    let mut i: usize = 0;
    assert(s@.skip(0) =~= s@);
    while i < s.len() && s[i] == sep
        invariant
            i <= s@.len(),
            trim_start_spec(s@.skip(i as int), sep) == trim_start_spec(s@, sep),
        decreases s@.len() - i,
    {
        assert(s@.skip(i as int).skip(1) =~= s@.skip(i + 1));
        i += 1;
    }
    proof {
        assert(s@.subrange(i as int, s@.len() as int) =~= s@.skip(i as int));
    }
    &s[i..s.len()]
}

/// The byte `b`, in lower case if it is an ASCII letter.
pub open spec fn lower(b: u8) -> u8 {
    if ('A' as u8) <= b <= ('Z' as u8) {
        (b + 32) as u8
    } else {
        b
    }
}

/// `s` with its ASCII letters in lower case.
pub open spec fn ascii_lower_spec(s: Seq<u8>) -> Seq<u8> {
    s.map_values(|b: u8| lower(b))
}

/// Copies `s` with its ASCII letters in lower case.
pub fn ascii_lower(s: &[u8]) -> (r: Vec<u8>)
    ensures
        r@ == ascii_lower_spec(s@),
{
    let mut r: Vec<u8> = Vec::new();
    let mut i: usize = 0;
    while i < s.len()
        invariant
            i <= s@.len(),
            r@ == ascii_lower_spec(s@.take(i as int)),
        decreases s@.len() - i,
    {
        let b: u8 = s[i];
        r.push(
            if 'A' as u8 <= b && b <= 'Z' as u8 {
                b + 32
            } else {
                b
            },
        );
        assert(r@ =~= ascii_lower_spec(s@.take(i + 1)));
        i += 1;
    }
    assert(s@.take(i as int) =~= s@);
    r
}

/// The decimal numeral of `n`, without leading zeros.
pub open spec fn decimal_spec(n: nat) -> Seq<u8>
    decreases n,
{
    if n < 10 {
        seq![(48 + n) as u8]
    } else {
        decimal_spec(n / 10).push((48 + n % 10) as u8)
    }
}

/// The number that a string of decimal digits denotes.
pub open spec fn decimal_value(s: Seq<u8>) -> int
    decreases s.len(),
{
    if s.len() == 0 {
        0
    } else {
        decimal_value(s.drop_last()) * 10 + (s.last() - 48)
    }
}

/// A numeral denotes the number it was made from, and is made of digits alone.
pub proof fn law_decimal_round_trip(n: nat)
    ensures
        decimal_value(decimal_spec(n)) == n,
        decimal_spec(n).len() >= 1,
        forall|i: int| 0 <= i < decimal_spec(n).len() ==> 48 <= #[trigger] decimal_spec(n)[i] <= 57,
    decreases n,
{
    let d = decimal_spec(n);
    if n < 10 {
        assert(d.drop_last() =~= Seq::empty());
        assert(decimal_value(d.drop_last()) == 0);
    } else {
        law_decimal_round_trip(n / 10);
        assert(d.drop_last() =~= decimal_spec(n / 10));
    }
}

/// Appends the decimal numeral of `n` to `out`.
pub fn push_decimal(out: &mut Vec<u8>, n: u64)
    ensures
        final(out)@ == old(out)@ + decimal_spec(n as nat),
    decreases n,
{
    if n >= 10 {
        push_decimal(out, n / 10);
    }
    out.push(48 + (n % 10) as u8);
    assert(out@ =~= old(out)@ + decimal_spec(n as nat));
}

/// The decimal numeral of `n`.
pub fn decimal(n: u64) -> (r: Vec<u8>)
    ensures
        r@ == decimal_spec(n as nat),
{
    let mut r: Vec<u8> = Vec::new();
    push_decimal(&mut r, n);
    assert(r@ =~= decimal_spec(n as nat));
    r
}

/// Appends `s` to `out`.
pub fn push_bytes(out: &mut Vec<u8>, s: &[u8])
    ensures
        final(out)@ == old(out)@ + s@,
{
    out.extend_from_slice(s);
    assert(out@ =~= old(out)@ + s@);
}

/// Reads `bytes` as UTF-8, by `std::str::from_utf8`: a string comes back exactly
/// when the bytes are valid UTF-8, and it is the string that they encode.
#[verifier::external_body]
pub(crate) fn utf8(bytes: &[u8]) -> (r: Option<&str>)
    ensures
        r is Some <==> valid_utf8(bytes@),
        r matches Some(s) ==> encode_utf8(s@) == bytes@,
{
    std::str::from_utf8(bytes).ok()
}

/// A search finds the bytes that were looked for, and no earlier place holds them; it
/// finds nothing only where no place does.
pub proof fn law_find_is_leftmost(hay: Seq<u8>, needle: Seq<u8>)
    ensures
        find_spec(hay, needle) matches Some(i) ==> {
            &&& 0 <= i <= hay.len() - needle.len()
            &&& forall|k: int| 0 <= k < needle.len() ==> #[trigger] hay[i + k] == needle[k]
        },
        forall|j: int|
            0 <= j <= hay.len() - needle.len() && #[trigger] hay.subrange(j, j + needle.len())
                == needle ==> find_spec(hay, needle) is Some && find_spec(hay, needle)->0 <= j,
{
    lemma_find(hay, needle);
    if let Some(i) = find_spec(hay, needle) {
        assert forall|k: int| 0 <= k < needle.len() implies #[trigger] hay[i + k] == needle[k] by {
            assert(hay.subrange(i, i + needle.len())[k] == hay[i + k]);
        }
    }
    assert forall|j: int|
        0 <= j <= hay.len() - needle.len() && #[trigger] hay.subrange(j, j + needle.len())
            == needle implies find_spec(hay, needle) is Some && find_spec(hay, needle)->0 <= j by {
        assert(matches_at(hay, needle, j));
    }
}

/// `parts` with `sep` between them.
pub open spec fn glued(parts: Seq<Seq<u8>>, sep: u8) -> Seq<u8>
    decreases parts.len(),
{
    if parts.len() == 0 {
        Seq::empty()
    } else if parts.len() == 1 {
        parts[0]
    } else {
        glued(parts.drop_last(), sep).push(sep) + parts.last()
    }
}

/// Splitting takes nothing away and leaves no separator: the pieces, with the separator
/// between them, make up the string, and none of them holds it.
pub proof fn law_split_loses_nothing(s: Seq<u8>, sep: u8)
    ensures
        split_spec(s, sep).len() >= 1,
        glued(split_spec(s, sep), sep) == s,
        forall|k: int, i: int|
            0 <= k < split_spec(s, sep).len() && 0 <= i < split_spec(s, sep)[k].len()
                ==> #[trigger] split_spec(s, sep)[k][i] != sep,
    decreases s.len(),
{
    let all = split_spec(s, sep);
    if s.len() == 0 {
        assert(glued(all, sep) =~= s);
    } else {
        let t = s.drop_last();
        let before = split_spec(t, sep);
        law_split_loses_nothing(t, sep);
        assert(s =~= t.push(s.last()));
        if s.last() == sep {
            assert(all.drop_last() =~= before);
            assert(glued(all, sep) =~= s);
            assert forall|k: int, i: int| 0 <= k < all.len() && 0 <= i < all[k].len() implies
                #[trigger] all[k][i] != sep by {
                assert(k < before.len());
                assert(all[k] == before[k]);
                assert(before[k][i] != sep);
            }
        } else {
            let m = before.len() - 1;
            assert(all.drop_last() =~= before.drop_last());
            if m == 0 {
                assert(all =~= seq![before[0].push(s.last())]);
                assert(glued(all, sep) =~= s);
            } else {
                assert(glued(before, sep) == glued(before.drop_last(), sep).push(sep)
                    + before.last());
                assert(glued(all, sep) =~= s);
            }
            assert forall|k: int, i: int| 0 <= k < all.len() && 0 <= i < all[k].len() implies
                #[trigger] all[k][i] != sep by {
                if k < m {
                    assert(all[k] == before[k]);
                    assert(before[k][i] != sep);
                } else if i < before[m].len() {
                    assert(before[m][i] != sep);
                }
            }
        }
    }
}

/// Trimming takes off the separators at the start, all of them and nothing else.
pub proof fn law_trim_takes_off_separators(seps: Seq<u8>, s: Seq<u8>, sep: u8)
    requires
        forall|i: int| 0 <= i < seps.len() ==> seps[i] == sep,
        s.len() > 0 ==> s[0] != sep,
    ensures
        trim_start_spec(seps + s, sep) == s,
    decreases seps.len(),
{
    if seps.len() > 0 {
        law_trim_takes_off_separators(seps.skip(1), s, sep);
        assert((seps + s).skip(1) =~= seps.skip(1) + s);
    } else {
        assert(seps + s =~= s);
    }
}

/// Lower case changes the letters from `A` to `Z`, by 32, and no other byte.
pub proof fn law_lower_case_changes_capitals(s: Seq<u8>)
    ensures
        ascii_lower_spec(s).len() == s.len(),
        forall|i: int|
            0 <= i < s.len() && 65 <= s[i] <= 90 ==> #[trigger] ascii_lower_spec(s)[i] == s[i] + 32,
        forall|i: int|
            0 <= i < s.len() && !(65 <= s[i] <= 90) ==> #[trigger] ascii_lower_spec(s)[i] == s[i],
{
}

/// A numeral has no leading zero.
pub proof fn law_decimal_has_no_leading_zero(n: nat)
    ensures
        n > 0 ==> decimal_spec(n)[0] != 48,
        n < 10 ==> decimal_spec(n).len() == 1,
    decreases n,
{
    if n >= 10 {
        law_decimal_has_no_leading_zero(n / 10);
        law_decimal_round_trip(n / 10);
    }
}

} // verus!

use vstd::prelude::*;

verus! {

/// The whitespace characters the resolver strips from cell text.
pub open spec fn spec_is_ws(c: char) -> bool {
    c == ' ' || c == '\t' || c == '\r' || c == '\n'
}

pub fn is_ws(c: char) -> (r: bool)
    ensures
        r == spec_is_ws(c),
{
    c == ' ' || c == '\t' || c == '\r' || c == '\n'
}

/// ASCII lowercase of a single character; other characters are kept.
pub open spec fn spec_lower_char(c: char) -> char {
    if 'A' <= c && c <= 'Z' {
        ((c as u8) + 32) as char
    } else {
        c
    }
}

pub fn lower_char(c: char) -> (r: char)
    ensures
        r == spec_lower_char(c),
{
    if 'A' <= c && c <= 'Z' {
        ((c as u8) + 32) as char
    } else {
        c
    }
}

/// ASCII lowercase of a whole character sequence.
pub open spec fn spec_lower(s: Seq<char>) -> Seq<char> {
    s.map_values(|c: char| spec_lower_char(c))
}

/// Spaces become underscores; every other character is kept.
pub open spec fn spec_underscore(s: Seq<char>) -> Seq<char> {
    s.map_values(|c: char| if c == ' ' { '_' } else { c })
}

/// Relies on String::push: appends one character at the end.
#[verifier::external_body]
pub fn push_char(s: &mut String, c: char)
    ensures
        final(s)@ == old(s)@.push(c),
{
    s.push(c);
}

/// Drop leading whitespace.
pub open spec fn spec_trim_front(s: Seq<char>) -> Seq<char>
    decreases s.len(),
{
    if s.len() > 0 && spec_is_ws(s[0]) {
        spec_trim_front(s.drop_first())
    } else {
        s
    }
}

/// Drop trailing whitespace.
pub open spec fn spec_trim_back(s: Seq<char>) -> Seq<char>
    decreases s.len(),
{
    if s.len() > 0 && spec_is_ws(s[s.len() - 1]) {
        spec_trim_back(s.drop_last())
    } else {
        s
    }
}

/// Drop leading and trailing whitespace.
pub open spec fn spec_trim(s: Seq<char>) -> Seq<char> {
    spec_trim_back(spec_trim_front(s))
}

proof fn lemma_trim_front_chars(s: Seq<char>, a: int)
    requires
        0 <= a <= s.len(),
        forall|j: int| 0 <= j < a ==> spec_is_ws(#[trigger] s[j]),
        a < s.len() ==> !spec_is_ws(s[a]),
    ensures
        spec_trim_front(s) == s.subrange(a, s.len() as int),
    decreases a,
{
    if a == 0 {
        assert(s.subrange(0, s.len() as int) =~= s);
    } else {
        lemma_trim_front_chars(s.drop_first(), a - 1);
        assert(s.drop_first().subrange(a - 1, s.len() - 1) =~= s.subrange(a, s.len() as int));
    }
}

proof fn lemma_trim_back_chars(s: Seq<char>, b: int)
    requires
        0 <= b <= s.len(),
        forall|j: int| b <= j < s.len() ==> spec_is_ws(#[trigger] s[j]),
        b > 0 ==> !spec_is_ws(s[b - 1]),
    ensures
        spec_trim_back(s) == s.subrange(0, b),
    decreases s.len() - b,
{
    if b == s.len() {
        assert(s.subrange(0, s.len() as int) =~= s);
    } else {
        lemma_trim_back_chars(s.drop_last(), b);
        assert(s.drop_last().subrange(0, b) =~= s.subrange(0, b));
    }
}

/// Remove leading and trailing whitespace from a string slice.
pub fn trim_str<'a>(s: &'a str) -> (r: &'a str)
    ensures
        r@ == spec_trim(s@),
{
    let len = s.unicode_len();
    let mut a: usize = 0;
    while a < len && is_ws(s.get_char(a))
        invariant
            0 <= a <= len == s@.len(),
            forall|j: int| 0 <= j < a ==> spec_is_ws(#[trigger] s@[j]),
        decreases len - a,
    {
        a += 1;
    }
    proof {
        lemma_trim_front_chars(s@, a as int);
    }
    let mut b: usize = len;
    while b > a && is_ws(s.get_char(b - 1))
        invariant
            a <= b <= len == s@.len(),
            forall|j: int| b <= j < s@.len() ==> spec_is_ws(#[trigger] s@[j]),
        decreases b,
    {
        b -= 1;
    }
    proof {
        let front = s@.subrange(a as int, s@.len() as int);
        lemma_trim_back_chars(front, b - a);
        assert(front.subrange(0, b - a) =~= s@.subrange(a as int, b as int));
    }
    s.substring_char(a, b)
}

/// Index of the first occurrence of `sep`, if any.
pub open spec fn spec_find(s: Seq<char>, sep: char) -> Option<int>
    decreases s.len(),
{
    if s.len() == 0 {
        Option::None
    } else if s[0] == sep {
        Option::Some(0int)
    } else {
        match spec_find(s.drop_first(), sep) {
            Option::None => Option::None,
            Option::Some(i) => Option::Some(i + 1),
        }
    }
}

pub proof fn lemma_find_range(s: Seq<char>, sep: char)
    ensures
        match spec_find(s, sep) {
            Option::None => forall|j: int| 0 <= j < s.len() ==> s[j] != sep,
            Option::Some(i) => 0 <= i < s.len() && s[i] == sep && forall|j: int|
                0 <= j < i ==> s[j] != sep,
        },
    decreases s.len(),
{
    if s.len() > 0 && s[0] != sep {
        lemma_find_range(s.drop_first(), sep);
        match spec_find(s, sep) {
            Option::None => {
                assert forall|j: int| 0 <= j < s.len() implies s[j] != sep by {
                    if j >= 1 {
                        assert(s[j] == s.drop_first()[j - 1]);
                    }
                }
            },
            Option::Some(i) => {
                assert(s[i] == s.drop_first()[i - 1]);
                assert forall|j: int| 0 <= j < i implies s[j] != sep by {
                    if j >= 1 {
                        assert(s[j] == s.drop_first()[j - 1]);
                    }
                }
            },
        }
    }
}

pub proof fn lemma_find_at(s: Seq<char>, sep: char, k: int)
    requires
        0 <= k < s.len(),
        s[k] == sep,
        forall|j: int| 0 <= j < k ==> s[j] != sep,
    ensures
        spec_find(s, sep) == Option::Some(k),
    decreases k,
{
    if k > 0 {
        lemma_find_at(s.drop_first(), sep, k - 1);
    }
}

pub proof fn lemma_find_none(s: Seq<char>, sep: char)
    requires
        forall|j: int| 0 <= j < s.len() ==> s[j] != sep,
    ensures
        spec_find(s, sep) == Option::None::<int>,
    decreases s.len(),
{
    if s.len() > 0 {
        lemma_find_none(s.drop_first(), sep);
    }
}

/// Split on a separator; a sequence with no separator yields itself as
/// the single piece, so the result is never empty.
pub open spec fn spec_split(s: Seq<char>, sep: char) -> Seq<Seq<char>>
    decreases s.len(),
{
    match spec_find(s, sep) {
        Option::None => seq![s],
        Option::Some(i) => {
            if 0 <= i < s.len() {
                seq![s.subrange(0, i)] + spec_split(s.subrange(i + 1, s.len() as int), sep)
            } else {
                seq![s]
            }
        },
    }
}

/// The views of a sequence of string slices.
pub open spec fn spec_views(ts: Seq<&str>) -> Seq<Seq<char>> {
    ts.map_values(|t: &str| t@)
}

/// Split a string slice on a separator character.
pub fn split_str<'a>(s: &'a str, sep: char) -> (r: Vec<&'a str>)
    ensures
        spec_views(r@) == spec_split(s@, sep),
        r@.len() >= 1,
{
    let len = s.unicode_len();
    let mut r: Vec<&'a str> = Vec::new();
    let mut start: usize = 0;
    let mut i: usize = 0;
    proof {
        assert(s@.subrange(0, len as int) =~= s@);
        assert(spec_views(r@) =~= Seq::<Seq<char>>::empty());
        assert(spec_views(r@) + spec_split(s@, sep) =~= spec_split(s@, sep));
    }
    while i < len
        invariant
            0 <= start <= i <= len == s@.len(),
            forall|j: int| start <= j < i ==> s@[j] != sep,
            spec_split(s@, sep) =~= spec_views(r@) + spec_split(
                s@.subrange(start as int, len as int),
                sep,
            ),
        decreases len - i,
    {
        if s.get_char(i) == sep {
            let piece = s.substring_char(start, i);
            proof {
                let rem = s@.subrange(start as int, len as int);
                lemma_find_at(rem, sep, i - start);
                assert(rem.subrange(0, i - start) =~= s@.subrange(start as int, i as int));
                assert(rem.subrange(i - start + 1, rem.len() as int) =~= s@.subrange(
                    i + 1,
                    len as int,
                ));
                assert(spec_views(r@.push(piece)) =~= spec_views(r@).push(piece@));
                assert(spec_views(r@) + spec_split(rem, sep) =~= spec_views(r@).push(piece@)
                    + spec_split(s@.subrange(i + 1, len as int), sep));
            }
            r.push(piece);
            start = i + 1;
        }
        i += 1;
    }
    let piece = s.substring_char(start, len);
    proof {
        let rem = s@.subrange(start as int, len as int);
        lemma_find_none(rem, sep);
        assert(spec_split(rem, sep) =~= seq![rem]);
        assert(spec_views(r@.push(piece)) =~= spec_views(r@).push(piece@));
        assert(spec_views(r@).push(rem) =~= spec_views(r@) + spec_split(rem, sep));
    }
    r.push(piece);
    r
}

/// Character-wise equality of two string slices.
pub fn str_eq(a: &str, b: &str) -> (r: bool)
    ensures
        r == (a@ == b@),
{
    let alen = a.unicode_len();
    let blen = b.unicode_len();
    if alen != blen {
        assert(a@ != b@) by {
            assert(a@.len() != b@.len());
        }
        return false;
    }
    let mut i: usize = 0;
    while i < alen
        invariant
            0 <= i <= alen == a@.len(),
            b@.len() == alen,
            forall|j: int| 0 <= j < i ==> a@[j] == b@[j],
        decreases alen - i,
    {
        if a.get_char(i) != b.get_char(i) {
            return false;
        }
        i += 1;
    }
    proof {
        assert(a@ =~= b@);
    }
    true
}

/// ASCII lowercase of a string slice.
pub fn lower_str(s: &str) -> (r: String)
    ensures
        r@ == spec_lower(s@),
{
    let len = s.unicode_len();
    let mut r = String::new();
    let mut i: usize = 0;
    while i < len
        invariant
            0 <= i <= len == s@.len(),
            r@ =~= spec_lower(s@.subrange(0, i as int)),
        decreases len - i,
    {
        let c = lower_char(s.get_char(i));
        push_char(&mut r, c);
        proof {
            assert(spec_lower(s@.subrange(0, i + 1)) =~= spec_lower(
                s@.subrange(0, i as int),
            ).push(spec_lower_char(s@[i as int])));
        }
        i += 1;
    }
    proof {
        assert(s@.subrange(0, s@.len() as int) =~= s@);
    }
    r
}

/// Does `hay` contain `needle` as a contiguous subsequence at or after
/// position `i`?
pub open spec fn spec_contains_from(hay: Seq<char>, needle: Seq<char>, i: int) -> bool
    decreases hay.len() - i when 0 <= i <= hay.len()
{
    if needle.len() == 0 {
        true
    } else if i + needle.len() > hay.len() {
        false
    } else if hay.subrange(i, i + needle.len()) == needle {
        true
    } else {
        spec_contains_from(hay, needle, i + 1)
    }
}

/// Substring containment, anywhere in `hay`.
pub open spec fn spec_str_contains(hay: Seq<char>, needle: Seq<char>) -> bool {
    spec_contains_from(hay, needle, 0)
}

/// Compare `needle` against `hay` starting at position `i`.
fn match_at(hay: &str, needle: &str, i: usize) -> (r: bool)
    requires
        i + needle@.len() <= hay@.len(),
    ensures
        r == (hay@.subrange(i as int, i + needle@.len()) == needle@),
{
    let hlen = hay.unicode_len();
    let nlen = needle.unicode_len();
    let mut k: usize = 0;
    while k < nlen
        invariant
            0 <= k <= nlen == needle@.len(),
            hlen == hay@.len(),
            i + nlen <= hlen,
            forall|j: int| 0 <= j < k ==> hay@[i + j] == needle@[j],
        decreases nlen - k,
    {
        if hay.get_char(i + k) != needle.get_char(k) {
            assert(hay@.subrange(i as int, i + needle@.len()) != needle@) by {
                assert(hay@.subrange(i as int, i + needle@.len())[k as int] == hay@[i + k]);
            }
            return false;
        }
        k += 1;
    }
    proof {
        assert(hay@.subrange(i as int, i + needle@.len()) =~= needle@);
    }
    true
}

/// Substring search.
pub fn str_contains(hay: &str, needle: &str) -> (r: bool)
    ensures
        r == spec_str_contains(hay@, needle@),
{
    let hlen = hay.unicode_len();
    let nlen = needle.unicode_len();
    if nlen > hlen {
        return false;
    }
    if nlen == 0 {
        return true;
    }
    let mut i: usize = 0;
    while i <= hlen - nlen
        invariant
            0 <= i <= hlen - nlen + 1,
            0 < nlen <= hlen,
            hlen == hay@.len(),
            nlen == needle@.len(),
            spec_str_contains(hay@, needle@) == spec_contains_from(hay@, needle@, i as int),
        decreases hlen - i,
    {
        if match_at(hay, needle, i) {
            return true;
        }
        i += 1;
    }
    false
}

/// Lexicographic order on character sequences, by code point.
pub open spec fn spec_lex_le(a: Seq<char>, b: Seq<char>) -> bool
    decreases a.len(),
{
    if a.len() == 0 {
        true
    } else if b.len() == 0 {
        false
    } else if a[0] < b[0] {
        true
    } else if b[0] < a[0] {
        false
    } else {
        spec_lex_le(a.drop_first(), b.drop_first())
    }
}

pub proof fn lemma_lex_le_total(a: Seq<char>, b: Seq<char>)
    ensures
        spec_lex_le(a, b) || spec_lex_le(b, a),
        spec_lex_le(a, b) && spec_lex_le(b, a) ==> a == b,
    decreases a.len(),
{
    if a.len() == 0 {
        if spec_lex_le(b, a) {
            assert(b.len() == 0);
            assert(a =~= b);
        }
    } else if b.len() == 0 {
    } else if !(a[0] < b[0]) && !(b[0] < a[0]) {
        lemma_lex_le_total(a.drop_first(), b.drop_first());
        assert(a[0] == b[0]);
        if spec_lex_le(a, b) && spec_lex_le(b, a) {
            assert(a.drop_first() == b.drop_first());
            assert forall|j: int| 0 <= j < a.len() implies a[j] == b[j] by {
                if j >= 1 {
                    assert(a[j] == a.drop_first()[j - 1]);
                    assert(b[j] == b.drop_first()[j - 1]);
                }
            }
            assert(a =~= b);
        }
    }
}

pub proof fn lemma_lex_le_trans(a: Seq<char>, b: Seq<char>, c: Seq<char>)
    requires
        spec_lex_le(a, b),
        spec_lex_le(b, c),
    ensures
        spec_lex_le(a, c),
    decreases a.len(),
{
    if a.len() > 0 {
        assert(b.len() > 0);
        assert(c.len() > 0);
        if !(a[0] < b[0]) && !(b[0] < a[0]) && !(b[0] < c[0]) && !(c[0] < b[0]) {
            lemma_lex_le_trans(a.drop_first(), b.drop_first(), c.drop_first());
        }
    }
}

/// Lexicographic comparison of two string slices.
pub fn lex_le(a: &str, b: &str) -> (r: bool)
    ensures
        r == spec_lex_le(a@, b@),
{
    let alen = a.unicode_len();
    let blen = b.unicode_len();
    let mut i: usize = 0;
    proof {
        assert(a@.subrange(0, alen as int) =~= a@);
        assert(b@.subrange(0, blen as int) =~= b@);
    }
    loop
        invariant
            0 <= i <= alen,
            i <= blen,
            alen == a@.len(),
            blen == b@.len(),
            spec_lex_le(a@, b@) == spec_lex_le(
                a@.subrange(i as int, alen as int),
                b@.subrange(i as int, blen as int),
            ),
        decreases alen - i,
    {
        if i >= alen {
            assert(a@.subrange(i as int, alen as int).len() == 0);
            return true;
        }
        if i >= blen {
            assert(b@.subrange(i as int, blen as int).len() == 0);
            return false;
        }
        let ca = a.get_char(i);
        let cb = b.get_char(i);
        proof {
            let ra = a@.subrange(i as int, alen as int);
            let rb = b@.subrange(i as int, blen as int);
            assert(ra[0] == ca);
            assert(rb[0] == cb);
            if ca == cb {
                assert(ra.drop_first() =~= a@.subrange(i + 1, alen as int));
                assert(rb.drop_first() =~= b@.subrange(i + 1, blen as int));
            }
        }
        if ca < cb {
            return true;
        }
        if cb < ca {
            return false;
        }
        i += 1;
    }
}

} // verus!

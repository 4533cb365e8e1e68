//! Character-level helpers used by the streaming protocol: Unicode
//! whitespace, trimming at both ends, and comparison of strings.
use vstd::prelude::*;

verus! {

/// The Unicode `White_Space` property, which is what `char::is_whitespace`
/// and `str::trim` of the standard library go by.
pub open spec fn is_whitespace_spec(c: char) -> bool {
    let u = c as u32;
    ||| 0x09 <= u <= 0x0D
    ||| u == 0x20
    ||| u == 0x85
    ||| u == 0xA0
    ||| u == 0x1680
    ||| 0x2000 <= u <= 0x200A
    ||| u == 0x2028
    ||| u == 0x2029
    ||| u == 0x202F
    ||| u == 0x205F
    ||| u == 0x3000
}

/// Which characters a trim removes: whitespace, or the NUL character.
pub open spec fn is_trimmed(c: char, nul: bool) -> bool {
    if nul {
        c == '\0'
    } else {
        is_whitespace_spec(c)
    }
}

/// `s` without the trimmed characters at its front.
pub open spec fn trim_start_spec(s: Seq<char>, nul: bool) -> Seq<char>
    decreases s.len(),
{
    if s.len() > 0 && is_trimmed(s[0], nul) {
        trim_start_spec(s.drop_first(), nul)
    } else {
        s
    }
}

/// `s` without the trimmed characters at its end.
pub open spec fn trim_end_spec(s: Seq<char>, nul: bool) -> Seq<char>
    decreases s.len(),
{
    if s.len() > 0 && is_trimmed(s.last(), nul) {
        trim_end_spec(s.drop_last(), nul)
    } else {
        s
    }
}

/// `s` without the trimmed characters at either end.
pub open spec fn trim_both_spec(s: Seq<char>, nul: bool) -> Seq<char> {
    trim_end_spec(trim_start_spec(s, nul), nul)
}

/// What `str::trim` gives: the text without leading and trailing whitespace.
pub open spec fn trim_spec(s: Seq<char>) -> Seq<char> {
    trim_both_spec(s, false)
}

/// What `str::trim_matches(|c| c == '\0')` gives: the text without
/// leading and trailing NUL characters.
pub open spec fn trim_nul_spec(s: Seq<char>) -> Seq<char> {
    trim_both_spec(s, true)
}

/// Whether `c` is a Unicode whitespace character.
pub fn is_whitespace(c: char) -> (r: bool)
    ensures
        r == is_whitespace_spec(c),
{
    let u = c as u32;
    (0x09 <= u && u <= 0x0D) || u == 0x20 || u == 0x85 || u == 0xA0 || u == 0x1680 || (0x2000
        <= u && u <= 0x200A) || u == 0x2028 || u == 0x2029 || u == 0x202F || u == 0x205F || u
        == 0x3000
}

fn is_trimmed_char(c: char, nul: bool) -> (r: bool)
    ensures
        r == is_trimmed(c, nul),
{
    if nul {
        c == '\0'
    } else {
        is_whitespace(c)
    }
}

proof fn lemma_trim_start_step(s: Seq<char>, i: int, nul: bool)
    requires
        0 <= i < s.len(),
        is_trimmed(s[i], nul),
    ensures
        trim_start_spec(s.subrange(i, s.len() as int), nul) == trim_start_spec(
            s.subrange(i + 1, s.len() as int),
            nul,
        ),
{
    assert(s.subrange(i, s.len() as int).drop_first() =~= s.subrange(i + 1, s.len() as int));
}

proof fn lemma_trim_end_step(s: Seq<char>, i: int, j: int, nul: bool)
    requires
        0 <= i < j <= s.len(),
        is_trimmed(s[j - 1], nul),
    ensures
        trim_end_spec(s.subrange(i, j), nul) == trim_end_spec(s.subrange(i, j - 1), nul),
{
    assert(s.subrange(i, j).drop_last() =~= s.subrange(i, j - 1));
}

/// The start and end (in characters) of what is left of `s` once the
/// trimmed characters are taken off both ends.
fn trim_bounds(s: &str, nul: bool) -> (r: (usize, usize))
    ensures
        r.0 <= r.1 <= s@.len(),
        s@.subrange(r.0 as int, r.1 as int) == trim_both_spec(s@, nul),
{
    let n = s.unicode_len();
    let mut i: usize = 0;
    assert(s@.subrange(0, n as int) =~= s@);
    while i < n && is_trimmed_char(s.get_char(i), nul)
        invariant
            n == s@.len(),
            i <= n,
            trim_start_spec(s@, nul) == trim_start_spec(s@.subrange(i as int, n as int), nul),
        decreases n - i,
    {
        proof {
            lemma_trim_start_step(s@, i as int, nul);
        }
        i = i + 1;
    }
    assert(trim_start_spec(s@.subrange(i as int, n as int), nul) == s@.subrange(
        i as int,
        n as int,
    ));
    let mut j: usize = n;
    while j > i && is_trimmed_char(s.get_char(j - 1), nul)
        invariant
            n == s@.len(),
            i <= j <= n,
            trim_start_spec(s@, nul) == s@.subrange(i as int, n as int),
            trim_end_spec(s@.subrange(i as int, n as int), nul) == trim_end_spec(
                s@.subrange(i as int, j as int),
                nul,
            ),
        decreases j,
    {
        proof {
            lemma_trim_end_step(s@, i as int, j as int, nul);
        }
        j = j - 1;
    }
    assert(trim_end_spec(s@.subrange(i as int, j as int), nul) == s@.subrange(
        i as int,
        j as int,
    ));
    (i, j)
}

/// The text without leading and trailing whitespace, as `str::trim` gives it.
pub fn trim(s: &str) -> (r: &str)
    ensures
        r@ == trim_spec(s@),
{
    let (i, j) = trim_bounds(s, false);
    s.substring_char(i, j)
}

/// The text without leading and trailing NUL characters, as
/// `str::trim_matches(|c| c == '\0')` gives it.
pub fn trim_nul(s: &str) -> (r: &str)
    ensures
        r@ == trim_nul_spec(s@),
{
    let (i, j) = trim_bounds(s, true);
    s.substring_char(i, j)
}

/// Whether two texts hold the same characters.
pub fn str_eq(a: &str, b: &str) -> (r: bool)
    ensures
        r == (a@ == b@),
{
    let n = a.unicode_len();
    let m = b.unicode_len();
    if n != m {
        return false;
    }
    let mut i: usize = 0;
    while i < n
        invariant
            n == a@.len(),
            n == b@.len(),
            i <= n,
            forall|k: int| 0 <= k < i ==> a@[k] == b@[k],
        decreases n - i,
    {
        if a.get_char(i) != b.get_char(i) {
            return false;
        }
        i = i + 1;
    }
    assert(a@ =~= b@);
    true
}

/// Trimming twice is trimming once.
pub proof fn law_trim_idempotent(s: Seq<char>, nul: bool)
    ensures
        trim_both_spec(trim_both_spec(s, nul), nul) == trim_both_spec(s, nul),
{
    let t = trim_start_spec(s, nul);
    let u = trim_end_spec(t, nul);
    lemma_trim_start_end(s, nul);
    lemma_trim_end_start(t, nul);
    lemma_trim_end_last(t, nul);
    lemma_trim_start_fixed(u, nul);
    lemma_trim_end_fixed(u, nul);
}

proof fn lemma_trim_start_end(s: Seq<char>, nul: bool)
    ensures
        trim_start_spec(s, nul).len() == 0 || !is_trimmed(trim_start_spec(s, nul)[0], nul),
    decreases s.len(),
{
    if s.len() > 0 && is_trimmed(s[0], nul) {
        lemma_trim_start_end(s.drop_first(), nul);
    }
}

proof fn lemma_trim_end_last(s: Seq<char>, nul: bool)
    ensures
        trim_end_spec(s, nul).len() == 0 || !is_trimmed(trim_end_spec(s, nul).last(), nul),
    decreases s.len(),
{
    if s.len() > 0 && is_trimmed(s.last(), nul) {
        lemma_trim_end_last(s.drop_last(), nul);
    }
}

/// Trimming the end of a text whose first character is kept leaves that
/// first character in place (or leaves nothing).
proof fn lemma_trim_end_start(s: Seq<char>, nul: bool)
    requires
        s.len() == 0 || !is_trimmed(s[0], nul),
    ensures
        trim_end_spec(s, nul).len() == 0 || !is_trimmed(trim_end_spec(s, nul)[0], nul),
        trim_end_spec(s, nul).len() <= s.len(),
        trim_end_spec(s, nul) == s.subrange(0, trim_end_spec(s, nul).len() as int),
    decreases s.len(),
{
    if s.len() > 0 && is_trimmed(s.last(), nul) {
        let t = s.drop_last();
        if t.len() > 0 {
            assert(t[0] == s[0]);
        }
        lemma_trim_end_start(t, nul);
        let k = trim_end_spec(t, nul).len() as int;
        assert(t.subrange(0, k) =~= s.subrange(0, k));
    } else {
        assert(s.subrange(0, s.len() as int) =~= s);
    }
}

/// What a trim leaves is a piece of the text with nothing but trimmed
/// characters before and after it, and it neither starts nor ends with a
/// trimmed character.
pub proof fn law_trim_shape(s: Seq<char>, nul: bool)
    ensures
        ({
            let t = trim_both_spec(s, nul);
            &&& t.len() == 0 || (!is_trimmed(t[0], nul) && !is_trimmed(t.last(), nul))
            &&& exists|i: int|
                0 <= i && i + t.len() <= s.len() && #[trigger] s.subrange(i, i + t.len()) == t
                    && (forall|k: int| 0 <= k < i ==> is_trimmed(s[k], nul)) && (forall|k: int|
                    i + t.len() <= k < s.len() ==> is_trimmed(s[k], nul))
        }),
{
    let t0 = trim_start_spec(s, nul);
    let t = trim_end_spec(t0, nul);
    lemma_trim_start_end(s, nul);
    lemma_trim_end_start(t0, nul);
    lemma_trim_end_last(t0, nul);
    let i = lemma_trim_start_suffix(s, nul);
    lemma_trim_end_rest(t0, nul);
    assert(s.subrange(i, i + t.len()) =~= t);
    assert forall|k: int| i + t.len() <= k < s.len() implies is_trimmed(s[k], nul) by {
        assert(s[k] == t0[k - i]);
    }
    // The witness `i` of the existential, with everything it needs at once.
    assert(0 <= i && i + t.len() <= s.len() && s.subrange(i, i + t.len()) == t && (forall|k: int|
        0 <= k < i ==> is_trimmed(s[k], nul)) && (forall|k: int|
        i + t.len() <= k < s.len() ==> is_trimmed(s[k], nul)));
}

/// What `trim` leaves neither starts nor ends with whitespace, and is a
/// piece of the text with nothing but whitespace before and after it.
pub proof fn law_trim_whitespace(s: Seq<char>)
    ensures
        ({
            let t = trim_spec(s);
            &&& t.len() == 0 || (!is_whitespace_spec(t[0]) && !is_whitespace_spec(t.last()))
            &&& exists|i: int|
                0 <= i && i + t.len() <= s.len() && #[trigger] s.subrange(i, i + t.len()) == t
                    && (forall|k: int| 0 <= k < i ==> is_whitespace_spec(s[k])) && (forall|k: int|
                    i + t.len() <= k < s.len() ==> is_whitespace_spec(s[k]))
        }),
{
    law_trim_shape(s, false);
    let t = trim_both_spec(s, false);
    let i = choose|i: int|
        0 <= i && i + t.len() <= s.len() && #[trigger] s.subrange(i, i + t.len()) == t && (forall|
            k: int,
        | 0 <= k < i ==> is_trimmed(s[k], false)) && (forall|k: int|
            i + t.len() <= k < s.len() ==> is_trimmed(s[k], false));
    assert(0 <= i && i + t.len() <= s.len() && s.subrange(i, i + t.len()) == t && (forall|k: int|
        0 <= k < i ==> is_whitespace_spec(s[k])) && (forall|k: int| i + t.len() <= k < s.len() ==> is_whitespace_spec(s[k])));
}

/// What `trim_nul` leaves neither starts nor ends with a NUL character, and
/// is a piece of the text with nothing but NUL characters before and after
/// it.
pub proof fn law_trim_nul(s: Seq<char>)
    ensures
        ({
            let t = trim_nul_spec(s);
            &&& t.len() == 0 || (t[0] != '\0' && t.last() != '\0')
            &&& exists|i: int|
                0 <= i && i + t.len() <= s.len() && #[trigger] s.subrange(i, i + t.len()) == t
                    && (forall|k: int| 0 <= k < i ==> s[k] == '\0') && (forall|k: int|
                    i + t.len() <= k < s.len() ==> s[k] == '\0')
        }),
{
    law_trim_shape(s, true);
    let t = trim_both_spec(s, true);
    let i = choose|i: int|
        0 <= i && i + t.len() <= s.len() && #[trigger] s.subrange(i, i + t.len()) == t && (forall|
            k: int,
        | 0 <= k < i ==> is_trimmed(s[k], true)) && (forall|k: int|
            i + t.len() <= k < s.len() ==> is_trimmed(s[k], true));
    assert(0 <= i && i + t.len() <= s.len() && s.subrange(i, i + t.len()) == t && (forall|k: int|
        0 <= k < i ==> s[k] == '\0') && (forall|k: int| i + t.len() <= k < s.len() ==> s[k] == '\0'));
}

/// Trimming the front drops a run of trimmed characters.
proof fn lemma_trim_start_suffix(s: Seq<char>, nul: bool) -> (i: int)
    ensures
        0 <= i <= s.len(),
        trim_start_spec(s, nul) == s.subrange(i, s.len() as int),
        forall|k: int| 0 <= k < i ==> is_trimmed(s[k], nul),
    decreases s.len(),
{
    if s.len() > 0 && is_trimmed(s[0], nul) {
        let j = lemma_trim_start_suffix(s.drop_first(), nul);
        assert(s.drop_first().subrange(j, s.len() - 1) =~= s.subrange(j + 1, s.len() as int));
        assert forall|k: int| 0 <= k < j + 1 implies is_trimmed(s[k], nul) by {
            if k > 0 {
                assert(s[k] == s.drop_first()[k - 1]);
            }
        }
        j + 1
    } else {
        assert(s.subrange(0, s.len() as int) =~= s);
        0
    }
}

/// Trimming the end drops a run of trimmed characters.
proof fn lemma_trim_end_rest(s: Seq<char>, nul: bool)
    ensures
        trim_end_spec(s, nul).len() <= s.len(),
        trim_end_spec(s, nul) == s.subrange(0, trim_end_spec(s, nul).len() as int),
        forall|k: int| trim_end_spec(s, nul).len() <= k < s.len() ==> is_trimmed(s[k], nul),
    decreases s.len(),
{
    if s.len() > 0 && is_trimmed(s.last(), nul) {
        let t = s.drop_last();
        lemma_trim_end_rest(t, nul);
        let n = trim_end_spec(t, nul).len() as int;
        assert(t.subrange(0, n) =~= s.subrange(0, n));
        assert forall|k: int| n <= k < s.len() implies is_trimmed(s[k], nul) by {
            if k < s.len() - 1 {
                assert(s[k] == t[k]);
            }
        }
    } else {
        assert(s.subrange(0, s.len() as int) =~= s);
    }
}

proof fn lemma_trim_start_fixed(s: Seq<char>, nul: bool)
    requires
        s.len() == 0 || !is_trimmed(s[0], nul),
    ensures
        trim_start_spec(s, nul) == s,
{
}

proof fn lemma_trim_end_fixed(s: Seq<char>, nul: bool)
    requires
        s.len() == 0 || !is_trimmed(s.last(), nul),
    ensures
        trim_end_spec(s, nul) == s,
{
}

} // verus!

//! Searching, trimming and splitting of character sequences.
//!
//! Strings are handled as sequences of `char`: every position below is a
//! character position, and every specification is stated over `Seq<char>`,
//! the view of `str` and `String`.

use vstd::prelude::*;
use vstd::slice::slice_subrange;

verus! {

/// Whether `c` has the Unicode property `White_Space`: the controls from tab
/// to carriage return, the space, the next-line control, the no-break
/// space, the ogham space mark, the spaces from en quad to hair space, the
/// line and the paragraph separator, the narrow no-break space, the medium
/// mathematical space and the ideographic space.
pub open spec fn is_whitespace(c: char) -> bool {
    let n = c as u32;
    ||| 0x09 <= n <= 0x0d
    ||| n == 0x20
    ||| n == 0x85
    ||| n == 0xa0
    ||| n == 0x1680
    ||| 0x2000 <= n <= 0x200a
    ||| n == 0x2028
    ||| n == 0x2029
    ||| n == 0x202f
    ||| n == 0x205f
    ||| n == 0x3000
}

/// `char::is_whitespace` says whether a character has the Unicode property
/// `White_Space`, which is the set that [`is_whitespace`] states.
pub assume_specification[ char::is_whitespace ](c: char) -> (r: bool)
    ensures
        r == is_whitespace(c),
;

/// The lower-case form of `s`, as `str::to_lowercase` gives it.
pub uninterp spec fn lowercase(s: Seq<char>) -> Seq<char>;

/// The upper-case form of `s`, as `str::to_uppercase` gives it.
pub uninterp spec fn uppercase(s: Seq<char>) -> Seq<char>;

/// The upper-case mapping of the single character `c`, as
/// `char::to_uppercase` gives it.
pub uninterp spec fn char_uppercase(c: char) -> Seq<char>;

/// `str::to_lowercase` is a function of the text alone; its value is given
/// the name [`lowercase`].
pub assume_specification[ str::to_lowercase ](s: &str) -> (r: String)
    ensures
        r@ == lowercase(s@),
;

/// `str::to_uppercase` is a function of the text alone; its value is given
/// the name [`uppercase`].
pub assume_specification[ str::to_uppercase ](s: &str) -> (r: String)
    ensures
        r@ == uppercase(s@),
;

/// `char::to_uppercase` yields the upper-case mapping of a character as one
/// or more characters; the sequence is given the name [`char_uppercase`].
#[verifier::external_body]
pub(crate) fn upper_of_char(c: char) -> (r: Vec<char>)
    ensures
        r@ == char_uppercase(c),
        r@.len() >= 1,
{
    c.to_uppercase().collect()
}

/// `String::from_iter` over the characters of a slice: the string holds
/// exactly these characters, in order.
#[verifier::external_body]
pub(crate) fn string_of(chars: &[char]) -> (s: String)
    ensures
        s@ == chars@,
{
    chars.iter().collect()
}

/// The characters of `s`, in order.
pub fn chars_of(s: &str) -> (v: Vec<char>)
    ensures
        v@ == s@,
{
    let mut v: Vec<char> = Vec::new();
    for c in it: s.chars()
        invariant
            v@ == it.seq().take(it.index() as int),
            it.seq() == s@,
    {
        v.push(c);
    }
    v
}

/// The lower-case form of `s`.
pub fn lower(s: &[char]) -> (r: Vec<char>)
    ensures
        r@ == lowercase(s@),
{
    let owned = string_of(s);
    let folded = owned.as_str().to_lowercase();
    chars_of(folded.as_str())
}

/// The upper-case form of `s`.
pub fn upper(s: &[char]) -> (r: Vec<char>)
    ensures
        r@ == uppercase(s@),
{
    let owned = string_of(s);
    let folded = owned.as_str().to_uppercase();
    chars_of(folded.as_str())
}

/// `pat` stands in `hay` at position `i`.
pub open spec fn occurs_at(hay: Seq<char>, pat: Seq<char>, i: int) -> bool {
    &&& 0 <= i
    &&& i + pat.len() <= hay.len()
    &&& hay.subrange(i, i + pat.len()) == pat
}

/// `pat` stands somewhere in `hay`.
pub open spec fn occurs_in(hay: Seq<char>, pat: Seq<char>) -> bool {
    exists|i: int| occurs_at(hay, pat, i)
}

/// `i` is the leftmost position at which `pat` stands in `hay`.
pub open spec fn first_occurrence(hay: Seq<char>, pat: Seq<char>, i: int) -> bool {
    &&& occurs_at(hay, pat, i)
    &&& forall|j: int| 0 <= j < i ==> !occurs_at(hay, pat, j)
}

/// The leftmost position at which `pat` stands in `hay`, if there is one.
pub open spec fn first_index_of(hay: Seq<char>, pat: Seq<char>) -> Option<int> {
    if occurs_in(hay, pat) {
        Some(choose|i: int| first_occurrence(hay, pat, i))
    } else {
        None
    }
}

/// `hay` begins with `pat`.
pub open spec fn begins_with(hay: Seq<char>, pat: Seq<char>) -> bool {
    occurs_at(hay, pat, 0)
}

/// `hay` ends with `pat`.
pub open spec fn finishes_with(hay: Seq<char>, pat: Seq<char>) -> bool {
    occurs_at(hay, pat, hay.len() - pat.len())
}

/// `s` without its leading whitespace.
pub open spec fn trimmed_start(s: Seq<char>) -> Seq<char>
    decreases s.len(),
{
    if s.len() > 0 && is_whitespace(s[0]) {
        trimmed_start(s.drop_first())
    } else {
        s
    }
}

/// `s` without its trailing whitespace.
pub open spec fn trimmed_end(s: Seq<char>) -> Seq<char>
    decreases s.len(),
{
    if s.len() > 0 && is_whitespace(s.last()) {
        trimmed_end(s.drop_last())
    } else {
        s
    }
}

/// `s` without its leading and trailing whitespace.
pub open spec fn trimmed(s: Seq<char>) -> Seq<char> {
    trimmed_end(trimmed_start(s))
}

/// The leftmost occurrence is the one that `first_index_of` names.
pub proof fn lemma_first_index_of(hay: Seq<char>, pat: Seq<char>, i: int)
    requires
        first_occurrence(hay, pat, i),
    ensures
        first_index_of(hay, pat) == Some(i),
{
    let j = choose|j: int| first_occurrence(hay, pat, j);
    assert(occurs_in(hay, pat));
    assert(first_occurrence(hay, pat, j));
    if j < i {
        assert(!occurs_at(hay, pat, j));
    }
    if i < j {
        assert(!occurs_at(hay, pat, i));
    }
}

/// Where `first_index_of` names a position, it is the leftmost occurrence.
pub proof fn lemma_first_index_of_is_first(hay: Seq<char>, pat: Seq<char>)
    requires
        occurs_in(hay, pat),
    ensures
        first_index_of(hay, pat) is Some,
        first_occurrence(hay, pat, first_index_of(hay, pat).unwrap()),
{
    let w = choose|i: int| occurs_at(hay, pat, i);
    lemma_least_occurrence(hay, pat, w);
}

proof fn lemma_least_occurrence(hay: Seq<char>, pat: Seq<char>, w: int)
    requires
        occurs_at(hay, pat, w),
    ensures
        exists|i: int| first_occurrence(hay, pat, i),
    decreases w,
{
    if exists|j: int| 0 <= j < w && occurs_at(hay, pat, j) {
        let j = choose|j: int| 0 <= j < w && occurs_at(hay, pat, j);
        lemma_least_occurrence(hay, pat, j);
    } else {
        assert(first_occurrence(hay, pat, w));
    }
}

/// Whether `pat` stands in `hay` at position `at`.
pub fn matches_at(hay: &[char], pat: &[char], at: usize) -> (r: bool)
    ensures
        r == occurs_at(hay@, pat@, at as int),
{
    if pat.len() > hay.len() || at > hay.len() - pat.len() {
        return false;
    }
    let mut k: usize = 0;
    while k < pat.len()
        invariant
            k <= pat@.len(),
            at + pat@.len() <= hay@.len() <= usize::MAX,
            forall|j: int| 0 <= j < k ==> hay@[at + j] == pat@[j],
        decreases pat@.len() - k,
    {
        if hay[at + k] != pat[k] {
            assert(hay@.subrange(at as int, at + pat@.len())[k as int] == hay@[at + k]);
            return false;
        }
        k += 1;
    }
    assert(hay@.subrange(at as int, at + pat@.len()) =~= pat@);
    true
}

/// The leftmost position at which `pat` stands in `hay`.
pub fn find(hay: &[char], pat: &[char]) -> (r: Option<usize>)
    ensures
        r is Some <==> occurs_in(hay@, pat@),
        r matches Some(i) ==> first_occurrence(hay@, pat@, i as int),
        match r {
            Some(i) => first_index_of(hay@, pat@) == Some(i as int),
            None => first_index_of(hay@, pat@) is None,
        },
{
    if pat.len() > hay.len() {
        return None;
    }
    let last: usize = hay.len() - pat.len();
    let mut i: usize = 0;
    while i < last
        invariant
            i <= last,
            forall|j: int| 0 <= j < i ==> !occurs_at(hay@, pat@, j),
        decreases last - i,
    {
        if matches_at(hay, pat, i) {
            proof {
                lemma_first_index_of(hay@, pat@, i as int);
            }
            return Some(i);
        }
        i += 1;
    }
    if matches_at(hay, pat, last) {
        proof {
            lemma_first_index_of(hay@, pat@, last as int);
        }
        Some(last)
    } else {
        None
    }
}

/// Whether `pat` stands somewhere in `hay`.
pub fn contains(hay: &[char], pat: &[char]) -> (r: bool)
    ensures
        r == occurs_in(hay@, pat@),
{
    find(hay, pat).is_some()
}

/// Whether `hay` begins with `pat`.
pub fn starts_with(hay: &[char], pat: &[char]) -> (r: bool)
    ensures
        r == begins_with(hay@, pat@),
{
    matches_at(hay, pat, 0)
}

/// Whether `hay` ends with `pat`.
pub fn ends_with(hay: &[char], pat: &[char]) -> (r: bool)
    ensures
        r == finishes_with(hay@, pat@),
{
    if pat.len() > hay.len() {
        return false;
    }
    matches_at(hay, pat, hay.len() - pat.len())
}

/// Whether `a` and `b` hold the same characters.
pub fn equals(a: &[char], b: &[char]) -> (r: bool)
    ensures
        r == (a@ == b@),
{
    if a.len() != b.len() {
        return false;
    }
    let r = matches_at(a, b, 0);
    assert(a@.subrange(0, a@.len() as int) =~= a@);
    r
}

/// Whether `s` holds exactly the characters of `word`.
pub fn is_word(s: &[char], word: &str) -> (r: bool)
    ensures
        r == (s@ == word@),
{
    let w = chars_of(word);
    equals(s, w.as_slice())
}

/// Leading whitespace is dropped one character at a time.
pub proof fn lemma_trimmed_start(s: Seq<char>, a: int)
    requires
        0 <= a <= s.len(),
        forall|j: int| 0 <= j < a ==> is_whitespace(s[j]),
        a < s.len() ==> !is_whitespace(s[a]),
    ensures
        trimmed_start(s) == s.subrange(a, s.len() as int),
    decreases a,
{
    if a == 0 {
        assert(s.subrange(0, s.len() as int) =~= s);
    } else {
        let t = s.drop_first();
        assert forall|j: int| 0 <= j < a - 1 implies is_whitespace(t[j]) by {
            assert(t[j] == s[j + 1]);
        }
        lemma_trimmed_start(t, a - 1);
        assert(t.subrange(a - 1, t.len() as int) =~= s.subrange(a, s.len() as int));
    }
}

/// Trailing whitespace is dropped one character at a time.
pub proof fn lemma_trimmed_end(s: Seq<char>, b: int)
    requires
        0 <= b <= s.len(),
        forall|j: int| b <= j < s.len() ==> is_whitespace(s[j]),
        0 < b ==> !is_whitespace(s[b - 1]),
    ensures
        trimmed_end(s) == s.subrange(0, b),
    decreases s.len() - b,
{
    if b == s.len() {
        assert(s.subrange(0, b) =~= s);
    } else {
        let t = s.drop_last();
        lemma_trimmed_end(t, b);
        assert(t.subrange(0, b) =~= s.subrange(0, b));
    }
}

/// `s` without its leading and trailing whitespace.
pub fn trim(s: &[char]) -> (r: &[char])
    ensures
        r@ == trimmed(s@),
{
    let mut a: usize = 0;
    while a < s.len() && s[a].is_whitespace()
        invariant
            a <= s@.len(),
            forall|j: int| 0 <= j < a ==> is_whitespace(s@[j]),
        decreases s@.len() - a,
    {
        a += 1;
    }
    let mut b: usize = s.len();
    while b > a && s[b - 1].is_whitespace()
        invariant
            a <= b <= s@.len(),
            forall|j: int| b <= j < s@.len() ==> is_whitespace(s@[j]),
        decreases b,
    {
        b -= 1;
    }
    proof {
        lemma_trimmed_start(s@, a as int);
        let t = s@.subrange(a as int, s@.len() as int);
        assert forall|j: int| b - a <= j < t.len() implies is_whitespace(t[j]) by {
            assert(t[j] == s@[a + j]);
        }
        if b > a {
            assert(t[b - a - 1] == s@[b - 1]);
        }
        lemma_trimmed_end(t, b - a);
        assert(t.subrange(0, b - a) =~= s@.subrange(a as int, b as int));
    }
    slice_subrange(s, a, b)
}

/// What divides a text into pieces.
#[derive(Clone, Copy, Debug)]
pub enum Separator {
    /// Every occurrence of this character.
    Char(char),
    /// Every whitespace character.
    Whitespace,
}

/// `c` divides a text under `sep`.
pub open spec fn cuts(sep: Separator, c: char) -> bool {
    match sep {
        Separator::Char(x) => c == x,
        Separator::Whitespace => is_whitespace(c),
    }
}

/// The pieces of `s` between its dividing characters, in order. A text with
/// `n` dividing characters has `n + 1` pieces, some of which may be empty.
pub open spec fn pieces(s: Seq<char>, sep: Separator) -> Seq<Seq<char>>
    decreases s.len(),
{
    if s.len() == 0 {
        seq![Seq::<char>::empty()]
    } else {
        let before = pieces(s.drop_last(), sep);
        if cuts(sep, s.last()) {
            before.push(Seq::<char>::empty())
        } else {
            before.drop_last().push(before.last().push(s.last()))
        }
    }
}

/// The character sequences that the slices of `v` hold.
pub open spec fn views(v: Seq<&[char]>) -> Seq<Seq<char>> {
    v.map_values(|p: &[char]| p@)
}

/// Whether `c` divides a text under `sep`.
pub fn is_cut(sep: Separator, c: char) -> (r: bool)
    ensures
        r == cuts(sep, c),
{
    match sep {
        Separator::Char(x) => c == x,
        Separator::Whitespace => c.is_whitespace(),
    }
}

/// The pieces of `s` between its dividing characters, in order.
pub fn split<'a>(s: &'a [char], sep: Separator) -> (r: Vec<&'a [char]>)
    ensures
        views(r@) == pieces(s@, sep),
        r@.len() >= 1,
{
    let mut out: Vec<&'a [char]> = Vec::new();
    let mut start: usize = 0;
    let mut k: usize = 0;
    assert(s@.take(0) =~= Seq::<char>::empty());
    assert(views(out@).push(s@.subrange(0, 0)) =~= seq![Seq::<char>::empty()]);
    while k < s.len()
        invariant
            start <= k <= s@.len(),
            pieces(s@.take(k as int), sep) == views(out@).push(s@.subrange(start as int, k as int)),
        decreases s@.len() - k,
    {
        let ghost prefix = s@.take(k as int);
        let ghost next = s@.take(k + 1);
        assert(next.drop_last() =~= prefix);
        assert(next.last() == s@[k as int]);
        if is_cut(sep, s[k]) {
            let ghost old_out = out@;
            out.push(slice_subrange(s, start, k));
            assert(views(out@) =~= views(old_out).push(s@.subrange(start as int, k as int)));
            start = k + 1;
            assert(s@.subrange(start as int, k + 1) =~= Seq::<char>::empty());
        } else {
            let ghost before = views(out@).push(s@.subrange(start as int, k as int));
            assert(before.drop_last() =~= views(out@));
            assert(before.last().push(s@[k as int]) =~= s@.subrange(start as int, k + 1));
        }
        k += 1;
    }
    assert(s@.take(k as int) =~= s@);
    let ghost old_out = out@;
    out.push(slice_subrange(s, start, s.len()));
    assert(views(out@) =~= views(old_out).push(s@.subrange(start as int, k as int)));
    out
}

/// `parts` put together again, with `sep` between any two.
pub open spec fn rejoined(parts: Seq<Seq<char>>, sep: char) -> Seq<char>
    decreases parts.len(),
{
    if parts.len() == 0 {
        Seq::<char>::empty()
    } else if parts.len() == 1 {
        parts[0]
    } else {
        rejoined(parts.drop_last(), sep) + seq![sep] + parts.last()
    }
}

/// The pieces of a text between the occurrences of a character hold no such
/// character, and put together again with it they give the text.
pub proof fn lemma_pieces_rejoin(s: Seq<char>, sep: char)
    ensures
        pieces(s, Separator::Char(sep)).len() >= 1,
        rejoined(pieces(s, Separator::Char(sep)), sep) == s,
        forall|i: int|
            0 <= i < pieces(s, Separator::Char(sep)).len() ==> !(#[trigger] pieces(
                s,
                Separator::Char(sep),
            )[i]).contains(sep),
    decreases s.len(),
{
    let all = pieces(s, Separator::Char(sep));
    if s.len() == 0 {
        assert(rejoined(all, sep) =~= s);
    } else {
        let before = pieces(s.drop_last(), Separator::Char(sep));
        lemma_pieces_rejoin(s.drop_last(), sep);
        if cuts(Separator::Char(sep), s.last()) {
            assert(all.drop_last() =~= before);
            assert(rejoined(all, sep) =~= s.drop_last().push(sep));
            assert(s.drop_last().push(sep) =~= s);
        } else {
            let grown = before.last().push(s.last());
            assert(all.last() == grown);
            assert(all.drop_last() =~= before.drop_last());
            assert(rejoined(all, sep) =~= rejoined(before, sep).push(s.last()));
            assert(s.drop_last().push(s.last()) =~= s);
            assert forall|i: int| 0 <= i < all.len() implies !(#[trigger] all[i]).contains(
                sep,
            ) by {
                if i < all.len() - 1 {
                    assert(all[i] == before[i]);
                } else {
                    assert(!before.last().contains(sep));
                    if grown.contains(sep) {
                        let k = choose|k: int| 0 <= k < grown.len() && grown[k] == sep;
                        if k < before.last().len() {
                            assert(before.last()[k] == sep);
                        }
                    }
                }
            }
        }
    }
}

} // verus!

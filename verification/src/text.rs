//! Character-level text handling shared by the scraper, the logger and the
//! path helpers: whitespace classes, word splitting, joining, trimming and
//! substring search, each with a specification over `Seq<char>`.
use vstd::prelude::*;

verus! {

// ---------------------------------------------------------------------------
// Specifications
// ---------------------------------------------------------------------------

/// The characters that carry the Unicode `White_Space` property; this is the
/// class that `char::is_whitespace`, `str::split_whitespace` and `str::trim`
/// use.
pub open spec fn is_ws(c: char) -> bool {
    ||| ('\u{9}' <= c && c <= '\u{d}')
    ||| c == ' '
    ||| c == '\u{85}'
    ||| c == '\u{a0}'
    ||| c == '\u{1680}'
    ||| ('\u{2000}' <= c && c <= '\u{200a}')
    ||| c == '\u{2028}'
    ||| c == '\u{2029}'
    ||| c == '\u{202f}'
    ||| c == '\u{205f}'
    ||| c == '\u{3000}'
}

/// The maximal runs of non-whitespace characters of `s`, left to right.
pub open spec fn words(s: Seq<char>) -> Seq<Seq<char>>
    decreases s.len(),
{
    if s.len() == 0 {
        seq![]
    } else {
        let prev = words(s.drop_last());
        let c = s.last();
        if is_ws(c) {
            prev
        } else if s.len() >= 2 && !is_ws(s[s.len() - 2]) {
            prev.update(prev.len() - 1, prev.last().push(c))
        } else {
            prev.push(seq![c])
        }
    }
}

/// `parts` joined with `sep` between neighbours.
pub open spec fn join(parts: Seq<Seq<char>>, sep: Seq<char>) -> Seq<char>
    decreases parts.len(),
{
    if parts.len() == 0 {
        seq![]
    } else if parts.len() == 1 {
        parts[0]
    } else {
        join(parts.drop_last(), sep) + sep + parts.last()
    }
}

/// The character sequences held by a sequence of `String`s.
pub open spec fn views(v: Seq<String>) -> Seq<Seq<char>> {
    v.map_values(|s: String| s@)
}

/// The part of `s` before the first `c` (all of `s` when there is none).
pub open spec fn before_char(s: Seq<char>, c: char) -> Seq<char>
    decreases s.len(),
{
    if s.len() == 0 {
        s
    } else if s[0] == c {
        seq![]
    } else {
        seq![s[0]] + before_char(s.drop_first(), c)
    }
}

/// The characters held by an optional `String`.
pub open spec fn opt_view(o: Option<String>) -> Option<Seq<char>> {
    match o {
        Some(s) => Some(s@),
        None => None,
    }
}

/// The character sequences of a sequence of string slices.
pub open spec fn str_views(v: Seq<&str>) -> Seq<Seq<char>> {
    v.map_values(|s: &str| s@)
}

/// `s` with each occurrence of the non-empty `p`, found from the left
/// without overlap, replaced by `r` (what `str::replace` gives).
pub open spec fn replace_all(s: Seq<char>, p: Seq<char>, r: Seq<char>) -> Seq<char>
    decreases s.len(),
{
    if s.len() == 0 {
        s
    } else if p.len() > 0 && starts_with(s, p) {
        r + replace_all(s.skip(p.len() as int), p, r)
    } else {
        seq![s[0]] + replace_all(s.drop_first(), p, r)
    }
}

/// The prefix of `s` whose UTF-8 encoding has exactly `n` bytes, if `n` is
/// a character boundary (what `str::get(..n)` gives).
pub open spec fn byte_prefix(s: Seq<char>, n: int) -> Option<Seq<char>>
    decreases s.len(),
{
    if n == 0 {
        Some(seq![])
    } else if s.len() == 0 || n < 0 {
        None
    } else {
        let w = char_byte_len(s[0]) as int;
        if w > n {
            None
        } else {
            match byte_prefix(s.drop_first(), n - w) {
                Some(p) => Some(seq![s[0]] + p),
                None => None,
            }
        }
    }
}

/// Words of `s` separated by single spaces.
pub open spec fn collapse_ws(s: Seq<char>) -> Seq<char> {
    join(words(s), seq![' '])
}

/// `s` without its leading whitespace.
pub open spec fn trim_start(s: Seq<char>) -> Seq<char>
    decreases s.len(),
{
    if s.len() > 0 && is_ws(s[0]) {
        trim_start(s.drop_first())
    } else {
        s
    }
}

/// `s` without its trailing whitespace.
pub open spec fn trim_end(s: Seq<char>) -> Seq<char>
    decreases s.len(),
{
    if s.len() > 0 && is_ws(s.last()) {
        trim_end(s.drop_last())
    } else {
        s
    }
}

/// `s` without leading and trailing whitespace.
pub open spec fn trim(s: Seq<char>) -> Seq<char> {
    trim_end(trim_start(s))
}

/// `s` begins with `p`.
pub open spec fn starts_with(s: Seq<char>, p: Seq<char>) -> bool {
    p.len() <= s.len() && s.take(p.len() as int) == p
}

/// `s` ends with `p`.
pub open spec fn ends_with(s: Seq<char>, p: Seq<char>) -> bool {
    p.len() <= s.len() && s.skip(s.len() - p.len()) == p
}

/// `p` occurs in `s` at position `i`.
pub open spec fn occurs_at(s: Seq<char>, p: Seq<char>, i: int) -> bool {
    0 <= i && i + p.len() <= s.len() && s.subrange(i, i + p.len()) == p
}

/// `p` occurs somewhere in `s`.
pub open spec fn contains(s: Seq<char>, p: Seq<char>) -> bool {
    exists|i: int| occurs_at(s, p, i)
}

/// `s` with every leading repetition of the non-empty `p` removed.
pub open spec fn strip_all_prefix(s: Seq<char>, p: Seq<char>) -> Seq<char>
    decreases s.len(),
{
    if p.len() > 0 && starts_with(s, p) {
        strip_all_prefix(s.skip(p.len() as int), p)
    } else {
        s
    }
}

/// `s` with every trailing repetition of the non-empty `p` removed.
pub open spec fn strip_all_suffix(s: Seq<char>, p: Seq<char>) -> Seq<char>
    decreases s.len(),
{
    if p.len() > 0 && ends_with(s, p) {
        strip_all_suffix(s.take(s.len() - p.len()), p)
    } else {
        s
    }
}

/// The pieces of `s` between the non-overlapping occurrences of the
/// non-empty `sep`, found from the left (what `str::split` yields).
pub open spec fn split(s: Seq<char>, sep: Seq<char>) -> Seq<Seq<char>>
    decreases s.len(),
{
    if s.len() == 0 {
        seq![seq![]]
    } else if sep.len() > 0 && starts_with(s, sep) {
        seq![Seq::<char>::empty()] + split(s.skip(sep.len() as int), sep)
    } else {
        let rest = split(s.drop_first(), sep);
        rest.update(0, seq![s[0]] + rest[0])
    }
}

/// `s` with every `from` replaced by `to`.
pub open spec fn replace_char(s: Seq<char>, from: char, to: char) -> Seq<char> {
    s.map_values(|c: char| if c == from { to } else { c })
}

/// ASCII letters mapped to lower case, every other character kept.
pub open spec fn ascii_lower(c: char) -> char {
    if 'A' <= c && c <= 'Z' {
        ((c as u32) + 32) as char
    } else {
        c
    }
}

/// What `str::eq_ignore_ascii_case` decides.
pub open spec fn eq_ignore_ascii_case(a: Seq<char>, b: Seq<char>) -> bool {
    a.len() == b.len() && forall|i: int| 0 <= i < a.len() ==> ascii_lower(a[i]) == ascii_lower(b[i])
}

/// Length in bytes of the UTF-8 encoding of `s` (what `str::len` returns).
pub open spec fn byte_len(s: Seq<char>) -> nat {
    vstd::utf8::encode_utf8(s).len()
}

/// The decimal digit character for `d < 10`.
pub open spec fn digit_char(d: nat) -> char {
    (d + 48) as char
}

/// Decimal notation of `n`, without leading zeros (what `u64::to_string` gives).
pub open spec fn decimal(n: nat) -> Seq<char>
    decreases n,
{
    if n < 10 {
        seq![digit_char(n)]
    } else {
        decimal(n / 10).push(digit_char(n % 10))
    }
}

/// `n` in decimal, left-padded with zeros to at least `width` digits.
pub open spec fn decimal_padded(n: nat, width: nat) -> Seq<char> {
    let d = decimal(n);
    if d.len() >= width {
        d
    } else {
        Seq::new((width - d.len()) as nat, |i: int| '0') + d
    }
}

// ---------------------------------------------------------------------------
// Lemmas
// ---------------------------------------------------------------------------

pub proof fn lemma_join_push(parts: Seq<Seq<char>>, x: Seq<char>, sep: Seq<char>)
    ensures
        parts.len() == 0 ==> join(parts.push(x), sep) == x,
        parts.len() > 0 ==> join(parts.push(x), sep) == join(parts, sep) + sep + x,
{
    assert(parts.push(x).drop_last() =~= parts);
}

pub proof fn lemma_join_extend_last(parts: Seq<Seq<char>>, c: char, sep: Seq<char>)
    requires
        parts.len() > 0,
    ensures
        join(parts.update(parts.len() - 1, parts.last().push(c)), sep) == join(parts, sep).push(c),
{
    let q = parts.update(parts.len() - 1, parts.last().push(c));
    if parts.len() > 1 {
        assert(q.drop_last() =~= parts.drop_last());
        assert(join(q, sep) =~= join(parts, sep).push(c));
    }
}

pub proof fn lemma_words_nonempty(s: Seq<char>)
    requires
        s.len() > 0,
        !is_ws(s.last()),
    ensures
        words(s).len() > 0,
    decreases s.len(),
{
    if s.len() >= 2 && !is_ws(s[s.len() - 2]) {
        assert(s.drop_last().last() == s[s.len() - 2]);
        lemma_words_nonempty(s.drop_last());
    }
}

pub proof fn lemma_trim_start_skip(s: Seq<char>, k: int)
    requires
        0 <= k <= s.len(),
        forall|j: int| 0 <= j < k ==> is_ws(s[j]),
        k == s.len() || !is_ws(s[k]),
    ensures
        trim_start(s) == s.skip(k),
    decreases k,
{
    if k == 0 {
        assert(s.skip(0) =~= s);
    } else {
        let t = s.drop_first();
        assert forall|j: int| 0 <= j < k - 1 implies is_ws(t[j]) by {
            assert(t[j] == s[j + 1]);
        }
        lemma_trim_start_skip(t, k - 1);
        assert(t.skip(k - 1) =~= s.skip(k));
    }
}

pub proof fn lemma_trim_end_take(s: Seq<char>, k: int)
    requires
        0 <= k <= s.len(),
        forall|j: int| k <= j < s.len() ==> is_ws(s[j]),
        k == 0 || !is_ws(s[k - 1]),
    ensures
        trim_end(s) == s.take(k),
    decreases s.len() - k,
{
    if k == s.len() {
        assert(s.take(k) =~= s);
    } else {
        let t = s.drop_last();
        lemma_trim_end_take(t, k);
        assert(t.take(k) =~= s.take(k));
    }
}

pub proof fn lemma_split_nonempty(s: Seq<char>, sep: Seq<char>)
    ensures
        split(s, sep).len() >= 1,
    decreases s.len(),
{
    if s.len() == 0 {
    } else if sep.len() > 0 && starts_with(s, sep) {
        lemma_split_nonempty(s.skip(sep.len() as int), sep);
    } else {
        lemma_split_nonempty(s.drop_first(), sep);
    }
}

pub proof fn lemma_decimal_len(n: nat)
    ensures
        decimal(n).len() >= 1,
    decreases n,
{
    if n >= 10 {
        lemma_decimal_len(n / 10);
    }
}

/// Every word is a non-empty run of characters that are not whitespace.
pub proof fn lemma_words_shape(s: Seq<char>)
    ensures
        forall|i: int| 0 <= i < words(s).len() ==> (#[trigger] words(s)[i]).len() > 0,
        forall|i: int, j: int|
            0 <= i < words(s).len() && 0 <= j < words(s)[i].len() ==> !is_ws(#[trigger] words(s)[i][j]),
    decreases s.len(),
{
    if s.len() > 0 {
        lemma_words_shape(s.drop_last());
        let c = s.last();
        if !is_ws(c) && s.len() >= 2 && !is_ws(s[s.len() - 2]) {
            assert(s.drop_last().last() == s[s.len() - 2]);
            lemma_words_nonempty(s.drop_last());
        }
    }
}

/// After whitespace (or at the start), the words of a continuation are
/// just appended.
pub proof fn lemma_words_append(a: Seq<char>, b: Seq<char>)
    requires
        a.len() == 0 || is_ws(a.last()),
    ensures
        words(a + b) == words(a) + words(b),
    decreases b.len(),
{
    if b.len() == 0 {
        assert(a + b =~= a);
        assert(words(a) + words(b) =~= words(a));
    } else {
        let bp = b.drop_last();
        lemma_words_append(a, bp);
        let ab = a + b;
        assert(ab.drop_last() =~= a + bp);
        assert(ab.last() == b.last());
        let c = b.last();
        if !is_ws(c) {
            if b.len() >= 2 {
                assert(ab[ab.len() - 2] == b[b.len() - 2]);
            } else if a.len() > 0 {
                assert(ab[ab.len() - 2] == a.last());
            }
            if b.len() >= 2 && !is_ws(b[b.len() - 2]) {
                assert(bp.last() == b[b.len() - 2]);
                lemma_words_nonempty(bp);
                let wa = words(a);
                let wb = words(bp);
                assert((wa + wb).update((wa + wb).len() - 1, (wa + wb).last().push(c)) =~= wa + wb.update(
                    wb.len() - 1,
                    wb.last().push(c),
                ));
            } else {
                assert((words(a) + words(bp)).push(seq![c]) =~= words(a) + words(bp).push(seq![c]));
            }
        }
    }
}

/// A run of non-whitespace characters is a single word.
pub proof fn lemma_words_single(w: Seq<char>)
    requires
        w.len() > 0,
        forall|j: int| 0 <= j < w.len() ==> !is_ws(#[trigger] w[j]),
    ensures
        words(w) == seq![w],
    decreases w.len(),
{
    if w.len() == 1 {
        assert(w.drop_last() =~= Seq::<char>::empty());
        assert(!is_ws(w[0]));
        assert(seq![w.last()] =~= w);
        assert(words(w.drop_last()) =~= Seq::<Seq<char>>::empty());
        assert(words(w) == words(w.drop_last()).push(seq![w.last()]));
        assert(Seq::<Seq<char>>::empty().push(seq![w.last()]) =~= seq![w]);
    } else {
        let p = w.drop_last();
        assert forall|j: int| 0 <= j < p.len() implies !is_ws(#[trigger] p[j]) by {
            assert(p[j] == w[j]);
        }
        lemma_words_single(p);
        assert(w[w.len() - 2] == p.last());
        assert(!is_ws(w[w.len() - 2]));
        assert(!is_ws(w.last()));
        assert(w.drop_last() == p);
        assert(p.push(w.last()) =~= w);
        assert(words(w) == words(p).update(words(p).len() - 1, words(p).last().push(w.last())));
        assert(seq![p].update(0, p.push(w.last())) =~= seq![w]);
    }
}

/// Words joined by single spaces split back into the same words.
pub proof fn lemma_words_of_join(parts: Seq<Seq<char>>)
    requires
        forall|i: int| 0 <= i < parts.len() ==> (#[trigger] parts[i]).len() > 0,
        forall|i: int, j: int| 0 <= i < parts.len() && 0 <= j < parts[i].len() ==> !is_ws(#[trigger] parts[i][j]),
    ensures
        words(join(parts, seq![' '])) == parts,
    decreases parts.len(),
{
    if parts.len() == 0 {
        assert(words(seq![]) =~= parts);
    } else if parts.len() == 1 {
        assert forall|j: int| 0 <= j < parts[0].len() implies !is_ws(#[trigger] parts[0][j]) by {}
        lemma_words_single(parts[0]);
        assert(seq![parts[0]] =~= parts);
    } else {
        let pre = parts.drop_last();
        assert forall|i: int, j: int| 0 <= i < pre.len() && 0 <= j < pre[i].len() implies !is_ws(
            #[trigger] pre[i][j],
        ) by {
            assert(pre[i] == parts[i]);
        }
        assert forall|i: int| 0 <= i < pre.len() implies (#[trigger] pre[i]).len() > 0 by {
            assert(pre[i] == parts[i]);
        }
        lemma_words_of_join(pre);
        let w = parts.last();
        assert forall|j: int| 0 <= j < w.len() implies !is_ws(#[trigger] w[j]) by {
            assert(w == parts[parts.len() - 1]);
        }
        lemma_words_single(w);
        let a = join(pre, seq![' ']) + seq![' '];
        assert(a.last() == ' ');
        lemma_words_append(a, w);
        assert(join(parts, seq![' ']) == a + w);
        assert(a.drop_last() =~= join(pre, seq![' ']));
        assert(words(a) == words(join(pre, seq![' '])));
        assert(pre + seq![w] =~= parts);
    }
}

/// A join of parts begins with the first part.
pub proof fn lemma_join_starts_with_first(parts: Seq<Seq<char>>, sep: Seq<char>)
    requires
        parts.len() > 0,
    ensures
        starts_with(join(parts, sep), parts[0]),
    decreases parts.len(),
{
    if parts.len() > 1 {
        let pre = parts.drop_last();
        assert(pre[0] == parts[0]);
        lemma_join_starts_with_first(pre, sep);
        let j = join(pre, sep);
        assert(join(parts, sep) == j + sep + parts.last());
        assert((j + sep + parts.last()).take(parts[0].len() as int) =~= j.take(parts[0].len() as int));
    } else {
        assert(join(parts, sep) == parts[0]);
        assert(parts[0].take(parts[0].len() as int) =~= parts[0]);
    }
}

/// Collapsing whitespace a second time changes nothing.
pub proof fn law_collapse_ws_idempotent(s: Seq<char>)
    ensures
        collapse_ws(collapse_ws(s)) == collapse_ws(s),
{
    lemma_words_shape(s);
    lemma_words_of_join(words(s));
}

// ---------------------------------------------------------------------------
// Trusted edges to std
// ---------------------------------------------------------------------------

/// Appends one character to a `String` with `String::push`; the contract
/// claims that the character ends up after the old contents.
#[verifier::external_body]
pub(crate) fn push_char(s: &mut String, c: char)
    ensures
        final(s)@ == old(s)@.push(c),
{
    s.push(c);
}

/// Appends a string slice to a `String`.
pub(crate) fn push_str(s: &mut String, t: &str)
    ensures
        final(s)@ == old(s)@ + t@,
{
    s.append(t);
}

// ---------------------------------------------------------------------------
// Executable functions
// ---------------------------------------------------------------------------

/// Whether `c` has the Unicode `White_Space` property.
pub fn is_whitespace(c: char) -> (b: bool)
    ensures
        b == is_ws(c),
{
    ('\u{9}' <= c && c <= '\u{d}') || c == ' ' || c == '\u{85}' || c == '\u{a0}' || c == '\u{1680}'
        || ('\u{2000}' <= c && c <= '\u{200a}') || c == '\u{2028}' || c == '\u{2029}' || c
        == '\u{202f}' || c == '\u{205f}' || c == '\u{3000}'
}

/// The characters of `s`.
pub fn chars_of(s: &str) -> (v: Vec<char>)
    ensures
        v@ == s@,
{
    let mut v: Vec<char> = Vec::new();
    for c in it: s.chars()
        invariant
            it.seq() == s@,
            v@ == s@.take(it.index()),
    {
        v.push(c);
        assert(v@ =~= s@.take(it.index() + 1));
    }
    assert(v@ =~= s@);
    v
}

/// A `String` holding `v[lo..hi]`.
pub fn string_from(v: &Vec<char>, lo: usize, hi: usize) -> (s: String)
    requires
        lo <= hi <= v.len(),
    ensures
        s@ == v@.subrange(lo as int, hi as int),
{
    let mut s = String::new();
    let mut i = lo;
    while i < hi
        invariant
            lo <= i <= hi <= v.len(),
            s@ == v@.subrange(lo as int, i as int),
        decreases hi - i,
    {
        push_char(&mut s, v[i]);
        assert(s@ =~= v@.subrange(lo as int, i + 1));
        i = i + 1;
    }
    s
}

/// Copy of `s`.
pub fn copy_str(s: &str) -> (r: String)
    ensures
        r@ == s@,
{
    let mut r = String::new();
    push_str(&mut r, s);
    assert(r@ =~= s@);
    r
}

/// The words of `input` joined by single spaces (what
/// `split_whitespace().collect::<Vec<_>>().join(" ")` gives).
pub fn clean_whitespace(input: &str) -> (out: String)
    ensures
        out@ == collapse_ws(input@),
{
    let ghost s = input@;
    let mut out = String::new();
    let mut prev_ws = true;
    for c in it: input.chars()
        invariant
            it.seq() == s,
            out@ == join(words(s.take(it.index())), seq![' ']),
            prev_ws == (it.index() == 0 || is_ws(s[it.index() - 1])),
            out@.len() == 0 <==> words(s.take(it.index())).len() == 0,
    {
        let ghost i = it.index();
        let ghost p = s.take(i);
        let ghost p2 = s.take(i + 1);
        proof {
            assert(p2.drop_last() =~= p);
            assert(p2.last() == c);
        }
        let ws = is_whitespace(c);
        if ws {
            prev_ws = true;
        } else {
            if prev_ws {
                proof {
                    lemma_join_push(words(p), seq![c], seq![' ']);
                    if i > 0 {
                        assert(p2[p2.len() - 2] == s[i - 1]);
                    }
                }
                if !out.as_str().is_empty() {
                    push_char(&mut out, ' ');
                }
                push_char(&mut out, c);
                proof {
                    assert(out@ =~= join(words(p2), seq![' ']));
                }
            } else {
                proof {
                    assert(p2[p2.len() - 2] == s[i - 1]);
                    assert(p.last() == s[i - 1]);
                    lemma_words_nonempty(p);
                    lemma_join_extend_last(words(p), c, seq![' ']);
                }
                push_char(&mut out, c);
            }
            prev_ws = false;
        }
    }
    proof {
        assert(s.take(s.len() as int) =~= s);
    }
    out
}

/// `input` without leading and trailing whitespace.
pub fn trim_ws(input: &str) -> (out: String)
    ensures
        out@ == trim(input@),
{
    let v = chars_of(input);
    let mut lo: usize = 0;
    while lo < v.len() && is_whitespace(v[lo])
        invariant
            lo <= v.len(),
            forall|j: int| 0 <= j < lo ==> is_ws(v@[j]),
        decreases v.len() - lo,
    {
        lo = lo + 1;
    }
    proof {
        lemma_trim_start_skip(v@, lo as int);
    }
    let mut hi: usize = v.len();
    while hi > lo && is_whitespace(v[hi - 1])
        invariant
            lo <= hi <= v.len(),
            forall|j: int| hi <= j < v.len() ==> is_ws(v@[j]),
        decreases hi,
    {
        hi = hi - 1;
    }
    proof {
        let t = v@.skip(lo as int);
        assert forall|j: int| hi - lo <= j < t.len() implies is_ws(t[j]) by {
            assert(t[j] == v@[j + lo]);
        }
        if hi > lo {
            assert(t[hi - lo - 1] == v@[hi - 1]);
        }
        lemma_trim_end_take(t, hi - lo);
        assert(t.take(hi - lo) =~= v@.subrange(lo as int, hi as int));
    }
    string_from(&v, lo, hi)
}

/// Whether `v[i..]` begins with `p`.
pub fn occurs_at_vec(v: &Vec<char>, p: &Vec<char>, i: usize) -> (b: bool)
    requires
        i <= v.len(),
    ensures
        b == occurs_at(v@, p@, i as int),
{
    if p.len() > v.len() - i {
        return false;
    }
    let mut k: usize = 0;
    while k < p.len()
        invariant
            i + p.len() <= v.len(),
            k <= p.len(),
            forall|j: int| 0 <= j < k ==> v@[i + j] == p@[j],
        decreases p.len() - k,
    {
        if v[i + k] != p[k] {
            proof {
                assert(v@.subrange(i as int, i + p.len())[k as int] == v@[i + k]);
            }
            return false;
        }
        k = k + 1;
    }
    assert(v@.subrange(i as int, i + p.len()) =~= p@);
    true
}

/// Whether `a` and `b` hold the same characters.
pub fn str_equals(a: &str, b: &str) -> (r: bool)
    ensures
        r == (a@ == b@),
{
    let x = chars_of(a);
    let y = chars_of(b);
    if x.len() != y.len() {
        return false;
    }
    let r = occurs_at_vec(&x, &y, 0);
    proof {
        assert(x@.subrange(0, y@.len() as int) =~= x@);
    }
    r
}

/// Length in bytes of the UTF-8 encoding of `c`.
pub open spec fn char_byte_len(c: char) -> nat {
    vstd::utf8::encode_scalar(c as u32).len()
}

pub proof fn lemma_byte_len_push(s: Seq<char>, c: char)
    ensures
        byte_len(s.push(c)) == byte_len(s) + char_byte_len(c),
    decreases s.len(),
{
    let e = vstd::utf8::encode_utf8(s.push(c));
    if s.len() == 0 {
        assert(s.push(c).drop_first() =~= Seq::<char>::empty());
        assert(vstd::utf8::encode_utf8(Seq::<char>::empty()) =~= Seq::<u8>::empty());
        assert(e == vstd::utf8::encode_scalar(c as u32) + vstd::utf8::encode_utf8(s.push(c).drop_first()));
    } else {
        assert(s.push(c).drop_first() =~= s.drop_first().push(c));
        assert(s.push(c)[0] == s[0]);
        lemma_byte_len_push(s.drop_first(), c);
        assert(e == vstd::utf8::encode_scalar(s[0] as u32) + vstd::utf8::encode_utf8(s.drop_first().push(c)));
        assert(vstd::utf8::encode_utf8(s) == vstd::utf8::encode_scalar(s[0] as u32) + vstd::utf8::encode_utf8(s.drop_first()));
    }
}

/// The UTF-8 width of `c`, from its code point.
pub fn char_width(c: char) -> (w: usize)
    ensures
        w == char_byte_len(c),
        1 <= w <= 4,
{
    proof {
        vstd::utf8::char_is_scalar(c);
    }
    let v = c as u32;
    if v <= 0x7f {
        1
    } else if v <= 0x7ff {
        2
    } else if v <= 0xffff {
        3
    } else {
        4
    }
}

/// Whether the UTF-8 encoding of `s` has at least `n` bytes.
pub fn byte_len_at_least(s: &str, n: usize) -> (b: bool)
    ensures
        b == (byte_len(s@) >= n),
{
    let ghost t = s@;
    if n == 0 {
        return true;
    }
    let mut acc: usize = 0;
    for c in it: s.chars()
        invariant
            it.seq() == t,
            t == s@,
            acc == byte_len(t.take(it.index())),
            acc < n,
    {
        let ghost i = it.index();
        proof {
            assert(t.take(i + 1) =~= t.take(i).push(c));
            lemma_byte_len_push(t.take(i), c);
        }
        let w = char_width(c);
        if w >= n - acc {
            proof {
                lemma_byte_len_prefix(t, i + 1);
                assert(byte_len(t.take(i + 1)) == acc + w);
            }
            return true;
        }
        acc = acc + w;
    }
    proof {
        assert(t.take(t.len() as int) =~= t);
    }
    false
}

/// A prefix never encodes to more bytes than the whole.
pub proof fn lemma_byte_len_prefix(s: Seq<char>, k: int)
    requires
        0 <= k <= s.len(),
    ensures
        byte_len(s.take(k)) <= byte_len(s),
    decreases s.len() - k,
{
    if k < s.len() {
        assert(s.take(k + 1) =~= s.take(k).push(s[k]));
        lemma_byte_len_push(s.take(k), s[k]);
        lemma_byte_len_prefix(s, k + 1);
    } else {
        assert(s.take(k) =~= s);
    }
}

/// Whether `s` begins with `p`.
pub fn str_starts_with(s: &str, p: &str) -> (b: bool)
    ensures
        b == starts_with(s@, p@),
{
    let v = chars_of(s);
    let q = chars_of(p);
    let b = occurs_at_vec(&v, &q, 0);
    proof {
        if b {
            assert(v@.subrange(0, q@.len() as int) =~= v@.take(q@.len() as int));
        } else if q@.len() <= v@.len() {
            assert(v@.subrange(0, q@.len() as int) =~= v@.take(q@.len() as int));
        }
    }
    b
}

/// Whether `p` occurs in `s`.
pub fn str_contains(s: &str, p: &str) -> (b: bool)
    ensures
        b == contains(s@, p@),
{
    let v = chars_of(s);
    let q = chars_of(p);
    if q.len() > v.len() {
        assert forall|j: int| !occurs_at(v@, q@, j) by {}
        return false;
    }
    let last = v.len() - q.len();
    let mut i: usize = 0;
    loop
        invariant
            i <= last,
            last + q@.len() == v@.len(),
            v@ == s@,
            q@ == p@,
            forall|j: int| 0 <= j < i ==> !occurs_at(v@, q@, j),
        ensures
            forall|j: int| 0 <= j <= last ==> !occurs_at(v@, q@, j),
        decreases last - i,
    {
        if occurs_at_vec(&v, &q, i) {
            assert(occurs_at(s@, p@, i as int));
            return true;
        }
        if i == last {
            break;
        }
        i = i + 1;
    }
    assert forall|j: int| !occurs_at(v@, q@, j) by {
        if 0 <= j && j + q@.len() <= v@.len() {
            assert(j <= last);
        }
    }
    false
}

/// `parts` joined with `sep` (what `join(sep)` on a `Vec<String>` gives).
pub fn join_strings(parts: &Vec<String>, sep: &str) -> (out: String)
    ensures
        out@ == join(views(parts@), sep@),
{
    let ghost vs = views(parts@);
    let mut out = String::new();
    let mut i: usize = 0;
    while i < parts.len()
        invariant
            i <= parts.len(),
            vs == views(parts@),
            out@ == join(vs.take(i as int), sep@),
        decreases parts.len() - i,
    {
        proof {
            assert(vs.take(i + 1) =~= vs.take(i as int).push(vs[i as int]));
            lemma_join_push(vs.take(i as int), vs[i as int], sep@);
        }
        if i > 0 {
            push_str(&mut out, sep);
        }
        push_str(&mut out, parts[i].as_str());
        proof {
            assert(out@ =~= join(vs.take(i + 1), sep@));
        }
        i = i + 1;
    }
    assert(vs.take(parts.len() as int) =~= vs);
    out
}

/// `s` with every leading repetition of the non-empty `p` removed (what
/// `str::trim_start_matches` gives for a string pattern).
pub fn strip_prefixes(s: &str, p: &str) -> (out: String)
    requires
        p@.len() > 0,
    ensures
        out@ == strip_all_prefix(s@, p@),
{
    let v = chars_of(s);
    let q = chars_of(p);
    let mut i: usize = 0;
    assert(v@.skip(0) =~= v@);
    while occurs_at_vec(&v, &q, i)
        invariant
            i <= v.len(),
            q@.len() > 0,
            strip_all_prefix(v@, q@) == strip_all_prefix(v@.skip(i as int), q@),
        decreases v.len() - i,
    {
        proof {
            let t = v@.skip(i as int);
            assert(t.take(q@.len() as int) =~= v@.subrange(i as int, i + q@.len()));
            assert(t.skip(q@.len() as int) =~= v@.skip(i + q@.len()));
        }
        i = i + q.len();
    }
    proof {
        let t = v@.skip(i as int);
        if q@.len() <= t.len() {
            assert(t.take(q@.len() as int) =~= v@.subrange(i as int, i + q@.len()));
        }
        assert(v@.skip(0) =~= v@);
    }
    string_from(&v, i, v.len())
}

/// `s` with every trailing repetition of the non-empty `p` removed (what
/// `str::trim_end_matches` gives for a string pattern).
pub fn strip_suffixes(s: &str, p: &str) -> (out: String)
    requires
        p@.len() > 0,
    ensures
        out@ == strip_all_suffix(s@, p@),
{
    let v = chars_of(s);
    let q = chars_of(p);
    let mut n: usize = v.len();
    assert(v@.take(v@.len() as int) =~= v@);
    while n >= q.len() && occurs_at_vec(&v, &q, n - q.len())
        invariant
            n <= v.len(),
            q@.len() > 0,
            strip_all_suffix(v@, q@) == strip_all_suffix(v@.take(n as int), q@),
        decreases n,
    {
        proof {
            let t = v@.take(n as int);
            assert(t.skip(t.len() - q@.len()) =~= v@.subrange(n - q@.len(), n as int));
            assert(t.take(t.len() - q@.len()) =~= v@.take(n - q@.len()));
        }
        n = n - q.len();
    }
    proof {
        let t = v@.take(n as int);
        if q@.len() <= t.len() {
            assert(t.skip(t.len() - q@.len()) =~= v@.subrange(n - q@.len(), n as int));
        }
        assert(v@.take(v@.len() as int) =~= v@);
        assert(v@.subrange(0, n as int) =~= t);
    }
    string_from(&v, 0, n)
}

/// `r` with `c` put in front of its first element.
pub open spec fn prefix_first(r: Seq<Seq<char>>, c: Seq<char>) -> Seq<Seq<char>> {
    r.update(0, c + r[0])
}

/// The pieces of `s` between the occurrences of the non-empty `sep`
/// (what `str::split` yields).
pub fn split_on(s: &str, sep: &str) -> (parts: Vec<String>)
    requires
        sep@.len() > 0,
    ensures
        views(parts@) == split(s@, sep@),
{
    let v = chars_of(s);
    let q = chars_of(sep);
    let mut parts: Vec<String> = Vec::new();
    let mut cur = String::new();
    let mut i: usize = 0;
    proof {
        assert(v@.skip(0) =~= v@);
        lemma_split_nonempty(v@, q@);
        let r = split(v@, q@);
        assert(prefix_first(r, seq![]) =~= r);
        assert(views(parts@) =~= seq![]);
        assert(seq![] + r =~= r);
    }
    while i < v.len()
        invariant
            i <= v.len(),
            v@ == s@,
            q@ == sep@,
            q@.len() > 0,
            split(v@, q@) == views(parts@) + prefix_first(split(v@.skip(i as int), q@), cur@),
        decreases v.len() - i,
    {
        let ghost t = v@.skip(i as int);
        let ghost k = q@.len() as int;
        proof {
            assert(t.len() > 0);
            if i + k <= v@.len() {
                assert(v@.subrange(i as int, i + k) =~= t.take(k));
            }
        }
        if occurs_at_vec(&v, &q, i) {
            proof {
                assert(t.skip(k) =~= v@.skip(i + k));
                let x = split(v@.skip(i + k), q@);
                lemma_split_nonempty(v@.skip(i + k), q@);
                assert(split(t, q@) == seq![Seq::<char>::empty()] + x);
                assert(prefix_first(seq![Seq::<char>::empty()] + x, cur@) =~= seq![cur@] + x);
                assert(prefix_first(x, seq![]) =~= x);
                assert(views(parts@.push(cur)) =~= views(parts@).push(cur@));
                assert(views(parts@) + (seq![cur@] + x) =~= views(parts@).push(cur@) + x);
            }
            parts.push(cur);
            cur = String::new();
            i = i + q.len();
        } else {
            let c = v[i];
            proof {
                assert(t.drop_first() =~= v@.skip(i + 1));
                let rest = split(v@.skip(i + 1), q@);
                lemma_split_nonempty(v@.skip(i + 1), q@);
                assert(!starts_with(t, q@));
                assert(cur@ + (seq![c] + rest[0]) =~= cur@.push(c) + rest[0]);
                assert(prefix_first(rest.update(0, seq![c] + rest[0]), cur@) =~= prefix_first(
                    rest,
                    cur@.push(c),
                ));
            }
            push_char(&mut cur, c);
            i = i + 1;
        }
    }
    proof {
        assert(v@.skip(i as int) =~= Seq::<char>::empty());
        assert(prefix_first(seq![Seq::<char>::empty()], cur@) =~= seq![cur@]);
        assert(views(parts@.push(cur)) =~= views(parts@).push(cur@));
    }
    parts.push(cur);
    proof {
        assert(views(parts@) =~= split(v@, q@));
    }
    parts
}

/// The part of `s` before the first `c`.
pub fn before_first(s: &str, c: char) -> (out: String)
    ensures
        out@ == before_char(s@, c),
{
    let v = chars_of(s);
    let mut i: usize = 0;
    while i < v.len() && v[i] != c
        invariant
            i <= v.len(),
            forall|j: int| 0 <= j < i ==> v@[j] != c,
        decreases v.len() - i,
    {
        i = i + 1;
    }
    proof {
        lemma_before_char(v@, c, i as int);
    }
    string_from(&v, 0, i)
}

/// The prefix of `v` before the first `c` has length `k`.
pub proof fn lemma_before_char(v: Seq<char>, c: char, k: int)
    requires
        0 <= k <= v.len(),
        forall|j: int| 0 <= j < k ==> v[j] != c,
        k == v.len() || v[k] == c,
    ensures
        before_char(v, c) == v.subrange(0, k),
    decreases k,
{
    if k == 0 {
        if v.len() == 0 {
            assert(v.subrange(0, 0) =~= v);
        } else {
            assert(v.subrange(0, 0) =~= Seq::<char>::empty());
        }
    } else {
        let t = v.drop_first();
        assert forall|j: int| 0 <= j < k - 1 implies t[j] != c by {
            assert(t[j] == v[j + 1]);
        }
        lemma_before_char(t, c, k - 1);
        assert(seq![v[0]] + t.subrange(0, k - 1) =~= v.subrange(0, k));
    }
}

/// `s` with every `from` replaced by `to`.
pub fn replace_char_in(s: &str, from: char, to: char) -> (out: String)
    ensures
        out@ == replace_char(s@, from, to),
{
    let ghost t = s@;
    let mut out = String::new();
    for c in it: s.chars()
        invariant
            it.seq() == t,
            out@ == replace_char(t.take(it.index()), from, to),
    {
        let d = if c == from { to } else { c };
        push_char(&mut out, d);
        proof {
            assert(out@ =~= replace_char(t.take(it.index() + 1), from, to));
        }
    }
    assert(t.take(t.len() as int) =~= t);
    out
}

/// `c` with an ASCII capital letter mapped to lower case.
pub fn to_ascii_lower(c: char) -> (r: char)
    ensures
        r == ascii_lower(c),
{
    if 'A' <= c && c <= 'Z' {
        let b = (c as u32 + 32) as u8;
        assert(b as u32 == (c as u32) + 32);
        b as char
    } else {
        c
    }
}

/// `str::eq_ignore_ascii_case`.
pub fn equals_ignore_ascii_case(a: &str, b: &str) -> (r: bool)
    ensures
        r == eq_ignore_ascii_case(a@, b@),
{
    let x = chars_of(a);
    let y = chars_of(b);
    if x.len() != y.len() {
        return false;
    }
    let mut i: usize = 0;
    while i < x.len()
        invariant
            x.len() == y.len(),
            x@ == a@,
            y@ == b@,
            i <= x.len(),
            forall|j: int| 0 <= j < i ==> ascii_lower(x@[j]) == ascii_lower(y@[j]),
        decreases x.len() - i,
    {
        let lx = to_ascii_lower(x[i]);
        let ly = to_ascii_lower(y[i]);
        if lx != ly {
            assert(ascii_lower(x@[i as int]) != ascii_lower(y@[i as int]));
            return false;
        }
        i = i + 1;
    }
    true
}

/// The decimal notation of `n`.
pub fn decimal_string(n: u64) -> (s: String)
    ensures
        s@ == decimal(n as nat),
{
    let mut digits: Vec<char> = Vec::new();
    let mut m = n;
    // digits holds the low-order digits of n, last digit first
    while m >= 10
        invariant
            decimal(n as nat) == decimal(m as nat) + digits@.reverse(),
        decreases m,
    {
        let d = ((m % 10) as u8 + 48) as char;
        proof {
            assert(decimal(m as nat) == decimal((m / 10) as nat).push(digit_char((m % 10) as nat)));
            assert(digits@.push(d).reverse() =~= seq![d] + digits@.reverse());
        }
        digits.push(d);
        m = m / 10;
    }
    let d0 = (m as u8 + 48) as char;
    digits.push(d0);
    proof {
        assert(digits@.reverse() =~= seq![d0] + digits@.drop_last().reverse());
    }
    let mut s = String::new();
    let mut i = digits.len();
    while i > 0
        invariant
            i <= digits.len(),
            s@ == digits@.subrange(i as int, digits.len() as int).reverse(),
        decreases i,
    {
        i = i - 1;
        push_char(&mut s, digits[i]);
        proof {
            assert(s@ =~= digits@.subrange(i as int, digits.len() as int).reverse());
        }
    }
    assert(digits@.subrange(0, digits.len() as int) =~= digits@);
    s
}

} // verus!

verus! {

// ---------------------------------------------------------------------------
// Unicode classes and case mapping, taken from std
// ---------------------------------------------------------------------------

/// Whether std classifies `c` as alphanumeric (`char::is_alphanumeric`).
pub uninterp spec fn unicode_alphanumeric(c: char) -> bool;

/// The full Unicode lower-case mapping of `s` (`str::to_lowercase`).
pub uninterp spec fn unicode_lowercase(s: Seq<char>) -> Seq<char>;

/// Calls `char::is_alphanumeric`; the contract names its result
/// `unicode_alphanumeric(c)` and says nothing more of it.
#[verifier::external_body]
pub(crate) fn char_is_alphanumeric(c: char) -> (b: bool)
    ensures
        b == unicode_alphanumeric(c),
{
    c.is_alphanumeric()
}

/// Calls `str::to_lowercase`; the contract names its result
/// `unicode_lowercase(s@)` and says nothing more of it.
#[verifier::external_body]
pub(crate) fn to_lowercase(s: &str) -> (r: String)
    ensures
        r@ == unicode_lowercase(s@),
{
    s.to_lowercase()
}

} // verus!

verus! {

/// `s` with each occurrence of the non-empty `p` replaced by `r`.
pub fn replace_str(s: &str, p: &str, r: &str) -> (out: String)
    requires
        p@.len() > 0,
    ensures
        out@ == replace_all(s@, p@, r@),
{
    let v = chars_of(s);
    let q = chars_of(p);
    let mut out = String::new();
    let mut i: usize = 0;
    proof {
        assert(v@.skip(0) =~= v@);
    }
    while i < v.len()
        invariant
            i <= v.len(),
            v@ == s@,
            q@ == p@,
            q@.len() > 0,
            replace_all(v@, q@, r@) == out@ + replace_all(v@.skip(i as int), q@, r@),
        decreases v.len() - i,
    {
        let ghost t = v@.skip(i as int);
        let ghost k = q@.len() as int;
        proof {
            if i + k <= v@.len() {
                assert(v@.subrange(i as int, i + k) =~= t.take(k));
            }
        }
        if occurs_at_vec(&v, &q, i) {
            proof {
                assert(t.skip(k) =~= v@.skip(i + k));
                assert(out@ + (r@ + replace_all(t.skip(k), q@, r@)) =~= (out@ + r@) + replace_all(
                    v@.skip(i + k),
                    q@,
                    r@,
                ));
            }
            push_str(&mut out, r);
            i = i + q.len();
        } else {
            let c = v[i];
            proof {
                assert(!starts_with(t, q@));
                assert(t.drop_first() =~= v@.skip(i + 1));
                assert(out@ + (seq![c] + replace_all(t.drop_first(), q@, r@)) =~= out@.push(c)
                    + replace_all(v@.skip(i + 1), q@, r@));
            }
            push_char(&mut out, c);
            i = i + 1;
        }
    }
    proof {
        assert(v@.skip(i as int) =~= Seq::<char>::empty());
        assert(out@ + Seq::<char>::empty() =~= out@);
    }
    out
}

/// `o` with `x` put in front of the held sequence.
pub open spec fn prepend_opt(x: Seq<char>, o: Option<Seq<char>>) -> Option<Seq<char>> {
    match o {
        Some(p) => Some(x + p),
        None => None,
    }
}

/// The prefix of `s` that encodes to exactly `n` bytes (`str::get(..n)`).
pub fn byte_prefix_of(s: &str, n: usize) -> (r: Option<String>)
    ensures
        opt_view(r) == byte_prefix(s@, n as int),
{
    let v = chars_of(s);
    let mut acc: usize = 0;
    let mut i: usize = 0;
    proof {
        assert(v@.skip(0) =~= v@);
        assert(v@.take(0) =~= Seq::<char>::empty());
        match byte_prefix(v@, n as int) {
            Some(p) => assert(Seq::<char>::empty() + p =~= p),
            None => {},
        }
    }
    while acc < n
        invariant
            acc <= n,
            i <= v.len(),
            v@ == s@,
            byte_prefix(v@, n as int) == prepend_opt(
                v@.take(i as int),
                byte_prefix(v@.skip(i as int), n - acc),
            ),
        decreases n - acc,
    {
        if i == v.len() {
            proof {
                assert(v@.skip(i as int).len() == 0);
            }
            return None;
        }
        let c = v[i];
        let w = char_width(c);
        let ghost t = v@.skip(i as int);
        proof {
            assert(t[0] == c);
            assert(t.drop_first() =~= v@.skip(i + 1));
        }
        if w > n - acc {
            return None;
        }
        proof {
            assert(v@.take(i + 1) =~= v@.take(i as int).push(c));
            match byte_prefix(v@.skip(i + 1), n - acc - w) {
                Some(p) => {
                    assert(v@.take(i as int) + (seq![c] + p) =~= v@.take(i + 1) + p);
                },
                None => {},
            }
        }
        acc = acc + w;
        i = i + 1;
    }
    proof {
        assert(v@.take(i as int) + Seq::<char>::empty() =~= v@.take(i as int));
        assert(v@.subrange(0, i as int) =~= v@.take(i as int));
    }
    Some(string_from(&v, 0, i))
}

/// The number of whitespace-separated words in `s`.
pub fn word_count(s: &str) -> (n: usize)
    ensures
        n == words(s@).len(),
{
    let v = chars_of(s);
    let mut n: usize = 0;
    let mut i: usize = 0;
    while i < v.len()
        invariant
            i <= v.len(),
            n <= i,
            n == words(v@.take(i as int)).len(),
        decreases v.len() - i,
    {
        let ghost p = v@.take(i as int);
        let ghost p2 = v@.take(i + 1);
        proof {
            assert(p2.drop_last() =~= p);
            assert(p2.last() == v@[i as int]);
            if i > 0 {
                assert(p2[p2.len() - 2] == v@[i - 1]);
                assert(p.last() == v@[i - 1]);
            }
        }
        if !is_whitespace(v[i]) && (i == 0 || is_whitespace(v[i - 1])) {
            n = n + 1;
        } else if !is_whitespace(v[i]) {
            proof {
                lemma_words_nonempty(p);
            }
        }
        i = i + 1;
    }
    proof {
        assert(v@.take(v@.len() as int) =~= v@);
    }
    n
}

/// `n` in decimal, left-padded with zeros to at least `width` digits.
pub fn padded_decimal(n: u64, width: usize) -> (s: String)
    ensures
        s@ == decimal_padded(n as nat, width as nat),
{
    let d = decimal_string(n);
    let dv = chars_of(d.as_str());
    if dv.len() >= width {
        return d;
    }
    let mut s = String::new();
    let mut k: usize = 0;
    let pad = width - dv.len();
    while k < pad
        invariant
            k <= pad,
            s@ == Seq::new(k as nat, |i: int| '0'),
        decreases pad - k,
    {
        push_char(&mut s, '0');
        k = k + 1;
        assert(s@ =~= Seq::new(k as nat, |i: int| '0'));
    }
    push_str(&mut s, d.as_str());
    s
}

} // verus!

verus! {

/// Whether `v` holds a string equal to `s`.
pub fn contains_string(v: &Vec<String>, s: &str) -> (b: bool)
    ensures
        b == views(v@).contains(s@),
{
    let mut k: usize = 0;
    while k < v.len()
        invariant
            k <= v.len(),
            forall|j: int| 0 <= j < k ==> v@[j]@ != s@,
        decreases v.len() - k,
    {
        if str_equals(v[k].as_str(), s) {
            assert(views(v@)[k as int] == s@);
            return true;
        }
        k = k + 1;
    }
    assert forall|j: int| 0 <= j < views(v@).len() implies views(v@)[j] != s@ by {
        assert(views(v@)[j] == v@[j]@);
    }
    false
}

} // verus!

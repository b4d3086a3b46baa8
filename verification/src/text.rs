//! Text as sequences of characters: trimming, searching, splitting and joining.
use vstd::prelude::*;
use vstd::slice::slice_subrange;

verus! {

/// Whether `c` has the Unicode `White_Space` property.
pub open spec fn white_space(c: char) -> bool {
    ||| '\u{9}' <= c <= '\u{d}'
    ||| c == ' '
    ||| c == '\u{85}'
    ||| c == '\u{a0}'
    ||| c == '\u{1680}'
    ||| '\u{2000}' <= c <= '\u{200a}'
    ||| c == '\u{2028}'
    ||| c == '\u{2029}'
    ||| c == '\u{202f}'
    ||| c == '\u{205f}'
    ||| c == '\u{3000}'
}

/// `s` without its leading white space.
pub open spec fn trim_start(s: Seq<char>) -> Seq<char>
    decreases s.len(),
{
    if s.len() > 0 && white_space(s.first()) {
        trim_start(s.drop_first())
    } else {
        s
    }
}

/// `s` without its trailing white space.
pub open spec fn trim_end(s: Seq<char>) -> Seq<char>
    decreases s.len(),
{
    if s.len() > 0 && white_space(s.last()) {
        trim_end(s.drop_last())
    } else {
        s
    }
}

/// `s` without leading and trailing white space.
pub open spec fn trimmed(s: Seq<char>) -> Seq<char> {
    trim_end(trim_start(s))
}

/// `s` without the occurrences of `c` that it starts with.
pub open spec fn without_leading(s: Seq<char>, c: char) -> Seq<char>
    decreases s.len(),
{
    if s.len() > 0 && s.first() == c {
        without_leading(s.drop_first(), c)
    } else {
        s
    }
}

/// `s` without the occurrences of `c` that it ends with.
pub open spec fn without_trailing(s: Seq<char>, c: char) -> Seq<char>
    decreases s.len(),
{
    if s.len() > 0 && s.last() == c {
        without_trailing(s.drop_last(), c)
    } else {
        s
    }
}

/// Whether `pat` stands in `s` at `i`.
pub open spec fn occurs_at(s: Seq<char>, pat: Seq<char>, i: int) -> bool {
    0 <= i <= s.len() - pat.len() && s.subrange(i, i + pat.len()) == pat
}

/// Where `pat` first occurs in `s`.
pub open spec fn find(s: Seq<char>, pat: Seq<char>) -> Option<int>
    decreases s.len(),
{
    if pat.is_prefix_of(s) {
        Some(0)
    } else if s.len() == 0 {
        None
    } else {
        match find(s.drop_first(), pat) {
            Some(i) => Some(i + 1),
            None => None,
        }
    }
}

/// The pieces of `s` between the occurrences of `c`; one piece more than there are occurrences.
pub open spec fn pieces(s: Seq<char>, c: char) -> Seq<Seq<char>>
    decreases s.len(),
{
    match find(s, seq![c]) {
        Some(i) => if 0 <= i < s.len() {
            seq![s.take(i)] + pieces(s.skip(i + 1), c)
        } else {
            seq![s]
        },
        None => seq![s],
    }
}

/// The texts `parts` one after the other, with `sep` between them.
pub open spec fn joined(parts: Seq<Seq<char>>, sep: Seq<char>) -> Seq<char>
    decreases parts.len(),
{
    if parts.len() == 0 {
        seq![]
    } else if parts.len() == 1 {
        parts[0]
    } else {
        parts[0] + sep + joined(parts.drop_first(), sep)
    }
}

/// `s` with every `from` replaced by `to`.
pub open spec fn replaced(s: Seq<char>, from: char, to: char) -> Seq<char> {
    s.map_values(|c: char| if c == from { to } else { c })
}

/// The characters of each of `parts`.
pub open spec fn texts(parts: Seq<String>) -> Seq<Seq<char>> {
    parts.map_values(|p: String| p@)
}

/// The characters of an optional text.
pub open spec fn opt_text(s: Option<String>) -> Option<Seq<char>> {
    match s {
        Some(t) => Some(t@),
        None => None,
    }
}

/// The characters of `s`.
pub fn chars_of(s: &str) -> (r: Vec<char>)
    ensures
        r@ == s@,
{
    let mut r: Vec<char> = Vec::new();
    for c in it: s.chars()
        invariant
            it.seq() == s@,
            r@ == it.seq().take(it.index() as int),
    {
        r.push(c);
    }
    r
}

/// The text made of the characters `v`.
pub fn string_of(v: &[char]) -> (r: String)
    ensures
        r@ == v@,
{
    let mut r = String::new();
    let n: usize = v.len();
    for i in 0..n
        invariant
            n == v@.len(),
            r@ == v@.take(i as int),
    {
        r.push(v[i]);
    }
    r
}

/// Whether `c` is white space.
pub fn is_white_space(c: char) -> (r: bool)
    ensures
        r == white_space(c),
{
    ('\u{9}' <= c && c <= '\u{d}') || c == ' ' || c == '\u{85}' || c == '\u{a0}' || c == '\u{1680}'
        || ('\u{2000}' <= c && c <= '\u{200a}') || c == '\u{2028}' || c == '\u{2029}'
        || c == '\u{202f}' || c == '\u{205f}' || c == '\u{3000}'
}

/// `v` without leading and trailing white space.
pub fn trim(v: &[char]) -> (r: &[char])
    ensures
        r@ == trimmed(v@),
{
    let mut lo: usize = 0;
    let n: usize = v.len();
    assert(v@.skip(0) =~= v@);
    while lo < n && is_white_space(v[lo])
        invariant
            n == v@.len(),
            lo <= n,
            trim_start(v@) == trim_start(v@.skip(lo as int)),
        decreases n - lo,
    {
        assert(v@.skip(lo as int).drop_first() =~= v@.skip(lo + 1));
        lo += 1;
    }
    let mut hi: usize = n;
    let ghost s = v@.skip(lo as int);
    while lo < hi && is_white_space(v[hi - 1])
        invariant
            s == v@.skip(lo as int),
            n == v@.len(),
            lo <= hi <= n,
            trim_end(s) == trim_end(v@.subrange(lo as int, hi as int)),
        decreases hi - lo,
    {
        assert(v@.subrange(lo as int, hi as int).drop_last() =~= v@.subrange(
            lo as int,
            hi - 1,
        ));
        hi -= 1;
    }
    slice_subrange(v, lo, hi)
}

/// Whether `line` holds nothing but white space.
pub fn is_blank(line: &str) -> (r: bool)
    ensures
        r == (trimmed(line@).len() == 0),
{
    let v: Vec<char> = chars_of(line);
    let t: &[char] = trim(v.as_slice());
    t.len() == 0
}

/// `v` without the occurrences of `c` that it starts with.
pub fn trim_leading(v: &[char], c: char) -> (r: &[char])
    ensures
        r@ == without_leading(v@, c),
{
    let mut lo: usize = 0;
    let n: usize = v.len();
    assert(v@.skip(0) =~= v@);
    while lo < n && v[lo] == c
        invariant
            n == v@.len(),
            lo <= n,
            without_leading(v@, c) == without_leading(v@.skip(lo as int), c),
        decreases n - lo,
    {
        assert(v@.skip(lo as int).drop_first() =~= v@.skip(lo + 1));
        lo += 1;
    }
    slice_subrange(v, lo, n)
}

/// `v` without the occurrences of `c` that it ends with.
pub fn trim_trailing(v: &[char], c: char) -> (r: &[char])
    ensures
        r@ == without_trailing(v@, c),
{
    let mut hi: usize = v.len();
    assert(v@.take(hi as int) =~= v@);
    while 0 < hi && v[hi - 1] == c
        invariant
            hi <= v@.len(),
            without_trailing(v@, c) == without_trailing(v@.take(hi as int), c),
        decreases hi,
    {
        assert(v@.take(hi as int).drop_last() =~= v@.take(hi - 1));
        hi -= 1;
    }
    slice_subrange(v, 0, hi)
}

/// Whether `v` starts with `pat`.
pub fn starts_with(v: &[char], pat: &[char]) -> (r: bool)
    ensures
        r == pat@.is_prefix_of(v@),
{
    let n: usize = pat.len();
    if n > v.len() {
        return false;
    }
    for i in 0..n
        invariant
            n == pat@.len(),
            n <= v@.len(),
            forall|j: int| 0 <= j < i ==> v@[j] == pat@[j],
    {
        if v[i] != pat[i] {
            assert(v@.subrange(0, n as int)[i as int] == v@[i as int]);
            return false;
        }
    }
    assert(v@.subrange(0, n as int) =~= pat@);
    true
}

/// Whether `v` ends with `pat`.
pub fn ends_with(v: &[char], pat: &[char]) -> (r: bool)
    ensures
        r == pat@.is_suffix_of(v@),
{
    if pat.len() > v.len() {
        return false;
    }
    let at: usize = v.len() - pat.len();
    let r: bool = starts_with(slice_subrange(v, at, v.len()), pat);
    assert(v@.subrange(at as int, v@.len() as int).subrange(0, pat@.len() as int) =~= v@.subrange(
        at as int,
        v@.len() as int,
    ));
    r
}

/// Where `pat` first occurs in `v`.
pub fn position(v: &[char], pat: &[char]) -> (r: Option<usize>)
    ensures
        match r {
            Some(i) => find(v@, pat@) == Some(i as int),
            None => find(v@, pat@) is None,
        },
        r matches Some(i) ==> i + pat@.len() <= v@.len(),
{
    let n: usize = v.len();
    let mut i: usize = 0;
    assert(v@.skip(0) =~= v@);
    while i < n
        invariant
            n == v@.len(),
            i <= n,
            find(v@, pat@) == match find(v@.skip(i as int), pat@) {
                Some(k) => Some(k + i),
                None => None,
            },
        decreases n - i,
    {
        if starts_with(slice_subrange(v, i, n), pat) {
            return Some(i);
        }
        assert(v@.skip(i as int).drop_first() =~= v@.skip(i + 1));
        i += 1;
    }
    if pat.len() == 0 {
        assert(v@.skip(i as int).subrange(0, 0) =~= pat@);
        Some(n)
    } else {
        None
    }
}

/// Where `c` first occurs in `v`.
pub fn position_of(v: &[char], c: char) -> (r: Option<usize>)
    ensures
        match r {
            Some(i) => find(v@, seq![c]) == Some(i as int),
            None => find(v@, seq![c]) is None,
        },
        r matches Some(i) ==> i < v@.len(),
{
    let pat: Vec<char> = vec![c];
    assert(pat@ =~= seq![c]);
    position(v, pat.as_slice())
}

/// The pieces of `v` between the occurrences of `c`.
pub fn split(v: &[char], c: char) -> (r: Vec<String>)
    ensures
        texts(r@) == pieces(v@, c),
{
    let mut r: Vec<String> = Vec::new();
    let n: usize = v.len();
    let mut lo: usize = 0;
    assert(v@.skip(0) =~= v@);
    assert(texts(r@) + pieces(v@, c) =~= pieces(v@, c));
    loop
        invariant
            n == v@.len(),
            lo <= n,
            texts(r@) + pieces(v@.skip(lo as int), c) == pieces(v@, c),
        decreases n - lo,
    {
        let rest: &[char] = slice_subrange(v, lo, n);
        let ghost before = texts(r@);
        assert(rest@ =~= v@.skip(lo as int));
        match position_of(rest, c) {
            Some(i) => {
                r.push(string_of(slice_subrange(rest, 0, i)));
                proof {
                    assert(rest@.skip(i + 1) =~= v@.skip(lo + i + 1));
                    assert(texts(r@) =~= before.push(rest@.take(i as int)));
                    assert(texts(r@) + pieces(v@.skip(lo + i + 1), c) =~= before + pieces(
                        rest@,
                        c,
                    ));
                }
                lo = lo + i + 1;
            },
            None => {
                r.push(string_of(rest));
                proof {
                    assert(texts(r@) =~= before + pieces(rest@, c));
                }
                return r;
            },
        }
    }
}

/// `parts` one after the other, with `sep` between them.
pub fn join(parts: &Vec<String>, sep: &str) -> (r: String)
    ensures
        r@ == joined(texts(parts@), sep@),
{
    let n: usize = parts.len();
    if n == 0 {
        return String::new();
    }
    let mut r: String = parts[n - 1].clone();
    let mut i: usize = n - 1;
    let ghost all = texts(parts@);
    assert(all.skip(n - 1) =~= seq![all[n - 1]]);
    while 0 < i
        invariant
            all == texts(parts@),
            n == parts@.len(),
            i < n,
            r@ == joined(all.skip(i as int), sep@),
        decreases i,
    {
        i -= 1;
        let mut next: String = parts[i].clone();
        next.append(sep);
        next.append(r.as_str());
        assert(all.skip(i as int).drop_first() =~= all.skip(i + 1));
        r = next;
    }
    assert(all.skip(0) =~= all);
    r
}

/// `v` with every `from` replaced by `to`.
pub fn replace(v: &[char], from: char, to: char) -> (r: Vec<char>)
    ensures
        r@ == replaced(v@, from, to),
{
    let mut r: Vec<char> = Vec::new();
    let n: usize = v.len();
    for i in 0..n
        invariant
            n == v@.len(),
            r@ == replaced(v@, from, to).take(i as int),
    {
        if v[i] == from {
            r.push(to);
        } else {
            r.push(v[i]);
        }
    }
    r
}

/// `a`, then `b`, as one text.
pub fn concat(a: &str, b: &str) -> (r: String)
    ensures
        r@ == a@ + b@,
{
    let mut r: String = a.to_owned();
    r.append(b);
    r
}

/// Splitting a text at a separator and joining the pieces with it gives the text back.
pub proof fn law_split_then_join(s: Seq<char>, c: char)
    ensures
        joined(pieces(s, c), seq![c]) == s,
    decreases s.len(),
{
    lemma_find_occurs(s, seq![c]);
    match find(s, seq![c]) {
        Some(i) => {
            assert(s.subrange(i, i + 1)[0] == c);
            law_split_then_join(s.skip(i + 1), c);
            lemma_pieces_non_empty(s.skip(i + 1), c);
            assert(pieces(s, c).drop_first() =~= pieces(s.skip(i + 1), c));
            assert(s.take(i) + seq![c] + s.skip(i + 1) =~= s);
        },
        None => {},
    }
}

/// What `find` returns is the first place where the pattern stands.
pub proof fn lemma_find_occurs(s: Seq<char>, pat: Seq<char>)
    ensures
        match find(s, pat) {
            Some(i) => occurs_at(s, pat, i) && forall|j: int|
                0 <= j < i ==> !#[trigger] occurs_at(s, pat, j),
            None => forall|j: int| !#[trigger] occurs_at(s, pat, j),
        },
    decreases s.len(),
{
    assert(pat.is_prefix_of(s) == occurs_at(s, pat, 0));
    if s.len() > 0 {
        lemma_find_occurs(s.drop_first(), pat);
        assert forall|j: int| 0 < j implies #[trigger] occurs_at(s, pat, j) == occurs_at(
            s.drop_first(),
            pat,
            j - 1,
        ) by {
            if j <= s.len() - pat.len() {
                assert(s.subrange(j, j + pat.len()) =~= s.drop_first().subrange(
                    j - 1,
                    j - 1 + pat.len(),
                ));
            }
        }
    }
}

proof fn lemma_pieces_non_empty(s: Seq<char>, c: char)
    ensures
        pieces(s, c).len() > 0,
{
}

/// A pattern is found behind a text that lacks its first character.
pub proof fn lemma_find_behind(a: Seq<char>, pat: Seq<char>, b: Seq<char>)
    requires
        pat.len() > 0,
        !a.contains(pat.first()),
    ensures
        find(a + (pat + b), pat) == Some(a.len() as int),
    decreases a.len(),
{
    let s = a + (pat + b);
    if a.len() == 0 {
        assert(s.subrange(0, pat.len() as int) =~= pat);
    } else {
        assert(s.drop_first() =~= a.drop_first() + (pat + b));
        assert(a.contains(a[0]));
        assert(!a.drop_first().contains(pat.first())) by {
            if a.drop_first().contains(pat.first()) {
                let k = choose|k: int| 0 <= k < a.len() - 1 && a.drop_first()[k] == pat.first();
                assert(a[k + 1] == pat.first());
            }
        }
        lemma_find_behind(a.drop_first(), pat, b);
        assert(!pat.is_prefix_of(s)) by {
            if pat.is_prefix_of(s) {
                assert(s.subrange(0, pat.len() as int)[0] == s[0]);
            }
        }
    }
}

/// A character is found behind a text that lacks it.
pub proof fn lemma_find_first(a: Seq<char>, c: char, b: Seq<char>)
    requires
        !a.contains(c),
    ensures
        find(a + seq![c] + b, seq![c]) == Some(a.len() as int),
{
    lemma_find_behind(a, seq![c], b);
    assert(a + seq![c] + b =~= a + (seq![c] + b));
}

/// A character that a text lacks is not found in it.
pub proof fn lemma_find_none(s: Seq<char>, c: char)
    requires
        !s.contains(c),
    ensures
        find(s, seq![c]) is None,
{
    lemma_find_occurs(s, seq![c]);
    if let Some(i) = find(s, seq![c]) {
        assert(s.subrange(i, i + 1)[0] == s[i]);
    }
}

/// The pieces of two texts with `c` between them are those of the one, then those of the other.
pub proof fn lemma_pieces_add(a: Seq<char>, c: char, b: Seq<char>)
    ensures
        pieces(a + seq![c] + b, c) == pieces(a, c) + pieces(b, c),
    decreases a.len(),
{
    let s = a + seq![c] + b;
    lemma_find_occurs(a, seq![c]);
    match find(a, seq![c]) {
        Some(i) => {
            let x = a.take(i);
            let y = a.skip(i + 1);
            assert(a.subrange(i, i + 1)[0] == a[i]);
            assert(!x.contains(c)) by {
                if x.contains(c) {
                    let k = choose|k: int| 0 <= k < x.len() && x[k] == c;
                    assert(a.subrange(k, k + 1) =~= seq![c]);
                    assert(occurs_at(a, seq![c], k));
                }
            }
            assert(s =~= x + seq![c] + (y + seq![c] + b));
            lemma_find_first(x, c, y + seq![c] + b);
            assert(s.take(i) =~= x);
            assert(s.skip(i + 1) =~= y + seq![c] + b);
            lemma_pieces_add(y, c, b);
            assert(pieces(s, c) =~= pieces(a, c) + pieces(b, c));
        },
        None => {
            assert(!a.contains(c)) by {
                if a.contains(c) {
                    let k = choose|k: int| 0 <= k < a.len() && a[k] == c;
                    assert(a.subrange(k, k + 1) =~= seq![c]);
                    assert(occurs_at(a, seq![c], k));
                }
            }
            lemma_find_first(a, c, b);
            assert(s.take(a.len() as int) =~= a);
            assert(s.skip(a.len() as int + 1) =~= b);
            assert(pieces(s, c) == seq![a] + pieces(b, c));
        },
    }
}

/// A text without `c` that is put behind another one and a `c` is the last piece.
pub proof fn lemma_last_piece(a: Seq<char>, c: char, b: Seq<char>)
    requires
        !b.contains(c),
    ensures
        pieces(a + seq![c] + b, c) == pieces(a, c).push(b),
        pieces(b, c) == seq![b],
{
    lemma_find_none(b, c);
    lemma_pieces_add(a, c, b);
    assert(pieces(a, c) + pieces(b, c) =~= pieces(a, c).push(b));
}

/// White space is what Unicode counts as such, by code point.
pub proof fn law_white_space_by_code_point(c: char)
    ensures
        white_space(c) <==> {
            ||| 0x9 <= c as u32 <= 0xd
            ||| c as u32 == 0x20
            ||| c as u32 == 0x85
            ||| c as u32 == 0xa0
            ||| c as u32 == 0x1680
            ||| 0x2000 <= c as u32 <= 0x200a
            ||| c as u32 == 0x2028
            ||| c as u32 == 0x2029
            ||| c as u32 == 0x202f
            ||| c as u32 == 0x205f
            ||| c as u32 == 0x3000
        },
{
}

proof fn lemma_trim_start(s: Seq<char>) -> (n: int)
    ensures
        0 <= n <= s.len(),
        trim_start(s) == s.skip(n),
        forall|k: int| 0 <= k < n ==> white_space(#[trigger] s[k]),
        n < s.len() ==> !white_space(s[n]),
    decreases s.len(),
{
    if s.len() > 0 && white_space(s.first()) {
        let m = lemma_trim_start(s.drop_first());
        assert(s.drop_first().skip(m) =~= s.skip(m + 1));
        assert forall|k: int| 0 <= k < m + 1 implies white_space(#[trigger] s[k]) by {
            if k > 0 {
                assert(white_space(s.drop_first()[k - 1]));
            }
        }
        m + 1
    } else {
        assert(s.skip(0) =~= s);
        0
    }
}

proof fn lemma_trim_end(s: Seq<char>) -> (n: int)
    ensures
        0 <= n <= s.len(),
        trim_end(s) == s.take(n),
        forall|k: int| n <= k < s.len() ==> white_space(#[trigger] s[k]),
        n > 0 ==> !white_space(s[n - 1]),
    decreases s.len(),
{
    if s.len() > 0 && white_space(s.last()) {
        let m = lemma_trim_end(s.drop_last());
        assert(s.drop_last().take(m) =~= s.take(m));
        assert forall|k: int| m <= k < s.len() implies white_space(#[trigger] s[k]) by {
            if k < s.len() - 1 {
                assert(white_space(s.drop_last()[k]));
            }
        }
        m
    } else {
        assert(s.take(s.len() as int) =~= s);
        s.len() as int
    }
}

/// Trimming takes white space from both ends and nothing else: what is left stands in the text as
/// it is, all around it is white space, and its ends are none.
pub proof fn law_trimming_takes_white_space_only(s: Seq<char>) -> (span: (int, int))
    ensures
        0 <= span.0 <= span.1 <= s.len(),
        trimmed(s) == s.subrange(span.0, span.1),
        forall|k: int| 0 <= k < span.0 ==> white_space(#[trigger] s[k]),
        forall|k: int| span.1 <= k < s.len() ==> white_space(#[trigger] s[k]),
        span.0 < span.1 ==> !white_space(s[span.0]) && !white_space(s[span.1 - 1]),
{
    let a = lemma_trim_start(s);
    let t = trim_start(s);
    let n = lemma_trim_end(t);
    assert(t.take(n) =~= s.subrange(a, a + n));
    assert forall|k: int| a + n <= k < s.len() implies white_space(#[trigger] s[k]) by {
        assert(white_space(t[k - a]));
    }
    if n > 0 {
        assert(t[n - 1] == s[a + n - 1]);
        assert(t[0] == s[a]);
    }
    (a, a + n)
}

/// What is taken from the front of a text are the occurrences of `c` there, all of them and nothing
/// else.
pub proof fn law_leading_characters_go(s: Seq<char>, c: char) -> (n: int)
    ensures
        0 <= n <= s.len(),
        without_leading(s, c) == s.skip(n),
        forall|k: int| 0 <= k < n ==> #[trigger] s[k] == c,
        n < s.len() ==> s[n] != c,
    decreases s.len(),
{
    if s.len() > 0 && s.first() == c {
        let m = law_leading_characters_go(s.drop_first(), c);
        assert(s.drop_first().skip(m) =~= s.skip(m + 1));
        assert forall|k: int| 0 <= k < m + 1 implies #[trigger] s[k] == c by {
            if k > 0 {
                assert(s.drop_first()[k - 1] == c);
            }
        }
        m + 1
    } else {
        assert(s.skip(0) =~= s);
        0
    }
}

/// What is taken from the end of a text are the occurrences of `c` there, all of them and nothing
/// else.
pub proof fn law_trailing_characters_go(s: Seq<char>, c: char) -> (n: int)
    ensures
        0 <= n <= s.len(),
        without_trailing(s, c) == s.take(n),
        forall|k: int| n <= k < s.len() ==> #[trigger] s[k] == c,
        n > 0 ==> s[n - 1] != c,
    decreases s.len(),
{
    if s.len() > 0 && s.last() == c {
        let m = law_trailing_characters_go(s.drop_last(), c);
        assert(s.drop_last().take(m) =~= s.take(m));
        assert forall|k: int| m <= k < s.len() implies #[trigger] s[k] == c by {
            if k < s.len() - 1 {
                assert(s.drop_last()[k] == c);
            }
        }
        m
    } else {
        assert(s.take(s.len() as int) =~= s);
        s.len() as int
    }
}

/// A pattern is found where it stands first, and is not found only where it stands nowhere.
pub proof fn law_find_gives_the_first_place(s: Seq<char>, pat: Seq<char>)
    ensures
        match find(s, pat) {
            Some(i) => 0 <= i <= s.len() - pat.len() && s.subrange(i, i + pat.len()) == pat
                && forall|j: int|
                0 <= j < i ==> #[trigger] s.subrange(j, j + pat.len()) != pat,
            None => forall|j: int|
                0 <= j <= s.len() - pat.len() ==> #[trigger] s.subrange(j, j + pat.len()) != pat,
        },
{
    lemma_find_occurs(s, pat);
    match find(s, pat) {
        Some(i) => {
            assert forall|j: int| 0 <= j < i implies #[trigger] s.subrange(j, j + pat.len())
                != pat by {
                assert(!occurs_at(s, pat, j));
            }
        },
        None => {
            assert forall|j: int| 0 <= j <= s.len() - pat.len() implies #[trigger] s.subrange(
                j,
                j + pat.len(),
            ) != pat by {
                assert(!occurs_at(s, pat, j));
            }
        },
    }
}

/// No piece of a text holds the separator, and there is always a piece.
pub proof fn law_pieces_hold_no_separator(s: Seq<char>, c: char, i: int)
    requires
        0 <= i < pieces(s, c).len(),
    ensures
        !pieces(s, c)[i].contains(c),
        pieces(s, c).len() > 0,
    decreases s.len(),
{
    lemma_find_occurs(s, seq![c]);
    match find(s, seq![c]) {
        Some(k) => {
            if i > 0 {
                law_pieces_hold_no_separator(s.skip(k + 1), c, i - 1);
            } else {
                let first = s.take(k);
                if first.contains(c) {
                    let j = choose|j: int| 0 <= j < first.len() && first[j] == c;
                    assert(s.subrange(j, j + 1) =~= seq![c]);
                    assert(occurs_at(s, seq![c], j));
                }
            }
        },
        None => {
            if s.contains(c) {
                let j = choose|j: int| 0 <= j < s.len() && s[j] == c;
                assert(s.subrange(j, j + 1) =~= seq![c]);
                assert(occurs_at(s, seq![c], j));
            }
        },
    }
}

/// Joining puts the separator between the parts, and nothing before the first or behind the last.
pub proof fn law_joining_puts_separators_between(
    parts: Seq<Seq<char>>,
    sep: Seq<char>,
    last: Seq<char>,
)
    ensures
        joined(seq![], sep).len() == 0,
        joined(seq![last], sep) == last,
        parts.len() > 0 ==> joined(parts.push(last), sep) == joined(parts, sep) + sep + last,
    decreases parts.len(),
{
    if parts.len() > 0 {
        let rest = parts.drop_first();
        law_joining_puts_separators_between(rest, sep, last);
        assert(parts.push(last).drop_first() =~= rest.push(last));
        if parts.len() == 1 {
            assert(rest.push(last) =~= seq![last]);
            assert(joined(parts.push(last), sep) =~= joined(parts, sep) + sep + last);
        } else {
            let head = parts[0] + sep;
            assert(head + (joined(rest, sep) + sep + last) =~= head + joined(rest, sep) + sep
                + last);
        }
    }
}

/// Joining parts without the separator and splitting again gives the parts back.
pub proof fn law_join_then_split(parts: Seq<Seq<char>>, c: char)
    requires
        parts.len() > 0,
        forall|i: int| 0 <= i < parts.len() ==> !(#[trigger] parts[i]).contains(c),
    ensures
        pieces(joined(parts, seq![c]), c) == parts,
    decreases parts.len(),
{
    let front = parts.drop_last();
    let last = parts.last();
    assert(!parts[parts.len() - 1].contains(c));
    if front.len() == 0 {
        lemma_last_piece(seq![], c, last);
        assert(parts =~= seq![last]);
    } else {
        assert forall|i: int| 0 <= i < front.len() implies !(#[trigger] front[i]).contains(c) by {
            assert(!parts[i].contains(c));
        }
        law_join_then_split(front, c);
        law_joining_puts_separators_between(front, seq![c], last);
        assert(front.push(last) =~= parts);
        lemma_last_piece(joined(front, seq![c]), c, last);
    }
}

/// Replacing changes the one character wherever it stands, into the other, and leaves all others
/// and their places alone.
pub proof fn law_replacing_changes_one_character(s: Seq<char>, from: char, to: char, i: int)
    requires
        0 <= i < s.len(),
    ensures
        replaced(s, from, to).len() == s.len(),
        s[i] == from ==> replaced(s, from, to)[i] == to,
        s[i] != from ==> replaced(s, from, to)[i] == s[i],
{
}

/// Texts are taken as they are: all of them, each with its characters, in their order.
pub proof fn law_texts_are_taken_as_they_are(parts: Seq<String>, s: String, i: int)
    ensures
        texts(parts).len() == parts.len(),
        0 <= i < parts.len() ==> texts(parts)[i] == parts[i]@,
        opt_text(Some(s)) == Some(s@),
        opt_text(None) is None,
{
}

} // verus!

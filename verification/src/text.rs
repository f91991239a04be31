//! Character-level helpers over strings, stated over their `Seq<char>` views.

use vstd::prelude::*;
use vstd::string::StringSliceAdditionalSpecFns;
use vstd::utf8::{decode_utf8, valid_utf8};

verus! {

/// Whether `needle` occurs in `hay` as a contiguous run.
pub open spec fn occurs_in(hay: Seq<char>, needle: Seq<char>) -> bool {
    exists|i: int| 0 <= i && i + needle.len() <= hay.len() && #[trigger] hay.subrange(i, i + needle.len()) == needle
}

/// The characters of `s`, in order.
pub fn chars_of(s: &str) -> (r: Vec<char>)
    ensures
        r@ == s@,
{
    let mut r: Vec<char> = Vec::new();
    for c in it: s.chars()
        invariant
            r@ == it.seq().take(it.index() as int),
            it.seq() == s@,
    {
        r.push(c);
    }
    r
}

} // verus!

verus! {

/// Whether `needle` occurs in `hay`.
pub fn contains_chars(hay: &[char], needle: &[char]) -> (r: bool)
    ensures
        r == occurs_in(hay@, needle@),
{
    let n = needle.len();
    let h = hay.len();
    if n > h {
        assert(!occurs_in(hay@, needle@));
        return false;
    }
    let mut i: usize = 0;
    while i <= h - n
        invariant
            n == needle@.len(),
            h == hay@.len(),
            n <= h,
            i <= h - n + 1,
            forall|k: int| 0 <= k < i ==> #[trigger] hay@.subrange(k, k + n) != needle@,
        decreases h - n + 1 - i,
    {
        let mut j: usize = 0;
        let mut same = true;
        while j < n
            invariant
                n == needle@.len(),
                h == hay@.len(),
                i + n <= h,
                j <= n,
                same == (forall|m: int| 0 <= m < j ==> hay@[i + m] == needle@[m]),
            decreases n - j,
        {
            if hay[i + j] != needle[j] {
                same = false;
            }
            j = j + 1;
        }
        if same {
            assert(hay@.subrange(i as int, i + n) =~= needle@);
            return true;
        }
        assert(hay@.subrange(i as int, i + n) != needle@) by {
            let m = choose|m: int| 0 <= m < n && hay@[i + m] != needle@[m];
            assert(hay@.subrange(i as int, i + n)[m] == hay@[i + m]);
        }
        i = i + 1;
    }
    assert forall|k: int| 0 <= k && k + n <= h implies #[trigger] hay@.subrange(k, k + n) != needle@ by {}
    false
}

/// Whether `keyword` occurs in `line`.
pub fn str_contains(line: &str, keyword: &str) -> (r: bool)
    ensures
        r == occurs_in(line@, keyword@),
{
    let a = chars_of(line);
    let b = chars_of(keyword);
    contains_chars(a.as_slice(), b.as_slice())
}

} // verus!

verus! {

/// Reads `bytes` as UTF-8 text; `None` when they are not valid UTF-8.
///
/// Trusted: wraps `std::str::from_utf8`, which returns an error exactly when
/// the bytes are not valid UTF-8 and otherwise a `str` over those same bytes.
#[verifier::external_body]
pub fn utf8_str(bytes: &[u8]) -> (r: Option<&str>)
    ensures
        r is Some <==> valid_utf8(bytes@),
        r matches Some(s) ==> s.spec_bytes() == bytes@,
{
    std::str::from_utf8(bytes).ok()
}

/// The text that valid UTF-8 bytes decode to.
pub proof fn lemma_utf8_str_view(s: &str, bytes: Seq<u8>)
    requires
        s.spec_bytes() == bytes,
    ensures
        s@ == decode_utf8(bytes),
        valid_utf8(bytes),
{
    vstd::utf8::encode_utf8_decode_utf8(s@);
    vstd::utf8::encode_utf8_valid_utf8(s@);
}

} // verus!

verus! {

/// Whether `c` has the Unicode `White_Space` property, as `char::is_whitespace` decides.
pub open spec fn is_ws(c: char) -> bool {
    ('\u{9}' <= c && c <= '\u{d}') || c == ' ' || c == '\u{85}' || c == '\u{a0}' || c == '\u{1680}'
        || ('\u{2000}' <= c && c <= '\u{200a}') || c == '\u{2028}' || c == '\u{2029}'
        || c == '\u{202f}' || c == '\u{205f}' || c == '\u{3000}'
}

/// Whether `c` has the Unicode `White_Space` property.
pub fn is_whitespace(c: char) -> (r: bool)
    ensures
        r == is_ws(c),
{
    ('\u{9}' <= c && c <= '\u{d}') || c == ' ' || c == '\u{85}' || c == '\u{a0}' || c == '\u{1680}'
        || ('\u{2000}' <= c && c <= '\u{200a}') || c == '\u{2028}' || c == '\u{2029}'
        || c == '\u{202f}' || c == '\u{205f}' || c == '\u{3000}'
}

/// The index of the first character of `t` that satisfies `p`; the length of `t` when none does.
pub open spec fn first_where(t: Seq<char>, p: spec_fn(char) -> bool) -> nat
    decreases t.len(),
{
    if t.len() == 0 {
        0
    } else if p(t[0]) {
        0
    } else {
        1 + first_where(t.drop_first(), p)
    }
}

/// A first index found by scanning is the first index.
pub proof fn lemma_first_where(t: Seq<char>, p: spec_fn(char) -> bool, k: int)
    requires
        0 <= k <= t.len(),
        forall|j: int| 0 <= j < k ==> !p(#[trigger] t[j]),
        k == t.len() || p(t[k]),
    ensures
        first_where(t, p) == k,
    decreases k,
{
    if k > 0 {
        assert forall|j: int| 0 <= j < k - 1 implies !p(#[trigger] t.drop_first()[j]) by {
            assert(t.drop_first()[j] == t[j + 1]);
        }
        if k < t.len() {
            assert(t.drop_first()[k - 1] == t[k]);
        }
        assert(!p(t[0]));
        lemma_first_where(t.drop_first(), p, k - 1);
    } else if t.len() > 0 {
        assert(p(t[0]));
    }
}

/// `s` without its leading whitespace.
pub open spec fn trim_start(s: Seq<char>) -> Seq<char> {
    s.skip(first_where(s, |c: char| !is_ws(c)) as int)
}

/// `s` without its trailing whitespace.
pub open spec fn trim_end(s: Seq<char>) -> Seq<char>
    decreases s.len(),
{
    if s.len() > 0 && is_ws(s.last()) {
        trim_end(s.drop_last())
    } else {
        s
    }
}

/// `s` without leading and trailing whitespace, as `str::trim` makes it.
pub open spec fn trim(s: Seq<char>) -> Seq<char> {
    trim_end(trim_start(s))
}

/// The bounds of `s` once leading and trailing whitespace is cut.
pub fn trim_bounds(s: &[char]) -> (r: (usize, usize))
    ensures
        r.0 <= r.1 <= s@.len(),
        s@.subrange(r.0 as int, r.1 as int) == trim(s@),
        r.0 == first_where(s@, |c: char| !is_ws(c)),
{
    let len = s.len();
    let mut start: usize = 0;
    while start < len && is_whitespace(s[start])
        invariant
            start <= len,
            len == s@.len(),
            forall|j: int| 0 <= j < start ==> is_ws(#[trigger] s@[j]),
        decreases len - start,
    {
        start = start + 1;
    }
    proof {
        lemma_first_where(s@, |c: char| !is_ws(c), start as int);
    }
    let ghost u = s@.skip(start as int);
    let mut end: usize = len;
    assert(u.take(end - start) =~= u);
    while end > start && is_whitespace(s[end - 1])
        invariant
            start <= end <= len,
            len == s@.len(),
            u == s@.skip(start as int),
            trim_end(u.take(end - start)) == trim_end(u),
        decreases end,
    {
        proof {
            let v = u.take(end - start);
            assert(v.last() == s@[end - 1]);
            assert(v.drop_last() =~= u.take(end - 1 - start));
        }
        end = end - 1;
    }
    proof {
        let v = u.take(end - start);
        assert(u.take(u.len() as int) =~= u);
        if end > start {
            assert(v.last() == s@[end - 1]);
        }
        assert(trim_end(v) == v);
        assert(v =~= s@.subrange(start as int, end as int));
    }
    (start, end)
}

} // verus!

verus! {

/// The words of `s[i..]`, given the word `cur` already begun: the runs of
/// non-whitespace characters, in order, as `str::split_whitespace` yields them.
pub open spec fn words_from(s: Seq<char>, i: int, cur: Option<Seq<char>>) -> Seq<Seq<char>>
    decreases s.len() - i,
{
    if i >= s.len() {
        match cur {
            Some(w) => seq![w],
            None => seq![],
        }
    } else if is_ws(s[i]) {
        match cur {
            Some(w) => seq![w] + words_from(s, i + 1, None),
            None => words_from(s, i + 1, None),
        }
    } else {
        words_from(s, i + 1, Some(cur.unwrap_or(Seq::empty()).push(s[i])))
    }
}

/// The words of `s` (see [`words_from`]).
pub open spec fn words(s: Seq<char>) -> Seq<Seq<char>> {
    words_from(s, 0, None)
}

/// The lines of `s[i..]`, given the line `cur` already begun, as `str::lines`
/// yields them: a line ends at `\n`, which is dropped together with a `\r`
/// just before it; a final empty line is not a line.
pub open spec fn lines_from(s: Seq<char>, i: int, cur: Seq<char>) -> Seq<Seq<char>>
    decreases s.len() - i,
{
    if i >= s.len() {
        if cur.len() == 0 {
            seq![]
        } else {
            seq![cur]
        }
    } else if s[i] == '\n' {
        seq![strip_cr(cur)] + lines_from(s, i + 1, Seq::empty())
    } else {
        lines_from(s, i + 1, cur.push(s[i]))
    }
}

/// `l` without one trailing `\r`.
pub open spec fn strip_cr(l: Seq<char>) -> Seq<char> {
    if l.len() > 0 && l.last() == '\r' {
        l.drop_last()
    } else {
        l
    }
}

/// The lines of `s` (see [`lines_from`]).
pub open spec fn lines(s: Seq<char>) -> Seq<Seq<char>> {
    lines_from(s, 0, Seq::empty())
}

/// The views of a vector of character vectors.
pub open spec fn char_vecs_view(v: Seq<Vec<char>>) -> Seq<Seq<char>> {
    v.map_values(|x: Vec<char>| x@)
}

/// The words of `s`.
pub fn split_words(s: &[char]) -> (r: Vec<Vec<char>>)
    ensures
        char_vecs_view(r@) == words(s@),
{
    let len = s.len();
    let mut out: Vec<Vec<char>> = Vec::new();
    let mut cur: Vec<char> = Vec::new();
    let mut in_word = false;
    let mut i: usize = 0;
    while i < len
        invariant
            i <= len,
            len == s@.len(),
            !in_word ==> cur@.len() == 0,
            char_vecs_view(out@) + words_from(s@, i as int, if in_word { Some(cur@) } else { None })
                == words(s@),
        decreases len - i,
    {
        let ghost before = char_vecs_view(out@);
        let c = s[i];
        if is_whitespace(c) {
            if in_word {
                let ghost w = cur@;
                let mut done: Vec<char> = Vec::new();
                std::mem::swap(&mut done, &mut cur);
                out.push(done);
                in_word = false;
                proof {
                    assert(char_vecs_view(out@) =~= before.push(w));
                    assert(before + words_from(s@, i as int, Some(w))
                        =~= before.push(w) + words_from(s@, i + 1, None));
                }
            }
        } else {
            proof {
                let o = if in_word { Some(cur@) } else { None };
                assert(o.unwrap_or(Seq::empty()).push(c) =~= cur@.push(c));
            }
            cur.push(c);
            in_word = true;
        }
        i = i + 1;
    }
    if in_word {
        let ghost before = char_vecs_view(out@);
        let ghost w = cur@;
        out.push(cur);
        proof {
            assert(char_vecs_view(out@) =~= before.push(w));
            assert(before + seq![w] =~= before.push(w));
        }
    } else {
        proof {
            assert(char_vecs_view(out@) + Seq::<Seq<char>>::empty() =~= char_vecs_view(out@));
        }
    }
    out
}

/// The lines of `s`.
pub fn split_lines(s: &[char]) -> (r: Vec<Vec<char>>)
    ensures
        char_vecs_view(r@) == lines(s@),
{
    let len = s.len();
    let mut out: Vec<Vec<char>> = Vec::new();
    let mut cur: Vec<char> = Vec::new();
    let mut i: usize = 0;
    while i < len
        invariant
            i <= len,
            len == s@.len(),
            char_vecs_view(out@) + lines_from(s@, i as int, cur@) == lines(s@),
        decreases len - i,
    {
        let ghost before = char_vecs_view(out@);
        let c = s[i];
        if c == '\n' {
            let ghost w = cur@;
            let mut done: Vec<char> = Vec::new();
            std::mem::swap(&mut done, &mut cur);
            let n = done.len();
            if n > 0 && done[n - 1] == '\r' {
                done.pop();
            }
            proof {
                assert(done@ == strip_cr(w));
            }
            out.push(done);
            proof {
                assert(char_vecs_view(out@) =~= before.push(strip_cr(w)));
                assert(before + lines_from(s@, i as int, w)
                    =~= before.push(strip_cr(w)) + lines_from(s@, i + 1, Seq::empty()));
                assert(cur@ =~= Seq::<char>::empty());
            }
        } else {
            cur.push(c);
        }
        i = i + 1;
    }
    if cur.len() > 0 {
        let ghost before = char_vecs_view(out@);
        let ghost w = cur@;
        out.push(cur);
        proof {
            assert(char_vecs_view(out@) =~= before.push(w));
            assert(before + seq![w] =~= before.push(w));
        }
    } else {
        proof {
            assert(char_vecs_view(out@) + Seq::<Seq<char>>::empty() =~= char_vecs_view(out@));
        }
    }
    out
}

} // verus!

verus! {

/// The index of the first `": "` in `t` at or after `i`, if any.
pub open spec fn sep_index(t: Seq<char>, i: int) -> Option<int>
    decreases t.len() - i,
{
    if i < 0 || i + 1 >= t.len() {
        None
    } else if t[i] == ':' && t[i + 1] == ' ' {
        Some(i)
    } else {
        sep_index(t, i + 1)
    }
}

/// The first two pieces of `t` split at `": "`, as `str::split(": ")` yields
/// them: the text before the first separator (all of `t` when there is
/// none), and the text between the first and the second separator (to the
/// end when there is no second), absent when there is no separator at all.
pub open spec fn split_header_spec(t: Seq<char>) -> (Seq<char>, Option<Seq<char>>) {
    match sep_index(t, 0) {
        None => (t, None),
        Some(i) => (t.take(i), Some(match sep_index(t, i + 2) {
            None => t.skip(i + 2),
            Some(j) => t.subrange(i + 2, j),
        })),
    }
}

proof fn lemma_sep_index_bounds(t: Seq<char>, i: int)
    ensures
        sep_index(t, i) matches Some(k) ==> 0 <= i <= k && k + 1 < t.len() && t[k] == ':' && t[k + 1] == ' ',
    decreases t.len() - i,
{
    if i >= 0 && i + 1 < t.len() && !(t[i] == ':' && t[i + 1] == ' ') {
        lemma_sep_index_bounds(t, i + 1);
    }
}

proof fn lemma_sep_index_at(t: Seq<char>, i: int, k: int)
    requires
        0 <= i <= k,
        k + 1 < t.len(),
        t[k] == ':' && t[k + 1] == ' ',
        forall|j: int| i <= j < k ==> !(#[trigger] t[j] == ':' && t[j + 1] == ' '),
    ensures
        sep_index(t, i) == Some(k),
    decreases k - i,
{
    if i < k {
        lemma_sep_index_at(t, i + 1, k);
    }
}

proof fn lemma_sep_index_none(t: Seq<char>, i: int)
    requires
        0 <= i,
        forall|j: int| i <= j < t.len() - 1 ==> !(#[trigger] t[j] == ':' && t[j + 1] == ' '),
    ensures
        sep_index(t, i) is None,
    decreases t.len() - i,
{
    if i + 1 < t.len() {
        lemma_sep_index_none(t, i + 1);
    }
}

/// A header line splits at its first `": "`: for a name `n` and a value `v`
/// that hold no `": "`, the line `n: v` gives the name `n` and the value `v`
/// whole, colons and all (as in `Host: localhost:5001`); when a second
/// `": "` follows the value, the value stops there; and a line with no
/// `": "` gives no value.
pub proof fn lemma_header_split(n: Seq<char>, v: Seq<char>, w: Seq<char>)
    requires
        forall|i: int| 0 <= i < n.len() - 1 ==> !(#[trigger] n[i] == ':' && n[i + 1] == ' '),
        forall|i: int| 0 <= i < v.len() - 1 ==> !(#[trigger] v[i] == ':' && v[i + 1] == ' '),
    ensures
        split_header_spec(n + ": "@ + v) == (n, Some(v)),
        split_header_spec(n + ": "@ + v + ": "@ + w) == (n, Some(v)),
        split_header_spec(n) == (n, None::<Seq<char>>),
{
    reveal_strlit(": ");
    let sep = ": "@;
    assert(sep.len() == 2 && sep[0] == ':' && sep[1] == ' ');
    let k = n.len() as int;
    let t1 = n + sep + v;
    let t2 = n + sep + v + sep + w;
    assert forall|j: int| 0 <= j < k implies !(#[trigger] t1[j] == ':' && t1[j + 1] == ' ') by {
        if j < k - 1 {
            assert(t1[j] == n[j] && t1[j + 1] == n[j + 1]);
        } else {
            assert(t1[j + 1] == ':');
        }
    }
    lemma_sep_index_at(t1, 0, k);
    assert forall|j: int| k + 2 <= j < t1.len() - 1 implies !(#[trigger] t1[j] == ':' && t1[j + 1] == ' ') by {
        assert(t1[j] == v[j - k - 2] && t1[j + 1] == v[j - k - 1]);
    }
    lemma_sep_index_none(t1, k + 2);
    assert(t1.take(k) =~= n);
    assert(t1.skip(k + 2) =~= v);
    assert forall|j: int| 0 <= j < k implies !(#[trigger] t2[j] == ':' && t2[j + 1] == ' ') by {
        if j < k - 1 {
            assert(t2[j] == n[j] && t2[j + 1] == n[j + 1]);
        } else {
            assert(t2[j + 1] == ':');
        }
    }
    lemma_sep_index_at(t2, 0, k);
    let e = k + 2 + v.len();
    assert forall|j: int| k + 2 <= j < e implies !(#[trigger] t2[j] == ':' && t2[j + 1] == ' ') by {
        if j < e - 1 {
            assert(t2[j] == v[j - k - 2] && t2[j + 1] == v[j - k - 1]);
        } else {
            assert(t2[j + 1] == ':');
        }
    }
    assert(t2[e] == ':' && t2[e + 1] == ' ');
    lemma_sep_index_at(t2, k + 2, e);
    assert(t2.take(k) =~= n);
    assert(t2.subrange(k + 2, e) =~= v);
    lemma_sep_index_none(n, 0);
}

fn find_sep(t: &[char], from: usize) -> (r: Option<usize>)
    requires
        from <= t@.len(),
    ensures
        match r {
            Some(i) => sep_index(t@, from as int) == Some(i as int),
            None => sep_index(t@, from as int) is None,
        },
{
    let len = t.len();
    let mut i = from;
    while i < len && i + 1 < len
        invariant
            from <= i <= len,
            len == t@.len(),
            sep_index(t@, i as int) == sep_index(t@, from as int),
        decreases len - i,
    {
        if t[i] == ':' && t[i + 1] == ' ' {
            return Some(i);
        }
        i = i + 1;
    }
    None
}

fn copy_range(t: &[char], a: usize, b: usize) -> (r: Vec<char>)
    requires
        a <= b <= t@.len(),
    ensures
        r@ == t@.subrange(a as int, b as int),
{
    vstd::slice::slice_to_vec(vstd::slice::slice_subrange(t, a, b))
}

/// Splits `t` at `": "` (see [`split_header_spec`]).
pub fn split_header(t: &[char]) -> (r: (Vec<char>, Option<Vec<char>>))
    ensures
        r.0@ == split_header_spec(t@).0,
        match r.1 {
            Some(v) => split_header_spec(t@).1 == Some(v@),
            None => split_header_spec(t@).1 is None,
        },
{
    let len = t.len();
    match find_sep(t, 0) {
        None => (copy_range(t, 0, len), None),
        Some(i) => {
            proof {
                lemma_sep_index_bounds(t@, 0);
                lemma_sep_index_bounds(t@, i + 2);
            }
            let name = copy_range(t, 0, i);
            let value = match find_sep(t, i + 2) {
                None => copy_range(t, i + 2, len),
                Some(j) => copy_range(t, i + 2, j),
            };
            proof {
                assert(t@.take(i as int) =~= t@.subrange(0, i as int));
                assert(t@.skip(i + 2) =~= t@.subrange(i + 2, len as int));
            }
            (name, Some(value))
        },
    }
}

/// Trusted: wraps `String::push`, which appends one character.
#[verifier::external_body]
fn push_char(s: &mut String, c: char)
    ensures
        final(s)@ == old(s)@.push(c),
{
    s.push(c)
}

/// The string of the characters `v`.
pub fn string_from_chars(v: &[char]) -> (r: String)
    ensures
        r@ == v@,
{
    let mut s = String::new();
    let mut i: usize = 0;
    while i < v.len()
        invariant
            i <= v@.len(),
            s@ == v@.take(i as int),
        decreases v@.len() - i,
    {
        push_char(&mut s, v[i]);
        i = i + 1;
        assert(s@ =~= v@.take(i as int));
    }
    assert(v@.take(v@.len() as int) =~= v@);
    s
}

/// Whether the characters `a` spell `b`.
pub fn chars_eq_str(a: &[char], b: &str) -> (r: bool)
    ensures
        r == (a@ == b@),
{
    let bc = chars_of(b);
    if a.len() != bc.len() {
        return false;
    }
    let mut i: usize = 0;
    while i < a.len()
        invariant
            i <= a@.len(),
            a@.len() == bc@.len(),
            bc@ == b@,
            forall|j: int| 0 <= j < i ==> a@[j] == bc@[j],
        decreases a@.len() - i,
    {
        if a[i] != bc[i] {
            return false;
        }
        i = i + 1;
    }
    assert(a@ =~= bc@);
    true
}

/// Whether `a` and `b` are the same text.
pub fn str_eq(a: &str, b: &str) -> (r: bool)
    ensures
        r == (a@ == b@),
{
    let ac = chars_of(a);
    chars_eq_str(ac.as_slice(), b)
}

/// What `str::to_uppercase` makes of a text: the Unicode uppercase mapping,
/// which may change the length and turn non-ASCII letters into ASCII ones.
pub uninterp spec fn uppercase_of(s: Seq<char>) -> Seq<char>;

/// Trusted: wraps `str::to_uppercase`; its result is a function of the text
/// alone, named by `uppercase_of`.
#[verifier::external_body]
pub fn to_uppercase(s: &str) -> (r: String)
    ensures
        r@ == uppercase_of(s@),
{
    s.to_uppercase()
}

} // verus!

verus! {

/// A text that is not empty has a line.
pub proof fn lemma_lines_nonempty(s: Seq<char>, i: int, cur: Seq<char>)
    requires
        0 <= i,
        i < s.len() || cur.len() > 0,
    ensures
        lines_from(s, i, cur).len() > 0,
    decreases s.len() - i,
{
    if i < s.len() && s[i] != '\n' {
        lemma_lines_nonempty(s, i + 1, cur.push(s[i]));
    }
}

} // verus!

//! Character-level text operations used by the interpreter: trimming,
//! searching, removing and splitting, each stated over the text's
//! sequence of characters.
use vstd::prelude::*;

verus! {

/// Trusted, not proved: the standard library's `String::push` appends the
/// character to the end of the string, as its documentation states.
pub assume_specification[ std::string::String::push ](string: &mut std::string::String, ch: char)
    ensures
        final(string)@ == old(string)@.push(ch),
;

/// The characters with the Unicode `White_Space` property, which is what
/// `char::is_whitespace` and `str::trim` test.
pub open spec fn is_ws(c: char) -> bool {
    let u = c as u32;
    ||| 0x09 <= u <= 0x0D
    ||| u == 0x20
    ||| u == 0x85
    ||| u == 0xA0
    ||| u == 0x1680
    ||| 0x2000 <= u <= 0x200A
    ||| u == 0x2028
    ||| u == 0x2029
    ||| u == 0x202F
    ||| u == 0x205F
    ||| u == 0x3000
}

/// The text with leading white space removed.
pub open spec fn trim_start(s: Seq<char>) -> Seq<char>
    decreases s.len(),
{
    if s.len() > 0 && is_ws(s[0]) {
        trim_start(s.drop_first())
    } else {
        s
    }
}

/// The text with trailing white space removed.
pub open spec fn trim_end(s: Seq<char>) -> Seq<char>
    decreases s.len(),
{
    if s.len() > 0 && is_ws(s.last()) {
        trim_end(s.drop_last())
    } else {
        s
    }
}

/// The text with white space removed at both ends.
pub open spec fn trim(s: Seq<char>) -> Seq<char> {
    trim_end(trim_start(s))
}

/// `p` occurs in `s` starting at position `i`.
pub open spec fn occurs_at(s: Seq<char>, p: Seq<char>, i: int) -> bool {
    0 <= i && i + p.len() <= s.len() && s.subrange(i, i + p.len()) == p
}

/// `p` occurs somewhere in `s`.
pub open spec fn contains(s: Seq<char>, p: Seq<char>) -> bool {
    exists|i: int| occurs_at(s, p, i)
}

/// The first position at or after `from` where `p` occurs in `s`.
pub open spec fn find_from(s: Seq<char>, p: Seq<char>, from: int) -> Option<int>
    decreases s.len() + 1 - from,
{
    if from < 0 || from + p.len() > s.len() {
        None
    } else if occurs_at(s, p, from) {
        Some(from)
    } else {
        find_from(s, p, from + 1)
    }
}

/// The text with its first occurrence of `p` removed (`replacen(p, "", 1)`).
pub open spec fn remove_first(s: Seq<char>, p: Seq<char>) -> Seq<char> {
    match find_from(s, p, 0) {
        Some(i) => s.subrange(0, i) + s.subrange(i + p.len(), s.len() as int),
        None => s,
    }
}

/// The text with every occurrence of the character `c` removed (`replace(c, "")`).
pub open spec fn remove_all(s: Seq<char>, c: char) -> Seq<char>
    decreases s.len(),
{
    if s.len() == 0 {
        s
    } else if s.last() == c {
        remove_all(s.drop_last(), c)
    } else {
        remove_all(s.drop_last(), c).push(s.last())
    }
}

/// The pieces of `s` between the occurrences of `c` (`split(c)`).
pub open spec fn split(s: Seq<char>, c: char) -> Seq<Seq<char>>
    decreases s.len(),
{
    if s.len() == 0 {
        seq![Seq::<char>::empty()]
    } else {
        let init = split(s.drop_last(), c);
        if s.last() == c {
            init.push(Seq::<char>::empty())
        } else {
            init.update(init.len() - 1, init.last().push(s.last()))
        }
    }
}

/// The pieces put back together with `sep` between them (`join(sep)`).
pub open spec fn join(parts: Seq<Seq<char>>, sep: Seq<char>) -> Seq<char>
    decreases parts.len(),
{
    if parts.len() == 0 {
        Seq::empty()
    } else if parts.len() == 1 {
        parts[0]
    } else {
        join(parts.drop_last(), sep) + sep + parts.last()
    }
}

/// Lexicographic order by code point, which is the byte order of UTF-8
/// text and so the order of `String`'s `<`.
pub open spec fn text_lt(a: Seq<char>, b: Seq<char>) -> bool
    decreases a.len(),
{
    if a.len() == 0 {
        b.len() > 0
    } else if b.len() == 0 {
        false
    } else if a[0] != b[0] {
        (a[0] as u32) < (b[0] as u32)
    } else {
        text_lt(a.drop_first(), b.drop_first())
    }
}

/// The number of bytes that the UTF-8 encoding of `c` takes.
pub open spec fn char_utf8_len(c: char) -> nat {
    let u = c as u32;
    if u < 0x80 {
        1
    } else if u < 0x800 {
        2
    } else if u < 0x10000 {
        3
    } else {
        4
    }
}

/// The number of bytes of the UTF-8 encoding of `s` (what `str::len` gives).
pub open spec fn utf8_len(s: Seq<char>) -> nat
    decreases s.len(),
{
    if s.len() == 0 {
        0
    } else {
        utf8_len(s.drop_last()) + char_utf8_len(s.last())
    }
}

/// A text takes at least one byte per character.
pub proof fn lemma_utf8_len_bounds(s: Seq<char>)
    ensures
        utf8_len(s) >= s.len(),
    decreases s.len(),
{
    if s.len() > 0 {
        lemma_utf8_len_bounds(s.drop_last());
    }
}

pub proof fn lemma_split_nonempty(s: Seq<char>, c: char)
    ensures
        split(s, c).len() >= 1,
    decreases s.len(),
{
    if s.len() > 0 {
        lemma_split_nonempty(s.drop_last(), c);
    }
}

/// `char::is_whitespace`.
pub fn is_whitespace(c: char) -> (r: bool)
    ensures
        r == is_ws(c),
{
    let u = c as u32;
    (0x09 <= u && u <= 0x0D) || u == 0x20 || u == 0x85 || u == 0xA0 || u == 0x1680 || (0x2000
        <= u && u <= 0x200A) || u == 0x2028 || u == 0x2029 || u == 0x202F || u == 0x205F || u
        == 0x3000
}

/// The characters of a text.
pub fn chars_of(s: &str) -> (r: Vec<char>)
    ensures
        r@ == s@,
{
    let mut v: Vec<char> = Vec::new();
    for c in it: s.chars()
        invariant
            v@ == it.seq().take(it.index() as int),
    {
        v.push(c);
    }
    v
}

/// The text made of a run of characters.
pub fn string_of(v: &Vec<char>) -> (r: String)
    ensures
        r@ == v@,
{
    string_of_range(v, 0, v.len())
}

/// The text made of `v[from..to]`.
pub fn string_of_range(v: &Vec<char>, from: usize, to: usize) -> (r: String)
    requires
        from <= to <= v.len(),
    ensures
        r@ == v@.subrange(from as int, to as int),
{
    let mut s = String::new();
    let mut i: usize = from;
    while i < to
        invariant
            from <= i <= to <= v.len(),
            s@ == v@.subrange(from as int, i as int),
        decreases to - i,
    {
        s.push(v[i]);
        i += 1;
        assert(s@ =~= v@.subrange(from as int, i as int));
    }
    s
}

proof fn lemma_trim_start_skip(s: Seq<char>, i: int)
    requires
        0 <= i <= s.len(),
        forall|k: int| 0 <= k < i ==> is_ws(#[trigger] s[k]),
    ensures
        trim_start(s) == trim_start(s.subrange(i, s.len() as int)),
    decreases i,
{
    if i > 0 {
        assert(is_ws(s[0]));
        let t = s.drop_first();
        assert forall|k: int| 0 <= k < i - 1 implies is_ws(#[trigger] t[k]) by {
            assert(t[k] == s[k + 1]);
        }
        lemma_trim_start_skip(t, i - 1);
        assert(t.subrange(i - 1, t.len() as int) =~= s.subrange(i, s.len() as int));
    } else {
        assert(s.subrange(0, s.len() as int) =~= s);
    }
}

proof fn lemma_trim_end_cut(s: Seq<char>, j: int)
    requires
        0 <= j <= s.len(),
        forall|k: int| j <= k < s.len() ==> is_ws(#[trigger] s[k]),
    ensures
        trim_end(s) == trim_end(s.subrange(0, j)),
    decreases s.len() - j,
{
    if j < s.len() {
        assert(is_ws(s[s.len() - 1]));
        let t = s.drop_last();
        assert forall|k: int| j <= k < t.len() implies is_ws(#[trigger] t[k]) by {
            assert(t[k] == s[k]);
        }
        lemma_trim_end_cut(t, j);
        assert(t.subrange(0, j) =~= s.subrange(0, j));
    } else {
        assert(s.subrange(0, j) =~= s);
    }
}

/// `str::trim`.
pub fn trim_text(s: &str) -> (r: String)
    ensures
        r@ == trim(s@),
{
    let v = chars_of(s);
    let n = v.len();
    let mut i: usize = 0;
    while i < n && is_whitespace(v[i])
        invariant
            i <= n == v@.len(),
            forall|k: int| 0 <= k < i ==> is_ws(#[trigger] v@[k]),
        decreases n - i,
    {
        i += 1;
    }
    proof {
        lemma_trim_start_skip(v@, i as int);
    }
    let ghost rest = v@.subrange(i as int, n as int);
    assert(rest.len() == 0 || !is_ws(rest[0]));
    assert(trim_start(rest) == rest);
    let mut j: usize = n;
    while j > i && is_whitespace(v[j - 1])
        invariant
            i <= j <= n == v@.len(),
            forall|k: int| j <= k < n ==> is_ws(#[trigger] v@[k]),
        decreases j,
    {
        j -= 1;
    }
    proof {
        assert forall|k: int| j - i <= k < rest.len() implies is_ws(#[trigger] rest[k]) by {
            assert(rest[k] == v@[k + i]);
        }
        lemma_trim_end_cut(rest, j - i);
        let cut = rest.subrange(0, j - i);
        assert(cut =~= v@.subrange(i as int, j as int));
        if cut.len() > 0 {
            assert(cut.last() == v@[j - 1]);
        }
        assert(trim_end(cut) == cut);
    }
    string_of_range(&v, i, j)
}

/// Whether `p` occurs in `s` at `i`, for runs of characters.
fn occurs_at_exec(s: &Vec<char>, p: &Vec<char>, i: usize) -> (r: bool)
    requires
        i + p.len() <= s.len(),
    ensures
        r == occurs_at(s@, p@, i as int),
{
    let mut k: usize = 0;
    while k < p.len()
        invariant
            i + p.len() <= s.len(),
            k <= p.len(),
            forall|m: int| 0 <= m < k ==> s@[i + m] == p@[m],
        decreases p.len() - k,
    {
        if s[i + k] != p[k] {
            assert(s@.subrange(i as int, i + p.len())[k as int] != p@[k as int]);
            return false;
        }
        k += 1;
    }
    assert(s@.subrange(i as int, i + p.len()) =~= p@);
    true
}

proof fn lemma_find_from_none(s: Seq<char>, p: Seq<char>, from: int)
    requires
        0 <= from,
        forall|i: int| from <= i ==> !occurs_at(s, p, i),
    ensures
        find_from(s, p, from) is None,
    decreases s.len() + 1 - from,
{
    if from + p.len() <= s.len() {
        lemma_find_from_none(s, p, from + 1);
    }
}

proof fn lemma_find_from_some(s: Seq<char>, p: Seq<char>, from: int, i: int)
    requires
        0 <= from <= i,
        occurs_at(s, p, i),
        forall|k: int| from <= k < i ==> !occurs_at(s, p, k),
    ensures
        find_from(s, p, from) == Some(i),
    decreases i - from,
{
    if from < i {
        lemma_find_from_some(s, p, from + 1, i);
    }
}

/// The first position where `p` occurs in `s`.
fn find_exec(s: &Vec<char>, p: &Vec<char>) -> (r: Option<usize>)
    ensures
        r matches Some(i) ==> find_from(s@, p@, 0) == Some(i as int),
        r is None ==> find_from(s@, p@, 0) is None,
{
    if p.len() > s.len() {
        proof {
            lemma_find_from_none(s@, p@, 0);
        }
        return None;
    }
    if p.len() == 0 {
        assert(s@.subrange(0, 0) =~= p@);
        return Some(0);
    }
    let last = s.len() - p.len();
    let mut i: usize = 0;
    while i <= last
        invariant
            last + p.len() == s.len(),
            p.len() >= 1,
            i <= last + 1,
            forall|k: int| 0 <= k < i ==> !occurs_at(s@, p@, k),
        decreases last + 1 - i,
    {
        if occurs_at_exec(s, p, i) {
            proof {
                lemma_find_from_some(s@, p@, 0, i as int);
            }
            return Some(i);
        }
        i += 1;
    }
    proof {
        lemma_find_from_none(s@, p@, 0);
    }
    None
}

proof fn lemma_find_contains(s: Seq<char>, p: Seq<char>, from: int)
    requires
        0 <= from,
    ensures
        find_from(s, p, from) is Some <==> exists|i: int| from <= i && occurs_at(s, p, i),
        find_from(s, p, from) matches Some(i) ==> from <= i && occurs_at(s, p, i),
    decreases s.len() + 1 - from,
{
    if from + p.len() <= s.len() {
        lemma_find_contains(s, p, from + 1);
        if !occurs_at(s, p, from) {
            assert forall|i: int| from <= i && occurs_at(s, p, i) implies from + 1 <= i
                && occurs_at(s, p, i) by {}
        }
    } else {
        assert forall|i: int| from <= i implies !occurs_at(s, p, i) by {}
    }
}

/// `str::contains` for a text pattern.
pub fn contains_text(s: &str, p: &str) -> (r: bool)
    ensures
        r == contains(s@, p@),
{
    let sv = chars_of(s);
    let pv = chars_of(p);
    let f = find_exec(&sv, &pv);
    proof {
        lemma_find_contains(s@, p@, 0);
    }
    f.is_some()
}

/// `str::replacen(p, "", 1)`: the text without its first occurrence of `p`.
pub fn remove_first_text(s: &str, p: &str) -> (r: String)
    ensures
        r@ == remove_first(s@, p@),
{
    let sv = chars_of(s);
    let pv = chars_of(p);
    match find_exec(&sv, &pv) {
        Some(i) => {
            proof {
                lemma_find_contains(sv@, pv@, 0);
                assert(occurs_at(sv@, pv@, i as int));
                assert(i + pv@.len() <= sv@.len());
            }
            let plen = pv.len();
            assert(i + plen <= sv.len());
            let mut r = string_of_range(&sv, 0, i);
            let rest = string_of_range(&sv, i + plen, sv.len());
            r.append(rest.as_str());
            r
        },
        None => string_of(&sv),
    }
}

/// `str::replace(c, "")`: the text without any occurrence of `c`.
pub fn remove_all_text(s: &str, c: char) -> (r: String)
    ensures
        r@ == remove_all(s@, c),
{
    let v = chars_of(s);
    let mut r = String::new();
    let mut i: usize = 0;
    while i < v.len()
        invariant
            i <= v.len(),
            r@ == remove_all(v@.take(i as int), c),
        decreases v.len() - i,
    {
        assert(v@.take(i + 1).drop_last() =~= v@.take(i as int));
        if v[i] != c {
            r.push(v[i]);
        }
        i += 1;
    }
    assert(v@.take(v.len() as int) =~= v@);
    r
}

/// `str::split(c)`, collected.
pub fn split_text(s: &str, c: char) -> (r: Vec<String>)
    ensures
        r@.len() == split(s@, c).len(),
        forall|k: int| 0 <= k < r@.len() ==> #[trigger] r@[k]@ == split(s@, c)[k],
{
    let v = chars_of(s);
    let mut parts: Vec<String> = Vec::new();
    let mut cur = String::new();
    let mut i: usize = 0;
    while i < v.len()
        invariant
            i <= v.len(),
            parts@.len() + 1 == split(v@.take(i as int), c).len(),
            forall|k: int|
                0 <= k < parts@.len() ==> #[trigger] parts@[k]@ == split(
                    v@.take(i as int),
                    c,
                )[k],
            cur@ == split(v@.take(i as int), c).last(),
        decreases v.len() - i,
    {
        let ghost pre = v@.take(i as int);
        proof {
            lemma_split_nonempty(pre, c);
        }
        assert(v@.take(i + 1).drop_last() =~= pre);
        assert(v@.take(i + 1).last() == v@[i as int]);
        if v[i] == c {
            parts.push(cur);
            cur = String::new();
        } else {
            cur.push(v[i]);
        }
        i += 1;
    }
    assert(v@.take(v.len() as int) =~= v@);
    proof {
        lemma_split_nonempty(v@, c);
    }
    parts.push(cur);
    parts
}

/// `[String]::join(sep)` for the parts `parts[from..]`.
pub fn join_from(parts: &Vec<String>, from: usize, sep: &str) -> (r: String)
    requires
        from <= parts@.len(),
    ensures
        r@ == join(parts@.skip(from as int).map_values(|p: String| p@), sep@),
{
    let ghost views = parts@.skip(from as int).map_values(|p: String| p@);
    let mut r = String::new();
    let mut i: usize = from;
    while i < parts.len()
        invariant
            from <= i <= parts@.len(),
            views == parts@.skip(from as int).map_values(|p: String| p@),
            r@ == join(views.take(i - from), sep@),
        decreases parts.len() - i,
    {
        assert(views.take(i + 1 - from).drop_last() =~= views.take(i - from));
        assert(views.take(i + 1 - from).last() == parts@[i as int]@);
        if i > from {
            r.append(sep);
        } else {
            assert(views.take(i + 1 - from)[0] == parts@[i as int]@);
        }
        r.append(parts[i].as_str());
        i += 1;
    }
    assert(views.take(parts@.len() - from) =~= views);
    r
}

/// `String < String`: code point order.
pub fn text_less(a: &str, b: &str) -> (r: bool)
    ensures
        r == text_lt(a@, b@),
{
    let av = chars_of(a);
    let bv = chars_of(b);
    let mut i: usize = 0;
    assert(a@.skip(0) =~= a@);
    assert(b@.skip(0) =~= b@);
    while i < av.len() && i < bv.len() && av[i] == bv[i]
        invariant
            i <= av.len(),
            i <= bv.len(),
            text_lt(a@, b@) == text_lt(a@.skip(i as int), b@.skip(i as int)),
            av@ == a@,
            bv@ == b@,
        decreases av.len() - i,
    {
        assert(a@.skip(i as int).drop_first() =~= a@.skip(i + 1));
        assert(b@.skip(i as int).drop_first() =~= b@.skip(i + 1));
        i += 1;
    }
    if i == av.len() {
        i < bv.len()
    } else if i == bv.len() {
        false
    } else {
        (av[i] as u32) < (bv[i] as u32)
    }
}

/// `str::len`: the number of bytes of the UTF-8 encoding, which cannot pass
/// `usize::MAX` for a text held in memory.
pub fn utf8_length(s: &str) -> (r: usize)
    ensures
        r == (if utf8_len(s@) <= usize::MAX { utf8_len(s@) } else { usize::MAX as nat }),
{
    let v = chars_of(s);
    let mut total: usize = 0;
    let mut i: usize = 0;
    while i < v.len()
        invariant
            i <= v.len(),
            v@ == s@,
            total == (if utf8_len(v@.take(i as int)) <= usize::MAX {
                utf8_len(v@.take(i as int))
            } else {
                usize::MAX as nat
            }),
        decreases v.len() - i,
    {
        assert(v@.take(i + 1).drop_last() =~= v@.take(i as int));
        let u = v[i] as u32;
        let w: usize = if u < 0x80 {
            1
        } else if u < 0x800 {
            2
        } else if u < 0x10000 {
            3
        } else {
            4
        };
        total = total.saturating_add(w);
        i += 1;
    }
    assert(v@.take(v.len() as int) =~= v@);
    total
}

} // verus!

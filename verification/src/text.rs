//! Character-level text primitives shared by the parsers of the panel.
//!
//! Text is handled as `Vec<char>`; every operation is specified over
//! `Seq<char>` with the same meaning as the corresponding `str` method.
use vstd::prelude::*;

verus! {

// ── Specifications ─────────────────────────────────────────

/// Unicode `White_Space`, the set that `char::is_whitespace` tests.
pub open spec fn is_space(c: char) -> bool {
    let u = c as u32;
    ||| 9 <= u <= 13
    ||| u == 32
    ||| u == 0x85
    ||| u == 0xa0
    ||| u == 0x1680
    ||| 0x2000 <= u <= 0x200a
    ||| u == 0x2028
    ||| u == 0x2029
    ||| u == 0x202f
    ||| u == 0x205f
    ||| u == 0x3000
}

pub open spec fn is_digit(c: char) -> bool {
    '0' <= c <= '9'
}

/// The text with its leading white space removed (`trim_start`).
pub open spec fn skip_space(s: Seq<char>) -> Seq<char>
    decreases s.len(),
{
    if s.len() > 0 && is_space(s[0]) {
        skip_space(s.drop_first())
    } else {
        s
    }
}

/// The text with its trailing white space removed (`trim_end`).
pub open spec fn drop_trailing_space(s: Seq<char>) -> Seq<char>
    decreases s.len(),
{
    if s.len() > 0 && is_space(s.last()) {
        drop_trailing_space(s.drop_last())
    } else {
        s
    }
}

/// `str::trim`.
pub open spec fn trimmed(s: Seq<char>) -> Seq<char> {
    drop_trailing_space(skip_space(s))
}

/// Position of the first `c` in `s`, or `s.len()` when there is none.
pub open spec fn index_of(s: Seq<char>, c: char) -> int
    decreases s.len(),
{
    if s.len() == 0 {
        0
    } else if s[0] == c {
        0
    } else {
        1 + index_of(s.drop_first(), c)
    }
}

/// Length of the leading run of non-white-space characters.
pub open spec fn word_len(s: Seq<char>) -> int
    decreases s.len(),
{
    if s.len() == 0 || is_space(s[0]) {
        0
    } else {
        1 + word_len(s.drop_first())
    }
}

/// `str::split_whitespace`: the maximal runs of non-white-space characters.
pub open spec fn words_of(s: Seq<char>) -> Seq<Seq<char>>
    decreases s.len(),
{
    let t = skip_space(s);
    if t.len() == 0 {
        seq![]
    } else {
        proof {
            lemma_skip_space_len(s);
            lemma_word_len_bounds(t);
        }
        let k = word_len(t);
        if 0 < k <= t.len() {
            seq![t.take(k)] + words_of(t.skip(k))
        } else {
            seq![]
        }
    }
}

/// Drops one `'\r'` that ends a line.
pub open spec fn strip_cr(line: Seq<char>) -> Seq<char> {
    if line.len() > 0 && line.last() == '\r' {
        line.drop_last()
    } else {
        line
    }
}

/// `str::lines`: pieces between `'\n'`, a `'\r'` before the `'\n'` removed;
/// a final line ending adds no empty line.
pub open spec fn lines_of(s: Seq<char>) -> Seq<Seq<char>>
    decreases s.len(),
{
    if s.len() == 0 {
        seq![]
    } else {
        proof {
            lemma_index_of_bounds(s, '\n');
        }
        let k = index_of(s, '\n');
        if k >= s.len() {
            seq![s]
        } else if 0 <= k {
            seq![strip_cr(s.take(k))] + lines_of(s.skip(k + 1))
        } else {
            seq![]
        }
    }
}

/// `str::split(c)`: every piece between occurrences of `c`, empty ones included.
pub open spec fn split_pieces(s: Seq<char>, c: char) -> Seq<Seq<char>>
    decreases s.len(),
{
    proof {
        lemma_index_of_bounds(s, c);
    }
    let k = index_of(s, c);
    if 0 <= k < s.len() {
        seq![s.take(k)] + split_pieces(s.skip(k + 1), c)
    } else {
        seq![s]
    }
}

pub open spec fn has_prefix(s: Seq<char>, p: Seq<char>) -> bool {
    p.len() <= s.len() && s.take(p.len() as int) == p
}

pub open spec fn has_suffix(s: Seq<char>, p: Seq<char>) -> bool {
    p.len() <= s.len() && s.skip(s.len() - p.len()) == p
}

pub open spec fn occurs_at(s: Seq<char>, p: Seq<char>, i: int) -> bool {
    0 <= i && i + p.len() <= s.len() && s.subrange(i, i + p.len()) == p
}

/// `str::contains` with a string pattern.
pub open spec fn has_sub(s: Seq<char>, p: Seq<char>) -> bool {
    exists|i: int| occurs_at(s, p, i)
}

/// The views of a sequence of character vectors.
pub open spec fn views(v: Seq<Vec<char>>) -> Seq<Seq<char>> {
    v.map_values(|x: Vec<char>| x@)
}

/// `str::trim_start_matches(p)`: every leading copy of `p` removed.
pub open spec fn strip_prefixes(s: Seq<char>, p: Seq<char>) -> Seq<char>
    decreases s.len(),
{
    if p.len() > 0 && has_prefix(s, p) {
        strip_prefixes(s.skip(p.len() as int), p)
    } else {
        s
    }
}

/// `str::trim_end_matches(p)`: every trailing copy of `p` removed.
pub open spec fn strip_suffixes(s: Seq<char>, p: Seq<char>) -> Seq<char>
    decreases s.len(),
{
    if p.len() > 0 && has_suffix(s, p) {
        strip_suffixes(s.take(s.len() - p.len()), p)
    } else {
        s
    }
}

/// `s.trim_end_matches(|c| c.is_ascii_digit())`.
pub open spec fn strip_trailing_digits(s: Seq<char>) -> Seq<char>
    decreases s.len(),
{
    if s.len() > 0 && is_digit(s.last()) {
        strip_trailing_digits(s.drop_last())
    } else {
        s
    }
}

/// `s.replace(p, "")` for a non-empty `p`: occurrences removed left to right.
pub open spec fn remove_all(s: Seq<char>, p: Seq<char>) -> Seq<char>
    decreases s.len(),
{
    if p.len() == 0 || s.len() == 0 {
        s
    } else if has_prefix(s, p) {
        remove_all(s.skip(p.len() as int), p)
    } else {
        seq![s[0]] + remove_all(s.drop_first(), p)
    }
}

/// Position of the last `c` in `s`, or -1 (`str::rfind`).
pub open spec fn last_index_of(s: Seq<char>, c: char) -> int
    decreases s.len(),
{
    if s.len() == 0 {
        -1
    } else if s.last() == c {
        s.len() - 1
    } else {
        last_index_of(s.drop_last(), c)
    }
}

pub open spec fn all_ascii_digits(s: Seq<char>) -> bool {
    forall|i: int| 0 <= i < s.len() ==> is_digit(#[trigger] s[i])
}

/// The pieces joined with `sep` between them (`[..].join(sep)`).
pub open spec fn joined(pieces: Seq<Seq<char>>, sep: Seq<char>) -> Seq<char>
    decreases pieces.len(),
{
    if pieces.len() == 0 {
        seq![]
    } else if pieces.len() == 1 {
        pieces[0]
    } else {
        joined(pieces.drop_last(), sep) + sep + pieces.last()
    }
}

// ── Lemmas ─────────────────────────────────────────────────

pub proof fn lemma_index_of_bounds(s: Seq<char>, c: char)
    ensures
        0 <= index_of(s, c) <= s.len(),
        index_of(s, c) < s.len() ==> s[index_of(s, c)] == c,
        forall|i: int| 0 <= i < index_of(s, c) ==> s[i] != c,
    decreases s.len(),
{
    if s.len() > 0 && s[0] != c {
        lemma_index_of_bounds(s.drop_first(), c);
        assert forall|i: int| 0 <= i < index_of(s, c) implies s[i] != c by {
            if i > 0 {
                assert(s[i] == s.drop_first()[i - 1]);
            }
        }
    }
}

/// `index_of` is characterised by its two defining properties.
pub proof fn lemma_index_of_unique(s: Seq<char>, c: char, k: int)
    requires
        0 <= k <= s.len(),
        k < s.len() ==> s[k] == c,
        forall|i: int| 0 <= i < k ==> s[i] != c,
    ensures
        index_of(s, c) == k,
{
    lemma_index_of_bounds(s, c);
    let j = index_of(s, c);
    if j < k {
        assert(s[j] == c);
    } else if k < j {
        assert(s[k] != c);
    }
}

pub proof fn lemma_skip_space_len(s: Seq<char>)
    ensures
        skip_space(s).len() <= s.len(),
        skip_space(s).len() > 0 ==> !is_space(skip_space(s)[0]),
        exists|i: int| 0 <= i <= s.len() && skip_space(s) == s.skip(i),
    decreases s.len(),
{
    if s.len() > 0 && is_space(s[0]) {
        lemma_skip_space_len(s.drop_first());
        let i = choose|i: int| 0 <= i <= s.drop_first().len() && skip_space(s.drop_first()) == s.drop_first().skip(i);
        assert(s.drop_first().skip(i) =~= s.skip(i + 1));
    } else {
        assert(s.skip(0) =~= s);
    }
}

pub proof fn lemma_word_len_bounds(s: Seq<char>)
    ensures
        0 <= word_len(s) <= s.len(),
        s.len() > 0 && !is_space(s[0]) ==> word_len(s) >= 1,
        word_len(s) < s.len() ==> is_space(s[word_len(s)]),
        forall|i: int| 0 <= i < word_len(s) ==> !is_space(s[i]),
    decreases s.len(),
{
    if s.len() > 0 && !is_space(s[0]) {
        lemma_word_len_bounds(s.drop_first());
        assert forall|i: int| 0 <= i < word_len(s) implies !is_space(s[i]) by {
            if i > 0 {
                assert(s[i] == s.drop_first()[i - 1]);
            }
        }
    }
}

pub proof fn lemma_word_len_unique(s: Seq<char>, k: int)
    requires
        0 <= k <= s.len(),
        k < s.len() ==> is_space(s[k]),
        forall|i: int| 0 <= i < k ==> !is_space(s[i]),
    ensures
        word_len(s) == k,
{
    lemma_word_len_bounds(s);
    let j = word_len(s);
    if j < k {
        assert(is_space(s[j]));
    } else if k < j {
        assert(!is_space(s[k]));
    }
}

pub proof fn lemma_skip_space_step(s: Seq<char>, i: int)
    requires
        0 <= i < s.len(),
        is_space(s[i]),
    ensures
        skip_space(s.skip(i)) == skip_space(s.skip(i + 1)),
{
    assert(s.skip(i)[0] == s[i]);
    assert(s.skip(i).drop_first() =~= s.skip(i + 1));
}

pub proof fn lemma_views_push(v: Seq<Vec<char>>, x: Vec<char>)
    ensures
        views(v.push(x)) == views(v).push(x@),
{
    assert(views(v.push(x)) =~= views(v).push(x@));
}

// ── Executable primitives ──────────────────────────────────

/// The characters of a string slice, in order.
pub fn chars_of(s: &str) -> (v: Vec<char>)
    ensures
        v@ == s@,
{
    let mut v: Vec<char> = Vec::new();
    for c in it: s.chars()
        invariant
            v@ == it.seq().take(it.index() as int),
            it.seq() == s@,
    {
        v.push(c);
    }
    v
}

/// Collects characters into a `String` (std's `FromIterator<&char>`).
#[verifier::external_body]
pub(crate) fn string_of(chars: &[char]) -> (s: String)
    ensures
        s@ == chars@,
{
    chars.iter().collect()
}

/// `char::is_whitespace`.
pub fn is_whitespace(c: char) -> (r: bool)
    ensures
        r == is_space(c),
{
    let u = c as u32;
    (9 <= u && u <= 13) || u == 32 || u == 0x85 || u == 0xa0 || u == 0x1680 || (0x2000 <= u
        && u <= 0x200a) || u == 0x2028 || u == 0x2029 || u == 0x202f || u == 0x205f || u
        == 0x3000
}

/// `char::is_ascii_digit`.
pub fn is_ascii_digit(c: char) -> (r: bool)
    ensures
        r == is_digit(c),
{
    '0' <= c && c <= '9'
}

/// The characters `s[from..to]`.
pub fn slice_chars(s: &Vec<char>, from: usize, to: usize) -> (r: Vec<char>)
    requires
        from <= to <= s.len(),
    ensures
        r@ == s@.subrange(from as int, to as int),
{
    let mut r: Vec<char> = Vec::new();
    let mut i = from;
    while i < to
        invariant
            from <= i <= to <= s.len(),
            r@ == s@.subrange(from as int, i as int),
        decreases to - i,
    {
        r.push(s[i]);
        i = i + 1;
        assert(r@ =~= s@.subrange(from as int, i as int));
    }
    r
}

/// Index of the first `c` in `s[from..]`, or `s.len()`.
pub fn find_char(s: &Vec<char>, from: usize, c: char) -> (k: usize)
    requires
        from <= s.len(),
    ensures
        from <= k <= s.len(),
        k - from == index_of(s@.skip(from as int), c),
{
    let mut k = from;
    while k < s.len() && s[k] != c
        invariant
            from <= k <= s.len(),
            forall|i: int| from <= i < k ==> s@[i] != c,
        decreases s.len() - k,
    {
        k = k + 1;
    }
    proof {
        let t = s@.skip(from as int);
        assert forall|i: int| 0 <= i < k - from implies t[i] != c by {
            assert(t[i] == s@[i + from]);
        }
        lemma_index_of_unique(t, c, k - from);
    }
    k
}

/// `str::trim`.
pub fn trim(s: &Vec<char>) -> (r: Vec<char>)
    ensures
        r@ == trimmed(s@),
{
    let mut i: usize = 0;
    assert(s@.skip(0) =~= s@);
    while i < s.len() && is_whitespace(s[i])
        invariant
            i <= s.len(),
            skip_space(s@) == skip_space(s@.skip(i as int)),
        decreases s.len() - i,
    {
        assert(s@.skip(i as int).drop_first() =~= s@.skip(i + 1));
        i = i + 1;
    }
    assert(skip_space(s@) == s@.skip(i as int)) by {
        if i < s.len() {
            assert(s@.skip(i as int)[0] == s@[i as int]);
        }
    }
    let mut j: usize = s.len();
    while j > i && is_whitespace(s[j - 1])
        invariant
            i <= j <= s.len(),
            skip_space(s@) == s@.skip(i as int),
            trimmed(s@) == drop_trailing_space(s@.subrange(i as int, j as int)),
        decreases j,
    {
        assert(s@.subrange(i as int, j as int).drop_last() =~= s@.subrange(i as int, j - 1));
        j = j - 1;
    }
    proof {
        assert(s@.skip(i as int) =~= s@.subrange(i as int, s.len() as int));
    }
    slice_chars(s, i, j)
}

/// `str::lines`.
pub fn lines(s: &Vec<char>) -> (r: Vec<Vec<char>>)
    ensures
        views(r@) == lines_of(s@),
{
    let mut r: Vec<Vec<char>> = Vec::new();
    let mut start: usize = 0;
    assert(s@.skip(0) =~= s@);
    while start < s.len()
        invariant
            start <= s.len(),
            views(r@) + lines_of(s@.skip(start as int)) == lines_of(s@),
        decreases s.len() - start,
    {
        let k = find_char(s, start, '\n');
        let ghost t = s@.skip(start as int);
        let mut end = k;
        if k < s.len() && end > start && s[end - 1] == '\r' {
            end = end - 1;
        }
        let line = slice_chars(s, start, end);
        proof {
            lemma_views_push(r@, line);
            if k < s.len() {
                assert(t.take(k - start) =~= s@.subrange(start as int, k as int));
                assert(t.skip(k - start + 1) =~= s@.skip(k + 1));
                assert(line@ == strip_cr(t.take(k - start)));
            } else {
                assert(t =~= s@.subrange(start as int, k as int));
                assert(s@.skip(k as int) =~= Seq::<char>::empty());
            }
        }
        r.push(line);
        start = if k < s.len() {
            k + 1
        } else {
            k
        };
        assert(views(r@) + lines_of(s@.skip(start as int)) =~= lines_of(s@));
    }
    assert(s@.skip(start as int) =~= Seq::<char>::empty());
    assert(views(r@) + lines_of(s@.skip(start as int)) =~= views(r@));
    r
}

/// `str::split_whitespace`.
pub fn words(s: &Vec<char>) -> (r: Vec<Vec<char>>)
    ensures
        views(r@) == words_of(s@),
{
    let mut r: Vec<Vec<char>> = Vec::new();
    let mut i: usize = 0;
    assert(s@.skip(0) =~= s@);
    while i < s.len()
        invariant
            i <= s.len(),
            views(r@) + words_of(s@.skip(i as int)) == words_of(s@),
        decreases s.len() - i,
    {
        let ghost i0 = i;
        while i < s.len() && is_whitespace(s[i])
            invariant
                i0 <= i <= s.len(),
                skip_space(s@.skip(i0 as int)) == skip_space(s@.skip(i as int)),
            decreases s.len() - i,
        {
            proof {
                lemma_skip_space_step(s@, i as int);
            }
            i = i + 1;
        }
        proof {
            if i < s.len() {
                assert(s@.skip(i as int)[0] == s@[i as int]);
            }
            assert(skip_space(s@.skip(i as int)) == s@.skip(i as int));
        }
        if i == s.len() {
            assert(s@.skip(i as int) =~= Seq::<char>::empty());
            assert(words_of(s@.skip(i0 as int)) =~= Seq::<Seq<char>>::empty());
            assert(views(r@) + words_of(s@.skip(i as int)) =~= views(r@) + words_of(s@.skip(i0 as int)));
        } else {
            let mut e = i;
            while e < s.len() && !is_whitespace(s[e])
                invariant
                    i <= e <= s.len(),
                    forall|j: int| i <= j < e ==> !is_space(s@[j]),
                decreases s.len() - e,
            {
                e = e + 1;
            }
            let word = slice_chars(s, i, e);
            proof {
                let t = s@.skip(i as int);
                assert forall|j: int| 0 <= j < e - i implies !is_space(t[j]) by {
                    assert(t[j] == s@[j + i]);
                }
                if e < s.len() {
                    assert(t[e - i] == s@[e as int]);
                }
                lemma_word_len_unique(t, e - i);
                assert(t.take(e - i) =~= s@.subrange(i as int, e as int));
                assert(t.skip(e - i) =~= s@.skip(e as int));
                lemma_views_push(r@, word);
            }
            r.push(word);
            i = e;
        }
    }
    assert(s@.skip(i as int) =~= Seq::<char>::empty());
    assert(views(r@) + words_of(s@.skip(i as int)) =~= views(r@));
    r
}

/// `str::split(c)`.
pub fn split_char(s: &Vec<char>, c: char) -> (r: Vec<Vec<char>>)
    ensures
        views(r@) == split_pieces(s@, c),
{
    let mut r: Vec<Vec<char>> = Vec::new();
    let mut start: usize = 0;
    assert(s@.skip(0) =~= s@);
    loop
        invariant
            start <= s.len(),
            views(r@) + split_pieces(s@.skip(start as int), c) == split_pieces(s@, c),
        decreases s.len() - start,
    {
        let k = find_char(s, start, c);
        let piece = slice_chars(s, start, k);
        let ghost t = s@.skip(start as int);
        proof {
            lemma_views_push(r@, piece);
            assert(t.take(k - start) =~= s@.subrange(start as int, k as int));
            if k == s.len() {
                assert(t =~= s@.subrange(start as int, k as int));
            } else {
                assert(t.skip(k - start + 1) =~= s@.skip(k + 1));
            }
        }
        r.push(piece);
        if k == s.len() {
            assert(views(r@) =~= split_pieces(s@, c));
            return r;
        }
        start = k + 1;
        assert(views(r@) + split_pieces(s@.skip(start as int), c) =~= split_pieces(s@, c));
    }
}

/// `s.starts_with(p)`.
pub fn starts_with(s: &Vec<char>, p: &str) -> (r: bool)
    ensures
        r == has_prefix(s@, p@),
{
    let pc = chars_of(p);
    if pc.len() > s.len() {
        return false;
    }
    let mut i: usize = 0;
    while i < pc.len()
        invariant
            pc@ == p@,
            pc.len() <= s.len(),
            i <= pc.len(),
            forall|j: int| 0 <= j < i ==> s@[j] == pc@[j],
        decreases pc.len() - i,
    {
        if s[i] != pc[i] {
            assert(s@.take(pc@.len() as int)[i as int] != pc@[i as int]);
            return false;
        }
        i = i + 1;
    }
    assert(s@.take(pc@.len() as int) =~= pc@);
    true
}

/// Whether `p` occurs in `s` at position `at`.
pub fn occurs(s: &Vec<char>, p: &Vec<char>, at: usize) -> (r: bool)
    ensures
        r == occurs_at(s@, p@, at as int),
{
    if at > s.len() || p.len() > s.len() - at {
        return false;
    }
    let mut i: usize = 0;
    while i < p.len()
        invariant
            at + p.len() <= s.len(),
            i <= p.len(),
            forall|j: int| 0 <= j < i ==> s@[at + j] == p@[j],
        decreases p.len() - i,
    {
        if s[at + i] != p[i] {
            assert(s@.subrange(at as int, at + p.len())[i as int] != p@[i as int]);
            return false;
        }
        i = i + 1;
    }
    assert(s@.subrange(at as int, at + p.len()) =~= p@);
    true
}

/// Position of the first occurrence of `p` in `s` (`str::find`).
pub fn find(s: &Vec<char>, p: &str) -> (r: Option<usize>)
    ensures
        match r {
            Some(i) => occurs_at(s@, p@, i as int) && forall|j: int| 0 <= j < i ==> !occurs_at(s@, p@, j),
            None => !has_sub(s@, p@),
        },
{
    let pc = chars_of(p);
    let mut i: usize = 0;
    loop
        invariant
            pc@ == p@,
            i <= s.len(),
            forall|j: int| 0 <= j < i ==> !occurs_at(s@, p@, j),
        ensures
            i == s.len(),
            forall|j: int| 0 <= j <= i ==> !occurs_at(s@, p@, j),
        decreases s.len() - i,
    {
        if occurs(s, &pc, i) {
            return Some(i);
        }
        if i == s.len() {
            break;
        }
        i = i + 1;
    }
    assert forall|j: int| !occurs_at(s@, p@, j) by {
        if j > i {
            assert(!(j + p@.len() <= s@.len()));
        }
    }
    None
}

/// `s.contains(p)`.
pub fn contains(s: &Vec<char>, p: &str) -> (r: bool)
    ensures
        r == has_sub(s@, p@),
{
    find(s, p).is_some()
}

// ── Integer literals ───────────────────────────────────────

/// Value of a digit in base 10 or 16, or -1 when `c` is not a digit.
pub open spec fn digit_of(c: char, radix: int) -> int {
    if '0' <= c <= '9' {
        c as int - '0' as int
    } else if radix == 16 && 'a' <= c <= 'f' {
        c as int - 'a' as int + 10
    } else if radix == 16 && 'A' <= c <= 'F' {
        c as int - 'A' as int + 10
    } else {
        -1
    }
}

pub open spec fn all_digits(s: Seq<char>, radix: int) -> bool {
    forall|i: int| 0 <= i < s.len() ==> digit_of(#[trigger] s[i], radix) >= 0
}

pub open spec fn digits_value(s: Seq<char>, radix: int) -> int
    decreases s.len(),
{
    if s.len() == 0 {
        0
    } else {
        digits_value(s.drop_last(), radix) * radix + digit_of(s.last(), radix)
    }
}

/// What Rust's `from_str_radix` gives for an integer type holding `lo..=hi`:
/// an optional `+` (or `-` for a signed type), then at least one digit, and
/// a value in range.
pub open spec fn int_literal(s: Seq<char>, radix: int, lo: int, hi: int) -> Option<int> {
    let neg = lo < 0 && s.len() > 0 && s[0] == '-';
    let body = if s.len() > 0 && (s[0] == '+' || neg) {
        s.drop_first()
    } else {
        s
    };
    if body.len() == 0 || !all_digits(body, radix) {
        None
    } else {
        let v = if neg {
            -digits_value(body, radix)
        } else {
            digits_value(body, radix)
        };
        if lo <= v <= hi {
            Some(v)
        } else {
            None
        }
    }
}

pub proof fn lemma_digits_value_grows(s: Seq<char>, radix: int, k: int)
    requires
        radix == 10 || radix == 16,
        all_digits(s, radix),
        0 <= k <= s.len(),
    ensures
        digits_value(s.take(k), radix) <= digits_value(s, radix),
        0 <= digits_value(s, radix),
    decreases s.len(),
{
    if s.len() > 0 {
        let t = s.drop_last();
        assert(all_digits(t, radix)) by {
            assert forall|i: int| 0 <= i < t.len() implies digit_of(#[trigger] t[i], radix) >= 0 by {
                assert(t[i] == s[i]);
            }
        }
        assert(digit_of(s[s.len() - 1], radix) >= 0);
        if k < s.len() {
            lemma_digits_value_grows(t, radix, k);
            assert(t.take(k) =~= s.take(k));
        } else {
            lemma_digits_value_grows(t, radix, 0);
            assert(s.take(k) =~= s);
        }
        let a = digits_value(t, radix);
        assert(a * radix >= a) by (nonlinear_arith)
            requires
                a >= 0,
                radix >= 1,
        ;
    }
}

/// Value of a digit, or -1.
pub fn digit(c: char, radix: u32) -> (d: i32)
    ensures
        d == digit_of(c, radix as int),
{
    if '0' <= c && c <= '9' {
        (c as u32 - '0' as u32) as i32
    } else if radix == 16 && 'a' <= c && c <= 'f' {
        (c as u32 - 'a' as u32 + 10) as i32
    } else if radix == 16 && 'A' <= c && c <= 'F' {
        (c as u32 - 'A' as u32 + 10) as i32
    } else {
        -1
    }
}

/// The value of the digits `s[from..]`, when they are one or more digits
/// whose value is at most `limit`.
pub fn parse_digits(s: &Vec<char>, from: usize, radix: u32, limit: u64) -> (r: Option<u64>)
    requires
        from <= s.len(),
        radix == 10 || radix == 16,
    ensures
        ({
            let body = s@.skip(from as int);
            match r {
                Some(v) => body.len() > 0 && all_digits(body, radix as int) && v == digits_value(
                    body,
                    radix as int,
                ) && v <= limit,
                None => body.len() == 0 || !all_digits(body, radix as int) || digits_value(
                    body,
                    radix as int,
                ) > limit,
            }
        }),
{
    let ghost body = s@.skip(from as int);
    if from == s.len() {
        return None;
    }
    let mut acc: u64 = 0;
    let mut i = from;
    while i < s.len()
        invariant
            from <= i <= s.len(),
            radix == 10 || radix == 16,
            body == s@.skip(from as int),
            all_digits(body.take(i - from), radix as int),
            acc == digits_value(body.take(i - from), radix as int),
            acc <= limit,
        decreases s.len() - i,
    {
        let d = digit(s[i], radix);
        if d < 0 {
            assert(body[i - from] == s@[i as int]);
            return None;
        }
        assert((acc as u128) * (radix as u128) <= 0xffff_ffff_ffff_ffffu128 * 16) by (nonlinear_arith)
            requires
                acc <= 0xffff_ffff_ffff_ffffu64,
                radix <= 16,
        ;
        assert(0 <= d <= 15);
        let next: u128 = (acc as u128) * (radix as u128) + d as u128;
        proof {
            let pre = body.take(i - from);
            let post = body.take(i - from + 1);
            assert(post.drop_last() =~= pre);
            assert(post.last() == s@[i as int]);
            assert(all_digits(post, radix as int)) by {
                assert forall|j: int| 0 <= j < post.len() implies digit_of(#[trigger] post[j], radix as int) >= 0 by {
                    if j < pre.len() {
                        assert(post[j] == pre[j]);
                    }
                }
            }
        }
        if next > limit as u128 {
            proof {
                let post = body.take(i - from + 1);
                if all_digits(body, radix as int) {
                    lemma_digits_value_grows(body, radix as int, i - from + 1);
                }
            }
            return None;
        }
        acc = next as u64;
        i = i + 1;
    }
    assert(body.take(i - from) =~= body);
    Some(acc)
}

/// `s.parse::<u64>()`.
pub fn parse_u64(s: &Vec<char>) -> (r: Option<u64>)
    ensures
        r is Some <==> int_literal(s@, 10, 0, u64::MAX as int) is Some,
        r matches Some(v) ==> int_literal(s@, 10, 0, u64::MAX as int) == Some(v as int),
{
    let from: usize = if s.len() > 0 && s[0] == '+' {
        1
    } else {
        0
    };
    proof {
        if from == 1 {
            assert(s@.skip(1) =~= s@.drop_first());
        } else {
            assert(s@.skip(0) =~= s@);
        }
    }
    parse_digits(s, from, 10, u64::MAX)
}

/// `s.parse::<u32>()`.
pub fn parse_u32(s: &Vec<char>) -> (r: Option<u32>)
    ensures
        r is Some <==> int_literal(s@, 10, 0, u32::MAX as int) is Some,
        r matches Some(v) ==> int_literal(s@, 10, 0, u32::MAX as int) == Some(v as int),
{
    let from: usize = if s.len() > 0 && s[0] == '+' {
        1
    } else {
        0
    };
    proof {
        if from == 1 {
            assert(s@.skip(1) =~= s@.drop_first());
        } else {
            assert(s@.skip(0) =~= s@);
        }
    }
    match parse_digits(s, from, 10, u32::MAX as u64) {
        Some(v) => Some(v as u32),
        None => None,
    }
}

/// `u32::from_str_radix(s, 16)`.
pub fn parse_hex_u32(s: &Vec<char>) -> (r: Option<u32>)
    ensures
        r is Some <==> int_literal(s@, 16, 0, u32::MAX as int) is Some,
        r matches Some(v) ==> int_literal(s@, 16, 0, u32::MAX as int) == Some(v as int),
{
    let from: usize = if s.len() > 0 && s[0] == '+' {
        1
    } else {
        0
    };
    proof {
        if from == 1 {
            assert(s@.skip(1) =~= s@.drop_first());
        } else {
            assert(s@.skip(0) =~= s@);
        }
    }
    match parse_digits(s, from, 16, u32::MAX as u64) {
        Some(v) => Some(v as u32),
        None => None,
    }
}

/// `s.parse::<i64>()`.
pub fn parse_i64(s: &Vec<char>) -> (r: Option<i64>)
    ensures
        r is Some <==> int_literal(s@, 10, i64::MIN as int, i64::MAX as int) is Some,
        r matches Some(v) ==> int_literal(s@, 10, i64::MIN as int, i64::MAX as int) == Some(
            v as int,
        ),
{
    let neg = s.len() > 0 && s[0] == '-';
    let from: usize = if s.len() > 0 && (s[0] == '+' || neg) {
        1
    } else {
        0
    };
    proof {
        if from == 1 {
            assert(s@.skip(1) =~= s@.drop_first());
        } else {
            assert(s@.skip(0) =~= s@);
        }
    }
    if neg {
        match parse_digits(s, from, 10, 0x8000_0000_0000_0000u64) {
            Some(v) => {
                if v == 0x8000_0000_0000_0000u64 {
                    Some(i64::MIN)
                } else {
                    Some(-(v as i64))
                }
            },
            None => None,
        }
    } else {
        match parse_digits(s, from, 10, i64::MAX as u64) {
            Some(v) => Some(v as i64),
            None => None,
        }
    }
}

/// Whether the characters spell exactly `p`.
pub fn equals(s: &Vec<char>, p: &str) -> (r: bool)
    ensures
        r == (s@ == p@),
{
    let pc = chars_of(p);
    if pc.len() != s.len() {
        return false;
    }
    let mut i: usize = 0;
    while i < pc.len()
        invariant
            pc@ == p@,
            pc.len() == s.len(),
            i <= pc.len(),
            forall|j: int| 0 <= j < i ==> s@[j] == pc@[j],
        decreases pc.len() - i,
    {
        if s[i] != pc[i] {
            return false;
        }
        i = i + 1;
    }
    assert(s@ =~= pc@);
    true
}

/// `str::trim_start_matches(p)`.
pub fn trim_start_matches(s: &Vec<char>, p: &str) -> (r: Vec<char>)
    ensures
        r@ == strip_prefixes(s@, p@),
{
    let pc = chars_of(p);
    if pc.len() == 0 {
        return slice_chars(s, 0, s.len());
    }
    let mut i: usize = 0;
    assert(s@.skip(0) =~= s@);
    loop
        invariant
            pc@ == p@,
            pc.len() > 0,
            i <= s.len(),
            strip_prefixes(s@, p@) == strip_prefixes(s@.skip(i as int), p@),
        decreases s.len() - i,
    {
        let rest = slice_chars(s, i, s.len());
        assert(rest@ =~= s@.skip(i as int));
        if !starts_with(&rest, p) {
            assert(s@.skip(i as int) =~= s@.subrange(i as int, s.len() as int));
            return rest;
        }
        assert(s@.skip(i as int).skip(pc.len() as int) =~= s@.skip(i + pc.len()));
        i = i + pc.len();
    }
}

/// `str::trim_end_matches(c)` for one character.
pub fn trim_end_char(s: &Vec<char>, c: char) -> (r: Vec<char>)
    ensures
        r@ == strip_suffixes(s@, seq![c]),
{
    let mut j: usize = s.len();
    assert(s@.take(j as int) =~= s@);
    while j > 0 && s[j - 1] == c
        invariant
            j <= s.len(),
            strip_suffixes(s@, seq![c]) == strip_suffixes(s@.take(j as int), seq![c]),
        decreases j,
    {
        let ghost t = s@.take(j as int);
        assert(t.skip(t.len() - 1) =~= seq![c]);
        assert(t.take(t.len() - 1) =~= s@.take(j - 1));
        j = j - 1;
    }
    proof {
        let t = s@.take(j as int);
        if j > 0 {
            assert(t.skip(t.len() - 1)[0] == s@[j - 1]);
        }
    }
    slice_chars(s, 0, j)
}

/// `s.trim_end_matches(|c| c.is_ascii_digit())`.
pub fn trim_trailing_digits(s: &Vec<char>) -> (r: Vec<char>)
    ensures
        r@ == strip_trailing_digits(s@),
{
    let mut j: usize = s.len();
    assert(s@.take(j as int) =~= s@);
    while j > 0 && is_ascii_digit(s[j - 1])
        invariant
            j <= s.len(),
            strip_trailing_digits(s@) == strip_trailing_digits(s@.take(j as int)),
        decreases j,
    {
        assert(s@.take(j as int).drop_last() =~= s@.take(j - 1));
        j = j - 1;
    }
    slice_chars(s, 0, j)
}

/// `s.replace(c, "")`.
pub fn remove_char(s: &Vec<char>, c: char) -> (r: Vec<char>)
    ensures
        r@ == s@.filter(|x: char| x != c),
{
    let mut r: Vec<char> = Vec::new();
    let mut i: usize = 0;
    while i < s.len()
        invariant
            i <= s.len(),
            r@ == s@.take(i as int).filter(|x: char| x != c),
        decreases s.len() - i,
    {
        proof {
            reveal_with_fuel(Seq::<char>::filter, 1);
            assert(s@.take(i + 1).drop_last() =~= s@.take(i as int));
        }
        if s[i] != c {
            r.push(s[i]);
        }
        i = i + 1;
    }
    assert(s@.take(i as int) =~= s@);
    r
}

/// `s.replace(p, "")` for a non-empty pattern.
pub fn remove_all_str(s: &Vec<char>, p: &str) -> (r: Vec<char>)
    ensures
        r@ == remove_all(s@, p@),
{
    let pc = chars_of(p);
    if pc.len() == 0 {
        return slice_chars(s, 0, s.len());
    }
    let mut r: Vec<char> = Vec::new();
    let mut i: usize = 0;
    assert(s@.skip(0) =~= s@);
    while i < s.len()
        invariant
            pc@ == p@,
            pc.len() > 0,
            i <= s.len(),
            r@ + remove_all(s@.skip(i as int), p@) == remove_all(s@, p@),
        decreases s.len() - i,
    {
        let ghost t = s@.skip(i as int);
        if occurs(s, &pc, i) {
            assert(t.take(pc.len() as int) =~= s@.subrange(i as int, i + pc.len()));
            assert(t.skip(pc.len() as int) =~= s@.skip(i + pc.len()));
            i = i + pc.len();
        } else {
            assert(!has_prefix(t, p@)) by {
                if has_prefix(t, p@) {
                    assert(t.take(pc.len() as int) =~= s@.subrange(i as int, i + pc.len()));
                }
            }
            assert(t.drop_first() =~= s@.skip(i + 1));
            assert(t[0] == s@[i as int]);
            r.push(s[i]);
            i = i + 1;
            assert(r@ + remove_all(s@.skip(i as int), p@) =~= remove_all(s@, p@));
        }
    }
    assert(s@.skip(i as int) =~= Seq::<char>::empty());
    assert(r@ + remove_all(s@.skip(i as int), p@) =~= r@);
    r
}

/// `s.rfind(c)`.
pub fn rfind_char(s: &Vec<char>, c: char) -> (r: Option<usize>)
    ensures
        match r {
            Some(k) => k == last_index_of(s@, c) && k < s@.len() && s@[k as int] == c,
            None => last_index_of(s@, c) == -1,
        },
{
    let mut j: usize = s.len();
    assert(s@.take(j as int) =~= s@);
    while j > 0 && s[j - 1] != c
        invariant
            j <= s.len(),
            last_index_of(s@, c) == last_index_of(s@.take(j as int), c),
        decreases j,
    {
        assert(s@.take(j as int).drop_last() =~= s@.take(j - 1));
        j = j - 1;
    }
    if j == 0 {
        None
    } else {
        assert(s@.take(j as int).last() == s@[j - 1]);
        Some(j - 1)
    }
}

/// Whether every character is an ASCII digit.
pub fn all_digits_from(s: &Vec<char>, from: usize) -> (r: bool)
    requires
        from <= s.len(),
    ensures
        r == all_ascii_digits(s@.skip(from as int)),
{
    let mut i = from;
    while i < s.len()
        invariant
            from <= i <= s.len(),
            forall|j: int| from <= j < i ==> is_digit(s@[j]),
        decreases s.len() - i,
    {
        if !is_ascii_digit(s[i]) {
            assert(s@.skip(from as int)[i - from] == s@[i as int]);
            return false;
        }
        i = i + 1;
    }
    assert forall|j: int| 0 <= j < s@.skip(from as int).len() implies is_digit(#[trigger] s@.skip(from as int)[j]) by {
        assert(s@.skip(from as int)[j] == s@[j + from]);
    }
    true
}

/// The pieces `pieces[from..]` joined with single spaces.
pub fn join_spaced(pieces: &Vec<Vec<char>>, from: usize) -> (r: Vec<char>)
    requires
        from < pieces.len(),
    ensures
        r@ == joined(views(pieces@).skip(from as int), seq![' ']),
{
    let mut r = slice_chars(&pieces[from], 0, pieces[from].len());
    let mut i = from + 1;
    assert(views(pieces@).skip(from as int).take(1) =~= seq![pieces@[from as int]@]);
    while i < pieces.len()
        invariant
            from < i <= pieces.len(),
            r@ == joined(views(pieces@).skip(from as int).take(i - from), seq![' ']),
        decreases pieces.len() - i,
    {
        let ghost pre = views(pieces@).skip(from as int).take(i - from);
        let ghost post = views(pieces@).skip(from as int).take(i - from + 1);
        assert(post.drop_last() =~= pre);
        assert(post.last() == pieces@[i as int]@);
        r.push(' ');
        let mut k: usize = 0;
        let ghost r0 = r@;
        while k < pieces[i].len()
            invariant
                i < pieces.len(),
                k <= pieces@[i as int]@.len(),
                r@ == r0 + pieces@[i as int]@.take(k as int),
            decreases pieces@[i as int]@.len() - k,
        {
            r.push(pieces[i][k]);
            k = k + 1;
            assert(r@ =~= r0 + pieces@[i as int]@.take(k as int));
        }
        assert(pieces@[i as int]@.take(k as int) =~= pieces@[i as int]@);
        assert(r@ =~= joined(post, seq![' ']));
        i = i + 1;
    }
    assert(views(pieces@).skip(from as int).take(i - from) =~= views(pieces@).skip(from as int));
    r
}

/// `s.ends_with(p)`.
pub fn ends_with(s: &Vec<char>, p: &str) -> (r: bool)
    ensures
        r == has_suffix(s@, p@),
{
    let pc = chars_of(p);
    if pc.len() > s.len() {
        return false;
    }
    let at = s.len() - pc.len();
    let r = occurs(s, &pc, at);
    assert(s@.skip(at as int) =~= s@.subrange(at as int, at + pc.len()));
    r
}

/// `str::trim_end_matches(p)` for a string pattern.
pub fn trim_end_matches(s: &Vec<char>, p: &str) -> (r: Vec<char>)
    ensures
        r@ == strip_suffixes(s@, p@),
{
    let pc = chars_of(p);
    if pc.len() == 0 {
        return slice_chars(s, 0, s.len());
    }
    let mut j: usize = s.len();
    assert(s@.take(j as int) =~= s@);
    loop
        invariant
            pc@ == p@,
            pc.len() > 0,
            j <= s.len(),
            strip_suffixes(s@, p@) == strip_suffixes(s@.take(j as int), p@),
        decreases j,
    {
        let head = slice_chars(s, 0, j);
        assert(head@ =~= s@.take(j as int));
        if !ends_with(&head, p) {
            return head;
        }
        assert(s@.take(j as int).take(j - pc.len()) =~= s@.take(j - pc.len()));
        j = j - pc.len();
    }
}

/// Stripping the `.service` suffix of `<name>.service` leaves `<name>` when
/// the name does not itself end in `.service`.
pub proof fn lemma_strip_service(unit: Seq<char>, name: Seq<char>)
    requires
        unit == name + ".service"@,
        name.len() < 8 || name[name.len() - 1] != 'e',
    ensures
        strip_suffixes(unit, ".service"@) == name,
{
    reveal_strlit(".service");
    let p = ".service"@;
    assert(p.len() == 8);
    assert(unit.skip(unit.len() - 8) =~= p);
    assert(unit.take(unit.len() - 8) =~= name);
    assert(has_suffix(unit, p));
    if name.len() >= 8 {
        assert(name.skip(name.len() - 8)[7] == name[name.len() - 1]);
        assert(p[7] == 'e');
        assert(name.skip(name.len() - 8) != p);
    }
    assert(!has_suffix(name, p));
    assert(strip_suffixes(name, p) == name);
    assert(strip_suffixes(unit, p) == strip_suffixes(name, p));
}

// ── Floating-point literals ────────────────────────────────

/// `c` is the lowercase ASCII letter `lower` in either case.
pub open spec fn same_letter(c: char, lower: char) -> bool {
    c == lower || (c as u32) + 32 == lower as u32
}

/// `s` spells the lowercase ASCII word `w`, ignoring ASCII case.
pub open spec fn spells(s: Seq<char>, w: Seq<char>) -> bool {
    s.len() == w.len() && forall|i: int| 0 <= i < s.len() ==> same_letter(#[trigger] s[i], w[i])
}

/// The text after one leading `+` or `-`.
pub open spec fn unsigned(s: Seq<char>) -> Seq<char> {
    if s.len() > 0 && (s[0] == '+' || s[0] == '-') {
        s.skip(1)
    } else {
        s
    }
}

pub open spec fn is_exp_mark(c: char) -> bool {
    c == 'e' || c == 'E'
}

/// Digits with at most one decimal point and at least one digit:
/// `1`, `1.`, `.5`, `1.5`.
pub open spec fn mantissa(m: Seq<char>) -> bool {
    ||| m.len() > 0 && all_ascii_digits(m)
    ||| exists|d: int|
        0 <= d < m.len() && m[d] == '.' && all_ascii_digits(m.take(d)) && all_ascii_digits(
            #[trigger] m.skip(d + 1),
        ) && m.len() > 1
}

/// An optionally signed, non-empty run of digits.
pub open spec fn exponent(e: Seq<char>) -> bool {
    unsigned(e).len() > 0 && all_ascii_digits(unsigned(e))
}

/// A mantissa, then optionally an `e` or `E` and an exponent.
pub open spec fn decimal(b: Seq<char>) -> bool {
    ||| (forall|i: int| 0 <= i < b.len() ==> !is_exp_mark(#[trigger] b[i])) && mantissa(b)
    ||| exists|k: int|
        0 <= k < b.len() && is_exp_mark(b[k]) && (forall|i: int|
            0 <= i < k ==> !is_exp_mark(#[trigger] b[i])) && mantissa(#[trigger] b.take(k))
            && exponent(b.skip(k + 1))
}

/// The texts that std's `f64::from_str` accepts, by the grammar of its
/// documentation: an optional sign, then `inf`, `infinity` or `nan` in any
/// ASCII case, or a decimal number with an optional exponent.
pub open spec fn float_literal(s: Seq<char>) -> bool {
    let b = unsigned(s);
    spells(b, "inf"@) || spells(b, "infinity"@) || spells(b, "nan"@) || decimal(b)
}

pub(crate) fn spells_word(s: &Vec<char>, from: usize, w: &str) -> (r: bool)
    requires
        from <= s.len(),
    ensures
        r == spells(s@.skip(from as int), w@),
{
    let wc = chars_of(w);
    if s.len() - from != wc.len() {
        return false;
    }
    let mut i: usize = 0;
    while i < wc.len()
        invariant
            wc@ == w@,
            s.len() - from == wc.len(),
            from <= s.len(),
            i <= wc.len(),
            forall|j: int| 0 <= j < i ==> same_letter(#[trigger] s@[from + j], w@[j]),
        decreases wc.len() - i,
    {
        let c = s[from + i];
        if !(c == wc[i] || (wc[i] as u32 >= 32 && c as u32 == wc[i] as u32 - 32)) {
            assert(!same_letter(s@.skip(from as int)[i as int], w@[i as int]));
            return false;
        }
        i = i + 1;
    }
    assert forall|j: int| 0 <= j < s@.skip(from as int).len() implies same_letter(
        #[trigger] s@.skip(from as int)[j],
        w@[j],
    ) by {
        assert(s@.skip(from as int)[j] == s@[from + j]);
    }
    true
}

/// Whether `s[from..to]` is all ASCII digits.
fn digits_between(s: &Vec<char>, from: usize, to: usize) -> (r: bool)
    requires
        from <= to <= s.len(),
    ensures
        r == all_ascii_digits(s@.subrange(from as int, to as int)),
{
    let mut i = from;
    while i < to
        invariant
            from <= i <= to,
            to <= s.len(),
            forall|j: int| from <= j < i ==> is_digit(#[trigger] s@[j]),
        decreases to - i,
    {
        if !is_ascii_digit(s[i]) {
            assert(!is_digit(s@.subrange(from as int, to as int)[i - from]));
            return false;
        }
        i = i + 1;
    }
    assert forall|j: int| 0 <= j < to - from implies is_digit(
        #[trigger] s@.subrange(from as int, to as int)[j],
    ) by {
        assert(s@.subrange(from as int, to as int)[j] == s@[from + j]);
    }
    true
}

/// Whether `s[from..to]` is a mantissa.
fn is_mantissa(s: &Vec<char>, from: usize, to: usize) -> (r: bool)
    requires
        from <= to <= s.len(),
    ensures
        r == mantissa(s@.subrange(from as int, to as int)),
{
    let ghost m = s@.subrange(from as int, to as int);
    let mut d = from;
    while d < to && s[d] != '.'
        invariant
            from <= d <= to,
            to <= s.len(),
            forall|j: int| from <= j < d ==> s@[j] != '.',
        decreases to - d,
    {
        d = d + 1;
    }
    if d == to {
        let r = to > from && digits_between(s, from, to);
        proof {
            if !r && to > from {
                assert forall|e: int|
                    0 <= e < m.len() && m[e] == '.' implies !(all_ascii_digits(m.take(e))
                    && all_ascii_digits(#[trigger] m.skip(e + 1)) && m.len() > 1) by {
                    assert(m[e] == s@[from + e]);
                }
            }
            if to == from {
                assert(m.len() == 0);
            }
        }
        return r;
    }
    let before = digits_between(s, from, d);
    let after = digits_between(s, d + 1, to);
    let r = before && after && to - from > 1;
    proof {
        let e = d - from;
        assert(m[e] == '.');
        assert(m.take(e) =~= s@.subrange(from as int, d as int));
        assert(m.skip(e + 1) =~= s@.subrange(d + 1, to as int));
        assert(!all_ascii_digits(m));
        if !r {
            assert forall|e2: int|
                0 <= e2 < m.len() && m[e2] == '.' implies !(all_ascii_digits(m.take(e2))
                && all_ascii_digits(#[trigger] m.skip(e2 + 1)) && m.len() > 1) by {
                assert(m[e2] == s@[from + e2]);
                if e2 < e {
                } else if e2 > e {
                    assert(m.take(e2)[e] == '.');
                }
            }
        }
    }
    r
}

/// Whether std's `f64::from_str` accepts `s` (see `float_literal`).
pub fn is_float_literal(s: &Vec<char>) -> (r: bool)
    ensures
        r == float_literal(s@),
{
    let from: usize = if s.len() > 0 && (s[0] == '+' || s[0] == '-') {
        1
    } else {
        0
    };
    let ghost b = unsigned(s@);
    assert(b =~= s@.skip(from as int));
    if spells_word(s, from, "inf") || spells_word(s, from, "infinity") || spells_word(
        s,
        from,
        "nan",
    ) {
        return true;
    }
    let mut k = from;
    while k < s.len() && s[k] != 'e' && s[k] != 'E'
        invariant
            from <= k <= s.len(),
            forall|j: int| from <= j < k ==> !is_exp_mark(#[trigger] s@[j]),
        decreases s.len() - k,
    {
        k = k + 1;
    }
    let m = is_mantissa(s, from, k);
    let ghost kk = k - from;
    assert(b.take(kk) =~= s@.subrange(from as int, k as int));
    if k == s.len() {
        proof {
            assert forall|i: int| 0 <= i < b.len() implies !is_exp_mark(#[trigger] b[i]) by {
                assert(b[i] == s@[from + i]);
            }
            assert(b =~= b.take(kk));
        }
        return m;
    }
    let e_from: usize = if k + 1 < s.len() && (s[k + 1] == '+' || s[k + 1] == '-') {
        k + 2
    } else {
        k + 1
    };
    let e = e_from < s.len() && digits_between(s, e_from, s.len());
    let r = m && e;
    proof {
        let ex = b.skip(kk + 1);
        assert(ex =~= s@.skip(k + 1));
        assert(unsigned(ex) =~= s@.subrange(e_from as int, s.len() as int));
        assert(b[kk] == s@[k as int]);
        assert(is_exp_mark(b[kk]));
        assert forall|i: int| 0 <= i < kk implies !is_exp_mark(#[trigger] b[i]) by {
            assert(b[i] == s@[from + i]);
        }
        if r {
            assert(exponent(ex));
        } else {
            assert(!(forall|i: int| 0 <= i < b.len() ==> !is_exp_mark(#[trigger] b[i])));
            assert forall|k2: int|
                0 <= k2 < b.len() && is_exp_mark(b[k2]) && (forall|i: int|
                    0 <= i < k2 ==> !is_exp_mark(#[trigger] b[i])) implies !(mantissa(
                #[trigger] b.take(k2),
            ) && exponent(b.skip(k2 + 1))) by {
                if k2 < kk {
                    assert(b[k2] == s@[from + k2]);
                } else if k2 > kk {
                } else {
                }
            }
        }
    }
    r
}

// ── Ordering of texts ──────────────────────────────────────

/// `a` sorts before `b` as `String`s do: by code point, a proper prefix
/// first (UTF-8 keeps the order of code points).
pub open spec fn text_lt(a: Seq<char>, b: Seq<char>) -> bool
    decreases a.len(),
{
    if a.len() == 0 {
        b.len() > 0
    } else if b.len() == 0 {
        false
    } else if a[0] != b[0] {
        a[0] < b[0]
    } else {
        text_lt(a.drop_first(), b.drop_first())
    }
}

pub proof fn lemma_text_lt_irreflexive(a: Seq<char>)
    ensures
        !text_lt(a, a),
    decreases a.len(),
{
    if a.len() > 0 {
        lemma_text_lt_irreflexive(a.drop_first());
    }
}

pub proof fn lemma_text_lt_transitive(a: Seq<char>, b: Seq<char>, c: Seq<char>)
    requires
        text_lt(a, b),
        text_lt(b, c),
    ensures
        text_lt(a, c),
    decreases a.len(),
{
    if a.len() > 0 && b.len() > 0 && c.len() > 0 && a[0] == b[0] && b[0] == c[0] {
        lemma_text_lt_transitive(a.drop_first(), b.drop_first(), c.drop_first());
    }
}

pub proof fn lemma_text_lt_total(a: Seq<char>, b: Seq<char>)
    requires
        a != b,
    ensures
        text_lt(a, b) || text_lt(b, a),
    decreases a.len(),
{
    if a.len() > 0 && b.len() > 0 && a[0] == b[0] {
        if a.drop_first() == b.drop_first() {
            assert(a =~= seq![a[0]] + a.drop_first());
            assert(b =~= seq![b[0]] + b.drop_first());
        }
        lemma_text_lt_total(a.drop_first(), b.drop_first());
    } else if a.len() == 0 && b.len() == 0 {
        assert(a =~= b);
    }
}

/// Whether `a` sorts before `b`.
pub fn text_less(a: &Vec<char>, b: &Vec<char>) -> (r: bool)
    ensures
        r == text_lt(a@, b@),
{
    let mut i: usize = 0;
    assert(a@.skip(0) =~= a@);
    assert(b@.skip(0) =~= b@);
    while i < a.len() && i < b.len() && a[i] == b[i]
        invariant
            i <= a.len(),
            i <= b.len(),
            text_lt(a@, b@) == text_lt(a@.skip(i as int), b@.skip(i as int)),
        decreases a.len() - i,
    {
        assert(a@.skip(i as int).drop_first() =~= a@.skip(i + 1));
        assert(b@.skip(i as int).drop_first() =~= b@.skip(i + 1));
        i = i + 1;
    }
    if i == a.len() {
        i < b.len()
    } else if i == b.len() {
        false
    } else {
        a[i] < b[i]
    }
}

} // verus!
